//! The placement layers a workspace delegates to: each holds its windows in order, with their
//! geometry; a window's index is the structural position it is reinserted at.
use vstd::prelude::*;

use crate::geometry::{Point, Rect, Size};

verus! {

/// The layer a window is managed by.
#[derive(Clone, Copy, Debug, PartialEq, Eq, Structural, Hash)]
pub enum ManagedLayer {
    Tiling,
    Floating,
    Sticky,
}

/// What a maximized window returns to when it is unmaximized.
#[derive(Clone, Copy, Debug, PartialEq, Eq, Structural)]
pub struct MaximizedState {
    pub original_geometry: Rect,
    pub original_layer: ManagedLayer,
}

/// Whether a resize grows or shrinks a window.
#[derive(Clone, Copy, Debug, PartialEq, Eq, Structural)]
pub enum ResizeDirection {
    Outwards,
    Inwards,
}

/// The edges a resize moves.
#[derive(Clone, Copy, Debug, PartialEq, Eq, Structural)]
pub struct ResizeEdge {
    pub top: bool,
    pub bottom: bool,
    pub left: bool,
    pub right: bool,
}

/// A window as a layer holds it.
#[derive(Clone, Copy, Debug, PartialEq, Eq, Structural)]
pub struct Mapped {
    pub id: u64,
    pub geometry: Rect,
    pub maximized: Option<MaximizedState>,
}

pub open spec fn has_id(s: Seq<Mapped>, id: u64) -> bool {
    exists|i: int| 0 <= i < s.len() && s[i].id == id
}

pub open spec fn unique_ids(s: Seq<Mapped>) -> bool {
    forall|i: int, j: int| 0 <= i < j < s.len() ==> s[i].id != s[j].id
}

/// Geometry of the window `id` in `s`.
pub open spec fn geometry_in(s: Seq<Mapped>, id: u64) -> Rect {
    s[choose|i: int| 0 <= i < s.len() && s[i].id == id].geometry
}

/// `v` when it fits in `i32`.
pub open spec fn fits_i32(v: int) -> bool {
    i32::MIN <= v <= i32::MAX
}

/// `g` with the chosen edges moved out (or in) by `amount`; nothing when the result would
/// leave `i32` or lose its area.
pub open spec fn resized(g: Rect, direction: ResizeDirection, edge: ResizeEdge, amount: int) -> Option<Rect> {
    let d = if direction == ResizeDirection::Outwards { amount } else { -amount };
    let x = if edge.left { g.loc.x - d } else { g.loc.x as int };
    let y = if edge.top { g.loc.y - d } else { g.loc.y as int };
    let w = g.size.w + (if edge.left { d } else { 0 }) + (if edge.right { d } else { 0 });
    let h = g.size.h + (if edge.top { d } else { 0 }) + (if edge.bottom { d } else { 0 });
    if fits_i32(x) && fits_i32(y) && fits_i32(w) && fits_i32(h) && w > 0 && h > 0 {
        Some(Rect { loc: Point { x: x as i32, y: y as i32 }, size: Size { w: w as i32, h: h as i32 } })
    } else {
        None
    }
}

/// Index of the window `id` in `s`.
pub open spec fn index_in(s: Seq<Mapped>, id: u64) -> int {
    choose|i: int| 0 <= i < s.len() && s[i].id == id
}

/// A window with its maximized state dropped and its original geometry back.
pub open spec fn unmaximized(m: Mapped) -> Mapped {
    match m.maximized {
        Some(st) => Mapped { id: m.id, geometry: st.original_geometry, maximized: None },
        None => m,
    }
}

/// A window maximized over an output of size `full`, remembering where it was.
pub open spec fn maximized_over(m: Mapped, layer: ManagedLayer, full: Size) -> Mapped {
    Mapped {
        id: m.id,
        geometry: Rect { loc: Point { x: 0, y: 0 }, size: full },
        maximized: Some(MaximizedState { original_geometry: m.geometry, original_layer: layer }),
    }
}

/// A window as it is moved to `layer`: a maximized one now returns to that layer.
pub open spec fn moved_to(m: Mapped, layer: ManagedLayer) -> Mapped {
    match m.maximized {
        Some(st) => Mapped {
            maximized: Some(MaximizedState { original_layer: layer, ..st }),
            ..m
        },
        None => m,
    }
}

pub open spec fn ids_of(s: Seq<Mapped>) -> Seq<u64> {
    s.map_values(|m: Mapped| m.id)
}

/// The windows of one placement layer, in order.
#[derive(Debug)]
pub struct Layout {
    windows: Vec<Mapped>,
}

impl View for Layout {
    type V = Seq<Mapped>;

    closed spec fn view(&self) -> Seq<Mapped> {
        self.windows@
    }
}

impl Layout {
    proof fn lemma_len_bound(&self)
        ensures
            self@.len() <= usize::MAX,
    {
        assert(self.windows.len() == self.windows@.len());
    }

    pub open spec fn wf(&self) -> bool {
        unique_ids(self@) && self@.len() <= usize::MAX
    }

    pub fn new() -> (r: Layout)
        ensures
            r@ == Seq::<Mapped>::empty(),
    {
        Layout { windows: Vec::new() }
    }

    pub fn len(&self) -> (r: usize)
        ensures
            r == self@.len(),
            self@.len() <= usize::MAX,
    {
        self.windows.len()
    }

    pub fn get(&self, i: usize) -> (r: Mapped)
        requires
            i < self@.len(),
        ensures
            r == self@[i as int],
    {
        self.windows[i]
    }

    /// Index of the window `id`.
    pub fn find(&self, id: u64) -> (r: Option<usize>)
        ensures
            r.is_some() == has_id(self@, id),
            r.is_some() ==> r.unwrap() < self@.len() && self@[r.unwrap() as int].id == id,
    {
        let mut i: usize = 0;
        while i < self.windows.len()
            invariant
                i <= self@.len(),
                forall|j: int| 0 <= j < i ==> self@[j].id != id,
            decreases self@.len() - i,
        {
            if self.windows[i].id == id {
                return Some(i);
            }
            i = i + 1;
        }
        None
    }

    pub fn contains(&self, id: u64) -> (r: bool)
        ensures
            r == has_id(self@, id),
    {
        self.find(id).is_some()
    }

    /// The ids of the windows, in order.
    pub fn mapped(&self) -> (r: Vec<u64>)
        ensures
            r@ == ids_of(self@),
    {
        let mut r: Vec<u64> = Vec::new();
        let mut i: usize = 0;
        while i < self.windows.len()
            invariant
                i <= self@.len(),
                r@ == ids_of(self@.subrange(0, i as int)),
            decreases self@.len() - i,
        {
            r.push(self.windows[i].id);
            assert(ids_of(self@.subrange(0, i + 1)) =~= ids_of(self@.subrange(0, i as int)).push(
                self@[i as int].id,
            ));
            i = i + 1;
        }
        assert(self@.subrange(0, self@.len() as int) =~= self@);
        r
    }

    /// Adds a window on top.
    pub fn map(&mut self, w: Mapped)
        ensures
            final(self)@.len() <= usize::MAX,
            final(self)@ == old(self)@.push(w),
    {
        self.windows.push(w);
        proof {
            self.lemma_len_bound();
        }
    }

    /// Adds a window at a structural position, or on top where the layer has grown smaller.
    pub fn insert_at(&mut self, index: usize, w: Mapped)
        ensures
            final(self)@.len() <= usize::MAX,
            index <= old(self)@.len() ==> final(self)@ == old(self)@.insert(index as int, w),
            index > old(self)@.len() ==> final(self)@ == old(self)@.push(w),
    {
        if index <= self.windows.len() {
            self.windows.insert(index, w);
        } else {
            self.windows.push(w);
        }
        proof {
            self.lemma_len_bound();
        }
    }

    /// Replaces the window at `i`.
    pub fn set(&mut self, i: usize, w: Mapped)
        requires
            i < old(self)@.len(),
        ensures
            final(self)@.len() <= usize::MAX,
            final(self)@ == old(self)@.update(i as int, w),
    {
        self.windows.set(i, w);
        proof {
            self.lemma_len_bound();
        }
    }

    /// Removes the window `id`, giving back its index and entry.
    pub fn unmap(&mut self, id: u64) -> (r: Option<(usize, Mapped)>)
        ensures
            final(self)@.len() <= usize::MAX,
            r.is_some() == has_id(old(self)@, id),
            r.is_none() ==> final(self)@ == old(self)@,
            r.is_some() ==> {
                let (i, m) = r.unwrap();
                &&& i < old(self)@.len()
                &&& m == old(self)@[i as int]
                &&& m.id == id
                &&& final(self)@ == old(self)@.remove(i as int)
            },
    {
        match self.find(id) {
            Some(i) => {
                let m = self.windows.remove(i);
                proof {
                    self.lemma_len_bound();
                }
                Some((i, m))
            },
            None => {
                proof {
                    self.lemma_len_bound();
                }
                None
            },
        }
    }

    /// Geometry of the window `id`.
    pub fn element_geometry(&self, id: u64) -> (r: Option<Rect>)
        requires
            self.wf(),
        ensures
            r.is_some() == has_id(self@, id),
            r.is_some() ==> r.unwrap() == geometry_in(self@, id),
    {
        match self.find(id) {
            Some(i) => {
                proof {
                    let k = choose|k: int| 0 <= k < self@.len() && self@[k].id == id;
                    assert(k == i);
                }
                Some(self.windows[i].geometry)
            },
            None => None,
        }
    }

    /// Unmaximizes the window `id`, giving back its restored size if it was maximized.
    pub fn unmaximize(&mut self, id: u64) -> (r: Option<Size>)
        requires
            old(self).wf(),
        ensures
            final(self).wf(),
            forall|x: u64| has_id(final(self)@, x) == has_id(old(self)@, x),
            !has_id(old(self)@, id) ==> final(self)@ == old(self)@ && r.is_none(),
            has_id(old(self)@, id) ==> {
                let i = index_in(old(self)@, id);
                &&& final(self)@ == old(self)@.update(i, unmaximized(old(self)@[i]))
                &&& r == match old(self)@[i].maximized {
                    Some(st) => Some(st.original_geometry.size),
                    None => None,
                }
            },
    {
        match self.find(id) {
            Some(i) => {
                proof {
                    let k = index_in(self@, id);
                    assert(k == i);
                }
                let m = self.windows[i];
                match m.maximized {
                    Some(st) => {
                        let n = Mapped { id: m.id, geometry: st.original_geometry, maximized: None };
                        self.windows.set(i, n);
                        proof {
                            lemma_update_same_id(old(self)@, i as int, n);
                        }
                        Some(st.original_geometry.size)
                    },
                    None => None,
                }
            },
            None => None,
        }
    }

    /// Maximizes the window `id` over an output of size `full`; `false` if it is not here or
    /// already maximized.
    pub fn maximize(&mut self, id: u64, layer: ManagedLayer, full: Size) -> (r: bool)
        requires
            old(self).wf(),
        ensures
            final(self).wf(),
            forall|x: u64| has_id(final(self)@, x) == has_id(old(self)@, x),
            r == (has_id(old(self)@, id) && old(self)@[index_in(old(self)@, id)].maximized.is_none()),
            r ==> final(self)@ == old(self)@.update(
                index_in(old(self)@, id),
                maximized_over(old(self)@[index_in(old(self)@, id)], layer, full),
            ),
            !r ==> final(self)@ == old(self)@,
    {
        match self.find(id) {
            Some(i) => {
                proof {
                    let k = index_in(self@, id);
                    assert(k == i);
                }
                let m = self.windows[i];
                if m.maximized.is_none() {
                    let n = Mapped {
                        id: m.id,
                        geometry: Rect { loc: Point { x: 0, y: 0 }, size: full },
                        maximized: Some(
                            MaximizedState { original_geometry: m.geometry, original_layer: layer },
                        ),
                    };
                    self.windows.set(i, n);
                    proof {
                        lemma_update_same_id(old(self)@, i as int, n);
                    }
                    true
                } else {
                    false
                }
            },
            None => false,
        }
    }

    /// Moves the chosen edges of the window `id` out (or in) by `amount`; `false`, and nothing
    /// changed, when the window is not here or the result would not be a valid rectangle.
    pub fn resize(&mut self, id: u64, direction: ResizeDirection, edge: ResizeEdge, amount: i32) -> (r:
        bool)
        requires
            old(self).wf(),
        ensures
            final(self).wf(),
            forall|x: u64| has_id(final(self)@, x) == has_id(old(self)@, x),
            has_id(old(self)@, id) ==> {
                let i = index_in(old(self)@, id);
                match resized(old(self)@[i].geometry, direction, edge, amount as int) {
                    Some(g) => r && final(self)@ == old(self)@.update(
                        i,
                        Mapped { geometry: g, ..old(self)@[i] },
                    ),
                    None => !r && final(self)@ == old(self)@,
                }
            },
            !has_id(old(self)@, id) ==> !r && final(self)@ == old(self)@,
    {
        match self.find(id) {
            Some(i) => {
                proof {
                    let k = index_in(self@, id);
                    assert(k == i);
                }
                let m = self.windows[i];
                let g = m.geometry;
                let d: i64 = match direction {
                    ResizeDirection::Outwards => amount as i64,
                    ResizeDirection::Inwards => -(amount as i64),
                };
                let x: i64 = if edge.left { g.loc.x as i64 - d } else { g.loc.x as i64 };
                let y: i64 = if edge.top { g.loc.y as i64 - d } else { g.loc.y as i64 };
                let w: i64 = g.size.w as i64 + (if edge.left { d } else { 0 }) + (if edge.right { d } else { 0 });
                let h: i64 = g.size.h as i64 + (if edge.top { d } else { 0 }) + (if edge.bottom { d } else { 0 });
                let lo = i32::MIN as i64;
                let hi = i32::MAX as i64;
                if lo <= x && x <= hi && lo <= y && y <= hi && lo <= w && w <= hi && lo <= h && h <= hi
                    && w > 0 && h > 0 {
                    let n = Mapped {
                        geometry: Rect {
                            loc: Point { x: x as i32, y: y as i32 },
                            size: Size { w: w as i32, h: h as i32 },
                        },
                        ..m
                    };
                    self.windows.set(i, n);
                    proof {
                        lemma_update_same_id(old(self)@, i as int, n);
                        self.lemma_len_bound();
                    }
                    true
                } else {
                    false
                }
            },
            None => false,
        }
    }

    /// Removes every window, giving them back in order.
    pub fn take_all(&mut self) -> (r: Vec<Mapped>)
        ensures
            final(self)@.len() <= usize::MAX,
            r@ == old(self)@,
            final(self)@ == Seq::<Mapped>::empty(),
    {
        let mut r = Vec::new();
        std::mem::swap(&mut r, &mut self.windows);
        proof {
            self.lemma_len_bound();
        }
        r
    }
}

/// Removing an entry keeps ids unique and drops exactly that id.
pub proof fn lemma_remove_unique(s: Seq<Mapped>, i: int)
    requires
        unique_ids(s),
        0 <= i < s.len(),
    ensures
        unique_ids(s.remove(i)),
        !has_id(s.remove(i), s[i].id),
        forall|id: u64| id != s[i].id ==> (has_id(s.remove(i), id) == has_id(s, id)),
{
    let r = s.remove(i);
    assert forall|a: int, b: int| 0 <= a < b < r.len() implies r[a].id != r[b].id by {
        let a2 = if a < i { a } else { a + 1 };
        let b2 = if b < i { b } else { b + 1 };
        assert(r[a] == s[a2] && r[b] == s[b2]);
    }
    assert forall|id: u64| id != s[i].id implies (has_id(r, id) == has_id(s, id)) by {
        if has_id(s, id) {
            let k = choose|k: int| 0 <= k < s.len() && s[k].id == id;
            let k2 = if k < i { k } else { k - 1 };
            assert(r[k2] == s[k]);
        }
        if has_id(r, id) {
            let k = choose|k: int| 0 <= k < r.len() && r[k].id == id;
            let k2 = if k < i { k } else { k + 1 };
            assert(r[k] == s[k2]);
        }
    }
    if has_id(r, s[i].id) {
        let k = choose|k: int| 0 <= k < r.len() && r[k].id == s[i].id;
        let k2 = if k < i { k } else { k + 1 };
        assert(r[k] == s[k2]);
    }
}

/// Adding a window whose id is new keeps ids unique.
pub proof fn lemma_push_unique(s: Seq<Mapped>, w: Mapped)
    requires
        unique_ids(s),
        !has_id(s, w.id),
    ensures
        unique_ids(s.push(w)),
        forall|id: u64| has_id(s.push(w), id) == (has_id(s, id) || id == w.id),
{
    let r = s.push(w);
    assert forall|a: int, b: int| 0 <= a < b < r.len() implies r[a].id != r[b].id by {
        if b == s.len() {
            assert(r[a] == s[a]);
        } else {
            assert(r[a] == s[a] && r[b] == s[b]);
        }
    }
    assert forall|id: u64| has_id(r, id) == (has_id(s, id) || id == w.id) by {
        if has_id(s, id) {
            let k = choose|k: int| 0 <= k < s.len() && s[k].id == id;
            assert(r[k] == s[k]);
        }
        if id == w.id {
            assert(r[s.len() as int] == w);
        }
        if has_id(r, id) {
            let k = choose|k: int| 0 <= k < r.len() && r[k].id == id;
            if k < s.len() {
                assert(r[k] == s[k]);
            }
        }
    }
}

/// Inserting a window whose id is new keeps ids unique.
pub proof fn lemma_insert_unique(s: Seq<Mapped>, i: int, w: Mapped)
    requires
        unique_ids(s),
        !has_id(s, w.id),
        0 <= i <= s.len(),
    ensures
        unique_ids(s.insert(i, w)),
        forall|id: u64| has_id(s.insert(i, w), id) == (has_id(s, id) || id == w.id),
{
    let r = s.insert(i, w);
    assert forall|a: int, b: int| 0 <= a < b < r.len() implies r[a].id != r[b].id by {
        if a != i && b != i {
            let a2 = if a < i { a } else { a - 1 };
            let b2 = if b < i { b } else { b - 1 };
            assert(r[a] == s[a2] && r[b] == s[b2]);
        } else if a == i {
            let b2 = b - 1;
            assert(r[b] == s[b2]);
        } else {
            assert(r[a] == s[a]);
        }
    }
    assert forall|id: u64| has_id(r, id) == (has_id(s, id) || id == w.id) by {
        if has_id(s, id) {
            let k = choose|k: int| 0 <= k < s.len() && s[k].id == id;
            let k2 = if k < i { k } else { k + 1 };
            assert(r[k2] == s[k]);
        }
        if id == w.id {
            assert(r[i] == w);
        }
        if has_id(r, id) {
            let k = choose|k: int| 0 <= k < r.len() && r[k].id == id;
            if k < i {
                assert(r[k] == s[k]);
            } else if k > i {
                assert(r[k] == s[k - 1]);
            }
        }
    }
}

/// Updating an entry in place, keeping its id, keeps the ids as they are.
pub proof fn lemma_update_same_id(s: Seq<Mapped>, i: int, w: Mapped)
    requires
        unique_ids(s),
        0 <= i < s.len(),
        w.id == s[i].id,
    ensures
        unique_ids(s.update(i, w)),
        forall|id: u64| has_id(s.update(i, w), id) == has_id(s, id),
{
    let r = s.update(i, w);
    assert forall|id: u64| has_id(r, id) == has_id(s, id) by {
        if has_id(s, id) {
            let k = choose|k: int| 0 <= k < s.len() && s[k].id == id;
            assert(r[k].id == s[k].id);
        }
        if has_id(r, id) {
            let k = choose|k: int| 0 <= k < r.len() && r[k].id == id;
            assert(r[k].id == s[k].id);
        }
    }
}

} // verus!
