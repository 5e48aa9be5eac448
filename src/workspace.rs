//! The per-output workspace: which layer owns each window, minimized windows, the fullscreen
//! overlay with its animations and commit blockers, and where the workspace wants to live.
use vstd::prelude::*;

use crate::affinity::{
    history_prefers, output_match_for_output, output_matches, prefers_spec, stack_view,
    update_history, updated_history, updated_history_nonempty, MatchModel, Output, OutputMatch,
};
use crate::animation::{
    elapsed, elapsed_spec, past_midpoint, past_midpoint_spec, reversed_start, reversed_start_spec,
    FULLSCREEN_ANIMATION_DURATION_MS,
};
use crate::focus::{removed_from, FocusStacks};
use crate::geometry::{
    center_in_output, centered_rect, rescale_position, rescaled_point, Point, Rect, Size,
};
use crate::layout::{
    geometry_in, has_id, ids_of, index_in, lemma_insert_unique, lemma_push_unique,
    lemma_remove_unique, maximized_over, moved_to, resized, unique_ids, unmaximized, Layout,
    ManagedLayer, Mapped, MaximizedState, ResizeDirection, ResizeEdge,
};
use crate::signal::BlockerSignals;

verus! {

/// The fullscreen overlay: its window, where it came from, and its animation phase.
#[derive(Clone, Copy, Debug)]
pub struct FullscreenSurface {
    pub surface: u64,
    /// Layer and workspace to return the window to when it leaves fullscreen.
    pub previously: Option<(ManagedLayer, u64)>,
    pub original_geometry: Rect,
    /// Start of the enter animation, while it runs.
    pub start_at: Option<u64>,
    /// Start of the exit animation, once leaving has begun.
    pub ended_at: Option<u64>,
    /// The release signal of the commit blocker installed for the current phase.
    pub animation_signal: Option<usize>,
}

impl PartialEq for FullscreenSurface {
    fn eq(&self, other: &FullscreenSurface) -> (r: bool) {
        self.surface == other.surface
    }
}

impl vstd::std_specs::cmp::PartialEqSpecImpl for FullscreenSurface {
    open spec fn obeys_eq_spec() -> bool {
        true
    }

    open spec fn eq_spec(&self, other: &FullscreenSurface) -> bool {
        self.surface == other.surface
    }
}

impl FullscreenSurface {
    pub fn is_animating(&self) -> (r: bool)
        ensures
            r == (self.start_at.is_some() || self.ended_at.is_some()),
    {
        self.start_at.is_some() || self.ended_at.is_some()
    }

    /// Never entering and exiting at once, and its signal is one that was handed out.
    pub open spec fn wf(&self, signals: nat) -> bool {
        &&& !(self.start_at.is_some() && self.ended_at.is_some())
        &&& (self.animation_signal matches Some(s) ==> s < signals)
    }
}

/// How a minimized window is put back.
#[derive(Clone, Copy, Debug, PartialEq, Eq, Structural)]
pub enum MinimizedState {
    Sticky { position: Point },
    Floating { position: Point },
    Tiling { tiling_state: Option<usize>, was_maximized: bool },
}

/// A minimized window with all that is needed to restore it.
#[derive(Clone, Copy, Debug)]
pub struct MinimizedWindow {
    pub window: Mapped,
    pub previous_state: MinimizedState,
    /// The fullscreen state it was minimized from, if it was fullscreen.
    pub fullscreen: Option<FullscreenSurface>,
    /// Geometry of the output at the time it was minimized.
    pub output_geo: Rect,
}

impl MinimizedWindow {
    pub open spec fn wf(&self, signals: nat) -> bool {
        &&& self.output_geo.size.is_positive()
        &&& !(self.previous_state is Sticky)
        &&& (self.fullscreen matches Some(f) ==> f.wf(signals) && f.ended_at.is_none() && f.surface
            == self.window.id)
    }

    /// Drops the maximized state: a floating window returns to its original position, a tiled
    /// one forgets that it was maximized.
    pub fn unmaximize(&mut self, original_geometry: Rect)
        ensures
            final(self).window == (Mapped { maximized: None, ..old(self).window }),
            final(self).fullscreen == old(self).fullscreen,
            final(self).output_geo == old(self).output_geo,
            final(self).previous_state == match old(self).previous_state {
                MinimizedState::Sticky { .. } => MinimizedState::Sticky {
                    position: original_geometry.loc,
                },
                MinimizedState::Floating { .. } => MinimizedState::Floating {
                    position: original_geometry.loc,
                },
                MinimizedState::Tiling { tiling_state, .. } => MinimizedState::Tiling {
                    tiling_state,
                    was_maximized: false,
                },
            },
    {
        self.window.maximized = None;
        self.previous_state = match self.previous_state {
            MinimizedState::Sticky { .. } => MinimizedState::Sticky {
                position: original_geometry.loc,
            },
            MinimizedState::Floating { .. } => MinimizedState::Floating {
                position: original_geometry.loc,
            },
            MinimizedState::Tiling { tiling_state, .. } => MinimizedState::Tiling {
                tiling_state,
                was_maximized: false,
            },
        };
    }
}

/// Where a window that left the workspace was managed.
#[derive(Clone, Copy, Debug)]
pub struct ManagedState {
    pub layer: ManagedLayer,
    pub was_fullscreen: Option<FullscreenSurface>,
}

/// A pinned workspace as it is persisted.
#[derive(Clone, Debug)]
pub struct PinnedWorkspace {
    pub output: OutputMatch,
    pub tiling_enabled: bool,
}

/// The tiling state announced to clients.
#[derive(Clone, Copy, Debug, PartialEq, Eq, Structural)]
pub enum TilingState {
    FloatingOnly,
    TilingEnabled,
}

pub open spec fn min_has(s: Seq<MinimizedWindow>, id: u64) -> bool {
    exists|i: int| 0 <= i < s.len() && s[i].window.id == id
}

pub open spec fn min_unique(s: Seq<MinimizedWindow>) -> bool {
    forall|i: int, j: int| 0 <= i < j < s.len() ==> s[i].window.id != s[j].window.id
}

/// Index of the record of `id` in `s`.
pub open spec fn min_index(s: Seq<MinimizedWindow>, id: u64) -> int {
    choose|i: int| 0 <= i < s.len() && s[i].window.id == id
}

/// A minimized record with its maximized state dropped, as `MinimizedWindow::unmaximize`
/// leaves it.
pub open spec fn unmaximized_record(m: MinimizedWindow) -> MinimizedWindow {
    match m.window.maximized {
        Some(st) => MinimizedWindow {
            window: Mapped { maximized: None, ..m.window },
            previous_state: match m.previous_state {
                MinimizedState::Sticky { .. } => MinimizedState::Sticky {
                    position: st.original_geometry.loc,
                },
                MinimizedState::Floating { .. } => MinimizedState::Floating {
                    position: st.original_geometry.loc,
                },
                MinimizedState::Tiling { tiling_state, .. } => MinimizedState::Tiling {
                    tiling_state,
                    was_maximized: false,
                },
            },
            ..m
        },
        None => m,
    }
}

proof fn lemma_min_remove(s: Seq<MinimizedWindow>, i: int)
    requires
        min_unique(s),
        0 <= i < s.len(),
    ensures
        min_unique(s.remove(i)),
        !min_has(s.remove(i), s[i].window.id),
        forall|id: u64| id != s[i].window.id ==> (min_has(s.remove(i), id) == min_has(s, id)),
        forall|k: int| 0 <= k < s.remove(i).len() ==> #[trigger] s.remove(i)[k] == s[if k < i { k } else { k + 1 }],
{
    let r = s.remove(i);
    assert forall|a: int, b: int| 0 <= a < b < r.len() implies r[a].window.id != r[b].window.id by {
        let a2 = if a < i { a } else { a + 1 };
        let b2 = if b < i { b } else { b + 1 };
        assert(r[a] == s[a2] && r[b] == s[b2]);
    }
    assert forall|id: u64| id != s[i].window.id implies (min_has(r, id) == min_has(s, id)) by {
        if min_has(s, id) {
            let k = choose|k: int| 0 <= k < s.len() && s[k].window.id == id;
            let k2 = if k < i { k } else { k - 1 };
            assert(r[k2] == s[k]);
        }
        if min_has(r, id) {
            let k = choose|k: int| 0 <= k < r.len() && r[k].window.id == id;
            let k2 = if k < i { k } else { k + 1 };
            assert(r[k] == s[k2]);
        }
    }
    if min_has(r, s[i].window.id) {
        let k = choose|k: int| 0 <= k < r.len() && r[k].window.id == s[i].window.id;
        let k2 = if k < i { k } else { k + 1 };
        assert(r[k] == s[k2]);
    }
}

proof fn lemma_min_update(s: Seq<MinimizedWindow>, i: int, m: MinimizedWindow)
    requires
        min_unique(s),
        0 <= i < s.len(),
        m.window.id == s[i].window.id,
    ensures
        min_unique(s.update(i, m)),
        forall|id: u64| min_has(s.update(i, m), id) == min_has(s, id),
{
    let r = s.update(i, m);
    assert forall|id: u64| min_has(r, id) == min_has(s, id) by {
        if min_has(s, id) {
            let k = choose|k: int| 0 <= k < s.len() && s[k].window.id == id;
            assert(r[k].window.id == s[k].window.id);
        }
        if min_has(r, id) {
            let k = choose|k: int| 0 <= k < r.len() && r[k].window.id == id;
            assert(r[k].window.id == s[k].window.id);
        }
    }
}

/// The live fullscreen state once an exit is requested at `now`: the exit phase has left what
/// an unfinished enter phase had left, so both together take the nominal duration, and the
/// blocker `fresh` replaces the one pending.
pub open spec fn begin_exit(f: FullscreenSurface, now: u64, fresh: usize) -> FullscreenSurface {
    FullscreenSurface {
        start_at: None,
        ended_at: Some(reversed_start_spec(now, f.start_at) as u64),
        animation_signal: Some(fresh),
        ..f
    }
}

/// The signals after a blocker replaces the one of `f`: the old one is released, whatever
/// the animation's progress, and a pending one is added.
pub open spec fn replace_blocker(signals: Seq<bool>, f: FullscreenSurface) -> Seq<bool> {
    match f.animation_signal {
        Some(k) => signals.update(k as int, true).push(false),
        None => signals.push(false),
    }
}

/// The signals once the blocker of `f`, if any, is released.
pub open spec fn release_blocker(signals: Seq<bool>, f: FullscreenSurface) -> Seq<bool> {
    match f.animation_signal {
        Some(k) => signals.update(k as int, true),
        None => signals,
    }
}

/// Whether a frame at `now` releases the blocker of `f`: some phase is past its midpoint
/// while a blocker is pending.
pub open spec fn tick_releases(f: FullscreenSurface, now: u64) -> bool {
    f.animation_signal.is_some() && ((f.start_at matches Some(s) && past_midpoint_spec(s, now)) || (
    f.ended_at matches Some(e) && past_midpoint_spec(e, now)))
}

/// The fullscreen state after a frame at `now`: a finished enter phase becomes steady, a
/// finished exit phase removes the state, and a released blocker is forgotten.
pub open spec fn tick(f: FullscreenSurface, now: u64) -> Option<FullscreenSurface> {
    let g = FullscreenSurface {
        start_at: match f.start_at {
            Some(s) => if elapsed_spec(s, now) > FULLSCREEN_ANIMATION_DURATION_MS {
                None
            } else {
                Some(s)
            },
            None => None,
        },
        animation_signal: if tick_releases(f, now) {
            None
        } else {
            f.animation_signal
        },
        ..f
    };
    match f.ended_at {
        Some(e) => if elapsed_spec(e, now) >= FULLSCREEN_ANIMATION_DURATION_MS {
            None
        } else {
            Some(g)
        },
        None => Some(g),
    }
}

/// Whether a frame at `now` changes anything about `f` that calls for another frame.
pub open spec fn tick_finishes_phase(f: FullscreenSurface, now: u64) -> bool {
    (f.start_at matches Some(s) && elapsed_spec(s, now) > FULLSCREEN_ANIMATION_DURATION_MS) || (
    f.ended_at matches Some(e) && elapsed_spec(e, now) >= FULLSCREEN_ANIMATION_DURATION_MS)
}

/// The record of a minimized window that left fullscreen: the snapshot is gone and the window
/// has its pre-fullscreen geometry back.
pub open spec fn unfullscreened_record(m: MinimizedWindow) -> MinimizedWindow {
    match m.fullscreen {
        Some(f) => MinimizedWindow {
            window: Mapped { geometry: f.original_geometry, ..m.window },
            fullscreen: None,
            ..m
        },
        None => m,
    }
}

/// Whether the window `id` is minimized with a fullscreen snapshot.
pub open spec fn has_fullscreen_snapshot(s: Seq<MinimizedWindow>, id: u64) -> bool {
    min_has(s, id) && s[min_index(s, id)].fullscreen.is_some()
}

/// The fullscreen state of `id` if it is the live, non-exiting fullscreen window.
pub open spec fn live_fullscreen_of(f: Option<FullscreenSurface>, id: u64) -> Option<FullscreenSurface> {
    match f {
        Some(g) => if g.ended_at.is_none() && g.surface == id {
            Some(g)
        } else {
            None
        },
        None => None,
    }
}

/// The fullscreen state pushed into its exit animation at `now`, keeping its blocker.
pub open spec fn forced_exit(f: FullscreenSurface, now: u64) -> FullscreenSurface {
    FullscreenSurface {
        start_at: None,
        ended_at: Some(reversed_start_spec(now, f.start_at) as u64),
        ..f
    }
}

/// The record that minimizing the window `id` of `ws` produces: a tiled window remembers its
/// structural position and whether it was maximized, a floating one its position; a live
/// fullscreen state is carried along as it was before its exit began.
pub open spec fn minimized_record(ws: &Workspace, id: u64) -> MinimizedWindow {
    if ws.tiles(id) {
        let i = index_in(ws.tiling_layer@, id);
        let w = ws.tiling_layer@[i];
        MinimizedWindow {
            window: w,
            previous_state: MinimizedState::Tiling {
                tiling_state: Some(i as usize),
                was_maximized: w.maximized.is_some(),
            },
            fullscreen: live_fullscreen_of(ws.fullscreen, id),
            output_geo: ws.output.geometry,
        }
    } else {
        let w = ws.floating_layer@[index_in(ws.floating_layer@, id)];
        MinimizedWindow {
            window: w,
            previous_state: MinimizedState::Floating { position: w.geometry.loc },
            fullscreen: live_fullscreen_of(ws.fullscreen, id),
            output_geo: ws.output.geometry,
        }
    }
}

/// The layer a minimized window returns to.
pub open spec fn restore_layer(rec: MinimizedWindow, tiling_enabled: bool) -> ManagedLayer {
    match rec.previous_state {
        MinimizedState::Tiling { .. } => if tiling_enabled {
            ManagedLayer::Tiling
        } else {
            ManagedLayer::Floating
        },
        _ => ManagedLayer::Floating,
    }
}

/// A floating position recorded on an output of size `recorded`, on an output of size
/// `current`: unchanged on the same size, rescaled otherwise.
pub open spec fn restored_position(p: Point, recorded: Size, current: Size) -> Point {
    if recorded == current {
        p
    } else {
        rescaled_point(p, recorded, current)
    }
}

/// The entry a minimized window is restored as, on an output of size `out`.
pub open spec fn restored_entry(rec: MinimizedWindow, out: Size, tiling_enabled: bool, from: Rect) -> Mapped {
    let base = Mapped { maximized: None, ..rec.window };
    match rec.previous_state {
        MinimizedState::Tiling { was_maximized, .. } => if tiling_enabled {
            if was_maximized {
                maximized_over(base, ManagedLayer::Tiling, out)
            } else {
                base
            }
        } else {
            if was_maximized {
                maximized_over(Mapped { geometry: from, ..base }, ManagedLayer::Floating, out)
            } else {
                base
            }
        },
        MinimizedState::Floating { position } | MinimizedState::Sticky { position } => Mapped {
            geometry: Rect {
                loc: restored_position(position, rec.output_geo.size, out),
                size: rec.window.geometry.size,
            },
            ..rec.window
        },
    }
}

/// The tiling layer with a restored window put back at its structural position.
pub open spec fn tiled_back(s: Seq<Mapped>, rec: MinimizedWindow, m: Mapped) -> Seq<Mapped> {
    match rec.previous_state {
        MinimizedState::Tiling { tiling_state: Some(i), .. } => if i <= s.len() {
            s.insert(i as int, m)
        } else {
            s.push(m)
        },
        _ => s.push(m),
    }
}

/// A window group in the tiling tree: a node and the focus stack below it.
#[derive(Clone, Debug)]
pub struct WindowGroup {
    pub node: u64,
    pub focus_stack: Vec<u64>,
}

/// What holds keyboard focus.
#[derive(Clone, Debug)]
pub enum KeyboardFocusTarget {
    Element(u64),
    Fullscreen(u64),
    Group(WindowGroup),
}

/// Where a focused node sits in the tiling tree of a workspace.
#[derive(Clone, Debug)]
pub struct NodeDesc {
    pub handle: u64,
    pub node: u64,
    pub stack_window: Option<u64>,
    pub focus_stack: Vec<u64>,
}

/// The outcome of a focus move.
#[derive(Clone, Debug)]
pub enum FocusResult {
    Nothing,
    Handled,
    Target(KeyboardFocusTarget),
}

impl FocusResult {
    /// This result, or the one `f` computes when there is nothing.
    pub fn or_else<F>(self, f: F) -> (r: FocusResult)
        where
            F: FnOnce() -> FocusResult,
        requires
            self is Nothing ==> f.requires(()),
        ensures
            self is Nothing ==> f.ensures((), r),
            !(self is Nothing) ==> r == self,
    {
        match self {
            FocusResult::Nothing => f(),
            x => x,
        }
    }
}

/// The outcome of moving a window.
#[derive(Clone, Debug)]
pub enum MoveResult {
    Nothing,
    Done,
    MoveFurther(KeyboardFocusTarget),
    ShiftFocus(KeyboardFocusTarget),
}

impl MoveResult {
    /// This result, or the one `f` computes when there is nothing.
    pub fn or_else<F>(self, f: F) -> (r: MoveResult)
        where
            F: FnOnce() -> MoveResult,
        requires
            self is Nothing ==> f.requires(()),
        ensures
            self is Nothing ==> f.ensures((), r),
            !(self is Nothing) ==> r == self,
    {
        match self {
            MoveResult::Nothing => f(),
            x => x,
        }
    }
}

/// What leaving fullscreen gives back for the window `id`: where a minimized snapshot or the
/// live, non-exiting fullscreen state says to return it.
pub open spec fn unfullscreen_result(ws: &Workspace, id: u64) -> Option<(ManagedLayer, u64)> {
    if has_fullscreen_snapshot(ws.minimized_windows@, id) {
        ws.minimized_windows@[min_index(ws.minimized_windows@, id)].fullscreen.unwrap().previously
    } else {
        match ws.fullscreen {
            Some(f) => if f.surface == id && f.ended_at.is_none() {
                f.previously
            } else {
                None
            },
            None => None,
        }
    }
}

/// What ending the current fullscreen state gives back, when the window `extra` counts as
/// managed as well.
pub open spec fn remove_result(ws: &Workspace, extra: Option<u64>) -> Option<(u64, ManagedLayer, u64)> {
    match ws.fullscreen {
        Some(f) => match unfullscreen_result(ws, f.surface) {
            Some((l, h)) => if ws.manages(f.surface) || extra == Some(f.surface) {
                Some((f.surface, l, h))
            } else {
                None
            },
            None => None,
        },
        None => None,
    }
}

/// A minimized record whose fullscreen snapshot carries no blocker signal.
pub open spec fn detached(m: MinimizedWindow) -> MinimizedWindow {
    match m.fullscreen {
        Some(f) => MinimizedWindow {
            fullscreen: Some(FullscreenSurface { animation_signal: None, ..f }),
            ..m
        },
        None => m,
    }
}

/// Signals only ever go from pending to released, and new ones are added after the old.
pub open spec fn signals_grow(before: Seq<bool>, after: Seq<bool>) -> bool {
    &&& before.len() <= after.len()
    &&& forall|i: int| 0 <= i < before.len() && before[i] ==> #[trigger] after[i]
}

/// The blocker of the fullscreen state `before`, if any, is released in `signals` or still
/// belongs to the fullscreen state `after`: it is never left pending and forgotten.
pub open spec fn released_or_kept(
    before: Option<FullscreenSurface>,
    signals: Seq<bool>,
    after: Option<FullscreenSurface>,
) -> bool {
    match before {
        Some(f) => match f.animation_signal {
            Some(k) => signals[k as int] || (after matches Some(h) && h.animation_signal == Some(k)),
            None => true,
        },
        None => true,
    }
}

/// The layer contents with every window moved to `layer`.
pub open spec fn all_moved_to(s: Seq<Mapped>, layer: ManagedLayer) -> Seq<Mapped> {
    s.map_values(|m: Mapped| moved_to(m, layer))
}

/// A workspace whose parts are each well formed, and whose layers and minimized store only
/// lost windows relative to a well-formed one, is well formed.
proof fn lemma_wf_frame(a: &Workspace, b: &Workspace)
    requires
        a.wf(),
        b.output.wf(),
        b.floating_layer.wf(),
        b.tiling_layer.wf(),
        min_unique(b.minimized_windows@),
        forall|x: u64| #[trigger] has_id(b.floating_layer@, x) ==> has_id(a.floating_layer@, x),
        forall|x: u64| #[trigger] has_id(b.tiling_layer@, x) ==> has_id(a.tiling_layer@, x),
        forall|x: u64| #[trigger] min_has(b.minimized_windows@, x) ==> min_has(a.minimized_windows@, x),
        b.history().len() > 0,
        b.focus_stack.wf(),
        b.fullscreen matches Some(f) ==> f.wf(b.signals@.len()),
        b.fullscreen matches Some(f) ==> (f.ended_at.is_none() ==> !min_has(
            b.minimized_windows@,
            f.surface,
        )),
        forall|i: int|
            0 <= i < b.minimized_windows@.len() ==> (#[trigger] b.minimized_windows@[i]).wf(
                b.signals@.len(),
            ),
    ensures
        b.wf(),
{
    assert forall|x: u64|
        #![trigger has_id(b.floating_layer@, x)]
        #![trigger has_id(b.tiling_layer@, x)]
        !(has_id(b.floating_layer@, x) && has_id(b.tiling_layer@, x)) by {
        if has_id(b.floating_layer@, x) && has_id(b.tiling_layer@, x) {
            assert(has_id(a.floating_layer@, x));
        }
    }
    assert forall|x: u64| #[trigger]
        min_has(b.minimized_windows@, x) implies !has_id(b.floating_layer@, x) && !has_id(
            b.tiling_layer@,
            x,
        ) by {
        assert(min_has(a.minimized_windows@, x));
        if has_id(b.floating_layer@, x) {
            assert(has_id(a.floating_layer@, x));
        }
        if has_id(b.tiling_layer@, x) {
            assert(has_id(a.tiling_layer@, x));
        }
    }
}

#[derive(Debug)]
pub struct Workspace {
    pub output: Output,
    pub tiling_layer: Layout,
    pub floating_layer: Layout,
    pub minimized_windows: Vec<MinimizedWindow>,
    pub tiling_enabled: bool,
    pub fullscreen: Option<FullscreenSurface>,
    pub pinned: bool,
    pub handle: u64,
    pub focus_stack: FocusStacks,
    /// Outputs the workspace has been on, most authoritative first.
    pub output_stack: Vec<OutputMatch>,
    pub signals: BlockerSignals,
    /// Forces one more animation tick.
    pub dirty: bool,
}

impl Workspace {
    /// The outputs the workspace has been on, most authoritative first.
    pub open spec fn history(&self) -> Seq<MatchModel> {
        stack_view(self.output_stack@)
    }

    /// Whether the window `id` is in the floating layer.
    pub open spec fn floats(&self, id: u64) -> bool {
        has_id(self.floating_layer@, id)
    }

    /// Whether the window `id` is in the tiling layer.
    pub open spec fn tiles(&self, id: u64) -> bool {
        has_id(self.tiling_layer@, id)
    }

    /// Whether the window `id` is minimized here.
    pub open spec fn holds_minimized(&self, id: u64) -> bool {
        min_has(self.minimized_windows@, id)
    }

    /// Whether the window `id` is managed here at all.
    pub open spec fn manages(&self, id: u64) -> bool {
        self.floats(id) || self.tiles(id) || self.holds_minimized(id)
    }

    /// Each window is in at most one of the tiling layer, the floating layer and the minimized
    /// store; the fullscreen state and minimized records are consistent.
    pub open spec fn wf(&self) -> bool {
        &&& self.output.wf()
        &&& self.floating_layer.wf()
        &&& self.tiling_layer.wf()
        &&& min_unique(self.minimized_windows@)
        &&& forall|id: u64|
            #![trigger has_id(self.floating_layer@, id)]
            #![trigger has_id(self.tiling_layer@, id)]
            !(has_id(self.floating_layer@, id) && has_id(self.tiling_layer@, id))
        &&& forall|id: u64| #[trigger]
            min_has(self.minimized_windows@, id) ==> !has_id(self.floating_layer@, id) && !has_id(
                self.tiling_layer@,
                id,
            )
        &&& self.history().len() > 0
        &&& self.focus_stack.wf()
        &&& (self.fullscreen matches Some(f) ==> f.wf(self.signals@.len()))
        &&& (self.fullscreen matches Some(f) ==> (f.ended_at.is_none() ==> !min_has(
            self.minimized_windows@,
            f.surface,
        )))
        &&& forall|i: int|
            0 <= i < self.minimized_windows@.len() ==> (#[trigger] self.minimized_windows@[i]).wf(
                self.signals@.len(),
            )
    }

    pub fn new(handle: u64, output: Output, tiling_enabled: bool) -> (r: Workspace)
        requires
            output.wf(),
        ensures
            r.wf(),
            r.history() == seq![output.as_match()],
            r.output == output,
            r.handle == handle,
            r.tiling_enabled == tiling_enabled,
            !r.pinned,
            r.fullscreen.is_none(),
            r.floating_layer@.len() == 0,
            r.tiling_layer@.len() == 0,
            r.minimized_windows@.len() == 0,
            !r.dirty,
    {
        let m = output_match_for_output(&output);
        let mut output_stack = Vec::new();
        output_stack.push(m);
        let r = Workspace {
            output,
            tiling_layer: Layout::new(),
            floating_layer: Layout::new(),
            minimized_windows: Vec::new(),
            tiling_enabled,
            fullscreen: None,
            pinned: false,
            handle,
            focus_stack: FocusStacks::new(),
            output_stack,
            signals: BlockerSignals::new(),
            dirty: false,
        };
        assert(r.history() =~= seq![r.output.as_match()]);
        r
    }

    /// Restores a pinned workspace onto `output`: the pinned output leads the history, and the
    /// current output follows when it differs.
    pub fn from_pinned(pinned: &PinnedWorkspace, handle: u64, output: Output) -> (r: Workspace)
        requires
            output.wf(),
        ensures
            r.wf(),
            r.history() == if pinned.output@ == output.as_match() {
                seq![pinned.output@]
            } else {
                seq![pinned.output@, output.as_match()]
            },
            r.output == output,
            r.handle == handle,
            r.tiling_enabled == pinned.tiling_enabled,
            r.pinned,
            r.fullscreen.is_none(),
            r.floating_layer@.len() == 0,
            r.tiling_layer@.len() == 0,
            r.minimized_windows@.len() == 0,
    {
        let mut output_stack = Vec::new();
        output_stack.push(pinned.output.duplicate());
        let same = output_matches(&pinned.output, &output, true);
        if !same {
            output_stack.push(output_match_for_output(&output));
        }
        let r = Workspace {
            output,
            tiling_layer: Layout::new(),
            floating_layer: Layout::new(),
            minimized_windows: Vec::new(),
            tiling_enabled: pinned.tiling_enabled,
            fullscreen: None,
            pinned: true,
            handle,
            focus_stack: FocusStacks::new(),
            output_stack,
            signals: BlockerSignals::new(),
            dirty: false,
        };
        if same {
            assert(r.history() =~= seq![pinned.output@]);
        } else {
            assert(r.history() =~= seq![pinned.output@, r.output.as_match()]);
        }
        r
    }

    /// Output the workspace was originally created on, or explicitly moved to by the user.
    pub fn explicit_output(&self) -> (r: &OutputMatch)
        requires
            self.wf(),
        ensures
            r@ == self.history()[0],
    {
        &self.output_stack[0]
    }

    /// The persisted record of a pinned workspace; nothing for one that is not pinned.
    pub fn to_pinned(&self) -> (r: Option<PinnedWorkspace>)
        requires
            self.wf(),
        ensures
            r.is_some() == self.pinned,
            r matches Some(p) ==> p.output@ == self.history()[0] && p.tiling_enabled
                == self.tiling_enabled,
    {
        if self.pinned {
            let output = self.explicit_output().duplicate();
            Some(PinnedWorkspace { output, tiling_enabled: self.tiling_enabled })
        } else {
            None
        }
    }

    pub fn output(&self) -> (r: &Output)
        ensures
            r == &self.output,
    {
        &self.output
    }

    /// Moves the workspace to `output`. An explicit move forgets the outputs it was on before.
    /// Gives back the windows that leave the old output and enter the new one.
    pub fn set_output(&mut self, output: &Output, explicit: bool) -> (r: Vec<u64>)
        requires
            old(self).wf(),
            output.wf(),
        ensures
            final(self).wf(),
            final(self).history() == updated_history(old(self).history(), output.as_match(), explicit),
            final(self).output == *output,
            final(self).floating_layer@ == old(self).floating_layer@,
            final(self).tiling_layer@ == old(self).tiling_layer@,
            final(self).minimized_windows@ == old(self).minimized_windows@,
            final(self).fullscreen == old(self).fullscreen,
            final(self).tiling_enabled == old(self).tiling_enabled,
            final(self).pinned == old(self).pinned,
            forall|id: u64| r@.contains(id) == old(self).manages(id),
    {
        let r = self.windows();
        update_history(&mut self.output_stack, output, explicit);
        proof {
            updated_history_nonempty(old(self).history(), output.as_match(), explicit);
        }
        self.output = output.duplicate();
        r
    }

    /// Whether the workspace would rather be on `output`: some remembered output matches it,
    /// by name too when the current output carries the same hardware identifier.
    pub fn prefers_output(&self, output: &Output) -> (r: bool)
        requires
            self.wf(),
        ensures
            r == prefers_spec(self.history(), self.output.as_match(), output.as_match()),
    {
        history_prefers(&self.output_stack, &self.output, output)
    }

    /// Every window managed here: floating, tiled and minimized.
    fn windows(&self) -> (r: Vec<u64>)
        ensures
            forall|id: u64| r@.contains(id) == self.manages(id),
    {
        let mut r = self.mapped();
        let mut i: usize = 0;
        while i < self.minimized_windows.len()
            invariant
                i <= self.minimized_windows@.len(),
                forall|id: u64|
                    r@.contains(id) == (self.floats(id) || self.tiles(id) || exists|j: int|
                        0 <= j < i && self.minimized_windows@[j].window.id == id),
            decreases self.minimized_windows@.len() - i,
        {
            let ghost before = r@;
            r.push(self.minimized_windows[i].window.id);
            proof {
                assert forall|id: u64|
                    r@.contains(id) == (self.floats(id) || self.tiles(id) || exists|j: int|
                        0 <= j < i + 1 && self.minimized_windows@[j].window.id == id) by {
                    if r@.contains(id) && !before.contains(id) {
                        let k = choose|k: int| 0 <= k < r@.len() && r@[k] == id;
                        if k < before.len() {
                            assert(before[k] == id);
                        }
                    }
                    if before.contains(id) {
                        let k = choose|k: int| 0 <= k < before.len() && before[k] == id;
                        assert(r@[k] == id);
                    }
                    if exists|j: int| 0 <= j < i + 1 && self.minimized_windows@[j].window.id == id {
                        let j = choose|j: int| 0 <= j < i + 1 && self.minimized_windows@[j].window.id == id;
                        if j == i {
                            assert(r@[before.len() as int] == id);
                        }
                    }
                }
            }
            i = i + 1;
        }
        r
    }

    /// The windows of the floating layer, then those of the tiling layer.
    pub fn mapped(&self) -> (r: Vec<u64>)
        ensures
            r@ == ids_of(self.floating_layer@) + ids_of(self.tiling_layer@),
            forall|id: u64| r@.contains(id) == (self.floats(id) || self.tiles(id)),
    {
        let mut r = self.floating_layer.mapped();
        let mut t = self.tiling_layer.mapped();
        r.append(&mut t);
        proof {
            let f = self.floating_layer@;
            let tl = self.tiling_layer@;
            assert forall|id: u64| r@.contains(id) == (self.floats(id) || self.tiles(id)) by {
                if self.floats(id) {
                    let k = choose|k: int| 0 <= k < f.len() && f[k].id == id;
                    assert(r@[k] == id);
                }
                if self.tiles(id) {
                    let k = choose|k: int| 0 <= k < tl.len() && tl[k].id == id;
                    assert(r@[f.len() + k] == id);
                }
                if r@.contains(id) {
                    let k = choose|k: int| 0 <= k < r@.len() && r@[k] == id;
                    if k < f.len() {
                        assert(f[k].id == id);
                    } else {
                        assert(tl[k - f.len()].id == id);
                    }
                }
            }
        }
        r
    }

    /// Nothing is floating, tiled or minimized here.
    pub fn is_empty(&self) -> (r: bool)
        ensures
            r == (self.floating_layer@.len() == 0 && self.tiling_layer@.len() == 0
                && self.minimized_windows@.len() == 0),
    {
        self.floating_layer.len() == 0 && self.tiling_layer.len() == 0
            && self.minimized_windows.len() == 0
    }

    /// An empty workspace may be removed automatically, unless it is pinned or an unexpired
    /// activation token still points at it.
    pub fn can_auto_remove(&self, has_activation_token: bool) -> (r: bool)
        ensures
            r == (self.floating_layer@.len() == 0 && self.tiling_layer@.len() == 0
                && self.minimized_windows@.len() == 0 && !has_activation_token && !self.pinned),
    {
        self.is_empty() && !has_activation_token && !self.pinned
    }

    /// Index of the minimized record of `id`.
    pub fn find_minimized(&self, id: u64) -> (r: Option<usize>)
        ensures
            r.is_some() == self.holds_minimized(id),
            r matches Some(i) ==> i < self.minimized_windows@.len()
                && self.minimized_windows@[i as int].window.id == id,
    {
        let mut i: usize = 0;
        while i < self.minimized_windows.len()
            invariant
                i <= self.minimized_windows@.len(),
                forall|j: int| 0 <= j < i ==> self.minimized_windows@[j].window.id != id,
            decreases self.minimized_windows@.len() - i,
        {
            if self.minimized_windows[i].window.id == id {
                return Some(i);
            }
            i = i + 1;
        }
        None
    }

    /// The window `id` if it is managed here.
    pub fn element_for_surface(&self, id: u64) -> (r: Option<u64>)
        ensures
            r.is_some() == self.manages(id),
            r matches Some(x) ==> x == id,
    {
        if self.floating_layer.contains(id) || self.tiling_layer.contains(id)
            || self.find_minimized(id).is_some() {
            Some(id)
        } else {
            None
        }
    }

    /// Geometry of a floating or tiled window.
    pub fn element_geometry(&self, id: u64) -> (r: Option<Rect>)
        requires
            self.wf(),
        ensures
            r == if self.floats(id) {
                Some(geometry_in(self.floating_layer@, id))
            } else if self.tiles(id) {
                Some(geometry_in(self.tiling_layer@, id))
            } else {
                None
            },
    {
        match self.floating_layer.element_geometry(id) {
            Some(g) => Some(g),
            None => self.tiling_layer.element_geometry(id),
        }
    }

    /// The fullscreen window, unless it is on its way out.
    pub fn get_fullscreen(&self) -> (r: Option<u64>)
        ensures
            r == match self.fullscreen {
                Some(f) => if f.ended_at.is_none() {
                    Some(f.surface)
                } else {
                    None
                },
                None => None,
            },
    {
        match &self.fullscreen {
            Some(f) => if f.ended_at.is_none() {
                Some(f.surface)
            } else {
                None
            },
            None => None,
        }
    }

    /// Unmaximizes the window `id`, giving back the size it returns to: a minimized window
    /// only forgets that it was maximized, a mapped one takes its original geometry back.
    pub fn unmaximize_request(&mut self, id: u64) -> (r: Option<Size>)
        requires
            old(self).wf(),
        ensures
            final(self).wf(),
            final(self).fullscreen == old(self).fullscreen,
            final(self).tiling_enabled == old(self).tiling_enabled,
            final(self).history() == old(self).history(),
            forall|x: u64| #[trigger] final(self).manages(x) == old(self).manages(x),
            old(self).holds_minimized(id) ==> {
                let i = min_index(old(self).minimized_windows@, id);
                let m = old(self).minimized_windows@[i];
                &&& final(self).minimized_windows@ == old(self).minimized_windows@.update(
                    i,
                    unmaximized_record(m),
                )
                &&& final(self).floating_layer@ == old(self).floating_layer@
                &&& final(self).tiling_layer@ == old(self).tiling_layer@
                &&& r == match m.window.maximized {
                    Some(st) => Some(st.original_geometry.size),
                    None => None,
                }
            },
            old(self).floats(id) ==> {
                let i = index_in(old(self).floating_layer@, id);
                &&& final(self).floating_layer@ == old(self).floating_layer@.update(
                    i,
                    unmaximized(old(self).floating_layer@[i]),
                )
                &&& final(self).minimized_windows@ == old(self).minimized_windows@
                &&& final(self).tiling_layer@ == old(self).tiling_layer@
                &&& r == match old(self).floating_layer@[i].maximized {
                    Some(st) => Some(st.original_geometry.size),
                    None => None,
                }
            },
            old(self).tiles(id) ==> {
                let i = index_in(old(self).tiling_layer@, id);
                &&& final(self).tiling_layer@ == old(self).tiling_layer@.update(
                    i,
                    unmaximized(old(self).tiling_layer@[i]),
                )
                &&& final(self).minimized_windows@ == old(self).minimized_windows@
                &&& final(self).floating_layer@ == old(self).floating_layer@
                &&& r == match old(self).tiling_layer@[i].maximized {
                    Some(st) => Some(st.original_geometry.size),
                    None => None,
                }
            },
            !old(self).manages(id) ==> r.is_none() && final(self).floating_layer@ == old(self).floating_layer@ && final(self).tiling_layer@ == old(self).tiling_layer@
                && final(self).minimized_windows@ == old(self).minimized_windows@,
    {
        if let Some(i) = self.find_minimized(id) {
            proof {
                let k = min_index(self.minimized_windows@, id);
                assert(k == i);
            }
            let mut m = self.minimized_windows[i];
            match m.window.maximized {
                Some(st) => {
                    m.unmaximize(st.original_geometry);
                    self.minimized_windows.set(i, m);
                    proof {
                        lemma_min_update(old(self).minimized_windows@, i as int, m);
                        assert forall|k: int| 0 <= k < self.minimized_windows@.len() implies (#[trigger] self.minimized_windows@[k]).wf(self.signals@.len()) by {
                            assert(old(self).minimized_windows@[k].wf(self.signals@.len()));
                        }
                        lemma_wf_frame(old(self), self);
                    }
                    Some(st.original_geometry.size)
                },
                None => None,
            }
        } else if self.floating_layer.contains(id) {
            let r = self.floating_layer.unmaximize(id);
            proof {
                lemma_wf_frame(old(self), self);
            }
            r
        } else {
            let r = self.tiling_layer.unmaximize(id);
            proof {
                lemma_wf_frame(old(self), self);
            }
            r
        }
    }

    /// Maximizes a floating or tiled window over the whole output; `false` if it is not mapped
    /// here or is maximized already.
    pub fn maximize_request(&mut self, id: u64) -> (r: bool)
        requires
            old(self).wf(),
        ensures
            final(self).wf(),
            final(self).fullscreen == old(self).fullscreen,
            final(self).minimized_windows@ == old(self).minimized_windows@,
            final(self).history() == old(self).history(),
            forall|x: u64| #[trigger] final(self).manages(x) == old(self).manages(x),
            old(self).floats(id) ==> {
                let i = index_in(old(self).floating_layer@, id);
                &&& r == old(self).floating_layer@[i].maximized.is_none()
                &&& final(self).floating_layer@ == if r {
                    old(self).floating_layer@.update(
                        i,
                        maximized_over(
                            old(self).floating_layer@[i],
                            ManagedLayer::Floating,
                            old(self).output.geometry.size,
                        ),
                    )
                } else {
                    old(self).floating_layer@
                }
                &&& final(self).tiling_layer@ == old(self).tiling_layer@
            },
            old(self).tiles(id) ==> {
                let i = index_in(old(self).tiling_layer@, id);
                &&& r == old(self).tiling_layer@[i].maximized.is_none()
                &&& final(self).tiling_layer@ == if r {
                    old(self).tiling_layer@.update(
                        i,
                        maximized_over(
                            old(self).tiling_layer@[i],
                            ManagedLayer::Tiling,
                            old(self).output.geometry.size,
                        ),
                    )
                } else {
                    old(self).tiling_layer@
                }
                &&& final(self).floating_layer@ == old(self).floating_layer@
            },
            !old(self).floats(id) && !old(self).tiles(id) ==> !r && final(self).floating_layer@
                == old(self).floating_layer@ && final(self).tiling_layer@ == old(self).tiling_layer@,
    {
        let full = self.output.geometry.size;
        if self.floating_layer.contains(id) {
            self.floating_layer.maximize(id, ManagedLayer::Floating, full)
        } else {
            self.tiling_layer.maximize(id, ManagedLayer::Tiling, full)
        }
    }

    /// Removes the window `id` from whichever layer or store holds it, and from every focus
    /// stack. Gives back the layer it came from, with the fullscreen state it leaves behind;
    /// nothing when the window was not managed here.
    pub fn unmap(&mut self, id: u64) -> (r: Option<ManagedState>)
        requires
            old(self).wf(),
        ensures
            final(self).wf(),
            !final(self).manages(id),
            forall|x: u64| x != id ==> #[trigger] final(self).manages(x) == old(self).manages(x),
            r.is_some() == old(self).manages(id),
            final(self).floating_layer@ == if old(self).floats(id) {
                old(self).floating_layer@.remove(index_in(old(self).floating_layer@, id))
            } else {
                old(self).floating_layer@
            },
            final(self).tiling_layer@ == if old(self).tiles(id) {
                old(self).tiling_layer@.remove(index_in(old(self).tiling_layer@, id))
            } else {
                old(self).tiling_layer@
            },
            final(self).minimized_windows@ == if old(self).holds_minimized(id) {
                old(self).minimized_windows@.remove(min_index(old(self).minimized_windows@, id))
            } else {
                old(self).minimized_windows@
            },
            final(self).fullscreen == match old(self).fullscreen {
                Some(f) => if f.ended_at.is_none() && f.surface == id {
                    None
                } else {
                    Some(f)
                },
                None => None,
            },
            r matches Some(st) ==> {
                &&& st.layer == if old(self).floats(id) {
                    ManagedLayer::Floating
                } else if old(self).tiles(id) {
                    ManagedLayer::Tiling
                } else {
                    match old(self).minimized_windows@[min_index(
                        old(self).minimized_windows@,
                        id,
                    )].previous_state {
                        MinimizedState::Tiling { .. } => ManagedLayer::Tiling,
                        _ => ManagedLayer::Floating,
                    }
                }
                &&& st.was_fullscreen == if old(self).holds_minimized(id) {
                    old(self).minimized_windows@[min_index(
                        old(self).minimized_windows@,
                        id,
                    )].fullscreen
                } else {
                    match old(self).fullscreen {
                        Some(f) => if f.ended_at.is_none() && f.surface == id {
                            Some(f)
                        } else {
                            None
                        },
                        None => None,
                    }
                }
            },
            forall|seat: u64|
                removed_from(
                    old(self).focus_stack.stack_of(seat),
                    #[trigger] final(self).focus_stack.stack_of(seat),
                    id,
                ),
            forall|seat: u64| !(#[trigger] final(self).focus_stack.stack_of(seat)).contains(id),
            final(self).tiling_enabled == old(self).tiling_enabled,
            final(self).output == old(self).output,
            final(self).history() == old(self).history(),
    {
        let mut was_fullscreen: Option<FullscreenSurface> = None;
        let takes_fullscreen = match &self.fullscreen {
            Some(f) => f.ended_at.is_none() && f.surface == id,
            None => false,
        };
        if takes_fullscreen {
            was_fullscreen = self.fullscreen.take();
        }
        let ghost f0 = self.floating_layer@;
        let ghost t0 = self.tiling_layer@;
        let floating = self.floating_layer.unmap(id);
        let tiling = self.tiling_layer.unmap(id);
        proof {
            if let Some((i, _)) = floating {
                lemma_remove_unique(f0, i as int);
                assert(index_in(f0, id) == i);
            }
            if let Some((i, _)) = tiling {
                lemma_remove_unique(t0, i as int);
                assert(index_in(t0, id) == i);
            }
        }
        let mut was_floating = floating.is_some();
        let mut was_tiling = tiling.is_some();
        if let Some(pos) = self.find_minimized(id) {
            let ghost m0 = self.minimized_windows@;
            proof {
                assert(min_index(m0, id) == pos);
                lemma_min_remove(m0, pos as int);
            }
            let state = self.minimized_windows.remove(pos);
            match state.previous_state {
                MinimizedState::Tiling { .. } => {
                    was_tiling = true;
                },
                _ => {
                    was_floating = true;
                },
            }
            was_fullscreen = state.fullscreen;
            proof {
                assert forall|k: int| 0 <= k < self.minimized_windows@.len() implies (#[trigger] self.minimized_windows@[k]).wf(self.signals@.len()) by {
                    assert(self.minimized_windows@[k] == m0[if k < pos { k } else { k + 1 }]);
                }
            }
        }
        self.focus_stack.remove_window(id);
        proof {
            lemma_wf_frame(old(self), self);
        }
        if was_floating {
            Some(ManagedState { layer: ManagedLayer::Floating, was_fullscreen })
        } else if was_tiling {
            Some(ManagedState { layer: ManagedLayer::Tiling, was_fullscreen })
        } else {
            None
        }
    }

    /// Replaces the fullscreen state, releasing the blocker of the one it replaces unless the
    /// new state carries on with it.
    fn install_fullscreen(&mut self, f: FullscreenSurface)
        requires
            old(self).wf(),
            f.wf(old(self).signals@.len()),
            f.ended_at.is_none() ==> !min_has(old(self).minimized_windows@, f.surface),
        ensures
            final(self).wf(),
            final(self).fullscreen == Some(f),
            final(self).signals@ == match old(self).fullscreen {
                Some(g) => if g.animation_signal != f.animation_signal {
                    release_blocker(old(self).signals@, g)
                } else {
                    old(self).signals@
                },
                None => old(self).signals@,
            },
            final(self).floating_layer@ == old(self).floating_layer@,
            final(self).tiling_layer@ == old(self).tiling_layer@,
            final(self).minimized_windows@ == old(self).minimized_windows@,
            final(self).tiling_enabled == old(self).tiling_enabled,
            final(self).output == old(self).output,
            final(self).history() == old(self).history(),
            final(self).focus_stack == old(self).focus_stack,
    {
        if let Some(g) = self.fullscreen {
            if g.animation_signal != f.animation_signal {
                if let Some(k) = g.animation_signal {
                    self.signals.release(k);
                }
            }
        }
        self.fullscreen = Some(f);
        proof {
            assert forall|i: int| 0 <= i < self.minimized_windows@.len() implies (#[trigger] self.minimized_windows@[i]).wf(self.signals@.len()) by {
                assert(old(self).minimized_windows@[i].wf(old(self).signals@.len()));
            }
        }
    }

    /// Advances the fullscreen animation to `now`: a phase past its midpoint releases its
    /// blocker, a finished enter phase becomes steady and a finished exit phase ends the
    /// fullscreen state. Gives back the windows whose clients must hear of a released blocker.
    pub fn update_animations(&mut self, now: u64) -> (r: Vec<u64>)
        requires
            old(self).wf(),
        ensures
            final(self).wf(),
            final(self).fullscreen == match old(self).fullscreen {
                Some(f) => tick(f, now),
                None => None,
            },
            match old(self).fullscreen {
                Some(f) => {
                    &&& final(self).signals@ == if tick_releases(f, now) {
                        release_blocker(old(self).signals@, f)
                    } else {
                        old(self).signals@
                    }
                    &&& r@ == if tick_releases(f, now) {
                        seq![f.surface]
                    } else {
                        Seq::<u64>::empty()
                    }
                    &&& final(self).dirty == (old(self).dirty || tick_finishes_phase(f, now))
                },
                None => final(self).signals@ == old(self).signals@ && r@ == Seq::<u64>::empty()
                    && final(self).dirty == old(self).dirty,
            },
            final(self).floating_layer@ == old(self).floating_layer@,
            final(self).tiling_layer@ == old(self).tiling_layer@,
            final(self).minimized_windows@ == old(self).minimized_windows@,
            final(self).tiling_enabled == old(self).tiling_enabled,
            final(self).output == old(self).output,
            final(self).history() == old(self).history(),
    {
        let mut clients: Vec<u64> = Vec::new();
        if let Some(f0) = self.fullscreen {
            let mut f = f0;
            let mut keep = true;
            let mut release = false;
            if let Some(start) = f.start_at {
                if elapsed(start, now) > FULLSCREEN_ANIMATION_DURATION_MS {
                    f.start_at = None;
                    self.dirty = true;
                }
                if past_midpoint(start, now) && f.animation_signal.is_some() {
                    release = true;
                }
            }
            if let Some(end) = f.ended_at {
                if past_midpoint(end, now) && f.animation_signal.is_some() {
                    release = true;
                }
                if elapsed(end, now) >= FULLSCREEN_ANIMATION_DURATION_MS {
                    keep = false;
                    self.dirty = true;
                }
            }
            if release {
                if let Some(k) = f.animation_signal {
                    self.signals.release(k);
                }
                f.animation_signal = None;
                clients.push(f.surface);
            }
            self.fullscreen = if keep {
                Some(f)
            } else {
                None
            };
            proof {
                assert(clients@ =~= if tick_releases(f0, now) {
                    seq![f0.surface]
                } else {
                    Seq::<u64>::empty()
                });
                assert forall|i: int| 0 <= i < self.minimized_windows@.len() implies (#[trigger] self.minimized_windows@[i]).wf(self.signals@.len()) by {
                    assert(old(self).minimized_windows@[i].wf(old(self).signals@.len()));
                }
            }
        }
        clients
    }

    /// Whether anything still animates. The pending extra tick is consumed only when nothing
    /// else animates, so it comes after the animation has ended.
    pub fn animations_going(&mut self) -> (r: bool)
        ensures
            r == ((old(self).fullscreen matches Some(f) && (f.start_at.is_some()
                || f.ended_at.is_some())) || old(self).dirty),
            (old(self).fullscreen matches Some(f) && (f.start_at.is_some()
                || f.ended_at.is_some())) ==> final(self).dirty == old(self).dirty,
            !(old(self).fullscreen matches Some(f) && (f.start_at.is_some()
                || f.ended_at.is_some())) ==> !final(self).dirty,
            final(self).fullscreen == old(self).fullscreen,
            final(self).floating_layer@ == old(self).floating_layer@,
            final(self).tiling_layer@ == old(self).tiling_layer@,
            final(self).minimized_windows@ == old(self).minimized_windows@,
            final(self).signals@ == old(self).signals@,
    {
        let animating = match &self.fullscreen {
            Some(f) => f.is_animating(),
            None => false,
        };
        if animating {
            return true;
        }
        let dirty = self.dirty;
        self.dirty = false;
        dirty
    }

    /// Leaves fullscreen for the window `id`. A minimized window drops its snapshot and takes
    /// its pre-fullscreen geometry back at once. The live fullscreen window starts its exit
    /// animation, with only what an unfinished enter phase had left, and a new blocker replaces the
    /// pending one, which is released at once. Gives back the layer and workspace to return
    /// the window to.
    pub fn unfullscreen_request(&mut self, id: u64, now: u64) -> (r: Option<(ManagedLayer, u64)>)
        requires
            old(self).wf(),
        ensures
            r == unfullscreen_result(old(self), id),
            signals_grow(old(self).signals@, final(self).signals@),
            released_or_kept(old(self).fullscreen, final(self).signals@, final(self).fullscreen),
            match old(self).fullscreen {
                Some(f) => f.surface == id && f.ended_at.is_none() ==> match f.animation_signal {
                    Some(k) => final(self).signals@[k as int],
                    None => true,
                },
                None => true,
            },
            forall|x: u64| #[trigger] min_has(final(self).minimized_windows@, x) == min_has(old(self).minimized_windows@, x),
            final(self).wf(),
            has_fullscreen_snapshot(old(self).minimized_windows@, id) ==> {
                let i = min_index(old(self).minimized_windows@, id);
                let m = old(self).minimized_windows@[i];
                &&& final(self).minimized_windows@ == old(self).minimized_windows@.update(
                    i,
                    unfullscreened_record(m),
                )
                &&& final(self).fullscreen == old(self).fullscreen
                &&& final(self).signals@ == release_blocker(old(self).signals@, m.fullscreen.unwrap())
                &&& r == m.fullscreen.unwrap().previously
            },
            !has_fullscreen_snapshot(old(self).minimized_windows@, id) ==> {
                &&& final(self).minimized_windows@ == old(self).minimized_windows@
                &&& match old(self).fullscreen {
                    Some(f) => if f.surface == id && f.ended_at.is_none() {
                        &&& final(self).fullscreen == Some(
                            begin_exit(f, now, old(self).signals@.len() as usize),
                        )
                        &&& final(self).signals@ == replace_blocker(old(self).signals@, f)
                        &&& r == f.previously
                    } else {
                        &&& final(self).fullscreen == old(self).fullscreen
                        &&& final(self).signals@ == old(self).signals@
                        &&& r.is_none()
                    },
                    None => {
                        &&& final(self).fullscreen.is_none()
                        &&& final(self).signals@ == old(self).signals@
                        &&& r.is_none()
                    },
                }
            },
            final(self).floating_layer@ == old(self).floating_layer@,
            final(self).tiling_layer@ == old(self).tiling_layer@,
            final(self).tiling_enabled == old(self).tiling_enabled,
            final(self).output == old(self).output,
            final(self).history() == old(self).history(),
            final(self).focus_stack == old(self).focus_stack,
            forall|x: u64| #[trigger] final(self).manages(x) == old(self).manages(x),
    {
        let found = match self.find_minimized(id) {
            Some(i) => if self.minimized_windows[i].fullscreen.is_some() {
                Some(i)
            } else {
                None
            },
            None => None,
        };
        proof {
            if self.holds_minimized(id) {
                let k = min_index(self.minimized_windows@, id);
                assert(0 <= k < self.minimized_windows@.len() && self.minimized_windows@[k].window.id == id);
            }
        }
        if let Some(i) = found {
            proof {
                let k = min_index(self.minimized_windows@, id);
                assert(k == i);
            }
            let mut m = self.minimized_windows[i];
            let f = m.fullscreen.unwrap();
            m.fullscreen = None;
            m.window.geometry = f.original_geometry;
            if let Some(k) = f.animation_signal {
                self.signals.release(k);
            }
            self.minimized_windows.set(i, m);
            proof {
                lemma_min_update(old(self).minimized_windows@, i as int, m);
                assert forall|k: int| 0 <= k < self.minimized_windows@.len() implies (#[trigger] self.minimized_windows@[k]).wf(self.signals@.len()) by {
                    assert(old(self).minimized_windows@[k].wf(old(self).signals@.len()));
                }
                lemma_wf_frame(old(self), self);
            }
            return f.previously;
        }
        match self.fullscreen {
            Some(f0) => {
                if f0.surface == id && f0.ended_at.is_none() {
                    let fresh = self.signals.create();
                    if let Some(k) = f0.animation_signal {
                        self.signals.release(k);
                    }
                    let f = FullscreenSurface {
                        start_at: None,
                        ended_at: Some(reversed_start(now, f0.start_at)),
                        animation_signal: Some(fresh),
                        ..f0
                    };
                    self.fullscreen = Some(f);
                    proof {
                        assert forall|k: int| 0 <= k < self.minimized_windows@.len() implies (#[trigger] self.minimized_windows@[k]).wf(self.signals@.len()) by {
                            assert(old(self).minimized_windows@[k].wf(old(self).signals@.len()));
                        }
                        match f0.animation_signal {
                            Some(k) => assert(self.signals@ =~= old(self).signals@.update(k as int, true).push(false)),
                            None => assert(self.signals@ =~= old(self).signals@.push(false)),
                        }
                    }
                    f.previously
                } else {
                    None
                }
            },
            None => None,
        }
    }

    /// Ends the fullscreen state of the live fullscreen window as `unfullscreen_request`
    /// does, giving back the window with the layer and workspace to return it to; nothing
    /// when there is no fullscreen window, it is not managed here, or nothing is to be
    /// returned.
    pub fn remove_fullscreen(&mut self, now: u64) -> (r: Option<(u64, ManagedLayer, u64)>)
        requires
            old(self).wf(),
        ensures
            forall|x: u64| #[trigger] min_has(final(self).minimized_windows@, x) == min_has(old(self).minimized_windows@, x),
            final(self).wf(),
            old(self).fullscreen.is_none() ==> r.is_none() && final(self).fullscreen.is_none()
                && final(self).signals@ == old(self).signals@ && final(self).minimized_windows@
                == old(self).minimized_windows@,
            r == remove_result(old(self), None),
            old(self).fullscreen matches Some(f) ==> (f.ended_at.is_none()
                && !has_fullscreen_snapshot(old(self).minimized_windows@, f.surface)
                ==> final(self).fullscreen == Some(begin_exit(f, now, old(self).signals@.len() as usize))),
            final(self).floating_layer@ == old(self).floating_layer@,
            final(self).tiling_layer@ == old(self).tiling_layer@,
            final(self).tiling_enabled == old(self).tiling_enabled,
            final(self).output == old(self).output,
            final(self).history() == old(self).history(),
            final(self).focus_stack == old(self).focus_stack,
            forall|x: u64| #[trigger] final(self).manages(x) == old(self).manages(x),
            signals_grow(old(self).signals@, final(self).signals@),
            released_or_kept(old(self).fullscreen, final(self).signals@, final(self).fullscreen),
    {
        match self.fullscreen {
            Some(f) => {
                let surface = f.surface;
                match self.unfullscreen_request(surface, now) {
                    Some((l, h)) => match self.element_for_surface(surface) {
                        Some(e) => Some((e, l, h)),
                        None => None,
                    },
                    None => None,
                }
            },
            None => None,
        }
    }

    /// Minimizes the window `id`: it leaves its layer, and the record to restore it is given
    /// back. A live fullscreen window is pushed into its exit animation, with only what an
    /// unfinished enter phase had left, and its state rides along in the record. Nothing is given back
    /// for a window that is neither tiled nor floating here. `_to` is where the minimize
    /// animation heads; these layers place windows without animating them.
    pub fn minimize(&mut self, id: u64, _to: Rect, now: u64) -> (r: Option<MinimizedWindow>)
        requires
            old(self).wf(),
        ensures
            final(self).wf(),
            final(self).fullscreen == match live_fullscreen_of(old(self).fullscreen, id) {
                Some(f) => Some(forced_exit(f, now)),
                None => old(self).fullscreen,
            },
            r.is_some() == (old(self).tiles(id) || old(self).floats(id)),
            r matches Some(m) ==> m == minimized_record(old(self), id) && m.wf(
                final(self).signals@.len(),
            ),
            final(self).tiling_layer@ == if old(self).tiles(id) {
                old(self).tiling_layer@.remove(index_in(old(self).tiling_layer@, id))
            } else {
                old(self).tiling_layer@
            },
            final(self).floating_layer@ == if !old(self).tiles(id) && old(self).floats(id) {
                old(self).floating_layer@.remove(index_in(old(self).floating_layer@, id))
            } else {
                old(self).floating_layer@
            },
            !final(self).floats(id) && !final(self).tiles(id),
            final(self).minimized_windows@ == old(self).minimized_windows@,
            final(self).signals@ == old(self).signals@,
            final(self).tiling_enabled == old(self).tiling_enabled,
            final(self).output == old(self).output,
            final(self).history() == old(self).history(),
            final(self).focus_stack == old(self).focus_stack,
    {
        let snapshot = match self.fullscreen {
            Some(f) => if f.ended_at.is_none() && f.surface == id {
                let g = FullscreenSurface {
                    start_at: None,
                    ended_at: Some(reversed_start(now, f.start_at)),
                    ..f
                };
                self.fullscreen = Some(g);
                Some(f)
            } else {
                None
            },
            None => None,
        };
        let ghost t0 = self.tiling_layer@;
        let ghost f0 = self.floating_layer@;
        let output_geo = self.output.geometry;
        let r = if let Some((i, w)) = self.tiling_layer.unmap(id) {
            proof {
                lemma_remove_unique(t0, i as int);
                assert(index_in(t0, id) == i);
            }
            Some(
                MinimizedWindow {
                    window: w,
                    previous_state: MinimizedState::Tiling {
                        tiling_state: Some(i),
                        was_maximized: w.maximized.is_some(),
                    },
                    fullscreen: snapshot,
                    output_geo,
                },
            )
        } else if let Some((i, w)) = self.floating_layer.unmap(id) {
            proof {
                lemma_remove_unique(f0, i as int);
                assert(index_in(f0, id) == i);
            }
            Some(
                MinimizedWindow {
                    window: w,
                    previous_state: MinimizedState::Floating { position: w.geometry.loc },
                    fullscreen: snapshot,
                    output_geo,
                },
            )
        } else {
            None
        };
        proof {
            assert forall|k: int| 0 <= k < self.minimized_windows@.len() implies (#[trigger] self.minimized_windows@[k]).wf(self.signals@.len()) by {
                assert(old(self).minimized_windows@[k].wf(old(self).signals@.len()));
            }
            lemma_wf_frame(old(self), self);
        }
        r
    }

    /// Restores a minimized window: a floating one at its recorded position, rescaled
    /// proportionally if the output's size changed since; a tiled one at its recorded
    /// structural position, or floating when tiling is off; maximized again if it was. A
    /// carried fullscreen state takes over the fullscreen with a fresh enter animation and a
    /// new blocker where the output's geometry changed; the fullscreen it replaces is ended
    /// as `remove_fullscreen` does, and what that gives back is given back. `from` is where a
    /// window maximized while tiling was on returns to once tiling is off; `_seat` is the seat
    /// whose focus a tiling tree would insert next to, where these layers append.
    pub fn unminimize(&mut self, window: MinimizedWindow, from: Rect, _seat: u64, now: u64) -> (r:
        Option<(u64, ManagedLayer, u64)>)
        requires
            old(self).wf(),
            window.wf(old(self).signals@.len()),
            !old(self).manages(window.window.id),
        ensures
            forall|x: u64| #[trigger] min_has(final(self).minimized_windows@, x) == min_has(old(self).minimized_windows@, x),
            final(self).wf(),
            ({
                let m = restored_entry(
                    window,
                    old(self).output.geometry.size,
                    old(self).tiling_enabled,
                    from,
                );
                if restore_layer(window, old(self).tiling_enabled) == ManagedLayer::Tiling {
                    &&& final(self).tiling_layer@ == tiled_back(old(self).tiling_layer@, window, m)
                    &&& final(self).floating_layer@ == old(self).floating_layer@
                } else {
                    &&& final(self).floating_layer@ == old(self).floating_layer@.push(m)
                    &&& final(self).tiling_layer@ == old(self).tiling_layer@
                }
            }),
            forall|x: u64| #[trigger] final(self).manages(x) == (old(self).manages(x) || x == window.window.id),
            window.fullscreen.is_some() ==> r == remove_result(old(self), Some(window.window.id)),
            window.fullscreen.is_none() ==> r.is_none() && final(self).fullscreen
                == old(self).fullscreen && final(self).signals@ == old(self).signals@,
            window.fullscreen matches Some(fs) ==> final(self).fullscreen matches Some(g) && g.surface
                == fs.surface && g.previously == fs.previously && g.original_geometry
                == fs.original_geometry && g.start_at == Some(now) && g.ended_at.is_none() && if old(self).output.geometry == window.output_geo {
                g.animation_signal == fs.animation_signal
            } else {
                g.animation_signal matches Some(k) && k < final(self).signals@.len()
                    && !final(self).signals@[k as int]
            },
            final(self).tiling_enabled == old(self).tiling_enabled,
            final(self).output == old(self).output,
            final(self).history() == old(self).history(),
            signals_grow(old(self).signals@, final(self).signals@),
            released_or_kept(old(self).fullscreen, final(self).signals@, final(self).fullscreen),
            window.fullscreen matches Some(fs) ==> (old(self).output.geometry != window.output_geo
                ==> match fs.animation_signal {
                Some(j) => final(self).signals@[j as int],
                None => true,
            }),
    {
        let id = window.window.id;
        let out = self.output.geometry.size;
        let base = Mapped { maximized: None, ..window.window };
        let ghost t0 = self.tiling_layer@;
        let ghost f0 = self.floating_layer@;
        match window.previous_state {
            MinimizedState::Tiling { tiling_state, was_maximized } => {
                if self.tiling_enabled {
                    let m = if was_maximized {
                        Mapped {
                            id,
                            geometry: Rect { loc: Point { x: 0, y: 0 }, size: out },
                            maximized: Some(
                                MaximizedState {
                                    original_geometry: base.geometry,
                                    original_layer: ManagedLayer::Tiling,
                                },
                            ),
                        }
                    } else {
                        base
                    };
                    let index = match tiling_state {
                        Some(i) => i,
                        None => self.tiling_layer.len(),
                    };
                    self.tiling_layer.insert_at(index, m);
                    proof {
                        if index <= t0.len() {
                            lemma_insert_unique(t0, index as int, m);
                        } else {
                            lemma_push_unique(t0, m);
                        }
                        if tiling_state.is_none() {
                            assert(t0.insert(t0.len() as int, m) =~= t0.push(m));
                        }
                    }
                } else {
                    let m = if was_maximized {
                        Mapped {
                            id,
                            geometry: Rect { loc: Point { x: 0, y: 0 }, size: out },
                            maximized: Some(
                                MaximizedState {
                                    original_geometry: from,
                                    original_layer: ManagedLayer::Floating,
                                },
                            ),
                        }
                    } else {
                        base
                    };
                    self.floating_layer.map(m);
                    proof {
                        lemma_push_unique(f0, m);
                    }
                }
            },
            MinimizedState::Floating { position } | MinimizedState::Sticky { position } => {
                let recorded = window.output_geo.size;
                let loc = if recorded == out {
                    position
                } else {
                    rescale_position(position, recorded, out)
                };
                let m = Mapped {
                    geometry: Rect { loc, size: window.window.geometry.size },
                    ..window.window
                };
                self.floating_layer.map(m);
                proof {
                    lemma_push_unique(f0, m);
                }
            },
        }
        proof {
            assert forall|x: u64|
                #![trigger has_id(self.floating_layer@, x)]
                #![trigger has_id(self.tiling_layer@, x)]
                !(has_id(self.floating_layer@, x) && has_id(self.tiling_layer@, x)) by {
                assert(!has_id(f0, x) || !has_id(t0, x));
            }
            assert forall|x: u64| #[trigger]
                min_has(self.minimized_windows@, x) implies !has_id(self.floating_layer@, x)
                && !has_id(self.tiling_layer@, x) by {
                assert(!has_id(f0, x) && !has_id(t0, x));
            }
            assert(self.wf());
            assert forall|x: u64| #[trigger] self.manages(x) == (old(self).manages(x) || x == id) by {
                if has_id(self.floating_layer@, x) && x != id {
                    assert(has_id(f0, x));
                }
                if has_id(self.tiling_layer@, x) && x != id {
                    assert(has_id(t0, x));
                }
            }
        }
        let ghost mid = *self;
        match window.fullscreen {
            Some(fs) => {
                let old_fullscreen = self.remove_fullscreen(now);
                let ghost after_remove = *self;
                assert forall|x: u64| #[trigger] after_remove.manages(x) == mid.manages(x) by {}
                let signal = if self.output.geometry != window.output_geo {
                    let k = self.signals.create();
                    if let Some(j) = fs.animation_signal {
                        self.signals.release(j);
                    }
                    proof {
                        assert forall|i: int| 0 <= i < self.minimized_windows@.len() implies (#[trigger] self.minimized_windows@[i]).wf(self.signals@.len()) by {
                        }
                    }
                    Some(k)
                } else {
                    fs.animation_signal
                };
                let f = FullscreenSurface {
                    start_at: Some(now),
                    ended_at: None,
                    animation_signal: signal,
                    ..fs
                };
                let ghost before = *self;
                assert forall|x: u64| #[trigger] before.manages(x) == after_remove.manages(x) by {}
                self.install_fullscreen(f);
                assert forall|x: u64| #[trigger] self.manages(x) == before.manages(x) by {}
                assert forall|x: u64| #[trigger] self.manages(x) == (old(self).manages(x) || x == id) by {
                    assert(before.manages(x) == after_remove.manages(x));
                    assert(after_remove.manages(x) == mid.manages(x));
                }
                old_fullscreen
            },
            None => None,
        }
    }

    /// Stores a minimized record; `false`, and nothing stored, when its window is already
    /// managed here or is the live fullscreen window, or the record does not fit this
    /// workspace. A carried fullscreen snapshot is stored without its blocker signal: that id
    /// may belong to another workspace's signals.
    pub fn add_minimized(&mut self, window: MinimizedWindow) -> (r: bool)
        requires
            old(self).wf(),
        ensures
            final(self).wf(),
            r == (!old(self).manages(window.window.id) && detached(window).wf(
                old(self).signals@.len(),
            ) && live_fullscreen_of(old(self).fullscreen, window.window.id).is_none()),
            r ==> final(self).minimized_windows@ == old(self).minimized_windows@.push(
                detached(window),
            ),
            !r ==> final(self).minimized_windows@ == old(self).minimized_windows@,
            final(self).floating_layer@ == old(self).floating_layer@,
            final(self).tiling_layer@ == old(self).tiling_layer@,
            final(self).fullscreen == old(self).fullscreen,
            final(self).signals@ == old(self).signals@,
    {
        let id = window.window.id;
        if self.element_for_surface(id).is_some() {
            return false;
        }
        if let Some(f) = &self.fullscreen {
            if f.ended_at.is_none() && f.surface == id {
                return false;
            }
        }
        let record = MinimizedWindow {
            fullscreen: match window.fullscreen {
                Some(f) => Some(FullscreenSurface { animation_signal: None, ..f }),
                None => None,
            },
            ..window
        };
        let fits = record.output_geo.size.w > 0 && record.output_geo.size.h > 0 && !matches!(
            record.previous_state,
            MinimizedState::Sticky { .. }
        ) && match record.fullscreen {
            Some(f) => !(f.start_at.is_some() && f.ended_at.is_some()) && f.ended_at.is_none()
                && f.surface == id,
            None => true,
        };
        if !fits {
            return false;
        }
        let ghost m0 = self.minimized_windows@;
        self.minimized_windows.push(record);
        proof {
            let s = self.minimized_windows@;
            assert forall|a: int, b: int| 0 <= a < b < s.len() implies s[a].window.id != s[b].window.id by {
                if b == m0.len() {
                    assert(s[a] == m0[a]);
                    assert(!min_has(m0, id));
                } else {
                    assert(s[a] == m0[a] && s[b] == m0[b]);
                }
            }
            assert forall|x: u64| #[trigger] min_has(s, x) implies !has_id(self.floating_layer@, x)
                && !has_id(self.tiling_layer@, x) by {
                let k = choose|k: int| 0 <= k < s.len() && s[k].window.id == x;
                if k < m0.len() {
                    assert(s[k] == m0[k]);
                    assert(min_has(m0, x));
                }
            }
            assert forall|i: int| 0 <= i < s.len() implies (#[trigger] s[i]).wf(self.signals@.len()) by {
                if i < m0.len() {
                    assert(s[i] == m0[i]);
                }
            }
            if let Some(f) = self.fullscreen {
                if f.ended_at.is_none() {
                    if min_has(s, f.surface) {
                        let k = choose|k: int| 0 <= k < s.len() && s[k].window.id == f.surface;
                        if k < m0.len() {
                            assert(s[k] == m0[k]);
                        }
                    }
                }
            }
        }
        true
    }

    /// Takes the minimized record of `id` out of the store.
    pub fn take_minimized(&mut self, id: u64) -> (r: Option<MinimizedWindow>)
        requires
            old(self).wf(),
        ensures
            final(self).wf(),
            r.is_some() == old(self).holds_minimized(id),
            r matches Some(m) ==> m == old(self).minimized_windows@[min_index(
                old(self).minimized_windows@,
                id,
            )] && m.wf(final(self).signals@.len()) && !final(self).manages(id)
                && final(self).minimized_windows@ == old(self).minimized_windows@.remove(
                min_index(old(self).minimized_windows@, id),
            ),
            r.is_none() ==> final(self).minimized_windows@ == old(self).minimized_windows@,
            forall|x: u64| x != id ==> #[trigger] final(self).manages(x) == old(self).manages(x),
            final(self).floating_layer@ == old(self).floating_layer@,
            final(self).tiling_layer@ == old(self).tiling_layer@,
            final(self).fullscreen == old(self).fullscreen,
            final(self).signals@ == old(self).signals@,
            final(self).tiling_enabled == old(self).tiling_enabled,
            final(self).output == old(self).output,
            final(self).history() == old(self).history(),
            final(self).focus_stack == old(self).focus_stack,
    {
        match self.find_minimized(id) {
            Some(pos) => {
                let ghost m0 = self.minimized_windows@;
                proof {
                    assert(min_index(m0, id) == pos);
                    lemma_min_remove(m0, pos as int);
                }
                let m = self.minimized_windows.remove(pos);
                proof {
                    assert forall|k: int| 0 <= k < self.minimized_windows@.len() implies (#[trigger] self.minimized_windows@[k]).wf(self.signals@.len()) by {
                        assert(self.minimized_windows@[k] == m0[if k < pos { k } else { k + 1 }]);
                    }
                    assert(m0[pos as int].wf(self.signals@.len()));
                    lemma_wf_frame(old(self), self);
                }
                Some(m)
            },
            None => None,
        }
    }

    /// Makes the window `id` fullscreen, unless a fullscreen window that is not leaving is
    /// there already. A minimized window is restored first. The enter animation starts at
    /// `now` and a new blocker holds the client's next commit; a fullscreen state on its way
    /// out is replaced, its blocker released.
    pub fn fullscreen_request(
        &mut self,
        id: u64,
        previously: Option<(ManagedLayer, u64)>,
        from: Rect,
        seat: u64,
        now: u64,
    )
        requires
            old(self).wf(),
        ensures
            final(self).wf(),
            (old(self).fullscreen matches Some(f) && f.ended_at.is_none()) ==> {
                &&& final(self).fullscreen == old(self).fullscreen
                &&& final(self).signals@ == old(self).signals@
                &&& final(self).floating_layer@ == old(self).floating_layer@
                &&& final(self).tiling_layer@ == old(self).tiling_layer@
                &&& final(self).minimized_windows@ == old(self).minimized_windows@
            },
            !(old(self).fullscreen matches Some(f) && f.ended_at.is_none()) ==> (final(self).fullscreen matches Some(g) && g.surface == id && g.previously == previously
                && g.start_at == Some(now) && g.ended_at.is_none() && (g.animation_signal matches Some(
                k,
            ) && k < final(self).signals@.len() && !final(self).signals@[k as int])),
            !(old(self).fullscreen matches Some(f) && f.ended_at.is_none()) ==> !final(self).holds_minimized(id),
            !(old(self).fullscreen matches Some(f) && f.ended_at.is_none()) && old(self).holds_minimized(id)
                ==> final(self).floats(id) || final(self).tiles(id),
            !(old(self).fullscreen matches Some(f) && f.ended_at.is_none()) && !old(self).holds_minimized(id) ==> {
                &&& final(self).floating_layer@ == old(self).floating_layer@
                &&& final(self).tiling_layer@ == old(self).tiling_layer@
                &&& final(self).minimized_windows@ == old(self).minimized_windows@
            },
            !(old(self).fullscreen matches Some(f) && f.ended_at.is_none()) && !old(self).holds_minimized(id) ==>
                final(self).fullscreen.unwrap().original_geometry == if old(self).floats(id) {
                    geometry_in(old(self).floating_layer@, id)
                } else if old(self).tiles(id) {
                    geometry_in(old(self).tiling_layer@, id)
                } else {
                    Rect { loc: Point { x: 0, y: 0 }, size: Size { w: 0, h: 0 } }
                },
            !(old(self).fullscreen matches Some(f) && f.ended_at.is_none()) ==> (
                match old(self).fullscreen {
                    Some(f) => match f.animation_signal {
                        Some(j) => final(self).signals@[j as int],
                        None => true,
                    },
                    None => true,
                }),
            final(self).tiling_enabled == old(self).tiling_enabled,
            final(self).output == old(self).output,
            final(self).history() == old(self).history(),
    {
        if let Some(f) = self.fullscreen {
            if f.ended_at.is_none() {
                return;
            }
        }
        let ghost s0 = self.signals@;
        if let Some(m) = self.take_minimized(id) {
            let _ = self.unminimize(m, from, seat, now);
            assert(self.manages(id));
        }
        assert(signals_grow(s0, self.signals@));
        assert(released_or_kept(old(self).fullscreen, self.signals@, self.fullscreen));
        assert(!self.holds_minimized(id));
        assert(old(self).holds_minimized(id) ==> self.floats(id) || self.tiles(id));
        let ghost restored = *self;
        let original_geometry = match self.element_geometry(id) {
            Some(g) => g,
            None => Rect::new(0, 0, 0, 0),
        };
        let ghost before_create = self.signals@;
        let k = self.signals.create();
        proof {
            assert forall|i: int| 0 <= i < self.minimized_windows@.len() implies (#[trigger] self.minimized_windows@[i]).wf(self.signals@.len()) by {
            }
            if let Some(g) = self.fullscreen {
                if let Some(j) = g.animation_signal {
                    assert(j < before_create.len());
                    assert(j != k);
                }
            }
        }
        let f = FullscreenSurface {
            surface: id,
            previously,
            original_geometry,
            start_at: Some(now),
            ended_at: None,
            animation_signal: Some(k),
        };
        self.install_fullscreen(f);
        proof {
            assert(self.floats(id) == restored.floats(id));
            assert(self.tiles(id) == restored.tiles(id));
            if let Some(g) = old(self).fullscreen {
                if let Some(j) = g.animation_signal {
                    if before_create[j as int] {
                        assert(before_create.push(false)[j as int]);
                    } else {
                        assert(restored.fullscreen matches Some(h) && h.animation_signal == Some(j));
                        assert(j < before_create.len());
                        assert(self.signals@ == before_create.push(false).update(j as int, true));
                    }
                    assert(self.signals@[j as int]);
                }
            }
        }
    }

    /// Moves every window to the tiling layer (`true`) or the floating layer (`false`), in
    /// order, after those already there; maximized windows stay maximized and now return to
    /// their new layer. Gives back the state to announce. `_seat` is the seat whose focus a
    /// tiling tree would insert next to, where these layers append.
    pub fn set_tiling(&mut self, tiling: bool, _seat: u64) -> (r: TilingState)
        requires
            old(self).wf(),
        ensures
            final(self).wf(),
            final(self).tiling_enabled == tiling,
            tiling ==> r == TilingState::TilingEnabled && final(self).tiling_layer@ == old(self).tiling_layer@ + all_moved_to(old(self).floating_layer@, ManagedLayer::Tiling)
                && final(self).floating_layer@ == Seq::<Mapped>::empty(),
            !tiling ==> r == TilingState::FloatingOnly && final(self).floating_layer@ == old(self).floating_layer@ + all_moved_to(old(self).tiling_layer@, ManagedLayer::Floating)
                && final(self).tiling_layer@ == Seq::<Mapped>::empty(),
            forall|x: u64| #[trigger] final(self).manages(x) == old(self).manages(x),
            final(self).minimized_windows@ == old(self).minimized_windows@,
            final(self).fullscreen == old(self).fullscreen,
            final(self).signals@ == old(self).signals@,
            final(self).output == old(self).output,
            final(self).history() == old(self).history(),
    {
        let ghost f0 = self.floating_layer@;
        let ghost t0 = self.tiling_layer@;
        let (layer, target_is_tiling) = if tiling {
            (ManagedLayer::Tiling, true)
        } else {
            (ManagedLayer::Floating, false)
        };
        let moving = if tiling {
            self.floating_layer.take_all()
        } else {
            self.tiling_layer.take_all()
        };
        let ghost src = moving@;
        let ghost dst0 = if tiling { t0 } else { f0 };
        proof {
            assert forall|x: u64| has_id(src, x) implies !has_id(dst0, x) by {
                assert(!(has_id(f0, x) && has_id(t0, x)));
            }
            assert(dst0 + all_moved_to(src.subrange(0, 0), layer) =~= dst0);
        }
        let mut i: usize = 0;
        while i < moving.len()
            invariant
                i <= src.len(),
                src == moving@,
                unique_ids(src),
                unique_ids(dst0),
                forall|x: u64| has_id(src, x) ==> !has_id(dst0, x),
                target_is_tiling == tiling,
                self.floating_layer@.len() <= usize::MAX,
                self.tiling_layer@.len() <= usize::MAX,
                layer == if tiling { ManagedLayer::Tiling } else { ManagedLayer::Floating },
                dst0 == if tiling { t0 } else { f0 },
                src == if tiling { f0 } else { t0 },
                self.minimized_windows@ == old(self).minimized_windows@,
                self.fullscreen == old(self).fullscreen,
                self.signals@ == old(self).signals@,
                self.output == old(self).output,
                self.output_stack@ == old(self).output_stack@,
                self.focus_stack == old(self).focus_stack,
                self.tiling_enabled == old(self).tiling_enabled,
                f0 == old(self).floating_layer@,
                t0 == old(self).tiling_layer@,
                old(self).wf(),
                tiling ==> self.floating_layer@ == Seq::<Mapped>::empty()
                    && self.tiling_layer@ == dst0 + all_moved_to(src.subrange(0, i as int), layer),
                !tiling ==> self.tiling_layer@ == Seq::<Mapped>::empty()
                    && self.floating_layer@ == dst0 + all_moved_to(src.subrange(0, i as int), layer),
            decreases src.len() - i,
        {
            let w = moving[i];
            let m = match w.maximized {
                Some(st) => Mapped {
                    maximized: Some(MaximizedState { original_layer: layer, ..st }),
                    ..w
                },
                None => w,
            };
            if target_is_tiling {
                self.tiling_layer.map(m);
            } else {
                self.floating_layer.map(m);
            }
            assert(all_moved_to(src.subrange(0, i + 1), layer) =~= all_moved_to(
                src.subrange(0, i as int),
                layer,
            ).push(m));
            i = i + 1;
        }
        proof {
            assert(src.subrange(0, src.len() as int) =~= src);
            let moved = all_moved_to(src, layer);
            let all = dst0 + moved;
            assert forall|a: int, b: int| 0 <= a < b < all.len() implies all[a].id != all[b].id by {
                if b < dst0.len() {
                } else if a >= dst0.len() {
                    assert(moved[a - dst0.len()].id == src[a - dst0.len()].id);
                    assert(moved[b - dst0.len()].id == src[b - dst0.len()].id);
                } else {
                    assert(moved[b - dst0.len()].id == src[b - dst0.len()].id);
                    assert(has_id(src, src[b - dst0.len()].id));
                    assert(has_id(dst0, all[a].id));
                }
            }
            assert forall|x: u64| #[trigger] has_id(all, x) == (has_id(dst0, x) || has_id(src, x)) by {
                if has_id(all, x) {
                    let k = choose|k: int| 0 <= k < all.len() && all[k].id == x;
                    if k >= dst0.len() {
                        assert(moved[k - dst0.len()].id == src[k - dst0.len()].id);
                    }
                }
                if has_id(dst0, x) {
                    let k = choose|k: int| 0 <= k < dst0.len() && dst0[k].id == x;
                    assert(all[k] == dst0[k]);
                }
                if has_id(src, x) {
                    let k = choose|k: int| 0 <= k < src.len() && src[k].id == x;
                    assert(moved[k].id == src[k].id);
                    assert(all[k + dst0.len()] == moved[k]);
                }
            }
            assert forall|x: u64| #[trigger] self.manages(x) == old(self).manages(x) by {
                assert(has_id(all, x) == (has_id(dst0, x) || has_id(src, x)));
            }
            assert forall|x: u64|
                #![trigger has_id(self.floating_layer@, x)]
                #![trigger has_id(self.tiling_layer@, x)]
                !(has_id(self.floating_layer@, x) && has_id(self.tiling_layer@, x)) by {}
            assert forall|x: u64| #[trigger]
                min_has(self.minimized_windows@, x) implies !has_id(self.floating_layer@, x)
                && !has_id(self.tiling_layer@, x) by {
                assert(!has_id(f0, x) && !has_id(t0, x));
            }
        }
        self.tiling_enabled = tiling;
        if tiling {
            TilingState::TilingEnabled
        } else {
            TilingState::FloatingOnly
        }
    }

    /// Flips between tiling and floating, as `set_tiling` does.
    pub fn toggle_tiling(&mut self, seat: u64) -> (r: TilingState)
        requires
            old(self).wf(),
        ensures
            final(self).wf(),
            final(self).tiling_enabled == !old(self).tiling_enabled,
            old(self).tiling_enabled ==> r == TilingState::FloatingOnly && final(self).floating_layer@
                == old(self).floating_layer@ + all_moved_to(
                old(self).tiling_layer@,
                ManagedLayer::Floating,
            ) && final(self).tiling_layer@ == Seq::<Mapped>::empty(),
            !old(self).tiling_enabled ==> r == TilingState::TilingEnabled && final(self).tiling_layer@ == old(self).tiling_layer@ + all_moved_to(
                old(self).floating_layer@,
                ManagedLayer::Tiling,
            ) && final(self).floating_layer@ == Seq::<Mapped>::empty(),
            final(self).minimized_windows@ == old(self).minimized_windows@,
            final(self).fullscreen == old(self).fullscreen,
    {
        let t = !self.tiling_enabled;
        self.set_tiling(t, seat)
    }

    /// With tiling on, moves the window `id` between the tiling and the floating layer,
    /// unmaximized, on top of the layer it joins; with tiling off, does nothing. `_seat` is
    /// the seat whose focus a tiling tree would insert next to, where these layers append.
    pub fn toggle_floating_window(&mut self, _seat: u64, id: u64)
        requires
            old(self).wf(),
        ensures
            final(self).wf(),
            old(self).tiling_enabled && old(self).tiles(id) ==> {
                let i = index_in(old(self).tiling_layer@, id);
                &&& final(self).tiling_layer@ == old(self).tiling_layer@.remove(i)
                &&& final(self).floating_layer@ == old(self).floating_layer@.push(
                    unmaximized(old(self).tiling_layer@[i]),
                )
            },
            old(self).tiling_enabled && old(self).floats(id) ==> {
                let i = index_in(old(self).floating_layer@, id);
                &&& final(self).floating_layer@ == old(self).floating_layer@.remove(i)
                &&& final(self).tiling_layer@ == old(self).tiling_layer@.push(
                    unmaximized(old(self).floating_layer@[i]),
                )
            },
            !(old(self).tiling_enabled && (old(self).tiles(id) || old(self).floats(id)))
                ==> final(self).floating_layer@ == old(self).floating_layer@ && final(self).tiling_layer@
                == old(self).tiling_layer@,
            forall|x: u64| #[trigger] final(self).manages(x) == old(self).manages(x),
            final(self).minimized_windows@ == old(self).minimized_windows@,
            final(self).fullscreen == old(self).fullscreen,
            final(self).signals@ == old(self).signals@,
            final(self).tiling_enabled == old(self).tiling_enabled,
            final(self).output == old(self).output,
            final(self).history() == old(self).history(),
    {
        if !self.tiling_enabled {
            return;
        }
        let ghost f0 = self.floating_layer@;
        let ghost t0 = self.tiling_layer@;
        if let Some((i, w)) = self.tiling_layer.unmap(id) {
            let m = match w.maximized {
                Some(st) => Mapped { id: w.id, geometry: st.original_geometry, maximized: None },
                None => w,
            };
            self.floating_layer.map(m);
            proof {
                assert(index_in(t0, id) == i);
                lemma_remove_unique(t0, i as int);
                lemma_push_unique(f0, m);
                self.lemma_moved_one(old(self), id);
            }
        } else if let Some((i, w)) = self.floating_layer.unmap(id) {
            let m = match w.maximized {
                Some(st) => Mapped { id: w.id, geometry: st.original_geometry, maximized: None },
                None => w,
            };
            self.tiling_layer.map(m);
            proof {
                assert(index_in(f0, id) == i);
                lemma_remove_unique(f0, i as int);
                lemma_push_unique(t0, m);
                self.lemma_moved_one(old(self), id);
            }
        }
    }

    /// A window that moved from one layer to the other leaves the workspace well formed.
    proof fn lemma_moved_one(&self, a: &Workspace, id: u64)
        requires
            a.wf(),
            self.floating_layer.wf(),
            self.tiling_layer.wf(),
            self.minimized_windows@ == a.minimized_windows@,
            self.output == a.output,
            self.output_stack@ == a.output_stack@,
            self.focus_stack == a.focus_stack,
            self.fullscreen == a.fullscreen,
            self.signals@ == a.signals@,
            a.floats(id) || a.tiles(id),
            forall|x: u64| x != id ==> has_id(self.floating_layer@, x) == has_id(a.floating_layer@, x),
            forall|x: u64| x != id ==> has_id(self.tiling_layer@, x) == has_id(a.tiling_layer@, x),
            has_id(self.floating_layer@, id) != has_id(self.tiling_layer@, id),
        ensures
            self.wf(),
            forall|x: u64| #[trigger] self.manages(x) == a.manages(x),
    {
        assert forall|x: u64|
            #![trigger has_id(self.floating_layer@, x)]
            #![trigger has_id(self.tiling_layer@, x)]
            !(has_id(self.floating_layer@, x) && has_id(self.tiling_layer@, x)) by {
            if x != id {
                assert(!(has_id(a.floating_layer@, x) && has_id(a.tiling_layer@, x)));
            }
        }
        assert forall|x: u64| #[trigger]
            min_has(self.minimized_windows@, x) implies !has_id(self.floating_layer@, x) && !has_id(
                self.tiling_layer@,
                x,
            ) by {
            assert(min_has(a.minimized_windows@, x));
            if x == id {
                assert(has_id(a.floating_layer@, x) || has_id(a.tiling_layer@, x));
            }
        }
        assert forall|x: u64| #[trigger] self.manages(x) == a.manages(x) by {
            if x == id {
            }
        }
    }

    /// Toggles the window that `seat` focused last, as `toggle_floating_window` does.
    pub fn toggle_floating_window_focused(&mut self, seat: u64)
        requires
            old(self).wf(),
        ensures
            final(self).wf(),
            old(self).focus_stack.stack_of(seat).len() == 0 ==> final(self).floating_layer@ == old(
                self).floating_layer@ && final(self).tiling_layer@ == old(self).tiling_layer@,
            old(self).tiling_enabled && old(self).focus_stack.stack_of(seat).len() > 0 ==> {
                let id = old(self).focus_stack.stack_of(seat).last();
                &&& old(self).tiles(id) ==> final(self).floating_layer@ == old(self).floating_layer@.push(
                    unmaximized(old(self).tiling_layer@[index_in(old(self).tiling_layer@, id)]),
                )
                &&& old(self).floats(id) ==> final(self).tiling_layer@ == old(self).tiling_layer@.push(
                    unmaximized(old(self).floating_layer@[index_in(old(self).floating_layer@, id)]),
                )
            },
            forall|x: u64| #[trigger] final(self).manages(x) == old(self).manages(x),
            final(self).minimized_windows@ == old(self).minimized_windows@,
            final(self).fullscreen == old(self).fullscreen,
            final(self).tiling_enabled == old(self).tiling_enabled,
    {
        if let Some(w) = self.focus_stack.focused(seat) {
            self.toggle_floating_window(seat, w);
        }
    }

    /// Whether the window `id` is fullscreen: live and not leaving, or minimized from
    /// fullscreen.
    pub fn is_fullscreen(&self, id: u64) -> (r: bool)
        requires
            self.wf(),
        ensures
            r == (live_fullscreen_of(self.fullscreen, id).is_some() || has_fullscreen_snapshot(
                self.minimized_windows@,
                id,
            )),
    {
        let live = match &self.fullscreen {
            Some(f) => f.ended_at.is_none() && f.surface == id,
            None => false,
        };
        if live {
            return true;
        }
        match self.find_minimized(id) {
            Some(i) => {
                proof {
                    assert(min_index(self.minimized_windows@, id) == i);
                }
                self.minimized_windows[i].fullscreen.is_some()
            },
            None => false,
        }
    }

    /// Whether the window `id` is floating, or minimized from floating, and not fullscreen.
    pub fn is_floating(&self, id: u64) -> (r: bool)
        requires
            self.wf(),
        ensures
            r == (!(live_fullscreen_of(self.fullscreen, id).is_some() || has_fullscreen_snapshot(
                self.minimized_windows@,
                id,
            )) && (self.floats(id) || (self.holds_minimized(id) && !(self.minimized_windows@[min_index(
                self.minimized_windows@,
                id,
            )].previous_state is Tiling)))),
    {
        if self.is_fullscreen(id) {
            return false;
        }
        if self.floating_layer.contains(id) {
            return true;
        }
        match self.find_minimized(id) {
            Some(i) => {
                proof {
                    assert(min_index(self.minimized_windows@, id) == i);
                }
                !matches!(self.minimized_windows[i].previous_state, MinimizedState::Tiling { .. })
            },
            None => false,
        }
    }

    /// Whether the window `id` is tiled, or minimized from tiling, and not fullscreen.
    pub fn is_tiled(&self, id: u64) -> (r: bool)
        requires
            self.wf(),
        ensures
            r == (!(live_fullscreen_of(self.fullscreen, id).is_some() || has_fullscreen_snapshot(
                self.minimized_windows@,
                id,
            )) && (self.tiles(id) || (self.holds_minimized(id) && self.minimized_windows@[min_index(
                self.minimized_windows@,
                id,
            )].previous_state is Tiling))),
    {
        if self.is_fullscreen(id) {
            return false;
        }
        if self.tiling_layer.contains(id) {
            return true;
        }
        match self.find_minimized(id) {
            Some(i) => {
                proof {
                    assert(min_index(self.minimized_windows@, id) == i);
                }
                matches!(self.minimized_windows[i].previous_state, MinimizedState::Tiling { .. })
            },
            None => false,
        }
    }

    /// Maps a new window into the tiling layer when tiling is on, the floating layer
    /// otherwise, on top; `false`, and nothing mapped, when it is managed here already.
    pub fn map_window(&mut self, w: Mapped) -> (r: bool)
        requires
            old(self).wf(),
        ensures
            final(self).wf(),
            r == !old(self).manages(w.id),
            r && old(self).tiling_enabled ==> final(self).tiling_layer@ == old(self).tiling_layer@.push(w)
                && final(self).floating_layer@ == old(self).floating_layer@,
            r && !old(self).tiling_enabled ==> final(self).floating_layer@ == old(self).floating_layer@.push(w)
                && final(self).tiling_layer@ == old(self).tiling_layer@,
            !r ==> final(self).floating_layer@ == old(self).floating_layer@ && final(self).tiling_layer@
                == old(self).tiling_layer@,
            forall|x: u64| #[trigger] final(self).manages(x) == (old(self).manages(x) || x == w.id),
            final(self).minimized_windows@ == old(self).minimized_windows@,
            final(self).fullscreen == old(self).fullscreen,
            final(self).signals@ == old(self).signals@,
            final(self).tiling_enabled == old(self).tiling_enabled,
    {
        if self.element_for_surface(w.id).is_some() {
            return false;
        }
        let ghost f0 = self.floating_layer@;
        let ghost t0 = self.tiling_layer@;
        if self.tiling_enabled {
            self.tiling_layer.map(w);
            proof {
                lemma_push_unique(t0, w);
            }
        } else {
            self.floating_layer.map(w);
            proof {
                lemma_push_unique(f0, w);
            }
        }
        proof {
            assert forall|x: u64|
                #![trigger has_id(self.floating_layer@, x)]
                #![trigger has_id(self.tiling_layer@, x)]
                !(has_id(self.floating_layer@, x) && has_id(self.tiling_layer@, x)) by {
                assert(!(has_id(f0, x) && has_id(t0, x)));
            }
            assert forall|x: u64| #[trigger]
                min_has(self.minimized_windows@, x) implies !has_id(self.floating_layer@, x)
                && !has_id(self.tiling_layer@, x) by {
                assert(!has_id(f0, x) && !has_id(t0, x));
            }
            assert forall|x: u64| #[trigger] self.manages(x) == (old(self).manages(x) || x == w.id) by {}
        }
        true
    }

    /// Resizes the focused window in whichever layer holds it; refused for the fullscreen
    /// window that is not leaving, and for a focused group.
    pub fn resize(
        &mut self,
        focused: &KeyboardFocusTarget,
        direction: ResizeDirection,
        edge: ResizeEdge,
        amount: i32,
    ) -> (r: bool)
        requires
            old(self).wf(),
        ensures
            final(self).wf(),
            focused is Group ==> !r && final(self).floating_layer@ == old(self).floating_layer@
                && final(self).tiling_layer@ == old(self).tiling_layer@,
            match *focused {
                KeyboardFocusTarget::Element(w) | KeyboardFocusTarget::Fullscreen(w) => {
                    if live_fullscreen_of(old(self).fullscreen, w).is_some() || !(old(self).floats(w)
                        || old(self).tiles(w)) {
                        &&& !r
                        &&& final(self).floating_layer@ == old(self).floating_layer@
                        &&& final(self).tiling_layer@ == old(self).tiling_layer@
                    } else if old(self).floats(w) {
                        let i = index_in(old(self).floating_layer@, w);
                        &&& final(self).tiling_layer@ == old(self).tiling_layer@
                        &&& match resized(old(self).floating_layer@[i].geometry, direction, edge, amount as int) {
                            Some(g) => r && final(self).floating_layer@ == old(self).floating_layer@.update(
                                i,
                                Mapped { geometry: g, ..old(self).floating_layer@[i] },
                            ),
                            None => !r && final(self).floating_layer@ == old(self).floating_layer@,
                        }
                    } else {
                        let i = index_in(old(self).tiling_layer@, w);
                        &&& final(self).floating_layer@ == old(self).floating_layer@
                        &&& match resized(old(self).tiling_layer@[i].geometry, direction, edge, amount as int) {
                            Some(g) => r && final(self).tiling_layer@ == old(self).tiling_layer@.update(
                                i,
                                Mapped { geometry: g, ..old(self).tiling_layer@[i] },
                            ),
                            None => !r && final(self).tiling_layer@ == old(self).tiling_layer@,
                        }
                    }
                },
                KeyboardFocusTarget::Group(_) => true,
            },
            forall|x: u64| #[trigger] final(self).manages(x) == old(self).manages(x),
            final(self).minimized_windows@ == old(self).minimized_windows@,
            final(self).fullscreen == old(self).fullscreen,
            final(self).signals@ == old(self).signals@,
    {
        let w = match focused {
            KeyboardFocusTarget::Element(w) => *w,
            KeyboardFocusTarget::Fullscreen(w) => *w,
            KeyboardFocusTarget::Group(_) => {
                return false;
            },
        };
        if let Some(f) = &self.fullscreen {
            if f.ended_at.is_none() && f.surface == w {
                return false;
            }
        }
        if self.floating_layer.contains(w) {
            let r = self.floating_layer.resize(w, direction, edge, amount);
            proof {
                lemma_wf_frame(old(self), self);
            }
            r
        } else if self.tiling_layer.contains(w) {
            let r = self.tiling_layer.resize(w, direction, edge, amount);
            proof {
                lemma_wf_frame(old(self), self);
            }
            r
        } else {
            false
        }
    }

    /// Drops from the focus stacks every window that is no longer floating or tiled here.
    pub fn refresh_focus_stack(&mut self)
        requires
            old(self).wf(),
        ensures
            final(self).wf(),
            forall|seat: u64, y: u64| #[trigger] final(self).focus_stack.stack_of(seat).contains(y)
                == (old(self).focus_stack.stack_of(seat).contains(y) && (old(self).floats(y)
                || old(self).tiles(y))),
            final(self).floating_layer@ == old(self).floating_layer@,
            final(self).tiling_layer@ == old(self).tiling_layer@,
            final(self).minimized_windows@ == old(self).minimized_windows@,
            final(self).fullscreen == old(self).fullscreen,
            final(self).signals@ == old(self).signals@,
    {
        let windows = self.mapped();
        self.focus_stack.retain(&windows);
    }

    /// Drops the fullscreen state once its window is gone.
    pub fn refresh(&mut self, fullscreen_alive: bool)
        requires
            old(self).wf(),
        ensures
            final(self).wf(),
            final(self).fullscreen == if fullscreen_alive {
                old(self).fullscreen
            } else {
                None
            },
            final(self).floating_layer@ == old(self).floating_layer@,
            final(self).tiling_layer@ == old(self).tiling_layer@,
            final(self).minimized_windows@ == old(self).minimized_windows@,
            final(self).signals@ == old(self).signals@,
    {
        if self.fullscreen.is_some() && !fullscreen_alive {
            self.fullscreen = None;
        }
    }

    /// Where the fullscreen window's content of size `bbox` is shown: the whole output, or
    /// centred on an axis where the content is smaller.
    pub fn fullscreen_geometry(&self, bbox: Size) -> (r: Option<Rect>)
        requires
            self.wf(),
            bbox.is_valid(),
        ensures
            r == if self.fullscreen.is_some() {
                Some(centered_rect(bbox, self.output.geometry.size))
            } else {
                None
            },
    {
        if self.fullscreen.is_some() {
            Some(center_in_output(bbox, self.output.geometry.size))
        } else {
            None
        }
    }

    /// Whether the window `id` is floating or tiled and maximized.
    pub fn is_maximized(&self, id: u64) -> (r: bool)
        requires
            self.wf(),
        ensures
            r == ((self.floats(id) && self.floating_layer@[index_in(
                self.floating_layer@,
                id,
            )].maximized.is_some()) || (self.tiles(id) && self.tiling_layer@[index_in(
                self.tiling_layer@,
                id,
            )].maximized.is_some())),
    {
        match self.floating_layer.find(id) {
            Some(i) => {
                proof {
                    assert(index_in(self.floating_layer@, id) == i);
                }
                self.floating_layer.get(i).maximized.is_some()
            },
            None => match self.tiling_layer.find(id) {
                Some(i) => {
                    proof {
                        assert(index_in(self.tiling_layer@, id) == i);
                    }
                    self.tiling_layer.get(i).maximized.is_some()
                },
                None => false,
            },
        }
    }

    /// The tiling-tree position of a focus target: a tiled, unmaximized window is its own
    /// node; a group carries its node and focus stack.
    pub fn node_desc(&self, focus: KeyboardFocusTarget) -> (r: Option<NodeDesc>)
        requires
            self.wf(),
        ensures
            focus matches KeyboardFocusTarget::Fullscreen(_) ==> r.is_none(),
            focus matches KeyboardFocusTarget::Element(w) ==> (r.is_some() == (self.tiles(w)
                && self.tiling_layer@[index_in(self.tiling_layer@, w)].maximized.is_none())),
            focus matches KeyboardFocusTarget::Element(w) ==> (r matches Some(d) ==> d.handle
                == self.handle && d.node == w && d.stack_window.is_none() && d.focus_stack@ == seq![w]),
            focus matches KeyboardFocusTarget::Group(g) ==> (r matches Some(d) && d.handle
                == self.handle && d.node == g.node && d.stack_window.is_none() && d.focus_stack@
                == g.focus_stack@),
    {
        match focus {
            KeyboardFocusTarget::Element(w) => {
                if self.is_maximized(w) {
                    return None;
                }
                if self.tiling_layer.contains(w) {
                    let mut stack = Vec::new();
                    stack.push(w);
                    assert(stack@ =~= seq![w]);
                    Some(NodeDesc { handle: self.handle, node: w, stack_window: None, focus_stack: stack })
                } else {
                    None
                }
            },
            KeyboardFocusTarget::Group(g) => Some(
                NodeDesc {
                    handle: self.handle,
                    node: g.node,
                    stack_window: None,
                    focus_stack: g.focus_stack,
                },
            ),
            KeyboardFocusTarget::Fullscreen(_) => None,
        }
    }
}

} // verus!

verus! {

/// A window minimized and then restored with no change of output in between returns to the
/// layer it left (a tiled one to its structural position, while tiling stays on), and a
/// floating window to exactly the geometry it had.
pub proof fn minimize_round_trip(ws: &Workspace, id: u64, from: Rect)
    requires
        ws.wf(),
        ws.floats(id) || ws.tiles(id),
        ws.tiles(id) ==> ws.tiling_enabled,
    ensures
        restore_layer(minimized_record(ws, id), ws.tiling_enabled) == if ws.tiles(id) {
            ManagedLayer::Tiling
        } else {
            ManagedLayer::Floating
        },
        ws.tiles(id) ==> (minimized_record(ws, id).previous_state matches MinimizedState::Tiling {
            tiling_state: Some(i),
            ..
        } && i == index_in(ws.tiling_layer@, id)),
        ws.floats(id) ==> restored_entry(
            minimized_record(ws, id),
            ws.output.geometry.size,
            ws.tiling_enabled,
            from,
        ) == ws.floating_layer@[index_in(ws.floating_layer@, id)],
{
    if ws.floats(id) {
        assert(!ws.tiles(id));
        let w = ws.floating_layer@[index_in(ws.floating_layer@, id)];
        let rec = minimized_record(ws, id);
        assert(rec.output_geo.size == ws.output.geometry.size);
        assert(restored_entry(rec, ws.output.geometry.size, ws.tiling_enabled, from) =~= w);
    }
}

/// No window is ever both tiled and floating, and a minimized window is neither.
pub proof fn layers_stay_disjoint(ws: &Workspace, id: u64)
    requires
        ws.wf(),
    ensures
        !(ws.floats(id) && ws.tiles(id)),
        ws.holds_minimized(id) ==> !ws.floats(id) && !ws.tiles(id),
{
}

/// Turning tiling on and straight off again on a workspace with only unmaximized floating
/// windows leaves the same windows floating, in the same order, with the same geometry.
pub proof fn tiling_round_trip(floating: Seq<Mapped>)
    requires
        forall|i: int| 0 <= i < floating.len() ==> (#[trigger] floating[i]).maximized.is_none(),
    ensures
        Seq::<Mapped>::empty() + all_moved_to(
            Seq::<Mapped>::empty() + all_moved_to(floating, ManagedLayer::Tiling),
            ManagedLayer::Floating,
        ) == floating,
{
    let tiled = Seq::<Mapped>::empty() + all_moved_to(floating, ManagedLayer::Tiling);
    assert(tiled =~= floating);
    assert(Seq::<Mapped>::empty() + all_moved_to(tiled, ManagedLayer::Floating) =~= floating);
}

/// An exit requested while the enter animation runs starts so that the time the enter phase
/// used and the time the exit has left add up to the nominal duration, so the two together
/// never run longer than it; and the enter phase's blocker is released at once, however
/// little of the animation had run.
pub proof fn interrupted_enter(
    signals: Seq<bool>,
    f: FullscreenSurface,
    entered: u64,
    now: u64,
    k: usize,
    fresh: usize,
)
    requires
        f.start_at == Some(entered),
        f.ended_at.is_none(),
        f.animation_signal == Some(k),
        k < signals.len(),
        entered <= now < entered + FULLSCREEN_ANIMATION_DURATION_MS,
    ensures
        begin_exit(f, now, fresh).ended_at matches Some(e) && (now - entered) + (e
            + FULLSCREEN_ANIMATION_DURATION_MS - now) == FULLSCREEN_ANIMATION_DURATION_MS,
        begin_exit(f, now, fresh).ended_at matches Some(e) && e + FULLSCREEN_ANIMATION_DURATION_MS
            - entered == FULLSCREEN_ANIMATION_DURATION_MS,
        replace_blocker(signals, f)[k as int],
{
    crate::animation::reversal_never_overshoots(entered, now);
}

/// Replacing a pending blocker releases it, whatever the progress of its animation, and the
/// new blocker starts pending; other signals keep their state.
pub proof fn replaced_blocker_released(signals: Seq<bool>, f: FullscreenSurface, k: usize)
    requires
        f.animation_signal == Some(k),
        k < signals.len(),
    ensures
        replace_blocker(signals, f)[k as int],
        !replace_blocker(signals, f)[signals.len() as int],
        replace_blocker(signals, f).len() == signals.len() + 1,
        forall|j: int| 0 <= j < signals.len() && j != k ==> #[trigger] replace_blocker(signals, f)[j] == signals[j],
{
}

} // verus!
