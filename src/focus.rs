//! Per-seat focus stacks: for each input seat, the windows it has focused, most recent last.
use vstd::prelude::*;

use indexmap::IndexSet;

verus! {

#[verifier::external_type_specification]
#[verifier::external_body]
#[verifier::reject_recursive_types(T)]
#[verifier::reject_recursive_types(S)]
pub struct ExIndexSet<T, S>(indexmap::IndexSet<T, S>);

/// The values of an `IndexSet`, in their order.
pub uninterp spec fn stack_items(s: &IndexSet<u64>) -> Seq<u64>;

/// Relies on `IndexSet::new`: a new set is empty.
#[verifier::external_body]
fn set_new() -> (r: IndexSet<u64>)
    ensures
        stack_items(&r) == Seq::<u64>::empty(),
{
    IndexSet::new()
}

/// Relies on `IndexSet::insert`: a value not yet present is appended, a present one keeps its
/// place; values stay unique.
#[verifier::external_body]
fn set_insert(s: &mut IndexSet<u64>, v: u64) -> (r: bool)
    ensures
        r == !stack_items(old(s)).contains(v),
        r ==> stack_items(final(s)) == stack_items(old(s)).push(v),
        !r ==> stack_items(final(s)) == stack_items(old(s)),
        stack_items(old(s)).no_duplicates() ==> stack_items(final(s)).no_duplicates(),
{
    s.insert(v)
}

/// Relies on `IndexSet::shift_remove`: the value is removed and those after it close up in
/// their order; `true` when it was present.
#[verifier::external_body]
fn set_shift_remove(s: &mut IndexSet<u64>, v: u64) -> (r: bool)
    ensures
        r == stack_items(old(s)).contains(v),
        r ==> exists|i: int|
            0 <= i < stack_items(old(s)).len() && stack_items(old(s))[i] == v && stack_items(
                final(s),
            ) == stack_items(old(s)).remove(i),
        !r ==> stack_items(final(s)) == stack_items(old(s)),
        stack_items(old(s)).no_duplicates() ==> stack_items(final(s)).no_duplicates(),
{
    s.shift_remove(&v)
}

fn vec_contains(v: &Vec<u64>, x: u64) -> (r: bool)
    ensures
        r == v@.contains(x),
{
    let mut i: usize = 0;
    while i < v.len()
        invariant
            i <= v@.len(),
            forall|j: int| 0 <= j < i ==> v@[j] != x,
        decreases v@.len() - i,
    {
        if v[i] == x {
            return true;
        }
        i = i + 1;
    }
    false
}

proof fn lemma_removed_gone(before: Seq<u64>, after: Seq<u64>, w: u64)
    requires
        before.no_duplicates(),
        removed_from(before, after, w),
    ensures
        !after.contains(w),
{
    if before.contains(w) {
        let i = choose|i: int| 0 <= i < before.len() && before[i] == w && after == before.remove(i);
        if after.contains(w) {
            let k = choose|k: int| 0 <= k < after.len() && after[k] == w;
            let k2 = if k < i { k } else { k + 1 };
            assert(after[k] == before[k2]);
        }
    }
}

proof fn lemma_removed_membership(before: Seq<u64>, after: Seq<u64>, x: u64, i: int)
    requires
        before.no_duplicates(),
        0 <= i < before.len(),
        before[i] == x,
        after == before.remove(i),
    ensures
        forall|y: u64| #[trigger] after.contains(y) == (before.contains(y) && y != x),
{
    assert forall|y: u64| #[trigger] after.contains(y) == (before.contains(y) && y != x) by {
        if after.contains(y) {
            let k = choose|k: int| 0 <= k < after.len() && after[k] == y;
            let k2 = if k < i { k } else { k + 1 };
            assert(after[k] == before[k2]);
            assert(k2 != i);
        }
        if before.contains(y) && y != x {
            let k = choose|k: int| 0 <= k < before.len() && before[k] == y;
            assert(k != i);
            let k2 = if k < i { k } else { k - 1 };
            assert(after[k2] == before[k]);
        }
    }
}

/// Keeps in `s` only the values that `keep` holds.
fn set_retain(s: &mut IndexSet<u64>, keep: &Vec<u64>)
    requires
        stack_items(old(s)).no_duplicates(),
    ensures
        stack_items(final(s)).no_duplicates(),
        forall|y: u64| #[trigger] stack_items(final(s)).contains(y) == (stack_items(old(s)).contains(y)
            && keep@.contains(y)),
{
    let items = set_items(s);
    let ghost before = stack_items(s);
    let mut j: usize = 0;
    while j < items.len()
        invariant
            j <= items@.len(),
            items@ == before,
            stack_items(s).no_duplicates(),
            forall|y: u64| #[trigger] stack_items(s).contains(y) == (before.contains(y) && (
                !items@.subrange(0, j as int).contains(y) || keep@.contains(y))),
        decreases items@.len() - j,
    {
        let x = items[j];
        let ghost cur = stack_items(s);
        if !vec_contains(keep, x) {
            let removed = set_shift_remove(s, x);
            proof {
                if removed {
                    let i = choose|i: int| 0 <= i < cur.len() && cur[i] == x && stack_items(s) == cur.remove(i);
                    lemma_removed_membership(cur, stack_items(s), x, i);
                }
            }
        }
        proof {
            assert forall|y: u64| #[trigger] stack_items(s).contains(y) == (before.contains(y) && (
                !items@.subrange(0, j + 1).contains(y) || keep@.contains(y))) by {
                assert(items@.subrange(0, j + 1) =~= items@.subrange(0, j as int).push(x));
                if y != x {
                    assert(items@.subrange(0, j + 1).contains(y) == items@.subrange(0, j as int).contains(y));
                } else {
                    assert(items@.subrange(0, j + 1)[j as int] == x);
                }
            }
        }
        j = j + 1;
    }
    assert(items@.subrange(0, items@.len() as int) =~= items@);
}


/// Relies on `IndexSet::iter`: the values in their order.
#[verifier::external_body]
fn set_items(s: &IndexSet<u64>) -> (r: Vec<u64>)
    ensures
        r@ == stack_items(s),
{
    s.iter().copied().collect()
}

/// The focus stack of one seat.
#[derive(Debug)]
pub struct SeatStack {
    pub seat: u64,
    stack: IndexSet<u64>,
}

/// LIFO stacks of focus targets, one per seat.
#[derive(Debug)]
pub struct FocusStacks {
    stacks: Vec<SeatStack>,
}

/// The stack of `seat` in a list of per-seat stacks; empty for a seat that has none.
pub open spec fn stack_in(stacks: Seq<(u64, Seq<u64>)>, seat: u64) -> Seq<u64> {
    if exists|i: int| 0 <= i < stacks.len() && stacks[i].0 == seat {
        stacks[choose|i: int| 0 <= i < stacks.len() && stacks[i].0 == seat].1
    } else {
        Seq::empty()
    }
}

/// `after` is `before` with its one occurrence of `w` taken out, the rest in order; or
/// `before` itself when it does not hold `w`.
pub open spec fn removed_from(before: Seq<u64>, after: Seq<u64>, w: u64) -> bool {
    if before.contains(w) {
        exists|i: int| 0 <= i < before.len() && before[i] == w && after == before.remove(i)
    } else {
        after == before
    }
}

impl FocusStacks {
    /// Each seat with its windows, oldest focus first.
    pub closed spec fn entries(&self) -> Seq<(u64, Seq<u64>)> {
        self.stacks@.map_values(|e: SeatStack| (e.seat, stack_items(&e.stack)))
    }

    /// Seats are listed once each, and no window is listed twice in a stack.
    pub closed spec fn wf(&self) -> bool {
        &&& forall|i: int, j: int|
            0 <= i < j < self.stacks@.len() ==> self.stacks@[i].seat != self.stacks@[j].seat
        &&& forall|i: int|
            0 <= i < self.stacks@.len() ==> stack_items(&(#[trigger] self.stacks@[i]).stack).no_duplicates()
    }

    /// The windows `seat` has focused, oldest first.
    pub open spec fn stack_of(&self, seat: u64) -> Seq<u64> {
        stack_in(self.entries(), seat)
    }

    pub fn new() -> (r: FocusStacks)
        ensures
            r.wf(),
            forall|seat: u64| r.stack_of(seat) == Seq::<u64>::empty(),
    {
        let r = FocusStacks { stacks: Vec::new() };
        assert(r.entries() =~= Seq::<(u64, Seq<u64>)>::empty());
        r
    }

    fn index_of(&self, seat: u64) -> (r: Option<usize>)
        ensures
            r.is_some() ==> r.unwrap() < self.stacks@.len() && self.stacks@[r.unwrap() as int].seat
                == seat,
            r.is_none() ==> forall|i: int|
                0 <= i < self.stacks@.len() ==> self.stacks@[i].seat != seat,
    {
        let mut i: usize = 0;
        while i < self.stacks.len()
            invariant
                i <= self.stacks@.len(),
                forall|j: int| 0 <= j < i ==> self.stacks@[j].seat != seat,
            decreases self.stacks@.len() - i,
        {
            if self.stacks[i].seat == seat {
                return Some(i);
            }
            i = i + 1;
        }
        None
    }

    proof fn stack_at(&self, i: int)
        requires
            self.wf(),
            0 <= i < self.stacks@.len(),
        ensures
            self.stack_of(self.stacks@[i].seat) == stack_items(&self.stacks@[i].stack),
    {
        let e = self.entries();
        let seat = self.stacks@[i].seat;
        assert(e[i].0 == seat);
        let c = choose|k: int| 0 <= k < e.len() && e[k].0 == seat;
        assert(e[c].0 == seat);
        assert(c == i);
    }

    /// No window is listed twice in the stack of a seat.
    pub proof fn lemma_stack_unique(&self, seat: u64)
        requires
            self.wf(),
        ensures
            self.stack_of(seat).no_duplicates(),
    {
        let e = self.entries();
        if exists|i: int| 0 <= i < e.len() && e[i].0 == seat {
            let k = choose|i: int| 0 <= i < e.len() && e[i].0 == seat;
            assert(e[k].0 == self.stacks@[k].seat);
            self.stack_at(k);
        }
    }

    proof fn stack_absent(&self, seat: u64)
        requires
            forall|i: int| 0 <= i < self.stacks@.len() ==> self.stacks@[i].seat != seat,
        ensures
            self.stack_of(seat) == Seq::<u64>::empty(),
    {
        let e = self.entries();
        assert(!exists|i: int| 0 <= i < e.len() && e[i].0 == seat) by {
            assert forall|i: int| 0 <= i < e.len() implies e[i].0 != seat by {
                assert(e[i].0 == self.stacks@[i].seat);
            }
        }
    }

    /// The windows `seat` has focused, oldest first.
    pub fn get(&self, seat: u64) -> (r: Vec<u64>)
        requires
            self.wf(),
        ensures
            r@ == self.stack_of(seat),
    {
        match self.index_of(seat) {
            Some(i) => {
                proof {
                    self.stack_at(i as int);
                }
                set_items(&self.stacks[i].stack)
            },
            None => {
                proof {
                    self.stack_absent(seat);
                }
                Vec::new()
            },
        }
    }

    /// The window `seat` focused last.
    pub fn focused(&self, seat: u64) -> (r: Option<u64>)
        requires
            self.wf(),
        ensures
            self.stack_of(seat).len() == 0 ==> r.is_none(),
            self.stack_of(seat).len() > 0 ==> r == Some(self.stack_of(seat).last()),
    {
        let items = self.get(seat);
        if items.len() == 0 {
            None
        } else {
            Some(items[items.len() - 1])
        }
    }

    proof fn entries_after_update(&self, old_self: &FocusStacks, i: int)
        requires
            old_self.wf(),
            0 <= i < old_self.stacks@.len(),
            self.stacks@.len() == old_self.stacks@.len(),
            forall|j: int| 0 <= j < self.stacks@.len() && j != i ==> self.stacks@[j] == old_self.stacks@[j],
            self.stacks@[i].seat == old_self.stacks@[i].seat,
            stack_items(&self.stacks@[i].stack).no_duplicates(),
        ensures
            self.wf(),
            forall|seat: u64| seat != old_self.stacks@[i].seat ==> self.stack_of(seat) == old_self.stack_of(seat),
            self.stack_of(old_self.stacks@[i].seat) == stack_items(&self.stacks@[i].stack),
    {
        assert forall|seat: u64| seat != old_self.stacks@[i].seat implies self.stack_of(seat) == old_self.stack_of(seat) by {
            let e = self.entries();
            let oe = old_self.entries();
            if exists|k: int| 0 <= k < oe.len() && oe[k].0 == seat {
                let k = choose|k: int| 0 <= k < oe.len() && oe[k].0 == seat;
                assert(self.stacks@[k] == old_self.stacks@[k]);
                old_self.stack_at(k);
                self.stack_at(k);
            } else {
                assert forall|k: int| 0 <= k < self.stacks@.len() implies self.stacks@[k].seat != seat by {
                    assert(oe[k].0 == old_self.stacks@[k].seat);
                }
                assert forall|k: int| 0 <= k < old_self.stacks@.len() implies old_self.stacks@[k].seat != seat by {
                    assert(oe[k].0 == old_self.stacks@[k].seat);
                }
                self.stack_absent(seat);
                old_self.stack_absent(seat);
            }
        }
        self.stack_at(i);
    }

    /// Puts `w` on top of the stack of `seat`, taking it out from lower down if it was there.
    pub fn append(&mut self, seat: u64, w: u64)
        requires
            old(self).wf(),
        ensures
            final(self).wf(),
            exists|rest: Seq<u64>|
                removed_from(old(self).stack_of(seat), rest, w) && final(self).stack_of(seat)
                    == rest.push(w),
            forall|other: u64| other != seat ==> final(self).stack_of(other) == old(self).stack_of(other),
    {
        let i = match self.index_of(seat) {
            Some(i) => i,
            None => {
                proof {
                    self.stack_absent(seat);
                }
                self.stacks.push(SeatStack { seat, stack: set_new() });
                proof {
                    assert forall|s: u64| s != seat implies self.stack_of(s) == old(self).stack_of(s) by {
                        let oe = old(self).entries();
                        let e = self.entries();
                        if exists|k: int| 0 <= k < oe.len() && oe[k].0 == s {
                            let k = choose|k: int| 0 <= k < oe.len() && oe[k].0 == s;
                            assert(oe[k].0 == old(self).stacks@[k].seat);
                            old(self).stack_at(k);
                            self.stack_at(k);
                        } else {
                            assert forall|k: int| 0 <= k < self.stacks@.len() implies self.stacks@[k].seat != s by {
                                if k < oe.len() {
                                    assert(oe[k].0 == old(self).stacks@[k].seat);
                                }
                            }
                            self.stack_absent(s);
                        }
                    }
                    self.stack_at(self.stacks@.len() - 1);
                }
                self.stacks.len() - 1
            },
        };
        let ghost mid = *self;
        proof {
            mid.stack_at(i as int);
        }
        let mut e = self.stacks.remove(i);
        let ghost before = stack_items(&e.stack);
        set_shift_remove(&mut e.stack, w);
        let ghost rest = stack_items(&e.stack);
        assert(removed_from(before, rest, w));
        proof {
            if before.contains(w) {
                let k = choose|k: int| 0 <= k < before.len() && before[k] == w && rest == before.remove(k);
                assert(rest.no_duplicates()) by {
                    assert forall|a: int, b: int| 0 <= a < b < rest.len() implies rest[a] != rest[b] by {
                        let a2 = if a < k { a } else { a + 1 };
                        let b2 = if b < k { b } else { b + 1 };
                        assert(rest[a] == before[a2]);
                        assert(rest[b] == before[b2]);
                    }
                }
                assert(!rest.contains(w)) by {
                    assert forall|a: int| 0 <= a < rest.len() implies rest[a] != w by {
                        let a2 = if a < k { a } else { a + 1 };
                        assert(rest[a] == before[a2]);
                    }
                }
            } else {
                assert(!rest.contains(w));
            }
        }
        set_insert(&mut e.stack, w);
        self.stacks.insert(i, e);
        proof {
            self.entries_after_update(&mid, i as int);
        }
    }

    /// Takes `w` out of the stack of every seat.
    pub fn remove_window(&mut self, w: u64)
        requires
            old(self).wf(),
        ensures
            final(self).wf(),
            forall|seat: u64| removed_from(old(self).stack_of(seat), #[trigger] final(self).stack_of(seat), w),
            forall|seat: u64| !(#[trigger] final(self).stack_of(seat)).contains(w),
    {
        let mut i: usize = 0;
        while i < self.stacks.len()
            invariant
                self.wf(),
                i <= self.stacks@.len(),
                self.stacks@.len() == old(self).stacks@.len(),
                forall|j: int| 0 <= j < self.stacks@.len() ==> self.stacks@[j].seat == old(self).stacks@[j].seat,
                forall|j: int| i <= j < self.stacks@.len() ==> self.stacks@[j] == old(self).stacks@[j],
                forall|j: int| 0 <= j < i ==> removed_from(stack_items(&old(self).stacks@[j].stack), stack_items(&#[trigger] self.stacks@[j].stack), w),
            decreases self.stacks@.len() - i,
        {
            let ghost mid = *self;
            let mut e = self.stacks.remove(i);
            let ghost before = stack_items(&e.stack);
            set_shift_remove(&mut e.stack, w);
            proof {
                let rest = stack_items(&e.stack);
                if before.contains(w) {
                    let k = choose|k: int| 0 <= k < before.len() && before[k] == w && rest == before.remove(k);
                    assert forall|a: int, b: int| 0 <= a < b < rest.len() implies rest[a] != rest[b] by {
                        let a2 = if a < k { a } else { a + 1 };
                        let b2 = if b < k { b } else { b + 1 };
                        assert(rest[a] == before[a2]);
                        assert(rest[b] == before[b2]);
                    }
                }
            }
            self.stacks.insert(i, e);
            proof {
                self.entries_after_update(&mid, i as int);
            }
            i = i + 1;
        }
        proof {
            assert forall|seat: u64| removed_from(old(self).stack_of(seat), #[trigger] self.stack_of(seat), w) by {
                let oe = old(self).entries();
                if exists|k: int| 0 <= k < oe.len() && oe[k].0 == seat {
                    let k = choose|k: int| 0 <= k < oe.len() && oe[k].0 == seat;
                    assert(oe[k].0 == old(self).stacks@[k].seat);
                    old(self).stack_at(k);
                    self.stack_at(k);
                } else {
                    assert forall|k: int| 0 <= k < old(self).stacks@.len() implies old(self).stacks@[k].seat != seat by {
                        assert(oe[k].0 == old(self).stacks@[k].seat);
                    }
                    old(self).stack_absent(seat);
                    self.stack_absent(seat);
                }
            }
            assert forall|seat: u64| !(#[trigger] self.stack_of(seat)).contains(w) by {
                old(self).lemma_stack_unique(seat);
                lemma_removed_gone(old(self).stack_of(seat), self.stack_of(seat), w);
            }
        }
    }

    /// Drops from every stack the windows that `keep` does not hold.
    pub fn retain(&mut self, keep: &Vec<u64>)
        requires
            old(self).wf(),
        ensures
            final(self).wf(),
            forall|seat: u64, y: u64| #[trigger] final(self).stack_of(seat).contains(y) == (old(self).stack_of(
                seat,
            ).contains(y) && keep@.contains(y)),
    {
        let mut i: usize = 0;
        while i < self.stacks.len()
            invariant
                self.wf(),
                i <= self.stacks@.len(),
                self.stacks@.len() == old(self).stacks@.len(),
                forall|j: int| 0 <= j < self.stacks@.len() ==> self.stacks@[j].seat == old(self).stacks@[j].seat,
                forall|j: int| i <= j < self.stacks@.len() ==> self.stacks@[j] == old(self).stacks@[j],
                forall|j: int, y: u64| 0 <= j < i ==> #[trigger] stack_items(&self.stacks@[j].stack).contains(y) == (
                    stack_items(&old(self).stacks@[j].stack).contains(y) && keep@.contains(y)),
            decreases self.stacks@.len() - i,
        {
            let ghost mid = *self;
            let mut e = self.stacks.remove(i);
            set_retain(&mut e.stack, keep);
            self.stacks.insert(i, e);
            proof {
                self.entries_after_update(&mid, i as int);
            }
            i = i + 1;
        }
        proof {
            assert forall|seat: u64, y: u64| #[trigger] self.stack_of(seat).contains(y) == (old(self).stack_of(
                seat,
            ).contains(y) && keep@.contains(y)) by {
                let oe = old(self).entries();
                if exists|k: int| 0 <= k < oe.len() && oe[k].0 == seat {
                    let k = choose|k: int| 0 <= k < oe.len() && oe[k].0 == seat;
                    assert(oe[k].0 == old(self).stacks@[k].seat);
                    old(self).stack_at(k);
                    self.stack_at(k);
                } else {
                    assert forall|k: int| 0 <= k < old(self).stacks@.len() implies old(self).stacks@[k].seat != seat by {
                        assert(oe[k].0 == old(self).stacks@[k].seat);
                    }
                    old(self).stack_absent(seat);
                    self.stack_absent(seat);
                }
            }
        }
    }
}

} // verus!
