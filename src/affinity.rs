//! Output affinity: the outputs a workspace has appeared on, and which one it prefers.
use vstd::prelude::*;

use crate::geometry::Rect;

verus! {

/// Describes a monitor as seen by the compositor.
#[derive(Clone, Debug)]
pub struct Output {
    /// Connector name, such as `DP-1`.
    pub name: String,
    /// Hardware identifier read from the monitor, if it has one.
    pub edid: Option<u64>,
    /// Position and size of the output in the global space.
    pub geometry: Rect,
}

/// A remembered output: its name and optional hardware identifier.
#[derive(Clone, Debug)]
pub struct OutputMatch {
    pub name: String,
    pub edid: Option<u64>,
}

/// The mathematical content of an output descriptor.
pub struct MatchModel {
    pub name: Seq<char>,
    pub edid: Option<u64>,
}

impl View for OutputMatch {
    type V = MatchModel;

    open spec fn view(&self) -> MatchModel {
        MatchModel { name: self.name@, edid: self.edid }
    }
}

impl OutputMatch {
    pub fn duplicate(&self) -> (r: OutputMatch)
        ensures
            r@ == self@,
    {
        OutputMatch { name: self.name.clone(), edid: self.edid }
    }
}

impl Output {
    pub fn duplicate(&self) -> (r: Output)
        ensures
            r == *self,
    {
        Output { name: self.name.clone(), edid: self.edid, geometry: self.geometry }
    }

    pub open spec fn as_match(&self) -> MatchModel {
        MatchModel { name: self.name@, edid: self.edid }
    }

    /// A usable output has a positive size.
    pub open spec fn wf(&self) -> bool {
        self.geometry.size.is_positive()
    }
}

pub fn output_match_for_output(output: &Output) -> (r: OutputMatch)
    ensures
        r@ == output.as_match(),
{
    OutputMatch { name: output.name.clone(), edid: output.edid }
}

/// A descriptor matches an output when the hardware identifiers agree and, where the match
/// must disambiguate or there is no identifier, the names agree too.
pub open spec fn matches_spec(m: MatchModel, o: MatchModel, disambiguate: bool) -> bool {
    if m.edid != o.edid {
        false
    } else if disambiguate || m.edid.is_none() {
        m.name == o.name
    } else {
        true
    }
}

pub fn output_matches(output_match: &OutputMatch, output: &Output, disambiguate: bool) -> (r:
    bool)
    ensures
        r == matches_spec(output_match@, output.as_match(), disambiguate),
{
    if output_match.edid != output.edid {
        false
    } else if disambiguate || output_match.edid.is_none() {
        output_match.name == output.name
    } else {
        true
    }
}

pub open spec fn stack_view(stack: Seq<OutputMatch>) -> Seq<MatchModel> {
    stack.map_values(|m: OutputMatch| m@)
}

/// Index of the first entry of `stack` matching `o`, if any.
#[verifier::opaque]
pub open spec fn first_match(stack: Seq<MatchModel>, o: MatchModel, disambiguate: bool) -> Option<
    int,
> {
    if exists|i: int| 0 <= i < stack.len() && matches_spec(stack[i], o, disambiguate) {
        Some(
            choose|i: int|
                0 <= i < stack.len() && matches_spec(stack[i], o, disambiguate) && forall|j: int|
                    0 <= j < i ==> !matches_spec(#[trigger] stack[j], o, disambiguate),
        )
    } else {
        None
    }
}

/// The history after the workspace moves to `o`: cleared first on an explicit move; then cut
/// back to an exact match, or cut back to a match by identifier and extended by `o`, or
/// extended by `o`.
pub open spec fn updated_history(stack: Seq<MatchModel>, o: MatchModel, explicit: bool) -> Seq<
    MatchModel,
> {
    let s = if explicit {
        Seq::<MatchModel>::empty()
    } else {
        stack
    };
    match first_match(s, o, true) {
        Some(i) => s.subrange(0, i + 1),
        None => match first_match(s, o, false) {
            Some(i) => s.subrange(0, i + 1).push(o),
            None => s.push(o),
        },
    }
}

/// Whether an output is preferred: disambiguation by name is forced when the current output
/// carries the same hardware identifier as the candidate.
pub open spec fn prefers_spec(stack: Seq<MatchModel>, current: MatchModel, o: MatchModel) -> bool {
    let disambiguate = o.edid.is_some() && current.edid == o.edid;
    exists|i: int| 0 <= i < stack.len() && matches_spec(stack[i], o, disambiguate)
}

proof fn first_match_found(stack: Seq<MatchModel>, o: MatchModel, disambiguate: bool, k: int)
    requires
        0 <= k < stack.len(),
        matches_spec(stack[k], o, disambiguate),
        forall|j: int| 0 <= j < k ==> !matches_spec(#[trigger] stack[j], o, disambiguate),
    ensures
        first_match(stack, o, disambiguate) == Some(k),
{
    reveal(first_match);
    let c = choose|i: int|
        0 <= i < stack.len() && matches_spec(stack[i], o, disambiguate) && forall|j: int|
            0 <= j < i ==> !matches_spec(#[trigger] stack[j], o, disambiguate);
    assert(0 <= c < stack.len() && matches_spec(stack[c], o, disambiguate) && forall|j: int|
        0 <= j < c ==> !matches_spec(#[trigger] stack[j], o, disambiguate));
    if c < k {
    } else if c > k {
        assert(!matches_spec(stack[k], o, disambiguate));
    }
}

/// Finds the first entry that matches `output`.
fn position_of(stack: &Vec<OutputMatch>, output: &Output, disambiguate: bool) -> (r: Option<usize>)
    ensures
        r.is_some() ==> r.unwrap() < stack.len(),
        r.is_some() == first_match(stack_view(stack@), output.as_match(), disambiguate).is_some(),
        r.is_some() ==> r.unwrap() as int == first_match(
            stack_view(stack@),
            output.as_match(),
            disambiguate,
        ).unwrap(),
{
    let ghost sv = stack_view(stack@);
    let mut i: usize = 0;
    while i < stack.len()
        invariant
            0 <= i <= stack.len(),
            sv == stack_view(stack@),
            forall|j: int| 0 <= j < i ==> !matches_spec(#[trigger] sv[j], output.as_match(), disambiguate),
        decreases stack.len() - i,
    {
        if output_matches(&stack[i], output, disambiguate) {
            proof {
                first_match_found(sv, output.as_match(), disambiguate, i as int);
            }
            return Some(i);
        }
        i = i + 1;
    }
    proof {
        reveal(first_match);
        assert(!exists|k: int| 0 <= k < sv.len() && matches_spec(sv[k], output.as_match(), disambiguate));
    }
    None
}

fn extend_history(stack: &mut Vec<OutputMatch>, output: &Output)
    ensures
        stack_view(final(stack)@) == updated_history(stack_view(old(stack)@), output.as_match(), false),
{
    let ghost s = stack_view(stack@);
    let ghost o = output.as_match();
    let m = output_match_for_output(output);
    if let Some(pos) = position_of(stack, output, true) {
        stack.truncate(pos + 1);
        assert(stack_view(stack@) =~= s.subrange(0, pos + 1));
    } else if let Some(pos) = position_of(stack, output, false) {
        stack.truncate(pos + 1);
        assert(stack_view(stack@) =~= s.subrange(0, pos + 1));
        stack.push(m);
        assert(stack_view(stack@) =~= s.subrange(0, pos + 1).push(o));
    } else {
        stack.push(m);
        assert(stack_view(stack@) =~= s.push(o));
    }
}

/// Records a move of the workspace to `output` in its history.
pub fn update_history(stack: &mut Vec<OutputMatch>, output: &Output, explicit: bool)
    ensures
        stack_view(final(stack)@) == updated_history(stack_view(old(stack)@), output.as_match(), explicit),
{
    if explicit {
        stack.clear();
        assert(stack_view(stack@) =~= Seq::<MatchModel>::empty());
    }
    extend_history(stack, output);
}

/// Whether the history prefers `output`, the workspace being on `current` now.
pub fn history_prefers(stack: &Vec<OutputMatch>, current: &Output, output: &Output) -> (r: bool)
    ensures
        r == prefers_spec(stack_view(stack@), current.as_match(), output.as_match()),
{
    let disambiguate = match output.edid {
        Some(e) => current.edid == Some(e),
        None => false,
    };
    let r = position_of(stack, output, disambiguate).is_some();
    proof {
        reveal(first_match);
    }
    r
}

} // verus!

verus! {

/// A workspace that starts on `a` and is moved, not explicitly, to an output `b` that shares
/// `a`'s hardware identifier, then back to `a`, prefers `a` all along.
pub proof fn same_identifier_move_keeps_preference(a: MatchModel, b: MatchModel)
    requires
        a.edid.is_some(),
        a.edid == b.edid,
    ensures
        prefers_spec(seq![a], a, a),
        prefers_spec(updated_history(seq![a], b, false), b, a),
        prefers_spec(updated_history(updated_history(seq![a], b, false), a, false), a, a),
{
    let s0 = seq![a];
    assert(matches_spec(s0[0], a, true));
    let s1 = updated_history(s0, b, false);
    if a.name == b.name {
        first_match_found(s0, b, true, 0);
        assert(s1 =~= s0);
    } else {
        assert(!exists|i: int| 0 <= i < s0.len() && matches_spec(s0[i], b, true));
        assert(first_match(s0, b, true) == None::<int>) by {
            reveal(first_match);
        }
        first_match_found(s0, b, false, 0);
        assert(s1 =~= seq![a, b]);
    }
    assert(matches_spec(s1[0], a, true));
    first_match_found(s1, a, true, 0);
    let s2 = updated_history(s1, a, false);
    assert(s2 =~= s0);
}

} // verus!

verus! {

/// A history that a move has updated always holds at least one output.
pub proof fn updated_history_nonempty(stack: Seq<MatchModel>, o: MatchModel, explicit: bool)
    ensures
        updated_history(stack, o, explicit).len() > 0,
{
    let s = if explicit {
        Seq::<MatchModel>::empty()
    } else {
        stack
    };
    first_match_in_range(s, o, true);
    first_match_in_range(s, o, false);
}

proof fn first_match_in_range(stack: Seq<MatchModel>, o: MatchModel, disambiguate: bool)
    ensures
        first_match(stack, o, disambiguate) matches Some(i) ==> 0 <= i < stack.len(),
{
    reveal(first_match);
    if exists|i: int| 0 <= i < stack.len() && matches_spec(stack[i], o, disambiguate) {
        let k = choose|i: int| 0 <= i < stack.len() && matches_spec(stack[i], o, disambiguate);
        earliest_match_exists(stack, o, disambiguate, k);
    }
}

proof fn earliest_match_exists(stack: Seq<MatchModel>, o: MatchModel, disambiguate: bool, k: int)
    requires
        0 <= k < stack.len(),
        matches_spec(stack[k], o, disambiguate),
    ensures
        exists|i: int|
            0 <= i < stack.len() && matches_spec(stack[i], o, disambiguate) && forall|j: int|
                0 <= j < i ==> !matches_spec(#[trigger] stack[j], o, disambiguate),
    decreases k,
{
    if exists|j: int| 0 <= j < k && matches_spec(stack[j], o, disambiguate) {
        let j = choose|j: int| 0 <= j < k && matches_spec(stack[j], o, disambiguate);
        earliest_match_exists(stack, o, disambiguate, j);
    } else {
        assert(forall|j: int| 0 <= j < k ==> !matches_spec(#[trigger] stack[j], o, disambiguate));
    }
}

} // verus!
