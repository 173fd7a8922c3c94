use vstd::prelude::*;
use crate::event::{MAX_CC, VALUE_ONE};

verus! {

/// The values of the host-automated parameters in effect at one event.
///
/// `cc` is the CC number a policy acts on (for redirect: the source number);
/// `cc_to` is the destination number of redirect; the four bounds are the
/// input and output ranges of range mapping, in the fixed point of
/// `VALUE_ONE`.
#[derive(Clone, Copy, Debug, PartialEq, Eq, Structural)]
pub struct ParamSnapshot {
    pub cc: u8,
    pub cc_to: u8,
    pub in_low: i64,
    pub in_high: i64,
    pub out_low: i64,
    pub out_high: i64,
}

impl ParamSnapshot {
    /// Each CC selector lies in `[0, 127]` and each range bound in `[0, 1]`.
    pub open spec fn well_formed(self) -> bool {
        self.cc <= MAX_CC && self.cc_to <= MAX_CC
            && 0 <= self.in_low <= VALUE_ONE && 0 <= self.in_high <= VALUE_ONE
            && 0 <= self.out_low <= VALUE_ONE && 0 <= self.out_high <= VALUE_ONE
    }

    /// Builds a snapshot from raw host values, clamping each to its range.
    pub fn clamped(cc: i32, cc_to: i32, in_low: i64, in_high: i64, out_low: i64, out_high: i64)
        -> (r: ParamSnapshot)
        ensures
            r.well_formed(),
            r.cc as int == clamp_int(cc as int, MAX_CC as int),
            r.cc_to as int == clamp_int(cc_to as int, MAX_CC as int),
            r.in_low as int == clamp_int(in_low as int, VALUE_ONE as int),
            r.in_high as int == clamp_int(in_high as int, VALUE_ONE as int),
            r.out_low as int == clamp_int(out_low as int, VALUE_ONE as int),
            r.out_high as int == clamp_int(out_high as int, VALUE_ONE as int),
    {
        ParamSnapshot {
            cc: clamp_cc(cc),
            cc_to: clamp_cc(cc_to),
            in_low: crate::event::clamp_value(in_low),
            in_high: crate::event::clamp_value(in_high),
            out_low: crate::event::clamp_value(out_low),
            out_high: crate::event::clamp_value(out_high),
        }
    }
}

impl Default for ParamSnapshot {
    /// Every selector and bound at zero, the host's initial values.
    fn default() -> (r: ParamSnapshot)
        ensures
            r == (ParamSnapshot { cc: 0, cc_to: 0, in_low: 0, in_high: 0, out_low: 0, out_high: 0 }),
            r.well_formed(),
    {
        ParamSnapshot { cc: 0, cc_to: 0, in_low: 0, in_high: 0, out_low: 0, out_high: 0 }
    }
}

/// `x` clamped to `[0, hi]`.
pub open spec fn clamp_int(x: int, hi: int) -> int {
    if x < 0 {
        0
    } else if x > hi {
        hi
    } else {
        x
    }
}

/// Clamps a raw integer CC selector to `[0, 127]`.
pub fn clamp_cc(x: i32) -> (r: u8)
    ensures
        r as int == clamp_int(x as int, MAX_CC as int),
{
    if x < 0 {
        0
    } else if x > MAX_CC as i32 {
        MAX_CC
    } else {
        x as u8
    }
}

/// A parameter change from host automation: from sample offset `timing` of
/// the block on, the parameters are `params`.
#[derive(Clone, Copy, Debug, PartialEq, Eq, Structural)]
pub struct ParamChange {
    pub timing: u32,
    pub params: ParamSnapshot,
}

/// The parameters in effect at sample offset `t`: those of the last change
/// in `changes` whose timing is at most `t`, or `initial` if there is none.
pub open spec fn params_at(initial: ParamSnapshot, changes: Seq<ParamChange>, t: u32) -> ParamSnapshot
    decreases changes.len(),
{
    if changes.len() == 0 {
        initial
    } else if changes.last().timing <= t {
        changes.last().params
    } else {
        params_at(initial, changes.drop_last(), t)
    }
}

/// All parameter sets of the automation are well formed.
pub open spec fn automation_well_formed(initial: ParamSnapshot, changes: Seq<ParamChange>) -> bool {
    initial.well_formed() && forall|i: int| 0 <= i < changes.len() ==> (#[trigger] changes[i]).params.well_formed()
}

/// Well-formed automation yields well-formed parameters at every offset.
pub proof fn lemma_params_at_well_formed(initial: ParamSnapshot, changes: Seq<ParamChange>, t: u32)
    requires
        automation_well_formed(initial, changes),
    ensures
        params_at(initial, changes, t).well_formed(),
    decreases changes.len(),
{
    if changes.len() > 0 && changes.last().timing > t {
        let front = changes.drop_last();
        assert forall|i: int| 0 <= i < front.len() implies (#[trigger] front[i]).params.well_formed() by {
            assert(front[i] == changes[i]);
        }
        lemma_params_at_well_formed(initial, front, t);
    }
}

/// Looks up the parameters in effect at sample offset `t`.
pub fn param_value_at(initial: &ParamSnapshot, changes: &Vec<ParamChange>, t: u32) -> (r: ParamSnapshot)
    ensures
        r == params_at(*initial, changes@, t),
{
    let mut j: usize = changes.len();
    proof {
        assert(changes@.take(j as int) =~= changes@);
    }
    while j > 0
        invariant
            j <= changes.len(),
            params_at(*initial, changes@, t) == params_at(*initial, changes@.take(j as int), t),
        decreases j,
    {
        proof {
            assert(changes@.take(j as int).drop_last() =~= changes@.take(j - 1));
        }
        if changes[j - 1].timing <= t {
            return changes[j - 1].params;
        }
        j = j - 1;
    }
    *initial
}

} // verus!
