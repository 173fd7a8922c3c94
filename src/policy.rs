use vstd::prelude::*;
use vstd::arithmetic::div_mod::{lemma_div_basics_4, lemma_div_basics_5, lemma_div_by_multiple};
use crate::event::{CcEvent, VALUE_ONE, sanitize, sanitize_spec};
use crate::params::ParamSnapshot;

verus! {

/// The five transformations a plugin instance can apply to CC events. The
/// variant is chosen when the instance is built and never changes.
#[derive(Clone, Copy, Debug, PartialEq, Eq, Structural)]
pub enum PolicyKind {
    /// `value' = 1 - value` on the selected CC.
    Invert,
    /// Each rising edge on the selected CC toggles between `1` and `0`;
    /// releases are consumed.
    Latch,
    /// Affine map of the selected CC's value from the input range to the
    /// output range, not clamped.
    MapRange,
    /// Renumbers the selected CC to the destination number.
    Redirect,
    /// Drops the selected CC.
    Suppress,
}

/// Mutable state private to one policy instance: the latch's toggle bit.
#[derive(Clone, Copy, Debug, PartialEq, Eq, Structural)]
pub struct PolicyState {
    pub toggle: bool,
}

/// Integer division rounding toward zero, as machine division does.
pub open spec fn trunc_div(n: int, d: int) -> int {
    if n >= 0 && d > 0 {
        n / d
    } else if n < 0 && d > 0 {
        -((-n) / d)
    } else if n >= 0 && d < 0 {
        -(n / (-d))
    } else if d < 0 {
        (-n) / (-d)
    } else {
        0
    }
}

/// `to_low + (x - from_low) * (to_high - to_low) / (from_high - from_low)`,
/// the division rounding toward zero.
pub open spec fn map_range_spec(x: int, from_low: int, from_high: int, to_low: int, to_high: int) -> int {
    to_low + trunc_div((x - from_low) * (to_high - to_low), from_high - from_low)
}

/// Relies on `map_range::MapRange::map_range` for `i64`, which returns
/// `to.start + (self - from.start) * (to.end - to.start) / (from.end - from.start)`
/// in `i64` arithmetic. It panics (or wraps) on a zero-width source range and
/// on overflow of any step, which `requires` excludes.
#[verifier::external_body]
fn map_range_i64(x: i64, from_low: i64, from_high: i64, to_low: i64, to_high: i64) -> (r: i64)
    requires
        from_high != from_low,
        i64::MIN <= x - from_low <= i64::MAX,
        i64::MIN <= to_high - to_low <= i64::MAX,
        i64::MIN <= from_high - from_low <= i64::MAX,
        i64::MIN <= (x - from_low) * (to_high - to_low) <= i64::MAX,
        i64::MIN <= trunc_div((x - from_low) * (to_high - to_low), from_high - from_low) <= i64::MAX,
        i64::MIN <= map_range_spec(x as int, from_low as int, from_high as int, to_low as int, to_high as int) <= i64::MAX,
    ensures
        r == map_range_spec(x as int, from_low as int, from_high as int, to_low as int, to_high as int),
{
    map_range::MapRange::map_range(x, from_low..from_high, to_low..to_high)
}

/// The mapped value of range mapping for an input value `v`. A zero-width
/// input range maps every value to the output range's low bound.
pub open spec fn mapped_value(p: ParamSnapshot, v: int) -> int {
    if p.in_high == p.in_low {
        p.out_low as int
    } else {
        map_range_spec(v, p.in_low as int, p.in_high as int, p.out_low as int, p.out_high as int)
    }
}

/// `e` with its value replaced.
pub open spec fn with_value(e: CcEvent, v: i64) -> CcEvent {
    CcEvent { timing: e.timing, channel: e.channel, cc: e.cc, value: v }
}

/// What a policy does with one CC event: the event it emits, if any, and the
/// toggle bit afterwards. An event whose CC number is not the selected one
/// passes unchanged; a selected one is first clamped to its declared bounds.
pub open spec fn apply_spec(kind: PolicyKind, toggle: bool, p: ParamSnapshot, e: CcEvent) -> (Option<CcEvent>, bool) {
    if e.cc != p.cc {
        (Some(e), toggle)
    } else {
        let s = sanitize_spec(e);
        match kind {
            PolicyKind::Invert => (Some(with_value(s, (VALUE_ONE - s.value) as i64)), toggle),
            PolicyKind::Latch => if s.value > 0 {
                (Some(with_value(s, if toggle { 0 } else { VALUE_ONE })), !toggle)
            } else {
                (None, toggle)
            },
            PolicyKind::MapRange => (Some(with_value(s, mapped_value(p, s.value as int) as i64)), toggle),
            PolicyKind::Redirect => (Some(CcEvent { timing: s.timing, channel: s.channel, cc: p.cc_to, value: s.value }), toggle),
            PolicyKind::Suppress => (None, toggle),
        }
    }
}

/// `|trunc_div(n, d)| <= |n|` for a nonzero divisor.
proof fn lemma_trunc_div_bound(n: int, d: int)
    requires
        d != 0,
    ensures
        -(if n < 0 { -n } else { n }) <= trunc_div(n, d) <= (if n < 0 { -n } else { n }),
{
    broadcast use lemma_div_basics_4, lemma_div_basics_5;
}

/// Range mapping of a clamped value under well-formed parameters stays
/// within `[-VALUE_ONE * VALUE_ONE, VALUE_ONE + VALUE_ONE * VALUE_ONE]`.
proof fn lemma_mapped_value_bound(p: ParamSnapshot, v: int)
    requires
        p.well_formed(),
        0 <= v <= VALUE_ONE,
    ensures
        -VALUE_ONE * VALUE_ONE <= (v - p.in_low) * (p.out_high - p.out_low) <= VALUE_ONE * VALUE_ONE,
        -VALUE_ONE * VALUE_ONE <= mapped_value(p, v) <= VALUE_ONE + VALUE_ONE * VALUE_ONE,
{
    let a = v - p.in_low;
    let b = p.out_high - p.out_low;
    assert(-VALUE_ONE * VALUE_ONE <= a * b <= VALUE_ONE * VALUE_ONE) by (nonlinear_arith)
        requires
            -VALUE_ONE <= a <= VALUE_ONE,
            -VALUE_ONE <= b <= VALUE_ONE,
    ;
    if p.in_high != p.in_low {
        lemma_trunc_div_bound(a * b, p.in_high - p.in_low);
    }
}

/// Inverting a well-formed event of the selected CC twice gives the event back.
pub proof fn lemma_invert_round_trip(toggle: bool, p: ParamSnapshot, e: CcEvent)
    requires
        p.well_formed(),
        e.well_formed(),
        e.cc == p.cc,
    ensures
        apply_spec(PolicyKind::Invert, toggle, p, e).0 is Some,
        apply_spec(PolicyKind::Invert, toggle, p, apply_spec(PolicyKind::Invert, toggle, p, e).0->Some_0).0
            == Some(e),
{
}

/// Every policy passes an event whose CC number is not the selected one
/// through unchanged, and leaves its state alone.
pub proof fn lemma_other_cc_passes(kind: PolicyKind, toggle: bool, p: ParamSnapshot, e: CcEvent)
    requires
        e.cc != p.cc,
    ensures
        apply_spec(kind, toggle, p, e) == (Some(e), toggle),
{
}

/// Latch consumes a release of the selected CC, emitting nothing and keeping
/// its toggle; it answers a rising edge with `1` when the toggle is clear and
/// `0` when it is set, and flips the toggle.
pub proof fn lemma_latch_edges(toggle: bool, p: ParamSnapshot, e: CcEvent)
    requires
        e.cc == p.cc,
    ensures
        e.value <= 0 ==> apply_spec(PolicyKind::Latch, toggle, p, e) == (None::<CcEvent>, toggle),
        e.value > 0 ==> apply_spec(PolicyKind::Latch, toggle, p, e)
            == (Some(with_value(sanitize_spec(e), if toggle { 0 } else { VALUE_ONE })), !toggle),
{
}

/// `trunc_div(b * d, d) == b`: an exact multiple divides back exactly.
proof fn lemma_trunc_div_multiple(b: int, d: int)
    requires
        d != 0,
    ensures
        trunc_div(b * d, d) == b,
{
    if d > 0 {
        if b >= 0 {
            lemma_div_by_multiple(b, d);
            assert(b * d >= 0) by (nonlinear_arith) requires b >= 0, d > 0;
        } else {
            lemma_div_by_multiple(-b, d);
            assert(b * d < 0 && -(b * d) == (-b) * d) by (nonlinear_arith) requires b < 0, d > 0;
        }
    } else {
        if b >= 0 {
            lemma_div_by_multiple(b, -d);
            assert(b * d <= 0 && -(b * d) == b * (-d)) by (nonlinear_arith) requires b >= 0, d < 0;
            if b == 0 {
                assert(b * d == 0);
            }
        } else {
            lemma_div_by_multiple(-b, -d);
            assert(b * d > 0 && b * d == (-b) * (-d)) by (nonlinear_arith) requires b < 0, d < 0;
        }
    }
}

/// Range mapping sends the input range's low bound to the output range's low
/// bound and its high bound to the output range's high bound.
pub proof fn lemma_map_range_endpoints(p: ParamSnapshot)
    requires
        p.well_formed(),
        p.in_low != p.in_high,
    ensures
        mapped_value(p, p.in_low as int) == p.out_low,
        mapped_value(p, p.in_high as int) == p.out_high,
{
    let d = p.in_high - p.in_low;
    let b = p.out_high - p.out_low;
    lemma_trunc_div_multiple(0, d);
    lemma_trunc_div_multiple(b, d);
    assert(0 * b == 0 * d);
    assert(d * b == b * d) by (nonlinear_arith);
}

/// With the input and output ranges both `[0, 1]`, range mapping is the
/// identity on `[0, 1]`.
pub proof fn lemma_map_range_identity(p: ParamSnapshot, v: int)
    requires
        p.well_formed(),
        p.in_low == 0,
        p.in_high == VALUE_ONE,
        p.out_low == 0,
        p.out_high == VALUE_ONE,
        0 <= v <= VALUE_ONE,
    ensures
        mapped_value(p, v) == v,
{
    lemma_trunc_div_multiple(v, VALUE_ONE as int);
}

/// Range mapping follows the affine formula outside the input range too: a
/// well-formed event of the selected CC is emitted with value
/// `mapped_value(p, value)`, not clamped to the output range.
pub proof fn lemma_map_range_emits(toggle: bool, p: ParamSnapshot, e: CcEvent)
    requires
        p.well_formed(),
        e.well_formed(),
        e.cc == p.cc,
    ensures
        apply_spec(PolicyKind::MapRange, toggle, p, e).0 == Some(with_value(e, mapped_value(p, e.value as int) as i64)),
        -VALUE_ONE * VALUE_ONE <= mapped_value(p, e.value as int) <= VALUE_ONE + VALUE_ONE * VALUE_ONE,
{
    lemma_mapped_value_bound(p, e.value as int);
}

/// Applies the policy `kind` to one CC event under the parameters `p`,
/// updating the policy state; returns the event to emit, if any.
pub fn apply(kind: PolicyKind, state: &mut PolicyState, p: &ParamSnapshot, e: CcEvent) -> (r: Option<CcEvent>)
    requires
        p.well_formed(),
    ensures
        (r, final(state).toggle) == apply_spec(kind, old(state).toggle, *p, e),
{
    if e.cc != p.cc {
        return Some(e);
    }
    let s = sanitize(e);
    match kind {
        PolicyKind::Invert => Some(CcEvent { value: VALUE_ONE - s.value, ..s }),
        PolicyKind::Latch => {
            if s.value > 0 {
                let v: i64 = if state.toggle { 0 } else { VALUE_ONE };
                state.toggle = !state.toggle;
                Some(CcEvent { value: v, ..s })
            } else {
                None
            }
        },
        PolicyKind::MapRange => {
            let v: i64 = if p.in_high == p.in_low {
                p.out_low
            } else {
                proof {
                    lemma_mapped_value_bound(*p, s.value as int);
                    lemma_trunc_div_bound(
                        (s.value - p.in_low) * (p.out_high - p.out_low),
                        p.in_high - p.in_low,
                    );
                }
                map_range_i64(s.value, p.in_low, p.in_high, p.out_low, p.out_high)
            };
            proof {
                lemma_mapped_value_bound(*p, s.value as int);
            }
            Some(CcEvent { value: v, ..s })
        },
        PolicyKind::Redirect => Some(CcEvent { cc: p.cc_to, ..s }),
        PolicyKind::Suppress => None,
    }
}

} // verus!
