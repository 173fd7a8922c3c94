use vstd::prelude::*;
use crate::event::{CcEvent, Event};
use crate::params::{ParamChange, ParamSnapshot, automation_well_formed, lemma_params_at_well_formed, param_value_at, params_at};
use crate::policy::{PolicyKind, PolicyState, apply, apply_spec};

verus! {

/// What the dispatch loop emits for one event of the block, and the toggle
/// bit afterwards: a CC event is replaced by what the policy emits for it,
/// any other event passes unchanged.
pub open spec fn event_step(kind: PolicyKind, toggle: bool, p: ParamSnapshot, ev: Event) -> (Seq<Event>, bool) {
    match ev {
        Event::Cc(e) => {
            let (o, t) = apply_spec(kind, toggle, p, e);
            match o {
                Some(x) => (seq![Event::Cc(x)], t),
                None => (Seq::empty(), t),
            }
        },
        Event::Other { .. } => (seq![ev], toggle),
    }
}

/// The output of one block and the toggle bit afterwards: the outputs of the
/// events, in input order, each event seeing the parameters in effect at it
/// (`params[i]` for `events[i]`) and the toggle left by those before it.
pub open spec fn run(kind: PolicyKind, toggle: bool, events: Seq<Event>, params: Seq<ParamSnapshot>) -> (Seq<Event>, bool)
    decreases events.len(),
{
    if events.len() == 0 {
        (Seq::empty(), toggle)
    } else {
        let n = events.len() - 1;
        let prev = run(kind, toggle, events.take(n), params.take(n));
        let st = event_step(kind, prev.1, params[n], events[n]);
        (prev.0 + st.0, st.1)
    }
}

/// The parameters each event of the block sees under automation: those in
/// effect at its timing.
pub open spec fn block_params(initial: ParamSnapshot, changes: Seq<ParamChange>, events: Seq<Event>) -> Seq<ParamSnapshot> {
    Seq::new(events.len(), |i: int| params_at(initial, changes, events[i].timing_spec()))
}

/// Timings that never decrease along the sequence.
pub open spec fn timings_sorted(s: Seq<Event>) -> bool {
    forall|i: int, j: int| 0 <= i <= j < s.len() ==> s[i].timing_spec() <= s[j].timing_spec()
}

/// An event that the policy leaves alone under the parameters `p`: any
/// non-CC event, and a CC event whose number is not the selected one.
pub open spec fn untouched(p: ParamSnapshot, ev: Event) -> bool {
    match ev {
        Event::Cc(e) => e.cc != p.cc,
        Event::Other { .. } => true,
    }
}

/// Where the output of `events[i]` begins in the block's output.
pub open spec fn output_position(kind: PolicyKind, toggle: bool, events: Seq<Event>, params: Seq<ParamSnapshot>, i: int) -> int {
    run(kind, toggle, events.take(i), params.take(i)).0.len() as int
}

/// Every event emitted for `ev` carries the timing of `ev`.
proof fn lemma_step_timing(kind: PolicyKind, toggle: bool, p: ParamSnapshot, ev: Event)
    ensures
        event_step(kind, toggle, p, ev).0.len() <= 1,
        forall|k: int| 0 <= k < event_step(kind, toggle, p, ev).0.len()
            ==> (#[trigger] event_step(kind, toggle, p, ev).0[k]).timing_spec() == ev.timing_spec(),
{
}

/// No output event is later than the latest input event.
proof fn lemma_run_timing_bound(kind: PolicyKind, toggle: bool, events: Seq<Event>, params: Seq<ParamSnapshot>, t: u32)
    requires
        forall|i: int| 0 <= i < events.len() ==> (#[trigger] events[i]).timing_spec() <= t,
    ensures
        forall|k: int| 0 <= k < run(kind, toggle, events, params).0.len()
            ==> (#[trigger] run(kind, toggle, events, params).0[k]).timing_spec() <= t,
    decreases events.len(),
{
    if events.len() > 0 {
        let n = events.len() - 1;
        lemma_run_timing_bound(kind, toggle, events.take(n), params.take(n), t);
        let prev = run(kind, toggle, events.take(n), params.take(n));
        lemma_step_timing(kind, prev.1, params[n], events[n]);
    }
}

/// For input with non-decreasing timings, the block's output has
/// non-decreasing timings too.
pub proof fn lemma_run_keeps_timing_order(kind: PolicyKind, toggle: bool, events: Seq<Event>, params: Seq<ParamSnapshot>)
    requires
        timings_sorted(events),
    ensures
        timings_sorted(run(kind, toggle, events, params).0),
    decreases events.len(),
{
    if events.len() > 0 {
        let n = events.len() - 1;
        let front = events.take(n);
        lemma_run_keeps_timing_order(kind, toggle, front, params.take(n));
        lemma_run_timing_bound(kind, toggle, front, params.take(n), events[n].timing_spec());
        let prev = run(kind, toggle, front, params.take(n));
        lemma_step_timing(kind, prev.1, params[n], events[n]);
    }
}

/// The output of a prefix of the block is a prefix of the block's output.
proof fn lemma_run_prefix(kind: PolicyKind, toggle: bool, events: Seq<Event>, params: Seq<ParamSnapshot>, i: int)
    requires
        0 <= i <= events.len(),
        events.len() == params.len(),
    ensures
        run(kind, toggle, events.take(i), params.take(i)).0.len() <= run(kind, toggle, events, params).0.len(),
        run(kind, toggle, events.take(i), params.take(i)).0
            =~= run(kind, toggle, events, params).0.take(run(kind, toggle, events.take(i), params.take(i)).0.len() as int),
    decreases events.len(),
{
    if i == events.len() {
        assert(events.take(i) =~= events);
        assert(params.take(i) =~= params);
    } else {
        let n = events.len() - 1;
        lemma_run_prefix(kind, toggle, events.take(n), params.take(n), i);
        assert(events.take(n).take(i) =~= events.take(i));
        assert(params.take(n).take(i) =~= params.take(i));
    }
}

/// The block's output is the outputs of its events laid end to end: the
/// output of `events[i]` stands at `output_position(.., i)` and is followed
/// by that of `events[i + 1]`.
proof fn lemma_run_step_at(kind: PolicyKind, toggle: bool, events: Seq<Event>, params: Seq<ParamSnapshot>, i: int)
    requires
        0 <= i < events.len(),
        events.len() == params.len(),
    ensures
        ({
            let before = run(kind, toggle, events.take(i), params.take(i));
            run(kind, toggle, events.take(i + 1), params.take(i + 1)).0
                == before.0 + event_step(kind, before.1, params[i], events[i]).0
        }),
{
    let e1 = events.take(i + 1);
    let p1 = params.take(i + 1);
    assert(e1.take(i) =~= events.take(i));
    assert(p1.take(i) =~= params.take(i));
}

/// Untouched events keep their identity and their relative order: each one
/// appears unchanged in the output at its output position, and of two
/// untouched events the earlier input comes out first.
pub proof fn lemma_untouched_order_kept(kind: PolicyKind, toggle: bool, events: Seq<Event>, params: Seq<ParamSnapshot>, i: int, j: int)
    requires
        0 <= i < j < events.len(),
        events.len() == params.len(),
        untouched(params[i], events[i]),
        untouched(params[j], events[j]),
    ensures
        run(kind, toggle, events, params).0[output_position(kind, toggle, events, params, i)] == events[i],
        run(kind, toggle, events, params).0[output_position(kind, toggle, events, params, j)] == events[j],
        output_position(kind, toggle, events, params, i) < output_position(kind, toggle, events, params, j),
{
    lemma_untouched_emitted(kind, toggle, events, params, i);
    lemma_untouched_emitted(kind, toggle, events, params, j);
    lemma_run_prefix(kind, toggle, events.take(j), params.take(j), i + 1);
    assert(events.take(j).take(i + 1) =~= events.take(i + 1));
    assert(params.take(j).take(i + 1) =~= params.take(i + 1));
}

/// An untouched event stands unchanged at its output position.
proof fn lemma_untouched_emitted(kind: PolicyKind, toggle: bool, events: Seq<Event>, params: Seq<ParamSnapshot>, i: int)
    requires
        0 <= i < events.len(),
        events.len() == params.len(),
        untouched(params[i], events[i]),
    ensures
        run(kind, toggle, events.take(i + 1), params.take(i + 1)).0.len()
            == output_position(kind, toggle, events, params, i) + 1,
        run(kind, toggle, events, params).0.len() > output_position(kind, toggle, events, params, i),
        run(kind, toggle, events, params).0[output_position(kind, toggle, events, params, i)] == events[i],
{
    lemma_run_step_at(kind, toggle, events, params, i);
    lemma_run_prefix(kind, toggle, events, params, i + 1);
    let before = run(kind, toggle, events.take(i), params.take(i));
    match events[i] {
        Event::Cc(e) => {
            crate::policy::lemma_other_cc_passes(kind, before.1, params[i], e);
        },
        Event::Other { .. } => {},
    }
    let pos = output_position(kind, toggle, events, params, i);
    let pre = run(kind, toggle, events.take(i + 1), params.take(i + 1)).0;
    assert(pre[pos] == events[i]);
}

/// Holds of every event but a CC event numbered `c`.
pub open spec fn not_cc_number(c: u8) -> spec_fn(Event) -> bool {
    |ev: Event|
        match ev {
            Event::Cc(e) => e.cc != c,
            Event::Other { .. } => true,
        }
}

/// With the suppressed CC number `c` throughout the block, suppression keeps
/// exactly the events that are not CC events numbered `c`, in their original
/// order and unchanged.
pub proof fn lemma_suppress_filters(toggle: bool, events: Seq<Event>, params: Seq<ParamSnapshot>, c: u8)
    requires
        events.len() == params.len(),
        forall|i: int| 0 <= i < params.len() ==> (#[trigger] params[i]).cc == c,
    ensures
        run(PolicyKind::Suppress, toggle, events, params).0 == events.filter(not_cc_number(c)),
    decreases events.len(),
{
    reveal(Seq::filter);
    if events.len() > 0 {
        let n = events.len() - 1;
        lemma_suppress_filters(toggle, events.take(n), params.take(n), c);
        assert(events.drop_last() =~= events.take(n));
        let prev = run(PolicyKind::Suppress, toggle, events.take(n), params.take(n));
        let st = event_step(PolicyKind::Suppress, prev.1, params[n], events[n]);
        if not_cc_number(c)(events[n]) {
            assert(st.0 =~= seq![events[n]]);
            assert(prev.0 + st.0 =~= prev.0.push(events[n]));
        } else {
            assert(prev.0 + st.0 =~= prev.0);
        }
    }
}

/// One plugin instance: its policy, fixed at construction, and its state.
#[derive(Clone, Copy, Debug, PartialEq, Eq, Structural)]
pub struct Engine {
    pub kind: PolicyKind,
    pub state: PolicyState,
}

impl Engine {
    /// A new instance of the given policy, its toggle bit clear.
    pub fn new(kind: PolicyKind) -> (r: Engine)
        ensures
            r.kind == kind,
            !r.state.toggle,
    {
        Engine { kind, state: PolicyState { toggle: false } }
    }

    /// Deactivation by the host: the policy state is reinitialized.
    pub fn deactivate(&mut self)
        ensures
            final(self).kind == old(self).kind,
            !final(self).state.toggle,
    {
        self.state.toggle = false;
    }

    /// Applies the instance's policy to one CC event.
    pub fn apply(&mut self, e: CcEvent, p: &ParamSnapshot) -> (r: Option<CcEvent>)
        requires
            p.well_formed(),
        ensures
            final(self).kind == old(self).kind,
            (r, final(self).state.toggle) == apply_spec(old(self).kind, old(self).state.toggle, *p, e),
    {
        apply(self.kind, &mut self.state, p, e)
    }

    /// Runs one block: each event is handed to the policy with the parameters
    /// in effect at it, `params[i]` for `events[i]`, and what comes out is
    /// collected in input order.
    pub fn process_block(&mut self, events: &Vec<Event>, params: &Vec<ParamSnapshot>) -> (r: Vec<Event>)
        requires
            events.len() == params.len(),
            forall|i: int| 0 <= i < params.len() ==> (#[trigger] params[i]).well_formed(),
        ensures
            final(self).kind == old(self).kind,
            (r@, final(self).state.toggle) == run(old(self).kind, old(self).state.toggle, events@, params@),
    {
        let ghost toggle0 = self.state.toggle;
        let mut out: Vec<Event> = Vec::new();
        let mut i: usize = 0;
        while i < events.len()
            invariant
                i <= events.len(),
                events.len() == params.len(),
                forall|k: int| 0 <= k < params.len() ==> (#[trigger] params[k]).well_formed(),
                self.kind == old(self).kind,
                toggle0 == old(self).state.toggle,
                (out@, self.state.toggle) == run(self.kind, toggle0, events@.take(i as int), params@.take(i as int)),
            decreases events.len() - i,
        {
            let ev = events[i];
            let p = &params[i];
            let ghost t_before = self.state.toggle;
            let ghost out_before = out@;
            match ev {
                Event::Cc(e) => {
                    match self.apply(e, p) {
                        Some(x) => out.push(Event::Cc(x)),
                        None => {},
                    }
                },
                Event::Other { .. } => out.push(ev),
            }
            proof {
                let ii = i as int;
                assert(events@.take(ii + 1).take(ii) =~= events@.take(ii));
                assert(params@.take(ii + 1).take(ii) =~= params@.take(ii));
                let st = event_step(self.kind, t_before, params@[ii], events@[ii]);
                assert(out@ =~= out_before + st.0);
            }
            i = i + 1;
        }
        proof {
            assert(events@.take(events.len() as int) =~= events@);
            assert(params@.take(params.len() as int) =~= params@);
        }
        out
    }
    /// Runs one block under sample-accurate automation: each event sees the
    /// parameters in effect at its own timing, `initial` as changed by the
    /// entries of `changes` up to that timing.
    pub fn process_block_automated(&mut self, events: &Vec<Event>, initial: &ParamSnapshot, changes: &Vec<ParamChange>) -> (r: Vec<Event>)
        requires
            automation_well_formed(*initial, changes@),
        ensures
            final(self).kind == old(self).kind,
            (r@, final(self).state.toggle) == run(
                old(self).kind,
                old(self).state.toggle,
                events@,
                block_params(*initial, changes@, events@),
            ),
    {
        let mut ps: Vec<ParamSnapshot> = Vec::new();
        let mut i: usize = 0;
        while i < events.len()
            invariant
                i <= events.len(),
                automation_well_formed(*initial, changes@),
                ps@ =~= block_params(*initial, changes@, events@).take(i as int),
                forall|k: int| 0 <= k < ps.len() ==> (#[trigger] ps[k]).well_formed(),
            decreases events.len() - i,
        {
            let t = events[i].timing();
            let p = param_value_at(initial, changes, t);
            proof {
                lemma_params_at_well_formed(*initial, changes@, t);
            }
            ps.push(p);
            i = i + 1;
        }
        proof {
            assert(ps@ =~= block_params(*initial, changes@, events@));
        }
        self.process_block(events, &ps)
    }
}

} // verus!
