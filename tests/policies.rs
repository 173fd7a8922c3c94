use midcircuit::engine::Engine;
use midcircuit::event::{CcEvent, Event, VALUE_ONE, clamp_value, sanitize};
use midcircuit::params::{ParamChange, ParamSnapshot, clamp_cc, param_value_at};
use midcircuit::policy::{PolicyKind, PolicyState, apply};

fn cc(timing: u32, channel: u8, number: u8, value: i64) -> CcEvent {
    CcEvent { timing, channel, cc: number, value }
}

fn target(number: u8) -> ParamSnapshot {
    ParamSnapshot { cc: number, ..ParamSnapshot::default() }
}

fn ranges(cc_number: u8, in_low: i64, in_high: i64, out_low: i64, out_high: i64) -> ParamSnapshot {
    ParamSnapshot { cc: cc_number, cc_to: 0, in_low, in_high, out_low, out_high }
}

fn run_block(kind: PolicyKind, events: Vec<Event>, p: ParamSnapshot) -> Vec<Event> {
    let mut engine = Engine::new(kind);
    let params = vec![p; events.len()];
    engine.process_block(&events, &params)
}

#[test]
fn invert_flips_value() {
    let mut st = PolicyState { toggle: false };
    let out = apply(PolicyKind::Invert, &mut st, &target(7), cc(3, 1, 7, 250_000));
    assert_eq!(out, Some(cc(3, 1, 7, 750_000)));
}

#[test]
fn invert_twice_restores() {
    let p = target(7);
    for v in [0, 1, 123_456, 500_000, 999_999, VALUE_ONE] {
        let mut st = PolicyState { toggle: false };
        let e = cc(10, 2, 7, v);
        let once = apply(PolicyKind::Invert, &mut st, &p, e).unwrap();
        let twice = apply(PolicyKind::Invert, &mut st, &p, once).unwrap();
        assert_eq!(twice, e);
    }
}

#[test]
fn other_cc_passes_every_policy() {
    let p = ParamSnapshot { cc: 7, cc_to: 64, in_low: 200_000, in_high: 800_000, out_low: 0, out_high: VALUE_ONE };
    let e = cc(5, 3, 8, 420_000);
    for kind in [PolicyKind::Invert, PolicyKind::Latch, PolicyKind::MapRange, PolicyKind::Redirect, PolicyKind::Suppress] {
        let mut st = PolicyState { toggle: true };
        assert_eq!(apply(kind, &mut st, &p, e), Some(e));
        assert!(st.toggle);
    }
}

#[test]
fn non_cc_events_pass_every_policy() {
    let events = vec![Event::Other { timing: 0, id: 9 }, Event::Other { timing: 4, id: 10 }];
    for kind in [PolicyKind::Invert, PolicyKind::Latch, PolicyKind::MapRange, PolicyKind::Redirect, PolicyKind::Suppress] {
        assert_eq!(run_block(kind, events.clone(), target(0)), events);
    }
}

#[test]
fn latch_toggles_on_rising_edges() {
    let events = vec![
        Event::Cc(cc(0, 0, 20, VALUE_ONE)),
        Event::Cc(cc(1, 0, 20, 0)),
        Event::Cc(cc(2, 0, 20, VALUE_ONE)),
    ];
    let out = run_block(PolicyKind::Latch, events, target(20));
    assert_eq!(out, vec![Event::Cc(cc(0, 0, 20, VALUE_ONE)), Event::Cc(cc(2, 0, 20, 0))]);
}

#[test]
fn latch_state_persists_across_blocks_until_deactivate() {
    let mut engine = Engine::new(PolicyKind::Latch);
    let p = target(20);
    let on = cc(0, 0, 20, 300_000);
    assert_eq!(engine.apply(on, &p), Some(cc(0, 0, 20, VALUE_ONE)));
    assert!(engine.state.toggle);
    assert_eq!(engine.apply(on, &p), Some(cc(0, 0, 20, 0)));
    assert_eq!(engine.apply(on, &p), Some(cc(0, 0, 20, VALUE_ONE)));
    engine.deactivate();
    assert!(!engine.state.toggle);
    assert_eq!(engine.apply(on, &p), Some(cc(0, 0, 20, VALUE_ONE)));
}

#[test]
fn latch_release_is_silent() {
    let mut st = PolicyState { toggle: true };
    assert_eq!(apply(PolicyKind::Latch, &mut st, &target(20), cc(0, 0, 20, 0)), None);
    assert!(st.toggle);
}

#[test]
fn map_range_endpoints() {
    let p = ranges(1, 200_000, 800_000, 100_000, 900_000);
    let mut st = PolicyState { toggle: false };
    assert_eq!(apply(PolicyKind::MapRange, &mut st, &p, cc(0, 0, 1, 200_000)), Some(cc(0, 0, 1, 100_000)));
    assert_eq!(apply(PolicyKind::MapRange, &mut st, &p, cc(0, 0, 1, 800_000)), Some(cc(0, 0, 1, 900_000)));
}

#[test]
fn map_range_identity_config() {
    let p = ranges(1, 0, VALUE_ONE, 0, VALUE_ONE);
    for v in [0, 1, 333_333, 777_777, VALUE_ONE] {
        let mut st = PolicyState { toggle: false };
        assert_eq!(apply(PolicyKind::MapRange, &mut st, &p, cc(0, 0, 1, v)), Some(cc(0, 0, 1, v)));
    }
}

#[test]
fn map_range_extrapolates_unclamped() {
    let p = ranges(1, 200_000, 800_000, 0, VALUE_ONE);
    let mut st = PolicyState { toggle: false };
    let out = apply(PolicyKind::MapRange, &mut st, &p, cc(0, 0, 1, 900_000)).unwrap();
    assert_eq!(out.value, 1_166_666);
    let below = apply(PolicyKind::MapRange, &mut st, &p, cc(0, 0, 1, 0)).unwrap();
    assert_eq!(below.value, -333_333);
}

#[test]
fn map_range_halves_and_reverses() {
    let half = ranges(1, 0, VALUE_ONE, 0, 500_000);
    let rev = ranges(1, 0, VALUE_ONE, VALUE_ONE, 0);
    let mut st = PolicyState { toggle: false };
    assert_eq!(apply(PolicyKind::MapRange, &mut st, &half, cc(0, 0, 1, 600_000)).unwrap().value, 300_000);
    assert_eq!(apply(PolicyKind::MapRange, &mut st, &rev, cc(0, 0, 1, 250_000)).unwrap().value, 750_000);
}

#[test]
fn map_range_zero_width_input_gives_out_low() {
    let p = ranges(1, 400_000, 400_000, 250_000, 900_000);
    let mut st = PolicyState { toggle: false };
    assert_eq!(apply(PolicyKind::MapRange, &mut st, &p, cc(0, 0, 1, 700_000)), Some(cc(0, 0, 1, 250_000)));
}

#[test]
fn redirect_renumbers_matching_cc() {
    let p = ParamSnapshot { cc: 10, cc_to: 64, ..ParamSnapshot::default() };
    let events = vec![Event::Cc(cc(12, 4, 10, 555_000)), Event::Cc(cc(13, 4, 11, 555_000))];
    let out = run_block(PolicyKind::Redirect, events, p);
    assert_eq!(out, vec![Event::Cc(cc(12, 4, 64, 555_000)), Event::Cc(cc(13, 4, 11, 555_000))]);
}

#[test]
fn suppress_drops_only_target() {
    let events = vec![
        Event::Cc(cc(0, 0, 7, 100_000)),
        Event::Cc(cc(1, 0, 8, 200_000)),
        Event::Other { timing: 2, id: 1 },
        Event::Cc(cc(3, 5, 7, 300_000)),
        Event::Cc(cc(4, 5, 8, 400_000)),
    ];
    let out = run_block(PolicyKind::Suppress, events, target(7));
    assert_eq!(
        out,
        vec![Event::Cc(cc(1, 0, 8, 200_000)), Event::Other { timing: 2, id: 1 }, Event::Cc(cc(4, 5, 8, 400_000))]
    );
}

#[test]
fn block_output_keeps_timing_order() {
    let events = vec![
        Event::Cc(cc(0, 0, 3, VALUE_ONE)),
        Event::Other { timing: 0, id: 1 },
        Event::Cc(cc(2, 0, 4, 10)),
        Event::Cc(cc(5, 0, 3, 0)),
        Event::Cc(cc(9, 0, 3, 1)),
        Event::Other { timing: 9, id: 2 },
    ];
    for kind in [PolicyKind::Invert, PolicyKind::Latch, PolicyKind::MapRange, PolicyKind::Redirect, PolicyKind::Suppress] {
        let out = run_block(kind, events.clone(), ranges(3, 0, VALUE_ONE, VALUE_ONE, 0));
        for w in out.windows(2) {
            assert!(w[0].timing() <= w[1].timing());
        }
        let kept: Vec<Event> = out.iter().copied().filter(|e| matches!(e, Event::Other { .. })).collect();
        assert_eq!(kept, vec![Event::Other { timing: 0, id: 1 }, Event::Other { timing: 9, id: 2 }]);
        assert!(out.contains(&Event::Cc(cc(2, 0, 4, 10))));
    }
}

#[test]
fn malformed_fields_are_clamped_on_selected_events() {
    assert_eq!(sanitize(cc(1, 20, 200, -5)), cc(1, 15, 127, 0));
    assert_eq!(clamp_value(VALUE_ONE + 7), VALUE_ONE);
    assert_eq!(clamp_cc(-3), 0);
    assert_eq!(clamp_cc(300), 127);
    let mut st = PolicyState { toggle: false };
    let out = apply(PolicyKind::Invert, &mut st, &target(7), cc(0, 31, 7, 2 * VALUE_ONE));
    assert_eq!(out, Some(cc(0, 15, 7, 0)));
}

#[test]
fn clamped_snapshot_from_raw_values() {
    let p = ParamSnapshot::clamped(130, -1, -10, 500_000, VALUE_ONE + 1, 3);
    assert_eq!(p, ParamSnapshot { cc: 127, cc_to: 0, in_low: 0, in_high: 500_000, out_low: VALUE_ONE, out_high: 3 });
}

#[test]
fn automation_takes_value_in_effect_at_each_event() {
    let initial = target(1);
    let changes = vec![
        ParamChange { timing: 4, params: target(2) },
        ParamChange { timing: 8, params: target(3) },
    ];
    assert_eq!(param_value_at(&initial, &changes, 0), initial);
    assert_eq!(param_value_at(&initial, &changes, 4).cc, 2);
    assert_eq!(param_value_at(&initial, &changes, 7).cc, 2);
    assert_eq!(param_value_at(&initial, &changes, 100).cc, 3);

    let mut engine = Engine::new(PolicyKind::Suppress);
    let events = vec![
        Event::Cc(cc(0, 0, 1, 5)),
        Event::Cc(cc(3, 0, 2, 5)),
        Event::Cc(cc(5, 0, 1, 5)),
        Event::Cc(cc(6, 0, 2, 5)),
        Event::Cc(cc(9, 0, 3, 5)),
    ];
    let out = engine.process_block_automated(&events, &initial, &changes);
    assert_eq!(out, vec![Event::Cc(cc(3, 0, 2, 5)), Event::Cc(cc(5, 0, 1, 5))]);
}

#[test]
fn empty_block_gives_empty_output() {
    assert!(run_block(PolicyKind::Latch, vec![], target(0)).is_empty());
}
