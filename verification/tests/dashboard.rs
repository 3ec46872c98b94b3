use gene_core::signal::types::SignalClass;
use gene_core::tui::{ControlState, Effect, KeyPress, Mode, Oscillation};

fn rows() -> Vec<(u32, SignalClass)> {
    vec![
        (0, SignalClass::Continuity),
        (3, SignalClass::Somatic),
        (4, SignalClass::Somatic),
        (9, SignalClass::World),
    ]
}

#[test]
fn normal_mode_switches_and_quits() {
    let r = rows();
    let mut c = ControlState::new();
    assert!(c.on_key(KeyPress::Char('x'), false, &r).is_empty());
    assert_eq!(c.on_key(KeyPress::Char('q'), false, &r), vec![Effect::Quit]);
    assert_eq!(c.on_key(KeyPress::Char('c'), true, &r), vec![Effect::Quit]);
    assert!(c.on_key(KeyPress::Char('c'), false, &r).is_empty());
    c.on_key(KeyPress::Char('s'), false, &r);
    assert_eq!(c.mode, Mode::Stress);
    c.on_key(KeyPress::Esc, false, &r);
    assert_eq!(c.mode, Mode::Normal);
    c.on_key(KeyPress::Char('w'), false, &r);
    assert_eq!(c.mode, Mode::Weight);
}

#[test]
fn selection_moves_within_rows() {
    let r = rows();
    let mut c = ControlState::new();
    c.on_key(KeyPress::Char('s'), false, &r);
    c.on_key(KeyPress::Up, false, &r);
    assert_eq!(c.selected, 0);
    for _ in 0..6 {
        c.on_key(KeyPress::Char('j'), false, &r);
    }
    assert_eq!(c.selected, 3);
    c.on_key(KeyPress::Char('k'), false, &r);
    assert_eq!(c.selected, 2);
    c.clamp_selection(2);
    assert_eq!(c.selected, 1);
    c.clamp_selection(0);
    assert_eq!(c.selected, 1);
}

#[test]
fn stress_presets() {
    let r = rows();
    let mut c = ControlState::new();
    c.on_key(KeyPress::Char('s'), false, &r);
    c.on_key(KeyPress::Down, false, &r);
    assert_eq!(c.on_key(KeyPress::Char('+'), false, &r), vec![Effect::Nudge(1, true)]);
    assert_eq!(c.on_key(KeyPress::Char('='), false, &r), vec![Effect::Nudge(1, true)]);
    assert_eq!(c.on_key(KeyPress::Char('-'), false, &r), vec![Effect::Nudge(1, false)]);
    assert_eq!(c.on_key(KeyPress::Char('1'), false, &r), vec![Effect::Spike(1)]);
    assert_eq!(c.on_key(KeyPress::Char('2'), false, &r), vec![Effect::Drop(1)]);
    assert_eq!(c.on_key(KeyPress::Char('3'), false, &r), vec![Effect::Normalize(1)]);
    assert_eq!(
        c.on_key(KeyPress::Char('4'), false, &r),
        vec![Effect::Pressure(1), Effect::Pressure(2)]
    );
    assert!(c.on_key(KeyPress::Char('w'), false, &r).is_empty());
    assert_eq!(c.mode, Mode::Stress);
    let empty: Vec<(u32, SignalClass)> = Vec::new();
    assert!(c.on_key(KeyPress::Char('1'), false, &empty).is_empty());
}

#[test]
fn oscillation_alternates_and_ends() {
    let r = rows();
    let mut c = ControlState::new();
    assert_eq!(c.pulse(), None);
    c.on_key(KeyPress::Char('s'), false, &r);
    c.on_key(KeyPress::Char('j'), false, &r);
    c.on_key(KeyPress::Char('5'), false, &r);
    assert_eq!(c.oscillate, Some(Oscillation { signal: 3, up: true, left: 20 }));
    let mut pulses = Vec::new();
    while let Some(p) = c.pulse() {
        pulses.push(p);
    }
    assert_eq!(pulses.len(), 20);
    assert_eq!(pulses[0], (3, true));
    assert_eq!(pulses[1], (3, false));
    assert_eq!(pulses[19], (3, false));
    assert_eq!(c.oscillate, None);
    c.on_key(KeyPress::Char('5'), false, &r);
    c.on_key(KeyPress::Char('s'), false, &r);
    assert_eq!(c.oscillate, None);
    assert_eq!(c.mode, Mode::Normal);
}

#[test]
fn weight_edits_spare_continuity() {
    let r = rows();
    let mut c = ControlState::new();
    c.on_key(KeyPress::Char('w'), false, &r);
    assert!(c.on_key(KeyPress::Char('['), false, &r).is_empty());
    assert!(c.on_key(KeyPress::Char(']'), false, &r).is_empty());
    c.on_key(KeyPress::Char('j'), false, &r);
    assert_eq!(c.on_key(KeyPress::Char('['), false, &r), vec![Effect::Reweigh(1, false)]);
    assert_eq!(c.on_key(KeyPress::Char(']'), false, &r), vec![Effect::Reweigh(1, true)]);
    assert!(c.on_key(KeyPress::Char('1'), false, &r).is_empty());
    assert_eq!(c.on_key(KeyPress::Char('q'), false, &r), vec![Effect::Quit]);
    c.on_key(KeyPress::Char('w'), false, &r);
    assert_eq!(c.mode, Mode::Normal);
}
