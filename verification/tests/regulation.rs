use gene_core::regulation::drive::{RegulationDrive, CIRCUIT_BREAK_COOLDOWN};
use gene_core::regulation::scorer::{EffectSign, ImbalanceScorer};
use gene_core::regulation::selector::{ActionSelector, CandidateInfo, SYSTEM_ACTION_COOLDOWN, SYSTEM_ACTION_GLOBAL_COOLDOWN};
use gene_core::selfmodel::evaluator::{arbitrate, PreferredAction};
use gene_core::selfmodel::model::{context_action_counts, records_at, ContextEntry};
use gene_core::signal::types::{SignalClass, SignalId};

#[test]
fn breaker_fires_after_limit_and_respects_cooldown() {
    let mut d = RegulationDrive::new(SignalId(6), 3);
    assert!(!d.update(true, 1000));
    assert!(!d.update(true, 1001));
    assert!(d.update(true, 1002));
    d.reset_stagnation();
    // stagnating again right away: limit reached but within the cooldown
    assert!(!d.update(true, 1003));
    assert!(!d.update(true, 1004));
    assert!(!d.update(true, 1005));
    assert!(!d.update(true, 1002 + CIRCUIT_BREAK_COOLDOWN - 1));
    assert!(d.update(true, 1002 + CIRCUIT_BREAK_COOLDOWN));
}

#[test]
fn progress_resets_stagnation() {
    let mut d = RegulationDrive::new(SignalId(6), 2);
    assert!(!d.update(true, 5000));
    assert!(!d.update(false, 5001));
    assert!(!d.update(true, 5002));
    assert!(d.update(true, 5003));
    assert_eq!(d.drive_signal_id, SignalId(6));
}

#[test]
fn continuity_harm_detected() {
    let harmful = [
        EffectSign { class: Some(SignalClass::Somatic), negative: true },
        EffectSign { class: Some(SignalClass::Continuity), negative: true },
    ];
    let benign = [
        EffectSign { class: Some(SignalClass::Continuity), negative: false },
        EffectSign { class: None, negative: true },
    ];
    assert!(ImbalanceScorer::harms_continuity(&harmful));
    assert!(!ImbalanceScorer::harms_continuity(&benign));
    assert!(!ImbalanceScorer::harms_continuity(&[]));
}

fn cand(id: u32, is_system: bool, harms: bool) -> CandidateInfo {
    CandidateInfo { id, is_system, harms_continuity: harms }
}

#[test]
fn system_cooldowns() {
    let mut s = ActionSelector::new(30);
    let t = 10_000;
    assert!(s.is_eligible(cand(100, true, false), t));
    s.record_execution(100, t, true);
    assert!(!s.is_eligible(cand(100, true, false), t + SYSTEM_ACTION_COOLDOWN - 1));
    assert!(s.is_eligible(cand(100, true, false), t + SYSTEM_ACTION_COOLDOWN));
    // another system action waits for the global cooldown
    assert!(!s.is_eligible(cand(101, true, false), t + SYSTEM_ACTION_GLOBAL_COOLDOWN - 1));
    assert!(s.is_eligible(cand(101, true, false), t + SYSTEM_ACTION_GLOBAL_COOLDOWN));
    // somatic actions have no cooldown, harmful ones are never eligible
    assert!(s.is_eligible(cand(3, false, false), t));
    assert!(!s.is_eligible(cand(3, false, true), t + 100_000));
    let c = s.candidates(&[cand(1, false, false), cand(2, false, true), cand(100, true, false)], t + 1);
    assert_eq!(c, vec![cand(1, false, false)]);
}

#[test]
fn repetition_forces_exploration() {
    let mut s = ActionSelector::new(2);
    s.record_execution(4, 1, false);
    assert!(!s.force_explore());
    s.record_execution(4, 2, false);
    s.record_execution(4, 3, false);
    assert!(s.force_explore());
    s.record_execution(5, 4, false);
    assert!(!s.force_explore());
}

fn pref(id: u32, known: bool, harms: bool, system: bool) -> PreferredAction {
    PreferredAction { id, known, harms_continuity: harms, is_system: system }
}

#[test]
fn arbitration_cases() {
    assert_eq!(arbitrate(Some(pref(1, true, false, false)), Some(2), true), Some(1));
    assert_eq!(arbitrate(Some(pref(1, true, false, false)), Some(2), false), Some(2));
    assert_eq!(arbitrate(Some(pref(1, true, true, false)), Some(2), true), Some(2));
    assert_eq!(arbitrate(Some(pref(100, true, false, true)), Some(2), true), Some(2));
    assert_eq!(arbitrate(Some(pref(100, true, false, true)), None, true), None);
    assert_eq!(arbitrate(Some(pref(5, true, true, false)), None, true), None);
    assert_eq!(arbitrate(Some(pref(7, false, false, false)), None, false), Some(7));
    assert_eq!(arbitrate(None, Some(3), true), Some(3));
    assert_eq!(arbitrate(None, None, true), None);
}

fn entry(active: &[u32], action: Option<u32>) -> ContextEntry {
    ContextEntry { active_symbols: active.to_vec(), action_taken: action }
}

#[test]
fn context_counts() {
    let history = vec![
        entry(&[1, 2], Some(10)),
        entry(&[3], Some(10)),
        entry(&[2, 5], Some(10)),
        entry(&[5], Some(11)),
        entry(&[2], Some(99)),
        entry(&[2], None),
    ];
    let mut counts = context_action_counts(&history, &[2, 5], &[10, 11]).unwrap();
    counts.sort();
    assert_eq!(counts, vec![(10, 2), (11, 1)]);
    assert!(context_action_counts(&history, &[42], &[10]).is_none());
    assert_eq!(context_action_counts(&history, &[2], &[77]), Some(vec![]));
    assert!(records_at(20, 10));
    assert!(!records_at(25, 10));
}
