use gene_core::sample::pick_distinct;
use gene_core::schedule::plan_tick;
use gene_core::expression::engine::{identity_alignment, signal_name as expression_name};
use gene_core::history::{keep_last, push_front_capped, push_trimmed, push_window};
use gene_core::signal::types::SignalClass;
use gene_core::text::{chars_of, parse_u32, parse_u64, split_lines, split_whitespace, trim_chars};
use gene_core::tui::{class_order, signal_name as dashboard_name};

#[test]
fn rolling_window() {
    let mut v = vec![1, 2, 3];
    push_window(&mut v, 4, 3);
    assert_eq!(v, vec![2, 3, 4]);
    push_window(&mut v, 5, 5);
    assert_eq!(v, vec![2, 3, 4, 5]);
}

#[test]
fn trimmed_history() {
    let mut v: Vec<u32> = (0..8).collect();
    push_trimmed(&mut v, 8, 8);
    assert_eq!(v, vec![2, 3, 4, 5, 6, 7, 8]);
    push_trimmed(&mut v, 9, 8);
    assert_eq!(v.len(), 8);
}

#[test]
fn last_entries_kept() {
    let mut v: Vec<u32> = (0..5).collect();
    keep_last(&mut v, 2);
    assert_eq!(v, vec![3, 4]);
    keep_last(&mut v, 10);
    assert_eq!(v, vec![3, 4]);
}

#[test]
fn newest_first_log() {
    let mut v = vec!["b".to_string(), "c".to_string()];
    push_front_capped(&mut v, "a".to_string(), 2);
    assert_eq!(v, vec!["a".to_string(), "b".to_string()]);
}

#[test]
fn signal_names() {
    assert_eq!(expression_name(21), "s_uptime_cycle");
    assert_eq!(dashboard_name(21), "s_uptime");
    assert_eq!(expression_name(29), "s_quake_mag");
    assert_eq!(expression_name(23), "s_swap_used");
    assert_eq!(expression_name(28), "s_quake_rate");
    assert_eq!(expression_name(27), "s_mem_available");
    assert_eq!(expression_name(32), "s_0032");
    assert_eq!(dashboard_name(23), "s_swap_used");
    assert_eq!(dashboard_name(26), "s_tick_rate");
    assert_eq!(dashboard_name(29), "s_quake_mag");
    assert_eq!(dashboard_name(0), "s_continuity");
    assert_eq!(dashboard_name(8), "s_0008");
}

#[test]
fn class_ordering() {
    assert_eq!(class_order(&SignalClass::Continuity), 0);
    assert_eq!(class_order(&SignalClass::World), 3);
    assert_eq!(class_order(&SignalClass::Efferent), 4);
}

#[test]
fn alignment_fraction() {
    assert_eq!(identity_alignment(&[1, 2, 3, 4], &[2, 9, 4]), (2, 4));
    assert_eq!(identity_alignment(&[], &[1]), (0, 1));
    assert_eq!(identity_alignment(&[1], &[]), (0, 1));
}

#[test]
fn text_helpers() {
    let s = chars_of("  a bb\tc  ");
    assert_eq!(trim_chars(&s), "a bb\tc".chars().collect::<Vec<char>>());
    assert_eq!(split_whitespace(&s).len(), 3);
    assert_eq!(split_lines(&chars_of("x\r\ny\n\nz")).len(), 4);
    assert_eq!(parse_u64(&chars_of("+42")), Some(42));
    assert_eq!(parse_u64(&chars_of("18446744073709551616")), None);
    assert_eq!(parse_u32(&chars_of("4294967295")), Some(4294967295));
    assert_eq!(parse_u32(&chars_of("-1")), None);
    assert_eq!(parse_u64(&chars_of("")), None);
}

#[test]
fn tick_schedule() {
    let p = plan_tick(0, 0, 1000, 500, true);
    assert!(!p.stop && p.reload_actions && p.poll_sources && p.extract_and_compose && p.refresh_dashboard);
    assert!(!p.rewrite_directives && !p.checkpoint && !p.prune);
    let p = plan_tick(5000, 0, 1000, 500, false);
    assert!(p.rewrite_directives && p.checkpoint && p.prune && !p.refresh_dashboard);
    let p = plan_tick(70, 0, 1000, 500, true);
    assert!(p.poll_sources && !p.extract_and_compose && !p.reload_actions && !p.refresh_dashboard);
    let p = plan_tick(40, 0, 1000, 500, true);
    assert!(p.extract_and_compose && p.refresh_dashboard && p.publish_state);
    assert!(plan_tick(10, 10, 1000, 500, false).stop);
    assert!(!plan_tick(9, 10, 1000, 500, false).stop);
}

#[test]
fn distinct_picks() {
    assert_eq!(pick_distinct(5, &[]), Vec::<usize>::new());
    assert_eq!(pick_distinct(5, &[0, 0, 0]), vec![0, 1, 2]);
    assert_eq!(pick_distinct(5, &[4, 3]), vec![4, 0]);
    assert_eq!(pick_distinct(4, &[1, 2, 1, 0]), vec![1, 3, 0, 2]);
    let r = pick_distinct(10, &[9, 8, 7, 6, 5, 4, 3, 2, 1, 0]);
    let mut sorted = r.clone();
    sorted.sort();
    assert_eq!(sorted, (0..10).collect::<Vec<usize>>());
}
