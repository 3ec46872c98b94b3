use gene_core::persistence::codegen::{parse_self_prompt, CodeGenerator};
use gene_core::persistence::prompt::self_prompt_text;
use gene_core::persistence::executor::SystemOpExecutor;
use gene_core::persistence::selfmod::SourceModResult;
use gene_core::persistence::store::SelfObservation;
use gene_core::signal::types::SignalId;
use std::path::PathBuf;

#[test]
fn self_prompt_is_read_back() {
    let content = "# Gene Self-Prompt\nGenerated at tick: 4200\n\nBest action: action_10 (mean_delta:-0.1234)\nWorst action: action_3 (mean_delta:+0.5000)\n";
    let d = parse_self_prompt(content.to_string());
    assert_eq!(d.prior_tick, 4200);
    assert_eq!(d.preferred_action, Some(10));
    assert_eq!(d.avoided_action, Some(3));
    assert_eq!(d.raw, content);
}

#[test]
fn self_prompt_without_data() {
    let d = parse_self_prompt("Best action: insufficient data\nGenerated at tick: soon\n".to_string());
    assert_eq!(d.prior_tick, 0);
    assert_eq!(d.preferred_action, None);
    assert_eq!(d.avoided_action, None);
    let d = parse_self_prompt("Generated at tick: 7\r\nBest action: action_x (y)\n".to_string());
    assert_eq!(d.prior_tick, 7);
    assert_eq!(d.preferred_action, None);
}

#[test]
fn patches_prepend_headers() {
    let g = CodeGenerator::new(PathBuf::from("src"), PathBuf::from("data"));
    assert_eq!(g.src_root, PathBuf::from("src"));
    assert_eq!(
        g.patch_self_model("fn x() {}\n", 4, 120),
        "// gene self-patch at tick 120 — self_model has 4 identity symbols\nfn x() {}\n"
    );
    assert_eq!(
        g.generic_annotation_patch("", 35, 0, 9),
        "// gene self-annotation at tick 9 — 35 action observations, 0 identity symbols\n"
    );
}

#[test]
fn executor_configuration() {
    let e = SystemOpExecutor::new(
        PathBuf::from("d"),
        PathBuf::from("s"),
        PathBuf::from("w"),
        SignalId(1),
        SignalId(2),
        SignalId(0),
    );
    assert_eq!(e.data_dir, PathBuf::from("d"));
    assert_eq!(e.workspace_root, PathBuf::from("w"));
    assert_eq!(e.codegen.src_root, PathBuf::from("s"));
    assert_eq!(e.codegen.data_dir, PathBuf::from("d"));
    assert_eq!(e.sig_continuity, SignalId(0));
}

#[test]
fn records_of_self_modification() {
    let o = SelfObservation { tick: 3, observation: "x".to_string(), symbol_context: vec![] };
    assert_eq!(o.clone().tick, 3);
    let r = SourceModResult::ProposalWritten(PathBuf::from("p"));
    assert!(matches!(r, SourceModResult::ProposalWritten(_)));
}

#[test]
fn self_prompt_written_then_read() {
    let ranking = vec![
        "  action_10: delta=-0.1234 n=40".to_string(),
        "  action_3: delta=+0.5000 n=12".to_string(),
    ];
    let text = self_prompt_text(
        4242,
        "identity: [\u{3a6}_0001:0.500]",
        "\u{3a6}_0001",
        7,
        "12.3456",
        "s_0007:+0.2000, s_0008:-0.1000",
        Some((10, "-0.1234")),
        Some((3, "+0.5000")),
        &ranking,
        "[\u{3a6}_0001:0.90]",
    );
    assert!(text.starts_with("# Gene Self-Prompt\nGenerated at tick: 4242\nThis file is written"));
    assert!(text.contains("\nBest action: action_10 (mean_delta:-0.1234)\nWorst action: action_3 (mean_delta:+0.5000)\n"));
    assert!(text.contains("### Full ranking (best to worst):\n  action_10: delta=-0.1234 n=40\n  action_3: delta=+0.5000 n=12\n\n## Operational Notes\n"));
    assert!(text.contains("- The system has been running for 4242 ticks.\n"));
    assert!(text.ends_with("## Symbol Context at last write\nActive: [\u{3a6}_0001:0.90]\n"));
    let d = parse_self_prompt(text);
    assert_eq!(d.prior_tick, 4242);
    assert_eq!(d.preferred_action, Some(10));
    assert_eq!(d.avoided_action, Some(3));
}

#[test]
fn self_prompt_with_insufficient_data() {
    let text = self_prompt_text(0, "identity: unformed", "none", 0, "0.0000", "", None, None, &[], "[]");
    assert!(text.contains("\nBest action: insufficient data\nWorst action: insufficient data\n\n### Full ranking (best to worst):\n\n\n## Operational Notes\n"));
    let d = parse_self_prompt(text);
    assert_eq!(d.prior_tick, 0);
    assert_eq!(d.preferred_action, None);
    assert_eq!(d.avoided_action, None);
}
