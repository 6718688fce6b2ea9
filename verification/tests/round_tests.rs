use std::time::Duration;
use turingosv3::bus::{resolves_yes, veto_parent, PreAppendRound, PreAppendStep};
use turingosv3::sdk::sandbox::SandboxEngine;
use turingosv3::sdk::tools::librarian::{
    common_errors_section, depth_section, rejection_log_section, stats_section, tally_rejections,
};
use turingosv3::tool::{BetDirection, ToolSignal};

fn strings(v: &[&str]) -> Vec<String> {
    v.iter().map(|s| s.to_string()).collect()
}

#[test]
fn pre_append_round_takes_each_signal() {
    let mut r: PreAppendRound<f64> = PreAppendRound::new("p0".to_string());
    assert!(matches!(r.absorb(ToolSignal::Pass), PreAppendStep::Next));
    assert_eq!(r.payload, "p0");
    assert!(matches!(r.absorb(ToolSignal::Modify("p1".to_string())), PreAppendStep::Next));
    assert_eq!(r.payload, "p1");
    let step = r.absorb(ToolSignal::YieldReward { payload: "p2".to_string(), reward: 3.0 });
    assert!(matches!(step, PreAppendStep::Next));
    assert_eq!(r.payload, "p2");
    assert_eq!(r.rewards, vec![3.0]);
    match r.absorb(ToolSignal::Veto("too poor".to_string())) {
        PreAppendStep::Veto(m) => assert_eq!(m, "too poor"),
        _ => panic!("a veto ends the round"),
    }
    assert_eq!(r.payload, "p2");
    let invest = ToolSignal::InvestOnly { target_node: "n7".to_string(), amount: 5.0, direction: BetDirection::Short };
    match r.absorb(invest) {
        PreAppendStep::Invest { target_node, amount, direction } => {
            assert_eq!(target_node, "n7");
            assert_eq!(amount, 5.0);
            assert_eq!(direction, BetDirection::Short);
        }
        _ => panic!("an investment ends the round"),
    }
    assert_eq!(r.rewards, vec![3.0]);
}

#[test]
fn refused_appends_are_charged_to_first_citation_or_root() {
    assert_eq!(veto_parent(&vec![]), "root");
    assert_eq!(veto_parent(&strings(&["a", "b"])), "a");
}

#[test]
fn settlement_resolves_yes_exactly_on_golden_path() {
    let gp = strings(&["omega", "mid", "root"]);
    assert!(resolves_yes(&gp, "mid"));
    assert!(resolves_yes(&gp, "root"));
    assert!(!resolves_yes(&gp, "dead_end"));
    assert!(!resolves_yes(&vec![], "root"));
}

#[test]
fn tally_counts_every_reason_most_frequent_first() {
    let reasons = strings(&[
        "Step too short: x",
        "Bankrupt agent A",
        "too short again",
        "an unexpected reason that goes on for quite a long while",
        "Bankrupt B",
        "too short 3",
    ]);
    let t = tally_rejections(&reasons);
    assert_eq!(t.len(), 3);
    assert_eq!(t[0], ("Step too short".to_string(), 3, "Step too short: x".to_string()));
    assert_eq!(t[1], ("Bankrupt agent".to_string(), 2, "Bankrupt agent A".to_string()));
    assert_eq!(t[2].0, "an unexpected reason that goes on for qu");
    assert_eq!(t[2].1, 1);
    let total: usize = t.iter().map(|e| e.1).sum();
    assert_eq!(total, reasons.len());
}

#[test]
fn tally_keeps_first_seen_order_between_equal_counts() {
    let t = tally_rejections(&strings(&["Lean error", "Duplicate in branch b1"]));
    assert_eq!(t[0], ("Blacklisted syntax".to_string(), 1, "Lean error".to_string()));
    assert_eq!(t[1], ("Duplicate in branch".to_string(), 1, "Duplicate in branch b1".to_string()));
    assert!(tally_rejections(&vec![]).is_empty());
}

#[test]
fn rejection_sections_show_counts_and_shares() {
    let t = vec![
        ("Step too short".to_string(), 3, "s".to_string()),
        ("Bankrupt agent".to_string(), 2, "b".to_string()),
        ("Other".to_string(), 1, "o".to_string()),
    ];
    assert_eq!(
        rejection_log_section(&t),
        "\n## REJECTION LOG (system-rejected, from failure.jsonl \u{2014} COMPLETE, ALL categories):\n\
         - 3x (50%): Step too short\n- 2x (33%): Bankrupt agent\n- 1x (16%): Other\n"
    );
    assert_eq!(
        rejection_log_section(&vec![]),
        "\n## REJECTION LOG (system-rejected, from failure.jsonl \u{2014} COMPLETE, ALL categories):\n(no rejections recorded)\n"
    );
    assert_eq!(
        common_errors_section(&t),
        "\n## COMMON ERRORS (ALL categories from failure.jsonl):\n- 3x: Step too short\n- 2x: Bankrupt agent\n- 1x: Other\n"
    );
    assert_eq!(
        stats_section(5, 2, "tx_3_by_1", 7),
        "\n## STATS: 5 total nodes, deepest chain = 2 steps (leaf: tx_3_by_1), 7 total rejections\n"
    );
    assert_eq!(depth_section(4), "\n## PROOF DEPTH: 4 steps\n");
}

struct EchoSandbox;

impl SandboxEngine for EchoSandbox {
    fn engine_name(&self) -> &'static str {
        "sandbox.echo"
    }

    fn execute_safely(&self, sealed_code: &str, _timeout: Duration) -> Result<String, String> {
        if sealed_code.is_empty() { Err("empty".to_string()) } else { Ok(sealed_code.to_string()) }
    }
}

#[test]
fn a_sandbox_engine_can_be_supplied_by_its_user() {
    let engine: Box<dyn SandboxEngine> = Box::new(EchoSandbox);
    assert_eq!(engine.engine_name(), "sandbox.echo");
    assert_eq!(engine.execute_safely("theorem t", Duration::from_secs(1)), Ok("theorem t".to_string()));
    assert_eq!(engine.execute_safely("", Duration::from_secs(1)), Err("empty".to_string()));
}
