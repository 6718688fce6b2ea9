use turingosv3::experiments::zeta_sum_proof::reactor::{
    dump_summary_text, oracle_accepts, oracle_request_text, perish_reason, rejection_feedback,
    review_move_of, turn_move_of, verdict_accepts, AgentMove, AgentRole, Bulletin, Perish,
    ReactorCounters,
};
use turingosv3::kernel::{File, Tape};

fn node(id: &str, citations: &[&str], payload: &str) -> File<f64> {
    File {
        id: id.to_string(),
        author: "Agent_0".to_string(),
        payload: payload.to_string(),
        citations: citations.iter().map(|c| c.to_string()).collect(),
        stake: 1,
        intrinsic_reward: 0.0,
        price: 0.0,
    }
}

#[test]
fn roles_follow_agent_index() {
    let roles: Vec<AgentRole> = (0..15).map(|i| AgentRole::for_agent(i, 5, 5)).collect();
    assert_eq!(roles[0], AgentRole::Mathematician);
    assert_eq!(roles[4], AgentRole::Mathematician);
    assert_eq!(roles[5], AgentRole::Bull);
    assert_eq!(roles[9], AgentRole::Bull);
    assert_eq!(roles[10], AgentRole::Bear);
    assert_eq!(roles[14], AgentRole::Bear);
    assert_eq!(AgentRole::for_agent(3, usize::MAX, usize::MAX), AgentRole::Mathematician);
    assert_eq!(AgentRole::for_agent(0, 0, 0), AgentRole::Bear);
    assert_eq!(AgentRole::Mathematician.tag(), "MATH");
    assert_eq!(AgentRole::Bull.tag(), "BULL");
    assert_eq!(AgentRole::Bear.name(), "Bear");
}

#[test]
fn feedback_depends_on_the_rejection() {
    assert_eq!(rejection_feedback(""), "");
    assert_eq!(
        rejection_feedback("FRONT-RUNNING: payload too long"),
        "\n=== YOUR LAST SUBMISSION WAS REJECTED (TOO LONG) ===\nFRONT-RUNNING: payload too long\n=== Write ONE short atomic math argument. ===\n"
    );
    assert_eq!(
        rejection_feedback("bad step"),
        "\n=== YOUR LAST SUBMISSION WAS REJECTED ===\nbad step\n===\n"
    );
}

#[test]
fn bulletin_dedups_by_prefix_and_keeps_five() {
    let mut b = Bulletin::new();
    assert_eq!(b.board_text(), "");
    b.post("Rejected by membrane: payload is too long at 300 chars");
    b.post("Rejected by membrane: payload is too long at 400 chars");
    assert_eq!(b.entries.len(), 1);
    for i in 0..6 {
        b.post(&format!("error kind {} {}", i, "x".repeat(40)));
    }
    assert_eq!(b.entries.len(), 5);
    assert!(b.entries[0].starts_with("error kind 1"));
    assert!(b.entries[4].starts_with("error kind 5"));
    let long = "y".repeat(120);
    b.post(&long);
    assert_eq!(b.entries.len(), 5);
    assert_eq!(b.entries[4], "y".repeat(80));
    assert!(b.entries[0].starts_with("error kind 2"));
    let before = b.entries.clone();
    b.post(&long);
    assert_eq!(b.entries, before);
}

#[test]
fn bulletin_text_lists_entries() {
    let mut b = Bulletin::new();
    b.post("first error");
    b.post("second error");
    assert_eq!(
        b.board_text(),
        "\n=== BULLETIN BOARD (common errors \u{2014} learn from others) ===\nfirst error\nsecond error\n===\n"
    );
}

#[test]
fn oracle_request_lists_the_chain_root_first() {
    let mut tape: Tape<f64> = Tape::new();
    tape.append(node("root", &[], "  start here "), 0.0).unwrap();
    tape.append(node("a", &["root"], "middle"), 0.0).unwrap();
    tape.append(node("b", &["a"], "done [COMPLETE]\n"), 0.0).unwrap();
    let text = oracle_request_text(&tape, "b", "Sum all n");
    assert_eq!(
        text,
        "PROBLEM: Sum all n\n\nPROOF CHAIN (3 steps):\nStep 1: start here\nStep 2: middle\nStep 3: done [COMPLETE]\n\nIS THIS PROOF MATHEMATICALLY CORRECT AND COMPLETE? Answer YES or NO with brief justification."
    );
    let missing = oracle_request_text(&tape, "zz", "P");
    assert!(missing.contains("PROOF CHAIN (0 steps):\n\nIS THIS"));
}

#[test]
fn verdict_needs_yes_and_no_leading_no() {
    assert!(verdict_accepts("YES, THE PROOF HOLDS"));
    assert!(!verdict_accepts("NO. YES WOULD BE WRONG"));
    assert!(!verdict_accepts("THE PROOF FAILS"));
    assert!(oracle_accepts("yes, correct"));
    assert!(!oracle_accepts("no, not yes"));
}

#[test]
fn generations_perish_on_bankruptcy_or_stagnation() {
    assert_eq!(perish_reason(0, 0, 0), Some(Perish::Bankruptcy));
    assert_eq!(perish_reason(3, 60, 60), Some(Perish::Stagnation));
    assert_eq!(perish_reason(3, 60, 59), None);
    assert_eq!(perish_reason(3, 10, 100), None);
    assert_eq!(Perish::Bankruptcy.text(), "Global bankruptcy");
    assert_eq!(Perish::Stagnation.text(), "Absolute stagnation");
}

#[test]
fn counters_track_transactions_and_compressions() {
    let mut c = ReactorCounters::new();
    assert_eq!(c.generation, 1);
    assert_eq!(c.next_tx(), 1);
    c.record_append();
    assert_eq!(c.next_tx(), 2);
    assert_eq!(c.append_count, 1);
    assert!(!c.librarian_due(2));
    assert_eq!(c.next_tx(), 3);
    c.record_append();
    assert!(c.librarian_due(2));
    c.mark_compressed();
    assert!(!c.librarian_due(1));
    assert!(c.librarian_due(0));
    c.next_generation();
    assert_eq!(c.generation, 2);
    assert_eq!(c.tx_count, 3);
}

#[test]
fn dump_summary_cuts_at_150_chars() {
    assert_eq!(dump_summary_text("a\nb"), "a b");
    let long = "z".repeat(160);
    assert_eq!(dump_summary_text(&long), format!("{} [+10c]", "z".repeat(150)));
}

fn submitted(m: AgentMove) -> Option<(String, String, bool)> {
    match m {
        AgentMove::Submit { action_type, payload, cites_parent } => Some((action_type, payload, cites_parent)),
        _ => None,
    }
}

#[test]
fn turn_actions_become_submissions() {
    let s = |v: &str| Some(v.to_string());
    assert_eq!(
        submitted(turn_move_of("append", &s("step one"), &None, &None, "1.00")),
        Some(("append".to_string(), "step one".to_string(), true))
    );
    assert!(matches!(turn_move_of("append", &None, &None, &None, "1.00"), AgentMove::Nothing));
    assert_eq!(
        submitted(turn_move_of("invest", &s("claim"), &None, &None, "30.00")),
        Some((
            "invest".to_string(),
            "claim [Tool: Wallet | Action: Invest | Node: self | Amount: 30.00]".to_string(),
            true
        ))
    );
    assert_eq!(
        submitted(turn_move_of("short", &None, &s("tx_3_by_1"), &None, "5.00")),
        Some((
            "short".to_string(),
            "[Tool: Wallet | Action: Invest | Node: SHORT:tx_3_by_1 | Amount: 5.00]".to_string(),
            false
        ))
    );
    assert!(matches!(turn_move_of("short", &None, &None, &None, "5.00"), AgentMove::Nothing));
    match turn_move_of("search", &None, &None, &s("zeta"), "1.00") {
        AgentMove::Search { query } => assert_eq!(query, "zeta"),
        _ => panic!("expected a search"),
    }
    match turn_move_of("view_node", &None, &None, &s("tx_1_by_0"), "1.00") {
        AgentMove::View { node } => assert_eq!(node, "tx_1_by_0"),
        _ => panic!("expected a view"),
    }
    assert!(matches!(turn_move_of("dance", &None, &None, &None, "1.00"), AgentMove::Heartbeat));
}

#[test]
fn review_actions_bet_on_existing_nodes_only() {
    let s = |v: &str| Some(v.to_string());
    assert_eq!(
        submitted(review_move_of("invest", &s("tx_2_by_4"), "20.00")),
        Some((
            "invest".to_string(),
            "[Tool: Wallet | Action: Invest | Node: tx_2_by_4 | Amount: 20.00]".to_string(),
            false
        ))
    );
    assert!(matches!(review_move_of("invest", &s("self"), "2.00"), AgentMove::Nothing));
    assert!(matches!(review_move_of("invest", &None, "2.00"), AgentMove::Nothing));
    assert_eq!(
        submitted(review_move_of("short", &s("tx_2_by_4"), "2.00")),
        Some((
            "short".to_string(),
            "[Tool: Wallet | Action: Invest | Node: SHORT:tx_2_by_4 | Amount: 2.00]".to_string(),
            false
        ))
    );
    assert!(matches!(review_move_of("pass", &None, "2.00"), AgentMove::Heartbeat));
}
