use turingosv3::experiments::minif2f_v2::market::{
    math_chain_text, rejection_feedback, rejection_note_text, translation_input_text, v2_perish, v2_review_move_of,
    v2_turn_move_of,
};
use turingosv3::experiments::zeta_sum_proof::reactor::{AgentMove, Perish};
use turingosv3::kernel::{File, Tape};

fn node(id: &str, citations: &[&str], payload: &str) -> File<f64> {
    File {
        id: id.to_string(),
        author: "Agent_0".to_string(),
        payload: payload.to_string(),
        citations: citations.iter().map(|c| c.to_string()).collect(),
        stake: 1,
        intrinsic_reward: 0.0,
        price: 0.0,
    }
}

#[test]
fn math_chain_numbers_steps_by_their_place() {
    let mut tape: Tape<f64> = Tape::new();
    tape.append(node("r", &[], "Let n be even."), 0.0).unwrap();
    tape.append(node("w", &["r"], "[Tool: Wallet | Action: Invest | Node: r | Amount: 5.00]"), 0.0).unwrap();
    tape.append(node("c", &["w"], "  So n^2 is even. [COMPLETE] [Tool: Wallet | Action: Invest | Node: self | Amount: 2.00]"), 0.0)
        .unwrap();
    assert_eq!(math_chain_text(&tape, "c"), "Step 1: Let n be even.\nStep 3: So n^2 is even.");
    assert_eq!(math_chain_text(&tape, "missing"), "");
}

#[test]
fn translation_retry_carries_the_error() {
    assert_eq!(translation_input_text("chain", ""), "chain");
    assert_eq!(
        translation_input_text("chain", "Lean compilation failed on attempt 1"),
        "chain\n\n--- PREVIOUS ATTEMPT FAILED ---\nLean compilation failed on attempt 1\n--- Fix the translation. ---"
    );
}

#[test]
fn v2_feedback_and_notes() {
    assert_eq!(rejection_feedback(""), "");
    assert!(rejection_feedback("FRONT-RUNNING x").contains("MAX 1200 CHARS"));
    assert!(rejection_feedback("Lean syntax").ends_with("=== Write traditional math reasoning. Do NOT use Lean syntax. ===\n"));
    assert_eq!(rejection_note_text(&"e".repeat(400)).chars().count(), 300);
}

#[test]
fn falsifier_cannot_buy_yes() {
    let s = |v: &str| Some(v.to_string());
    assert!(matches!(v2_turn_move_of("invest", &s("step"), &None, &None, "5.00", true), AgentMove::Heartbeat));
    assert!(matches!(v2_turn_move_of("invest", &s("step"), &None, &None, "5.00", false), AgentMove::Submit { .. }));
    assert!(matches!(v2_review_move_of("invest", &s("tx_1_by_0"), "2.00", true), AgentMove::Heartbeat));
    assert!(matches!(v2_review_move_of("short", &s("tx_1_by_0"), "2.00", true), AgentMove::Submit { .. }));
}

#[test]
fn v2_stagnation_waits_five_minutes() {
    assert_eq!(v2_perish(0, 0, 0), Some(Perish::Bankruptcy));
    assert_eq!(v2_perish(2, 299, 400), None);
    assert_eq!(v2_perish(2, 300, 300), Some(Perish::Stagnation));
}
