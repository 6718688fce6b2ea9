use turingosv3::experiments::minif2f_swarm::batch::{
    batch_statement_text, model_roster, trim_end_text, zero_shot_code_text, zero_shot_passes, zero_shot_proof_text,
    BatchScore,
};

#[test]
fn statements_open_their_proof() {
    assert_eq!(batch_statement_text("theorem t : 1 = 1 := by sorry  \n"), "theorem t : 1 = 1 := by");
    assert_eq!(batch_statement_text("theorem t : 1 = 1 :=   by sorry"), "theorem t : 1 = 1 := by");
    assert_eq!(batch_statement_text("theorem t : True := by\n  sorry\n"), "theorem t : True := by");
    assert_eq!(batch_statement_text("theorem t : True := by\n  trivial\n"), "theorem t : True := by\n  trivial\n");
    assert_eq!(trim_end_text("  a b \t\n"), "  a b");
}

#[test]
fn roster_is_heterogeneous_only_when_models_differ() {
    let one = model_roster("u", "p", "p", "p", "u2");
    assert_eq!(one, vec![("u".to_string(), "p".to_string())]);
    let five = model_roster("u", "p", "s", "s2", "u2");
    assert_eq!(
        five,
        vec![
            ("u".to_string(), "p".to_string()),
            ("u".to_string(), "p".to_string()),
            ("u".to_string(), "p".to_string()),
            ("u".to_string(), "s".to_string()),
            ("u2".to_string(), "s2".to_string()),
        ]
    );
    assert_eq!(model_roster("u", "p", "p", "q", "u2").len(), 5);
}

#[test]
fn score_counts_proved_theorems() {
    let mut s = BatchScore::new();
    s.record(true);
    s.record(false);
    s.record(true);
    assert_eq!((s.proved, s.evaluated), (2, 3));
}

#[test]
fn zero_shot_proof_and_verdict() {
    assert_eq!(zero_shot_proof_text("text [Proof:  norm_num [h] ] tail"), "norm_num [h]");
    assert_eq!(zero_shot_proof_text("[Proof: simp"), "simp");
    assert_eq!(zero_shot_proof_text("just simp"), "just simp");
    assert_eq!(zero_shot_code_text("theorem t : True := by", "[Proof: trivial]"), "theorem t : True := by\n  trivial");
    assert!(zero_shot_passes(""));
    assert!(!zero_shot_passes("t.lean:1:2: error: unsolved goals"));
    assert!(!zero_shot_passes("declaration uses 'sorry'"));
}
