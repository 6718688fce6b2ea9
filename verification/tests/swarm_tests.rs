use turingosv3::experiments::hanoi_1m::agent::NetworkedHanoiAgent;
use turingosv3::experiments::minif2f_swarm::evaluation::TheoremRun;
use turingosv3::experiments::minif2f_v2::problem::{brute_force_warnings, extract_code, open_statement, theorem_name};
use turingosv3::experiments::swarm::{
    branch_payload, step_number, tactic_text, tactic_with_call_text, with_wallet_call_text, SwarmLedger,
};
use turingosv3::experiments::zeta_sum_proof::constitution::{insert_section, prompt_violations, tx_file_id, violations_in};
use turingosv3::kernel::{File, MachineState};

fn file(id: &str) -> File<f64> {
    File {
        id: id.to_string(),
        author: "Agent_1".to_string(),
        payload: format!("payload {}", id),
        citations: vec![],
        stake: 1,
        intrinsic_reward: 0.0,
        price: 0.0,
    }
}

#[test]
fn step_numbers_of_branch_ids() {
    assert_eq!(step_number("step_12_branch_3"), Some(12));
    assert_eq!(step_number("step_7"), Some(7));
    assert_eq!(step_number("step_+5_branch_0"), Some(5));
    assert_eq!(step_number("step__x"), None);
    assert_eq!(step_number("tx_1_by_2"), None);
    assert_eq!(step_number("step_18446744073709551616_branch_0"), None);
}

#[test]
fn recovered_branches_replay_in_order_after_highest_step() {
    let mut l = SwarmLedger::recover(vec![file("step_3_branch_1"), file("step_5_branch_0"), file("other")], 10);
    assert_eq!(l.current_step, 5);
    assert_eq!(l.next_queued().unwrap().a_o.file_id, "step_3_branch_1");
    assert_eq!(l.next_queued().unwrap().a_o.file_id, "step_5_branch_0");
    let last = l.next_queued().unwrap();
    assert_eq!(last.a_o.file_id, "other");
    assert_eq!(last.a_o.payload, "payload other");
    assert_eq!(last.q_o, MachineState::Running);
    assert!(l.next_queued().is_none());
}

#[test]
fn a_round_queues_one_branch_per_answer() {
    let mut l = SwarmLedger::new(2);
    assert_eq!(l.begin_step(), MachineState::Running);
    let answers = vec![(0, "t0".to_string()), (4, "t4".to_string())];
    let o = l.settle_round(MachineState::Running, "p", &answers, "unused");
    assert_eq!(o.a_o.file_id, "step_1_branch_4");
    assert_eq!(o.a_o.author, "Agent_4");
    assert_eq!(o.a_o.payload, "t4");
    assert_eq!(o.a_o.citations, vec!["p".to_string()]);
    assert_eq!(o.a_o.stake, 1);
    assert_eq!(l.consecutive_failures, 0);
    let next = l.next_queued().unwrap();
    assert_eq!(next.a_o.file_id, "step_1_branch_0");
    assert!(l.next_queued().is_none());
}

#[test]
fn empty_rounds_step_back_and_halt_after_twenty() {
    let mut l = SwarmLedger::new(100);
    l.begin_step();
    let o = l.settle_round(MachineState::Running, "", &vec![], "paradox: swarm completely failed");
    assert_eq!(o.a_o.file_id, "step_1_failed");
    assert_eq!(o.a_o.author, "System");
    assert_eq!(o.a_o.payload, "paradox: swarm completely failed");
    assert_eq!(o.a_o.stake, 0);
    assert_eq!(o.q_o, MachineState::Running);
    assert_eq!(l.current_step, 0);
    assert_eq!(l.consecutive_failures, 1);
    for _ in 0..18 {
        l.begin_step();
        let o = l.settle_round(MachineState::Running, "", &vec![], "x");
        assert_eq!(o.q_o, MachineState::Running);
    }
    l.begin_step();
    let o = l.settle_round(MachineState::Running, "", &vec![], "x");
    assert_eq!(l.consecutive_failures, 20);
    assert_eq!(o.q_o, MachineState::Halt);
    assert_eq!(o.a_o.file_id, "system_aborted_due_to_failures");
    assert_eq!(o.a_o.payload, "[State: HALTED DUE TO REPEATED API FAILURES]");
    assert_eq!(o.a_o.stake, 1);
}

#[test]
fn answers_become_branch_payloads() {
    assert_eq!(branch_payload("by", "simp"), "by\n  simp");
    assert_eq!(tactic_text("[Tactic: simp ]"), "simp");
    assert_eq!(tactic_text("[Tactic:]"), "");
    assert_eq!(tactic_text("rfl"), "rfl");
    assert_eq!(
        tactic_with_call_text("[Tactic: a\\nb] [Tool: Wallet | Action: Stake | Node: self | Amount: 5]"),
        "a\nb [Tool: Wallet | Action: Stake | Node: self | Amount: 5]"
    );
    assert_eq!(tactic_with_call_text("  plain  "), "  plain  ");
    assert_eq!(
        with_wallet_call_text("[State: x]", "think [Tool: Wallet | A] more [Tool: Wallet | B] tail"),
        "[State: x] [Tool: Wallet | B]"
    );
    assert_eq!(with_wallet_call_text("s", "[Tool: Wallet unclosed"), "s");
}

#[test]
fn hanoi_agent_chains_its_steps() {
    let mut a = NetworkedHanoiAgent::new("http://x", "m7", 2);
    assert_eq!(a.begin_step(), "Provide the single action for Step 1 of the 20-disk Tower of Hanoi problem.");
    let o = a.step_output(Some("Move disk 1 from A to C".to_string()));
    assert_eq!(o.q_o, MachineState::Running);
    assert_eq!(o.a_o.file_id, "hanoi_step_1");
    assert_eq!(o.a_o.author, "NetworkAgent_m7");
    assert!(o.a_o.citations.is_empty());
    a.begin_step();
    let o = a.step_output(None);
    assert_eq!(o.q_o, MachineState::Halt);
    assert_eq!(o.a_o.payload, "LLM_NETWORK_ERROR_OR_HALLUCINATION");
    assert_eq!(o.a_o.citations, vec!["hanoi_step_1".to_string()]);
}

#[test]
fn theorem_run_stops_on_halt_budget_or_omega() {
    let mut r = TheoremRun::new(3);
    assert!(!r.finished());
    r.begin_step();
    assert!(!r.accepted(true, "a", &vec![], MachineState::Running, "step"));
    assert!(r.head.reads("a"));
    assert!(!r.accepted(false, "invest", &vec![], MachineState::Running, "x"));
    assert!(!r.head.reads("invest"));
    assert!(r.accepted(true, "b", &vec!["a".to_string()], MachineState::Halt, "[OMEGA] no goals"));
    assert!(r.finished());
    let mut budget = TheoremRun::new(1);
    budget.begin_step();
    assert!(budget.finished());
}

#[test]
fn problem_files_give_name_and_open_statement() {
    let content = "import Mathlib\n\ntheorem mathd_algebra_1 (x : Nat) : x = x := by sorry\n";
    assert_eq!(theorem_name(content), "mathd_algebra_1");
    assert_eq!(theorem_name("lemma x : True := trivial"), "unknown");
    assert_eq!(theorem_name("theorem   \n"), "unknown");
    assert_eq!(open_statement(content), "import Mathlib\n\ntheorem mathd_algebra_1 (x : Nat) : x = x := by\n\n");
    assert_eq!(
        brute_force_warnings("List.range 5 and Finset.range 10"),
        vec!["Finset.range".to_string(), "List.range".to_string()]
    );
    assert!(brute_force_warnings("forall n").is_empty());
}

#[test]
fn translator_answer_gives_its_code_block() {
    assert_eq!(extract_code("Here:\n```lean\n  simp\n  ring\n```\nDone"), "simp\n  ring");
    assert_eq!(extract_code("```\n  exact h"), "exact h");
    assert_eq!(extract_code("  no fence "), "no fence");
    assert_eq!(extract_code("```x"), "");
}

#[test]
fn constitution_flags_paid_appends_and_lean_syntax() {
    assert_eq!(
        prompt_violations("skill.txt", "Append Costs 5 coins. theorem foo"),
        vec![
            "skill.txt: violates Law 1 \u{2014} append must be FREE".to_string(),
            "skill.txt: violates Rule 22 \u{2014} Lean syntax 'theorem '".to_string(),
        ]
    );
    assert!(prompt_violations("problem.txt", "Prove the sum.").is_empty());
    assert_eq!(
        violations_in("context.txt", "X", "bundle steps; no market; edit evaluator"),
        vec![
            "context.txt: violates Law 2 \u{2014} cannot bypass market".to_string(),
            "context.txt: violates Engine separation".to_string(),
            "context.txt: violates Rule 21 \u{2014} one step per node".to_string(),
        ]
    );
}

#[test]
fn node_ids_and_memory_sections() {
    assert_eq!(tx_file_id(7, "Agent_3"), "tx_7_by_3");
    assert_eq!(
        insert_section("base\n# LIBRARIAN MEMORY\nmem", "\n# AUTOPSY x\n"),
        "base\n# AUTOPSY x\n\n# LIBRARIAN MEMORY\nmem"
    );
    assert_eq!(insert_section("base", "+"), "base+");
}
