use turingosv3::experiments::hanoi_1m::harness as hanoi;
use turingosv3::experiments::lean4_checks::CompileStep;
use turingosv3::experiments::minif2f_swarm::lean4_membrane::Lean4MembraneSkill;
use turingosv3::experiments::minif2f_swarm::lean4_membrane_tool::{Lean4MembraneTool, MembraneVerdict};
use turingosv3::experiments::minif2f_v2::lean4_oracle::Lean4Oracle;
use turingosv3::experiments::number_theory_min::harness as nt;
use turingosv3::experiments::zeta_sum_proof::math_membrane::MathStepMembrane;
use turingosv3::skill::SkillSignal;
use turingosv3::tool::ToolSignal;

#[test]
fn hanoi_watchdog_escalates() {
    let mut s = hanoi::AgentSupervisor::new(1, 4);
    let seen: Vec<hanoi::WatchdogState> = (0..10).map(|_| s.handle_rejection()).collect();
    assert_eq!(seen[2], hanoi::WatchdogState::Continue);
    assert_eq!(seen[3], hanoi::WatchdogState::SelfHeal);
    assert_eq!(seen[7], hanoi::WatchdogState::SelfHeal);
    assert_eq!(seen[8], hanoi::WatchdogState::SuspendAndSOS);
    s.reset_strikes();
    assert_eq!(s.strike_count, 0);
}

#[test]
fn number_theory_watchdog_escalates() {
    let mut s = nt::AgentSupervisor::new(0, 2);
    let e = nt::HarnessError::SpacetimeTimeout;
    assert_eq!(s.handle_rejection(&e), nt::WatchdogState::Continue);
    assert_eq!(s.handle_rejection(&e), nt::WatchdogState::Continue);
    assert_eq!(s.handle_rejection(&e), nt::WatchdogState::SelfHeal);
    assert_eq!(s.handle_rejection(&e), nt::WatchdogState::SuspendAndSOS);
}

#[test]
fn math_membrane_measures_last_line() {
    let mut m = MathStepMembrane::new();
    match m.on_pre_append::<f64>("a", "Problem statement that is long enough\n  short  ") {
        ToolSignal::Veto(r) => assert_eq!(r, "Step too short (5 chars). Write a real mathematical reasoning step."),
        _ => panic!("expected veto"),
    }
    assert!(matches!(m.on_pre_append::<f64>("a", "P\nThis step has more than twenty bytes"), ToolSignal::Pass));
    match m.on_pre_append::<f64>("a", "ééééééééé") {
        ToolSignal::Veto(r) => assert_eq!(r, "Step too short (18 chars). Write a real mathematical reasoning step."),
        _ => panic!("expected veto"),
    }
}

fn oracle() -> Lean4Oracle<()> {
    Lean4Oracle::new("theorem t1 (x : Nat) : x = x := by\n".to_string(), "t1".to_string(), ())
}

#[test]
fn oracle_prechecks() {
    let o = oracle();
    assert!(o.check_identity_theft("theorem other : True := by trivial"));
    assert!(!o.check_identity_theft("rfl"));
    assert!(o.check_identity_theft("theorem t1 (x : Nat) : x = x := by\nlemma evil : False"));
    assert_eq!(o.check_sorry("theorem t1 := by sorry"), Some("Forbidden: 'sorry' detected".to_string()));
    assert_eq!(o.check_sorry("exact sorry_lemma"), None);
    match o.begin::<f64>("native_decide") {
        CompileStep::Decided(ToolSignal::Veto(m)) => assert_eq!(m, "Forbidden tactic: native_decide"),
        _ => panic!("expected veto"),
    }
    match o.begin::<f64>("rfl") {
        CompileStep::Compile { code, gas_secs } => {
            assert_eq!(code, "theorem t1 (x : Nat) : x = x := by\n  rfl\n  sorry");
            assert_eq!(gas_secs, 16);
        }
        _ => panic!("expected compile"),
    }
}

#[test]
fn oracle_reads_compiler_results() {
    let o = oracle();
    match o.after_test::<f64>("rfl", &Ok("error: No goals to be solved".to_string())) {
        CompileStep::Decided(ToolSignal::Modify(m)) => assert_eq!(m, "rfl\n  -- [OMEGA:03b17cc758d1492dc24d53ba008e4ed6]"),
        _ => panic!("expected omega"),
    }
    match o.after_test::<f64>("rfl", &Err("error: type mismatch".to_string())) {
        CompileStep::Decided(ToolSignal::Veto(m)) => assert_eq!(m, "Compiler Error:\nerror: type mismatch"),
        _ => panic!("expected veto"),
    }
    assert!(matches!(o.after_test::<f64>("rfl", &Err("No goals to be solved\nerror: other".to_string())), CompileStep::Compile { .. }));
    let first: Result<String, String> = Ok("warning".to_string());
    assert!(matches!(o.after_recheck::<f64>("rfl", &first, &Ok("error: unsolved".to_string())), ToolSignal::Pass));
    assert!(matches!(o.after_recheck::<f64>("rfl", &first, &Ok("ok".to_string())), ToolSignal::Modify(_)));
    let long_err: Result<String, String> = Err("e".repeat(600));
    match o.after_recheck::<f64>("rfl", &long_err, &Err("x".to_string())) {
        ToolSignal::Veto(m) => assert_eq!(m.len(), "Compiler Error:\n".len() + 500),
        _ => panic!("expected veto"),
    }
}

#[test]
fn membrane_tool_steps() {
    let t = Lean4MembraneTool::new("theorem t2 : True := by".to_string(), "t2".to_string(), ());
    match t.begin("theorem t2 : True := by\n  #eval 1") {
        CompileStep::Decided(MembraneVerdict::Veto(m)) => assert_eq!(m, "Physics Violation: Tactic '#eval' is locked in this universe."),
        _ => panic!("expected veto"),
    }
    match t.begin("unrelated") {
        CompileStep::Decided(MembraneVerdict::Veto(m)) => assert_eq!(m, "Identity Theft: Payload does not target theorem t2"),
        _ => panic!("expected veto"),
    }
    match t.begin("theorem t2 : True := by\n  trivial") {
        CompileStep::Compile { code, gas_secs } => {
            assert_eq!(code, "theorem t2 : True := by\n  trivial\n  sorry");
            assert_eq!(gas_secs, 11);
        }
        _ => panic!("expected compile"),
    }
    let t3 = Lean4MembraneTool::with_config("".to_string(), "t".to_string(), (), vec!["decide".to_string()]);
    assert!(matches!(t3.begin("t decide"), CompileStep::Decided(MembraneVerdict::Veto(_))));
    match t.after_test("p", &Err("No goals to be solved".to_string())) {
        CompileStep::Decided(MembraneVerdict::Omega(m)) => assert_eq!(m, "p\n  -- [OMEGA]"),
        _ => panic!("expected omega"),
    }
}

#[test]
fn membrane_skill_steps() {
    let s = Lean4MembraneSkill::new("".to_string(), "t3".to_string(), ());
    assert!(s.check_identity_theft("theorem t3 : 1 = 1 := rfl\ntheorem t4 : 2 = 2 := rfl"));
    assert!(!s.check_identity_theft("theorem t3 : 1 = 1 := rfl"));
    match s.after_test::<f64>("p", &Err("boom".to_string())) {
        CompileStep::Decided(SkillSignal::Veto(m)) => assert_eq!(m, "Compiler/Sandbox Error:\nboom"),
        _ => panic!("expected veto"),
    }
    assert!(matches!(s.after_recheck::<f64>("p", &Ok("".to_string())), SkillSignal::Modify(_)));
}
