use turingosv3::bus::{Graveyard, MembraneGuardTool, ThermodynamicHeartbeatTool};
use turingosv3::skill::{AntiZombiePruningSkill, SkillSignal};
use turingosv3::tool::{AntiZombiePruningTool, ToolSignal};

#[test]
fn graveyard_report_lists_reasons_in_order() {
    let mut g = Graveyard::new();
    assert_eq!(g.get_tombstones("n"), "");
    g.record_death("n", "first");
    g.record_death("n", "second");
    g.record_death("n", "first");
    assert_eq!(
        g.get_tombstones("n"),
        "\n=== GRAVEYARD: RECENT BANKRUPTCIES ON THIS NODE ===\nFailure 1: first\nFailure 2: second\n=====================================================\n"
    );
}

#[test]
fn graveyard_keeps_ten_most_recent() {
    let mut g = Graveyard::new();
    for i in 0..12 {
        g.record_death("n", &format!("r{}", i));
    }
    let report = g.get_tombstones("n");
    assert!(!report.contains("Failure 11"));
    assert!(report.contains("Failure 1: r2\n"));
    assert!(report.contains("Failure 10: r11\n"));
    assert_eq!(g.tombstones.get("n").unwrap().len(), 10);
}

#[test]
fn membrane_guard_vetoes_paradox() {
    let mut m = MembraneGuardTool;
    match m.on_pre_append::<f64>("a", "this is a paradox") {
        ToolSignal::Veto(r) => assert_eq!(r, "Membrane rejected payload"),
        _ => panic!("expected veto"),
    }
    assert!(matches!(m.on_pre_append::<f64>("a", "fine"), ToolSignal::Pass));
}

#[test]
fn heartbeat_reduces_every_threshold_appends() {
    let mut h = ThermodynamicHeartbeatTool::new(10);
    assert!(h.should_skip_reduce(5));
    assert!(!h.should_skip_reduce(10));
    assert_eq!(h.last_mr_volume, 10);
    assert!(h.should_skip_reduce(19));
    assert!(!h.should_skip_reduce(20));
}

#[test]
fn zombie_repetition_is_vetoed() {
    let mut t = AntiZombiePruningTool::new(3);
    let payload = "simp\n-- comment\n  simp  \n\nsimp\nring";
    match t.on_pre_append::<f64>("a", payload) {
        ToolSignal::Veto(r) => assert_eq!(r, "Zombie Behavior: LLM is trapped in a useless tactic loop 'simp'."),
        _ => panic!("expected veto"),
    }
    assert!(matches!(t.on_pre_append::<f64>("a", "simp\nsimp\nring"), ToolSignal::Pass));
}

#[test]
fn zombie_period_two_cycle_is_vetoed() {
    let mut t = AntiZombiePruningTool::new(5);
    match t.on_pre_append::<f64>("a", "intro\nA\nB\nA\nB\nA") {
        ToolSignal::Veto(r) => assert_eq!(r, "Zombie Behavior: LLM trapped in period-2 cycle 'A' <-> 'B'"),
        _ => panic!("expected veto"),
    }
    assert!(matches!(t.on_pre_append::<f64>("a", "A\nB\nA\nB"), ToolSignal::Pass));
}

#[test]
fn zombie_skill_has_no_cycle_check() {
    let mut s = AntiZombiePruningSkill::new(5);
    assert!(matches!(s.on_pre_append::<f64>("intro\nA\nB\nA\nB\nA"), SkillSignal::Pass));
    let mut s2 = AntiZombiePruningSkill::new(2);
    assert!(matches!(s2.on_pre_append::<f64>("x\r\nx"), SkillSignal::Veto(_)));
}
