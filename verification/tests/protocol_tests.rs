use turingosv3::sdk::membrane::distill_pure_state;
use turingosv3::sdk::prompt::lean4_tools;
use turingosv3::sdk::protocol::{
    extract_action_json, parse_action_block, parse_legacy_format, parse_wallet_tag, LegacyAction,
};
use turingosv3::sdk::tools::wallet::{bet_target, is_self_target, parse_payment, strip_wallet_tag};
use turingosv3::tool::BetDirection;

#[test]
fn distill_takes_last_state_block() {
    let raw = "<think>[State: draft]</think> final: [State: Peg 1: [2]  ] tail";
    assert_eq!(distill_pure_state(raw), Some("[State: Peg 1: [2]".to_string()));
    assert_eq!(distill_pure_state("no state here"), None);
    assert_eq!(distill_pure_state("[State: unterminated"), None);
}

#[test]
fn action_json_is_the_last_block_from_its_brace() {
    let raw = "<action>{\"tool\":\"a\"}</action> thinking <action> append: {\"tool\":\"invest\"} </action>";
    assert_eq!(extract_action_json(raw), Some("{\"tool\":\"invest\"}".to_string()));
    assert_eq!(extract_action_json("<action>  plain  </action>"), Some("plain".to_string()));
    assert_eq!(extract_action_json("<action>{\"tool\":\"x\"}"), None);
    assert_eq!(extract_action_json("nothing"), None);
}

#[test]
fn wallet_tag_fields_are_trimmed() {
    let tag = "[Tool: Wallet | Action: Invest | Node:  n7  | Amount:  12.5 ]";
    assert_eq!(parse_wallet_tag(tag), Some(("n7".to_string(), "12.5".to_string())));
    let stake = "[Tool: Wallet | Action: Stake | Node: self | Amount: 3]";
    assert_eq!(parse_wallet_tag(stake), Some(("self".to_string(), "3".to_string())));
    assert_eq!(parse_wallet_tag("[Tool: Wallet | Action: Invest | Node: x]"), None);
}

#[test]
fn legacy_invest_uses_uppercased_state() {
    let raw = "[State: invest [Tool: Wallet | Action: Invest | Node: n3 | Amount: 40]";
    match parse_legacy_format(raw) {
        Some(LegacyAction::Invest { tactic, node, amount }) => {
            assert_eq!(tactic, None);
            assert_eq!(node, "n3");
            assert_eq!(amount, "40");
        }
        _ => panic!("expected invest"),
    }
}

#[test]
fn legacy_tactic_with_wallet_mines() {
    let raw = "[State: mine [Tool: Wallet | Action: Stake | Node: self | Amount: 5]";
    match parse_legacy_format(raw) {
        Some(LegacyAction::Invest { tactic, node, amount }) => {
            assert_eq!(tactic, Some("[State: mine".to_string()));
            assert_eq!(node, "self");
            assert_eq!(amount, "5");
        }
        _ => panic!("expected invest"),
    }
}

#[test]
fn legacy_tactic_wrapper_is_unwrapped() {
    match parse_legacy_format("[State: [Tactic: simp\\nring]") {
        Some(LegacyAction::Observe { tactic }) => assert_eq!(tactic, Some("[Tactic: simp\\nring".to_string())),
        _ => panic!("expected observe"),
    }
}

#[test]
fn legacy_search_and_observe() {
    let raw = "[Tool: MathlibOracle | Query:  zeta  ] [State: thinking]";
    match parse_legacy_format(raw) {
        Some(LegacyAction::Search { query }) => assert_eq!(query, "zeta"),
        _ => panic!("expected search"),
    }
    match parse_legacy_format("[State: just looking]") {
        Some(LegacyAction::Observe { tactic }) => assert_eq!(tactic, Some("just looking".to_string())),
        _ => panic!("expected observe"),
    }
    match parse_legacy_format("  no state ") {
        Some(LegacyAction::Observe { tactic }) => assert_eq!(tactic, Some("no state".to_string())),
        _ => panic!("expected observe of the whole text"),
    }
}

#[test]
fn legacy_format_without_state_tag_is_read_whole() {
    let raw = "[Tactic: simp] [Tool: Wallet | Action: Invest | Node: self | Amount: 5.0]";
    match parse_legacy_format(raw) {
        Some(LegacyAction::Invest { tactic, node, amount }) => {
            assert_eq!(tactic, Some("simp".to_string()));
            assert_eq!(node, "self");
            assert_eq!(amount, "5.0");
        }
        _ => panic!("expected invest"),
    }
}

#[test]
fn json_action_block_is_read() {
    let raw = "thinking... <action>append: {\"tool\":\"invest\",\"tactic\":\"simp\\\\nring\",\"amount\":50.0,\"node\":\"tx_1_by_2\"}</action>";
    let a = parse_action_block(raw).expect("an action");
    assert_eq!(a.tool, "invest");
    assert_eq!(a.tactic, Some("simp\nring".to_string()));
    assert_eq!(a.node, Some("tx_1_by_2".to_string()));
    assert_eq!(a.query, None);
    assert_eq!(a.amount.as_deref().map(|t| t.parse::<f64>().unwrap()), Some(50.0));
    let s = parse_action_block("<action>{\"tool\":\"search\",\"query\":\"zeta\",\"amount\":\"x\"}</action>").unwrap();
    assert_eq!(s.query, Some("zeta".to_string()));
    assert_eq!(s.amount, None);
    assert_eq!(parse_action_block("<action>{\"tactic\":\"simp\"}</action>").map(|a| a.tool), None);
    assert!(parse_action_block("<action>not json</action>").is_none());
    assert!(parse_action_block("no block").is_none());
    let n = parse_action_block("<action>{\"tool\":\"invest\",\"amount\":7}</action>").unwrap();
    assert_eq!(n.amount, Some("7".to_string()));
}

#[test]
fn payment_tag_prefers_invest() {
    let p = "step [Tool: Wallet | Action: Stake | Node: a | Amount: 1] [Tool: Wallet | Action: Invest | Node: b | Amount: 2]";
    assert_eq!(parse_payment(p), Some(("b".to_string(), "2".to_string())));
    assert_eq!(parse_payment("nothing"), None);
    assert_eq!(strip_wallet_tag("  proof step [Tool: Wallet | x]"), "proof step");
    assert_eq!(strip_wallet_tag(" plain "), "plain");
}

#[test]
fn bet_targets_and_self() {
    assert_eq!(bet_target("SHORT:n9"), ("n9".to_string(), BetDirection::Short));
    assert_eq!(bet_target("n9"), ("n9".to_string(), BetDirection::Long));
    assert!(is_self_target("SeLf"));
    assert!(!is_self_target("selfish"));
}

#[test]
fn lean4_tools_text() {
    assert!(lean4_tools().starts_with("Available tools"));
    assert!(lean4_tools().contains("\"tool\":\"search\""));
}
