use turingosv3::maker_milestone::answer_verdict_from;
use turingosv3::sdk::protocol::{legacy_action_from, LegacyAction};
use turingosv3::sdk::tools::search::sanitize_query_given;
use turingosv3::sdk::tools::wallet::{is_self_word, payment_required};

#[test]
fn legacy_decision_from_parts() {
    let call = "[Tool: Wallet | Action: Invest | Node: n9 | Amount: 12]";
    match legacy_action_from("raw", "please invest".to_string(), call, "PLEASE INVEST") {
        Some(LegacyAction::Invest { tactic, node, amount }) => {
            assert_eq!(tactic, None);
            assert_eq!(node, "n9");
            assert_eq!(amount, "12");
        }
        _ => panic!("the upper-cased tactic says INVEST"),
    }
    match legacy_action_from("raw", "please invest".to_string(), call, "please invest") {
        Some(LegacyAction::Invest { tactic, .. }) => assert_eq!(tactic, Some("please invest".to_string())),
        _ => panic!("a wallet call without INVEST mines with the tactic"),
    }
    match legacy_action_from("[Tool: MathlibOracle | Query: primes]", "t".to_string(), "", "T") {
        Some(LegacyAction::Search { query }) => assert_eq!(query, "primes"),
        _ => panic!("an oracle query is a search"),
    }
    match legacy_action_from("raw", String::new(), "", "") {
        Some(LegacyAction::Observe { tactic }) => assert_eq!(tactic, None),
        _ => panic!("nothing else is an observation"),
    }
    assert!(legacy_action_from("raw", "t".to_string(), "[Tool: Wallet broken", "T").is_none());
}

#[test]
fn answer_verdict_from_what_was_read() {
    assert!(answer_verdict_from(&Some((Some(true), Some(false), None)), "", "X"));
    assert!(!answer_verdict_from(&Some((None, Some(false), None)), "", "PASS"));
    assert!(answer_verdict_from(&Some((None, None, Some("ok".to_string()))), "SUCCESS", "X"));
    assert!(!answer_verdict_from(&Some((None, None, Some("no".to_string()))), "NO", "X"));
    assert!(answer_verdict_from(&None, "", "RUN: FINAL_ANSWER_CORRECT=TRUE"));
    assert!(answer_verdict_from(&None, "", "CORRECT"));
    assert!(!answer_verdict_from(&None, "", "CORRECT!"));
}

#[test]
fn query_sanitizing_given_alphanumeric_flags() {
    let flags = vec![true, false, true, false, false];
    assert_eq!(sanitize_query_given("a-b.!", &flags), Some("ab.".to_string()));
    assert_eq!(sanitize_query_given("!!", &vec![false, false]), None);
    assert_eq!(sanitize_query_given("xy", &vec![false, false]), None);
}

#[test]
fn self_target_word() {
    assert!(is_self_word("self"));
    assert!(!is_self_word("SELF"));
    assert!(!is_self_word("self "));
}

#[test]
fn appending_is_free_without_a_wallet_call() {
    assert!(!payment_required("Agent_1", "[State: a plain step]"));
    assert!(!payment_required("System", "x [Tool: Wallet | Action: Stake | Node: self | Amount: 5]"));
    assert!(payment_required("Agent_1", "x [Tool: Wallet | Action: Stake | Node: self | Amount: 5]"));
}
