//! The text side of the wallet: reading `[Tool: Wallet ...]` tags.

use vstd::prelude::*;
use vstd::string::*;
use crate::text::{
    contains, find, find_from, lemma_found, lowercase, str_contains, starts_with, str_find, str_find_from,
    str_starts_with, substring, to_lowercase, trim, trim_owned,
};
use crate::tool::BetDirection;

verus! {

broadcast use vstd::string::group_string_axioms;

pub open spec fn invest_payment_tag() -> Seq<char> {
    "[Tool: Wallet | Action: Invest | Node: "@
}

pub open spec fn stake_payment_tag() -> Seq<char> {
    "[Tool: Wallet | Action: Stake | Node: "@
}

/// Target node and amount text of the payment tag in `payload`: the first
/// invest tag, or else the first stake tag; both fields trimmed.
pub open spec fn payment_fields(payload: Seq<char>) -> Option<(Seq<char>, Seq<char>)> {
    let found = match find(payload, invest_payment_tag()) {
        Some(p) => Some((p, invest_payment_tag().len())),
        None => match find(payload, stake_payment_tag()) {
            Some(p) => Some((p, stake_payment_tag().len())),
            None => None,
        },
    };
    match found {
        None => None,
        Some((p, tl)) => {
            let rs = p + tl;
            match find_from(payload, " | Amount: "@, rs) {
                None => None,
                Some(ne) => {
                    let amt = ne + 11;
                    match find_from(payload, "]"@, amt) {
                        None => None,
                        Some(ae) => Some((trim(payload.subrange(rs, ne)), trim(payload.subrange(amt, ae)))),
                    }
                },
            }
        },
    }
}

/// Appending is free: only a payload with a wallet call, from an agent other
/// than the system, goes through the wallet.
pub open spec fn pays(author: Seq<char>, payload: Seq<char>) -> bool {
    author != "System"@ && contains(payload, "[Tool: Wallet"@)
}

pub fn payment_required(author: &str, payload: &str) -> (b: bool)
    ensures
        b == pays(author@, payload@),
{
    let a = author.to_owned();
    let system = String::from_str("System");
    !(a == system) && str_contains(payload, "[Tool: Wallet")
}

/// Reads the payment tag of a payload: its target node and its amount as
/// text (the caller parses the amount, 0 when it is not a number).
pub fn parse_payment(payload: &str) -> (r: Option<(String, String)>)
    ensures
        r matches Some(p) ==> payment_fields(payload@) == Some((p.0@, p.1@)),
        r is None ==> payment_fields(payload@) is None,
{
    proof {
        reveal_strlit("[Tool: Wallet | Action: Invest | Node: ");
        reveal_strlit("[Tool: Wallet | Action: Stake | Node: ");
        reveal_strlit(" | Amount: ");
        reveal_strlit("]");
    }
    let _len = payload.unicode_len();
    let (start, tag_len) = match str_find(payload, "[Tool: Wallet | Action: Invest | Node: ") {
        Some(p) => {
            proof { lemma_found(payload@, invest_payment_tag(), 0, p as int); }
            (p, 39usize)
        },
        None => match str_find(payload, "[Tool: Wallet | Action: Stake | Node: ") {
            Some(p) => {
                proof { lemma_found(payload@, stake_payment_tag(), 0, p as int); }
                (p, 38usize)
            },
            None => return None,
        },
    };
    let rest = start + tag_len;
    let node_end = match str_find_from(payload, " | Amount: ", rest) {
        Some(e) => e,
        None => return None,
    };
    proof { lemma_found(payload@, " | Amount: "@, rest as int, node_end as int); }
    let amt = node_end + 11;
    let amt_end = match str_find_from(payload, "]", amt) {
        Some(e) => e,
        None => return None,
    };
    proof { lemma_found(payload@, "]"@, amt as int, amt_end as int); }
    Some((trim_owned(payload.substring_char(rest, node_end)), trim_owned(payload.substring_char(amt, amt_end))))
}

/// The payload without its wallet tag: the text before the first
/// `[Tool: Wallet`, trimmed.
pub open spec fn strip_wallet_tag_spec(payload: Seq<char>) -> Seq<char> {
    match find(payload, "[Tool: Wallet"@) {
        Some(i) => trim(payload.subrange(0, i)),
        None => trim(payload),
    }
}

pub fn strip_wallet_tag(payload: &str) -> (r: String)
    ensures
        r@ == strip_wallet_tag_spec(payload@),
{
    match str_find(payload, "[Tool: Wallet") {
        Some(i) => {
            proof { lemma_found(payload@, "[Tool: Wallet"@, 0, i as int); }
            trim_owned(payload.substring_char(0, i))
        },
        None => trim_owned(payload),
    }
}

/// The investor names its own new node.
pub open spec fn is_self_target_spec(target: Seq<char>) -> bool {
    lowercase(target) == "self"@
}

/// Whether a target already in lower case names the investor's own node.
pub fn is_self_word(lower: &str) -> (b: bool)
    ensures
        b == (lower@ == "self"@),
{
    let low = lower.to_owned();
    let s = String::from_str("self");
    low == s
}

pub fn is_self_target(target: &str) -> (b: bool)
    ensures
        b == is_self_target_spec(target@),
{
    let low = to_lowercase(target);
    is_self_word(low.as_str())
}

/// A `SHORT:` prefix bets against the node that follows it; anything else
/// bets on the named node.
pub open spec fn bet_target_spec(target: Seq<char>) -> (Seq<char>, BetDirection) {
    if starts_with(target, "SHORT:"@) {
        (target.subrange(6, target.len() as int), BetDirection::Short)
    } else {
        (target, BetDirection::Long)
    }
}

pub fn bet_target(target: &str) -> (r: (String, BetDirection))
    ensures
        (r.0@, r.1) == bet_target_spec(target@),
{
    proof { reveal_strlit("SHORT:"); }
    if str_starts_with(target, "SHORT:") {
        let n = target.unicode_len();
        (substring(target, 6, n), BetDirection::Short)
    } else {
        (target.to_owned(), BetDirection::Long)
    }
}

/// A payload without an invest tag is read by its first stake tag: when
/// `[Tool: Wallet | Action: Stake | Node: ` is followed by ` | Amount: ` and
/// then `]`, the payment is the trimmed node and amount between them.
pub proof fn stake_tag_is_read(payload: Seq<char>, p: int, ne: int, ae: int)
    requires
        !contains(payload, "[Tool: Wallet | Action: Invest | Node: "@),
        find(payload, "[Tool: Wallet | Action: Stake | Node: "@) == Some(p),
        find_from(payload, " | Amount: "@, p + 38) == Some(ne),
        find_from(payload, "]"@, ne + 11) == Some(ae),
    ensures
        payment_fields(payload) == Some((trim(payload.subrange(p + 38, ne)), trim(payload.subrange(ne + 11, ae)))),
{
    reveal_strlit("[Tool: Wallet | Action: Stake | Node: ");
}

/// A payload with an invest tag is read by its first invest tag, whatever
/// stake tags it also holds.
pub proof fn invest_tag_is_read(payload: Seq<char>, p: int, ne: int, ae: int)
    requires
        find(payload, "[Tool: Wallet | Action: Invest | Node: "@) == Some(p),
        find_from(payload, " | Amount: "@, p + 39) == Some(ne),
        find_from(payload, "]"@, ne + 11) == Some(ae),
    ensures
        payment_fields(payload) == Some((trim(payload.subrange(p + 39, ne)), trim(payload.subrange(ne + 11, ae)))),
{
    reveal_strlit("[Tool: Wallet | Action: Invest | Node: ");
}

/// No payment is read only when no tag is found, or the tag found first
/// lacks ` | Amount: ` or the closing `]` after it.
pub proof fn unread_payment_has_no_complete_tag(payload: Seq<char>)
    requires
        payment_fields(payload) is None,
    ensures
        ({
            let tag_end = match find(payload, "[Tool: Wallet | Action: Invest | Node: "@) {
                Some(p) => Some(p + 39),
                None => match find(payload, "[Tool: Wallet | Action: Stake | Node: "@) {
                    Some(p) => Some(p + 38),
                    None => None,
                },
            };
            match tag_end {
                None => true,
                Some(rs) => match find_from(payload, " | Amount: "@, rs) {
                    None => true,
                    Some(ne) => find_from(payload, "]"@, ne + 11) is None,
                },
            }
        }),
{
    reveal_strlit("[Tool: Wallet | Action: Invest | Node: ");
    reveal_strlit("[Tool: Wallet | Action: Stake | Node: ");
}

} // verus!
