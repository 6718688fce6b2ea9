//! The agent output protocol: the final `<action>{...}</action>` JSON
//! block (read with serde_json), and the legacy `[State: ...]` /
//! `[Tactic: ...]` / `[Tool: Wallet ...]` format as fallback.

use vstd::prelude::*;
use vstd::string::*;
use crate::sdk::membrane::{distill_pure_state, pure_state};
use crate::text::{
    contains, ends_with, find, find_from, lemma_found, lemma_rfound, replace, replace_str, rfind,
    starts_with, str_contains, str_ends_with, str_find, str_find_from, str_rfind, str_starts_with,
    substring, to_uppercase, trim, trim_owned, uppercase,
};

verus! {

broadcast use vstd::string::group_string_axioms;

// ---------------------------------------------------------------------------
// JSON action block
// ---------------------------------------------------------------------------

/// The JSON text of the last `<action>` block: the trimmed content up to the
/// following `</action>`, from its first `{` on (the whole content if it has
/// none).
pub open spec fn action_json(raw: Seq<char>) -> Option<Seq<char>> {
    match rfind(raw, "<action>"@) {
        Some(a) => {
            let js = a + "<action>"@.len();
            match find_from(raw, "</action>"@, js) {
                Some(e) => {
                    let inner = trim(raw.subrange(js, e));
                    Some(
                        match find(inner, "{"@) {
                            Some(b) => inner.subrange(b, inner.len() as int),
                            None => inner,
                        },
                    )
                },
                None => None,
            }
        },
        None => None,
    }
}

/// Locates the JSON object of the last `<action>` block of `raw`.
pub fn extract_action_json(raw: &str) -> (r: Option<String>)
    ensures
        r matches Some(s) ==> action_json(raw@) == Some(s@),
        r is None ==> action_json(raw@) is None,
{
    let _len = raw.unicode_len();
    let start = match str_rfind(raw, "<action>") {
        Some(a) => a,
        None => return None,
    };
    proof {
        reveal_strlit("<action>");
        lemma_rfound(raw@, "<action>"@, start as int);
    }
    let json_start = start + 8;
    let end = match str_find_from(raw, "</action>", json_start) {
        Some(e) => e,
        None => return None,
    };
    proof { lemma_found(raw@, "</action>"@, json_start as int, end as int); }
    let block = substring(raw, json_start, end);
    let inner = trim_owned(block.as_str());
    match str_find(inner.as_str(), "{") {
        Some(b) => {
            proof { reveal_strlit("{"); lemma_found(inner@, "{"@, 0, b as int); }
            Some(substring(inner.as_str(), b, inner.as_str().unicode_len()))
        },
        None => Some(inner),
    }
}

/// What `serde_json` reads from an action block's JSON text: `None` when it
/// is not JSON, else the strings `tool`, `tactic`, `node` and `query` and the
/// text of the number `amount`, each when present with that type.
pub uninterp spec fn json_action_fields(json: Seq<char>) -> Option<
    (Option<Seq<char>>, Option<Seq<char>>, Option<Seq<char>>, Option<Seq<char>>, Option<Seq<char>>),
>;

pub open spec fn fields_view(
    r: Option<(Option<String>, Option<String>, Option<String>, Option<String>, Option<String>)>,
) -> Option<(Option<Seq<char>>, Option<Seq<char>>, Option<Seq<char>>, Option<Seq<char>>, Option<Seq<char>>)> {
    match r {
        Some((a, b, c, d, e)) => Some((opt_view(a), opt_view(b), opt_view(c), opt_view(d), opt_view(e))),
        None => None,
    }
}

/// `serde_json::from_str` of an action block, `Value::get` and `as_str` of
/// its four string fields, and the text (`Number`'s `Display`) of its number
/// `amount`.
#[verifier::external_body]
fn read_action_json(json: &str) -> (r: Option<(Option<String>, Option<String>, Option<String>, Option<String>, Option<String>)>)
    ensures
        fields_view(r) == json_action_fields(json@),
{
    let v: serde_json::Value = serde_json::from_str(json).ok()?;
    let text = |key: &str| Some(v.get(key)?.as_str()?.to_string());
    let number = || Some(v.get("amount")?.as_number()?.to_string());
    Some((text("tool"), text("tactic"), text("node"), text("query"), number()))
}

/// An action read from a JSON `<action>` block, with the amount as the
/// text of its JSON number.
pub struct JsonAction {
    pub tool: String,
    pub tactic: Option<String>,
    pub node: Option<String>,
    pub query: Option<String>,
    pub amount: Option<String>,
}

pub struct JsonActionForm {
    pub tool: Seq<char>,
    pub tactic: Option<Seq<char>>,
    pub node: Option<Seq<char>>,
    pub query: Option<Seq<char>>,
    pub amount: Option<Seq<char>>,
}

impl View for JsonAction {
    type V = JsonActionForm;

    open spec fn view(&self) -> JsonActionForm {
        JsonActionForm {
            tool: self.tool@,
            tactic: opt_view(self.tactic),
            node: opt_view(self.node),
            query: opt_view(self.query),
            amount: opt_view(self.amount),
        }
    }
}

/// The tactic with each escaped `\n` (backslash, n) turned into a line break.
pub open spec fn unescape_tactic(t: Option<Seq<char>>) -> Option<Seq<char>> {
    match t {
        Some(s) => Some(replace(s, "\\n"@, "\n"@)),
        None => None,
    }
}

/// The action of the last `<action>` block of `raw`: none without a block,
/// without JSON in it, or without a string `tool`; else its fields, with
/// the tactic unescaped.
pub open spec fn action_block(raw: Seq<char>) -> Option<JsonActionForm> {
    match action_json(raw) {
        None => None,
        Some(js) => match json_action_fields(js) {
            None => None,
            Some((tool, tactic, node, query, amount)) => match tool {
                None => None,
                Some(t) => Some(JsonActionForm { tool: t, tactic: unescape_tactic(tactic), node, query, amount }),
            },
        },
    }
}

/// Reads the last `<action>{...}</action>` block of an agent's output.
pub fn parse_action_block(raw: &str) -> (r: Option<JsonAction>)
    ensures
        r matches Some(a) ==> action_block(raw@) == Some(a@),
        r is None ==> action_block(raw@) is None,
{
    let js = match extract_action_json(raw) {
        Some(j) => j,
        None => return None,
    };
    let (tool, tactic, node, query, amount) = match read_action_json(js.as_str()) {
        Some(f) => f,
        None => return None,
    };
    let tool = match tool {
        Some(t) => t,
        None => return None,
    };
    proof { reveal_strlit("\\n"); }
    let tactic = match tactic {
        Some(t) => Some(replace_str(t.as_str(), "\\n", "\n")),
        None => None,
    };
    Some(JsonAction { tool, tactic, node, query, amount })
}

// ---------------------------------------------------------------------------
// Wallet tag
// ---------------------------------------------------------------------------

pub open spec fn invest_tag() -> Seq<char> {
    "Action: Invest | Node: "@
}

pub open spec fn stake_tag() -> Seq<char> {
    "Action: Stake | Node: "@
}

/// Node and amount text of `[Tool: Wallet | Action: Invest/Stake | Node: X |
/// Amount: Y]`, both trimmed; the invest form is preferred when present.
pub open spec fn wallet_tag_fields(tc: Seq<char>) -> Option<(Seq<char>, Seq<char>)> {
    let tag = if contains(tc, invest_tag()) { invest_tag() } else { stake_tag() };
    match find(tc, tag) {
        Some(st) => {
            let rs = st + tag.len();
            match find_from(tc, " | Amount: "@, rs) {
                Some(ne) => {
                    let amt = ne + " | Amount: "@.len();
                    match find_from(tc, "]"@, amt) {
                        Some(ae) => Some((trim(tc.subrange(rs, ne)), trim(tc.subrange(amt, ae)))),
                        None => None,
                    }
                },
                None => None,
            }
        },
        None => None,
    }
}

/// Splits a wallet tag into its node and its (unparsed) amount.
pub fn parse_wallet_tag(tool_call: &str) -> (r: Option<(String, String)>)
    ensures
        r matches Some(p) ==> wallet_tag_fields(tool_call@) == Some((p.0@, p.1@)),
        r is None ==> wallet_tag_fields(tool_call@) is None,
{
    proof {
        reveal_strlit("Action: Invest | Node: ");
        reveal_strlit("Action: Stake | Node: ");
        reveal_strlit(" | Amount: ");
        reveal_strlit("]");
    }
    let _len = tool_call.unicode_len();
    let tag = if str_contains(tool_call, "Action: Invest | Node: ") {
        "Action: Invest | Node: "
    } else {
        "Action: Stake | Node: "
    };
    let start = match str_find(tool_call, tag) {
        Some(s) => s,
        None => return None,
    };
    proof { lemma_found(tool_call@, tag@, 0, start as int); }
    let rest = start + tag.unicode_len();
    let node_end = match str_find_from(tool_call, " | Amount: ", rest) {
        Some(e) => e,
        None => return None,
    };
    proof { lemma_found(tool_call@, " | Amount: "@, rest as int, node_end as int); }
    let amt = node_end + 11;
    let amt_end = match str_find_from(tool_call, "]", amt) {
        Some(e) => e,
        None => return None,
    };
    proof { lemma_found(tool_call@, "]"@, amt as int, amt_end as int); }
    let node = trim_owned(tool_call.substring_char(rest, node_end));
    let amount = trim_owned(tool_call.substring_char(amt, amt_end));
    Some((node, amount))
}

// ---------------------------------------------------------------------------
// Legacy format
// ---------------------------------------------------------------------------

/// What a legacy-format output asks for, with the amount still as text.
pub enum LegacyAction {
    Invest { tactic: Option<String>, node: String, amount: String },
    Search { query: String },
    Observe { tactic: Option<String> },
}

pub enum LegacyForm {
    Invest { tactic: Option<Seq<char>>, node: Seq<char>, amount: Seq<char> },
    Search { query: Seq<char> },
    Observe { tactic: Option<Seq<char>> },
}

pub open spec fn opt_view(o: Option<String>) -> Option<Seq<char>> {
    match o {
        Some(s) => Some(s@),
        None => None,
    }
}

impl View for LegacyAction {
    type V = LegacyForm;

    open spec fn view(&self) -> LegacyForm {
        match self {
            LegacyAction::Invest { tactic, node, amount } => LegacyForm::Invest {
                tactic: opt_view(*tactic),
                node: node@,
                amount: amount@,
            },
            LegacyAction::Search { query } => LegacyForm::Search { query: query@ },
            LegacyAction::Observe { tactic } => LegacyForm::Observe { tactic: opt_view(*tactic) },
        }
    }
}

pub open spec fn wallet_prefix() -> Seq<char> {
    "[Tool: Wallet"@
}

pub open spec fn oracle_prefix() -> Seq<char> {
    "[Tool: MathlibOracle | Query: "@
}

/// The text before the wallet tag (trimmed), and the wallet tag on.
pub open spec fn split_wallet(pure: Seq<char>) -> (Seq<char>, Seq<char>) {
    match find(pure, wallet_prefix()) {
        Some(i) => (trim(pure.subrange(0, i)), pure.subrange(i, pure.len() as int)),
        None => (pure, seq![]),
    }
}

/// Strips a `[Tactic: ...]` wrapper, then a `[State: ...]` wrapper.
pub open spec fn unwrap_tactic(t0: Seq<char>) -> Seq<char> {
    let t1 = if starts_with(t0, "[Tactic:"@) && ends_with(t0, "]"@) {
        replace(trim(t0.subrange(8, t0.len() - 1)), "\\n"@, "\n"@)
    } else {
        t0
    };
    if starts_with(t1, "[State:"@) && ends_with(t1, "]"@) {
        trim(t1.subrange(7, t1.len() - 1))
    } else {
        t1
    }
}

/// The query of the last `[Tool: MathlibOracle | Query: ...]` tag.
pub open spec fn oracle_query(raw: Seq<char>) -> Option<Seq<char>> {
    match rfind(raw, oracle_prefix()) {
        Some(q) => match find_from(raw, "]"@, q + 30) {
            Some(e) => Some(trim(raw.subrange(q + 30, e))),
            None => None,
        },
        None => None,
    }
}

/// The legacy reading of `raw`, once its tactic text, its wallet call and
/// the tactic in upper case are known: an investment when the tactic says
/// INVEST, else a search when `raw` holds an oracle query, else an
/// investment with the tactic, else an observation.
pub open spec fn legacy_from(raw: Seq<char>, tactic: Seq<char>, tool_call: Seq<char>, upper_tactic: Seq<char>) -> Option<LegacyForm> {
    if contains(upper_tactic, "INVEST"@) && tool_call.len() > 0 {
        match wallet_tag_fields(tool_call) {
            Some((n, a)) => Some(LegacyForm::Invest { tactic: None, node: n, amount: a }),
            None => None,
        }
    } else if oracle_query(raw) is Some {
        Some(LegacyForm::Search { query: oracle_query(raw)->0 })
    } else if tool_call.len() > 0 {
        match wallet_tag_fields(tool_call) {
            Some((n, a)) => Some(LegacyForm::Invest { tactic: Some(tactic), node: n, amount: a }),
            None => None,
        }
    } else {
        Some(LegacyForm::Observe { tactic: if tactic.len() == 0 { None } else { Some(tactic) } })
    }
}

/// The text a legacy output is read from: the `[State: ...]` content when
/// there is one, else the whole output, trimmed.
pub open spec fn legacy_text(raw: Seq<char>) -> Seq<char> {
    match pure_state(raw) {
        Some(pure) => pure,
        None => trim(raw),
    }
}

/// The legacy reading of `raw`.
pub open spec fn legacy_parse(raw: Seq<char>) -> Option<LegacyForm> {
    let (t0, tool_call) = split_wallet(legacy_text(raw));
    let tactic = unwrap_tactic(t0);
    legacy_from(raw, tactic, tool_call, uppercase(tactic))
}

/// Decides a legacy output from its parts (see `legacy_from`).
pub fn legacy_action_from(raw: &str, tactic: String, tool_call: &str, upper_tactic: &str) -> (r: Option<LegacyAction>)
    ensures
        r matches Some(a) ==> legacy_from(raw@, tactic@, tool_call@, upper_tactic@) == Some(a@),
        r is None ==> legacy_from(raw@, tactic@, tool_call@, upper_tactic@) is None,
{
    proof { reveal_strlit("INVEST"); }
    let has_tool = tool_call.unicode_len() > 0;
    if str_contains(upper_tactic, "INVEST") && has_tool {
        return match parse_wallet_tag(tool_call) {
            Some((node, amount)) => Some(LegacyAction::Invest { tactic: None, node, amount }),
            None => None,
        };
    }
    match oracle_query_exec(raw) {
        Some(query) => return Some(LegacyAction::Search { query }),
        None => {},
    }
    if has_tool {
        return match parse_wallet_tag(tool_call) {
            Some((node, amount)) => Some(LegacyAction::Invest { tactic: Some(tactic), node, amount }),
            None => None,
        };
    }
    let empty = tactic.as_str().unicode_len() == 0;
    Some(LegacyAction::Observe { tactic: if empty { None } else { Some(tactic) } })
}

fn unwrap_tactic_exec(t0: String) -> (r: String)
    ensures
        r@ == unwrap_tactic(t0@),
{
    proof {
        reveal_strlit("[Tactic:");
        reveal_strlit("[State:");
        reveal_strlit("]");
        reveal_strlit("\\n");
    }
    let t1 = if str_starts_with(t0.as_str(), "[Tactic:") && str_ends_with(t0.as_str(), "]") {
        let n = t0.as_str().unicode_len();
        assert(n >= 9) by {
            assert(t0@.subrange(0, 8) == "[Tactic:"@);
            assert(t0@.subrange(0, 8)[7] == ':');
            if n == 8 {
                assert(t0@.subrange(n - 1, n as int) == "]"@);
                assert(t0@.subrange(n - 1, n as int)[0] == ']');
            }
        }
        let inner = trim_owned(t0.as_str().substring_char(8, n - 1));
        replace_str(inner.as_str(), "\\n", "\n")
    } else {
        t0
    };
    if str_starts_with(t1.as_str(), "[State:") && str_ends_with(t1.as_str(), "]") {
        let n = t1.as_str().unicode_len();
        assert(n >= 8) by {
            assert(t1@.subrange(0, 7) == "[State:"@);
            assert(t1@.subrange(0, 7)[6] == ':');
            if n == 7 {
                assert(t1@.subrange(n - 1, n as int) == "]"@);
                assert(t1@.subrange(n - 1, n as int)[0] == ']');
            }
        }
        trim_owned(t1.as_str().substring_char(7, n - 1))
    } else {
        t1
    }
}

fn oracle_query_exec(raw: &str) -> (r: Option<String>)
    ensures
        opt_view(r) == oracle_query(raw@),
{
    proof {
        reveal_strlit("[Tool: MathlibOracle | Query: ");
        reveal_strlit("]");
    }
    let _len = raw.unicode_len();
    match str_rfind(raw, "[Tool: MathlibOracle | Query: ") {
        Some(q) => {
            proof { lemma_rfound(raw@, oracle_prefix(), q as int); }
            match str_find_from(raw, "]", q + 30) {
                Some(e) => {
                    proof { lemma_found(raw@, "]"@, q + 30, e as int); }
                    Some(trim_owned(raw.substring_char(q + 30, e)))
                },
                None => None,
            }
        },
        None => None,
    }
}

/// Reads the legacy `[State: ...]` / `[Tactic: ...]` / `[Tool: Wallet ...]`
/// output format; without a `[State: ...]` tag the whole output is read.
pub fn parse_legacy_format(raw: &str) -> (r: Option<LegacyAction>)
    ensures
        r matches Some(a) ==> legacy_parse(raw@) == Some(a@),
        r is None ==> legacy_parse(raw@) is None,
{
    let pure = match distill_pure_state(raw) {
        Some(p) => p,
        None => trim_owned(raw),
    };
    proof { reveal_strlit("[Tool: Wallet"); }
    let (t0, tool_call) = match str_find(pure.as_str(), "[Tool: Wallet") {
        Some(idx) => {
            proof { lemma_found(pure@, wallet_prefix(), 0, idx as int); }
            let n = pure.as_str().unicode_len();
            (trim_owned(pure.as_str().substring_char(0, idx)), substring(pure.as_str(), idx, n))
        },
        None => (pure, String::new()),
    };
    let tactic = unwrap_tactic_exec(t0);
    let upper = to_uppercase(tactic.as_str());
    legacy_action_from(raw, tactic, tool_call.as_str(), upper.as_str())
}

} // verus!
