//! The constitutional check on the prompt files that an automated search may
//! edit, and the names and memory sections the evaluator writes.

use vstd::prelude::*;
use vstd::string::*;
use crate::text::{
    contains, decimal, decimal_string_u64, find, lemma_found, lowercase, replace, replace_str,
    str_contains, str_find, substring, to_lowercase,
};

verus! {

broadcast use vstd::string::group_string_axioms;

/// Phrases that make appending cost money (Law 1: appending is free).
pub open spec fn breaks_law1(lower: Seq<char>) -> bool {
    contains(lower, "append costs"@) || contains(lower, "append fee"@)
        || contains(lower, "pay to append"@) || contains(lower, "append is not free"@)
}

/// Phrases that go around the market (Law 2).
pub open spec fn breaks_law2(lower: Seq<char>) -> bool {
    contains(lower, "ignore price"@) || contains(lower, "skip market"@)
        || contains(lower, "always invest"@) || contains(lower, "free invest"@)
        || contains(lower, "bypass market"@) || contains(lower, "no market"@)
}

/// Phrases that reach into the engine.
pub open spec fn breaks_separation(lower: Seq<char>) -> bool {
    contains(lower, "modify kernel"@) || contains(lower, "change bus"@)
        || contains(lower, "edit evaluator"@) || contains(lower, "override predicate"@)
}

/// Phrases that bundle steps (one step per node).
pub open spec fn breaks_one_step(lower: Seq<char>) -> bool {
    contains(lower, "multiple steps in one"@) || contains(lower, "bundle steps"@)
}

/// Lean syntax, which has no place in the agents' prompts.
pub open spec fn lean_patterns() -> Seq<Seq<char>> {
    seq![
        "theorem "@, "lemma "@, "by exact"@, "by simp"@, "by omega"@, "by decide"@, "#check"@,
        "import Mathlib"@, "open Finset"@, "noncomputable"@,
    ]
}

pub open spec fn lean_message(fname: Seq<char>, pat: Seq<char>) -> Seq<char> {
    fname + ": violates Rule 22 \u{2014} Lean syntax '"@ + pat + "'"@
}

/// One message per Lean pattern that occurs in `content`.
pub open spec fn lean_violations(fname: Seq<char>, content: Seq<char>, pats: Seq<Seq<char>>) -> Seq<Seq<char>>
    decreases pats.len(),
{
    if pats.len() == 0 {
        seq![]
    } else {
        let rest = lean_violations(fname, content, pats.drop_last());
        if contains(content, pats.last()) { rest.push(lean_message(fname, pats.last())) } else { rest }
    }
}

pub open spec fn when(b: bool, m: Seq<char>) -> Seq<Seq<char>> {
    if b { seq![m] } else { seq![] }
}

/// The violations found in one prompt file, given its text and its text in
/// lower case, in the order the checks are made.
pub open spec fn violations_of(fname: Seq<char>, content: Seq<char>, lower: Seq<char>) -> Seq<Seq<char>> {
    when(breaks_law1(lower), fname + ": violates Law 1 \u{2014} append must be FREE"@)
        + when(breaks_law2(lower), fname + ": violates Law 2 \u{2014} cannot bypass market"@)
        + lean_violations(fname, content, lean_patterns())
        + when(breaks_separation(lower), fname + ": violates Engine separation"@)
        + when(breaks_one_step(lower), fname + ": violates Rule 21 \u{2014} one step per node"@)
}

fn message(fname: &str, tail: &str) -> (r: String)
    ensures
        r@ == fname@ + tail@,
{
    let mut r = fname.to_owned();
    r.append(tail);
    r
}

/// The violations of a prompt file whose lower-case text is `lower`.
pub fn violations_in(fname: &str, content: &str, lower: &str) -> (r: Vec<String>)
    ensures
        r@.map_values(|s: String| s@) == violations_of(fname@, content@, lower@),
{
    let mut r: Vec<String> = Vec::new();
    let ghost fv = fname@;
    if str_contains(lower, "append costs") || str_contains(lower, "append fee")
        || str_contains(lower, "pay to append") || str_contains(lower, "append is not free") {
        r.push(message(fname, ": violates Law 1 \u{2014} append must be FREE"));
    }
    let ghost r1 = r@.map_values(|s: String| s@);
    assert(r1 =~= when(breaks_law1(lower@), fv + ": violates Law 1 \u{2014} append must be FREE"@));
    if str_contains(lower, "ignore price") || str_contains(lower, "skip market")
        || str_contains(lower, "always invest") || str_contains(lower, "free invest")
        || str_contains(lower, "bypass market") || str_contains(lower, "no market") {
        r.push(message(fname, ": violates Law 2 \u{2014} cannot bypass market"));
    }
    let ghost r2 = r@.map_values(|s: String| s@);
    assert(r2 =~= r1 + when(breaks_law2(lower@), fv + ": violates Law 2 \u{2014} cannot bypass market"@));
    let pats = [
        "theorem ", "lemma ", "by exact", "by simp", "by omega", "by decide", "#check",
        "import Mathlib", "open Finset", "noncomputable",
    ];
    let ghost ps = lean_patterns();
    assert(pats@.map_values(|p: &str| p@) =~= ps);
    let mut i: usize = 0;
    while i < 10
        invariant
            i <= 10,
            pats@.len() == 10,
            pats@.map_values(|p: &str| p@) == ps,
            ps == lean_patterns(),
            fv == fname@,
            r@.map_values(|s: String| s@) == r2 + lean_violations(fv, content@, ps.subrange(0, i as int)),
        decreases 10 - i,
    {
        let p = pats[i];
        assert(p@ == ps[i as int]);
        assert(ps.subrange(0, i + 1).drop_last() =~= ps.subrange(0, i as int));
        assert(ps.subrange(0, i + 1).last() == ps[i as int]);
        let ghost before = r@.map_values(|s: String| s@);
        if str_contains(content, p) {
            let mut m = fname.to_owned();
            m.append(": violates Rule 22 \u{2014} Lean syntax '");
            m.append(p);
            m.append("'");
            assert(m@ == lean_message(fv, p@));
            r.push(m);
            assert(r@.map_values(|s: String| s@) =~= before.push(lean_message(fv, p@)));
        }
        assert(r@.map_values(|s: String| s@) =~= r2 + lean_violations(fv, content@, ps.subrange(0, i + 1)));
        i = i + 1;
    }
    assert(ps.subrange(0, 10) =~= ps);
    let ghost r3 = r@.map_values(|s: String| s@);
    if str_contains(lower, "modify kernel") || str_contains(lower, "change bus")
        || str_contains(lower, "edit evaluator") || str_contains(lower, "override predicate") {
        r.push(message(fname, ": violates Engine separation"));
    }
    let ghost r4 = r@.map_values(|s: String| s@);
    assert(r4 =~= r3 + when(breaks_separation(lower@), fv + ": violates Engine separation"@));
    if str_contains(lower, "multiple steps in one") || str_contains(lower, "bundle steps") {
        r.push(message(fname, ": violates Rule 21 \u{2014} one step per node"));
    }
    assert(r@.map_values(|s: String| s@) =~= r4 + when(breaks_one_step(lower@), fv + ": violates Rule 21 \u{2014} one step per node"@));
    r
}

/// The violations of a prompt file: the phrase checks read its lower-case
/// text, the Lean checks its text as written.
pub fn prompt_violations(fname: &str, content: &str) -> (r: Vec<String>)
    ensures
        r@.map_values(|s: String| s@) == violations_of(fname@, content@, lowercase(content@)),
{
    let lower = to_lowercase(content);
    violations_in(fname, content, lower.as_str())
}

// ---------------------------------------------------------------------------
// Node ids and agent memory
// ---------------------------------------------------------------------------

/// The id of the node made from transaction `n` of `agent_id`:
/// `tx_<n>_by_<agent number>`.
pub open spec fn tx_node_id(n: u64, agent_id: Seq<char>) -> Seq<char> {
    "tx_"@ + decimal(n as nat) + "_by_"@ + replace(agent_id, "Agent_"@, ""@)
}

pub fn tx_file_id(n: u64, agent_id: &str) -> (r: String)
    ensures
        r@ == tx_node_id(n, agent_id@),
{
    proof { reveal_strlit("Agent_"); }
    let mut r = String::from_str("tx_");
    r.append(decimal_string_u64(n).as_str());
    r.append("_by_");
    r.append(replace_str(agent_id, "Agent_", "").as_str());
    r
}

/// An agent's memory with a new section placed before the librarian's
/// section (so that the next compression keeps it), or at the end.
pub open spec fn with_section(existing: Seq<char>, section: Seq<char>) -> Seq<char> {
    match find(existing, "\n# LIBRARIAN MEMORY"@) {
        Some(i) => existing.subrange(0, i) + section + existing.subrange(i, existing.len() as int),
        None => existing + section,
    }
}

pub fn insert_section(existing: &str, section: &str) -> (r: String)
    ensures
        r@ == with_section(existing@, section@),
{
    let n = existing.unicode_len();
    match str_find(existing, "\n# LIBRARIAN MEMORY") {
        Some(i) => {
            proof { lemma_found(existing@, "\n# LIBRARIAN MEMORY"@, 0, i as int); }
            let mut r = substring(existing, 0, i);
            r.append(section);
            r.append(existing.substring_char(i, n));
            r
        },
        None => {
            let mut r = existing.to_owned();
            r.append(section);
            r
        },
    }
}

} // verus!
