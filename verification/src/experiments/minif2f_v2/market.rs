//! The decisions of the MiniF2F v2 market run: what agents are told after a
//! rejection, what the falsifier may not do, the chain of mathematical steps
//! handed to the translator when a node claims `[COMPLETE]`, the request
//! for a second translation, and when a generation stagnates.

use vstd::prelude::*;
use vstd::string::*;
use crate::experiments::zeta_sum_proof::reactor::{
    chain_payloads, joined, review_move, review_move_of, turn_move, turn_move_of, AgentMove, MoveForm,
    Perish,
};
use crate::kernel::{golden_path_is_chain, ids, Tape};
use crate::sdk::protocol::opt_view;
use crate::text::{
    contains, decimal, decimal_string, find, lemma_found, replace, replace_str, str_contains, str_find,
    substring, take_chars, take_chars_exec, trim, trim_owned,
};

verus! {

broadcast use vstd::string::group_string_axioms;

// ---------------------------------------------------------------------------
// Feedback
// ---------------------------------------------------------------------------

/// A rejection is kept for the agent by its first 300 characters.
pub open spec fn rejection_note(reason: Seq<char>) -> Seq<char> {
    take_chars(reason, 300)
}

pub fn rejection_note_text(reason: &str) -> (r: String)
    ensures
        r@ == rejection_note(reason@),
{
    take_chars_exec(reason, 300)
}

/// What an agent is shown of its last rejection: nothing when there was
/// none; the length limit when it was refused as too long; the demand for
/// traditional mathematics otherwise.
pub open spec fn feedback(last: Seq<char>) -> Seq<char> {
    if last.len() == 0 {
        Seq::empty()
    } else if contains(last, "FRONT-RUNNING"@) {
        "\n=== YOUR LAST SUBMISSION WAS REJECTED (TOO LONG) ===\n"@ + last
            + "\n=== MAX 1200 CHARS. Write ONE short atomic math argument. Split multi-step reasoning into separate submissions. ===\n"@
    } else {
        "\n=== YOUR LAST SUBMISSION WAS REJECTED ===\n"@ + last
            + "\n=== Write traditional math reasoning. Do NOT use Lean syntax. ===\n"@
    }
}

pub fn rejection_feedback(last: &str) -> (r: String)
    ensures
        r@ == feedback(last@),
{
    if last.unicode_len() == 0 {
        String::new()
    } else if str_contains(last, "FRONT-RUNNING") {
        let mut r = String::from_str("\n=== YOUR LAST SUBMISSION WAS REJECTED (TOO LONG) ===\n");
        r.append(last);
        r.append(
            "\n=== MAX 1200 CHARS. Write ONE short atomic math argument. Split multi-step reasoning into separate submissions. ===\n",
        );
        r
    } else {
        let mut r = String::from_str("\n=== YOUR LAST SUBMISSION WAS REJECTED ===\n");
        r.append(last);
        r.append("\n=== Write traditional math reasoning. Do NOT use Lean syntax. ===\n");
        r
    }
}

// ---------------------------------------------------------------------------
// Moves
// ---------------------------------------------------------------------------

/// The falsifier never buys YES: its `invest` only counts as activity.
pub open spec fn guarded_move(tool: Seq<char>, is_falsifier: bool, m: MoveForm) -> MoveForm {
    if is_falsifier && tool == "invest"@ { MoveForm::Heartbeat } else { m }
}

/// The move for an action in an agent's turn.
pub fn v2_turn_move_of(
    tool: &str,
    tactic: &Option<String>,
    node: &Option<String>,
    query: &Option<String>,
    amount: &str,
    is_falsifier: bool,
) -> (m: AgentMove)
    ensures
        m@ == guarded_move(
            tool@,
            is_falsifier,
            turn_move(tool@, opt_view(*tactic), opt_view(*node), opt_view(*query), amount@),
        ),
{
    if is_falsifier && String::from_str(tool) == String::from_str("invest") {
        AgentMove::Heartbeat
    } else {
        turn_move_of(tool, tactic, node, query, amount)
    }
}

/// The move for an action in the review round.
pub fn v2_review_move_of(tool: &str, node: &Option<String>, amount: &str, is_falsifier: bool) -> (m: AgentMove)
    ensures
        m@ == guarded_move(tool@, is_falsifier, review_move(tool@, opt_view(*node), amount@)),
{
    if is_falsifier && String::from_str(tool) == String::from_str("invest") {
        AgentMove::Heartbeat
    } else {
        review_move_of(tool, node, amount)
    }
}

// ---------------------------------------------------------------------------
// The chain handed to the translator
// ---------------------------------------------------------------------------

/// A node's mathematical step: its payload before any wallet tag, without
/// `[COMPLETE]` marks, trimmed.
pub open spec fn math_step(payload: Seq<char>) -> Seq<char> {
    let before = match find(payload, "[Tool: Wallet"@) {
        Some(k) => payload.subrange(0, k),
        None => payload,
    };
    trim(replace(before, "[COMPLETE]"@, ""@))
}

/// `Step <n>: <step>` for each payload with a non-empty step, numbered by
/// its place in the chain.
pub open spec fn step_entries(ps: Seq<Seq<char>>) -> Seq<Seq<char>>
    decreases ps.len(),
{
    if ps.len() == 0 {
        seq![]
    } else {
        let rest = step_entries(ps.drop_last());
        let st = math_step(ps.last());
        if st.len() > 0 { rest.push("Step "@ + decimal(ps.len()) + ": "@ + st) } else { rest }
    }
}

/// The reasoning chain that ends at `id`, root first, one step per line.
pub open spec fn math_chain<P>(tape: Tape<P>, id: Seq<char>) -> Seq<char> {
    joined(step_entries(chain_payloads(tape, id)))
}

fn math_step_text(payload: &str) -> (r: String)
    ensures
        r@ == math_step(payload@),
{
    proof {
        reveal_strlit("[Tool: Wallet");
        reveal_strlit("[COMPLETE]");
    }
    let before = match str_find(payload, "[Tool: Wallet") {
        Some(k) => {
            proof { lemma_found(payload@, "[Tool: Wallet"@, 0, k as int); }
            substring(payload, 0, k)
        },
        None => payload.to_owned(),
    };
    let cleaned = replace_str(before.as_str(), "[COMPLETE]", "");
    trim_owned(cleaned.as_str())
}

fn join_lines(v: &Vec<String>) -> (r: String)
    ensures
        r@ == joined(v@.map_values(|s: String| s@)),
{
    let ghost vs = v@.map_values(|s: String| s@);
    let mut r = String::new();
    if v.len() == 0 {
        assert(vs =~= Seq::<Seq<char>>::empty());
        return r;
    }
    r.append(v[0].as_str());
    assert(vs.subrange(0, 1).drop_last() =~= Seq::<Seq<char>>::empty());
    let mut k: usize = 1;
    while k < v.len()
        invariant
            1 <= k <= v@.len(),
            vs == v@.map_values(|s: String| s@),
            r@ == joined(vs.subrange(0, k as int)),
        decreases v@.len() - k,
    {
        r.append("\n");
        r.append(v[k].as_str());
        assert(vs.subrange(0, k + 1).drop_last() =~= vs.subrange(0, k as int));
        assert(vs.subrange(0, k + 1).last() == vs[k as int]);
        k = k + 1;
    }
    assert(vs.subrange(0, vs.len() as int) =~= vs);
    r
}

/// The chain of mathematical steps that ends at `id`.
pub fn math_chain_text<P>(tape: &Tape<P>, id: &str) -> (r: String)
    requires
        tape.wf(),
    ensures
        r@ == math_chain(*tape, id@),
{
    let path = tape.trace_golden_path(id);
    let ghost gp = tape.golden_path(id@);
    let ghost ps = chain_payloads(*tape, id@);
    proof { golden_path_is_chain(*tape, id@); }
    assert(ids(path@) == gp);
    assert(ids(path@).len() == path@.len());
    let mut entries: Vec<String> = Vec::new();
    assert(ps.subrange(0, 0) =~= Seq::<Seq<char>>::empty());
    assert(entries@.map_values(|s: String| s@) =~= Seq::<Seq<char>>::empty());
    let mut k: usize = 0;
    while k < path.len()
        invariant
            tape.wf(),
            gp == tape.golden_path(id@),
            ps == chain_payloads(*tape, id@),
            ids(path@) == gp,
            ids(path@).len() == path@.len(),
            forall|j: int| 0 <= j < gp.len() ==> #[trigger] tape.files@.contains_key(gp[j]),
            k <= path@.len(),
            entries@.map_values(|s: String| s@) == step_entries(ps.subrange(0, k as int)),
        decreases path@.len() - k,
    {
        let idx = path.len() - 1 - k;
        let nid = &path[idx];
        assert(ids(path@)[idx as int] == nid@);
        assert(tape.files@.contains_key(gp[idx as int]));
        let node = tape.files.get(nid.as_str()).unwrap();
        assert(node.payload@ == ps[k as int]);
        let step = math_step_text(node.payload.as_str());
        assert(ps.subrange(0, k + 1).drop_last() =~= ps.subrange(0, k as int));
        assert(ps.subrange(0, k + 1).last() == ps[k as int]);
        if step.as_str().unicode_len() > 0 {
            let mut e = String::from_str("Step ");
            e.append(decimal_string(k + 1).as_str());
            e.append(": ");
            e.append(step.as_str());
            let ghost before = entries@.map_values(|s: String| s@);
            entries.push(e);
            assert(entries@.map_values(|s: String| s@) =~= before.push(
                "Step "@ + decimal((k + 1) as nat) + ": "@ + math_step(ps[k as int]),
            ));
        }
        k = k + 1;
    }
    assert(ps.subrange(0, path@.len() as int) =~= ps);
    join_lines(&entries)
}

/// What the translator is given: the chain, and after a failed attempt the
/// reason, with a request to fix the translation.
pub open spec fn translation_input(chain: Seq<char>, last_error: Seq<char>) -> Seq<char> {
    if last_error.len() == 0 {
        chain
    } else {
        chain + "\n\n--- PREVIOUS ATTEMPT FAILED ---\n"@ + last_error + "\n--- Fix the translation. ---"@
    }
}

pub fn translation_input_text(chain: &str, last_error: &str) -> (r: String)
    ensures
        r@ == translation_input(chain@, last_error@),
{
    let mut r = chain.to_owned();
    if last_error.unicode_len() > 0 {
        r.append("\n\n--- PREVIOUS ATTEMPT FAILED ---\n");
        r.append(last_error);
        r.append("\n--- Fix the translation. ---");
    }
    r
}

// ---------------------------------------------------------------------------
// Stagnation
// ---------------------------------------------------------------------------

/// Compiling and reasoning take minutes here: a generation stagnates after
/// five minutes without an investment and without a free action.
pub const V2_STAGNATION_SECS: u64 = 300;

pub open spec fn v2_perish_of(solvent: nat, since_invest: nat, since_free: nat) -> Option<Perish> {
    if solvent == 0 {
        Some(Perish::Bankruptcy)
    } else if since_invest >= V2_STAGNATION_SECS && since_free >= V2_STAGNATION_SECS {
        Some(Perish::Stagnation)
    } else {
        None
    }
}

pub fn v2_perish(solvent: usize, since_invest: u64, since_free: u64) -> (r: Option<Perish>)
    ensures
        r == v2_perish_of(solvent as nat, since_invest as nat, since_free as nat),
{
    if solvent == 0 {
        Some(Perish::Bankruptcy)
    } else if since_invest >= V2_STAGNATION_SECS && since_free >= V2_STAGNATION_SECS {
        Some(Perish::Stagnation)
    } else {
        None
    }
}

} // verus!
