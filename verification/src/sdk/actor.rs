//! Transactions that agents submit to the reactor, and the text of the
//! proof chain an agent is shown.

use vstd::prelude::*;
use vstd::string::*;
use crate::kernel::{golden_path_is_chain, ids, Tape};
use crate::text::{
    chars_of, line_spans, lines, replace, replace_str, spans_text, take_chars, take_chars_exec,
    trim, trim_range,
};

verus! {

broadcast use vstd::string::group_string_axioms;

/// A transaction submitted by an agent to the reactor.
#[derive(Debug, Clone)]
pub struct MinerTx {
    pub agent_id: String,
    pub model_name: String,
    pub payload: String,
    pub parent_id: Option<String>,
    pub action_type: String,
}

/// The step a node contributes to a proof chain: the last line of its
/// payload, trimmed (the whole payload, trimmed, when it has no line).
pub open spec fn chain_step(payload: Seq<char>) -> Seq<char> {
    let ls = lines(payload);
    if ls.len() == 0 { trim(payload) } else { trim(ls.last()) }
}

pub fn chain_step_text(payload: &str) -> (r: String)
    ensures
        r@ == chain_step(payload@),
{
    let v = chars_of(payload);
    let spans = line_spans(&v);
    if spans.len() == 0 {
        let (lo, hi) = trim_range(&v, 0, v.len());
        assert(v@.subrange(0, v@.len() as int) =~= v@);
        payload.substring_char(lo, hi).to_owned()
    } else {
        let last = spans[spans.len() - 1];
        assert(spans_text(v@, spans@)[spans@.len() - 1] == v@.subrange(last.0 as int, last.1 as int));
        let (lo, hi) = trim_range(&v, last.0, last.1);
        payload.substring_char(lo, hi).to_owned()
    }
}

/// The chain that ends at `id`, root first: each node's id with its step.
pub open spec fn proof_chain<P>(tape: Tape<P>, id: Seq<char>) -> Seq<(Seq<char>, Seq<char>)> {
    let gp = tape.golden_path(id);
    Seq::new(gp.len(), |i: int| (gp[gp.len() - 1 - i], chain_step(tape.files@[gp[gp.len() - 1 - i]].payload@)))
}

/// The ids and steps of the chain that ends at `node_id`, root first.
pub fn proof_chain_steps<P>(tape: &Tape<P>, node_id: &str) -> (r: Vec<(String, String)>)
    requires
        tape.wf(),
    ensures
        r@.map_values(|e: (String, String)| (e.0@, e.1@)) == proof_chain(*tape, node_id@),
{
    let path = tape.trace_golden_path(node_id);
    let ghost gp = tape.golden_path(node_id@);
    assert(ids(path@) == gp);
    let mut r: Vec<(String, String)> = Vec::new();
    let mut k: usize = path.len();
    while k > 0
        invariant
            tape.wf(),
            gp == tape.golden_path(node_id@),
            ids(path@) == gp,
            k <= path@.len(),
            r@.len() == path@.len() - k,
            forall|i: int| 0 <= i < r@.len() ==> {
                &&& #[trigger] r@[i].0@ == gp[gp.len() - 1 - i]
                &&& r@[i].1@ == chain_step(tape.files@[gp[gp.len() - 1 - i]].payload@)
            },
        decreases k,
    {
        k = k - 1;
        let id = &path[k];
        assert(ids(path@)[k as int] == id@);
        proof {
            golden_path_is_chain(*tape, node_id@);
            assert(ids(path@).len() == path@.len());
            assert(0 <= k < gp.len());
            assert(tape.files@.contains_key(gp[k as int]));
        }
        let node = tape.files.get(id.as_str()).unwrap();
        let step = chain_step_text(node.payload.as_str());
        r.push((id.clone(), step));
    }
    assert(r@.map_values(|e: (String, String)| (e.0@, e.1@)) =~= proof_chain(*tape, node_id@));
    r
}

/// A sibling's payload as the chain shows it: its first 80 characters, with
/// line breaks turned into spaces.
pub open spec fn sibling_preview(payload: Seq<char>) -> Seq<char> {
    replace(take_chars(payload, 80), "\n"@, " "@)
}

pub fn sibling_preview_text(payload: &str) -> (r: String)
    ensures
        r@ == sibling_preview(payload@),
{
    proof { reveal_strlit("\n"); }
    let t = take_chars_exec(payload, 80);
    replace_str(t.as_str(), "\n", " ")
}

} // verus!
