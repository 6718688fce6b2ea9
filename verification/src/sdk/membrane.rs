//! Extraction of the final `[State: ...]` block from an agent's raw output.

use vstd::prelude::*;
use vstd::string::*;
use crate::text::{chars_of, find_from, find_from_exec, rfind, rfind_exec, trim, trim_range};

verus! {

broadcast use vstd::string::group_string_axioms;

/// The last `[State:` block of `raw`, up to the first `]` after it, trimmed.
pub open spec fn pure_state(raw: Seq<char>) -> Option<Seq<char>> {
    match rfind(raw, "[State:"@) {
        Some(i) => match find_from(raw, "]"@, i) {
            Some(e) => Some(trim(raw.subrange(i, e + 1))),
            None => None,
        },
        None => None,
    }
}

/// Keeps only the agent's final decision: the last `[State: ...]` block.
pub fn distill_pure_state(raw_payload: &str) -> (r: Option<String>)
    ensures
        r matches Some(s) ==> pure_state(raw_payload@) == Some(s@),
        r is None ==> pure_state(raw_payload@) is None,
{
    let raw = chars_of(raw_payload);
    let start_tag = chars_of("[State:");
    let close = chars_of("]");
    match rfind_exec(&raw, &start_tag) {
        Some(start_idx) => {
            proof {
                crate::text::lemma_rfind_upto(raw@, start_tag@, raw@.len() - start_tag@.len());
            }
            match find_from_exec(&raw, &close, start_idx) {
                Some(end) => {
                    proof {
                        crate::text::lemma_find_from(raw@, close@, start_idx as int);
                        reveal_strlit("]");
                        assert(close@.len() == 1);
                        assert(raw@.len() == raw.len());
                    }
                    let (lo, hi) = trim_range(&raw, start_idx, end + 1);
                    Some(raw_payload.substring_char(lo, hi).to_owned())
                },
                None => None,
            }
        },
        None => None,
    }
}

} // verus!
