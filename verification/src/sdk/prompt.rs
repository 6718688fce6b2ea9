//! Fixed prompt text.

use vstd::prelude::*;

verus! {

pub open spec fn lean4_tools_text() -> Seq<char> {
    "Available tools (output one inside <action> at the end):
  invest: {\"tool\":\"invest\",\"tactic\":\"your lean4 tactic\",\"amount\":YOUR_PRICE}
  invest in node: {\"tool\":\"invest\",\"node\":\"NODE_ID\",\"amount\":YOUR_PRICE}
  search: {\"tool\":\"search\",\"query\":\"search term\"} (FREE, results next round)"@
}

/// The tools description for Lean 4 formal verification.
pub fn lean4_tools() -> (r: &'static str)
    ensures
        r@ == lean4_tools_text(),
{
    "Available tools (output one inside <action> at the end):
  invest: {\"tool\":\"invest\",\"tactic\":\"your lean4 tactic\",\"amount\":YOUR_PRICE}
  invest in node: {\"tool\":\"invest\",\"node\":\"NODE_ID\",\"amount\":YOUR_PRICE}
  search: {\"tool\":\"search\",\"query\":\"search term\"} (FREE, results next round)"
}

} // verus!
