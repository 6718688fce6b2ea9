//! Math step membrane: the market judges quality, the membrane only refuses
//! steps that are too short to be real reasoning.

use vstd::prelude::*;
use vstd::string::*;
use vstd::utf8::encode_utf8;
use crate::text::{decimal, decimal_string, lemma_rfound, rfind, str_rfind, trim, trim_str};
use crate::tool::ToolSignal;

verus! {

broadcast use vstd::string::group_string_axioms;

/// The step an append contributes: its last line (everything after the last
/// `'\n'`), trimmed.
pub open spec fn math_step(payload: Seq<char>) -> Seq<char> {
    match rfind(payload, "\n"@) {
        Some(i) => trim(payload.subrange(i, payload.len() as int)),
        None => trim(payload),
    }
}

/// Steps shorter than this many bytes are refused.
pub const MIN_STEP_BYTES: usize = 20;

pub open spec fn too_short_message(n: nat) -> Seq<char> {
    "Step too short ("@ + decimal(n) + " chars). Write a real mathematical reasoning step."@
}

/// Accepts every step that is at least `MIN_STEP_BYTES` bytes long.
pub struct MathStepMembrane;

impl MathStepMembrane {
    pub fn new() -> (m: Self)
        ensures
            m == MathStepMembrane,
    {
        MathStepMembrane
    }

    pub fn on_pre_append<R>(&mut self, _author: &str, payload: &str) -> (sig: ToolSignal<R>)
        ensures
            ({
                let n = encode_utf8(math_step(payload@)).len();
                &&& n < MIN_STEP_BYTES ==> (sig matches ToolSignal::Veto(m) && m@ == too_short_message(n))
                &&& n >= MIN_STEP_BYTES ==> sig is Pass
            }),
    {
        let _len = payload.unicode_len();
        let step = match str_rfind(payload, "\n") {
            Some(idx) => {
                proof { reveal_strlit("\n"); lemma_rfound(payload@, "\n"@, idx as int); }
                trim_str(payload.substring_char(idx, _len))
            },
            None => trim_str(payload),
        };
        let n = step.as_bytes().len();
        if n < MIN_STEP_BYTES {
            let mut m = String::from_str("Step too short (");
            m.append(decimal_string(n).as_str());
            m.append(" chars). Write a real mathematical reasoning step.");
            return ToolSignal::Veto(m);
        }
        ToolSignal::Pass
    }
}

} // verus!
