//! The step-by-step Hanoi agent: one node per step, each citing the step
//! before it. The language-model call that produces the move is made by the
//! runtime, which hands the answer back to `step_output`.

use vstd::prelude::*;
use vstd::string::*;
use crate::kernel::{ids, Action, MachineState, Output};
use crate::text::{decimal, decimal_string_u64};

verus! {

broadcast use vstd::string::group_string_axioms;

/// An agent that asks a model for each move of the Tower of Hanoi in turn.
pub struct NetworkedHanoiAgent {
    pub api_url: String,
    pub model_name: String,
    pub current_step: u64,
    pub total_steps: u64,
}

pub open spec fn hanoi_id(step: u64) -> Seq<char> {
    "hanoi_step_"@ + decimal(step as nat)
}

pub open spec fn hanoi_prompt(step: u64) -> Seq<char> {
    "Provide the single action for Step "@ + decimal(step as nat)
        + " of the 20-disk Tower of Hanoi problem."@
}

/// What is written when the model gave no answer.
pub open spec fn no_answer_payload() -> Seq<char> {
    "LLM_NETWORK_ERROR_OR_HALLUCINATION"@
}

impl NetworkedHanoiAgent {
    pub fn new(api_url: &str, model_name: &str, total_steps: u64) -> (a: Self)
        ensures
            a.api_url@ == api_url@,
            a.model_name@ == model_name@,
            a.current_step == 0,
            a.total_steps == total_steps,
    {
        NetworkedHanoiAgent {
            api_url: api_url.to_owned(),
            model_name: model_name.to_owned(),
            current_step: 0,
            total_steps,
        }
    }

    /// Moves to the next step and returns the question for it.
    pub fn begin_step(&mut self) -> (prompt: String)
        requires
            old(self).current_step < u64::MAX,
        ensures
            final(self).current_step == old(self).current_step + 1,
            final(self).total_steps == old(self).total_steps,
            final(self).model_name@ == old(self).model_name@,
            final(self).api_url@ == old(self).api_url@,
            prompt@ == hanoi_prompt(final(self).current_step),
    {
        self.current_step = self.current_step + 1;
        let mut p = String::from_str("Provide the single action for Step ");
        p.append(decimal_string_u64(self.current_step).as_str());
        p.append(" of the 20-disk Tower of Hanoi problem.");
        p
    }

    /// The node for the current step: the model's answer (or the marker for
    /// a missing one), citing the previous step; the machine halts at the
    /// last step.
    pub fn step_output(&self, answer: Option<String>) -> (o: Output)
        requires
            self.current_step >= 1,
        ensures
            o.q_o == if self.current_step >= self.total_steps { MachineState::Halt } else { MachineState::Running },
            o.a_o.file_id@ == hanoi_id(self.current_step),
            o.a_o.author@ == "NetworkAgent_"@ + self.model_name@,
            o.a_o.payload@ == match answer {
                Some(a) => a@,
                None => no_answer_payload(),
            },
            ids(o.a_o.citations@) == if self.current_step > 1 {
                seq![hanoi_id((self.current_step - 1) as u64)]
            } else {
                Seq::<Seq<char>>::empty()
            },
            o.a_o.stake == 1,
    {
        let q_o = if self.current_step >= self.total_steps { MachineState::Halt } else { MachineState::Running };
        let payload = match answer {
            Some(a) => a,
            None => String::from_str("LLM_NETWORK_ERROR_OR_HALLUCINATION"),
        };
        let mut citations: Vec<String> = Vec::new();
        if self.current_step > 1 {
            let mut prev = String::from_str("hanoi_step_");
            prev.append(decimal_string_u64(self.current_step - 1).as_str());
            citations.push(prev);
        }
        let mut id = String::from_str("hanoi_step_");
        id.append(decimal_string_u64(self.current_step).as_str());
        let mut author = String::from_str("NetworkAgent_");
        author.append(self.model_name.as_str());
        assert(ids(citations@) =~= if self.current_step > 1 {
            seq![hanoi_id((self.current_step - 1) as u64)]
        } else {
            Seq::<Seq<char>>::empty()
        });
        Output { q_o, a_o: Action { file_id: id, author, payload, citations, stake: 1 } }
    }
}

} // verus!
