//! The decisions of one theorem's run: when it stops, and what an accepted
//! append changes. The runtime runs the loop: it asks the swarm for the next
//! node, appends it on the bus and reports back here.

use vstd::prelude::*;
use vstd::string::*;
use crate::kernel::{ids, FileId, Head, MachineState};
use crate::text::{contains, str_contains};

verus! {

broadcast use vstd::string::group_string_axioms;

/// The marker of a node that closes the proof.
pub open spec fn omega_marker() -> Seq<char> {
    "[OMEGA]"@
}

/// The state of a run on one theorem.
pub struct TheoremRun {
    pub q_state: MachineState,
    pub kernel_steps: u64,
    pub max_kernel_steps: u64,
    pub head: Head,
}

impl TheoremRun {
    pub fn new(max_kernel_steps: u64) -> (r: Self)
        ensures
            r.q_state == MachineState::Running,
            r.kernel_steps == 0,
            r.max_kernel_steps == max_kernel_steps,
            r.head.path_set() == Set::<Seq<char>>::empty(),
            r.head.wf(),
    {
        TheoremRun { q_state: MachineState::Running, kernel_steps: 0, max_kernel_steps, head: Head::new() }
    }

    /// The run ends when the machine halts or the step budget is spent.
    pub fn finished(&self) -> (done: bool)
        ensures
            done == (self.q_state == MachineState::Halt || self.kernel_steps >= self.max_kernel_steps),
    {
        self.q_state == MachineState::Halt || self.kernel_steps >= self.max_kernel_steps
    }

    /// Counts one more kernel step.
    pub fn begin_step(&mut self)
        requires
            old(self).kernel_steps < u64::MAX,
        ensures
            final(self).kernel_steps == old(self).kernel_steps + 1,
            final(self).q_state == old(self).q_state,
            final(self).max_kernel_steps == old(self).max_kernel_steps,
            final(self).head == old(self).head,
    {
        self.kernel_steps = self.kernel_steps + 1;
    }

    /// After the bus accepted a node: the head moves to it when it is on the
    /// tape (an investment writes no node), the machine takes the state the
    /// swarm asked for, and the result says whether the node closes the
    /// proof.
    pub fn accepted(
        &mut self,
        on_tape: bool,
        file_id: &str,
        citations: &Vec<FileId>,
        q_o: MachineState,
        payload: &str,
    ) -> (omega: bool)
        requires
            old(self).head.wf(),
        ensures
            final(self).head.wf(),
            final(self).head.path_set() == if on_tape {
                old(self).head.path_set().insert(file_id@).difference(ids(citations@).to_set())
            } else {
                old(self).head.path_set()
            },
            final(self).q_state == q_o,
            final(self).kernel_steps == old(self).kernel_steps,
            final(self).max_kernel_steps == old(self).max_kernel_steps,
            omega == contains(payload@, omega_marker()),
    {
        if on_tape {
            self.head.advance(file_id, citations);
        }
        self.q_state = q_o;
        str_contains(payload, "[OMEGA]")
    }
}

} // verus!
