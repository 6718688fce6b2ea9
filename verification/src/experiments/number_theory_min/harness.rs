//! Watchdog for a single agent of the number-theory swarm.

use vstd::prelude::*;

verus! {

/// Why an agent's step failed.
#[derive(Debug)]
pub enum HarnessError {
    NetworkFracture(String),
    SpacetimeTimeout,
    HardwareTruncation,
    SemanticCollapse,
}

/// What the swarm does with an agent after a rejection.
#[derive(Debug, Clone, Copy, PartialEq, Eq, Structural)]
pub enum WatchdogState {
    Continue,
    SelfHeal,
    SuspendAndSOS,
}

/// Counts an agent's consecutive rejections.
pub struct AgentSupervisor {
    pub agent_id: usize,
    pub total_agents: usize,
    pub strike_count: usize,
}

/// The watchdog's reaction to the `strikes`-th consecutive rejection:
/// up to 2 strikes continue, the 3rd self-heals, beyond that suspend.
pub open spec fn watchdog_for(strikes: int) -> WatchdogState {
    if 1 <= strikes <= 2 {
        WatchdogState::Continue
    } else if strikes == 3 {
        WatchdogState::SelfHeal
    } else {
        WatchdogState::SuspendAndSOS
    }
}

impl AgentSupervisor {
    pub fn new(agent_id: usize, total_agents: usize) -> (s: Self)
        ensures
            s.agent_id == agent_id,
            s.total_agents == total_agents,
            s.strike_count == 0,
    {
        AgentSupervisor { agent_id, total_agents, strike_count: 0 }
    }

    /// Records one more rejection (for any kind of error) and says how to
    /// react to it.
    pub fn handle_rejection(&mut self, _err: &HarnessError) -> (w: WatchdogState)
        requires
            old(self).strike_count < usize::MAX,
        ensures
            final(self).strike_count == old(self).strike_count + 1,
            final(self).agent_id == old(self).agent_id,
            final(self).total_agents == old(self).total_agents,
            w == watchdog_for(final(self).strike_count as int),
    {
        self.strike_count = self.strike_count + 1;
        if 1 <= self.strike_count && self.strike_count <= 2 {
            WatchdogState::Continue
        } else if self.strike_count == 3 {
            WatchdogState::SelfHeal
        } else {
            WatchdogState::SuspendAndSOS
        }
    }

    pub fn reset_strikes(&mut self)
        ensures
            final(self).strike_count == 0,
            final(self).agent_id == old(self).agent_id,
            final(self).total_agents == old(self).total_agents,
    {
        self.strike_count = 0;
    }
}

} // verus!
