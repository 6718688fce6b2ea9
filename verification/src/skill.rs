//! The older skill interface: signals and the anti-zombie shield without the
//! period-2 cycle check.

use vstd::prelude::*;
use crate::tool::{zombie_check, zombie_verdict};

verus! {

/// A skill's verdict on a pending append. `R` is the type of coin amounts.
pub enum SkillSignal<R> {
    Pass,
    Modify(String),
    Veto(String),
    YieldReward { payload: String, reward: R },
}

/// Vetoes payloads with a run of `max_consecutive_tactics` equal tactics.
pub struct AntiZombiePruningSkill {
    pub max_consecutive_tactics: usize,
}

impl AntiZombiePruningSkill {
    pub fn new(max_consecutive_tactics: usize) -> (t: Self)
        ensures
            t.max_consecutive_tactics == max_consecutive_tactics,
    {
        AntiZombiePruningSkill { max_consecutive_tactics }
    }

    pub fn on_pre_append<R>(&mut self, payload: &str) -> (sig: SkillSignal<R>)
        ensures
            final(self).max_consecutive_tactics == old(self).max_consecutive_tactics,
            match zombie_verdict(payload@, old(self).max_consecutive_tactics as nat, false) {
                Some(m) => sig matches SkillSignal::Veto(v) && v@ == m,
                None => sig is Pass,
            },
    {
        match zombie_check(payload, self.max_consecutive_tactics, false) {
            Some(m) => SkillSignal::Veto(m),
            None => SkillSignal::Pass,
        }
    }
}

} // verus!
