//! The bus-side bookkeeping that does not touch money: the graveyard of
//! refused appends, and the built-in tools that only read payloads or
//! counters.

use vstd::prelude::*;
use vstd::hash_map::StringHashMap;
use vstd::string::*;
use std::collections::VecDeque;
use crate::text::{contains, decimal, decimal_string, str_contains};
use crate::tool::{BetDirection, ToolSignal};

verus! {

broadcast use vstd::string::group_string_axioms;

/// How many failure reasons a node keeps.
pub const MAX_TOMBSTONES: usize = 10;

/// The reasons recorded for one node after `reason` is recorded: a reason
/// already there is not repeated, and beyond the limit the oldest one goes.
pub open spec fn record_reason(graves: Seq<Seq<char>>, reason: Seq<char>) -> Seq<Seq<char>> {
    let g = if graves.contains(reason) { graves } else { graves.push(reason) };
    if g.len() > MAX_TOMBSTONES { g.drop_first() } else { g }
}

pub open spec fn graveyard_header() -> Seq<char> {
    "\n=== GRAVEYARD: RECENT BANKRUPTCIES ON THIS NODE ===\n"@
}

pub open spec fn graveyard_footer() -> Seq<char> {
    "=====================================================\n"@
}

/// "Failure 1: ...", "Failure 2: ...", one line per reason.
pub open spec fn failure_lines(graves: Seq<Seq<char>>) -> Seq<char>
    decreases graves.len(),
{
    if graves.len() == 0 {
        seq![]
    } else {
        failure_lines(graves.drop_last()) + "Failure "@ + decimal(graves.len()) + ": "@ + graves.last() + "\n"@
    }
}

/// The report shown to agents for a node's recorded failures.
pub open spec fn tombstone_report(graves: Seq<Seq<char>>) -> Seq<char> {
    if graves.len() == 0 {
        seq![]
    } else {
        graveyard_header() + failure_lines(graves) + graveyard_footer()
    }
}

/// Failure reasons recorded per node.
pub struct Graveyard {
    pub tombstones: StringHashMap<VecDeque<String>>,
}

impl Graveyard {
    /// Node id to its recorded reasons, oldest first.
    pub open spec fn view_graves(&self) -> Map<Seq<char>, Seq<Seq<char>>> {
        Map::new(
            |k: Seq<char>| self.tombstones@.contains_key(k),
            |k: Seq<char>| self.tombstones@[k]@.map_values(|s: String| s@),
        )
    }

    /// Every node keeps at most `MAX_TOMBSTONES` reasons, none twice.
    pub open spec fn inv(&self) -> bool {
        forall|k: Seq<char>| #[trigger] self.view_graves().contains_key(k) ==> {
            &&& self.view_graves()[k].len() <= MAX_TOMBSTONES
            &&& self.view_graves()[k].no_duplicates()
        }
    }

    /// The reasons recorded for `node_id` (none when it has no entry).
    pub open spec fn graves_of(&self, node_id: Seq<char>) -> Seq<Seq<char>> {
        if self.view_graves().contains_key(node_id) { self.view_graves()[node_id] } else { seq![] }
    }

    pub fn new() -> (g: Graveyard)
        ensures
            g.view_graves() == Map::<Seq<char>, Seq<Seq<char>>>::empty(),
            g.inv(),
    {
        let g = Graveyard { tombstones: StringHashMap::new() };
        assert(g.view_graves() =~= Map::<Seq<char>, Seq<Seq<char>>>::empty());
        g
    }

    /// Records that an append under `node_id` failed for `reason`.
    pub fn record_death(&mut self, node_id: &str, reason: &str)
        ensures
            final(self).view_graves() == old(self).view_graves().insert(
                node_id@,
                record_reason(old(self).graves_of(node_id@), reason@),
            ),
            old(self).inv() ==> final(self).inv(),
    {
        let ghost old_graves = old(self).graves_of(node_id@);
        let mut entry: VecDeque<String> = VecDeque::new();
        match self.tombstones.get(node_id) {
            Some(existing) => {
                let mut i: usize = 0;
                while i < existing.len()
                    invariant
                        i <= existing@.len(),
                        entry@ == existing@.subrange(0, i as int),
                    decreases existing@.len() - i,
                {
                    entry.push_back(existing[i].clone());
                    assert(entry@ =~= existing@.subrange(0, i + 1));
                    i = i + 1;
                }
                assert(entry@ =~= existing@);
            },
            None => {},
        }
        let ghost g0 = entry@.map_values(|s: String| s@);
        assert(g0 =~= old_graves);
        let reason_s = reason.to_owned();
        let mut found = false;
        let mut j: usize = 0;
        while j < entry.len()
            invariant
                j <= entry@.len(),
                g0 == entry@.map_values(|s: String| s@),
                reason_s@ == reason@,
                found <==> exists|k: int| 0 <= k < j && entry@[k]@ == reason@,
            decreases entry@.len() - j,
        {
            if entry[j] == reason_s {
                found = true;
            }
            assert(found <==> exists|k: int| 0 <= k < j + 1 && entry@[k]@ == reason@) by {
                if entry@[j as int]@ == reason@ {
                    assert(0 <= j < j + 1);
                }
            }
            j = j + 1;
        }
        proof {
            if found {
                let k = choose|k: int| 0 <= k < j && entry@[k]@ == reason@;
                assert(g0[k] == reason@);
            }
            if g0.contains(reason@) {
                let k = choose|k: int| 0 <= k < g0.len() && g0[k] == reason@;
                assert(entry@[k]@ == reason@);
            }
        }
        if !found {
            entry.push_back(reason.to_owned());
            assert(entry@.map_values(|s: String| s@) =~= g0.push(reason@));
        }
        let ghost g1 = entry@.map_values(|s: String| s@);
        if entry.len() > MAX_TOMBSTONES {
            entry.pop_front();
            assert(entry@.map_values(|s: String| s@) =~= g1.drop_first());
        }
        let ghost g2 = entry@.map_values(|s: String| s@);
        assert(g2 == record_reason(old_graves, reason@));
        self.tombstones.insert(node_id.to_owned(), entry);
        assert(self.view_graves() =~= old(self).view_graves().insert(node_id@, g2));
        proof {
            if old(self).inv() {
                if !old_graves.contains(reason@) {
                    assert(g1 =~= old_graves.push(reason@));
                    assert(g1.no_duplicates());
                }
                assert(g2.no_duplicates());
            }
        }
    }

    /// The report of the failures recorded for `node_id`; empty when there
    /// are none.
    pub fn get_tombstones(&self, node_id: &str) -> (s: String)
        ensures
            s@ == tombstone_report(self.graves_of(node_id@)),
    {
        match self.tombstones.get(node_id) {
            Some(graves) => {
                if graves.len() == 0 {
                    return String::new();
                }
                let ghost g = graves@.map_values(|s: String| s@);
                let mut s = String::from_str("\n=== GRAVEYARD: RECENT BANKRUPTCIES ON THIS NODE ===\n");
                let mut i: usize = 0;
                while i < graves.len()
                    invariant
                        i <= graves@.len(),
                        g == graves@.map_values(|s: String| s@),
                        s@ == graveyard_header() + failure_lines(g.subrange(0, i as int)),
                    decreases graves@.len() - i,
                {
                    let ghost before = s@;
                    s.append("Failure ");
                    let n = decimal_string(i + 1);
                    s.append(n.as_str());
                    s.append(": ");
                    s.append(graves[i].as_str());
                    s.append("\n");
                    proof {
                        let gi = g.subrange(0, i + 1);
                        assert(gi.drop_last() =~= g.subrange(0, i as int));
                        assert(gi.last() == graves@[i as int]@);
                        assert(s@ =~= graveyard_header() + failure_lines(gi));
                    }
                    i = i + 1;
                }
                s.append("=====================================================\n");
                assert(g.subrange(0, g.len() as int) =~= g);
                s
            },
            None => String::new(),
        }
    }
}

impl Default for Graveyard {
    fn default() -> (g: Self)
        ensures
            g.view_graves() == Map::<Seq<char>, Seq<Seq<char>>>::empty(),
            g.inv(),
    {
        Graveyard::new()
    }
}


// ---------------------------------------------------------------------------
// The pre-append round
// ---------------------------------------------------------------------------

/// What the bus does after one tool has answered a pending append.
pub enum PreAppendStep<R> {
    /// Ask the next tool.
    Next,
    /// Refuse the append for this reason.
    Veto(String),
    /// The file is an investment in an existing node, not a new node.
    Invest { target_node: String, amount: R, direction: BetDirection },
}

/// The pending append as the tools have shaped it so far: the payload the
/// next tool sees, and the rewards yielded so far, in the order of the tools.
pub struct PreAppendRound<R> {
    pub payload: String,
    pub rewards: Vec<R>,
}

impl<R> PreAppendRound<R> {
    /// The round before any tool has answered.
    pub fn new(payload: String) -> (r: Self)
        ensures
            r.payload@ == payload@,
            r.rewards@ == Seq::<R>::empty(),
    {
        PreAppendRound { payload, rewards: Vec::new() }
    }

    /// Takes one tool's signal into the round: `Modify` and `YieldReward`
    /// replace the payload (the latter also records its reward), `Veto` and
    /// `InvestOnly` end the round, `Pass` changes nothing.
    pub fn absorb(&mut self, signal: ToolSignal<R>) -> (step: PreAppendStep<R>)
        ensures
            match signal {
                ToolSignal::Pass => {
                    &&& step is Next
                    &&& final(self).payload@ == old(self).payload@
                    &&& final(self).rewards@ == old(self).rewards@
                },
                ToolSignal::Modify(p) => {
                    &&& step is Next
                    &&& final(self).payload@ == p@
                    &&& final(self).rewards@ == old(self).rewards@
                },
                ToolSignal::Veto(reason) => {
                    &&& (step matches PreAppendStep::Veto(r) && r@ == reason@)
                    &&& final(self).payload@ == old(self).payload@
                    &&& final(self).rewards@ == old(self).rewards@
                },
                ToolSignal::YieldReward { payload, reward } => {
                    &&& step is Next
                    &&& final(self).payload@ == payload@
                    &&& final(self).rewards@ == old(self).rewards@.push(reward)
                },
                ToolSignal::InvestOnly { target_node, amount, direction } => {
                    &&& (step matches PreAppendStep::Invest { target_node: t, amount: a, direction: d }
                        && t@ == target_node@ && a == amount && d == direction)
                    &&& final(self).payload@ == old(self).payload@
                    &&& final(self).rewards@ == old(self).rewards@
                },
            },
    {
        match signal {
            ToolSignal::Pass => PreAppendStep::Next,
            ToolSignal::Modify(p) => {
                self.payload = p;
                PreAppendStep::Next
            },
            ToolSignal::Veto(reason) => PreAppendStep::Veto(reason),
            ToolSignal::YieldReward { payload, reward } => {
                self.payload = payload;
                self.rewards.push(reward);
                PreAppendStep::Next
            },
            ToolSignal::InvestOnly { target_node, amount, direction } => {
                PreAppendStep::Invest { target_node, amount, direction }
            },
        }
    }
}

/// The node a refused append is charged to: its first citation, or "root"
/// when it cites nothing.
pub open spec fn veto_parent_spec(citations: Seq<String>) -> Seq<char> {
    if citations.len() == 0 { "root"@ } else { citations[0]@ }
}

pub fn veto_parent(citations: &Vec<String>) -> (p: String)
    ensures
        p@ == veto_parent_spec(citations@),
{
    if citations.len() == 0 {
        String::from_str("root")
    } else {
        citations[0].clone()
    }
}

/// Whether settlement resolves a node's market YES: exactly when the node
/// lies on the golden path.
pub fn resolves_yes(golden_path: &Vec<String>, node_id: &str) -> (yes: bool)
    ensures
        yes == golden_path@.map_values(|s: String| s@).contains(node_id@),
{
    let ghost gp = golden_path@.map_values(|s: String| s@);
    let node = node_id.to_owned();
    let mut i: usize = 0;
    while i < golden_path.len()
        invariant
            i <= golden_path@.len(),
            node@ == node_id@,
            gp == golden_path@.map_values(|s: String| s@),
            forall|k: int| 0 <= k < i ==> gp[k] != node_id@,
        decreases golden_path@.len() - i,
    {
        if golden_path[i] == node {
            assert(gp[i as int] == node_id@);
            return true;
        }
        i = i + 1;
    }
    false
}

/// Asks for a reduce step once the volume has grown by `threshold` since
/// the last one.
pub struct ThermodynamicHeartbeatTool {
    pub threshold: usize,
    pub last_mr_volume: usize,
}

impl ThermodynamicHeartbeatTool {
    pub fn new(threshold: usize) -> (t: Self)
        ensures
            t.threshold == threshold,
            t.last_mr_volume == 0,
    {
        ThermodynamicHeartbeatTool { threshold, last_mr_volume: 0 }
    }

    /// Skip the reduce step unless the volume grew by at least `threshold`
    /// since the last reduce; a reduce that happens records the volume.
    pub fn should_skip_reduce(&mut self, current_volume: usize) -> (skip: bool)
        requires
            old(self).last_mr_volume <= current_volume,
        ensures
            skip == (current_volume - old(self).last_mr_volume < old(self).threshold),
            final(self).threshold == old(self).threshold,
            final(self).last_mr_volume == if skip { old(self).last_mr_volume } else { current_volume },
    {
        if current_volume - self.last_mr_volume >= self.threshold {
            self.last_mr_volume = current_volume;
            false
        } else {
            true
        }
    }
}

pub open spec fn membrane_reject_message() -> Seq<char> {
    "Membrane rejected payload"@
}

/// Vetoes any payload that mentions a paradox.
pub struct MembraneGuardTool;

impl MembraneGuardTool {
    pub fn on_pre_append<R>(&mut self, _author: &str, payload: &str) -> (sig: ToolSignal<R>)
        ensures
            contains(payload@, "paradox"@) ==> (sig matches ToolSignal::Veto(m) && m@ == membrane_reject_message()),
            !contains(payload@, "paradox"@) ==> sig is Pass,
    {
        if str_contains(payload, "paradox") {
            ToolSignal::Veto(String::from_str("Membrane rejected payload"))
        } else {
            ToolSignal::Pass
        }
    }
}

/// A tool that only marks where write-ahead snapshots are taken.
pub struct WalSnapshotTool;
} // verus!
