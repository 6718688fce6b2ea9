//! The bookkeeping of a speculative swarm: which step it is on, the branches
//! it has queued for the tape, when a round counts as failed, and how an
//! agent's answer becomes the payload of a branch.
//!
//! Running the agents (the language-model calls, the jitter, the join set) is
//! the runtime's work: it hands each round's answers to `settle_round`.

use vstd::prelude::*;
use vstd::string::*;
use crate::kernel::{ids, Action, File, MachineState, Output, Tape};
use crate::text::{
    decimal, decimal_string, decimal_string_u64, ends_with, find, find_from, lemma_found,
    lemma_rfound, parse_u64, parse_u64_spec, replace, replace_str, rfind, starts_with,
    str_ends_with, str_find, str_find_from, str_rfind, str_starts_with, substring, trim,
    trim_owned, contains, str_contains,
};

verus! {

broadcast use vstd::string::group_string_axioms;

/// After this many empty rounds in a row the swarm halts.
pub const MAX_CONSECUTIVE_FAILURES: usize = 20;

// ---------------------------------------------------------------------------
// Step numbers of recovered branches
// ---------------------------------------------------------------------------

/// The step field of an id `step_<n>_...`: the text after `step_` up to the
/// next underscore.
pub open spec fn step_field(id: Seq<char>) -> Option<Seq<char>> {
    if starts_with(id, "step_"@) {
        let rest = id.subrange(5, id.len() as int);
        match find(rest, "_"@) {
            Some(k) => Some(rest.subrange(0, k)),
            None => Some(rest),
        }
    } else {
        None
    }
}

/// The step number written in a branch id, when it has one.
pub open spec fn step_of(id: Seq<char>) -> Option<u64> {
    match step_field(id) {
        Some(f) => parse_u64_spec(f),
        None => None,
    }
}

pub fn step_number(id: &str) -> (r: Option<u64>)
    ensures
        r == step_of(id@),
{
    proof { reveal_strlit("step_"); reveal_strlit("_"); }
    if !str_starts_with(id, "step_") {
        return None;
    }
    let n = id.unicode_len();
    let rest = substring(id, 5, n);
    let field = match str_find(rest.as_str(), "_") {
        Some(k) => {
            proof { lemma_found(rest@, "_"@, 0, k as int); }
            substring(rest.as_str(), 0, k)
        },
        None => rest,
    };
    parse_u64(field.as_str())
}

/// The highest step number among `ids` (0 when none has one).
pub open spec fn max_step(ids: Seq<Seq<char>>) -> u64
    decreases ids.len(),
{
    if ids.len() == 0 {
        0
    } else {
        let m = max_step(ids.drop_first());
        match step_of(ids[0]) {
            Some(n) => if n > m { n } else { m },
            None => m,
        }
    }
}

// ---------------------------------------------------------------------------
// Outputs
// ---------------------------------------------------------------------------

/// `o` writes the node described by the other arguments.
pub open spec fn output_is(
    o: Output,
    q: MachineState,
    id: Seq<char>,
    author: Seq<char>,
    payload: Seq<char>,
    cites: Seq<Seq<char>>,
    stake: u64,
) -> bool {
    &&& o.q_o == q
    &&& o.a_o.file_id@ == id
    &&& o.a_o.author@ == author
    &&& o.a_o.payload@ == payload
    &&& ids(o.a_o.citations@) == cites
    &&& o.a_o.stake == stake
}

pub open spec fn branch_id(step: u64, agent: usize) -> Seq<char> {
    "step_"@ + decimal(step as nat) + "_branch_"@ + decimal(agent as nat)
}

pub open spec fn agent_name(agent: usize) -> Seq<char> {
    "Agent_"@ + decimal(agent as nat)
}

/// A branch cites the node it extends, if any.
pub open spec fn parent_cites(parent: Seq<char>) -> Seq<Seq<char>> {
    if parent.len() == 0 { seq![] } else { seq![parent] }
}

/// The node written for one agent's answer in step `step`.
pub open spec fn is_branch(o: Output, q: MachineState, step: u64, parent: Seq<char>, answer: (usize, String)) -> bool {
    output_is(o, q, branch_id(step, answer.0), agent_name(answer.0), answer.1@, parent_cites(parent), 1)
}

pub open spec fn abort_id() -> Seq<char> {
    "system_aborted_due_to_failures"@
}

pub open spec fn abort_payload() -> Seq<char> {
    "[State: HALTED DUE TO REPEATED API FAILURES]"@
}

pub open spec fn failed_id(step: u64) -> Seq<char> {
    "step_"@ + decimal(step as nat) + "_failed"@
}

fn branch_output(q: MachineState, step: u64, parent: &str, agent: usize, text: &String) -> (o: Output)
    ensures
        output_is(o, q, branch_id(step, agent), agent_name(agent), text@, parent_cites(parent@), 1),
{
    let mut id = String::from_str("step_");
    id.append(decimal_string_u64(step).as_str());
    id.append("_branch_");
    id.append(decimal_string(agent).as_str());
    let mut author = String::from_str("Agent_");
    author.append(decimal_string(agent).as_str());
    let mut citations: Vec<String> = Vec::new();
    if parent.unicode_len() > 0 {
        citations.push(parent.to_owned());
    }
    assert(ids(citations@) =~= parent_cites(parent@));
    Output {
        q_o: q,
        a_o: Action { file_id: id, author, payload: text.clone(), citations, stake: 1 },
    }
}

// ---------------------------------------------------------------------------
// The ledger
// ---------------------------------------------------------------------------

/// The step counter and the queue of branches waiting for the tape.
pub struct SwarmLedger {
    pub current_step: u64,
    pub total_steps: u64,
    /// Branches still to be handed out; the last one goes first.
    pub queued_outputs: Vec<Output>,
    pub consecutive_failures: usize,
}

impl SwarmLedger {
    /// A ledger that first replays the branches recovered from the log, in
    /// the order in which they were logged, and resumes counting after the highest step
    /// among them.
    pub fn recover<P>(recovered: Vec<File<P>>, total_steps: u64) -> (l: SwarmLedger)
        ensures
            l.total_steps == total_steps,
            l.consecutive_failures == 0,
            l.current_step == max_step(recovered@.map_values(|f: File<P>| f.id@)),
            l.queued_outputs@.len() == recovered@.len(),
            forall|i: int| 0 <= i < recovered@.len() ==> {
                let f = #[trigger] recovered@[recovered@.len() - 1 - i];
                output_is(l.queued_outputs@[i], MachineState::Running, f.id@, f.author@, f.payload@,
                    ids(f.citations@), f.stake)
            },
    {
        let ghost fs = recovered@;
        let ghost fids = fs.map_values(|f: File<P>| f.id@);
        let mut files = recovered;
        let mut queue: Vec<Output> = Vec::new();
        let mut max: u64 = 0;
        while files.len() > 0
            invariant
                fids == fs.map_values(|f: File<P>| f.id@),
                files@ == fs.subrange(0, files@.len() as int),
                files@.len() <= fs.len(),
                queue@.len() == fs.len() - files@.len(),
                max == max_step(fids.subrange(files@.len() as int, fs.len() as int)),
                forall|i: int| 0 <= i < queue@.len() ==> {
                    let f = #[trigger] fs[fs.len() - 1 - i];
                    output_is(queue@[i], MachineState::Running, f.id@, f.author@, f.payload@,
                        ids(f.citations@), f.stake)
                },
            decreases files@.len(),
        {
            let ghost j = files@.len() - 1;
            let f = files.pop().unwrap();
            assert(f == fs[j]);
            let n = step_number(f.id.as_str());
            proof {
                let suffix = fids.subrange(j, fs.len() as int);
                assert(suffix.drop_first() =~= fids.subrange(j + 1, fs.len() as int));
                assert(suffix[0] == f.id@);
            }
            match n {
                Some(k) => {
                    if k > max {
                        max = k;
                    }
                },
                None => {},
            }
            let ghost before = queue@;
            queue.push(Output {
                q_o: MachineState::Running,
                a_o: Action {
                    file_id: f.id,
                    author: f.author,
                    payload: f.payload,
                    citations: f.citations,
                    stake: f.stake,
                },
            });
            assert(forall|i: int| 0 <= i < before.len() ==> queue@[i] == before[i]);
        }
        assert(fids.subrange(0, fs.len() as int) =~= fids);
        SwarmLedger { current_step: max, total_steps, queued_outputs: queue, consecutive_failures: 0 }
    }

    /// A ledger with nothing queued, starting before step 1.
    pub fn new(total_steps: u64) -> (l: SwarmLedger)
        ensures
            l.current_step == 0,
            l.total_steps == total_steps,
            l.queued_outputs@.len() == 0,
            l.consecutive_failures == 0,
    {
        SwarmLedger { current_step: 0, total_steps, queued_outputs: Vec::new(), consecutive_failures: 0 }
    }

    /// The next queued branch, if any.
    pub fn next_queued(&mut self) -> (o: Option<Output>)
        ensures
            old(self).queued_outputs@.len() == 0 ==> o is None && final(self).queued_outputs@.len() == 0,
            old(self).queued_outputs@.len() > 0 ==> o == Some(old(self).queued_outputs@.last())
                && final(self).queued_outputs@ == old(self).queued_outputs@.drop_last(),
            final(self).current_step == old(self).current_step,
            final(self).total_steps == old(self).total_steps,
            final(self).consecutive_failures == old(self).consecutive_failures,
    {
        self.queued_outputs.pop()
    }

    /// Moves to the next step; the machine halts once the target step is
    /// reached.
    pub fn begin_step(&mut self) -> (q: MachineState)
        requires
            old(self).current_step < u64::MAX,
        ensures
            final(self).current_step == old(self).current_step + 1,
            q == if final(self).current_step >= old(self).total_steps { MachineState::Halt } else { MachineState::Running },
            final(self).total_steps == old(self).total_steps,
            final(self).queued_outputs@ == old(self).queued_outputs@,
            final(self).consecutive_failures == old(self).consecutive_failures,
    {
        self.current_step = self.current_step + 1;
        if self.current_step >= self.total_steps { MachineState::Halt } else { MachineState::Running }
    }

    /// Queues one branch per answer of the round and hands out the last
    /// queued branch. When there is none, the step is taken back and the
    /// round counts as failed: the swarm halts after
    /// `MAX_CONSECUTIVE_FAILURES` failed rounds in a row, and otherwise
    /// writes a placeholder node `step_<n>_failed` with `failed_payload`.
    pub fn settle_round(
        &mut self,
        q: MachineState,
        parent_id: &str,
        answers: &Vec<(usize, String)>,
        failed_payload: &str,
    ) -> (o: Output)
        requires
            old(self).current_step >= 1,
            old(self).consecutive_failures < usize::MAX,
        ensures
            ({
                let q0 = old(self).queued_outputs@;
                let n = answers@.len();
                let step = old(self).current_step;
                if q0.len() + n > 0 {
                    &&& (if n > 0 { is_branch(o, q, step, parent_id@, answers@[n - 1]) } else { o == q0.last() })
                    &&& final(self).queued_outputs@.len() == q0.len() + n - 1
                    &&& forall|i: int| 0 <= i < q0.len() && i < q0.len() + n - 1 ==>
                        #[trigger] final(self).queued_outputs@[i] == q0[i]
                    &&& forall|i: int| q0.len() <= i < q0.len() + n - 1 ==>
                        is_branch(#[trigger] final(self).queued_outputs@[i], q, step, parent_id@, answers@[i - q0.len()])
                    &&& final(self).current_step == step
                    &&& final(self).consecutive_failures == 0
                } else {
                    &&& final(self).current_step == step - 1
                    &&& final(self).consecutive_failures == old(self).consecutive_failures + 1
                    &&& final(self).queued_outputs@.len() == 0
                    &&& (if final(self).consecutive_failures >= MAX_CONSECUTIVE_FAILURES {
                        output_is(o, MachineState::Halt, abort_id(), "System"@, abort_payload(), seq![], 1)
                    } else {
                        output_is(o, MachineState::Running, failed_id(step), "System"@, failed_payload@, seq![], 0)
                    })
                }
            }),
            final(self).total_steps == old(self).total_steps,
    {
        let ghost q0 = self.queued_outputs@;
        let step = self.current_step;
        let mut k: usize = 0;
        while k < answers.len()
            invariant
                k <= answers@.len(),
                step == old(self).current_step,
                self.current_step == step,
                self.total_steps == old(self).total_steps,
                self.consecutive_failures == old(self).consecutive_failures,
                q0 == old(self).queued_outputs@,
                self.queued_outputs@.len() == q0.len() + k,
                forall|i: int| 0 <= i < q0.len() ==> #[trigger] self.queued_outputs@[i] == q0[i],
                forall|i: int| q0.len() <= i < q0.len() + k ==>
                    is_branch(#[trigger] self.queued_outputs@[i], q, step, parent_id@, answers@[i - q0.len()]),
            decreases answers@.len() - k,
        {
            let o = branch_output(q, step, parent_id, answers[k].0, &answers[k].1);
            let ghost before = self.queued_outputs@;
            self.queued_outputs.push(o);
            assert(forall|i: int| 0 <= i < before.len() ==> self.queued_outputs@[i] == before[i]);
            k = k + 1;
        }
        let ghost full = self.queued_outputs@;
        match self.queued_outputs.pop() {
            Some(o) => {
                self.consecutive_failures = 0;
                assert(o == full[full.len() - 1]);
                assert(forall|i: int| 0 <= i < full.len() - 1 ==> self.queued_outputs@[i] == full[i]);
                proof {
                    if answers@.len() > 0 {
                        assert(is_branch(full[full.len() - 1], q, step, parent_id@, answers@[full.len() - 1 - q0.len()]));
                    }
                }
                o
            },
            None => {
                self.current_step = step - 1;
                self.consecutive_failures = self.consecutive_failures + 1;
                if self.consecutive_failures >= MAX_CONSECUTIVE_FAILURES {
                    let citations: Vec<String> = Vec::new();
                    assert(ids(citations@) =~= Seq::<Seq<char>>::empty());
                    Output {
                        q_o: MachineState::Halt,
                        a_o: Action {
                            file_id: String::from_str("system_aborted_due_to_failures"),
                            author: String::from_str("System"),
                            payload: String::from_str("[State: HALTED DUE TO REPEATED API FAILURES]"),
                            citations,
                            stake: 1,
                        },
                    }
                } else {
                    let mut id = String::from_str("step_");
                    id.append(decimal_string_u64(step).as_str());
                    id.append("_failed");
                    let citations: Vec<String> = Vec::new();
                    assert(ids(citations@) =~= Seq::<Seq<char>>::empty());
                    Output {
                        q_o: MachineState::Running,
                        a_o: Action {
                            file_id: id,
                            author: String::from_str("System"),
                            payload: failed_payload.to_owned(),
                            citations,
                            stake: 0,
                        },
                    }
                }
            },
        }
    }
}

// ---------------------------------------------------------------------------
// From an answer to a branch payload
// ---------------------------------------------------------------------------

/// A branch extends the state it was asked about by one indented line.
pub open spec fn extend_state(last_state: Seq<char>, step_text: Seq<char>) -> Seq<char> {
    last_state + "\n  "@ + step_text
}

pub fn branch_payload(last_state: &str, step_text: &str) -> (r: String)
    ensures
        r@ == extend_state(last_state@, step_text@),
{
    let mut r = last_state.to_owned();
    r.append("\n  ");
    r.append(step_text);
    r
}

/// The tactic of a `[Tactic: ...]` answer, trimmed; any other answer as it
/// is.
pub open spec fn tactic_of(answer: Seq<char>) -> Seq<char> {
    if starts_with(answer, "[Tactic:"@) && ends_with(answer, "]"@) {
        trim(answer.subrange(8, answer.len() - 1))
    } else {
        answer
    }
}

proof fn lemma_tag_bounds(s: Seq<char>)
    requires
        starts_with(s, "[Tactic:"@),
        ends_with(s, "]"@),
    ensures
        9 <= s.len(),
{
    reveal_strlit("[Tactic:");
    reveal_strlit("]");
    assert(s.subrange(0, 8) == "[Tactic:"@);
    assert(s.subrange(0, 8)[7] == s[7]);
    assert("[Tactic:"@[7] == ':');
    assert(s.subrange(s.len() - 1, s.len() as int) == "]"@);
    assert(s.subrange(s.len() - 1, s.len() as int)[0] == s[s.len() - 1]);
    assert("]"@[0] == ']');
}

pub fn tactic_text(answer: &str) -> (r: String)
    ensures
        r@ == tactic_of(answer@),
{
    if str_starts_with(answer, "[Tactic:") && str_ends_with(answer, "]") {
        proof { lemma_tag_bounds(answer@); }
        let n = answer.unicode_len();
        trim_owned(answer.substring_char(8, n - 1))
    } else {
        answer.to_owned()
    }
}

/// An answer that may end in a wallet call: the tactic before the call
/// (unwrapped from `[Tactic: ...]`, with written `\n` turned into line
/// breaks), then the call.
pub open spec fn tactic_with_call(answer: Seq<char>) -> Seq<char> {
    let tactic = match find(answer, "[Tool: Wallet"@) {
        Some(i) => trim(answer.subrange(0, i)),
        None => answer,
    };
    let t = trim(tactic);
    let step = if starts_with(t, "[Tactic:"@) && ends_with(t, "]"@) {
        replace(trim(t.subrange(8, t.len() - 1)), "\\n"@, "\n"@)
    } else {
        tactic
    };
    match find(answer, "[Tool: Wallet"@) {
        Some(i) => step + " "@ + answer.subrange(i, answer.len() as int),
        None => step,
    }
}

pub fn tactic_with_call_text(answer: &str) -> (r: String)
    ensures
        r@ == tactic_with_call(answer@),
{
    proof { reveal_strlit("\\n"); }
    let n = answer.unicode_len();
    let found = str_find(answer, "[Tool: Wallet");
    let tactic = match found {
        Some(i) => {
            proof { lemma_found(answer@, "[Tool: Wallet"@, 0, i as int); }
            trim_owned(answer.substring_char(0, i))
        },
        None => answer.to_owned(),
    };
    let t = trim_owned(tactic.as_str());
    let step = if str_starts_with(t.as_str(), "[Tactic:") && str_ends_with(t.as_str(), "]") {
        proof { lemma_tag_bounds(t@); }
        let m = t.unicode_len();
        let inner = trim_owned(t.as_str().substring_char(8, m - 1));
        replace_str(inner.as_str(), "\\n", "\n")
    } else {
        tactic
    };
    match found {
        Some(i) => {
            let mut r = step;
            r.append(" ");
            r.append(answer.substring_char(i, n));
            r
        },
        None => step,
    }
}

/// The distilled state of a raw answer, followed by the raw answer's last
/// wallet call (from its last `[Tool: Wallet` to the next `]`), which
/// distilling drops.
pub open spec fn with_wallet_call(state: Seq<char>, raw: Seq<char>) -> Seq<char> {
    match rfind(raw, "[Tool: Wallet"@) {
        Some(s) => match find_from(raw, "]"@, s) {
            Some(e) => state + " "@ + raw.subrange(s, e + 1),
            None => state,
        },
        None => state,
    }
}

pub fn with_wallet_call_text(state: &str, raw: &str) -> (r: String)
    ensures
        r@ == with_wallet_call(state@, raw@),
{
    proof { reveal_strlit("]"); }
    let mut r = state.to_owned();
    let _n = raw.unicode_len();
    match str_rfind(raw, "[Tool: Wallet") {
        Some(s) => {
            proof { lemma_rfound(raw@, "[Tool: Wallet"@, s as int); }
            match str_find_from(raw, "]", s) {
                Some(e) => {
                    proof { lemma_found(raw@, "]"@, s as int, e as int); }
                    r.append(" ");
                    r.append(raw.substring_char(s, e + 1));
                },
                None => {},
            }
        },
        None => {},
    }
    r
}

// ---------------------------------------------------------------------------
// The router's pool
// ---------------------------------------------------------------------------

/// A node the router may extend: its payload does not report a failure and
/// it carries a stake.
pub open spec fn routable<P>(f: File<P>) -> bool {
    !contains(f.payload@, "failed"@) && f.stake > 0
}

/// No node cites `id`.
pub open spec fn childless<P>(tape: Tape<P>, id: Seq<char>) -> bool {
    !(tape.rev_view().contains_key(id) && tape.rev_view()[id].len() > 0)
}

/// The routable nodes among `arrow`, in order (only the childless ones when
/// `leaves_only`).
pub open spec fn routable_ids<P>(tape: Tape<P>, arrow: Seq<Seq<char>>, leaves_only: bool) -> Seq<Seq<char>>
    decreases arrow.len(),
{
    if arrow.len() == 0 {
        seq![]
    } else {
        let rest = routable_ids(tape, arrow.drop_last(), leaves_only);
        let id = arrow.last();
        if tape.files@.contains_key(id) && routable(tape.files@[id]) && (!leaves_only || childless(tape, id)) {
            rest.push(id)
        } else {
            rest
        }
    }
}

/// The nodes the router draws from, in time order: the routable leaves, or
/// every routable node when none of them is a leaf.
pub open spec fn routing_pool<P>(tape: Tape<P>) -> Seq<Seq<char>> {
    let leaves = routable_ids(tape, tape.arrow(), true);
    if leaves.len() > 0 { leaves } else { routable_ids(tape, tape.arrow(), false) }
}

/// The ids the router draws the next parent from.
pub fn routing_candidates<P>(tape: &Tape<P>) -> (r: Vec<String>)
    ensures
        ids(r@) == routing_pool(*tape),
{
    let mut leaves: Vec<String> = Vec::new();
    let mut all: Vec<String> = Vec::new();
    let ghost arrow = tape.arrow();
    let mut k: usize = 0;
    while k < tape.time_arrow.len()
        invariant
            arrow == tape.arrow(),
            k <= tape.time_arrow@.len(),
            ids(leaves@) == routable_ids(*tape, arrow.subrange(0, k as int), true),
            ids(all@) == routable_ids(*tape, arrow.subrange(0, k as int), false),
        decreases tape.time_arrow@.len() - k,
    {
        let id = &tape.time_arrow[k];
        assert(arrow[k as int] == id@);
        assert(arrow.subrange(0, k + 1).drop_last() =~= arrow.subrange(0, k as int));
        assert(arrow.subrange(0, k + 1).last() == id@);
        match tape.files.get(id.as_str()) {
            Some(f) => {
                if !str_contains(f.payload.as_str(), "failed") && f.stake > 0 {
                    let leaf = match tape.reverse_citations.get(id.as_str()) {
                        Some(children) => children.len() == 0,
                        None => true,
                    };
                    let ghost before_all = all@;
                    all.push(id.clone());
                    assert(ids(all@) =~= ids(before_all).push(id@));
                    if leaf {
                        let ghost before = leaves@;
                        leaves.push(id.clone());
                        assert(ids(leaves@) =~= ids(before).push(id@));
                    }
                }
            },
            None => {},
        }
        k = k + 1;
    }
    assert(arrow.subrange(0, arrow.len() as int) =~= arrow);
    if leaves.len() > 0 { leaves } else { all }
}

} // verus!
