//! The decisions of the proof reactor: which role each agent plays, what an
//! agent is told after a rejection, the shared bulletin of common errors, and
//! the counters the reactor keeps between transactions.

use vstd::prelude::*;
use vstd::string::*;
use crate::kernel::{golden_path_is_chain, ids, Tape};
use crate::sdk::protocol::opt_view;
use crate::text::{
    contains, decimal, decimal_string, replace, replace_str, starts_with, str_contains,
    str_starts_with, take_chars, take_chars_exec, to_uppercase, trim, trim_str, uppercase,
};

verus! {

broadcast use vstd::string::group_string_axioms;

// ---------------------------------------------------------------------------
// Roles
// ---------------------------------------------------------------------------

/// The three roles of the swarm: builders of proof steps, buyers of YES on
/// sound steps, and buyers of NO on flawed ones.
#[derive(Debug, Clone, Copy, PartialEq, Eq, Structural)]
pub enum AgentRole {
    Mathematician,
    Bull,
    Bear,
}

/// Agents `0 .. math` build, the next `bull` buy YES, the rest buy NO.
pub open spec fn role_of(i: nat, math: nat, bull: nat) -> AgentRole {
    if i < math {
        AgentRole::Mathematician
    } else if i < math + bull {
        AgentRole::Bull
    } else {
        AgentRole::Bear
    }
}

pub open spec fn role_tag(r: AgentRole) -> Seq<char> {
    match r {
        AgentRole::Mathematician => "MATH"@,
        AgentRole::Bull => "BULL"@,
        AgentRole::Bear => "BEAR"@,
    }
}

pub open spec fn role_name(r: AgentRole) -> Seq<char> {
    match r {
        AgentRole::Mathematician => "Mathematician"@,
        AgentRole::Bull => "Bull"@,
        AgentRole::Bear => "Bear"@,
    }
}

impl AgentRole {
    /// The role of agent `i` when the first `math_count` agents build and
    /// the next `bull_count` buy YES.
    pub fn for_agent(i: usize, math_count: usize, bull_count: usize) -> (r: AgentRole)
        ensures
            r == role_of(i as nat, math_count as nat, bull_count as nat),
    {
        if i < math_count {
            AgentRole::Mathematician
        } else if i - math_count < bull_count {
            AgentRole::Bull
        } else {
            AgentRole::Bear
        }
    }

    /// The short tag shown in the spawn log.
    pub fn tag(&self) -> (r: &'static str)
        ensures
            r@ == role_tag(*self),
    {
        match self {
            AgentRole::Mathematician => "MATH",
            AgentRole::Bull => "BULL",
            AgentRole::Bear => "BEAR",
        }
    }

    /// The role's name.
    pub fn name(&self) -> (r: &'static str)
        ensures
            r@ == role_name(*self),
    {
        match self {
            AgentRole::Mathematician => "Mathematician",
            AgentRole::Bull => "Bull",
            AgentRole::Bear => "Bear",
        }
    }
}

// ---------------------------------------------------------------------------
// Rejection feedback
// ---------------------------------------------------------------------------

/// What an agent is shown of its last rejected submission: nothing when
/// there was none; a demand for one short step when it was refused as too
/// long (front-running); the reason otherwise.
pub open spec fn feedback(last: Seq<char>) -> Seq<char> {
    if last.len() == 0 {
        Seq::empty()
    } else if contains(last, "FRONT-RUNNING"@) {
        "\n=== YOUR LAST SUBMISSION WAS REJECTED (TOO LONG) ===\n"@ + last
            + "\n=== Write ONE short atomic math argument. ===\n"@
    } else {
        "\n=== YOUR LAST SUBMISSION WAS REJECTED ===\n"@ + last + "\n===\n"@
    }
}

pub fn rejection_feedback(last: &str) -> (r: String)
    ensures
        r@ == feedback(last@),
{
    if last.unicode_len() == 0 {
        String::new()
    } else if str_contains(last, "FRONT-RUNNING") {
        let mut r = String::from_str("\n=== YOUR LAST SUBMISSION WAS REJECTED (TOO LONG) ===\n");
        r.append(last);
        r.append("\n=== Write ONE short atomic math argument. ===\n");
        r
    } else {
        let mut r = String::from_str("\n=== YOUR LAST SUBMISSION WAS REJECTED ===\n");
        r.append(last);
        r.append("\n===\n");
        r
    }
}

// ---------------------------------------------------------------------------
// The bulletin of common errors
// ---------------------------------------------------------------------------

/// The bulletin holds at most this many errors; the oldest leaves first.
pub const BULLETIN_CAPACITY: usize = 5;

/// An error is posted by its first 80 characters.
pub open spec fn short_error(err: Seq<char>) -> Seq<char> {
    take_chars(err, 80)
}

/// An error counts as posted already when it begins with the first 30
/// characters of an entry.
pub open spec fn already_posted(entries: Seq<Seq<char>>, short: Seq<char>) -> bool {
    exists|k: int| 0 <= k < entries.len() && #[trigger] starts_with(short, take_chars(entries[k], 30))
}

/// The bulletin after `err` is posted to it.
pub open spec fn posted(entries: Seq<Seq<char>>, err: Seq<char>) -> Seq<Seq<char>> {
    let short = short_error(err);
    if already_posted(entries, short) {
        entries
    } else if entries.push(short).len() > BULLETIN_CAPACITY {
        entries.push(short).drop_first()
    } else {
        entries.push(short)
    }
}

/// The entries joined by line breaks.
pub open spec fn joined(lines: Seq<Seq<char>>) -> Seq<char>
    decreases lines.len(),
{
    if lines.len() == 0 {
        Seq::empty()
    } else if lines.len() == 1 {
        lines[0]
    } else {
        joined(lines.drop_last()) + "\n"@ + lines.last()
    }
}

/// The bulletin as agents read it: nothing while it is empty.
pub open spec fn board(entries: Seq<Seq<char>>) -> Seq<char> {
    if entries.len() == 0 {
        Seq::empty()
    } else {
        "\n=== BULLETIN BOARD (common errors \u{2014} learn from others) ===\n"@ + joined(entries)
            + "\n===\n"@
    }
}

/// Common errors seen by all agents, deduplicated by prefix.
pub struct Bulletin {
    pub entries: Vec<String>,
}

impl View for Bulletin {
    type V = Seq<Seq<char>>;

    open spec fn view(&self) -> Seq<Seq<char>> {
        self.entries@.map_values(|s: String| s@)
    }
}

impl Bulletin {
    pub open spec fn wf(&self) -> bool {
        self@.len() <= BULLETIN_CAPACITY
    }

    pub fn new() -> (b: Bulletin)
        ensures
            b@ == Seq::<Seq<char>>::empty(),
            b.wf(),
    {
        let b = Bulletin { entries: Vec::new() };
        assert(b@ =~= Seq::<Seq<char>>::empty());
        b
    }

    /// Whether `short` begins with the first 30 characters of an entry.
    fn holds_prefix_of(&self, short: &str) -> (b: bool)
        ensures
            b == already_posted(self@, short@),
    {
        let mut k: usize = 0;
        while k < self.entries.len()
            invariant
                k <= self.entries@.len(),
                forall|j: int| 0 <= j < k ==> !starts_with(short@, take_chars(#[trigger] self@[j], 30)),
            decreases self.entries@.len() - k,
        {
            let key = take_chars_exec(self.entries[k].as_str(), 30);
            assert(self@[k as int] == self.entries@[k as int]@);
            if str_starts_with(short, key.as_str()) {
                assert(starts_with(short@, take_chars(self@[k as int], 30)));
                return true;
            }
            k = k + 1;
        }
        assert forall|j: int| 0 <= j < self@.len() implies !#[trigger] starts_with(
            short@,
            take_chars(self@[j], 30),
        ) by {}
        false
    }

    /// Posts a rejection reason, unless one like it is already there; the
    /// oldest entry leaves when the bulletin would hold too many.
    pub fn post(&mut self, err: &str)
        requires
            old(self).wf(),
        ensures
            final(self).wf(),
            final(self)@ == posted(old(self)@, err@),
    {
        let short = take_chars_exec(err, 80);
        if !self.holds_prefix_of(short.as_str()) {
            let ghost before = self@;
            self.entries.push(short);
            assert(self@ =~= before.push(short_error(err@)));
            if self.entries.len() > BULLETIN_CAPACITY {
                self.entries.remove(0);
                assert(self@ =~= before.push(short_error(err@)).drop_first());
            }
        }
    }

    /// The bulletin as agents read it.
    pub fn board_text(&self) -> (r: String)
        ensures
            r@ == board(self@),
    {
        if self.entries.len() == 0 {
            return String::new();
        }
        let mut r = String::from_str(
            "\n=== BULLETIN BOARD (common errors \u{2014} learn from others) ===\n",
        );
        let ghost head = r@;
        r.append(self.entries[0].as_str());
        let mut k: usize = 1;
        assert(self@.subrange(0, 1).drop_last() =~= Seq::<Seq<char>>::empty());
        while k < self.entries.len()
            invariant
                1 <= k <= self.entries@.len(),
                r@ == head + joined(self@.subrange(0, k as int)),
            decreases self.entries@.len() - k,
        {
            let ghost prev = r@;
            r.append("\n");
            r.append(self.entries[k].as_str());
            assert(self@.subrange(0, k + 1).drop_last() =~= self@.subrange(0, k as int));
            assert(self@.subrange(0, k + 1).last() == self@[k as int]);
            k = k + 1;
        }
        assert(self@.subrange(0, self@.len() as int) =~= self@);
        r.append("\n===\n");
        r
    }
}

/// Posting the same error twice changes the bulletin only once.
pub proof fn repost_changes_nothing(entries: Seq<Seq<char>>, err: Seq<char>)
    requires
        entries.len() <= BULLETIN_CAPACITY,
    ensures
        posted(posted(entries, err), err) == posted(entries, err),
{
    let short = short_error(err);
    let once = posted(entries, err);
    if !already_posted(entries, short) {
        let k = once.len() - 1;
        assert(once[k] == short);
        assert(take_chars(short, 30) =~= short.subrange(0, take_chars(short, 30).len() as int));
        assert(starts_with(short, take_chars(once[k], 30)));
        assert(already_posted(once, short));
    }
}

/// The bulletin never holds more than its capacity.
pub proof fn bulletin_stays_small(entries: Seq<Seq<char>>, err: Seq<char>)
    requires
        entries.len() <= BULLETIN_CAPACITY,
    ensures
        posted(entries, err).len() <= BULLETIN_CAPACITY,
{
}

// ---------------------------------------------------------------------------
// What an agent's action leads to
// ---------------------------------------------------------------------------

/// What the reactor does with an agent's parsed action: submit a
/// transaction (citing the agent's parent node or not), run a search, show a
/// node, only note that the agent was active, or nothing.
pub enum AgentMove {
    Submit { action_type: String, payload: String, cites_parent: bool },
    Search { query: String },
    View { node: String },
    Heartbeat,
    Nothing,
}

pub enum MoveForm {
    Submit { action_type: Seq<char>, payload: Seq<char>, cites_parent: bool },
    Search { query: Seq<char> },
    View { node: Seq<char> },
    Heartbeat,
    Nothing,
}

impl View for AgentMove {
    type V = MoveForm;

    open spec fn view(&self) -> MoveForm {
        match self {
            AgentMove::Submit { action_type, payload, cites_parent } => MoveForm::Submit {
                action_type: action_type@,
                payload: payload@,
                cites_parent: *cites_parent,
            },
            AgentMove::Search { query } => MoveForm::Search { query: query@ },
            AgentMove::View { node } => MoveForm::View { node: node@ },
            AgentMove::Heartbeat => MoveForm::Heartbeat,
            AgentMove::Nothing => MoveForm::Nothing,
        }
    }
}

pub open spec fn or_empty(o: Option<Seq<char>>) -> Seq<char> {
    match o {
        Some(s) => s,
        None => Seq::empty(),
    }
}

/// The wallet tag that buys YES on `node` for `amount` (its text).
pub open spec fn wallet_tag(node: Seq<char>, amount: Seq<char>) -> Seq<char> {
    "[Tool: Wallet | Action: Invest | Node: "@ + node + " | Amount: "@ + amount + "]"@
}

/// A step followed by the wallet tag that buys YES on it.
pub open spec fn invest_payload(tactic: Seq<char>, node: Seq<char>, amount: Seq<char>) -> Seq<char> {
    tactic + " "@ + wallet_tag(node, amount)
}

/// The wallet tag that buys NO on `node`.
pub open spec fn short_payload(node: Seq<char>, amount: Seq<char>) -> Seq<char> {
    wallet_tag("SHORT:"@ + node, amount)
}

/// The move for an action in an agent's turn; `amount` is the text of the
/// action's amount (1 when it gives none), with two decimals.
pub open spec fn turn_move(
    tool: Seq<char>,
    tactic: Option<Seq<char>>,
    node: Option<Seq<char>>,
    query: Option<Seq<char>>,
    amount: Seq<char>,
) -> MoveForm {
    if tool == "append"@ {
        if or_empty(tactic).len() > 0 {
            MoveForm::Submit { action_type: "append"@, payload: or_empty(tactic), cites_parent: true }
        } else {
            MoveForm::Nothing
        }
    } else if tool == "invest"@ {
        let n = match node {
            Some(n) => n,
            None => "self"@,
        };
        MoveForm::Submit {
            action_type: "invest"@,
            payload: invest_payload(or_empty(tactic), n, amount),
            cites_parent: true,
        }
    } else if tool == "short"@ {
        if or_empty(node).len() > 0 {
            MoveForm::Submit {
                action_type: "short"@,
                payload: short_payload(or_empty(node), amount),
                cites_parent: false,
            }
        } else {
            MoveForm::Nothing
        }
    } else if tool == "search"@ {
        MoveForm::Search { query: or_empty(query) }
    } else if tool == "view_node"@ {
        MoveForm::View { node: or_empty(query) }
    } else {
        MoveForm::Heartbeat
    }
}

/// The move for an action in the review round, where only bets on existing
/// nodes count; `amount` is the text of the amount, at least 2.
pub open spec fn review_move(tool: Seq<char>, node: Option<Seq<char>>, amount: Seq<char>) -> MoveForm {
    if tool == "invest"@ {
        let n = or_empty(node);
        if n.len() > 0 && n != "self"@ {
            MoveForm::Submit { action_type: "invest"@, payload: wallet_tag(n, amount), cites_parent: false }
        } else {
            MoveForm::Nothing
        }
    } else if tool == "short"@ {
        if or_empty(node).len() > 0 {
            MoveForm::Submit {
                action_type: "short"@,
                payload: short_payload(or_empty(node), amount),
                cites_parent: false,
            }
        } else {
            MoveForm::Nothing
        }
    } else {
        MoveForm::Heartbeat
    }
}

fn same_text(a: &str, b: &str) -> (r: bool)
    ensures
        r == (a@ == b@),
{
    String::from_str(a) == String::from_str(b)
}

fn text_or_empty(o: &Option<String>) -> (r: String)
    ensures
        r@ == or_empty(opt_view(*o)),
{
    match o {
        Some(s) => s.clone(),
        None => String::new(),
    }
}

fn wallet_tag_text(node: &str, amount: &str) -> (r: String)
    ensures
        r@ == wallet_tag(node@, amount@),
{
    let mut r = String::from_str("[Tool: Wallet | Action: Invest | Node: ");
    r.append(node);
    r.append(" | Amount: ");
    r.append(amount);
    r.append("]");
    r
}

fn short_payload_text(node: &str, amount: &str) -> (r: String)
    ensures
        r@ == short_payload(node@, amount@),
{
    let mut n = String::from_str("SHORT:");
    n.append(node);
    wallet_tag_text(n.as_str(), amount)
}

/// The move for an action in an agent's turn.
pub fn turn_move_of(
    tool: &str,
    tactic: &Option<String>,
    node: &Option<String>,
    query: &Option<String>,
    amount: &str,
) -> (m: AgentMove)
    ensures
        m@ == turn_move(tool@, opt_view(*tactic), opt_view(*node), opt_view(*query), amount@),
{
    if same_text(tool, "append") {
        let t = text_or_empty(tactic);
        if t.unicode_len() > 0 {
            AgentMove::Submit { action_type: String::from_str("append"), payload: t, cites_parent: true }
        } else {
            AgentMove::Nothing
        }
    } else if same_text(tool, "invest") {
        let n = match node {
            Some(n) => n.clone(),
            None => String::from_str("self"),
        };
        let mut p = text_or_empty(tactic);
        p.append(" ");
        p.append(wallet_tag_text(n.as_str(), amount).as_str());
        AgentMove::Submit { action_type: String::from_str("invest"), payload: p, cites_parent: true }
    } else if same_text(tool, "short") {
        let n = text_or_empty(node);
        if n.unicode_len() > 0 {
            AgentMove::Submit {
                action_type: String::from_str("short"),
                payload: short_payload_text(n.as_str(), amount),
                cites_parent: false,
            }
        } else {
            AgentMove::Nothing
        }
    } else if same_text(tool, "search") {
        AgentMove::Search { query: text_or_empty(query) }
    } else if same_text(tool, "view_node") {
        AgentMove::View { node: text_or_empty(query) }
    } else {
        AgentMove::Heartbeat
    }
}

/// The move for an action in the review round.
pub fn review_move_of(tool: &str, node: &Option<String>, amount: &str) -> (m: AgentMove)
    ensures
        m@ == review_move(tool@, opt_view(*node), amount@),
{
    if same_text(tool, "invest") {
        let n = text_or_empty(node);
        if n.unicode_len() > 0 && !same_text(n.as_str(), "self") {
            AgentMove::Submit {
                action_type: String::from_str("invest"),
                payload: wallet_tag_text(n.as_str(), amount),
                cites_parent: false,
            }
        } else {
            AgentMove::Nothing
        }
    } else if same_text(tool, "short") {
        let n = text_or_empty(node);
        if n.unicode_len() > 0 {
            AgentMove::Submit {
                action_type: String::from_str("short"),
                payload: short_payload_text(n.as_str(), amount),
                cites_parent: false,
            }
        } else {
            AgentMove::Nothing
        }
    } else {
        AgentMove::Heartbeat
    }
}

// ---------------------------------------------------------------------------
// The verifying model
// ---------------------------------------------------------------------------

/// The payloads of the chain that ends at `id`, root first.
pub open spec fn chain_payloads<P>(tape: Tape<P>, id: Seq<char>) -> Seq<Seq<char>> {
    let gp = tape.golden_path(id);
    Seq::new(gp.len(), |i: int| tape.files@[gp[gp.len() - 1 - i]].payload@)
}

/// `Step <n>: <payload, trimmed>` for each step, numbered from 1.
pub open spec fn step_lines(payloads: Seq<Seq<char>>) -> Seq<char>
    decreases payloads.len(),
{
    if payloads.len() == 0 {
        Seq::empty()
    } else {
        step_lines(payloads.drop_last()) + "Step "@ + decimal(payloads.len()) + ": "@
            + trim(payloads.last()) + "\n"@
    }
}

/// The question put to the verifying model about a proof chain.
pub open spec fn oracle_request(problem: Seq<char>, payloads: Seq<Seq<char>>) -> Seq<char> {
    "PROBLEM: "@ + problem + "\n\nPROOF CHAIN ("@ + decimal(payloads.len()) + " steps):\n"@
        + step_lines(payloads)
        + "\nIS THIS PROOF MATHEMATICALLY CORRECT AND COMPLETE? Answer YES or NO with brief justification."@
}

/// The question about the chain that ends at `candidate`.
pub fn oracle_request_text<P>(tape: &Tape<P>, candidate: &str, problem: &str) -> (r: String)
    requires
        tape.wf(),
    ensures
        r@ == oracle_request(problem@, chain_payloads(*tape, candidate@)),
{
    let path = tape.trace_golden_path(candidate);
    let ghost gp = tape.golden_path(candidate@);
    let ghost ps = chain_payloads(*tape, candidate@);
    proof { golden_path_is_chain(*tape, candidate@); }
    assert(ids(path@) == gp);
    assert(ids(path@).len() == path@.len());
    let mut r = String::from_str("PROBLEM: ");
    r.append(problem);
    r.append("\n\nPROOF CHAIN (");
    r.append(decimal_string(path.len()).as_str());
    r.append(" steps):\n");
    let ghost head = r@;
    assert(ps.subrange(0, 0) =~= Seq::<Seq<char>>::empty());
    let mut k: usize = 0;
    while k < path.len()
        invariant
            tape.wf(),
            gp == tape.golden_path(candidate@),
            ps == chain_payloads(*tape, candidate@),
            ids(path@) == gp,
            ids(path@).len() == path@.len(),
            forall|j: int| 0 <= j < gp.len() ==> #[trigger] tape.files@.contains_key(gp[j]),
            k <= path@.len(),
            r@ == head + step_lines(ps.subrange(0, k as int)),
        decreases path@.len() - k,
    {
        let idx = path.len() - 1 - k;
        let id = &path[idx];
        assert(ids(path@)[idx as int] == id@);
        assert(tape.files@.contains_key(gp[idx as int]));
        let node = tape.files.get(id.as_str()).unwrap();
        assert(node.payload@ == ps[k as int]);
        r.append("Step ");
        r.append(decimal_string(k + 1).as_str());
        r.append(": ");
        r.append(trim_str(node.payload.as_str()));
        r.append("\n");
        assert(ps.subrange(0, k + 1).drop_last() =~= ps.subrange(0, k as int));
        assert(ps.subrange(0, k + 1).last() == ps[k as int]);
        k = k + 1;
    }
    assert(ps.subrange(0, path@.len() as int) =~= ps);
    r.append(
        "\nIS THIS PROOF MATHEMATICALLY CORRECT AND COMPLETE? Answer YES or NO with brief justification.",
    );
    r
}

/// The model accepts a proof when its upper-cased answer holds `YES` and
/// does not begin with `NO`.
pub open spec fn accepts(upper: Seq<char>) -> bool {
    contains(upper, "YES"@) && !starts_with(upper, "NO"@)
}

/// The verdict read from an answer already in upper case.
pub fn verdict_accepts(upper: &str) -> (b: bool)
    ensures
        b == accepts(upper@),
{
    str_contains(upper, "YES") && !str_starts_with(upper, "NO")
}

/// The verdict read from the model's answer.
pub fn oracle_accepts(response: &str) -> (b: bool)
    ensures
        b == accepts(uppercase(response@)),
{
    let upper = to_uppercase(response);
    verdict_accepts(upper.as_str())
}

// ---------------------------------------------------------------------------
// When a generation perishes
// ---------------------------------------------------------------------------

/// Seconds without an investment and without a free action after which the
/// market counts as stagnant.
pub const STAGNATION_SECS: u64 = 60;

/// Why a generation ends.
#[derive(Debug, Clone, Copy, PartialEq, Eq, Structural)]
pub enum Perish {
    Bankruptcy,
    Stagnation,
}

/// After an idle spell: the generation perishes when no agent is solvent,
/// or when there has been neither an investment nor a free action for a
/// minute.
pub open spec fn perish_of(solvent: nat, since_invest: nat, since_free: nat) -> Option<Perish> {
    if solvent == 0 {
        Some(Perish::Bankruptcy)
    } else if since_invest >= STAGNATION_SECS && since_free >= STAGNATION_SECS {
        Some(Perish::Stagnation)
    } else {
        None
    }
}

pub fn perish_reason(solvent: usize, secs_since_invest: u64, secs_since_free: u64) -> (r: Option<Perish>)
    ensures
        r == perish_of(solvent as nat, secs_since_invest as nat, secs_since_free as nat),
{
    if solvent == 0 {
        Some(Perish::Bankruptcy)
    } else if secs_since_invest >= STAGNATION_SECS && secs_since_free >= STAGNATION_SECS {
        Some(Perish::Stagnation)
    } else {
        None
    }
}

pub open spec fn perish_text(p: Perish) -> Seq<char> {
    match p {
        Perish::Bankruptcy => "Global bankruptcy"@,
        Perish::Stagnation => "Absolute stagnation"@,
    }
}

impl Perish {
    pub fn text(&self) -> (r: &'static str)
        ensures
            r@ == perish_text(*self),
    {
        match self {
            Perish::Bankruptcy => "Global bankruptcy",
            Perish::Stagnation => "Absolute stagnation",
        }
    }
}

// ---------------------------------------------------------------------------
// Counters
// ---------------------------------------------------------------------------

/// What the reactor counts: every transaction (which numbers the nodes),
/// the appends among them, the generation, and the append count at the last
/// compression of the agents' memories.
#[derive(Debug, Clone, Copy)]
pub struct ReactorCounters {
    pub tx_count: u64,
    pub append_count: u64,
    pub generation: u32,
    pub last_librarian_at: u64,
}

impl ReactorCounters {
    /// No compression ahead of the appends, no append without its
    /// transaction, and generations numbered from 1.
    pub open spec fn wf(&self) -> bool {
        &&& self.last_librarian_at <= self.append_count
        &&& self.append_count <= self.tx_count
        &&& self.generation >= 1
    }

    pub fn new() -> (c: ReactorCounters)
        ensures
            c.wf(),
            c.tx_count == 0 && c.append_count == 0 && c.last_librarian_at == 0,
            c.generation == 1,
    {
        ReactorCounters { tx_count: 0, append_count: 0, generation: 1, last_librarian_at: 0 }
    }

    /// Counts a transaction and returns its number.
    pub fn next_tx(&mut self) -> (n: u64)
        requires
            old(self).wf(),
            old(self).tx_count < u64::MAX,
        ensures
            final(self).wf(),
            n == old(self).tx_count + 1,
            *final(self) == (ReactorCounters { tx_count: n, ..*old(self) }),
    {
        self.tx_count = self.tx_count + 1;
        self.tx_count
    }

    /// Counts an append of the latest transaction.
    pub fn record_append(&mut self)
        requires
            old(self).wf(),
            old(self).append_count < old(self).tx_count,
        ensures
            final(self).wf(),
            *final(self) == (ReactorCounters { append_count: (old(self).append_count + 1) as u64, ..*old(self) }),
    {
        self.append_count = self.append_count + 1;
    }

    /// Whether `interval` appends have come since the last compression.
    pub fn librarian_due(&self, interval: usize) -> (b: bool)
        requires
            self.wf(),
        ensures
            b == (self.append_count - self.last_librarian_at >= interval),
    {
        self.append_count - self.last_librarian_at >= interval as u64
    }

    /// Records a compression at the current append count.
    pub fn mark_compressed(&mut self)
        requires
            old(self).wf(),
        ensures
            final(self).wf(),
            *final(self) == (ReactorCounters { last_librarian_at: old(self).append_count, ..*old(self) }),
    {
        self.last_librarian_at = self.append_count;
    }

    /// Starts the next generation.
    pub fn next_generation(&mut self)
        requires
            old(self).wf(),
            old(self).generation < u32::MAX,
        ensures
            final(self).wf(),
            *final(self) == (ReactorCounters { generation: (old(self).generation + 1) as u32, ..*old(self) }),
    {
        self.generation = self.generation + 1;
    }
}

// ---------------------------------------------------------------------------
// The tape dump
// ---------------------------------------------------------------------------

/// A node's payload in the tape dump: its first 150 characters with line
/// breaks as spaces, and how many characters were left out.
pub open spec fn dump_summary(payload: Seq<char>) -> Seq<char> {
    replace(take_chars(payload, 150), "\n"@, " "@) + if payload.len() > 150 {
        " [+"@ + decimal((payload.len() - 150) as nat) + "c]"@
    } else {
        Seq::empty()
    }
}

pub fn dump_summary_text(payload: &str) -> (r: String)
    ensures
        r@ == dump_summary(payload@),
{
    proof { reveal_strlit("\n"); }
    let t = take_chars_exec(payload, 150);
    let mut r = replace_str(t.as_str(), "\n", " ");
    let n = payload.unicode_len();
    if n > 150 {
        r.append(" [+");
        r.append(decimal_string(n - 150).as_str());
        r.append("c]");
    }
    r
}

} // verus!
