//! Signals that tools send to the bus, and the anti-zombie pruning shield.

use vstd::prelude::*;
use vstd::string::*;
use crate::text::{
    chars_of, line_spans, lines, spans_in, spans_text, span_text, starts_with, trim, trim_range,
};

verus! {

broadcast use vstd::string::group_string_axioms;

/// Which side of a node's market an investment takes.
#[derive(Debug, Clone, Copy, PartialEq, Eq, Structural)]
pub enum BetDirection {
    Long,
    Short,
}

/// A tool's verdict on a pending append. `R` is the type of coin amounts.
pub enum ToolSignal<R> {
    Pass,
    Modify(String),
    Veto(String),
    YieldReward { payload: String, reward: R },
    InvestOnly { target_node: String, amount: R, direction: BetDirection },
}

// ---------------------------------------------------------------------------
// Zombie detection
// ---------------------------------------------------------------------------

/// Lines that are tactics: not empty and not comments.
pub open spec fn keep_tactics(ls: Seq<Seq<char>>) -> Seq<Seq<char>>
    decreases ls.len(),
{
    if ls.len() == 0 {
        seq![]
    } else {
        let rest = keep_tactics(ls.drop_last());
        let l = ls.last();
        if l.len() > 0 && !starts_with(l, "--"@) { rest.push(l) } else { rest }
    }
}

/// The tactics of a payload: its trimmed lines, without blank lines and
/// `--` comments.
pub open spec fn tactics(payload: Seq<char>) -> Seq<Seq<char>> {
    keep_tactics(lines(payload).map_values(|l: Seq<char>| trim(l)))
}

/// Length of the run of equal tactics that ends at `i`.
pub open spec fn run_len(t: Seq<Seq<char>>, i: int) -> nat
    decreases i,
{
    if i <= 0 {
        1
    } else if t[i] == t[i - 1] {
        run_len(t, i - 1) + 1
    } else {
        1
    }
}

/// The first position `>= i` where a repetition brings the run of equal
/// tactics to `max` or more.
pub open spec fn zombie_from(t: Seq<Seq<char>>, max: nat, i: int) -> Option<int>
    decreases t.len() - i,
{
    if i < 1 || i >= t.len() {
        None
    } else if t[i] == t[i - 1] && run_len(t, i) >= max {
        Some(i)
    } else {
        zombie_from(t, max, i + 1)
    }
}

/// Number of positions `i, i - 1, ...` (down to 2) at which the tactic
/// equals the one two places before.
pub open spec fn period2_run(t: Seq<Seq<char>>, i: int) -> nat
    decreases i,
{
    if i >= 2 && t[i] == t[i - 2] {
        period2_run(t, i - 1) + 1
    } else {
        0
    }
}

/// The tail of the tactics cycles between two tactics: at least four
/// tactics, and the last three each repeat the one two before.
pub open spec fn period2_cycle(t: Seq<Seq<char>>) -> bool {
    t.len() >= 4 && period2_run(t, t.len() - 1) >= 3
}

pub open spec fn stuck_message(tactic: Seq<char>) -> Seq<char> {
    "Zombie Behavior: LLM is trapped in a useless tactic loop '"@ + tactic + "'."@
}

pub open spec fn cycle_message(a: Seq<char>, b: Seq<char>) -> Seq<char> {
    "Zombie Behavior: LLM trapped in period-2 cycle '"@ + a + "' <-> '"@ + b + "'"@
}

/// Ranges of `s` holding the tactics of `s`.
fn tactic_spans(s: &Vec<char>) -> (r: Vec<(usize, usize)>)
    ensures
        spans_in(s@, r@),
        spans_text(s@, r@) == tactics(s@),
{
    let ls = line_spans(s);
    let ghost trimmed = lines(s@).map_values(|l: Seq<char>| trim(l));
    let mut r: Vec<(usize, usize)> = Vec::new();
    let mut k: usize = 0;
    while k < ls.len()
        invariant
            k <= ls@.len(),
            spans_in(s@, ls@),
            spans_text(s@, ls@) == lines(s@),
            trimmed == lines(s@).map_values(|l: Seq<char>| trim(l)),
            spans_in(s@, r@),
            spans_text(s@, r@) == keep_tactics(trimmed.subrange(0, k as int)),
        decreases ls@.len() - k,
    {
        let (a, b) = ls[k];
        assert(ls@[k as int].0 <= ls@[k as int].1 <= s@.len());
        let (lo, hi) = trim_range(s, a, b);
        let ghost line = span_text(s@, (lo, hi));
        assert(spans_text(s@, ls@)[k as int] == s@.subrange(a as int, b as int));
        assert(line == trimmed[k as int]);
        let ghost before = r@;
        let is_comment = hi - lo >= 2 && s[lo] == '-' && s[lo + 1] == '-';
        assert(is_comment == starts_with(line, "--"@)) by {
            reveal_strlit("--");
            assert("--"@ =~= seq!['-', '-']);
            if hi - lo >= 2 {
                assert(line.subrange(0, 2) =~= seq![s@[lo as int], s@[lo + 1]]);
            }
        }
        if hi > lo && !is_comment {
            r.push((lo, hi));
            assert(spans_text(s@, r@) =~= spans_text(s@, before).push(line));
        }
        proof {
            let t = trimmed.subrange(0, k + 1);
            assert(t.drop_last() =~= trimmed.subrange(0, k as int));
            assert(t.last() == line);
        }
        k = k + 1;
    }
    assert(trimmed.subrange(0, ls@.len() as int) =~= trimmed);
    r
}

/// Are the ranges `a` and `b` of `s` equal text?
fn span_eq(s: &Vec<char>, a: (usize, usize), b: (usize, usize)) -> (e: bool)
    requires
        a.0 <= a.1 <= s@.len(),
        b.0 <= b.1 <= s@.len(),
    ensures
        e == (span_text(s@, a) == span_text(s@, b)),
{
    if a.1 - a.0 != b.1 - b.0 {
        assert(span_text(s@, a).len() != span_text(s@, b).len());
        return false;
    }
    let n = a.1 - a.0;
    let mut k: usize = 0;
    while k < n
        invariant
            n == a.1 - a.0 == b.1 - b.0,
            a.0 <= a.1 <= s@.len(),
            b.0 <= b.1 <= s@.len(),
            k <= n,
            forall|j: int| 0 <= j < k ==> #[trigger] span_text(s@, a)[j] == span_text(s@, b)[j],
        decreases n - k,
    {
        if s[a.0 + k] != s[b.0 + k] {
            assert(span_text(s@, a)[k as int] != span_text(s@, b)[k as int]);
            return false;
        }
        k = k + 1;
    }
    assert(span_text(s@, a) =~= span_text(s@, b));
    true
}

/// The verdict of the zombie shield on the tactics of `payload`: the first
/// run of `max` equal tactics, else (when `check_cycle`) a period-2 cycle at
/// the end, else nothing.
pub open spec fn zombie_verdict(payload: Seq<char>, max: nat, check_cycle: bool) -> Option<Seq<char>> {
    let t = tactics(payload);
    match zombie_from(t, max, 1) {
        Some(i) => Some(stuck_message(t[i])),
        None => if check_cycle && period2_cycle(t) {
            Some(cycle_message(t[t.len() - 1], t[t.len() - 2]))
        } else {
            None
        },
    }
}

/// Runs the zombie shield over `payload`; the veto reason when it trips.
pub fn zombie_check(payload: &str, max: usize, check_cycle: bool) -> (r: Option<String>)
    ensures
        r matches Some(m) ==> zombie_verdict(payload@, max as nat, check_cycle) == Some(m@),
        r is None ==> zombie_verdict(payload@, max as nat, check_cycle) is None,
{
    let s = chars_of(payload);
    let t = tactic_spans(&s);
    let ghost tt = tactics(payload@);
    assert(tt.len() == t@.len());
    let mut count: usize = 1;
    let mut i: usize = 1;
    while i < t.len()
        invariant
            1 <= i,
            s@ == payload@,
            spans_in(s@, t@),
            spans_text(s@, t@) == tt,
            tt == tactics(payload@),
            i <= t@.len() || t@.len() == 0,
            count == run_len(tt, i - 1),
            count <= i,
            zombie_from(tt, max as nat, 1) == zombie_from(tt, max as nat, i as int),
        decreases t@.len() - i,
    {
        assert(t@[i as int].0 <= t@[i as int].1 <= s@.len());
        assert(t@[i - 1].0 <= t@[i - 1].1 <= s@.len());
        assert(spans_text(s@, t@)[i as int] == span_text(s@, t@[i as int]));
        assert(spans_text(s@, t@)[i - 1] == span_text(s@, t@[i - 1]));
        if span_eq(&s, t[i], t[i - 1]) {
            count = count + 1;
            if count >= max {
                let (a, b) = t[i];
                let mut m = String::from_str("Zombie Behavior: LLM is trapped in a useless tactic loop '");
                m.append(payload.substring_char(a, b));
                m.append("'.");
                return Some(m);
            }
        } else {
            count = 1;
        }
        i = i + 1;
    }
    assert(zombie_from(tt, max as nat, i as int) is None);
    if check_cycle && t.len() >= 4 {
        let n = t.len();
        let mut cycle2: usize = 0;
        let mut j: usize = n - 1;
        while j >= 2
            invariant
                spans_in(s@, t@),
                spans_text(s@, t@) == tt,
                n == t@.len(),
                n >= 4,
                j <= n - 1,
                cycle2 + j == n - 1,
                period2_run(tt, n - 1) == cycle2 + period2_run(tt, j as int),
            ensures
                period2_run(tt, n - 1) == cycle2,
            decreases j,
        {
            assert(t@[j as int].0 <= t@[j as int].1 <= s@.len());
            assert(t@[j - 2].0 <= t@[j - 2].1 <= s@.len());
            assert(spans_text(s@, t@)[j as int] == span_text(s@, t@[j as int]));
            assert(spans_text(s@, t@)[j - 2] == span_text(s@, t@[j - 2]));
            if span_eq(&s, t[j], t[j - 2]) {
                cycle2 = cycle2 + 1;
            } else {
                break;
            }
            j = j - 1;
        }
        if cycle2 >= 3 {
            let (a, b) = t[n - 1];
            let (c, d) = t[n - 2];
            assert(t@[n - 1].0 <= t@[n - 1].1 <= s@.len());
            assert(t@[n - 2].0 <= t@[n - 2].1 <= s@.len());
            assert(spans_text(s@, t@)[n - 1] == span_text(s@, t@[n - 1]));
            assert(spans_text(s@, t@)[n - 2] == span_text(s@, t@[n - 2]));
            let mut m = String::from_str("Zombie Behavior: LLM trapped in period-2 cycle '");
            m.append(payload.substring_char(a, b));
            m.append("' <-> '");
            m.append(payload.substring_char(c, d));
            m.append("'");
            return Some(m);
        }
    }
    None
}

/// `max` equal tactics in a row (at least two) end at position `i`.
pub open spec fn repeated_window(t: Seq<Seq<char>>, max: nat, i: int) -> bool {
    let m: int = if max < 2 { 2 } else { max as int };
    &&& m <= i + 1
    &&& i < t.len()
    &&& forall|j: int| i - m < j <= i ==> t[j] == t[i]
}

proof fn lemma_run_len(t: Seq<Seq<char>>, i: int)
    requires
        0 <= i < t.len(),
    ensures
        1 <= run_len(t, i) <= i + 1,
        forall|j: int| i - run_len(t, i) < j <= i ==> t[j] == t[i],
        i - run_len(t, i) >= 0 ==> t[i - run_len(t, i)] != t[i],
    decreases i,
{
    if i > 0 {
        lemma_run_len(t, i - 1);
        if t[i] == t[i - 1] {
            assert forall|j: int| i - run_len(t, i) < j <= i implies t[j] == t[i] by {
                if j < i {
                    assert(t[j] == t[i - 1]);
                }
            }
        }
    }
}

proof fn lemma_zombie_step(t: Seq<Seq<char>>, max: nat, i: int)
    requires
        1 <= i < t.len(),
    ensures
        (t[i] == t[i - 1] && run_len(t, i) >= max) == repeated_window(t, max, i),
{
    lemma_run_len(t, i);
    let m: int = if max < 2 { 2 } else { max as int };
    let r = run_len(t, i) as int;
    if t[i] == t[i - 1] && run_len(t, i) >= max {
        lemma_run_len(t, i - 1);
        assert(r >= 2);
        assert forall|j: int| i - m < j <= i implies t[j] == t[i] by {
            assert(i - r < j);
        }
    }
    if repeated_window(t, max, i) {
        assert(t[i - 1] == t[i]);
        if r < m {
            assert(t[i - r] == t[i]);
        }
    }
}

/// Where the shield finds a repetition: the first position, from `start`
/// on, at which `max` equal tactics (at least two) stand in a row; none
/// when there is no such run.
pub proof fn zombie_is_first_repeated_run(t: Seq<Seq<char>>, max: nat, start: int)
    requires
        1 <= start,
    ensures
        match zombie_from(t, max, start) {
            Some(i) => start <= i < t.len() && repeated_window(t, max, i)
                && forall|k: int| start <= k < i ==> !repeated_window(t, max, k),
            None => forall|k: int| start <= k < t.len() ==> !repeated_window(t, max, k),
        },
    decreases t.len() - start,
{
    if start < t.len() {
        lemma_zombie_step(t, max, start);
        zombie_is_first_repeated_run(t, max, start + 1);
        assert forall|k: int| start <= k < t.len() && !repeated_window(t, max, start) && k == start
            implies !repeated_window(t, max, k) by {}
    } else {
        assert forall|k: int| start <= k < t.len() implies !repeated_window(t, max, k) by {}
    }
}

/// A payload whose tactics never repeat `max` times in a row, and whose
/// tail is no period-2 cycle, passes the shield; one that does is vetoed
/// with the first tactic so repeated.
pub proof fn shield_vetoes_only_runs(payload: Seq<char>, max: nat)
    ensures
        ({
            let t = tactics(payload);
            &&& (forall|k: int| 1 <= k < t.len() ==> !repeated_window(t, max, k)) && !period2_cycle(t)
                ==> zombie_verdict(payload, max, true) is None
            &&& forall|i: int| 1 <= i < t.len() && repeated_window(t, max, i)
                && (forall|k: int| 1 <= k < i ==> !repeated_window(t, max, k))
                ==> zombie_verdict(payload, max, true) == Some(stuck_message(t[i]))
        }),
{
    let t = tactics(payload);
    zombie_is_first_repeated_run(t, max, 1);
}

/// Vetoes payloads in which the agent repeats itself: a run of
/// `max_consecutive_tactics` equal tactics, or a period-2 cycle at the end.
pub struct AntiZombiePruningTool {
    pub max_consecutive_tactics: usize,
}

impl AntiZombiePruningTool {
    pub fn new(max_consecutive_tactics: usize) -> (t: Self)
        ensures
            t.max_consecutive_tactics == max_consecutive_tactics,
    {
        AntiZombiePruningTool { max_consecutive_tactics }
    }

    pub fn on_pre_append<R>(&mut self, _author: &str, payload: &str) -> (sig: ToolSignal<R>)
        ensures
            final(self).max_consecutive_tactics == old(self).max_consecutive_tactics,
            match zombie_verdict(payload@, old(self).max_consecutive_tactics as nat, true) {
                Some(m) => sig matches ToolSignal::Veto(v) && v@ == m,
                None => sig is Pass,
            },
    {
        match zombie_check(payload, self.max_consecutive_tactics, true) {
            Some(m) => ToolSignal::Veto(m),
            None => ToolSignal::Pass,
        }
    }
}

} // verus!
