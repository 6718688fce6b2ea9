//! The librarian's text work: the ground-truth log lines it appends, the
//! rejection reasons it reads back and their categories, and the memory
//! document it writes for the agents.

use vstd::prelude::*;
use vstd::string::*;
use crate::kernel::ids;
use crate::text::{
    contains, decimal, decimal_string, decimal_string_u64, find, find_from, lemma_found, lemma_rfound, replace,
    replace_str, rfind, str_contains, str_find, str_find_from, str_rfind, substring, take_chars,
    take_chars_exec, trim, trim_owned, lemma_find_from, lemma_first_match, match_at,
};

verus! {

broadcast use vstd::string::group_string_axioms;

/// The management-layer agent that compresses the tape into agent memory.
pub struct LibrarianTool {
    skills_dir: String,
    log_dir: String,
    swarm_size: usize,
    compress_interval: usize,
    compressions_done: usize,
}

impl LibrarianTool {
    pub closed spec fn skills_dir_view(&self) -> Seq<char> {
        self.skills_dir@
    }

    pub closed spec fn log_dir_view(&self) -> Seq<char> {
        self.log_dir@
    }

    pub closed spec fn swarm_size_view(&self) -> usize {
        self.swarm_size
    }

    pub closed spec fn interval(&self) -> usize {
        self.compress_interval
    }

    pub closed spec fn done(&self) -> usize {
        self.compressions_done
    }

    /// A librarian for `swarm_size` agents whose memory lives under
    /// `skills_dir`, logging to `log_dir`; the caller creates `log_dir`.
    pub fn new(skills_dir: &str, swarm_size: usize, compress_interval: usize, log_dir: &str) -> (t: Self)
        ensures
            t.skills_dir_view() == skills_dir@,
            t.log_dir_view() == log_dir@,
            t.swarm_size_view() == swarm_size,
            t.interval() == compress_interval,
            t.done() == 0,
    {
        LibrarianTool {
            skills_dir: skills_dir.to_owned(),
            log_dir: log_dir.to_owned(),
            swarm_size,
            compress_interval,
            compressions_done: 0,
        }
    }

    pub fn compress_interval(&self) -> (n: usize)
        ensures
            n == self.interval(),
    {
        self.compress_interval
    }

    pub fn log_dir(&self) -> (r: &str)
        ensures
            r@ == self.log_dir_view(),
    {
        self.log_dir.as_str()
    }

    pub fn skills_dir(&self) -> (r: &str)
        ensures
            r@ == self.skills_dir_view(),
    {
        self.skills_dir.as_str()
    }

    pub fn swarm_size(&self) -> (n: usize)
        ensures
            n == self.swarm_size_view(),
    {
        self.swarm_size
    }

    pub fn compressions_done(&self) -> (n: usize)
        ensures
            n == self.done(),
    {
        self.compressions_done
    }

    /// Counts one more memory compression.
    pub fn note_compression(&mut self)
        requires
            old(self).done() < usize::MAX,
        ensures
            final(self).done() == old(self).done() + 1,
            final(self).skills_dir_view() == old(self).skills_dir_view(),
            final(self).log_dir_view() == old(self).log_dir_view(),
            final(self).swarm_size_view() == old(self).swarm_size_view(),
            final(self).interval() == old(self).interval(),
    {
        self.compressions_done = self.compressions_done + 1;
    }
}

// ---------------------------------------------------------------------------
// Log lines
// ---------------------------------------------------------------------------

/// The first `n` characters, with double quotes turned into single quotes
/// and line breaks into spaces.
pub open spec fn clean_preview(s: Seq<char>, n: nat) -> Seq<char> {
    replace(replace(take_chars(s, n), "\""@, "'"@), "\n"@, " "@)
}

pub fn clean_preview_exec(s: &str, n: usize) -> (r: String)
    ensures
        r@ == clean_preview(s@, n as nat),
{
    proof { reveal_strlit("\""); reveal_strlit("\n"); }
    let t = take_chars_exec(s, n);
    let q = replace_str(t.as_str(), "\"", "'");
    replace_str(q.as_str(), "\n", " ")
}

pub open spec fn success_line(node_id: Seq<char>, author: Seq<char>, payload: Seq<char>, ts: u64) -> Seq<char> {
    "{\"node_id\":\""@ + node_id + "\",\"author\":\""@ + author + "\",\"payload\":\""@
        + clean_preview(payload, 200) + "\",\"ts\":"@ + decimal(ts as nat) + "}"@
}

/// The `success.jsonl` record of an accepted append.
pub fn success_record(node_id: &str, author: &str, payload: &str, timestamp: u64) -> (r: String)
    ensures
        r@ == success_line(node_id@, author@, payload@, timestamp),
{
    let mut r = String::from_str("{\"node_id\":\"");
    r.append(node_id);
    r.append("\",\"author\":\"");
    r.append(author);
    r.append("\",\"payload\":\"");
    r.append(clean_preview_exec(payload, 200).as_str());
    r.append("\",\"ts\":");
    r.append(decimal_string_u64(timestamp).as_str());
    r.append("}");
    r
}

pub open spec fn failure_line(author: Seq<char>, payload: Seq<char>, reason: Seq<char>, ts: u64) -> Seq<char> {
    "{\"author\":\""@ + author + "\",\"payload\":\""@ + clean_preview(payload, 100) + "\",\"reason\":\""@
        + clean_preview(reason, 120) + "\",\"ts\":"@ + decimal(ts as nat) + "}"@
}

/// The `failure.jsonl` record of a rejected append.
pub fn failure_record(author: &str, payload: &str, reason: &str, timestamp: u64) -> (r: String)
    ensures
        r@ == failure_line(author@, payload@, reason@, timestamp),
{
    let mut r = String::from_str("{\"author\":\"");
    r.append(author);
    r.append("\",\"payload\":\"");
    r.append(clean_preview_exec(payload, 100).as_str());
    r.append("\",\"reason\":\"");
    r.append(clean_preview_exec(reason, 120).as_str());
    r.append("\",\"ts\":");
    r.append(decimal_string_u64(timestamp).as_str());
    r.append("}");
    r
}

// ---------------------------------------------------------------------------
// Reading rejections back
// ---------------------------------------------------------------------------

/// The `reason` field of a failure record: the text after `"reason":"` up to
/// the next double quote.
pub open spec fn reason_of(line: Seq<char>) -> Option<Seq<char>> {
    match find(line, "\"reason\":\""@) {
        Some(i) => match find_from(line, "\""@, i + 10) {
            Some(e) => Some(line.subrange(i + 10, e)),
            None => None,
        },
        None => None,
    }
}

pub fn rejection_reason(line: &str) -> (r: Option<String>)
    ensures
        r matches Some(s) ==> reason_of(line@) == Some(s@),
        r is None ==> reason_of(line@) is None,
{
    proof { reveal_strlit("\"reason\":\""); reveal_strlit("\""); }
    let _n = line.unicode_len();
    match str_find(line, "\"reason\":\"") {
        Some(i) => {
            proof { lemma_found(line@, "\"reason\":\""@, 0, i as int); }
            match str_find_from(line, "\"", i + 10) {
                Some(e) => {
                    proof { lemma_found(line@, "\""@, i + 10, e as int); }
                    Some(substring(line, i + 10, e))
                },
                None => None,
            }
        },
        None => None,
    }
}

/// The category a rejection reason is counted under.
pub open spec fn category_of(reason: Seq<char>) -> Seq<char> {
    if contains(reason, "too short"@) {
        "Step too short"@
    } else if contains(reason, "Duplicate in branch"@) {
        "Duplicate in branch"@
    } else if contains(reason, "Bankrupt"@) {
        "Bankrupt agent"@
    } else if contains(reason, "FRONT-RUNNING"@) || contains(reason, "too long"@) {
        "Step too long (front-running)"@
    } else if contains(reason, "BLACKLIST"@) || contains(reason, "Lean"@) {
        "Blacklisted syntax"@
    } else {
        take_chars(reason, 40)
    }
}

pub fn categorize(reason: &str) -> (r: String)
    ensures
        r@ == category_of(reason@),
{
    if str_contains(reason, "too short") {
        String::from_str("Step too short")
    } else if str_contains(reason, "Duplicate in branch") {
        String::from_str("Duplicate in branch")
    } else if str_contains(reason, "Bankrupt") {
        String::from_str("Bankrupt agent")
    } else if str_contains(reason, "FRONT-RUNNING") || str_contains(reason, "too long") {
        String::from_str("Step too long (front-running)")
    } else if str_contains(reason, "BLACKLIST") || str_contains(reason, "Lean") {
        String::from_str("Blacklisted syntax")
    } else {
        take_chars_exec(reason, 40)
    }
}


// ---------------------------------------------------------------------------
// Tallying rejections
// ---------------------------------------------------------------------------

/// How many of `cats` equal `c`.
pub open spec fn count_in(cats: Seq<Seq<char>>, c: Seq<char>) -> nat
    decreases cats.len(),
{
    if cats.len() == 0 {
        0
    } else {
        count_in(cats.drop_last(), c) + if cats.last() == c { 1nat } else { 0nat }
    }
}

/// The first position of `c` in `cats`, or -1.
pub open spec fn first_index(cats: Seq<Seq<char>>, c: Seq<char>) -> int
    decreases cats.len(),
{
    if cats.len() == 0 {
        -1
    } else {
        let f = first_index(cats.drop_last(), c);
        if f >= 0 {
            f
        } else if cats.last() == c {
            cats.len() - 1
        } else {
            -1
        }
    }
}

/// The categories of a list of rejection reasons.
pub open spec fn categories(reasons: Seq<Seq<char>>) -> Seq<Seq<char>> {
    reasons.map_values(|r: Seq<char>| category_of(r))
}

/// One line of a tally: the category, how many reasons fall under it, and
/// the first of them.
#[verifier::opaque]
pub open spec fn tally_entry_ok(reasons: Seq<Seq<char>>, e: (String, usize, String)) -> bool {
    let cats = categories(reasons);
    &&& e.1 == count_in(cats, e.0@)
    &&& e.1 > 0
    &&& 0 <= first_index(cats, e.0@) < reasons.len()
    &&& e.2@ == reasons[first_index(cats, e.0@)]
}

/// What a tally of `reasons` is: every line right, no category twice,
/// every reason's category present, and the most frequent first.
pub open spec fn is_tally(reasons: Seq<Seq<char>>, t: Seq<(String, usize, String)>) -> bool {
    &&& forall|i: int| 0 <= i < t.len() ==> #[trigger] tally_entry_ok(reasons, t[i])
    &&& forall|i: int, j: int| 0 <= i < j < t.len() ==> t[i].0@ != t[j].0@
    &&& forall|m: int| #![trigger reasons[m]] 0 <= m < reasons.len() ==>
        exists|i: int| 0 <= i < t.len() && #[trigger] t[i].0@ == category_of(reasons[m])
    &&& forall|i: int, j: int| 0 <= i < j < t.len() ==> t[i].1 >= t[j].1
}

proof fn lemma_count_step(cats: Seq<Seq<char>>, k: int, c: Seq<char>)
    requires
        0 <= k < cats.len(),
    ensures
        count_in(cats.take(k + 1), c) == count_in(cats.take(k), c) + if cats[k] == c { 1nat } else { 0nat },
        first_index(cats.take(k + 1), c) == if first_index(cats.take(k), c) >= 0 {
            first_index(cats.take(k), c)
        } else if cats[k] == c {
            k
        } else {
            -1
        },
{
    assert(cats.take(k + 1).drop_last() =~= cats.take(k));
}

proof fn lemma_count_bounds(cats: Seq<Seq<char>>, c: Seq<char>)
    ensures
        count_in(cats, c) <= cats.len(),
        -1 <= first_index(cats, c) < cats.len(),
        first_index(cats, c) >= 0 ==> cats[first_index(cats, c)] == c,
        (forall|j: int| 0 <= j < cats.len() ==> cats[j] != c) ==> count_in(cats, c) == 0 && first_index(cats, c) == -1,
    decreases cats.len(),
{
    if cats.len() > 0 {
        lemma_count_bounds(cats.drop_last(), c);
        let d = cats.drop_last();
        if forall|j: int| 0 <= j < cats.len() ==> cats[j] != c {
            assert forall|j: int| 0 <= j < d.len() implies d[j] != c by {
                assert(d[j] == cats[j]);
            }
            assert(cats[cats.len() - 1] != c);
        }
    }
}

#[verifier::opaque]
spec fn entries_ok(rs: Seq<Seq<char>>, t: Seq<(String, usize, String)>) -> bool {
    forall|i: int| 0 <= i < t.len() ==> #[trigger] tally_entry_ok(rs, t[i])
}

/// Every category of `t` is one of the first `k` of `seen`.
#[verifier::opaque]
spec fn drawn_from(seen: Seq<(String, usize, String)>, k: int, t: Seq<(String, usize, String)>) -> bool {
    forall|i: int| #![trigger t[i]] 0 <= i < t.len() ==>
        exists|j: int| 0 <= j < k && #[trigger] seen[j].0@ == t[i].0@
}

/// Each of the first `k` categories of `seen` is in `t`.
#[verifier::opaque]
spec fn covers(seen: Seq<(String, usize, String)>, k: int, t: Seq<(String, usize, String)>) -> bool {
    forall|j: int| #![trigger seen[j]] 0 <= j < k ==>
        exists|i: int| 0 <= i < t.len() && #[trigger] t[i].0@ == seen[j].0@
}

#[verifier::opaque]
spec fn distinct_cats(t: Seq<(String, usize, String)>) -> bool {
    forall|i: int, j: int| 0 <= i < j < t.len() ==> t[i].0@ != t[j].0@
}

#[verifier::opaque]
spec fn by_count(t: Seq<(String, usize, String)>) -> bool {
    forall|i: int, j: int| 0 <= i < j < t.len() ==> t[i].1 >= t[j].1
}

/// While the tally's second pass inserts the first `k` counted categories.
spec fn insertion_inv(
    rs: Seq<Seq<char>>,
    seen: Seq<(String, usize, String)>,
    k: int,
    t: Seq<(String, usize, String)>,
) -> bool {
    &&& t.len() == k
    &&& entries_ok(rs, t)
    &&& drawn_from(seen, k, t)
    &&& covers(seen, k, t)
    &&& distinct_cats(t)
    &&& by_count(t)
}

spec fn insertion_pre(
    seen: Seq<(String, usize, String)>,
    k: int,
    before: Seq<(String, usize, String)>,
    pos: int,
    e: (String, usize, String),
) -> bool {
    &&& 0 <= k < seen.len()
    &&& before.len() == k
    &&& e.0@ == seen[k].0@
    &&& e.1 == seen[k].1
    &&& e.2@ == seen[k].2@
    &&& 0 <= pos <= before.len()
    &&& forall|i: int| 0 <= i < pos ==> before[i].1 >= e.1
    &&& pos < before.len() ==> before[pos].1 < e.1
}

proof fn lemma_insert_index<A>(before: Seq<A>, pos: int, e: A, i: int)
    requires
        0 <= pos <= before.len(),
        0 <= i <= before.len(),
    ensures
        i < pos ==> before.insert(pos, e)[i] == before[i],
        i == pos ==> before.insert(pos, e)[i] == e,
        i > pos ==> before.insert(pos, e)[i] == before[i - 1],
{
}

proof fn lemma_insertion_entries(
    rs: Seq<Seq<char>>,
    seen: Seq<(String, usize, String)>,
    k: int,
    before: Seq<(String, usize, String)>,
    pos: int,
    e: (String, usize, String),
)
    requires
        insertion_pre(seen, k, before, pos, e),
        tally_entry_ok(rs, seen[k]),
        entries_ok(rs, before),
    ensures
        entries_ok(rs, before.insert(pos, e)),
{
    reveal(tally_entry_ok);
    reveal(entries_ok);
    let t = before.insert(pos, e);
    assert forall|i: int| 0 <= i < t.len() implies #[trigger] tally_entry_ok(rs, t[i]) by {
        lemma_insert_index(before, pos, e, i);
        if i < pos {
            assert(tally_entry_ok(rs, before[i]));
        } else if i > pos {
            assert(tally_entry_ok(rs, before[i - 1]));
        }
    }
}

proof fn lemma_insertion_order(
    seen: Seq<(String, usize, String)>,
    k: int,
    before: Seq<(String, usize, String)>,
    pos: int,
    e: (String, usize, String),
)
    requires
        insertion_pre(seen, k, before, pos, e),
        by_count(before),
    ensures
        by_count(before.insert(pos, e)),
{
    reveal(by_count);
    let t = before.insert(pos, e);
    assert forall|i: int, j: int| 0 <= i < j < t.len() implies t[i].1 >= t[j].1 by {
        lemma_insert_index(before, pos, e, i);
        lemma_insert_index(before, pos, e, j);
        if i == pos && pos < before.len() {
            assert(before[pos].1 >= before[j - 1].1 || j - 1 == pos);
        }
    }
}

proof fn lemma_insertion_drawn(
    seen: Seq<(String, usize, String)>,
    k: int,
    before: Seq<(String, usize, String)>,
    pos: int,
    e: (String, usize, String),
)
    requires
        insertion_pre(seen, k, before, pos, e),
        drawn_from(seen, k, before),
    ensures
        drawn_from(seen, k + 1, before.insert(pos, e)),
{
    reveal(drawn_from);
    let t = before.insert(pos, e);
    assert forall|i: int| #![trigger t[i]] 0 <= i < t.len() implies
        exists|j: int| 0 <= j < k + 1 && #[trigger] seen[j].0@ == t[i].0@ by {
        lemma_insert_index(before, pos, e, i);
        if i < pos {
            let j0 = choose|j: int| 0 <= j < k && #[trigger] seen[j].0@ == before[i].0@;
            assert(seen[j0].0@ == t[i].0@);
        } else if i > pos {
            let j0 = choose|j: int| 0 <= j < k && #[trigger] seen[j].0@ == before[i - 1].0@;
            assert(seen[j0].0@ == t[i].0@);
        } else {
            assert(seen[k].0@ == t[i].0@);
        }
    }
}

proof fn lemma_insertion_covers(
    seen: Seq<(String, usize, String)>,
    k: int,
    before: Seq<(String, usize, String)>,
    pos: int,
    e: (String, usize, String),
)
    requires
        insertion_pre(seen, k, before, pos, e),
        covers(seen, k, before),
    ensures
        covers(seen, k + 1, before.insert(pos, e)),
{
    reveal(covers);
    let t = before.insert(pos, e);
    assert forall|j: int| #![trigger seen[j]] 0 <= j < k + 1 implies
        exists|i: int| 0 <= i < t.len() && #[trigger] t[i].0@ == seen[j].0@ by {
        if j == k {
            lemma_insert_index(before, pos, e, pos);
            assert(t[pos].0@ == seen[j].0@);
        } else {
            let i0 = choose|i: int| 0 <= i < before.len() && #[trigger] before[i].0@ == seen[j].0@;
            if i0 < pos {
                lemma_insert_index(before, pos, e, i0);
                assert(t[i0].0@ == seen[j].0@);
            } else {
                lemma_insert_index(before, pos, e, i0 + 1);
                assert(t[i0 + 1].0@ == seen[j].0@);
            }
        }
    }
}

proof fn lemma_insertion_distinct(
    seen: Seq<(String, usize, String)>,
    k: int,
    before: Seq<(String, usize, String)>,
    pos: int,
    e: (String, usize, String),
)
    requires
        insertion_pre(seen, k, before, pos, e),
        forall|i: int, j: int| 0 <= i < j < seen.len() ==> seen[i].0@ != seen[j].0@,
        drawn_from(seen, k, before),
        distinct_cats(before),
    ensures
        distinct_cats(before.insert(pos, e)),
{
    reveal(drawn_from);
    reveal(distinct_cats);
    let t = before.insert(pos, e);
    assert forall|i: int, j: int| 0 <= i < j < t.len() implies t[i].0@ != t[j].0@ by {
        lemma_insert_index(before, pos, e, i);
        lemma_insert_index(before, pos, e, j);
        if i == pos || j == pos {
            let o = if i == pos { j } else { i };
            let ob = if o < pos { o } else { o - 1 };
            let j0 = choose|j0: int| 0 <= j0 < k && #[trigger] seen[j0].0@ == before[ob].0@;
            assert(seen[j0].0@ != seen[k].0@);
        }
    }
}

proof fn lemma_insertion_step(
    rs: Seq<Seq<char>>,
    seen: Seq<(String, usize, String)>,
    k: int,
    before: Seq<(String, usize, String)>,
    pos: int,
    e: (String, usize, String),
)
    requires
        insertion_pre(seen, k, before, pos, e),
        tally_entry_ok(rs, seen[k]),
        forall|i: int, j: int| 0 <= i < j < seen.len() ==> seen[i].0@ != seen[j].0@,
        insertion_inv(rs, seen, k, before),
    ensures
        insertion_inv(rs, seen, k + 1, before.insert(pos, e)),
{
    lemma_insertion_entries(rs, seen, k, before, pos, e);
    lemma_insertion_order(seen, k, before, pos, e);
    lemma_insertion_drawn(seen, k, before, pos, e);
    lemma_insertion_covers(seen, k, before, pos, e);
    lemma_insertion_distinct(seen, k, before, pos, e);
}

proof fn lemma_sum_update(s: Seq<(String, usize, String)>, i: int, e: (String, usize, String))
    requires
        0 <= i < s.len(),
    ensures
        sum_counts(s.update(i, e)) == sum_counts(s) - s[i].1 + e.1,
    decreases s.len(),
{
    if i == s.len() - 1 {
        assert(s.update(i, e).drop_last() =~= s.drop_last());
    } else {
        lemma_sum_update(s.drop_last(), i, e);
        assert(s.update(i, e).drop_last() =~= s.drop_last().update(i, e));
    }
}

proof fn lemma_sum_insert(s: Seq<(String, usize, String)>, pos: int, e: (String, usize, String))
    requires
        0 <= pos <= s.len(),
    ensures
        sum_counts(s.insert(pos, e)) == sum_counts(s) + e.1,
    decreases s.len(),
{
    if pos == s.len() {
        assert(s.insert(pos, e).drop_last() =~= s);
    } else {
        lemma_sum_insert(s.drop_last(), pos, e);
        assert(s.insert(pos, e).drop_last() =~= s.drop_last().insert(pos, e));
        assert(s.insert(pos, e).last() == s.last());
    }
}

/// The first pass of the tally: counts per category, in the order in which
/// the categories first occur.
fn count_by_category(reasons: &Vec<String>) -> (seen: Vec<(String, usize, String)>)
    ensures
        forall|i: int| 0 <= i < seen@.len() ==> #[trigger] tally_entry_ok(ids(reasons@), seen@[i]),
        forall|i: int, j: int| 0 <= i < j < seen@.len() ==> seen@[i].0@ != seen@[j].0@,
        forall|m: int| #![trigger reasons@[m]] 0 <= m < reasons@.len() ==>
            exists|i: int| 0 <= i < seen@.len() && #[trigger] seen@[i].0@ == category_of(reasons@[m]@),
        sum_counts(seen@) == reasons@.len(),
{
    let ghost rs = reasons@.map_values(|r: String| r@);
    let ghost cats = categories(rs);
    // Pass 1: counts in order of first appearance.
    let mut seen: Vec<(String, usize, String)> = Vec::new();
    let mut k: usize = 0;
    while k < reasons.len()
        invariant
            k <= reasons@.len(),
            rs == reasons@.map_values(|r: String| r@),
            cats == categories(rs),
            cats.len() == rs.len(),
            forall|i: int| 0 <= i < seen@.len() ==> {
                &&& seen@[i].1 == count_in(cats.take(k as int), seen@[i].0@)
                &&& seen@[i].1 > 0
                &&& 0 <= first_index(cats.take(k as int), seen@[i].0@) < k
                &&& seen@[i].2@ == rs[first_index(cats.take(k as int), seen@[i].0@)]
            },
            forall|i: int, j: int| 0 <= i < j < seen@.len() ==> seen@[i].0@ != seen@[j].0@,
            forall|m: int| #![trigger cats[m]] 0 <= m < k ==> exists|i: int| 0 <= i < seen@.len() && #[trigger] seen@[i].0@ == cats[m],
            sum_counts(seen@) == k,
        decreases reasons@.len() - k,
    {
        let c = categorize(reasons[k].as_str());
        assert(cats[k as int] == c@);
        let mut found = false;
        let mut at: usize = 0;
        let mut i: usize = 0;
        while i < seen.len()
            invariant
                i <= seen@.len(),
                !found ==> forall|q: int| 0 <= q < i ==> seen@[q].0@ != c@,
                found ==> at < seen@.len() && seen@[at as int].0@ == c@,
            decreases seen@.len() - i,
        {
            if !found && seen[i].0 == c {
                found = true;
                at = i;
            }
            i = i + 1;
        }
        let ghost old_seen = seen@;
        proof {
            lemma_count_step(cats, k as int, c@);
            lemma_count_bounds(cats.take(k as int), c@);
            assert(cats.take(k as int).len() == k);
        }
        if found {
            let n = seen[at].1;
            let entry = (seen[at].0.clone(), n + 1, seen[at].2.clone());
            proof { lemma_sum_update(seen@, at as int, entry); }
            seen.set(at, entry);
        } else {
            proof {
                assert forall|j: int| 0 <= j < cats.take(k as int).len() implies cats.take(k as int)[j] != c@ by {
                    if cats.take(k as int)[j] == c@ {
                        assert(cats[j] == c@);
                        let i0 = choose|i: int| 0 <= i < old_seen.len() && #[trigger] old_seen[i].0@ == cats[j];
                        assert(old_seen[i0].0@ == c@);
                    }
                }
                lemma_count_bounds(cats.take(k as int), c@);
            }
            let entry = (c, 1, reasons[k].clone());
            assert(seen@.push(entry).drop_last() =~= seen@);
            seen.push(entry);
        }
        proof {
            assert forall|q: int| 0 <= q < seen@.len() implies {
                &&& seen@[q].1 == count_in(cats.take(k + 1), seen@[q].0@)
                &&& seen@[q].1 > 0
                &&& 0 <= first_index(cats.take(k + 1), seen@[q].0@) < k + 1
                &&& seen@[q].2@ == rs[first_index(cats.take(k + 1), seen@[q].0@)]
            } by {
                lemma_count_step(cats, k as int, seen@[q].0@);
                if q < old_seen.len() {
                    assert(seen@[q].0@ == old_seen[q].0@);
                    if found && q == at {
                    } else {
                        assert(seen@[q] == old_seen[q]);
                        assert(old_seen[q].0@ != c@);
                    }
                }
            }
            assert forall|i: int, j: int| 0 <= i < j < seen@.len() implies seen@[i].0@ != seen@[j].0@ by {
                if j < old_seen.len() {
                    assert(seen@[i].0@ == old_seen[i].0@);
                    assert(seen@[j].0@ == old_seen[j].0@);
                } else {
                    assert(seen@[i].0@ == old_seen[i].0@);
                }
            }
            assert forall|m: int| #![trigger cats[m]] 0 <= m < k + 1 implies exists|i: int| 0 <= i < seen@.len() && #[trigger] seen@[i].0@ == cats[m] by {
                if m == k {
                    if found {
                        assert(seen@[at as int].0@ == cats[m]);
                    } else {
                        assert(seen@[seen@.len() - 1].0@ == cats[m]);
                    }
                } else {
                    let i0 = choose|i: int| 0 <= i < old_seen.len() && #[trigger] old_seen[i].0@ == cats[m];
                    assert(seen@[i0].0@ == old_seen[i0].0@);
                }
            }
        }
        k = k + 1;
    }
    assert(cats.take(reasons@.len() as int) =~= cats);
    proof {
        reveal(tally_entry_ok);
    }
    proof {
        assert(ids(reasons@) =~= rs);
        assert forall|m: int| #![trigger reasons@[m]] 0 <= m < reasons@.len() implies
            exists|i: int| 0 <= i < seen@.len() && #[trigger] seen@[i].0@ == category_of(reasons@[m]@) by {
            assert(cats[m] == category_of(reasons@[m]@));
        }
    }
    seen
}

/// The second pass of the tally: the counted categories, most frequent
/// first, in a stable order.
fn order_by_count(seen: &Vec<(String, usize, String)>, Ghost(rs): Ghost<Seq<Seq<char>>>) -> (t: Vec<(String, usize, String)>)
    requires
        forall|i: int| 0 <= i < seen@.len() ==> #[trigger] tally_entry_ok(rs, seen@[i]),
        forall|i: int, j: int| 0 <= i < j < seen@.len() ==> seen@[i].0@ != seen@[j].0@,
    ensures
        insertion_inv(rs, seen@, seen@.len() as int, t@),
        sum_counts(t@) == sum_counts(seen@),
{
    let mut t: Vec<(String, usize, String)> = Vec::new();
    let mut k2: usize = 0;
    proof {
        reveal(entries_ok);
        reveal(drawn_from);
        reveal(covers);
        reveal(distinct_cats);
        reveal(by_count);
    }
    while k2 < seen.len()
        invariant
            k2 <= seen@.len(),
            forall|i: int| 0 <= i < seen@.len() ==> #[trigger] tally_entry_ok(rs, seen@[i]),
            forall|i: int, j: int| 0 <= i < j < seen@.len() ==> seen@[i].0@ != seen@[j].0@,
            insertion_inv(rs, seen@, k2 as int, t@),
            sum_counts(t@) == sum_counts(seen@.subrange(0, k2 as int)),
        decreases seen@.len() - k2,
    {
        let e = (seen[k2].0.clone(), seen[k2].1, seen[k2].2.clone());
        let mut pos: usize = 0;
        while pos < t.len() && t[pos].1 >= e.1
            invariant
                pos <= t@.len(),
                forall|i: int| 0 <= i < pos ==> t@[i].1 >= e.1,
            decreases t@.len() - pos,
        {
            pos = pos + 1;
        }
        let ghost before = t@;
        proof {
            assert(insertion_pre(seen@, k2 as int, before, pos as int, e));
        }
        t.insert(pos, e);
        proof {
            lemma_sum_insert(before, pos as int, e);
            assert(seen@.subrange(0, k2 + 1).drop_last() =~= seen@.subrange(0, k2 as int));
            assert(tally_entry_ok(rs, seen@[k2 as int]));
            lemma_insertion_step(rs, seen@, k2 as int, before, pos as int, e);
        }
        k2 = k2 + 1;
    }
    assert(seen@.subrange(0, seen@.len() as int) =~= seen@);
    t
}

/// Counts rejection reasons by category, the most frequent category first;
/// categories seen equally often keep the order in which they first occur.
pub fn tally_rejections(reasons: &Vec<String>) -> (t: Vec<(String, usize, String)>)
    ensures
        is_tally(reasons@.map_values(|r: String| r@), t@),
        sum_counts(t@) == reasons@.len(),
{
    let ghost rs = reasons@.map_values(|r: String| r@);
    let seen = count_by_category(reasons);
    assert(ids(reasons@) =~= rs);
    let t = order_by_count(&seen, Ghost(rs));
    proof {
        reveal(entries_ok);
        reveal(covers);
        reveal(distinct_cats);
        reveal(by_count);
        assert forall|m: int| #![trigger rs[m]] 0 <= m < rs.len() implies
            exists|i: int| 0 <= i < t@.len() && #[trigger] t@[i].0@ == category_of(rs[m]) by {
            assert(rs[m] == reasons@[m]@);
            let j0 = choose|i: int| 0 <= i < seen@.len() && #[trigger] seen@[i].0@ == category_of(reasons@[m]@);
            let i0 = choose|i: int| 0 <= i < t@.len() && #[trigger] t@[i].0@ == seen@[j0].0@;
        }
    }
    t
}
/// The number of reasons a tally counts.
pub open spec fn sum_counts(t: Seq<(String, usize, String)>) -> nat
    decreases t.len(),
{
    if t.len() == 0 { 0 } else { sum_counts(t.drop_last()) + t.last().1 as nat }
}

/// The share of `count` in `total`, in whole percent rounded down.
pub open spec fn percent(count: nat, total: nat) -> nat {
    if total > 0 { count * 100 / total } else { 0 }
}

pub open spec fn rejection_lines(t: Seq<(String, usize, String)>, total: nat) -> Seq<char>
    decreases t.len(),
{
    if t.len() == 0 {
        seq![]
    } else {
        rejection_lines(t.drop_last(), total) + "- "@ + decimal(t.last().1 as nat) + "x ("@
            + decimal(percent(t.last().1 as nat, total)) + "%): "@ + t.last().0@ + "\n"@
    }
}

pub open spec fn rejection_log_header() -> Seq<char> {
    "\n## REJECTION LOG (system-rejected, from failure.jsonl — COMPLETE, ALL categories):\n"@
}

/// The compression prompt's rejection section: one line per category with
/// its count and share of all rejections.
pub open spec fn rejection_log(t: Seq<(String, usize, String)>) -> Seq<char> {
    rejection_log_header() + rejection_lines(t, sum_counts(t))
        + if t.len() == 0 { "(no rejections recorded)\n"@ } else { seq![] }
}

proof fn lemma_sum_counts_prefix(t: Seq<(String, usize, String)>, i: int)
    requires
        0 <= i < t.len(),
    ensures
        sum_counts(t.subrange(0, i + 1)) == sum_counts(t.subrange(0, i)) + t[i].1,
        sum_counts(t.subrange(0, i)) + t[i].1 <= sum_counts(t),
    decreases t.len(),
{
    assert(t.subrange(0, i + 1).drop_last() =~= t.subrange(0, i));
    if i < t.len() - 1 {
        lemma_sum_counts_prefix(t.drop_last(), i);
        assert(t.drop_last().subrange(0, i + 1) =~= t.subrange(0, i + 1));
        assert(t.drop_last().subrange(0, i) =~= t.subrange(0, i));
    } else {
        assert(t.subrange(0, i + 1) =~= t);
    }
}

fn percent_of(count: usize, total: usize) -> (r: usize)
    requires
        count <= total,
        total * 100 <= usize::MAX,
    ensures
        r == percent(count as nat, total as nat),
{
    if total > 0 {
        assert(count * 100 <= total * 100) by (nonlinear_arith)
            requires
                count <= total,
        ;
        count * 100 / total
    } else {
        0
    }
}

pub fn rejection_log_section(t: &Vec<(String, usize, String)>) -> (r: String)
    requires
        sum_counts(t@) * 100 <= usize::MAX,
    ensures
        r@ == rejection_log(t@),
{
    let ghost tv = t@;
    let mut total: usize = 0;
    let mut i: usize = 0;
    while i < t.len()
        invariant
            tv == t@,
            i <= tv.len(),
            total == sum_counts(tv.subrange(0, i as int)),
            sum_counts(tv) * 100 <= usize::MAX,
        decreases tv.len() - i,
    {
        proof { lemma_sum_counts_prefix(tv, i as int); }
        total = total + t[i].1;
        i = i + 1;
    }
    assert(tv.subrange(0, tv.len() as int) =~= tv);
    let mut r = String::from_str("\n## REJECTION LOG (system-rejected, from failure.jsonl — COMPLETE, ALL categories):\n");
    let mut k: usize = 0;
    while k < t.len()
        invariant
            tv == t@,
            k <= tv.len(),
            total == sum_counts(tv),
            total * 100 <= usize::MAX,
            r@ == rejection_log_header() + rejection_lines(tv.subrange(0, k as int), total as nat),
        decreases tv.len() - k,
    {
        proof { lemma_sum_counts_prefix(tv, k as int); }
        let count = t[k].1;
        let pct = percent_of(count, total);
        r.append("- ");
        r.append(decimal_string(count).as_str());
        r.append("x (");
        r.append(decimal_string(pct).as_str());
        r.append("%): ");
        r.append(t[k].0.as_str());
        r.append("\n");
        proof {
            let sk = tv.subrange(0, k + 1);
            assert(sk.drop_last() =~= tv.subrange(0, k as int));
            assert(sk.last() == tv[k as int]);
        }
        k = k + 1;
    }
    assert(tv.subrange(0, tv.len() as int) =~= tv);
    if t.len() == 0 {
        r.append("(no rejections recorded)\n");
    }
    r
}

pub open spec fn error_lines(t: Seq<(String, usize, String)>) -> Seq<char>
    decreases t.len(),
{
    if t.len() == 0 {
        seq![]
    } else {
        error_lines(t.drop_last()) + "- "@ + decimal(t.last().1 as nat) + "x: "@ + t.last().0@ + "\n"@
    }
}

/// The memory document's error section: one line per category with its
/// count.
pub open spec fn common_errors(t: Seq<(String, usize, String)>) -> Seq<char> {
    "\n## COMMON ERRORS (ALL categories from failure.jsonl):\n"@ + error_lines(t)
}

pub fn common_errors_section(t: &Vec<(String, usize, String)>) -> (r: String)
    ensures
        r@ == common_errors(t@),
{
    let ghost tv = t@;
    let mut r = String::from_str("\n## COMMON ERRORS (ALL categories from failure.jsonl):\n");
    let mut k: usize = 0;
    while k < t.len()
        invariant
            tv == t@,
            k <= tv.len(),
            r@ == "\n## COMMON ERRORS (ALL categories from failure.jsonl):\n"@ + error_lines(tv.subrange(0, k as int)),
        decreases tv.len() - k,
    {
        r.append("- ");
        r.append(decimal_string(t[k].1).as_str());
        r.append("x: ");
        r.append(t[k].0.as_str());
        r.append("\n");
        proof {
            let sk = tv.subrange(0, k + 1);
            assert(sk.drop_last() =~= tv.subrange(0, k as int));
        }
        k = k + 1;
    }
    assert(tv.subrange(0, tv.len() as int) =~= tv);
    r
}

pub open spec fn stats_line(nodes: nat, depth: nat, leaf: Seq<char>, rejections: nat) -> Seq<char> {
    "\n## STATS: "@ + decimal(nodes) + " total nodes, deepest chain = "@ + decimal(depth)
        + " steps (leaf: "@ + leaf + "), "@ + decimal(rejections) + " total rejections\n"@
}

/// The compression prompt's closing statistics line.
pub fn stats_section(nodes: usize, depth: usize, leaf: &str, rejections: usize) -> (r: String)
    ensures
        r@ == stats_line(nodes as nat, depth as nat, leaf@, rejections as nat),
{
    let mut r = String::from_str("\n## STATS: ");
    r.append(decimal_string(nodes).as_str());
    r.append(" total nodes, deepest chain = ");
    r.append(decimal_string(depth).as_str());
    r.append(" steps (leaf: ");
    r.append(leaf);
    r.append("), ");
    r.append(decimal_string(rejections).as_str());
    r.append(" total rejections\n");
    r
}

pub open spec fn depth_line(depth: nat) -> Seq<char> {
    "\n## PROOF DEPTH: "@ + decimal(depth) + " steps\n"@
}

/// The memory document's closing depth line.
pub fn depth_section(depth: usize) -> (r: String)
    ensures
        r@ == depth_line(depth as nat),
{
    let mut r = String::from_str("\n## PROOF DEPTH: ");
    r.append(decimal_string(depth).as_str());
    r.append(" steps\n");
    r
}

// ---------------------------------------------------------------------------
// Memory document
// ---------------------------------------------------------------------------

/// The model's answer without its reasoning trace: what follows the last
/// `</think>`, trimmed (the whole answer, trimmed, when there is none).
pub open spec fn strip_reasoning(text: Seq<char>) -> Seq<char> {
    match rfind(text, "</think>"@) {
        Some(i) => trim(text.subrange(i + 8, text.len() as int)),
        None => trim(text),
    }
}

pub open spec fn memory_header() -> Seq<char> {
    "\n# LIBRARIAN MEMORY (compressed from tape by DeepSeek V3)\n\n"@
}

/// The memory section written into each agent's `learned.md`.
pub fn memory_document(memory_text: &str) -> (r: String)
    ensures
        r@ == memory_header() + strip_reasoning(memory_text@),
{
    proof { reveal_strlit("</think>"); }
    let n = memory_text.unicode_len();
    let clean = match str_rfind(memory_text, "</think>") {
        Some(i) => {
            proof { lemma_rfound(memory_text@, "</think>"@, i as int); }
            trim_owned(memory_text.substring_char(i + 8, n))
        },
        None => trim_owned(memory_text),
    };
    let mut m = String::from_str("\n# LIBRARIAN MEMORY (compressed from tape by DeepSeek V3)\n\n");
    m.append(clean.as_str());
    m
}

/// An agent's `learned.md` with its previous librarian section replaced by
/// `memory`: the text before the first `\n# LIBRARIAN MEMORY`, then `memory`.
pub open spec fn merged_memory(existing: Seq<char>, memory: Seq<char>) -> Seq<char> {
    match find(existing, "\n# LIBRARIAN MEMORY"@) {
        Some(i) => existing.subrange(0, i) + memory,
        None => existing + memory,
    }
}

pub fn merge_memory(existing: &str, memory: &str) -> (r: String)
    ensures
        r@ == merged_memory(existing@, memory@),
{
    let mut base = match str_find(existing, "\n# LIBRARIAN MEMORY") {
        Some(i) => {
            proof { lemma_found(existing@, "\n# LIBRARIAN MEMORY"@, 0, i as int); }
            substring(existing, 0, i)
        },
        None => existing.to_owned(),
    };
    base.append(memory);
    base
}

pub open spec fn memory_key() -> Seq<char> {
    "\n# LIBRARIAN MEMORY"@
}

/// Writing the same librarian memory twice changes nothing: the second
/// merge finds the section the first one wrote and replaces it with itself.
pub proof fn rewriting_memory_changes_nothing(existing: Seq<char>, text: Seq<char>)
    ensures
        merged_memory(merged_memory(existing, memory_header() + text), memory_header() + text)
            == merged_memory(existing, memory_header() + text),
{
    reveal_strlit("\n# LIBRARIAN MEMORY");
    reveal_strlit("\n# LIBRARIAN MEMORY (compressed from tape by DeepSeek V3)\n\n");
    let key = memory_key();
    let m = memory_header() + text;
    assert(key.len() == 19);
    assert(m.subrange(0, 19) =~= key);
    assert forall|d: int| 1 <= d < 19 implies key[d] != '\n' by {}
    lemma_find_from(existing, key, 0);
    let base = match find(existing, key) {
        Some(i) => existing.subrange(0, i),
        None => existing,
    };
    let q = base + m;
    let b = base.len() as int;
    assert(q == merged_memory(existing, m));
    assert(q.subrange(b, b + 19) =~= key);
    assert(match_at(q, key, b));
    assert forall|j: int| 0 <= j < b implies !match_at(q, key, j) by {
        match find(existing, key) {
            Some(i) => {
                assert(match_at(existing, key, i));
                assert(b == i);
                assert(!match_at(existing, key, j));
                assert forall|t: int| j <= t < j + 19 implies q[t] == existing[t] by {
                    if t >= i {
                        assert(existing.subrange(i, i + 19)[t - i] == key[t - i]);
                        assert(m.subrange(0, 19)[t - i] == key[t - i]);
                    }
                }
                assert(q.subrange(j, j + 19) =~= existing.subrange(j, j + 19));
                assert(!match_at(q, key, j));
            },
            None => {
                assert(!match_at(existing, key, j));
                if j + 19 <= b {
                    assert(q.subrange(j, j + 19) =~= existing.subrange(j, j + 19));
                    assert(!match_at(q, key, j));
                } else if match_at(q, key, j) {
                    let d = b - j;
                    assert(q.subrange(j, j + 19)[d] == q[b]);
                    assert(q[b] == m[0]);
                    assert(m.subrange(0, 19)[0] == key[0]);
                    assert(key[d] == '\n');
                }
            },
        }
    }
    lemma_first_match(q, key, 0, b);
    assert(q.subrange(0, b) =~= base);
}

} // verus!
