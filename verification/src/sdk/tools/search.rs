//! The free search tool: query sanitising and result formatting. The file
//! search itself runs outside the library.

use vstd::prelude::*;
use vstd::string::*;
use vstd::utf8::encode_utf8;
use std::time::Duration;
use crate::text::{chars_of, decimal, decimal_string};

verus! {

broadcast use vstd::string::group_string_axioms;

/// What `char::is_alphanumeric` says of `c` (Unicode `Alphabetic` or
/// `Numeric`).
pub uninterp spec fn alphanumeric(c: char) -> bool;

/// `char::is_alphanumeric`.
#[verifier::external_body]
fn is_alphanumeric(c: char) -> (b: bool)
    ensures
        b == alphanumeric(c),
{
    c.is_alphanumeric()
}

/// What `Duration::as_secs` returns for `d`: the whole seconds it holds.
pub uninterp spec fn whole_secs(d: Duration) -> u64;

/// What `Duration::subsec_nanos` returns for `d`: the nanoseconds beyond
/// its whole seconds.
pub uninterp spec fn subsec_nanos(d: Duration) -> u32;

/// `Duration::from_secs`: a duration of exactly `secs` seconds (`as_secs`
/// gives `secs` back and `subsec_nanos` gives 0).
#[verifier::external_body]
fn duration_from_secs(secs: u64) -> (d: Duration)
    ensures
        whole_secs(d) == secs,
        subsec_nanos(d) == 0,
{
    Duration::from_secs(secs)
}

/// Searches library files for a query; thinking and inquiry are free.
pub struct SearchTool {
    pub search_paths: Vec<String>,
    pub max_results: usize,
    pub timeout: Duration,
}

impl SearchTool {
    pub fn new(search_paths: Vec<String>) -> (t: Self)
        ensures
            t.search_paths == search_paths,
            t.max_results == 10,
            whole_secs(t.timeout) == 5,
            subsec_nanos(t.timeout) == 0,
    {
        SearchTool { search_paths, max_results: 10, timeout: duration_from_secs(5) }
    }
}

/// Characters a query may hold: alphanumerics (as `alnum` says of the
/// character), `_`, `'`, `.` and space.
pub open spec fn query_char_given(c: char, alnum: bool) -> bool {
    alnum || c == '_' || c == '\'' || c == '.' || c == ' '
}

/// The query with every other character removed; `alnum[i]` says whether
/// the `i`-th character is alphanumeric.
pub open spec fn sanitized_given(raw: Seq<char>, alnum: Seq<bool>) -> Seq<char>
    decreases raw.len(),
{
    if raw.len() == 0 {
        seq![]
    } else {
        let rest = sanitized_given(raw.drop_last(), alnum.take(raw.len() - 1));
        if query_char_given(raw.last(), alnum[raw.len() - 1]) { rest.push(raw.last()) } else { rest }
    }
}

/// The query with every character removed that is not alphanumeric, `_`,
/// `'`, `.` or a space.
pub open spec fn sanitized(raw: Seq<char>) -> Seq<char> {
    sanitized_given(raw, raw.map_values(|c: char| alphanumeric(c)))
}

/// A sanitised query is run when it is not empty and at most 100 bytes.
pub open spec fn query_accepted(q: Seq<char>) -> bool {
    q.len() > 0 && encode_utf8(q).len() <= 100
}

/// The query to search for, given which of its characters are
/// alphanumeric; `None` when nothing is searched.
pub fn sanitize_query_given(raw_query: &str, alnum: &Vec<bool>) -> (r: Option<String>)
    requires
        alnum@.len() == raw_query@.len(),
    ensures
        r matches Some(q) ==> q@ == sanitized_given(raw_query@, alnum@) && query_accepted(q@),
        r is None ==> !query_accepted(sanitized_given(raw_query@, alnum@)),
{
    let v = chars_of(raw_query);
    let mut out = String::new();
    let mut i: usize = 0;
    while i < v.len()
        invariant
            v@ == raw_query@,
            v@.len() == v.len(),
            alnum@.len() == v@.len(),
            i <= v@.len(),
            out@ == sanitized_given(raw_query@.subrange(0, i as int), alnum@.take(i as int)),
        decreases v@.len() - i,
    {
        let c = v[i];
        assert(raw_query@.subrange(0, i + 1).drop_last() =~= raw_query@.subrange(0, i as int));
        assert(alnum@.take(i + 1).take(i as int) =~= alnum@.take(i as int));
        if alnum[i] || c == '_' || c == '\'' || c == '.' || c == ' ' {
            out.append(single_char_text(raw_query, i));
        }
        i = i + 1;
    }
    assert(raw_query@.subrange(0, v@.len() as int) =~= raw_query@);
    assert(alnum@.take(v@.len() as int) =~= alnum@);
    let empty = out.as_str().unicode_len() == 0;
    if empty || out.as_str().as_bytes().len() > 100 {
        None
    } else {
        Some(out)
    }
}

/// The query as it is searched for, or `None` when nothing is searched.
pub fn sanitize_query(raw_query: &str) -> (r: Option<String>)
    ensures
        r matches Some(q) ==> q@ == sanitized(raw_query@) && query_accepted(q@),
        r is None ==> !query_accepted(sanitized(raw_query@)),
{
    let v = chars_of(raw_query);
    let mut alnum: Vec<bool> = Vec::new();
    let mut i: usize = 0;
    while i < v.len()
        invariant
            v@ == raw_query@,
            i <= v@.len(),
            alnum@ == raw_query@.take(i as int).map_values(|c: char| alphanumeric(c)),
        decreases v@.len() - i,
    {
        alnum.push(is_alphanumeric(v[i]));
        assert(alnum@ =~= raw_query@.take(i + 1).map_values(|c: char| alphanumeric(c)));
        i = i + 1;
    }
    assert(raw_query@.take(v@.len() as int) =~= raw_query@);
    sanitize_query_given(raw_query, &alnum)
}

fn single_char_text(s: &str, i: usize) -> (r: &str)
    requires
        i < s@.len() <= usize::MAX,
    ensures
        r@ == seq![s@[i as int]],
{
    let r = s.substring_char(i, i + 1);
    assert(r@ =~= seq![s@[i as int]]);
    r
}

pub open spec fn result_lines(rs: Seq<Seq<char>>) -> Seq<char>
    decreases rs.len(),
{
    if rs.len() == 0 {
        seq![]
    } else {
        result_lines(rs.drop_last()) + "  "@ + rs.last() + "\n"@
    }
}

/// The report of a search: a "no results" line, or a count line followed by
/// the first `max_results` results, one per line.
pub open spec fn search_report(q: Seq<char>, results: Seq<Seq<char>>, max_results: nat) -> Seq<char> {
    if results.len() == 0 {
        "[SEARCH '"@ + q + "': no results]\n"@
    } else {
        "[SEARCH '"@ + q + "': "@ + decimal(results.len()) + " files found]\n"@
            + result_lines(results.take(if results.len() < max_results { results.len() as int } else { max_results as int }))
    }
}

pub fn format_search_results(safe_query: &str, results: &Vec<String>, max_results: usize) -> (r: String)
    ensures
        r@ == search_report(safe_query@, results@.map_values(|s: String| s@), max_results as nat),
{
    let ghost rs = results@.map_values(|s: String| s@);
    if results.len() == 0 {
        let mut r = String::from_str("[SEARCH '");
        r.append(safe_query);
        r.append("': no results]\n");
        return r;
    }
    let mut r = String::from_str("[SEARCH '");
    r.append(safe_query);
    r.append("': ");
    r.append(decimal_string(results.len()).as_str());
    r.append(" files found]\n");
    let ghost head = r@;
    let n = if results.len() < max_results { results.len() } else { max_results };
    let mut i: usize = 0;
    while i < n
        invariant
            n <= results@.len(),
            i <= n,
            rs == results@.map_values(|s: String| s@),
            r@ == head + result_lines(rs.take(i as int)),
        decreases n - i,
    {
        r.append("  ");
        r.append(results[i].as_str());
        r.append("\n");
        assert(rs.take(i + 1).drop_last() =~= rs.take(i as int));
        i = i + 1;
    }
    r
}

/// Appending one character to a query appends it to the sanitised query
/// exactly when it is alphanumeric, `_`, `'`, `.` or a space, and leaves the
/// sanitised query as it was otherwise.
pub proof fn sanitizing_one_more_char(raw: Seq<char>, alnum: Seq<bool>, c: char, a: bool)
    requires
        alnum.len() == raw.len(),
    ensures
        (a || c == '_' || c == '\'' || c == '.' || c == ' ') ==> sanitized_given(raw.push(c), alnum.push(a))
            == sanitized_given(raw, alnum).push(c),
        !(a || c == '_' || c == '\'' || c == '.' || c == ' ') ==> sanitized_given(raw.push(c), alnum.push(a))
            == sanitized_given(raw, alnum),
{
    assert(raw.push(c).drop_last() =~= raw);
    assert(alnum.push(a).take(raw.len() as int) =~= alnum);
}

/// A query made only of allowed characters (alphanumerics, `_`, `'`, `.`
/// and spaces) is kept as it is; in particular spaces are kept.
pub proof fn allowed_query_is_kept(raw: Seq<char>, alnum: Seq<bool>)
    requires
        alnum.len() == raw.len(),
        forall|i: int|
            0 <= i < raw.len() ==> alnum[i] || raw[i] == '_' || raw[i] == '\'' || raw[i] == '.' || raw[i] == ' ',
    ensures
        sanitized_given(raw, alnum) == raw,
    decreases raw.len(),
{
    if raw.len() > 0 {
        let n = raw.len() - 1;
        allowed_query_is_kept(raw.drop_last(), alnum.take(n));
        assert(raw.drop_last().push(raw.last()) =~= raw);
    }
}

} // verus!
