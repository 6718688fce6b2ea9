//! Checks shared by the Lean 4 membranes: theorem hijacking, the `sorry`
//! firewall, forbidden tactics, and reading compiler output.

use vstd::prelude::*;
use vstd::string::*;
use crate::text::{
    chars_of, contains, contains_exec, find, find_from, find_from_exec, is_ws, is_ws_exec,
    lemma_find_from, lemma_found, line_spans, lines, span_text, spans_in, spans_text, str_contains,
    str_find, trim_lo,
};

verus! {

broadcast use vstd::string::group_string_axioms;

// ---------------------------------------------------------------------------
// Words
// ---------------------------------------------------------------------------

/// End of the run of non-whitespace characters that starts at `i`.
pub open spec fn word_end(s: Seq<char>, i: int) -> int
    decreases s.len() - i,
{
    if 0 <= i < s.len() && !is_ws(s[i]) {
        word_end(s, i + 1)
    } else {
        i
    }
}

/// The first whitespace-separated word of `s` (empty when there is none):
/// `s.split_whitespace().next().unwrap_or("")`.
pub open spec fn first_word(s: Seq<char>) -> Seq<char> {
    let lo = trim_lo(s, 0);
    s.subrange(lo, word_end(s, lo))
}

proof fn lemma_word_end(s: Seq<char>, i: int)
    requires
        0 <= i <= s.len(),
    ensures
        i <= word_end(s, i) <= s.len(),
    decreases s.len() - i,
{
    if i < s.len() && !is_ws(s[i]) {
        lemma_word_end(s, i + 1);
    }
}

/// Range of `s` holding the first word of `s.subrange(from, s.len())`.
fn first_word_range(s: &Vec<char>, from: usize) -> (r: (usize, usize))
    requires
        from <= s@.len(),
    ensures
        from <= r.0 <= r.1 <= s@.len(),
        s@.subrange(r.0 as int, r.1 as int) == first_word(s@.subrange(from as int, s@.len() as int)),
{
    let ghost t = s@.subrange(from as int, s@.len() as int);
    let n = s.len();
    let mut lo = from;
    while lo < n && is_ws_exec(s[lo])
        invariant
            from <= lo <= n == s@.len(),
            t == s@.subrange(from as int, s@.len() as int),
            trim_lo(t, 0) == trim_lo(t, lo - from),
        decreases n - lo,
    {
        lo = lo + 1;
    }
    let mut hi = lo;
    while hi < n && !is_ws_exec(s[hi])
        invariant
            from <= lo <= hi <= n == s@.len(),
            t == s@.subrange(from as int, s@.len() as int),
            trim_lo(t, 0) == lo - from,
            word_end(t, lo - from) == word_end(t, hi - from),
        decreases n - hi,
    {
        hi = hi + 1;
    }
    assert(s@.subrange(lo as int, hi as int) =~= t.subrange(lo - from, hi - from));
    (lo, hi)
}

/// Are the ranges `a` and `b` equal text?
fn range_eq(s: &Vec<char>, a: (usize, usize), w: &Vec<char>) -> (e: bool)
    requires
        a.0 <= a.1 <= s@.len(),
    ensures
        e == (s@.subrange(a.0 as int, a.1 as int) == w@),
{
    if a.1 - a.0 != w.len() {
        assert(s@.subrange(a.0 as int, a.1 as int).len() != w@.len());
        return false;
    }
    let mut k: usize = 0;
    while k < w.len()
        invariant
            a.0 <= a.1 <= s@.len(),
            a.1 - a.0 == w@.len(),
            k <= w@.len(),
            forall|j: int| 0 <= j < k ==> #[trigger] s@.subrange(a.0 as int, a.1 as int)[j] == w@[j],
        decreases w@.len() - k,
    {
        if s[a.0 + k] != w[k] {
            assert(s@.subrange(a.0 as int, a.1 as int)[k as int] != w@[k as int]);
            return false;
        }
        k = k + 1;
    }
    assert(s@.subrange(a.0 as int, a.1 as int) =~= w@);
    true
}

// ---------------------------------------------------------------------------
// Hijacking
// ---------------------------------------------------------------------------

/// Declaration keywords that could smuggle in another theorem.
pub open spec fn hijack_keywords() -> Seq<Seq<char>> {
    seq![
        "theorem "@, "lemma "@, "def "@, "example "@, "instance "@, "abbrev "@, "axiom "@,
        "constant "@, "class "@, "structure "@, "macro "@, "syntax "@, "elab "@,
    ]
}

/// Scanning the occurrences of `kw` in `s` from `start` on, one of them is
/// followed by a word that is not `name`.
pub open spec fn declares_other_from(s: Seq<char>, kw: Seq<char>, name: Seq<char>, start: int) -> bool
    decreases s.len() + 1 - start,
{
    if kw.len() == 0 || start < 0 {
        false
    } else {
        match find_from(s, kw, start) {
            Some(j) => {
                proof { lemma_find_from(s, kw, start); }
                let w = first_word(s.subrange(j + kw.len(), s.len() as int));
                if w.len() > 0 && w != name {
                    true
                } else {
                    declares_other_from(s, kw, name, j + kw.len())
                }
            },
            None => false,
        }
    }
}

/// Some keyword of `kws` declares something other than `name` in `s`.
pub open spec fn declares_other(s: Seq<char>, kws: Seq<Seq<char>>, name: Seq<char>) -> bool
    decreases kws.len(),
{
    kws.len() > 0 && (declares_other_from(s, kws[0], name, 0) || declares_other(s, kws.drop_first(), name))
}

/// Does some occurrence of `kw` in `s` declare something other than `name`?
pub fn declares_other_exec(s: &Vec<char>, kw: &str, name: &Vec<char>) -> (b: bool)
    ensures
        b == declares_other_from(s@, kw@, name@, 0),
{
    let kv = chars_of(kw);
    if kv.len() == 0 {
        return false;
    }
    let n = s.len();
    let mut start: usize = 0;
    loop
        invariant
            kv@ == kw@,
            kv@.len() > 0,
            n == s@.len(),
            start <= n,
            declares_other_from(s@, kw@, name@, 0) == declares_other_from(s@, kw@, name@, start as int),
        decreases n - start,
    {
        match find_from_exec(s, &kv, start) {
            Some(j) => {
                proof { lemma_find_from(s@, kw@, start as int); }
                let after = j + kv.len();
                let w = first_word_range(s, after);
                if w.1 > w.0 && !range_eq(s, w, name) {
                    return true;
                }
                start = after;
            },
            None => return false,
        }
    }
}

/// Does some hijack keyword declare something other than `name` in `s`?
pub fn declares_other_any(s: &Vec<char>, name: &Vec<char>) -> (b: bool)
    ensures
        b == declares_other(s@, hijack_keywords(), name@),
{
    let kws: [&str; 13] = [
        "theorem ", "lemma ", "def ", "example ", "instance ", "abbrev ", "axiom ", "constant ",
        "class ", "structure ", "macro ", "syntax ", "elab ",
    ];
    let ghost all = hijack_keywords();
    assert(all.subrange(0, 13) =~= all);
    let mut i: usize = 0;
    while i < 13
        invariant
            i <= 13,
            all == hijack_keywords(),
            forall|j: int| 0 <= j < 13 ==> (#[trigger] kws@[j])@ == all[j],
            declares_other(s@, all, name@) == declares_other(s@, all.subrange(i as int, 13), name@),
        decreases 13 - i,
    {
        let ghost rest = all.subrange(i as int, 13);
        assert(rest[0] == all[i as int]);
        assert(rest.drop_first() =~= all.subrange(i + 1, 13));
        if declares_other_exec(s, kws[i], name) {
            return true;
        }
        i = i + 1;
    }
    assert(all.subrange(13, 13).len() == 0);
    false
}

// ---------------------------------------------------------------------------
// The sorry firewall
// ---------------------------------------------------------------------------

/// ASCII letters, digits and `_`: the characters that continue a word.
pub open spec fn is_word_char(c: char) -> bool {
    ('a' <= c && c <= 'z') || ('A' <= c && c <= 'Z') || ('0' <= c && c <= '9') || c == '_'
}

fn is_word_char_exec(c: char) -> (b: bool)
    ensures
        b == is_word_char(c),
{
    ('a' <= c && c <= 'z') || ('A' <= c && c <= 'Z') || ('0' <= c && c <= '9') || c == '_'
}

/// `token` occurs at `j` as a whole word.
pub open spec fn whole_word_at(s: Seq<char>, token: Seq<char>, j: int) -> bool {
    &&& j == 0 || !is_word_char(s[j - 1])
    &&& j + token.len() >= s.len() || !is_word_char(s[j + token.len()])
}

/// Scanning the occurrences of `token` in `s` from `start` on, one stands
/// as a whole word.
pub open spec fn whole_word_from(s: Seq<char>, token: Seq<char>, start: int) -> bool
    decreases s.len() + 1 - start,
{
    if token.len() == 0 || start < 0 {
        false
    } else {
        match find_from(s, token, start) {
            Some(j) => {
                proof { lemma_find_from(s, token, start); }
                whole_word_at(s, token, j) || whole_word_from(s, token, j + token.len())
            },
            None => false,
        }
    }
}

/// The part of a payload holding tactics: from its first `:= by` on, or the
/// whole payload.
pub open spec fn tactic_region(p: Seq<char>) -> Seq<char> {
    match find(p, ":= by"@) {
        Some(i) => p.subrange(i, p.len() as int),
        None => p,
    }
}

/// The forbidden token that appears as a whole word in the tactic region.
pub open spec fn sorry_token(p: Seq<char>) -> Option<Seq<char>> {
    let r = tactic_region(p);
    if whole_word_from(r, "sorry"@, 0) {
        Some("sorry"@)
    } else if whole_word_from(r, "sorryAx"@, 0) {
        Some("sorryAx"@)
    } else {
        None
    }
}

fn whole_word_exec(s: &Vec<char>, token: &str) -> (b: bool)
    ensures
        b == whole_word_from(s@, token@, 0),
{
    let tv = chars_of(token);
    if tv.len() == 0 {
        return false;
    }
    let n = s.len();
    let mut start: usize = 0;
    loop
        invariant
            tv@ == token@,
            tv@.len() > 0,
            n == s@.len(),
            start <= n,
            whole_word_from(s@, token@, 0) == whole_word_from(s@, token@, start as int),
        decreases n - start,
    {
        match find_from_exec(s, &tv, start) {
            Some(j) => {
                proof { lemma_find_from(s@, token@, start as int); }
                let after = j + tv.len();
                let before_ok = j == 0 || !is_word_char_exec(s[j - 1]);
                let after_ok = after >= n || !is_word_char_exec(s[after]);
                if before_ok && after_ok {
                    return true;
                }
                start = after;
            },
            None => return false,
        }
    }
}

/// Finds `sorry` or `sorryAx` used as a word in the tactic region.
pub fn find_sorry(payload: &str) -> (r: Option<&'static str>)
    ensures
        r matches Some(t) ==> sorry_token(payload@) == Some(t@),
        r is None ==> sorry_token(payload@) is None,
{
    let p = chars_of(payload);
    let region: Vec<char> = match str_find(payload, ":= by") {
        Some(i) => {
            proof { lemma_found(payload@, ":= by"@, 0, i as int); }
            chars_of(payload.substring_char(i, p.len()))
        },
        None => p,
    };
    if whole_word_exec(&region, "sorry") {
        Some("sorry")
    } else if whole_word_exec(&region, "sorryAx") {
        Some("sorryAx")
    } else {
        None
    }
}

// ---------------------------------------------------------------------------
// Forbidden tactics and compiler output
// ---------------------------------------------------------------------------

/// The first forbidden keyword that `payload` contains.
pub open spec fn first_forbidden(payload: Seq<char>, kws: Seq<Seq<char>>) -> Option<int>
    decreases kws.len(),
{
    if kws.len() == 0 {
        None
    } else if contains(payload, kws[0]) {
        Some(0)
    } else {
        match first_forbidden(payload, kws.drop_first()) {
            Some(i) => Some(i + 1),
            None => None,
        }
    }
}

pub open spec fn strings_view(v: Seq<String>) -> Seq<Seq<char>> {
    v.map_values(|s: String| s@)
}

pub proof fn lemma_strings_view_push(v: Seq<String>, s: String)
    ensures
        strings_view(v.push(s)) == strings_view(v).push(s@),
{
    assert(strings_view(v.push(s)) =~= strings_view(v).push(s@));
}

pub proof fn lemma_first_forbidden(p: Seq<char>, kws: Seq<Seq<char>>)
    ensures
        first_forbidden(p, kws) matches Some(i) ==> 0 <= i < kws.len() && contains(p, kws[i]),
    decreases kws.len(),
{
    if kws.len() > 0 && !contains(p, kws[0]) {
        lemma_first_forbidden(p, kws.drop_first());
    }
}

/// Position of the first keyword of `kws` that `payload` contains.
pub fn find_forbidden(payload: &str, kws: &Vec<String>) -> (r: Option<usize>)
    ensures
        r matches Some(i) ==> first_forbidden(payload@, strings_view(kws@)) == Some(i as int) && i < kws@.len(),
        r is None ==> first_forbidden(payload@, strings_view(kws@)) is None,
{
    let p = chars_of(payload);
    let ghost all = strings_view(kws@);
    assert(all.subrange(0, all.len() as int) =~= all);
    let mut i: usize = 0;
    while i < kws.len()
        invariant
            p@ == payload@,
            i <= kws@.len(),
            all == strings_view(kws@),
            first_forbidden(payload@, all) == match first_forbidden(payload@, all.subrange(i as int, all.len() as int)) {
                Some(j) => Some(j + i),
                None => None,
            },
        decreases kws@.len() - i,
    {
        let ghost rest = all.subrange(i as int, all.len() as int);
        assert(rest[0] == kws@[i as int]@);
        assert(rest.drop_first() =~= all.subrange(i + 1, all.len() as int));
        let kv = chars_of(kws[i].as_str());
        if contains_exec(&p, &kv) {
            return Some(i);
        }
        i = i + 1;
    }
    assert(all.subrange(i as int, all.len() as int).len() == 0);
    None
}

/// Some line of `e` reports an error other than "No goals to be solved".
pub open spec fn other_errors(e: Seq<char>) -> bool {
    exists|i: int| 0 <= i < lines(e).len() && #[trigger] contains(lines(e)[i], "error:"@)
        && !contains(lines(e)[i], "No goals to be solved"@)
}

pub fn has_other_errors(e: &str) -> (b: bool)
    ensures
        b == other_errors(e@),
{
    let s = chars_of(e);
    let ls = line_spans(&s);
    let err = chars_of("error:");
    let ng = chars_of("No goals to be solved");
    let mut i: usize = 0;
    while i < ls.len()
        invariant
            s@ == e@,
            spans_in(s@, ls@),
            spans_text(s@, ls@) == lines(e@),
            err@ == "error:"@,
            ng@ == "No goals to be solved"@,
            i <= ls@.len(),
            forall|j: int| 0 <= j < i ==> !(#[trigger] contains(lines(e@)[j], "error:"@)
                && !contains(lines(e@)[j], "No goals to be solved"@)),
        decreases ls@.len() - i,
    {
        let (a, b) = ls[i];
        assert(ls@[i as int].0 <= ls@[i as int].1 <= s@.len());
        assert(spans_text(s@, ls@)[i as int] == span_text(s@, ls@[i as int]));
        let mut line: Vec<char> = Vec::new();
        let mut k = a;
        while k < b
            invariant
                a <= k <= b <= s@.len(),
                line@ == s@.subrange(a as int, k as int),
            decreases b - k,
        {
            line.push(s[k]);
            assert(line@ =~= s@.subrange(a as int, k + 1));
            k = k + 1;
        }
        if contains_exec(&line, &err) && !contains_exec(&line, &ng) {
            return true;
        }
        i = i + 1;
    }
    false
}

/// Number of lines of `s`, as `str::lines().count()`.
pub fn line_count(s: &str) -> (n: usize)
    ensures
        n == lines(s@).len(),
{
    let v = chars_of(s);
    let ls = line_spans(&v);
    assert(spans_text(v@, ls@).len() == ls@.len());
    ls.len()
}


// ---------------------------------------------------------------------------
// Steps of a membrane that consults a compiler
// ---------------------------------------------------------------------------

/// What a membrane does next: it has decided, or it needs the compiler's
/// result on `code` within `gas_secs` seconds.
pub enum CompileStep<D> {
    Decided(D),
    Compile { code: String, gas_secs: u64 },
}

/// The text after the problem statement, where a hijack would be written
/// (the whole payload when the statement is empty or absent).
pub open spec fn increment(ps: Seq<char>, p: Seq<char>) -> Seq<char> {
    if ps.len() > 0 {
        match find(p, ps) {
            Some(i) => p.subrange(i + ps.len(), p.len() as int),
            None => p,
        }
    } else {
        p
    }
}

pub fn increment_exec(ps: &str, p: &str) -> (r: Vec<char>)
    ensures
        r@ == increment(ps@, p@),
{
    let pv = chars_of(p);
    let n = ps.unicode_len();
    if n > 0 {
        match str_find(p, ps) {
            Some(i) => {
                proof { lemma_found(p@, ps@, 0, i as int); }
                assert(i + n <= pv.len());
                chars_of(p.substring_char(i + n, pv.len()))
            },
            None => pv,
        }
    } else {
        pv
    }
}

/// The compiler's output is a result: `Ok` with stdout, `Err` with stderr.
pub open spec fn result_view(r: Result<String, String>) -> Result<Seq<char>, Seq<char>> {
    match r {
        Ok(s) => Ok(s@),
        Err(e) => Err(e@),
    }
}
} // verus!
