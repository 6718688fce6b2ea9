//! Reading a MiniF2F problem file, and taking the tactic block out of a
//! translator's answer.

use vstd::prelude::*;
use vstd::string::*;
use crate::text::{
    chars_of, contains, find, find_from, is_ws, is_ws_exec, lemma_found, line_spans, lines,
    replace, replace_str, spans_text, starts_with, str_contains, str_find, str_find_from, str_starts_with, trim,
    trim_owned,
};

verus! {

broadcast use vstd::string::group_string_axioms;

// ---------------------------------------------------------------------------
// The theorem's name
// ---------------------------------------------------------------------------

/// The first of `ls` that starts with `theorem `.
pub open spec fn first_theorem_line(ls: Seq<Seq<char>>) -> Option<Seq<char>>
    decreases ls.len(),
{
    if ls.len() == 0 {
        None
    } else if starts_with(ls[0], "theorem "@) {
        Some(ls[0])
    } else {
        first_theorem_line(ls.drop_first())
    }
}

/// The first position at or after `i` that is not white space.
pub open spec fn skip_ws(s: Seq<char>, i: int) -> int
    decreases s.len() - i,
{
    if i >= s.len() || i < 0 {
        s.len() as int
    } else if is_ws(s[i]) {
        skip_ws(s, i + 1)
    } else {
        i
    }
}

/// The first position at or after `i` that is white space.
pub open spec fn word_end(s: Seq<char>, i: int) -> int
    decreases s.len() - i,
{
    if i >= s.len() || i < 0 {
        s.len() as int
    } else if is_ws(s[i]) {
        i
    } else {
        word_end(s, i + 1)
    }
}

/// The second word of a line that starts with `theorem `: the theorem's
/// name (the first word is `theorem` itself).
pub open spec fn second_word(l: Seq<char>) -> Option<Seq<char>> {
    let a = skip_ws(l, 7);
    if a >= l.len() { None } else { Some(l.subrange(a, word_end(l, a))) }
}

/// The name of the first theorem declared in a file, or `unknown`.
pub open spec fn theorem_name_of(content: Seq<char>) -> Seq<char> {
    match first_theorem_line(lines(content)) {
        Some(l) => match second_word(l) {
            Some(w) => w,
            None => "unknown"@,
        },
        None => "unknown"@,
    }
}

proof fn lemma_skip_ws(s: Seq<char>, i: int)
    requires
        0 <= i <= s.len(),
    ensures
        i <= skip_ws(s, i) <= s.len(),
        forall|j: int| i <= j < skip_ws(s, i) ==> is_ws(#[trigger] s[j]),
        skip_ws(s, i) < s.len() ==> !is_ws(s[skip_ws(s, i)]),
    decreases s.len() - i,
{
    if i < s.len() && is_ws(s[i]) {
        lemma_skip_ws(s, i + 1);
    }
}

proof fn lemma_word_end(s: Seq<char>, i: int)
    requires
        0 <= i <= s.len(),
    ensures
        i <= word_end(s, i) <= s.len(),
        forall|j: int| i <= j < word_end(s, i) ==> !is_ws(#[trigger] s[j]),
        word_end(s, i) < s.len() ==> is_ws(s[word_end(s, i)]),
    decreases s.len() - i,
{
    if i < s.len() && !is_ws(s[i]) {
        lemma_word_end(s, i + 1);
    }
}

fn second_word_exec(l: &Vec<char>, from: usize, to: usize) -> (r: Option<(usize, usize)>)
    requires
        from + 7 <= to <= l@.len(),
    ensures
        match second_word(l@.subrange(from as int, to as int)) {
            Some(w) => r matches Some(p) && from <= p.0 <= p.1 <= to && l@.subrange(p.0 as int, p.1 as int) == w,
            None => r is None,
        },
{
    let ghost s = l@.subrange(from as int, to as int);
    let mut a = from + 7;
    while a < to && is_ws_exec(l[a])
        invariant
            from + 7 <= a <= to <= l@.len(),
            s == l@.subrange(from as int, to as int),
            skip_ws(s, (a - from) as int) == skip_ws(s, 7),
        decreases to - a,
    {
        assert(s[a - from] == l@[a as int]);
        a = a + 1;
    }
    proof {
        if a < to {
            assert(s[a - from] == l@[a as int]);
        }
    }
    if a >= to {
        return None;
    }
    let mut e = a;
    while e < to && !is_ws_exec(l[e])
        invariant
            from + 7 <= a <= e <= to <= l@.len(),
            s == l@.subrange(from as int, to as int),
            word_end(s, (e - from) as int) == word_end(s, (a - from) as int),
        decreases to - e,
    {
        assert(s[e - from] == l@[e as int]);
        e = e + 1;
    }
    proof {
        if e < to {
            assert(s[e - from] == l@[e as int]);
        }
        assert(s.subrange((a - from) as int, (e - from) as int) =~= l@.subrange(a as int, e as int));
    }
    Some((a, e))
}

pub fn theorem_name(content: &str) -> (r: String)
    ensures
        r@ == theorem_name_of(content@),
{
    proof { reveal_strlit("theorem "); }
    let v = chars_of(content);
    let spans = line_spans(&v);
    let ghost ls = lines(content@);
    assert(ls.subrange(0, ls.len() as int) =~= ls);
    let mut k: usize = 0;
    while k < spans.len()
        invariant
            v@ == content@,
            k <= spans@.len(),
            spans_text(v@, spans@) == ls,
            ls == lines(content@),
            forall|q: int| 0 <= q < spans@.len() ==> spans@[q].0 <= #[trigger] spans@[q].1 <= v@.len(),
            first_theorem_line(ls.subrange(k as int, ls.len() as int)) == first_theorem_line(ls),
        decreases spans@.len() - k,
    {
        let (from, to) = spans[k];
        let line = content.substring_char(from, to);
        assert(line@ == ls[k as int]);
        proof {
            let rest = ls.subrange(k as int, ls.len() as int);
            assert(rest[0] == ls[k as int]);
            assert(rest.drop_first() =~= ls.subrange(k + 1, ls.len() as int));
        }
        if str_starts_with(line, "theorem ") {
            proof {
                reveal_strlit("theorem ");
                assert("theorem "@.len() == 8);
                assert(line@.len() >= 8);
            }
            return match second_word_exec(&v, from, to) {
                Some((a, e)) => {
                    content.substring_char(a, e).to_owned()
                },
                None => String::from_str("unknown"),
            };
        }
        k = k + 1;
    }
    String::from_str("unknown")
}

// ---------------------------------------------------------------------------
// The statement handed to the agents
// ---------------------------------------------------------------------------

/// The statement with its `by sorry` opened up for the agents' tactics.
pub open spec fn opened_statement(content: Seq<char>) -> Seq<char> {
    replace(content, "by sorry"@, "by\n"@)
}

pub fn open_statement(content: &str) -> (r: String)
    ensures
        r@ == opened_statement(content@),
{
    proof { reveal_strlit("by sorry"); }
    replace_str(content, "by sorry", "by\n")
}

/// Library ranges whose presence lets a statement be checked by brute force.
pub open spec fn brute_force_patterns() -> Seq<Seq<char>> {
    seq!["Finset.range"@, "Finset.Icc"@, "Finset.Ico"@, "List.range"@]
}

/// The brute-force patterns that occur in `content`, in the order above.
pub open spec fn brute_force_found(content: Seq<char>) -> Seq<Seq<char>> {
    brute_force_patterns().filter(|p: Seq<char>| contains(content, p))
}

pub fn brute_force_warnings(content: &str) -> (r: Vec<String>)
    ensures
        r@.map_values(|s: String| s@) == brute_force_found(content@),
{
    let pats = [
        String::from_str("Finset.range"),
        String::from_str("Finset.Icc"),
        String::from_str("Finset.Ico"),
        String::from_str("List.range"),
    ];
    let ghost ps = brute_force_patterns();
    assert(pats@.map_values(|s: String| s@) =~= ps);
    let mut r: Vec<String> = Vec::new();
    let mut i: usize = 0;
    while i < 4
        invariant
            i <= 4,
            pats@.len() == 4,
            pats@.map_values(|s: String| s@) == ps,
            ps == brute_force_patterns(),
            r@.map_values(|s: String| s@) == ps.subrange(0, i as int).filter(|p: Seq<char>| contains(content@, p)),
        decreases 4 - i,
    {
        let p = &pats[i];
        assert(p@ == ps[i as int]);
        proof {
            let pre = ps.subrange(0, i + 1);
            assert(pre.drop_last() =~= ps.subrange(0, i as int));
            reveal(Seq::filter);
        }
        if str_contains(content, p.as_str()) {
            r.push(p.clone());
        }
        assert(r@.map_values(|s: String| s@) =~= ps.subrange(0, i + 1).filter(|p: Seq<char>| contains(content@, p)));
        i = i + 1;
    }
    assert(ps.subrange(0, 4) =~= ps);
    r
}

// ---------------------------------------------------------------------------
// The translator's answer
// ---------------------------------------------------------------------------

/// The tactic block of a translator's answer: the body of its first fenced
/// code block (after the fence's language line, up to the closing fence or
/// the end), trimmed; the whole answer, trimmed, when it has no fence.
pub open spec fn code_of(raw: Seq<char>) -> Seq<char> {
    match find(raw, "```"@) {
        Some(start) => {
            let after = raw.subrange(start + 3, raw.len() as int);
            let code_start = match find(after, "\n"@) {
                Some(l) => l + 1,
                None => 1,
            };
            match find_from(after, "```"@, code_start) {
                Some(end) => trim(after.subrange(code_start, end)),
                None => trim(after.subrange(code_start, after.len() as int)),
            }
        },
        None => trim(raw),
    }
}

/// A fence with no line break after it must be followed by at least one
/// one-byte character: the language line is taken to be that character.
pub open spec fn code_fence_ok(raw: Seq<char>) -> bool {
    match find(raw, "```"@) {
        Some(start) => {
            let after = raw.subrange(start + 3, raw.len() as int);
            find(after, "\n"@) is None ==> after.len() > 0 && (after[0] as u32) < 128
        },
        None => true,
    }
}

pub fn extract_code(raw: &str) -> (r: String)
    requires
        code_fence_ok(raw@),
    ensures
        r@ == code_of(raw@),
{
    proof { reveal_strlit("```"); reveal_strlit("\n"); }
    let n = raw.unicode_len();
    match str_find(raw, "```") {
        Some(start) => {
            proof { lemma_found(raw@, "```"@, 0, start as int); }
            let after = raw.substring_char(start + 3, n);
            let m = after.unicode_len();
            let code_start = match str_find(after, "\n") {
                Some(l) => {
                    proof { lemma_found(after@, "\n"@, 0, l as int); }
                    l + 1
                },
                None => 1,
            };
            match str_find_from(after, "```", code_start) {
                Some(end) => {
                    proof { lemma_found(after@, "```"@, code_start as int, end as int); }
                    trim_owned(after.substring_char(code_start, end))
                },
                None => trim_owned(after.substring_char(code_start, m)),
            }
        },
        None => trim_owned(raw),
    }
}

} // verus!
