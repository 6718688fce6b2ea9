//! The MiniF2F batch evaluations: how each theorem file becomes the
//! statement the swarm works on, which models the swarm is made of, the
//! score over the batch, and the zero-shot baseline's proof extraction and
//! verdict. Reading the files and running the swarm are the runtime's.

use vstd::prelude::*;
use vstd::string::*;
use crate::text::{
    chars_of, contains, ends_with, find, is_ws, is_ws_exec, lemma_found, rfind, str_contains,
    str_ends_with, str_find, str_rfind, substring, trim, trim_hi, trim_owned, lemma_rfound,
};

verus! {

broadcast use vstd::string::group_string_axioms;

// ---------------------------------------------------------------------------
// The statement
// ---------------------------------------------------------------------------

/// `s` without trailing whitespace (`str::trim_end`).
pub open spec fn trim_end(s: Seq<char>) -> Seq<char> {
    s.subrange(0, trim_hi(s, 0, s.len() as int))
}

/// `str::trim_end`, as an owned string.
pub fn trim_end_text(s: &str) -> (r: String)
    ensures
        r@ == trim_end(s@),
{
    let v = chars_of(s);
    let n = v.len();
    let mut hi = n;
    while hi > 0 && is_ws_exec(v[hi - 1])
        invariant
            hi <= n,
            n == v@.len(),
            v@ == s@,
            trim_hi(s@, 0, n as int) == trim_hi(s@, 0, hi as int),
        decreases hi,
    {
        hi = hi - 1;
    }
    substring(s, 0, hi)
}

/// The statement a theorem file is evaluated on: a trailing `by sorry`
/// becomes ` by`, a trailing `sorry` is dropped (each with the whitespace
/// before it); any other file is used as it is.
pub open spec fn batch_statement(content: Seq<char>) -> Seq<char> {
    let t = trim_end(content);
    if ends_with(t, "by sorry"@) {
        trim_end(t.subrange(0, t.len() - 8)) + " by"@
    } else if ends_with(t, "sorry"@) {
        trim_end(t.subrange(0, t.len() - 5))
    } else {
        content
    }
}

pub fn batch_statement_text(content: &str) -> (r: String)
    ensures
        r@ == batch_statement(content@),
{
    proof {
        reveal_strlit("by sorry");
        reveal_strlit("sorry");
    }
    let t = trim_end_text(content);
    let n = t.as_str().unicode_len();
    if str_ends_with(t.as_str(), "by sorry") {
        let head = substring(t.as_str(), 0, n - 8);
        let mut r = trim_end_text(head.as_str());
        r.append(" by");
        r
    } else if str_ends_with(t.as_str(), "sorry") {
        let head = substring(t.as_str(), 0, n - 5);
        trim_end_text(head.as_str())
    } else {
        content.to_owned()
    }
}

// ---------------------------------------------------------------------------
// The models
// ---------------------------------------------------------------------------

/// The endpoints and models of the swarm: three agents on the primary
/// model and one on each smart model when any model differs, else the
/// primary model alone.
pub open spec fn roster(
    api_url: Seq<char>,
    primary: Seq<char>,
    smart: Seq<char>,
    smart_2: Seq<char>,
    smart_url_2: Seq<char>,
) -> Seq<(Seq<char>, Seq<char>)> {
    if smart != primary || smart_2 != smart {
        seq![(api_url, primary), (api_url, primary), (api_url, primary), (api_url, smart), (smart_url_2, smart_2)]
    } else {
        seq![(api_url, primary)]
    }
}

fn same(a: &str, b: &str) -> (r: bool)
    ensures
        r == (a@ == b@),
{
    String::from_str(a) == String::from_str(b)
}

fn pair(url: &str, model: &str) -> (r: (String, String))
    ensures
        r.0@ == url@,
        r.1@ == model@,
{
    (String::from_str(url), String::from_str(model))
}

pub fn model_roster(api_url: &str, primary: &str, smart: &str, smart_2: &str, smart_url_2: &str) -> (r: Vec<(String, String)>)
    ensures
        r@.map_values(|p: (String, String)| (p.0@, p.1@)) == roster(api_url@, primary@, smart@, smart_2@, smart_url_2@),
{
    let mut r: Vec<(String, String)> = Vec::new();
    if !same(smart, primary) || !same(smart_2, smart) {
        r.push(pair(api_url, primary));
        r.push(pair(api_url, primary));
        r.push(pair(api_url, primary));
        r.push(pair(api_url, smart));
        r.push(pair(smart_url_2, smart_2));
    } else {
        r.push(pair(api_url, primary));
    }
    assert(r@.map_values(|p: (String, String)| (p.0@, p.1@)) =~= roster(
        api_url@,
        primary@,
        smart@,
        smart_2@,
        smart_url_2@,
    ));
    r
}

// ---------------------------------------------------------------------------
// The score
// ---------------------------------------------------------------------------

/// How many theorems of a batch were evaluated, and how many proved.
#[derive(Debug, Clone, Copy)]
pub struct BatchScore {
    pub proved: usize,
    pub evaluated: usize,
}

impl BatchScore {
    /// No theorem counted twice: never more proved than evaluated.
    pub open spec fn wf(&self) -> bool {
        self.proved <= self.evaluated
    }

    pub fn new() -> (s: BatchScore)
        ensures
            s.proved == 0,
            s.evaluated == 0,
            s.wf(),
    {
        BatchScore { proved: 0, evaluated: 0 }
    }

    /// Counts one evaluated theorem, and whether it was proved.
    pub fn record(&mut self, proved: bool)
        requires
            old(self).wf(),
            old(self).evaluated < usize::MAX,
        ensures
            final(self).wf(),
            final(self).evaluated == old(self).evaluated + 1,
            final(self).proved == old(self).proved + if proved { 1usize } else { 0usize },
    {
        if proved {
            self.proved = self.proved + 1;
        }
        self.evaluated = self.evaluated + 1;
    }
}

// ---------------------------------------------------------------------------
// The zero-shot baseline
// ---------------------------------------------------------------------------

/// The proof in a zero-shot answer: what follows `[Proof:` up to its last
/// `]`, trimmed (all of it, trimmed, when there is no `]`); the whole
/// answer when it has no `[Proof:`.
pub open spec fn zero_shot_proof(raw: Seq<char>) -> Seq<char> {
    match find(raw, "[Proof:"@) {
        Some(start) => {
            let slice = raw.subrange(start + 7, raw.len() as int);
            match rfind(slice, "]"@) {
                Some(end) => trim(slice.subrange(0, end)),
                None => trim(slice),
            }
        },
        None => raw,
    }
}

pub fn zero_shot_proof_text(raw: &str) -> (r: String)
    ensures
        r@ == zero_shot_proof(raw@),
{
    proof {
        reveal_strlit("[Proof:");
        reveal_strlit("]");
    }
    match str_find(raw, "[Proof:") {
        Some(start) => {
            proof { lemma_found(raw@, "[Proof:"@, 0, start as int); }
            let n = raw.unicode_len();
            let slice = substring(raw, start + 7, n);
            match str_rfind(slice.as_str(), "]") {
                Some(end) => {
                    proof { lemma_rfound(slice@, "]"@, end as int); }
                    trim_owned(slice.as_str().substring_char(0, end))
                },
                None => trim_owned(slice.as_str()),
            }
        },
        None => raw.to_owned(),
    }
}

/// The file the compiler checks: the statement, then the proof indented.
pub open spec fn zero_shot_code(statement: Seq<char>, raw: Seq<char>) -> Seq<char> {
    statement + "\n  "@ + zero_shot_proof(raw)
}

pub fn zero_shot_code_text(statement: &str, raw: &str) -> (r: String)
    ensures
        r@ == zero_shot_code(statement@, raw@),
{
    let mut r = statement.to_owned();
    r.append("\n  ");
    r.append(zero_shot_proof_text(raw).as_str());
    r
}

/// The compiler's output proves the theorem when it holds neither an error
/// nor a `sorry`.
pub open spec fn zero_shot_proved(output: Seq<char>) -> bool {
    !contains(output, "error:"@) && !contains(output, "sorry"@)
}

pub fn zero_shot_passes(output: &str) -> (b: bool)
    ensures
        b == zero_shot_proved(output@),
{
    !str_contains(output, "error:") && !str_contains(output, "sorry")
}

} // verus!
