//! The MAKER one-million-step milestone: reading its arguments, counting
//! trace steps, reading the answer file and listing what is still missing.

use vstd::prelude::*;
use vstd::string::*;
use crate::text::{
    chars_of, contains, decimal, decimal_string, line_spans, lines, span_text, spans_in,
    spans_text, str_contains, to_uppercase, trim, trim_owned, trim_range, uppercase,
};

verus! {

broadcast use vstd::string::group_string_axioms;

pub open spec fn args_view(args: Seq<String>) -> Seq<Seq<char>> {
    args.map_values(|s: String| s@)
}

/// The value after the last `key` among the first `n` arguments that has a
/// value after it.
pub open spec fn arg_value(args: Seq<Seq<char>>, key: Seq<char>, n: int) -> Option<Seq<char>>
    decreases n,
{
    if n <= 0 {
        None
    } else if args[n - 1] == key && n < args.len() {
        Some(args[n])
    } else {
        arg_value(args, key, n - 1)
    }
}

/// Reads `--trace PATH` and `--answer PATH` (the last of each wins).
pub fn parse_args(args: &Vec<String>) -> (r: (Option<String>, Option<String>))
    ensures
        (match r.0 { Some(s) => Some(s@), None => None::<Seq<char>> })
            == arg_value(args_view(args@), "--trace"@, args@.len() as int),
        (match r.1 { Some(s) => Some(s@), None => None::<Seq<char>> })
            == arg_value(args_view(args@), "--answer"@, args@.len() as int),
{
    let trace_key = String::from_str("--trace");
    let answer_key = String::from_str("--answer");
    let ghost av = args_view(args@);
    let mut trace: Option<String> = None;
    let mut answer: Option<String> = None;
    let mut i: usize = 0;
    while i < args.len()
        invariant
            i <= args@.len(),
            av == args_view(args@),
            trace_key@ == "--trace"@,
            answer_key@ == "--answer"@,
            (match trace { Some(s) => Some(s@), None => None::<Seq<char>> }) == arg_value(av, "--trace"@, i as int),
            (match answer { Some(s) => Some(s@), None => None::<Seq<char>> }) == arg_value(av, "--answer"@, i as int),
        decreases args@.len() - i,
    {
        assert(av[i as int] == args@[i as int]@);
        if i + 1 < args.len() {
            assert(av[i + 1] == args@[i + 1]@);
        }
        let key = &args[i];
        if *key == trace_key && i + 1 < args.len() {
            trace = Some(args[i + 1].clone());
        } else if *key == answer_key && i + 1 < args.len() {
            answer = Some(args[i + 1].clone());
        }
        proof {
            reveal_strlit("--trace");
            reveal_strlit("--answer");
            assert("--trace"@ != "--answer"@) by { assert("--trace"@[2] != "--answer"@[2]); }
        }
        i = i + 1;
    }
    (trace, answer)
}

/// Number of lines that hold something besides whitespace.
pub open spec fn nonblank_count(ls: Seq<Seq<char>>) -> nat
    decreases ls.len(),
{
    if ls.len() == 0 {
        0
    } else {
        nonblank_count(ls.drop_last()) + if trim(ls.last()).len() > 0 { 1nat } else { 0nat }
    }
}

/// The number of steps a trace records: its non-blank lines.
pub fn count_steps(content: &str) -> (n: usize)
    ensures
        n == nonblank_count(lines(content@)),
{
    let s = chars_of(content);
    let ls = line_spans(&s);
    let ghost all = lines(content@);
    let mut n: usize = 0;
    let mut i: usize = 0;
    while i < ls.len()
        invariant
            s@ == content@,
            spans_in(s@, ls@),
            spans_text(s@, ls@) == all,
            all == lines(content@),
            i <= ls@.len(),
            n <= i,
            n == nonblank_count(all.take(i as int)),
        decreases ls@.len() - i,
    {
        let (a, b) = ls[i];
        assert(ls@[i as int].0 <= ls@[i as int].1 <= s@.len());
        assert(all[i as int] == s@.subrange(a as int, b as int));
        let (lo, hi) = trim_range(&s, a, b);
        assert(all.take(i + 1).drop_last() =~= all.take(i as int));
        assert(all.take(i + 1).last() == all[i as int]);
        if hi > lo {
            n = n + 1;
        }
        i = i + 1;
    }
    assert(all.take(ls@.len() as int) =~= all);
    n
}

/// What `serde_json` reads from an answer file: `None` when it is not JSON,
/// else the booleans `final_answer_correct` and `pass` and the string
/// `verdict`, each when present with that type.
pub uninterp spec fn json_answer_fields(raw: Seq<char>) -> Option<(Option<bool>, Option<bool>, Option<Seq<char>>)>;

/// `serde_json::from_str` of the answer file, and the three fields it may
/// hold.
#[verifier::external_body]
fn answer_json(raw: &str) -> (r: Option<(Option<bool>, Option<bool>, Option<String>)>)
    ensures
        match r {
            Some((a, b, c)) => json_answer_fields(raw@) == Some((a, b, match c { Some(s) => Some(s@), None => None::<Seq<char>> })),
            None => json_answer_fields(raw@) is None,
        },
{
    let v: serde_json::Value = match serde_json::from_str(raw) {
        Ok(v) => v,
        Err(_) => return None,
    };
    let final_correct = match v.get("final_answer_correct") { Some(x) => x.as_bool(), None => None };
    let pass = match v.get("pass") { Some(x) => x.as_bool(), None => None };
    let verdict = match v.get("verdict") { Some(x) => x.as_str().map(|s| s.to_string()), None => None };
    Some((final_correct, pass, verdict))
}

/// PASS, CORRECT or SUCCESS.
pub open spec fn is_success_word(w: Seq<char>) -> bool {
    w == "PASS"@ || w == "CORRECT"@ || w == "SUCCESS"@
}

fn success_word(w: &String) -> (b: bool)
    ensures
        b == is_success_word(w@),
{
    let a = String::from_str("PASS");
    let b = String::from_str("CORRECT");
    let c = String::from_str("SUCCESS");
    *w == a || *w == b || *w == c
}

pub open spec fn fields_view(f: Option<(Option<bool>, Option<bool>, Option<String>)>) -> Option<(Option<bool>, Option<bool>, Option<Seq<char>>)> {
    match f {
        Some((a, b, c)) => Some((a, b, match c { Some(s) => Some(s@), None => None::<Seq<char>> })),
        None => None,
    }
}

/// The verdict once the answer's JSON fields are read and the texts are
/// upper-cased: a JSON `final_answer_correct`, else a JSON `pass`, else a
/// JSON `verdict` (`verdict_norm`, trimmed and upper-cased) that reads as
/// success; failing those, the upper-cased text declares
/// `FINAL_ANSWER_CORRECT=TRUE` or is a success word.
pub open spec fn verdict_from(
    fields: Option<(Option<bool>, Option<bool>, Option<Seq<char>>)>,
    verdict_norm: Seq<char>,
    text_norm: Seq<char>,
) -> bool {
    let text_says = contains(text_norm, "FINAL_ANSWER_CORRECT=TRUE"@) || is_success_word(text_norm);
    match fields {
        Some((Some(b), _, _)) => b,
        Some((None, Some(b), _)) => b,
        Some((None, None, Some(_))) => is_success_word(verdict_norm) || text_says,
        _ => text_says,
    }
}

/// The verdict of an answer file (see `verdict_from`); an empty file is not
/// correct.
pub open spec fn answer_verdict(content: Seq<char>) -> bool {
    let raw = trim(content);
    if raw.len() == 0 {
        false
    } else {
        let fields = json_answer_fields(raw);
        let verdict_norm = match fields {
            Some((None, None, Some(s))) => uppercase(trim(s)),
            _ => seq![],
        };
        verdict_from(fields, verdict_norm, uppercase(raw))
    }
}

/// Decides an answer from what was read of it (see `verdict_from`).
pub fn answer_verdict_from(
    fields: &Option<(Option<bool>, Option<bool>, Option<String>)>,
    verdict_norm: &str,
    text_norm: &str,
) -> (b: bool)
    ensures
        b == verdict_from(fields_view(*fields), verdict_norm@, text_norm@),
{
    let text = text_norm.to_owned();
    let text_says = str_contains(text_norm, "FINAL_ANSWER_CORRECT=TRUE") || success_word(&text);
    match fields {
        Some((Some(b), _, _)) => *b,
        Some((None, Some(b), _)) => *b,
        Some((None, None, Some(_))) => success_word(&verdict_norm.to_owned()) || text_says,
        _ => text_says,
    }
}

pub fn answer_correct(content: &str) -> (b: bool)
    ensures
        b == answer_verdict(content@),
{
    let raw = trim_owned(content);
    if raw.as_str().unicode_len() == 0 {
        return false;
    }
    let fields = answer_json(raw.as_str());
    let verdict_norm = match &fields {
        Some((None, None, Some(s))) => {
            let t = trim_owned(s.as_str());
            to_uppercase(t.as_str())
        },
        _ => String::new(),
    };
    let text_norm = to_uppercase(raw.as_str());
    answer_verdict_from(&fields, verdict_norm.as_str(), text_norm.as_str())
}

/// Steps the milestone demands.
pub const REQUIRED_STEPS: usize = 1_000_000;

pub open spec fn threshold_note(observed: nat, required: nat) -> Seq<char> {
    "Step threshold not met: observed="@ + decimal(observed) + ", required="@ + decimal(required)
        + ". Continue hardening and rerun."@
}

/// The notes of the milestone report, in order: a missing trace, a missing
/// answer, too few steps, an answer not shown correct.
pub open spec fn milestone_notes(trace_found: bool, answer_found: bool, observed: nat, required: nat, correct: bool) -> Seq<Seq<char>> {
    (if trace_found { seq![] } else { seq!["Trace file missing. Provide --trace or TURINGOS_MAKER_TRACE."@] })
        + (if answer_found { seq![] } else { seq!["Answer verdict file missing. Provide --answer or TURINGOS_MAKER_ANSWER."@] })
        + (if observed >= required { seq![] } else { seq![threshold_note(observed, required)] })
        + (if correct { seq![] } else { seq!["Final answer correctness proof missing or failed."@] })
}

/// The milestone is met when the trace reaches the required steps and the answer
/// is correct; the notes say what is missing.
pub fn milestone_verdict(trace_found: bool, answer_found: bool, observed: usize, required: usize, correct: bool) -> (r: (bool, bool, Vec<String>))
    ensures
        r.0 == (observed >= required),
        r.1 == (observed >= required && correct),
        r.2@.map_values(|s: String| s@) == milestone_notes(trace_found, answer_found, observed as nat, required as nat, correct),
{
    let mut notes: Vec<String> = Vec::new();
    if !trace_found {
        notes.push(String::from_str("Trace file missing. Provide --trace or TURINGOS_MAKER_TRACE."));
    }
    if !answer_found {
        notes.push(String::from_str("Answer verdict file missing. Provide --answer or TURINGOS_MAKER_ANSWER."));
    }
    let reached = observed >= required;
    if !reached {
        let mut m = String::from_str("Step threshold not met: observed=");
        m.append(decimal_string(observed).as_str());
        m.append(", required=");
        m.append(decimal_string(required).as_str());
        m.append(". Continue hardening and rerun.");
        notes.push(m);
    }
    if !correct {
        notes.push(String::from_str("Final answer correctness proof missing or failed."));
    }
    assert(notes@.map_values(|s: String| s@) =~= milestone_notes(trace_found, answer_found, observed as nat, required as nat, correct));
    (reached, reached && correct, notes)
}

} // verus!
