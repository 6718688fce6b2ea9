//! The Lean 4 oracle of MiniF2F v2: identity-theft protection, the sorry
//! firewall, forbidden tactics, and the verdict on the compiler's output.
//!
//! The oracle works in steps: `begin` either decides or asks for one
//! compilation, `after_test` reads that result and either decides or asks
//! for a second compilation, and `after_recheck` decides from both.

use vstd::prelude::*;
use vstd::string::*;
use crate::experiments::lean4_checks::{
    CompileStep, declares_other, declares_other_any, find_forbidden, find_sorry, first_forbidden,
    has_other_errors, hijack_keywords, increment, increment_exec, line_count, other_errors,
    result_view, sorry_token, strings_view,
};
use crate::text::{take_chars, take_chars_exec};
use crate::text::{contains, lines, str_contains};
use crate::tool::ToolSignal;

verus! {

broadcast use vstd::string::group_string_axioms;

pub struct Lean4Oracle<S> {
    pub problem_statement: String,
    pub theorem_name: String,
    pub sandbox: S,
    pub forbidden_tactics: Vec<String>,
}

pub open spec fn default_forbidden() -> Seq<Seq<char>> {
    seq![
        "#eval"@, "#check"@, "#reduce"@, "#exec"@, "#print"@, "native_decide"@, "IO.Process"@,
        "IO.FS"@, "System.FilePath"@, "run_tac"@, "unsafe"@, "dbg_trace"@, "IO.println"@,
        "IO.print"@,
    ]
}

pub open spec fn omega_mark() -> Seq<char> {
    "\n  -- [OMEGA:03b17cc758d1492dc24d53ba008e4ed6]"@
}

pub open spec fn no_goals() -> Seq<char> {
    "No goals to be solved"@
}

pub open spec fn sorry_warning() -> Seq<char> {
    "declaration uses 'sorry'"@
}

/// A payload proves some other theorem: it declares something, and either
/// does not name ours or declares something else after the statement.
pub open spec fn identity_theft(ps: Seq<char>, name: Seq<char>, p: Seq<char>) -> bool {
    if !(contains(p, "theorem "@) || contains(p, "lemma "@)) {
        false
    } else if !contains(p, name) {
        true
    } else {
        declares_other(increment(ps, p), hijack_keywords(), name)
    }
}

/// The veto reason of the checks that need no compiler.
pub open spec fn precheck(ps: Seq<char>, name: Seq<char>, forbidden: Seq<Seq<char>>, p: Seq<char>) -> Option<Seq<char>> {
    if identity_theft(ps, name, p) {
        Some("Identity Theft: must target "@ + name)
    } else if sorry_token(p) is Some {
        Some("Forbidden: '"@ + sorry_token(p)->0 + "' detected"@)
    } else {
        match first_forbidden(p, forbidden) {
            Some(i) => Some("Forbidden tactic: "@ + forbidden[i]),
            None => None,
        }
    }
}

/// The code that is compiled: the payload itself when it is a declaration
/// or a file, else the statement followed by the tactic.
pub open spec fn full_code(ps: Seq<char>, p: Seq<char>) -> Seq<char> {
    if contains(p, "theorem "@) || contains(p, "import "@) { p } else { ps + "  "@ + p }
}

/// Compile time allowed: 15 s plus half a second per line.
pub open spec fn gas_for(code: Seq<char>) -> int {
    15 + (lines(code).len() / 2) as int
}

pub open spec fn veto_for(e: Seq<char>) -> Seq<char> {
    "Compiler Error:\n"@ + take_chars(e, 500)
}

impl<S> Lean4Oracle<S> {
    pub fn new(problem_statement: String, theorem_name: String, sandbox: S) -> (o: Self)
        ensures
            o.problem_statement == problem_statement,
            o.theorem_name == theorem_name,
            o.sandbox == sandbox,
            strings_view(o.forbidden_tactics@) == default_forbidden(),
    {
        let list: [&str; 14] = [
            "#eval", "#check", "#reduce", "#exec", "#print", "native_decide", "IO.Process", "IO.FS",
            "System.FilePath", "run_tac", "unsafe", "dbg_trace", "IO.println", "IO.print",
        ];
        let mut forbidden_tactics: Vec<String> = Vec::new();
        let mut i: usize = 0;
        while i < 14
            invariant
                i <= 14,
                forall|j: int| 0 <= j < 14 ==> (#[trigger] list@[j])@ == default_forbidden()[j],
                forbidden_tactics@.len() == i,
                strings_view(forbidden_tactics@) == default_forbidden().subrange(0, i as int),
            decreases 14 - i,
        {
            let ghost before = forbidden_tactics@;
            forbidden_tactics.push(list[i].to_owned());
            proof { crate::experiments::lean4_checks::lemma_strings_view_push(before, forbidden_tactics@[i as int]); }
            assert(strings_view(forbidden_tactics@) =~= default_forbidden().subrange(0, i + 1));
            i = i + 1;
        }
        assert(default_forbidden().subrange(0, 14) =~= default_forbidden());
        Lean4Oracle { problem_statement, theorem_name, sandbox, forbidden_tactics }
    }

    pub fn check_identity_theft(&self, payload: &str) -> (b: bool)
        ensures
            b == identity_theft(self.problem_statement@, self.theorem_name@, payload@),
    {
        if !(str_contains(payload, "theorem ") || str_contains(payload, "lemma ")) {
            return false;
        }
        if !str_contains(payload, self.theorem_name.as_str()) {
            return true;
        }
        let inc = increment_exec(self.problem_statement.as_str(), payload);
        let name = crate::text::chars_of(self.theorem_name.as_str());
        declares_other_any(&inc, &name)
    }

    pub fn check_sorry(&self, payload: &str) -> (r: Option<String>)
        ensures
            r matches Some(m) ==> sorry_token(payload@) is Some && m@ == "Forbidden: '"@ + sorry_token(payload@)->0 + "' detected"@,
            r is None ==> sorry_token(payload@) is None,
    {
        match find_sorry(payload) {
            Some(t) => {
                let mut m = String::from_str("Forbidden: '");
                m.append(t);
                m.append("' detected");
                Some(m)
            },
            None => None,
        }
    }

    /// Lean says that no goals remain.
    pub fn is_omega(output: &str) -> (b: bool)
        ensures
            b == contains(output@, no_goals()),
    {
        str_contains(output, "No goals to be solved")
    }

    fn full_code_exec(&self, payload: &str) -> (r: String)
        ensures
            r@ == full_code(self.problem_statement@, payload@),
    {
        if str_contains(payload, "theorem ") || str_contains(payload, "import ") {
            payload.to_owned()
        } else {
            let mut c = self.problem_statement.clone();
            c.append("  ");
            c.append(payload);
            c
        }
    }

    fn gas_exec(code: &str) -> (g: u64)
        ensures
            g == gas_for(code@),
    {
        let n = line_count(code) as u64;
        15 + n / 2
    }

    fn omega_signal<R>(payload: &str) -> (sig: ToolSignal<R>)
        ensures
            sig matches ToolSignal::Modify(m) && m@ == payload@ + omega_mark(),
    {
        let mut m = payload.to_owned();
        m.append("\n  -- [OMEGA:03b17cc758d1492dc24d53ba008e4ed6]");
        ToolSignal::Modify(m)
    }

    fn veto_signal<R>(e: &str) -> (sig: ToolSignal<R>)
        ensures
            sig matches ToolSignal::Veto(m) && m@ == veto_for(e@),
    {
        let mut m = String::from_str("Compiler Error:\n");
        m.append(take_chars_exec(e, 500).as_str());
        ToolSignal::Veto(m)
    }

    /// First step: veto on the checks that need no compiler, else compile
    /// the code with `sorry` appended.
    pub fn begin<R>(&self, payload: &str) -> (step: CompileStep<ToolSignal<R>>)
        ensures
            ({
                let pre = precheck(self.problem_statement@, self.theorem_name@, strings_view(self.forbidden_tactics@), payload@);
                let full = full_code(self.problem_statement@, payload@);
                match pre {
                    Some(m) => step matches CompileStep::Decided(ToolSignal::Veto(v)) && v@ == m,
                    None => step matches CompileStep::Compile { code, gas_secs }
                        && code@ == full + "\n  sorry"@ && gas_secs == gas_for(full),
                }
            }),
    {
        if self.check_identity_theft(payload) {
            let mut m = String::from_str("Identity Theft: must target ");
            m.append(self.theorem_name.as_str());
            return CompileStep::Decided(ToolSignal::Veto(m));
        }
        match self.check_sorry(payload) {
            Some(m) => return CompileStep::Decided(ToolSignal::Veto(m)),
            None => {},
        }
        match find_forbidden(payload, &self.forbidden_tactics) {
            Some(i) => {
                proof { crate::experiments::lean4_checks::lemma_first_forbidden(payload@, strings_view(self.forbidden_tactics@)); }
                let mut m = String::from_str("Forbidden tactic: ");
                m.append(self.forbidden_tactics[i].as_str());
                return CompileStep::Decided(ToolSignal::Veto(m));
            },
            None => {},
        }
        let full = self.full_code_exec(payload);
        let gas = Self::gas_exec(full.as_str());
        let mut code = full;
        code.append("\n  sorry");
        CompileStep::Compile { code, gas_secs: gas }
    }

    /// Second step, on the result of compiling with `sorry`: no goals left
    /// proves the theorem; a clean compile, or no goals amid other errors,
    /// asks to compile the code without `sorry`; any other failure is vetoed.
    pub fn after_test<R>(&self, payload: &str, result: &Result<String, String>) -> (step: CompileStep<ToolSignal<R>>)
        ensures
            ({
                let full = full_code(self.problem_statement@, payload@);
                match result_view(*result) {
                    Ok(out) => if contains(out, no_goals()) {
                        step matches CompileStep::Decided(ToolSignal::Modify(m)) && m@ == payload@ + omega_mark()
                    } else {
                        step matches CompileStep::Compile { code, gas_secs } && code@ == full && gas_secs == gas_for(full)
                    },
                    Err(e) => if contains(e, no_goals()) && !other_errors(e) && !contains(e, sorry_warning()) {
                        step matches CompileStep::Decided(ToolSignal::Modify(m)) && m@ == payload@ + omega_mark()
                    } else if contains(e, no_goals()) {
                        step matches CompileStep::Compile { code, gas_secs } && code@ == full && gas_secs == gas_for(full)
                    } else {
                        step matches CompileStep::Decided(ToolSignal::Veto(m)) && m@ == veto_for(e)
                    },
                }
            }),
    {
        let full = self.full_code_exec(payload);
        let gas = Self::gas_exec(full.as_str());
        match result {
            Ok(output) => {
                if Self::is_omega(output.as_str()) {
                    CompileStep::Decided(Self::omega_signal(payload))
                } else {
                    CompileStep::Compile { code: full, gas_secs: gas }
                }
            },
            Err(e) => {
                if Self::is_omega(e.as_str()) {
                    let other = has_other_errors(e.as_str());
                    let warned = str_contains(e.as_str(), "declaration uses 'sorry'");
                    if !other && !warned {
                        CompileStep::Decided(Self::omega_signal(payload))
                    } else {
                        CompileStep::Compile { code: full, gas_secs: gas }
                    }
                } else {
                    CompileStep::Decided(Self::veto_signal(e.as_str()))
                }
            },
        }
    }

    /// Last step, on the result of compiling without `sorry`.
    pub fn after_recheck<R>(&self, payload: &str, first: &Result<String, String>, second: &Result<String, String>) -> (sig: ToolSignal<R>)
        ensures
            match result_view(*first) {
                Ok(_) => match result_view(*second) {
                    Ok(o) => if !contains(o, "error:"@) || contains(o, no_goals()) {
                        sig matches ToolSignal::Modify(m) && m@ == payload@ + omega_mark()
                    } else {
                        sig is Pass
                    },
                    Err(_) => sig is Pass,
                },
                Err(e) => match result_view(*second) {
                    Ok(o) => if !contains(o, "error:"@) {
                        sig matches ToolSignal::Modify(m) && m@ == payload@ + omega_mark()
                    } else {
                        sig matches ToolSignal::Veto(m) && m@ == veto_for(e)
                    },
                    Err(_) => sig matches ToolSignal::Veto(m) && m@ == veto_for(e),
                },
            },
    {
        match first {
            Ok(_) => match second {
                Ok(o) => {
                    if !str_contains(o.as_str(), "error:") || Self::is_omega(o.as_str()) {
                        Self::omega_signal(payload)
                    } else {
                        ToolSignal::Pass
                    }
                },
                Err(_) => ToolSignal::Pass,
            },
            Err(e) => match second {
                Ok(o) => {
                    if !str_contains(o.as_str(), "error:") {
                        Self::omega_signal(payload)
                    } else {
                        Self::veto_signal(e.as_str())
                    }
                },
                Err(_) => Self::veto_signal(e.as_str()),
            },
        }
    }
}

/// A payload that already declares a theorem, or is a whole file, is
/// compiled as written; the statement goes in front of a bare tactic only.
pub proof fn declarations_compile_as_written(ps: Seq<char>, p: Seq<char>)
    ensures
        contains(p, "theorem "@) ==> full_code(ps, p) == p,
        contains(p, "import "@) ==> full_code(ps, p) == p,
        !contains(p, "theorem "@) && !contains(p, "import "@) ==> full_code(ps, p).subrange(0, ps.len() as int) == ps
            && full_code(ps, p).subrange(ps.len() + 2int, full_code(ps, p).len() as int) == p
            && full_code(ps, p).len() == ps.len() + 2 + p.len(),
{
    reveal_strlit("  ");
    let c = full_code(ps, p);
    if !contains(p, "theorem "@) && !contains(p, "import "@) {
        assert(c.subrange(0, ps.len() as int) =~= ps);
        assert(c.subrange(ps.len() + 2int, c.len() as int) =~= p);
    }
}

} // verus!
