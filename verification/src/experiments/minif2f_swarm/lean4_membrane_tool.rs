//! The Lean 4 membrane tool of the MiniF2F swarm, in steps: `begin` either
//! decides or asks for a compilation with `sorry` appended, `after_test`
//! reads that result and either decides or asks for a compilation of the
//! bare payload, and `after_recheck` decides from both results.

use vstd::prelude::*;
use vstd::string::*;
use crate::experiments::lean4_checks::{
    CompileStep, declares_other, declares_other_any, find_forbidden, find_sorry, first_forbidden,
    has_other_errors, hijack_keywords, increment, increment_exec, lemma_first_forbidden,
    lemma_strings_view_push, line_count, other_errors, result_view, sorry_token, strings_view,
};
use crate::text::{chars_of, contains, lines, str_contains};

verus! {

broadcast use vstd::string::group_string_axioms;

/// The membrane's verdict. A proof found is reported as `Omega` with the
/// payload marked; the bus turns it into a reward-free `YieldReward`.
pub enum MembraneVerdict {
    Pass,
    Omega(String),
    Veto(String),
}

pub struct Lean4MembraneTool<S> {
    pub problem_statement: String,
    pub theorem_name: String,
    pub sandbox: S,
    /// Tactics refused in this problem domain (`sorry` is refused always).
    pub forbidden_tactics: Vec<String>,
}

pub open spec fn default_forbidden() -> Seq<Seq<char>> {
    seq![
        "#eval"@, "#check"@, "#reduce"@, "#exec"@, "native_decide"@, "IO.Process"@, "IO.FS"@,
        "System.FilePath"@, "run_tac"@, "unsafe"@,
    ]
}

pub open spec fn omega_mark() -> Seq<char> {
    "\n  -- [OMEGA]"@
}

pub open spec fn error_no_goals() -> Seq<char> {
    "error: No goals to be solved"@
}

/// The payload does not name our theorem, or declares something else
/// after the problem statement.
pub open spec fn identity_theft(ps: Seq<char>, name: Seq<char>, p: Seq<char>) -> bool {
    !contains(p, name) || declares_other(increment(ps, p), hijack_keywords(), name)
}

pub open spec fn precheck(ps: Seq<char>, name: Seq<char>, forbidden: Seq<Seq<char>>, p: Seq<char>) -> Option<Seq<char>> {
    if identity_theft(ps, name, p) {
        Some("Identity Theft: Payload does not target theorem "@ + name)
    } else if sorry_token(p) is Some {
        Some("Forbidden: '"@ + sorry_token(p)->0 + "' detected in tactic payload"@)
    } else {
        match first_forbidden(p, forbidden) {
            Some(i) => Some("Physics Violation: Tactic '"@ + forbidden[i] + "' is locked in this universe."@),
            None => None,
        }
    }
}

/// Compile time allowed: 10 s plus half a second per tactic line.
pub open spec fn gas_for(p: Seq<char>) -> int {
    10 + (lines(p).len() / 2) as int
}

pub open spec fn veto_for(e: Seq<char>) -> Seq<char> {
    "Compiler/Sandbox Error:\n"@ + e
}

impl<S> Lean4MembraneTool<S> {
    pub fn new(problem_statement: String, theorem_name: String, sandbox: S) -> (t: Self)
        ensures
            t.problem_statement == problem_statement,
            t.theorem_name == theorem_name,
            t.sandbox == sandbox,
            strings_view(t.forbidden_tactics@) == default_forbidden(),
    {
        let list: [&str; 10] = [
            "#eval", "#check", "#reduce", "#exec", "native_decide", "IO.Process", "IO.FS",
            "System.FilePath", "run_tac", "unsafe",
        ];
        let mut forbidden_tactics: Vec<String> = Vec::new();
        let mut i: usize = 0;
        while i < 10
            invariant
                i <= 10,
                forall|j: int| 0 <= j < 10 ==> (#[trigger] list@[j])@ == default_forbidden()[j],
                forbidden_tactics@.len() == i,
                strings_view(forbidden_tactics@) == default_forbidden().subrange(0, i as int),
            decreases 10 - i,
        {
            let ghost before = forbidden_tactics@;
            forbidden_tactics.push(list[i].to_owned());
            proof { lemma_strings_view_push(before, forbidden_tactics@[i as int]); }
            assert(strings_view(forbidden_tactics@) =~= default_forbidden().subrange(0, i + 1));
            i = i + 1;
        }
        assert(default_forbidden().subrange(0, 10) =~= default_forbidden());
        Lean4MembraneTool { problem_statement, theorem_name, sandbox, forbidden_tactics }
    }

    /// A membrane with its own list of forbidden tactics.
    pub fn with_config(problem_statement: String, theorem_name: String, sandbox: S, forbidden_tactics: Vec<String>) -> (t: Self)
        ensures
            t.problem_statement == problem_statement,
            t.theorem_name == theorem_name,
            t.sandbox == sandbox,
            t.forbidden_tactics == forbidden_tactics,
    {
        Lean4MembraneTool { problem_statement, theorem_name, sandbox, forbidden_tactics }
    }

    pub fn check_identity_theft(&self, payload: &str) -> (b: bool)
        ensures
            b == identity_theft(self.problem_statement@, self.theorem_name@, payload@),
    {
        if !str_contains(payload, self.theorem_name.as_str()) {
            return true;
        }
        let inc = increment_exec(self.problem_statement.as_str(), payload);
        let name = chars_of(self.theorem_name.as_str());
        declares_other_any(&inc, &name)
    }

    fn omega(payload: &str) -> (v: MembraneVerdict)
        ensures
            v matches MembraneVerdict::Omega(m) && m@ == payload@ + omega_mark(),
    {
        let mut m = payload.to_owned();
        m.append("\n  -- [OMEGA]");
        MembraneVerdict::Omega(m)
    }

    fn veto(e: &str) -> (v: MembraneVerdict)
        ensures
            v matches MembraneVerdict::Veto(m) && m@ == veto_for(e@),
    {
        let mut m = String::from_str("Compiler/Sandbox Error:\n");
        m.append(e);
        MembraneVerdict::Veto(m)
    }

    fn gas_exec(payload: &str) -> (g: u64)
        ensures
            g == gas_for(payload@),
    {
        let n = line_count(payload) as u64;
        10 + n / 2
    }

    /// First step: veto on the checks that need no compiler, else compile
    /// the payload with `sorry` appended.
    pub fn begin(&self, payload: &str) -> (step: CompileStep<MembraneVerdict>)
        ensures
            match precheck(self.problem_statement@, self.theorem_name@, strings_view(self.forbidden_tactics@), payload@) {
                Some(m) => step matches CompileStep::Decided(MembraneVerdict::Veto(v)) && v@ == m,
                None => step matches CompileStep::Compile { code, gas_secs }
                    && code@ == payload@ + "\n  sorry"@ && gas_secs == gas_for(payload@),
            },
    {
        if self.check_identity_theft(payload) {
            let mut m = String::from_str("Identity Theft: Payload does not target theorem ");
            m.append(self.theorem_name.as_str());
            return CompileStep::Decided(MembraneVerdict::Veto(m));
        }
        match find_sorry(payload) {
            Some(t) => {
                let mut m = String::from_str("Forbidden: '");
                m.append(t);
                m.append("' detected in tactic payload");
                return CompileStep::Decided(MembraneVerdict::Veto(m));
            },
            None => {},
        }
        match find_forbidden(payload, &self.forbidden_tactics) {
            Some(i) => {
                proof { lemma_first_forbidden(payload@, strings_view(self.forbidden_tactics@)); }
                let mut m = String::from_str("Physics Violation: Tactic '");
                m.append(self.forbidden_tactics[i].as_str());
                m.append("' is locked in this universe.");
                return CompileStep::Decided(MembraneVerdict::Veto(m));
            },
            None => {},
        }
        let mut code = payload.to_owned();
        code.append("\n  sorry");
        CompileStep::Compile { code, gas_secs: Self::gas_exec(payload) }
    }

    /// Second step, on the result of compiling with `sorry`.
    pub fn after_test(&self, payload: &str, result: &Result<String, String>) -> (step: CompileStep<MembraneVerdict>)
        ensures
            match result_view(*result) {
                Ok(out) => if contains(out, error_no_goals()) {
                    step matches CompileStep::Decided(MembraneVerdict::Omega(m)) && m@ == payload@ + omega_mark()
                } else {
                    step matches CompileStep::Compile { code, gas_secs } && code@ == payload@ && gas_secs == gas_for(payload@)
                },
                Err(e) => if contains(e, "No goals to be solved"@) && !other_errors(e)
                    && !contains(e, "declaration uses 'sorry'"@) {
                    step matches CompileStep::Decided(MembraneVerdict::Omega(m)) && m@ == payload@ + omega_mark()
                } else if contains(e, "No goals to be solved"@) {
                    step matches CompileStep::Compile { code, gas_secs } && code@ == payload@ && gas_secs == gas_for(payload@)
                } else {
                    step matches CompileStep::Decided(MembraneVerdict::Veto(m)) && m@ == veto_for(e)
                },
            },
    {
        match result {
            Ok(output) => {
                if str_contains(output.as_str(), "error: No goals to be solved") {
                    CompileStep::Decided(Self::omega(payload))
                } else {
                    CompileStep::Compile { code: payload.to_owned(), gas_secs: Self::gas_exec(payload) }
                }
            },
            Err(e) => {
                if str_contains(e.as_str(), "No goals to be solved") {
                    let other = has_other_errors(e.as_str());
                    let warned = str_contains(e.as_str(), "declaration uses 'sorry'");
                    if !other && !warned {
                        CompileStep::Decided(Self::omega(payload))
                    } else {
                        CompileStep::Compile { code: payload.to_owned(), gas_secs: Self::gas_exec(payload) }
                    }
                } else {
                    CompileStep::Decided(Self::veto(e.as_str()))
                }
            },
        }
    }

    /// Last step, on the result of compiling the bare payload.
    pub fn after_recheck(&self, payload: &str, first: &Result<String, String>, second: &Result<String, String>) -> (v: MembraneVerdict)
        ensures
            match result_view(*first) {
                Ok(_) => match result_view(*second) {
                    Ok(o) => if !contains(o, "error:"@) || contains(o, error_no_goals()) {
                        v matches MembraneVerdict::Omega(m) && m@ == payload@ + omega_mark()
                    } else {
                        v is Pass
                    },
                    Err(_) => v is Pass,
                },
                Err(e) => match result_view(*second) {
                    Ok(o) => if !contains(o, "error:"@) {
                        v matches MembraneVerdict::Omega(m) && m@ == payload@ + omega_mark()
                    } else {
                        v matches MembraneVerdict::Veto(m) && m@ == veto_for(e)
                    },
                    Err(_) => v matches MembraneVerdict::Veto(m) && m@ == veto_for(e),
                },
            },
    {
        match first {
            Ok(_) => match second {
                Ok(o) => {
                    if !str_contains(o.as_str(), "error:") || str_contains(o.as_str(), "error: No goals to be solved") {
                        Self::omega(payload)
                    } else {
                        MembraneVerdict::Pass
                    }
                },
                Err(_) => MembraneVerdict::Pass,
            },
            Err(e) => match second {
                Ok(o) => {
                    if !str_contains(o.as_str(), "error:") {
                        Self::omega(payload)
                    } else {
                        Self::veto(e.as_str())
                    }
                },
                Err(_) => Self::veto(e.as_str()),
            },
        }
    }
}

} // verus!
