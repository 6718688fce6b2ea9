//! The earlier Lean 4 membrane skill: theorem hijack check, then the
//! compiler's verdict, in steps (`begin`, `after_test`, `after_recheck`).

use vstd::prelude::*;
use vstd::string::*;
use crate::experiments::lean4_checks::{CompileStep, declares_other_exec, declares_other_from, result_view};
use crate::skill::SkillSignal;
use crate::text::{chars_of, contains, str_contains};

verus! {

broadcast use vstd::string::group_string_axioms;

pub struct Lean4MembraneSkill<S> {
    pub problem_statement: String,
    pub theorem_name: String,
    pub sandbox: S,
}

pub open spec fn omega_mark() -> Seq<char> {
    "\n  -- [OMEGA]"@
}

pub open spec fn error_no_goals() -> Seq<char> {
    "error: No goals to be solved"@
}

/// The payload does not define our theorem, or defines another theorem.
pub open spec fn identity_theft(name: Seq<char>, p: Seq<char>) -> bool {
    !contains(p, "theorem "@ + name) || declares_other_from(p, "theorem "@, name, 0)
}

/// Compile time allowed, in seconds.
pub const GAS_SECS: u64 = 10;

impl<S> Lean4MembraneSkill<S> {
    pub fn new(problem_statement: String, theorem_name: String, sandbox: S) -> (t: Self)
        ensures
            t.problem_statement == problem_statement,
            t.theorem_name == theorem_name,
            t.sandbox == sandbox,
    {
        Lean4MembraneSkill { problem_statement, theorem_name, sandbox }
    }

    pub fn check_identity_theft(&self, payload: &str) -> (b: bool)
        ensures
            b == identity_theft(self.theorem_name@, payload@),
    {
        let mut decl = String::from_str("theorem ");
        decl.append(self.theorem_name.as_str());
        if !str_contains(payload, decl.as_str()) {
            return true;
        }
        let p = chars_of(payload);
        let name = chars_of(self.theorem_name.as_str());
        declares_other_exec(&p, "theorem ", &name)
    }

    fn omega<R>(payload: &str) -> (sig: SkillSignal<R>)
        ensures
            sig matches SkillSignal::Modify(m) && m@ == payload@ + omega_mark(),
    {
        let mut m = payload.to_owned();
        m.append("\n  -- [OMEGA]");
        SkillSignal::Modify(m)
    }

    /// First step: veto a hijack, else compile the payload with `sorry`.
    pub fn begin<R>(&self, payload: &str) -> (step: CompileStep<SkillSignal<R>>)
        ensures
            identity_theft(self.theorem_name@, payload@) ==> (step matches CompileStep::Decided(SkillSignal::Veto(m))
                && m@ == "Identity Theft: Payload does not target theorem "@ + self.theorem_name@),
            !identity_theft(self.theorem_name@, payload@) ==> (step matches CompileStep::Compile { code, gas_secs }
                && code@ == payload@ + "\n  sorry"@ && gas_secs == GAS_SECS),
    {
        if self.check_identity_theft(payload) {
            let mut m = String::from_str("Identity Theft: Payload does not target theorem ");
            m.append(self.theorem_name.as_str());
            return CompileStep::Decided(SkillSignal::Veto(m));
        }
        let mut code = payload.to_owned();
        code.append("\n  sorry");
        CompileStep::Compile { code, gas_secs: GAS_SECS }
    }

    /// Second step, on the result of compiling with `sorry`.
    pub fn after_test<R>(&self, payload: &str, result: &Result<String, String>) -> (step: CompileStep<SkillSignal<R>>)
        ensures
            match result_view(*result) {
                Ok(out) => if contains(out, error_no_goals()) {
                    step matches CompileStep::Decided(SkillSignal::Modify(m)) && m@ == payload@ + omega_mark()
                } else {
                    step matches CompileStep::Compile { code, gas_secs } && code@ == payload@ && gas_secs == GAS_SECS
                },
                Err(e) => step matches CompileStep::Decided(SkillSignal::Veto(m))
                    && m@ == "Compiler/Sandbox Error:\n"@ + e,
            },
    {
        match result {
            Ok(output) => {
                if str_contains(output.as_str(), "error: No goals to be solved") {
                    CompileStep::Decided(Self::omega(payload))
                } else {
                    CompileStep::Compile { code: payload.to_owned(), gas_secs: GAS_SECS }
                }
            },
            Err(e) => {
                let mut m = String::from_str("Compiler/Sandbox Error:\n");
                m.append(e.as_str());
                CompileStep::Decided(SkillSignal::Veto(m))
            },
        }
    }

    /// Last step, on the result of compiling the bare payload.
    pub fn after_recheck<R>(&self, payload: &str, second: &Result<String, String>) -> (sig: SkillSignal<R>)
        ensures
            match result_view(*second) {
                Ok(o) => if !contains(o, "error:"@) || contains(o, error_no_goals()) {
                    sig matches SkillSignal::Modify(m) && m@ == payload@ + omega_mark()
                } else {
                    sig is Pass
                },
                Err(_) => sig is Pass,
            },
    {
        match second {
            Ok(o) => {
                if !str_contains(o.as_str(), "error:") || str_contains(o.as_str(), "error: No goals to be solved") {
                    Self::omega(payload)
                } else {
                    SkillSignal::Pass
                }
            },
            Err(_) => SkillSignal::Pass,
        }
    }
}

} // verus!
