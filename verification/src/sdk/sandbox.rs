//! The isolated-oracle contract, and the configuration of the native-process
//! sandbox that compiles submitted code.

use vstd::prelude::*;
use std::time::Duration;

verus! {

/// The isolated oracle contract. Any sandbox (a local process, Wasm, a
/// micro-VM) implements these two methods; the engine runs the sealed code in
/// isolation and must stop it when `timeout` runs out, so that a runaway
/// submission cannot hold up the bus. What the code prints on success comes
/// back as `Ok`, its error output as `Err`.
pub trait SandboxEngine: Send + Sync {
    /// The engine's signature, such as "sandbox.native_subprocess".
    fn engine_name(&self) -> &'static str;

    /// Runs the complete code, hidden metric included, in isolation.
    fn execute_safely(&self, sealed_code: &str, timeout: Duration) -> Result<String, String>;
}

/// Runs a compiler in a child process (see the engine in the runtime).
pub struct LocalProcessSandbox {
    compiler_cmd: String,
    args: Vec<String>,
}

impl LocalProcessSandbox {
    pub closed spec fn command(&self) -> Seq<char> {
        self.compiler_cmd@
    }

    pub closed spec fn arguments(&self) -> Seq<String> {
        self.args@
    }

    pub fn new(compiler_cmd: &str, args: Vec<String>) -> (s: Self)
        ensures
            s.command() == compiler_cmd@,
            s.arguments() == args@,
    {
        LocalProcessSandbox { compiler_cmd: compiler_cmd.to_owned(), args }
    }

    pub fn compiler_cmd(&self) -> (r: &str)
        ensures
            r@ == self.command(),
    {
        self.compiler_cmd.as_str()
    }

    pub fn args(&self) -> (r: &Vec<String>)
        ensures
            r@ == self.arguments(),
    {
        &self.args
    }
}

} // verus!
