//! The decision core the host wires into its request pipeline.
//!
//! The host performs the I/O: it loads configuration bytes, builds a
//! `RequestContext` per request, and writes responses. Everything that
//! decides is here: `AuthzPlugin::decide` funnels the three outcomes of
//! evaluation into allow / configured deny / internal error (fail
//! closed), and `run_self_tests` checks every embedded self-test.

use vstd::prelude::*;

use crate::compiler::Program;
use crate::config::{Config, TestCase};
use crate::context::{sp_model_of, pairs_view, CtxModel, RequestContext};
use crate::eval::sp_program_eval;

verus! {

/// What the middleware does with a request.
#[derive(Debug)]
pub enum Decision {
    /// Pass the request through unchanged.
    Allow,
    /// Stop the chain with the configured status and body.
    Deny { status: u16, body: std::string::String },
    /// Stop the chain with an internal error (fail closed).
    InternalError,
}

/// The context model a test case's mock request builds.
pub open spec fn sp_test_model(t: TestCase) -> CtxModel {
    sp_model_of(
        t.request.method@,
        t.request.path@,
        t.request.host@,
        pairs_view(t.request.headers@),
    )
}

/// Authorization plugin: a compiled program and its configuration.
#[derive(Debug)]
pub struct AuthzPlugin {
    pub program: Program,
    pub config: Config,
}

impl AuthzPlugin {
    /// Decide one request: allow exactly when the program evaluates to
    /// `true`; deny with the configured response on `false`; report an
    /// internal error otherwise — which cannot happen for a program
    /// built by `Program::compile`.
    pub fn decide(&self, ctx: &RequestContext) -> (r: Decision)
        ensures
            match sp_program_eval(self.program.root@, ctx.model()) {
                Ok(b) => {
                    if b {
                        r is Allow
                    } else {
                        r matches Decision::Deny { status, body } && status
                            == self.config.deny_status_code && body@ == self.config.deny_body@
                    }
                },
                Err(_) => r is InternalError,
            },
            self.program.wf() ==> !(r is InternalError),
    {
        match self.program.eval(ctx) {
            Ok(true) => Decision::Allow,
            Ok(false) => Decision::Deny {
                status: self.config.deny_status_code,
                body: self.config.deny_body.clone(),
            },
            Err(_) => Decision::InternalError,
        }
    }
}

/// Run every embedded self-test against the program: each mock request
/// must evaluate to its expected boolean. Returns the index of the
/// first failing test, if any.
#[verifier::loop_isolation(false)]
pub fn run_self_tests(program: &Program, tests: &Vec<TestCase>) -> (r: Result<(), usize>)
    ensures
        r is Ok <==> (forall|k: int|
            0 <= k < tests@.len() ==> sp_program_eval(
                program.root@,
                sp_test_model(#[trigger] tests@[k]),
            ) == Ok::<bool, ()>(tests@[k].expect)),
        r is Err ==> {
            &&& r->Err_0 < tests@.len()
            &&& sp_program_eval(program.root@, sp_test_model(tests@[r->Err_0 as int])) != Ok::<
                bool,
                (),
            >(tests@[r->Err_0 as int].expect)
        },
{
    let n = tests.len();
    let mut k: usize = 0;
    while k < n
        invariant
            0 <= k <= n,
            n == tests@.len(),
            forall|j: int|
                0 <= j < k ==> sp_program_eval(
                    program.root@,
                    sp_test_model(#[trigger] tests@[j]),
                ) == Ok::<bool, ()>(tests@[j].expect),
        decreases n - k,
    {
        let ctx = RequestContext::from_test(&tests[k].request);
        let pass = match program.eval(&ctx) {
            Ok(b) => b == tests[k].expect,
            Err(_) => false,
        };
        if !pass {
            return Err(k);
        }
        k = k + 1;
    }
    Ok(())
}

} // verus!
