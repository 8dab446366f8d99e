//! Deploying a function: the uploaded module is compiled and checked, then
//! stored under the function's name, and the client is told how it went.
use vstd::prelude::*;
use vstd::utf8::encode_utf8;

use super::validation::module_rules::{
    validate_wasm_module, validation_error_message, validation_outcome, ModuleValidationError,
};
use crate::http::response::{reason_body, response_text, result_body, Response, StatusCode};
use crate::http::utils::{get_function_name, lemma_function_name_of};
use crate::text::split_on;
use crate::wasm_host::{CallLog, WasmModule};
use wasmtime::Engine;

verus! {

/// The reason given when deploying at `path` failed for `why`.
pub open spec fn deploy_failure_reason(path: Seq<char>, why: Seq<char>) -> Seq<char> {
    "Failed to deploy function at path "@ + path + ": "@ + why
}

/// The text of a successful deployment at `path`.
pub open spec fn deployed_text(path: Seq<char>) -> Seq<char> {
    "function was succesfully deployed at "@ + path
}

/// What becomes of an upload.
pub enum DeployStep {
    /// The code does not compile: the deployment is given up without an
    /// answer.
    Abandon,
    /// The module is refused: answer the client with `response`.
    Reject { response: Response },
    /// The module is accepted: store the code under the function name
    /// `name`, then answer with `deploy_answer`.
    Store { name: String },
}

fn failure_response(status: StatusCode, path: &str, why: &str) -> (r: Response)
    ensures
        r.resp@ == response_text(status, reason_body(deploy_failure_reason(path@, why@))),
{
    let reason = String::from_str("Failed to deploy function at path ").concat(path).concat(": ").concat(
        why,
    );
    Response::json(status, Vec::new(), Some(reason))
}

/// The answer when the module uploaded to `path` was refused for `e`.
pub fn deploy_refusal(path: &str, e: &ModuleValidationError) -> (r: Response)
    ensures
        r.resp@ == response_text(
            StatusCode::BadRequest,
            reason_body(deploy_failure_reason(path@, validation_error_message(*e))),
        ),
{
    let why = e.message();
    failure_response(StatusCode::BadRequest, path, why.as_str())
}

/// The answer once the accepted module was stored (`Ok`) or the store failed
/// with a message.
pub fn deploy_answer(path: &str, stored: Result<(), String>) -> (r: Response)
    ensures
        stored is Ok ==> r.resp@ == response_text(StatusCode::Success, result_body(encode_utf8(deployed_text(path@)))),
        stored matches Err(why) ==> r.resp@ == response_text(
            StatusCode::IntServerError,
            reason_body(deploy_failure_reason(path@, why@)),
        ),
{
    match stored {
        Ok(()) => {
            let text = String::from_str("function was succesfully deployed at ").concat(path);
            let bytes = text.as_str().as_bytes();
            let mut result: Vec<u8> = Vec::new();
            let mut i: usize = 0;
            while i < bytes.len()
                invariant
                    i <= bytes@.len(),
                    result@ == bytes@.take(i as int),
                decreases bytes@.len() - i,
            {
                result.push(bytes[i]);
                i = i + 1;
                assert(result@ =~= bytes@.take(i as int));
            }
            assert(bytes@.take(i as int) =~= bytes@);
            Response::json(StatusCode::Success, result, None)
        },
        Err(why) => failure_response(StatusCode::IntServerError, path, why.as_str()),
    }
}

/// The step that follows the check result `v` of a module uploaded to
/// `path`: a module that passed is stored under the function name of the
/// path; one that failed is refused, answering with the reason the check
/// gave.
pub open spec fn step_for(v: Result<(), ModuleValidationError>, path: Seq<char>, r: DeployStep) -> bool {
    match v {
        Ok(()) => r matches DeployStep::Store { name } && name@ == split_on(path, '/').last(),
        Err(e) => r matches DeployStep::Reject { response } && response.resp@ == response_text(
            StatusCode::BadRequest,
            reason_body(deploy_failure_reason(path, validation_error_message(e))),
        ),
    }
}

/// Decides an upload to `path` once the engine has compiled it (`Ok`) or
/// refused it: refused code is given up without an answer, a compiled
/// module is checked, then stored or refused as the check says. Gives the
/// step and the record of the instance the check made, if it made one.
pub fn deploy_compiled(engine: &Engine, compiled: Result<WasmModule, String>, path: &str) -> (r: (DeployStep, Option<CallLog>))
    ensures
        compiled is Err <==> r.0 is Abandon,
        compiled is Err ==> r.1 is None,
        compiled matches Ok(m) ==> exists|v: Result<(), ModuleValidationError>|
            validation_outcome(m.source(), v, r.1) && #[trigger] step_for(v, path@, r.0),
{
    let module = match compiled {
        Ok(m) => m,
        Err(_) => {
            return (DeployStep::Abandon, None);
        },
    };
    let (v, trial) = validate_wasm_module(engine, &module);
    let step = match &v {
        Ok(()) => DeployStep::Store { name: get_function_name(path) },
        Err(e) => DeployStep::Reject { response: deploy_refusal(path, e) },
    };
    assert(step_for(v, path@, step));
    (step, trial)
}

/// Handles code uploaded to `path`: compiles it, checks the module, and says
/// whether to store it (under the function name of the path) or how to
/// answer, with the record of the instance the check made. Code the engine
/// does not compile is given up.
pub fn deploy(engine: &Engine, wasm: &[u8], path: &str) -> (r: (DeployStep, Option<CallLog>))
    ensures
        r.0 is Abandon ==> r.1 is None,
        !(r.0 is Abandon) ==> exists|v: Result<(), ModuleValidationError>|
            validation_outcome(wasm@, v, r.1) && #[trigger] step_for(v, path@, r.0),
{
    let compiled = WasmModule::compile(engine, wasm);
    deploy_compiled(engine, compiled, path)
}

/// The function deployed at `/functions/<name>` is stored under the name
/// that an invocation at `/invoke/<name>` runs: `deploy` stores, and a
/// worker's `handle_job` fetches, the text after the path's last `/`, which
/// for both paths is `name` (a name without `/`).
pub proof fn lemma_deployed_name_is_invoked_name(name: Seq<char>)
    requires
        forall|i: int| 0 <= i < name.len() ==> name[i] != '/',
    ensures
        split_on("/functions/"@ + name, '/').last() == name,
        split_on("/invoke/"@ + name, '/').last() == name,
{
    reveal_strlit("/functions/");
    reveal_strlit("/invoke/");
    lemma_function_name_of("/functions/"@, name);
    lemma_function_name_of("/invoke/"@, name);
}

} // verus!
