//! Invoking a function: the request's body is a JSON document whose `input`
//! member is what the function gets.
use vstd::prelude::*;

use crate::http::response::{reason_body, response_text, Response, StatusCode};
use crate::http::utils::{get_input, input_outcome, InputError};

verus! {

/// What serde_json makes of `bytes`: the member `key` of the JSON value
/// they hold, serialised, or `None` where it has no such member; or the
/// parser's message.
pub uninterp spec fn json_member_of(bytes: Seq<u8>, key: Seq<char>) -> Result<Option<Seq<u8>>, Seq<char>>;

/// The bytes of `{}`.
pub open spec fn empty_object() -> Seq<u8> {
    seq![123u8, 125u8]
}

/// The bytes of `null`.
pub open spec fn null_bytes() -> Seq<u8> {
    seq![110u8, 117u8, 108u8, 108u8]
}

/// A member lookup's result with its bytes and text taken as sequences.
pub open spec fn lookup_view(r: Result<Option<Vec<u8>>, String>) -> Result<Option<Seq<u8>>, Seq<char>> {
    match r {
        Ok(Some(v)) => Ok(Some(v@)),
        Ok(None) => Ok(None),
        Err(t) => Err(t@),
    }
}

/// A result with its bytes and text taken as sequences.
pub open spec fn member_view(r: Result<Vec<u8>, String>) -> Result<Seq<u8>, Seq<char>> {
    match r {
        Ok(v) => Ok(v@),
        Err(t) => Err(t@),
    }
}

/// What a function gets from the JSON document `bytes`: its `input` member
/// serialised, `null` where it has none; or the parser's message.
pub open spec fn input_value(bytes: Seq<u8>) -> Result<Seq<u8>, Seq<char>> {
    match json_member_of(bytes, "input"@) {
        Ok(Some(m)) => Ok(m),
        Ok(None) => Ok(null_bytes()),
        Err(why) => Err(why),
    }
}

/// Parses `bytes` with `serde_json::from_slice` into a `serde_json::Value`,
/// takes its member `key` with `Value::get` and serialises it with
/// `serde_json::to_vec` (which cannot fail on a `Value`); a parse error
/// gives the error's text. The contract claims the result is a function of
/// the bytes and the key, and that the empty object `{}` has no member.
#[verifier::external_body]
fn json_member(bytes: &[u8], key: &str) -> (r: Result<Option<Vec<u8>>, String>)
    ensures
        lookup_view(r) == json_member_of(bytes@, key@),
        bytes@ == empty_object() ==> (r matches Ok(None)),
{
    match serde_json::from_slice::<serde_json::Value>(bytes) {
        Ok(value) => match value.get(key) {
            Some(member) => Ok(Some(serde_json::to_vec(member).unwrap())),
            None => Ok(None),
        },
        Err(e) => Err(e.to_string()),
    }
}

/// The `input` member of the JSON document `bytes`, serialised; `null`
/// where the document has no such member.
pub fn input_member(bytes: &[u8]) -> (r: Result<Vec<u8>, String>)
    ensures
        member_view(r) == input_value(bytes@),
        bytes@ == empty_object() ==> member_view(r) == Ok::<Seq<u8>, Seq<char>>(null_bytes()),
{
    match json_member(bytes, "input") {
        Ok(Some(m)) => Ok(m),
        Ok(None) => {
            let null: Vec<u8> = vec![110u8, 117u8, 108u8, 108u8];
            assert(null@ =~= null_bytes());
            Ok(null)
        },
        Err(why) => Err(why),
    }
}

/// The message for an invocation body that could not be taken.
pub open spec fn input_error_message(e: InputError) -> Seq<char> {
    match e {
        InputError::NoBodyLength => "No body length found"@,
        InputError::NoBodyIndex => "No body index found"@,
        InputError::BodyOutOfRange => "Body runs past the end of the request"@,
    }
}

impl InputError {
    /// The message that reports this failure.
    pub fn message(&self) -> (r: String)
        ensures
            r@ == input_error_message(*self),
    {
        match self {
            InputError::NoBodyLength => String::from_str("No body length found"),
            InputError::NoBodyIndex => String::from_str("No body index found"),
            InputError::BodyOutOfRange => String::from_str("Body runs past the end of the request"),
        }
    }
}

/// The document an invocation body stands for: an empty body counts as `{}`.
pub open spec fn input_document(body: Seq<u8>) -> Seq<u8> {
    if body.len() == 0 {
        empty_object()
    } else {
        body
    }
}

/// The answer for an invocation whose JSON document the parser refused with
/// `why`.
pub open spec fn bad_document_text(why: Seq<char>) -> Seq<char> {
    response_text(StatusCode::BadRequest, reason_body("Failed to wrap input value as a json "@ + why))
}

/// What an invocation request in `buffer` gives the function: the `input`
/// member of the JSON document in its body, serialised; or the answer that
/// refuses the request.
pub fn execute(buffer: &[u8]) -> (r: Result<Vec<u8>, Response>)
    ensures
        match input_outcome(buffer@) {
            Err(e) => r matches Err(resp) && resp.resp@ == response_text(
                StatusCode::BadRequest,
                reason_body("Failed to get input: "@ + input_error_message(e)),
            ),
            Ok(body) => match input_value(input_document(body)) {
                Ok(v) => r matches Ok(input) && input@ == v,
                Err(why) => r matches Err(resp) && resp.resp@ == bad_document_text(why),
            },
        },
{
    let body = match get_input(buffer) {
        Ok(b) => b,
        Err(e) => {
            let reason = String::from_str("Failed to get input: ").concat(e.message().as_str());
            return Err(Response::json(StatusCode::BadRequest, Vec::new(), Some(reason)));
        },
    };
    let parsed = if body.len() == 0 {
        let empty: [u8; 2] = [123u8, 125u8];
        assert(empty@ =~= empty_object());
        input_member(&empty)
    } else {
        input_member(body.as_slice())
    };
    match parsed {
        Ok(input) => Ok(input),
        Err(why) => {
            let reason = String::from_str("Failed to wrap input value as a json ").concat(why.as_str());
            Err(Response::json(StatusCode::BadRequest, Vec::new(), Some(reason)))
        },
    }
}

} // verus!
