//! HTTP responses with a JSON body.
use vstd::prelude::*;
use vstd::utf8::encode_utf8;

use crate::text::{lossy_text, utf8_lossy};

verus! {

/// The status of a response.
pub enum StatusCode {
    Success,
    NotFound,
    IntServerError,
    Unauthorized,
    BadRequest,
}

/// A complete HTTP response, ready to be written to the client.
pub struct Response {
    pub resp: String,
}

/// The status line of a response.
pub open spec fn status_line(status: StatusCode) -> Seq<char> {
    match status {
        StatusCode::Success => "HTTP/1.1 200 Ok"@,
        StatusCode::NotFound => "HTTP/1.1 404 Not Found"@,
        StatusCode::IntServerError => "HTTP/1.1 500 Internal Server Error"@,
        StatusCode::Unauthorized => "HTTP/1.1 401 Unauthorized"@,
        StatusCode::BadRequest => "HTTP/1.1 400 Bad Request"@,
    }
}

fn status_text(status: &StatusCode) -> (r: &'static str)
    ensures
        r@ == status_line(*status),
{
    match status {
        StatusCode::Success => "HTTP/1.1 200 Ok",
        StatusCode::NotFound => "HTTP/1.1 404 Not Found",
        StatusCode::IntServerError => "HTTP/1.1 500 Internal Server Error",
        StatusCode::Unauthorized => "HTTP/1.1 401 Unauthorized",
        StatusCode::BadRequest => "HTTP/1.1 400 Bad Request",
    }
}

/// The decimal digit `d`.
pub open spec fn digit_char(d: int) -> char {
    if d == 0 {
        '0'
    } else if d == 1 {
        '1'
    } else if d == 2 {
        '2'
    } else if d == 3 {
        '3'
    } else if d == 4 {
        '4'
    } else if d == 5 {
        '5'
    } else if d == 6 {
        '6'
    } else if d == 7 {
        '7'
    } else if d == 8 {
        '8'
    } else {
        '9'
    }
}

/// `n` written in decimal, as `Display` writes a `usize`.
pub open spec fn decimal(n: nat) -> Seq<char>
    decreases n,
{
    if n < 10 {
        seq![digit_char(n as int)]
    } else {
        decimal(n / 10).push(digit_char((n % 10) as int))
    }
}

fn digit_text(d: usize) -> (r: &'static str)
    requires
        d < 10,
    ensures
        r@ == seq![digit_char(d as int)],
{
    proof {
        reveal_strlit("0");
        reveal_strlit("1");
        reveal_strlit("2");
        reveal_strlit("3");
        reveal_strlit("4");
        reveal_strlit("5");
        reveal_strlit("6");
        reveal_strlit("7");
        reveal_strlit("8");
        reveal_strlit("9");
    }
    match d {
        0 => "0",
        1 => "1",
        2 => "2",
        3 => "3",
        4 => "4",
        5 => "5",
        6 => "6",
        7 => "7",
        8 => "8",
        _ => "9",
    }
}

/// `n` in decimal.
pub fn decimal_text(n: usize) -> (r: String)
    ensures
        r@ == decimal(n as nat),
    decreases n,
{
    if n < 10 {
        String::from_str(digit_text(n))
    } else {
        let mut s = decimal_text(n / 10);
        s.append(digit_text(n % 10));
        s
    }
}

/// What serde_json writes for the JSON string holding `s`: `s` in double
/// quotes, with quotes, backslashes and control characters escaped.
pub uninterp spec fn json_quoted(s: Seq<char>) -> Seq<char>;

/// What serde_json writes back for the JSON document `bytes`, once read into
/// a `serde_json::Value`; `None` where `bytes` is no JSON document.
pub uninterp spec fn json_rewritten(bytes: Seq<u8>) -> Option<Seq<char>>;

/// Calls `serde_json::Value::String(..).to_string()`.
/// Claimed: the text is `json_quoted` of `s`; how characters are escaped is
/// left to the name.
#[verifier::external_body]
fn json_quote(s: &str) -> (r: String)
    ensures
        r@ == json_quoted(s@),
{
    serde_json::Value::String(s.to_owned()).to_string()
}

/// Calls `serde_json::from_slice::<serde_json::Value>` and, on success, the
/// value's `to_string`.
/// Claimed: the outcome is `json_rewritten` of the bytes; which documents are
/// accepted and how they are written back is left to the name.
#[verifier::external_body]
fn json_rewrite(bytes: &[u8]) -> (r: Option<String>)
    ensures
        r is None <==> json_rewritten(bytes@) is None,
        r matches Some(t) ==> json_rewritten(bytes@) == Some(t@),
{
    match serde_json::from_slice::<serde_json::Value>(bytes) {
        Ok(v) => Some(v.to_string()),
        Err(_) => None,
    }
}

/// The JSON body that reports a failure: `{"reason":"<reason>"}`.
pub open spec fn reason_body(reason: Seq<char>) -> Seq<char> {
    "{\"reason\":"@ + json_quoted(reason) + "}"@
}

/// The JSON body that carries a result: `{"result":<result>}`, where the
/// result is written as the JSON it holds, or else as a JSON string of its text.
pub open spec fn result_body(result: Seq<u8>) -> Seq<char> {
    "{\"result\":"@ + match json_rewritten(result) {
        Some(t) => t,
        None => json_quoted(lossy_text(result)),
    } + "}"@
}

/// A response with the given status and JSON body.
pub open spec fn response_text(status: StatusCode, body: Seq<char>) -> Seq<char> {
    status_line(status) + "\r\nContent-Length: "@ + decimal(encode_utf8(body).len())
        + "\r\nContent-Type: application/json\r\n\r\n"@ + body
}

impl Response {
    /// A response whose JSON body is the reason of a failure when there is
    /// one, else the result.
    pub fn json(status: StatusCode, result: Vec<u8>, reason: Option<String>) -> (r: Response)
        ensures
            r.resp@ == response_text(
                status,
                match reason {
                    Some(text) => reason_body(text@),
                    None => result_body(result@),
                },
            ),
    {
        let body = match &reason {
            Some(text) => {
                let mut b = String::from_str("{\"reason\":");
                let quoted = json_quote(text.as_str());
                b.append(quoted.as_str());
                b.append("}");
                b
            },
            None => {
                let mut b = String::from_str("{\"result\":");
                match json_rewrite(result.as_slice()) {
                    Some(t) => {
                        b.append(t.as_str());
                    },
                    None => {
                        let text = utf8_lossy(result.as_slice());
                        let quoted = json_quote(text.as_str());
                        b.append(quoted.as_str());
                    },
                }
                b.append("}");
                b
            },
        };
        let len = body.as_str().as_bytes().len();
        let mut resp = String::from_str(status_text(&status));
        resp.append("\r\nContent-Length: ");
        let digits = decimal_text(len);
        resp.append(digits.as_str());
        resp.append("\r\nContent-Type: application/json\r\n\r\n");
        resp.append(body.as_str());
        Response { resp }
    }
}

} // verus!
