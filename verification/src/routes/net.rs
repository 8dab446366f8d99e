//! Deciding what a connection's request is: how its body is framed, and
//! which endpoint it addresses.
use vstd::prelude::*;
use vstd::utf8::encode_utf8;

use crate::http::utils::{blank_request_line, content_length, first_line, get_body_len, parse_request_line};
use crate::text::{find_bytes, never_occurs, starts_with_str, text_lines, words};

verus! {

/// The header that announces a chunked body, as bytes.
pub open spec fn chunked_marker() -> Seq<u8> {
    "Transfer-Encoding: chunked"@.map_values(|c: char| c as u8)
}

/// How a request's body is framed.
pub enum BodyPlan {
    /// In chunks.
    Chunked,
    /// As this many bytes.
    Sized(usize),
    /// The headers give no length: the request is refused.
    NoLength,
    /// The body is empty: the request is dropped without an answer.
    Empty,
}

/// How the body of the request whose header text is `headers` is framed:
/// chunked when the headers hold `Transfer-Encoding: chunked` anywhere, else
/// by the length they declare.
pub fn body_plan(headers: &str) -> (r: BodyPlan)
    ensures
        !never_occurs(encode_utf8(headers@), chunked_marker()) ==> r is Chunked,
        never_occurs(encode_utf8(headers@), chunked_marker()) ==> match content_length(
            text_lines(headers@),
        ) {
            None => r is NoLength,
            Some(len) => if len == 0 {
                r is Empty
            } else {
                r == BodyPlan::Sized(len as usize)
            },
        },
{
    let marker: [u8; 26] = [
        84u8, 114u8, 97u8, 110u8, 115u8, 102u8, 101u8, 114u8, 45u8, 69u8, 110u8, 99u8, 111u8,
        100u8, 105u8, 110u8, 103u8, 58u8, 32u8, 99u8, 104u8, 117u8, 110u8, 107u8, 101u8, 100u8,
    ];
    proof {
        reveal_strlit("Transfer-Encoding: chunked");
        assert(marker@ =~= chunked_marker());
    }
    match find_bytes(headers.as_bytes(), &marker) {
        Some(_) => BodyPlan::Chunked,
        None => match get_body_len(headers) {
            None => BodyPlan::NoLength,
            Some(len) => if len == 0 {
                BodyPlan::Empty
            } else {
                BodyPlan::Sized(len)
            },
        },
    }
}

/// The endpoint a request addresses.
pub enum Endpoint {
    /// `POST` to a path under `/functions`: deploy a function there.
    Deploy { path: String },
    /// `POST` to a path under `/invoke`: run the function there.
    Invoke { path: String },
    /// `DELETE` to a path under `/functions`.
    Delete { path: String },
    /// A `POST` or `DELETE` to any other path: ignored.
    Unrouted,
    /// Another method: reported and ignored.
    Unexpected,
    /// The request line has no method and path.
    Invalid,
}

/// The endpoint of the request whose header text is `header_text`, from the
/// method and path on its first line.
pub fn route_request(header_text: &str) -> (r: Endpoint)
    requires
        !blank_request_line(header_text@),
    ensures
        ({
            let line = first_line(header_text@);
            let w = words(line);
            if line.len() == 0 || w.len() < 2 {
                r is Invalid
            } else if w[0] == "POST"@ {
                if "/functions"@.is_prefix_of(w[1]) {
                    r matches Endpoint::Deploy { path } && path@ == w[1]
                } else if "/invoke"@.is_prefix_of(w[1]) {
                    r matches Endpoint::Invoke { path } && path@ == w[1]
                } else {
                    r is Unrouted
                }
            } else if w[0] == "DELETE"@ {
                if "/functions"@.is_prefix_of(w[1]) {
                    r matches Endpoint::Delete { path } && path@ == w[1]
                } else {
                    r is Unrouted
                }
            } else {
                r is Unexpected
            }
        }),
{
    match parse_request_line(header_text) {
        None => Endpoint::Invalid,
        Some((method, path)) => {
            if method == String::from_str("POST") {
                if starts_with_str(path.as_str(), "/functions") {
                    Endpoint::Deploy { path }
                } else if starts_with_str(path.as_str(), "/invoke") {
                    Endpoint::Invoke { path }
                } else {
                    Endpoint::Unrouted
                }
            } else if method == String::from_str("DELETE") {
                if starts_with_str(path.as_str(), "/functions") {
                    Endpoint::Delete { path }
                } else {
                    Endpoint::Unrouted
                }
            } else {
                Endpoint::Unexpected
            }
        },
    }
}

/// Whether the first line of a request holds only white space, which has no
/// request line to route.
pub fn is_blank_request_line(header_text: &str) -> (r: bool)
    ensures
        r == blank_request_line(header_text@),
{
    let lines = crate::text::lines_of(header_text);
    if lines.len() == 0 {
        return false;
    }
    let line = lines[0].as_str();
    assert(line@ == first_line(header_text@));
    if line.unicode_len() == 0 {
        return false;
    }
    let w = crate::text::words_of(line);
    w.len() == 0
}

/// The buffer for a body of `len` bytes, of which the bytes `leftover`
/// were read already with the headers: those bytes first, then zeros where
/// the rest of the body is to be read.
pub fn sized_body_start(leftover: &[u8], len: usize) -> (r: Vec<u8>)
    requires
        leftover@.len() <= len,
    ensures
        r@ == leftover@ + Seq::new((len - leftover@.len()) as nat, |i: int| 0u8),
{
    let mut r: Vec<u8> = Vec::new();
    let mut k: usize = 0;
    while k < leftover.len()
        invariant
            k <= leftover@.len(),
            r@ == leftover@.take(k as int),
        decreases leftover@.len() - k,
    {
        r.push(leftover[k]);
        k = k + 1;
        assert(r@ =~= leftover@.take(k as int));
    }
    while k < len
        invariant
            leftover@.len() <= k <= len,
            r@ == leftover@ + Seq::new((k - leftover@.len()) as nat, |i: int| 0u8),
        decreases len - k,
    {
        r.push(0u8);
        k = k + 1;
        assert(r@ =~= leftover@ + Seq::new((k - leftover@.len()) as nat, |i: int| 0u8));
    }
    r
}

} // verus!
