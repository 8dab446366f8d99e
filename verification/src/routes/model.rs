//! The kind of request a connection starts with.
use vstd::prelude::*;

use crate::text::{lossy_text, utf8_lossy};

verus! {

/// The request method a buffer starts with.
pub enum Route {
    POST,
    DELETE,
    Unexpected(String),
}

/// `prefix` is a prefix of `bytes`.
pub open spec fn starts_with(bytes: Seq<u8>, prefix: Seq<u8>) -> bool {
    prefix.len() <= bytes.len() && bytes.subrange(0, prefix.len() as int) == prefix
}

/// The bytes of `POST`.
pub open spec fn post_bytes() -> Seq<u8> {
    seq![80u8, 79u8, 83u8, 84u8]
}

/// The bytes of `DELETE`.
pub open spec fn delete_bytes() -> Seq<u8> {
    seq![68u8, 69u8, 76u8, 69u8, 84u8, 69u8]
}

fn has_prefix(bytes: &[u8], prefix: &[u8]) -> (b: bool)
    ensures
        b == starts_with(bytes@, prefix@),
{
    if bytes.len() < prefix.len() {
        return false;
    }
    let mut i: usize = 0;
    while i < prefix.len()
        invariant
            prefix@.len() <= bytes@.len(),
            i <= prefix@.len(),
            forall|k: int| 0 <= k < i ==> bytes@[k] == prefix@[k],
        decreases prefix@.len() - i,
    {
        if bytes[i] != prefix[i] {
            assert(bytes@.subrange(0, prefix@.len() as int)[i as int] != prefix@[i as int]);
            return false;
        }
        i = i + 1;
    }
    assert(bytes@.subrange(0, prefix@.len() as int) =~= prefix@);
    true
}

impl Route {
    /// Classifies a request by the method it starts with; anything else
    /// is kept as text.
    pub fn from_buffer(buffer: &[u8]) -> (r: Route)
        ensures
            starts_with(buffer@, post_bytes()) ==> r is POST,
            !starts_with(buffer@, post_bytes()) && starts_with(buffer@, delete_bytes()) ==> r is DELETE,
            !starts_with(buffer@, post_bytes()) && !starts_with(buffer@, delete_bytes()) ==> (r matches Route::Unexpected(text) && text@ == lossy_text(buffer@)),
    {
        let post: [u8; 4] = [80u8, 79u8, 83u8, 84u8];
        let delete: [u8; 6] = [68u8, 69u8, 76u8, 69u8, 84u8, 69u8];
        assert(post@ =~= post_bytes());
        assert(delete@ =~= delete_bytes());
        if has_prefix(buffer, &post) {
            return Route::POST;
        }
        if has_prefix(buffer, &delete) {
            return Route::DELETE;
        }
        Route::Unexpected(utf8_lossy(buffer))
    }
}

} // verus!
