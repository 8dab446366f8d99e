//! Reading a request's header section from a connection: when the bytes
//! read so far hold all of it, and when to give up.
use vstd::prelude::*;

use super::utils::find_headers_end;
use crate::text::{copy_range, first_occurrence, header_terminator, lemma_first_occurrence_is, lemma_first_occurrence_none};

verus! {

/// A header section longer than this many bytes is refused.
pub const MAX_HEADER_BYTES: usize = 65536;

/// Where reading the header section stands.
pub enum HeaderStep {
    /// The header section is complete: the bytes up to and including the
    /// blank line that ends it, and the bytes read past it.
    Complete { headers: Vec<u8>, leftover: Vec<u8> },
    /// Too many bytes were read without the header section ending.
    TooLarge,
    /// Read more.
    NeedMore,
}

/// What the bytes read so far, `buf`, say of the header section.
pub fn headers_step(buf: &[u8]) -> (r: HeaderStep)
    ensures
        match first_occurrence(buf@, header_terminator()) {
            Some(i) => r matches HeaderStep::Complete { headers, leftover } && headers@ == buf@.take(i + 4)
                && leftover@ == buf@.skip(i + 4),
            None => if buf@.len() > MAX_HEADER_BYTES {
                r is TooLarge
            } else {
                r is NeedMore
            },
        },
{
    match find_headers_end(buf) {
        Some(end) => {
            proof {
                lemma_first_occurrence_is(buf@, header_terminator(), end - 4);
            }
            let headers = copy_range(buf, 0, end);
            let leftover = copy_range(buf, end, buf.len());
            assert(headers@ =~= buf@.take(end as int));
            assert(leftover@ =~= buf@.skip(end as int));
            HeaderStep::Complete { headers, leftover }
        },
        None => {
            proof {
                lemma_first_occurrence_none(buf@, header_terminator());
            }
            if buf.len() > MAX_HEADER_BYTES {
                HeaderStep::TooLarge
            } else {
                HeaderStep::NeedMore
            }
        },
    }
}

} // verus!
