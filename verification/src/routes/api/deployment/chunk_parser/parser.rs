//! Decoding request bodies: the chunked transfer coding, and the plain body
//! after the headers.
use vstd::prelude::*;
use vstd::utf8::{decode_utf8, encode_utf8, encode_utf8_decode_utf8, valid_utf8};

use super::models::{
    ChunkFault, ChunkOutcome, ChunkParserError, ChunkParserResult, ChunkReadingError,
    HttpParseError,
};
use crate::http::utils::get_body_idx;
use crate::text::{
    append_range, copy_range, crlf, find_bytes, first_occurrence, header_terminator,
    is_first_occurrence, lemma_first_occurrence_is, lemma_first_occurrence_occurs, lemma_parse_unsigned_nonneg, lemma_first_occurrence_none,
    lemma_split_on_nonempty, never_occurs, parse_unsigned, parse_unsigned_bytes, split_on,
    split_str, utf8_str,
};

verus! {

/// `b` is an ASCII decimal digit.
pub open spec fn is_ascii_digit(b: u8) -> bool {
    48 <= b <= 57
}

/// The size field of a chunk-size line: its text before any `;` extension.
pub open spec fn chunk_size_text(line: Seq<u8>) -> Seq<char> {
    split_on(decode_utf8(line), ';')[0]
}

/// The size a chunk-size line declares, if its size field is a hexadecimal number.
pub open spec fn chunk_size_of(line: Seq<u8>) -> Option<int> {
    parse_unsigned(encode_utf8(chunk_size_text(line)), 16)
}

/// Decodes chunks from the start of `buf`, appending their data to `out`.
/// Gives the outcome, the bytes not yet consumed, and the data so far.
/// A size line is consumed as soon as it is complete, a chunk's data as soon
/// as all of it is there, and the line break after the data only once both
/// of its bytes are.
pub open spec fn decode_chunks(buf: Seq<u8>, out: Seq<u8>) -> (ChunkOutcome, Seq<u8>, Seq<u8>)
    decreases buf.len(),
{
    match first_occurrence(buf, crlf()) {
        None => (ChunkOutcome::NeedMoreData, buf, out),
        Some(pos) => {
            let line = buf.take(pos);
            let rest = buf.skip(pos + 2);
            if !valid_utf8(line) {
                (ChunkOutcome::Error(ChunkFault::InvalidUtf8(line)), rest, out)
            } else {
                match chunk_size_of(line) {
                    None => (
                        ChunkOutcome::Error(ChunkFault::InvalidChunkSize(chunk_size_text(line))),
                        rest,
                        out,
                    ),
                    Some(n) => {
                        if n == 0 {
                            (ChunkOutcome::Done, rest, out)
                        } else if rest.len() < n {
                            (ChunkOutcome::NeedMoreData, rest, out)
                        } else {
                            let data = out + rest.take(n);
                            let after = rest.skip(n);
                            if after.len() < 2 {
                                (ChunkOutcome::NeedMoreData, after, data)
                            } else if after.take(2) != crlf() {
                                (ChunkOutcome::Error(ChunkFault::MissingCRLF(after.take(2))), after, data)
                            } else {
                                proof {
                                    lemma_first_occurrence_occurs(buf, crlf());
                                    lemma_parse_unsigned_nonneg(encode_utf8(chunk_size_text(line)), 16);
                                    assert(after.skip(2).len() < buf.len());
                                }
                                decode_chunks(after.skip(2), data)
                            }
                        }
                    },
                }
            }
        },
    }
}

/// One pass of the decoder over the bytes received so far: a buffer that
/// does not start with a decimal digit is rejected with (up to) its first
/// eight bytes, and is left as it is.
pub open spec fn chunk_pass(buf: Seq<u8>, out: Seq<u8>) -> (ChunkOutcome, Seq<u8>, Seq<u8>) {
    if buf.len() == 0 || !is_ascii_digit(buf[0]) {
        let k = if buf.len() < 8 {
            buf.len() as int
        } else {
            8
        };
        (ChunkOutcome::Error(ChunkFault::TrailingGarbage(buf.take(k))), buf, out)
    } else {
        decode_chunks(buf, out)
    }
}

/// What the size line at the front of some bytes says.
enum SizeLine {
    /// No complete line yet.
    Incomplete,
    /// The line is not UTF-8; it ends before `next`.
    NotText(Vec<u8>, usize),
    /// The size field is not a hexadecimal number.
    NotHex(String, usize),
    /// The declared chunk size; the data starts at `next`.
    Size(usize, usize),
}

/// Reads the size line that starts at offset `at` of `buf`.
fn read_size_line(buf: &[u8], at: usize) -> (r: SizeLine)
    requires
        at <= buf@.len(),
    ensures
        ({
            let cur = buf@.skip(at as int);
            match r {
                SizeLine::Incomplete => first_occurrence(cur, crlf()) is None,
                SizeLine::NotText(line, next) => first_occurrence(cur, crlf()) == Some(next - at - 2)
                    && at + 2 <= next <= buf@.len() && line@ == cur.take(next - at - 2) && !valid_utf8(line@),
                SizeLine::NotHex(text, next) => first_occurrence(cur, crlf()) == Some(next - at - 2)
                    && at + 2 <= next <= buf@.len() && valid_utf8(cur.take(next - at - 2))
                    && chunk_size_of(cur.take(next - at - 2)) is None
                    && text@ == chunk_size_text(cur.take(next - at - 2)),
                SizeLine::Size(n, next) => first_occurrence(cur, crlf()) == Some(next - at - 2)
                    && at + 2 <= next <= buf@.len() && valid_utf8(cur.take(next - at - 2))
                    && chunk_size_of(cur.take(next - at - 2)) == Some(n as int),
            }
        }),
{
    let ghost cur_seq = buf@.skip(at as int);
    let sep: [u8; 2] = [13u8, 10u8];
    assert(sep@ =~= crlf());
    let cur = &buf[at..buf.len()];
    assert(cur@ =~= cur_seq);
    match find_bytes(cur, &sep) {
        None => {
            proof {
                lemma_first_occurrence_none(cur_seq, crlf());
            }
            SizeLine::Incomplete
        },
        Some(pos) => {
            proof {
                lemma_first_occurrence_is(cur_seq, crlf(), pos as int);
            }
            let line = copy_range(cur, 0, pos);
            assert(line@ =~= cur_seq.take(pos as int));
            let next = at + pos + 2;
            match utf8_str(line.as_slice()) {
                None => SizeLine::NotText(line, next),
                Some(text) => {
                    proof {
                        encode_utf8_decode_utf8(text@);
                        lemma_split_on_nonempty(text@, ';');
                    }
                    assert(text@ == decode_utf8(line@));
                    let fields = split_str(text, ';');
                    let size_text = fields[0].clone();
                    assert(size_text@ == chunk_size_text(line@));
                    match parse_unsigned_bytes(size_text.as_str().as_bytes(), 16) {
                        None => SizeLine::NotHex(size_text, next),
                        Some(n) => SizeLine::Size(n, next),
                    }
                },
            }
        },
    }
}

/// One step of the decoder at offset `at` of `buf`.
enum Step {
    /// Decoding stops with this result, having consumed `buf[..end]`.
    Finish(ChunkParserResult, usize),
    /// A whole chunk was decoded; the next size line starts here.
    Next(usize),
}

/// Decodes the chunk at offset `at` of `buf`, appending its data to `out`.
fn decode_step(buf: &[u8], at: usize, out: &mut Vec<u8>) -> (s: Step)
    requires
        at <= buf@.len(),
    ensures
        match s {
            Step::Finish(r, end) => end <= buf@.len() && decode_chunks(buf@.skip(at as int), old(out)@)
                == (r@, buf@.skip(end as int), final(out)@),
            Step::Next(a) => at < a <= buf@.len() && decode_chunks(buf@.skip(at as int), old(out)@)
                == decode_chunks(buf@.skip(a as int), final(out)@),
        },
{
    let ghost cur = buf@.skip(at as int);
    let len = buf.len();
    match read_size_line(buf, at) {
        SizeLine::Incomplete => Step::Finish(ChunkParserResult::NeedMoreData, at),
        SizeLine::NotText(line, next) => {
            assert(buf@.skip(next as int) =~= cur.skip(next - at));
            Step::Finish(ChunkParserResult::Error(ChunkParserError::InvalidUtf8 { line }), next)
        },
        SizeLine::NotHex(text, next) => {
            assert(buf@.skip(next as int) =~= cur.skip(next - at));
            Step::Finish(
                ChunkParserResult::Error(ChunkParserError::InvalidChunkSize { line: text }),
                next,
            )
        },
        SizeLine::Size(n, next) => {
            assert(buf@.skip(next as int) =~= cur.skip(next - at));
            if n == 0 {
                return Step::Finish(ChunkParserResult::Done, next);
            }
            if len - next < n {
                return Step::Finish(ChunkParserResult::NeedMoreData, next);
            }
            let after = next + n;
            append_range(out, buf, next, after);
            assert(buf@.skip(next as int).take(n as int) =~= buf@.subrange(next as int, after as int));
            assert(buf@.skip(next as int).skip(n as int) =~= buf@.skip(after as int));
            if len - after < 2 {
                return Step::Finish(ChunkParserResult::NeedMoreData, after);
            }
            if !(buf[after] == 13 && buf[after + 1] == 10) {
                let after_chunk = copy_range(buf, after, after + 2);
                assert(after_chunk@ =~= buf@.skip(after as int).take(2));
                assert(after_chunk@ != crlf());
                return Step::Finish(
                    ChunkParserResult::Error(ChunkParserError::MissingCRLF { after_chunk }),
                    after,
                );
            }
            assert(buf@.skip(after as int).take(2) =~= crlf());
            assert(buf@.skip(after as int).skip(2) =~= buf@.skip(after + 2));
            Step::Next(after + 2)
        },
    }
}

/// Drops the first `at` bytes of `buffer` and hands `r` back.
fn consume(buffer: &mut Vec<u8>, at: usize, r: ChunkParserResult) -> (res: ChunkParserResult)
    requires
        at <= old(buffer)@.len(),
    ensures
        res == r,
        final(buffer)@ == old(buffer)@.skip(at as int),
{
    let tail = buffer.split_off(at);
    *buffer = tail;
    r
}

/// Decodes as many chunks as `buffer` holds, appending their data to
/// `wasm_vec` and dropping what was consumed from `buffer`.
pub fn read_chunks_from_buffer(buffer: &mut Vec<u8>, wasm_vec: &mut Vec<u8>) -> (r: ChunkParserResult)
    ensures
        (r@, final(buffer)@, final(wasm_vec)@) == chunk_pass(old(buffer)@, old(wasm_vec)@),
{
    if buffer.len() == 0 || !(48 <= buffer[0] && buffer[0] <= 57) {
        let k = if buffer.len() < 8 {
            buffer.len()
        } else {
            8
        };
        let bytes = copy_range(buffer.as_slice(), 0, k);
        assert(bytes@ =~= old(buffer)@.take(k as int));
        return ChunkParserResult::Error(ChunkParserError::TrailingGarbage { bytes });
    }
    let ghost initial_buf = buffer@;
    let ghost out0 = wasm_vec@;
    let mut at: usize = 0;
    assert(initial_buf.skip(0) =~= initial_buf);
    loop
        invariant
            buffer@ == initial_buf,
            at <= initial_buf.len(),
            decode_chunks(initial_buf, out0) == decode_chunks(initial_buf.skip(at as int), wasm_vec@),
            chunk_pass(initial_buf, out0) == decode_chunks(initial_buf, out0),
            initial_buf == old(buffer)@,
            out0 == old(wasm_vec)@,
        decreases initial_buf.len() - at,
    {
        match decode_step(buffer.as_slice(), at, wasm_vec) {
            Step::Finish(r, end) => {
                return consume(buffer, end, r);
            },
            Step::Next(a) => {
                at = a;
            },
        }
    }
}

/// The body of a request whose bytes are `buffer` and whose text is
/// `string_buffer`: the bytes after the first blank line of the text.
pub fn get_wasm_code(buffer: &[u8], string_buffer: &String) -> (r: Result<Vec<u8>, ChunkReadingError>)
    requires
        forall|i: int|
            is_first_occurrence(encode_utf8(string_buffer@), header_terminator(), i) ==> i + 4
                <= buffer@.len(),
    ensures
        never_occurs(encode_utf8(string_buffer@), header_terminator()) ==> r matches Err(
            ChunkReadingError::ParseError(HttpParseError::MissingBodySeparator),
        ),
        forall|i: int|
            is_first_occurrence(encode_utf8(string_buffer@), header_terminator(), i) ==> (r matches Ok(
                body,
            ) && body@ == buffer@.subrange(i + 4, buffer@.len() as int)),
{
    match get_body_idx(string_buffer.as_str()) {
        Some(idx) => Ok(copy_range(buffer, idx, buffer.len())),
        None => Err(ChunkReadingError::ParseError(HttpParseError::MissingBodySeparator)),
    }
}

} // verus!
