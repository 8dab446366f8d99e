//! The chunked transfer coding as a sender writes it, and the law that the
//! decoder gives back what was sent.
use vstd::prelude::*;
use vstd::utf8::{encode_utf8, encode_utf8_decode_utf8, encode_utf8_valid_utf8, is_ascii_chars, is_ascii_chars_encode_utf8, valid_utf8};

use super::models::ChunkOutcome;
use super::parser::{chunk_pass, chunk_size_of, chunk_size_text, decode_chunks, is_ascii_digit};
use crate::text::{
    all_digits, crlf, digit_value, digits_value, first_occurrence, is_first_occurrence,
    lemma_first_occurrence_is, lemma_first_occurrence_none, lemma_split_on_absent, occurs_at,
    parse_unsigned, split_on, unsigned_digits,
};

verus! {

/// The lowercase hexadecimal digit for `d` (below 16).
pub open spec fn hex_char(d: int) -> char {
    if d < 10 {
        (48 + d) as char
    } else {
        (87 + d) as char
    }
}

/// `n` in lowercase hexadecimal, without leading zeros.
pub open spec fn hex_chars(n: nat) -> Seq<char>
    decreases n,
{
    if n < 16 {
        seq![hex_char(n as int)]
    } else {
        hex_chars(n / 16).push(hex_char((n % 16) as int))
    }
}

/// The size line of a chunk of `n` bytes, without its line break.
pub open spec fn size_line(n: nat) -> Seq<u8> {
    encode_utf8(hex_chars(n))
}

/// One chunk as a sender frames it: its size in hexadecimal, a line break,
/// the data and a line break.
pub open spec fn chunk_frame(data: Seq<u8>) -> Seq<u8> {
    size_line(data.len()) + crlf() + data + crlf()
}

/// A body in the chunked coding: each chunk framed in turn, then the last
/// chunk (size 0) and the blank line that ends the body.
pub open spec fn chunked_body(chunks: Seq<Seq<u8>>) -> Seq<u8>
    decreases chunks.len(),
{
    if chunks.len() == 0 {
        size_line(0) + crlf() + crlf()
    } else {
        chunk_frame(chunks[0]) + chunked_body(chunks.drop_first())
    }
}

/// The chunks' data, one after another.
pub open spec fn concat_chunks(chunks: Seq<Seq<u8>>) -> Seq<u8>
    decreases chunks.len(),
{
    if chunks.len() == 0 {
        Seq::empty()
    } else {
        chunks[0] + concat_chunks(chunks.drop_first())
    }
}

/// Every chunk has data, and no more than a `usize` can count.
pub open spec fn sendable_chunks(chunks: Seq<Seq<u8>>) -> bool {
    forall|i: int| 0 <= i < chunks.len() ==> 0 < #[trigger] chunks[i].len() <= usize::MAX
}

proof fn lemma_hex_char(d: int)
    requires
        0 <= d < 16,
    ensures
        '\0' <= hex_char(d) <= '\u{7f}',
        digit_value(hex_char(d) as u8) == d,
        hex_char(d) != '\r',
        hex_char(d) != ';',
        hex_char(d) != '+',
        (d < 10) == is_ascii_digit(hex_char(d) as u8),
{
}

proof fn lemma_hex_chars(n: nat)
    ensures
        hex_chars(n).len() >= 1,
        is_ascii_chars(hex_chars(n)),
        forall|i: int| 0 <= i < hex_chars(n).len() ==> {
            &&& digit_value(#[trigger] hex_chars(n)[i] as u8) < 16
            &&& hex_chars(n)[i] != '\r'
            &&& hex_chars(n)[i] != ';'
            &&& hex_chars(n)[i] != '+'
        },
        digits_value(hex_chars(n).map_values(|c: char| c as u8), 16) == n,
        is_ascii_digit(hex_chars(n)[0] as u8) == ((hex_chars(n)[0] as u8) < 58),
    decreases n,
{
    if n < 16 {
        lemma_hex_char(n as int);
        let b = hex_chars(n).map_values(|c: char| c as u8);
        assert(b.drop_last() =~= Seq::<u8>::empty());
        assert(b.last() == hex_char(n as int) as u8);
        assert(digits_value(b.drop_last(), 16) == 0);
        assert(digits_value(b, 16) == digits_value(b.drop_last(), 16) * 16 + digit_value(b.last()));
    } else {
        lemma_hex_chars(n / 16);
        lemma_hex_char((n % 16) as int);
        let s = hex_chars(n / 16);
        let t = hex_chars(n);
        assert forall|i: int| 0 <= i < t.len() implies {
            &&& digit_value(#[trigger] t[i] as u8) < 16
            &&& t[i] != '\r'
            &&& t[i] != ';'
            &&& t[i] != '+'
        } by {
            if i < s.len() {
                assert(t[i] == s[i]);
            }
        }
        assert(is_ascii_chars(t)) by {
            assert forall|i: int| 0 <= i < t.len() implies '\0' <= #[trigger] t[i] <= '\u{7f}' by {
                if i < s.len() {
                    assert(t[i] == s[i]);
                }
            }
        }
        let b = t.map_values(|c: char| c as u8);
        assert(b.drop_last() =~= s.map_values(|c: char| c as u8));
        assert(b.last() == hex_char((n % 16) as int) as u8);
        assert(n == (n / 16) * 16 + n % 16) by (nonlinear_arith);
        assert(digits_value(b, 16) == digits_value(b.drop_last(), 16) * 16 + digit_value(b.last()));
        assert(t[0] == s[0]);
    }
}

/// The size line of `n`, as bytes, holds the hexadecimal digits of `n`.
proof fn lemma_size_line(n: nat)
    requires
        n <= usize::MAX,
    ensures
        size_line(n).len() >= 1,
        forall|i: int| 0 <= i < size_line(n).len() ==> #[trigger] size_line(n)[i] != 13u8,
        valid_utf8(size_line(n)),
        chunk_size_of(size_line(n)) == Some(n as int),
        is_ascii_digit(size_line(n)[0]) <==> (hex_chars(n)[0] as u8) < 58,
{
    let c = hex_chars(n);
    let b = size_line(n);
    lemma_hex_chars(n);
    is_ascii_chars_encode_utf8(c);
    encode_utf8_valid_utf8(c);
    encode_utf8_decode_utf8(c);
    assert(b =~= c.map_values(|x: char| x as u8));
    assert forall|i: int| 0 <= i < b.len() implies #[trigger] b[i] != 13u8 by {
        assert(b[i] == c[i] as u8);
        assert(c[i] != '\r');
    }
    lemma_split_on_absent(c, ';');
    assert(chunk_size_text(b) == c);
    assert(unsigned_digits(b) == b);
    assert(all_digits(b, 16)) by {
        assert forall|i: int| 0 <= i < b.len() implies digit_value(b[i]) < 16 by {
            assert(b[i] == c[i] as u8);
        }
    }
    assert(parse_unsigned(b, 16) == Some(n as int));
    lemma_hex_char(0);
}

/// The first line break in a size line followed by a line break is the one
/// after the size line.
proof fn lemma_first_break(n: nat, tail: Seq<u8>)
    requires
        n <= usize::MAX,
    ensures
        first_occurrence(size_line(n) + crlf() + tail, crlf()) == Some(size_line(n).len() as int),
{
    let line = size_line(n);
    let buf = line + crlf() + tail;
    lemma_size_line(n);
    assert(buf.subrange(line.len() as int, line.len() + 2int) =~= crlf());
    assert forall|j: int| 0 <= j < line.len() implies !occurs_at(buf, crlf(), j) by {
        assert(buf[j] == line[j]);
        if occurs_at(buf, crlf(), j) {
            assert(buf.subrange(j, j + 2)[0] == buf[j]);
        }
    }
    assert(is_first_occurrence(buf, crlf(), line.len() as int));
    lemma_first_occurrence_is(buf, crlf(), line.len() as int);
}

/// Decoding a framed chunk appends its data and goes on after the frame.
proof fn lemma_decode_frame(data: Seq<u8>, tail: Seq<u8>, out: Seq<u8>)
    requires
        0 < data.len() <= usize::MAX,
    ensures
        decode_chunks(chunk_frame(data) + tail, out) == decode_chunks(tail, out + data),
{
    let n = data.len();
    let line = size_line(n);
    let buf = chunk_frame(data) + tail;
    lemma_size_line(n);
    assert(buf =~= line + crlf() + (data + crlf() + tail));
    lemma_first_break(n, data + crlf() + tail);
    let pos = line.len() as int;
    assert(buf.take(pos) =~= line);
    let rest = buf.skip(pos + 2);
    assert(rest =~= data + crlf() + tail);
    assert(rest.take(n as int) =~= data);
    let after = rest.skip(n as int);
    assert(after =~= crlf() + tail);
    assert(after.take(2) =~= crlf());
    assert(after.skip(2) =~= tail);
}

/// Decoding the last chunk ends the body and leaves the blank line after it.
proof fn lemma_decode_last(out: Seq<u8>)
    ensures
        decode_chunks(chunked_body(Seq::empty()), out) == (ChunkOutcome::Done, crlf(), out),
{
    let buf = chunked_body(Seq::<Seq<u8>>::empty());
    lemma_first_break(0, crlf());
    lemma_size_line(0);
    let line = size_line(0);
    assert(buf.take(line.len() as int) =~= line);
    assert(buf.skip(line.len() + 2int) =~= crlf());
}

/// Decoding a complete chunked body, with data `out` decoded before it,
/// ends the body, appends the data of every chunk, and leaves the blank line
/// that ends the body.
pub proof fn lemma_decode_chunked_body(chunks: Seq<Seq<u8>>, out: Seq<u8>)
    requires
        sendable_chunks(chunks),
    ensures
        decode_chunks(chunked_body(chunks), out) == (ChunkOutcome::Done, crlf(), out + concat_chunks(chunks)),
    decreases chunks.len(),
{
    if chunks.len() == 0 {
        lemma_decode_last(out);
        assert(chunks =~= Seq::<Seq<u8>>::empty());
        assert(out + concat_chunks(chunks) =~= out);
    } else {
        let data = chunks[0];
        let rest_chunks = chunks.drop_first();
        assert(sendable_chunks(rest_chunks)) by {
            assert forall|i: int| 0 <= i < rest_chunks.len() implies 0 < #[trigger] rest_chunks[i].len()
                <= usize::MAX by {
                assert(rest_chunks[i] == chunks[i + 1]);
            }
        }
        assert(0 < chunks[0].len() <= usize::MAX);
        lemma_decode_frame(data, chunked_body(rest_chunks), out);
        lemma_decode_chunked_body(rest_chunks, out + data);
        assert(out + data + concat_chunks(rest_chunks) =~= out + concat_chunks(chunks));
    }
}

/// The decoder takes a complete chunked body in one pass, giving back the
/// chunks' data one after another, when the first size line starts with a
/// decimal digit (a first chunk of 10 to 15 bytes, say, has the size line
/// `a` to `f`, which the pass refuses).
pub proof fn lemma_chunked_round_trip(chunks: Seq<Seq<u8>>)
    requires
        sendable_chunks(chunks),
        chunks.len() > 0 ==> (hex_chars(chunks[0].len())[0] as u8) < 58,
    ensures
        chunk_pass(chunked_body(chunks), Seq::empty()) == (ChunkOutcome::Done, crlf(), concat_chunks(chunks)),
{
    lemma_decode_chunked_body(chunks, Seq::empty());
    assert(Seq::<u8>::empty() + concat_chunks(chunks) =~= concat_chunks(chunks));
    let n: nat = if chunks.len() == 0 {
        0
    } else {
        chunks[0].len()
    };
    if chunks.len() > 0 {
        assert(0 < chunks[0].len() <= usize::MAX);
    }
    lemma_size_line(n);
    lemma_hex_chars(0);
    lemma_hex_char(0);
    let buf = chunked_body(chunks);
    assert(buf[0] == size_line(n)[0]);
}

/// How many of `chunks`, in order, have all of their data within the first
/// `k` bytes of their chunked body (the line break after a chunk's data need
/// not have arrived yet).
pub open spec fn chunks_with_data_within(chunks: Seq<Seq<u8>>, k: int) -> nat
    decreases chunks.len(),
{
    if chunks.len() == 0 {
        0
    } else {
        let head = size_line(chunks[0].len()).len() + 2 + chunks[0].len();
        if k < head {
            0
        } else if k < head + 2 {
            1
        } else {
            1 + chunks_with_data_within(chunks.drop_first(), k - head - 2)
        }
    }
}

/// A line without a `\r`, or the start of one with at most the `\r` of its
/// line break, holds no line break.
#[verifier::spinoff_prover]
proof fn lemma_no_break_in_line(line: Seq<u8>, tail: Seq<u8>, k: int)
    requires
        forall|i: int| 0 <= i < line.len() ==> #[trigger] line[i] != 13u8,
        0 <= k <= line.len() + 1,
    ensures
        first_occurrence((line + crlf() + tail).take(k), crlf()) is None,
{
    let lc = line + crlf();
    let whole = lc + tail;
    let p = whole.take(k);
    assert forall|j: int| !occurs_at(p, crlf(), j) by {
        if occurs_at(p, crlf(), j) {
            let s2 = p.subrange(j, j + 2);
            assert(s2 == crlf());
            assert(s2[0] == 13u8);
            assert(s2[0] == p[j]);
            assert(j < line.len());
            assert(p[j] == whole[j]);
            assert(whole[j] == lc[j]);
            assert(lc[j] == line[j]);
            assert(false);
        }
    }
    lemma_first_occurrence_none(p, crlf());
}

/// A size line, or the start of one with at most the `\r` of its line
/// break, holds no line break.
proof fn lemma_no_break_before_data(n: nat, tail: Seq<u8>, k: int)
    requires
        n <= usize::MAX,
        0 <= k <= size_line(n).len() + 1,
    ensures
        first_occurrence((size_line(n) + crlf() + tail).take(k), crlf()) is None,
{
    lemma_size_line(n);
    lemma_no_break_in_line(size_line(n), tail, k);
}

/// The data of the first `j + 1` chunks is the first chunk's data followed
/// by that of the next `j`.
proof fn lemma_concat_take_first(chunks: Seq<Seq<u8>>, j: int)
    requires
        0 <= j < chunks.len(),
    ensures
        concat_chunks(chunks.take(j + 1)) == chunks[0] + concat_chunks(chunks.drop_first().take(j)),
{
    let t = chunks.take(j + 1);
    assert(t[0] == chunks[0]);
    assert(t.drop_first() =~= chunks.drop_first().take(j));
}

/// No chunks' data is no data.
proof fn lemma_concat_none(chunks: Seq<Seq<u8>>, out: Seq<u8>)
    ensures
        out + concat_chunks(chunks.take(0)) == out,
{
    assert(chunks.take(0) =~= Seq::<Seq<u8>>::empty());
    assert(out + concat_chunks(Seq::<Seq<u8>>::empty()) =~= out);
}

/// On a prefix of the last chunk, the decoder adds no data.
#[verifier::spinoff_prover]
#[verifier::rlimit(50)]
proof fn lemma_decode_prefix_last(k: int, out: Seq<u8>)
    requires
        0 <= k <= chunked_body(Seq::<Seq<u8>>::empty()).len(),
    ensures
        decode_chunks(chunked_body(Seq::<Seq<u8>>::empty()).take(k), out).2 == out,
{
    let body = chunked_body(Seq::<Seq<u8>>::empty());
    let p = body.take(k);
    lemma_size_line(0);
    let line = size_line(0);
    assert(body =~= line + crlf() + crlf());
    if k <= line.len() + 1 {
        lemma_no_break_before_data(0, crlf(), k);
    } else {
        let tail = crlf().take(k - line.len() - 2);
        assert(p =~= line + crlf() + tail);
        lemma_first_break(0, tail);
        assert(p.take(line.len() as int) =~= line);
    }
}

/// On a prefix that ends within the first chunk's frame, the decoder adds
/// the chunk's data once all of it is there, and nothing before.
#[verifier::spinoff_prover]
#[verifier::rlimit(50)]
proof fn lemma_decode_prefix_first_frame(data: Seq<u8>, br: Seq<u8>, k: int, out: Seq<u8>)
    requires
        0 < data.len() <= usize::MAX,
        0 <= k < size_line(data.len()).len() + 4 + data.len(),
    ensures
        decode_chunks((chunk_frame(data) + br).take(k), out).2 == if k < size_line(data.len()).len() + 2
            + data.len() {
            out
        } else {
            out + data
        },
{
    let n = data.len();
    let line = size_line(n);
    let l = line.len() as int;
    lemma_size_line(n);
    let whole = chunk_frame(data) + br;
    assert(whole =~= line + crlf() + (data + crlf() + br));
    let p = whole.take(k);
    if k <= l + 1 {
        lemma_no_break_before_data(n, data + crlf() + br, k);
    } else {
        let tail = (data + crlf() + br).take(k - l - 2);
        assert(p =~= line + crlf() + tail);
        lemma_first_break(n, tail);
        assert(p.take(l) =~= line);
        let rest = p.skip(l + 2);
        assert(rest =~= tail);
        if k >= l + 2 + n {
            assert(rest.take(n as int) =~= data);
            assert(rest.skip(n as int).len() < 2);
        }
    }
}

/// Decoding never loses data it consumed, nor makes any up: on any prefix of
/// a chunked body, whatever part of it has arrived, the decoder's output is
/// the data it held before followed by the data of exactly those chunks
/// whose data the prefix holds in full, in order.
pub proof fn lemma_decode_prefix(chunks: Seq<Seq<u8>>, k: int, out: Seq<u8>)
    requires
        sendable_chunks(chunks),
        0 <= k <= chunked_body(chunks).len(),
    ensures
        decode_chunks(chunked_body(chunks).take(k), out).2 == out + concat_chunks(
            chunks.take(chunks_with_data_within(chunks, k) as int),
        ),
    decreases chunks.len(),
{
    if chunks.len() == 0 {
        lemma_concat_none(chunks, out);
        assert(chunks =~= Seq::<Seq<u8>>::empty());
        lemma_decode_prefix_last(k, out);
    } else {
        let data = chunks[0];
        let n = data.len();
        let rest_chunks = chunks.drop_first();
        let br = chunked_body(rest_chunks);
        let head = size_line(n).len() + 2 + n;
        assert(0 < chunks[0].len() <= usize::MAX);
        assert(chunked_body(chunks) == chunk_frame(data) + br);
        if k < head + 2 {
            lemma_decode_prefix_first_frame(data, br, k, out);
            if k < head {
                lemma_concat_none(chunks, out);
            } else {
                lemma_concat_take_first(chunks, 0);
                lemma_concat_none(rest_chunks, data);
            }
        } else {
            assert(sendable_chunks(rest_chunks)) by {
                assert forall|i: int| 0 <= i < rest_chunks.len() implies 0 < #[trigger] rest_chunks[i].len()
                    <= usize::MAX by {
                    assert(rest_chunks[i] == chunks[i + 1]);
                }
            }
            let f = head + 2;
            let tail = br.take(k - f);
            assert((chunk_frame(data) + br).take(k) =~= chunk_frame(data) + tail);
            lemma_decode_frame(data, tail, out);
            lemma_decode_prefix(rest_chunks, k - f, out + data);
            let w = chunks_with_data_within(rest_chunks, k - f);
            lemma_within_bounded(rest_chunks, k - f);
            lemma_concat_take_first(chunks, w as int);
            assert(out + data + concat_chunks(rest_chunks.take(w as int)) =~= out + (data
                + concat_chunks(rest_chunks.take(w as int))));
        }
    }
}

/// What `read_chunks_from_buffer` makes of any part of a chunked body that
/// has arrived, once its first byte is there (and the first size line starts
/// with a decimal digit): the data it held before followed by the data of
/// exactly those chunks whose data has arrived in full. Data it consumed is
/// never lost.
pub proof fn lemma_pass_prefix(chunks: Seq<Seq<u8>>, k: int, out: Seq<u8>)
    requires
        sendable_chunks(chunks),
        chunks.len() > 0 ==> (hex_chars(chunks[0].len())[0] as u8) < 58,
        1 <= k <= chunked_body(chunks).len(),
    ensures
        chunk_pass(chunked_body(chunks).take(k), out).2 == out + concat_chunks(
            chunks.take(chunks_with_data_within(chunks, k) as int),
        ),
{
    lemma_decode_prefix(chunks, k, out);
    let n: nat = if chunks.len() == 0 {
        0
    } else {
        chunks[0].len()
    };
    if chunks.len() > 0 {
        assert(0 < chunks[0].len() <= usize::MAX);
    }
    lemma_size_line(n);
    lemma_hex_chars(0);
    lemma_hex_char(0);
    let buf = chunked_body(chunks);
    assert(buf[0] == size_line(n)[0]);
    assert(buf.take(k)[0] == buf[0]);
}

proof fn lemma_within_bounded(chunks: Seq<Seq<u8>>, k: int)
    ensures
        chunks_with_data_within(chunks, k) <= chunks.len(),
    decreases chunks.len(),
{
    if chunks.len() > 0 {
        lemma_within_bounded(chunks.drop_first(), k - size_line(chunks[0].len()).len() - 4 - chunks[0].len());
    }
}

} // verus!
