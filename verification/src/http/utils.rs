//! Parsing the parts of an HTTP request.
use vstd::prelude::*;
use vstd::string::StringSliceAdditionalSpecFns;
use vstd::utf8::{encode_utf8, is_ascii_chars, is_ascii_chars_encode_utf8};

use crate::http::response::{decimal, digit_char, response_text, status_line, StatusCode};
use crate::text::{all_digits, digit_value, digits_value, is_white_space, lemma_split_on_absent, lemma_split_on_front, strip_cr, trim_end, trim_start, unsigned_digits, copy_range, first_occurrence, lemma_first_occurrence_is, lemma_first_occurrence_none, lossy_text, utf8_lossy, parse_unsigned, parse_unsigned_bytes, split_str, starts_with_str, trim, trim_str, words, words_of, last_piece, lemma_split_on_nonempty, split_on, find_bytes, header_terminator, is_first_occurrence, lines_of, never_occurs, occurs_at, string_views, text_lines};

verus! {

/// Offset just past the blank line that ends the headers in `buf`.
pub fn find_headers_end(buf: &[u8]) -> (r: Option<usize>)
    ensures
        r matches Some(e) ==> e >= 4 && is_first_occurrence(buf@, header_terminator(), e - 4),
        r is None ==> never_occurs(buf@, header_terminator()),
{
    let sep: [u8; 4] = [13u8, 10u8, 13u8, 10u8];
    assert(sep@ =~= header_terminator());
    let len = buf.len();
    match find_bytes(buf, &sep) {
        Some(i) => {
            assert(i + 4 <= len);
            Some(i + 4)
        },
        None => None,
    }
}

/// Byte offset of the body in a request text: just past the first blank line.
pub fn get_body_idx(string_buffer: &str) -> (r: Option<usize>)
    ensures
        r matches Some(e) ==> e >= 4 && is_first_occurrence(string_buffer.spec_bytes(), header_terminator(), e - 4),
        r is None ==> never_occurs(string_buffer.spec_bytes(), header_terminator()),
{
    find_headers_end(string_buffer.as_bytes())
}

} // verus!

verus! {

/// The lines of a text, as `str::lines` yields them.
pub fn split_in_lines(string: String) -> (r: Vec<String>)
    ensures
        string_views(r@) == text_lines(string@),
{
    lines_of(string.as_str())
}

} // verus!

verus! {

/// The text after the last `/` of a path that ends with `prefix`'s final
/// `/` followed by `name` is `name`, when `name` holds no `/`.
pub proof fn lemma_function_name_of(prefix: Seq<char>, name: Seq<char>)
    requires
        prefix.len() > 0,
        prefix.last() == '/',
        forall|i: int| 0 <= i < name.len() ==> name[i] != '/',
    ensures
        split_on(prefix + name, '/').last() == name,
    decreases name.len(),
{
    let s = prefix + name;
    if name.len() == 0 {
        assert(s =~= prefix);
        assert(split_on(prefix, '/') == split_on(prefix.drop_last(), '/').push(Seq::empty()));
    } else {
        let shorter = name.drop_last();
        lemma_function_name_of(prefix, shorter);
        assert(s.drop_last() =~= prefix + shorter);
        assert(s.last() == name.last());
        assert(name[name.len() - 1] != '/');
        lemma_split_on_nonempty(prefix + shorter, '/');
        assert(shorter.push(name.last()) =~= name);
    }
}

/// The name of the function a request path addresses: the text after its
/// last `/` (the whole path where there is none).
pub fn get_function_name(path: &str) -> (r: String)
    ensures
        r@ == split_on(path@, '/').last(),
{
    last_piece(path, '/')
}

} // verus!

verus! {

/// The header name whose value is the length of the body.
pub open spec fn content_length_name() -> Seq<char> {
    "Content-Length"@
}

/// A line that gives the body length: it starts with the header name and
/// holds exactly one `:`.
pub open spec fn is_length_line(line: Seq<char>) -> bool {
    content_length_name().is_prefix_of(line) && split_on(line, ':').len() == 2
}

/// The length a length line gives: its value after the `:`, trimmed, as a
/// decimal number.
pub open spec fn length_value(line: Seq<char>) -> Option<int> {
    parse_unsigned(encode_utf8(trim(split_on(line, ':')[1])), 10)
}

/// The body length the first length line among `lines` gives.
pub open spec fn content_length(lines: Seq<Seq<char>>) -> Option<int>
    decreases lines.len(),
{
    if lines.len() == 0 {
        None
    } else if is_length_line(lines[0]) {
        length_value(lines[0])
    } else {
        content_length(lines.drop_first())
    }
}

/// The body length the headers of a request text declare.
pub fn get_body_len(string_buffer: &str) -> (r: Option<usize>)
    ensures
        r matches Some(v) ==> content_length(text_lines(string_buffer@)) == Some(v as int),
        r is None ==> content_length(text_lines(string_buffer@)) is None,
{
    let lines = lines_of(string_buffer);
    let ghost all = text_lines(string_buffer@);
    let name = "Content-Length";
    proof {
        reveal_strlit("Content-Length");
    }
    let mut k: usize = 0;
    assert(all.skip(0) =~= all);
    while k < lines.len()
        invariant
            string_views(lines@) == all,
            all == text_lines(string_buffer@),
            k <= all.len(),
            name@ == content_length_name(),
            content_length(all) == content_length(all.skip(k as int)),
        decreases all.len() - k,
    {
        let line = lines[k].as_str();
        assert(line@ == all[k as int]);
        assert(all.skip(k as int)[0] == all[k as int]);
        assert(all.skip(k as int).drop_first() =~= all.skip(k + 1));
        if starts_with_str(line, name) {
            let parts = split_str(line, ':');
            if parts.len() == 2 {
                assert(string_views(parts@)[1] == parts@[1]@);
                let value = trim_str(parts[1].as_str());
                assert(is_length_line(all[k as int]));
                let digits = value.as_bytes();
                assert(digits@ == encode_utf8(trim(split_on(all[k as int], ':')[1])));
                return parse_unsigned_bytes(digits, 10);
            }
        }
        k = k + 1;
    }
    assert(all.skip(k as int) =~= Seq::<Seq<char>>::empty());
    None
}

/// The first line of a text, empty where there is none.
pub open spec fn first_line(s: Seq<char>) -> Seq<char> {
    let ls = text_lines(s);
    if ls.len() > 0 {
        ls[0]
    } else {
        Seq::empty()
    }
}

/// A first line that is non-empty yet holds no word; the request line
/// parser is not meant for it.
pub open spec fn blank_request_line(s: Seq<char>) -> bool {
    first_line(s).len() > 0 && words(first_line(s)).len() == 0
}

/// The method and path of a request: the first two words of its first line.
pub fn parse_request_line(request: &str) -> (r: Option<(String, String)>)
    requires
        !blank_request_line(request@),
    ensures
        ({
            let line = first_line(request@);
            let w = words(line);
            if line.len() == 0 || w.len() < 2 {
                r is None
            } else {
                r matches Some((m, p)) && m@ == w[0] && p@ == w[1]
            }
        }),
{
    let lines = lines_of(request);
    if lines.len() == 0 {
        return None;
    }
    let line = lines[0].as_str();
    assert(line@ == first_line(request@));
    if line.unicode_len() == 0 {
        return None;
    }
    let parts = words_of(line);
    if parts.len() < 2 {
        return None;
    }
    Some((parts[0].clone(), parts[1].clone()))
}

} // verus!

verus! {

/// Why the input of an invocation could not be taken from a request.
pub enum InputError {
    /// The headers give no body length.
    NoBodyLength,
    /// The headers do not end with a blank line.
    NoBodyIndex,
    /// The body the headers announce runs past the end of the request.
    BodyOutOfRange,
}

/// Byte offset of the body in a request text: just past its first blank line.
pub open spec fn body_offset(text: Seq<char>) -> Option<int> {
    match first_occurrence(encode_utf8(text), header_terminator()) {
        Some(i) => Some(i + 4),
        None => None,
    }
}

/// The body that the request text announces lies within the request bytes.
pub open spec fn body_within(buffer: Seq<u8>, text: Seq<char>) -> bool {
    match (content_length(text_lines(text)), body_offset(text)) {
        (Some(len), Some(idx)) => idx + len <= buffer.len(),
        _ => true,
    }
}

/// What taking the body of `buffer`, as its text `text` locates it, gives.
pub open spec fn input_result(r: Result<Vec<u8>, InputError>, buffer: Seq<u8>, text: Seq<char>) -> bool {
    match content_length(text_lines(text)) {
        None => r matches Err(InputError::NoBodyLength),
        Some(len) => match body_offset(text) {
            None => r matches Err(InputError::NoBodyIndex),
            Some(idx) => r matches Ok(v) && v@ == buffer.subrange(idx, idx + len),
        },
    }
}

/// The input of an invocation request in `buffer`: the body its headers
/// announce, or why it cannot be taken.
pub open spec fn input_outcome(buffer: Seq<u8>) -> Result<Seq<u8>, InputError> {
    let text = lossy_text(buffer);
    match content_length(text_lines(text)) {
        None => Err(InputError::NoBodyLength),
        Some(len) => match body_offset(text) {
            None => Err(InputError::NoBodyIndex),
            Some(idx) => if idx + len <= buffer.len() {
                Ok(buffer.subrange(idx, idx + len))
            } else {
                Err(InputError::BodyOutOfRange)
            },
        },
    }
}

/// The body of a request: as many bytes as its headers announce, from just
/// past the blank line that ends them; `text` is the request read as text.
pub fn input_from_text(buffer: &[u8], text: &str) -> (r: Result<Vec<u8>, InputError>)
    requires
        body_within(buffer@, text@),
    ensures
        input_result(r, buffer@, text@),
{
    let blen = buffer.len();
    let len = match get_body_len(text) {
        Some(len) => len,
        None => {
            return Err(InputError::NoBodyLength);
        },
    };
    match get_body_idx(text) {
        Some(idx) => {
            proof {
                lemma_first_occurrence_is(text.spec_bytes(), header_terminator(), idx - 4);
            }
            assert(idx + len <= blen);
            Ok(copy_range(buffer, idx, idx + len))
        },
        None => {
            proof {
                lemma_first_occurrence_none(text.spec_bytes(), header_terminator());
            }
            Err(InputError::NoBodyIndex)
        },
    }
}

/// The input of an invocation: the body of the request in `buffer`, located
/// by reading the request as text (invalid UTF-8 replaced).
pub fn get_input(buffer: &[u8]) -> (r: Result<Vec<u8>, InputError>)
    ensures
        body_within(buffer@, lossy_text(buffer@)) ==> input_result(r, buffer@, lossy_text(buffer@)),
        !body_within(buffer@, lossy_text(buffer@)) ==> r matches Err(InputError::BodyOutOfRange),
        match input_outcome(buffer@) {
            Ok(body) => r matches Ok(v) && v@ == body,
            Err(e) => r == Err::<Vec<u8>, InputError>(e),
        },
{
    let text = utf8_lossy(buffer);
    let t = text.as_str();
    match (get_body_len(t), get_body_idx(t)) {
        (Some(len), Some(idx)) => {
            proof {
                lemma_first_occurrence_is(t.spec_bytes(), header_terminator(), idx - 4);
            }
            if idx > buffer.len() || len > buffer.len() - idx {
                return Err(InputError::BodyOutOfRange);
            }
        },
        (_, Some(idx)) => {
            proof {
                lemma_first_occurrence_is(t.spec_bytes(), header_terminator(), idx - 4);
            }
        },
        (_, None) => {
            proof {
                lemma_first_occurrence_none(t.spec_bytes(), header_terminator());
            }
        },
    }
    input_from_text(buffer, t)
}

} // verus!

verus! {

proof fn lemma_digit_char(d: int)
    requires
        0 <= d < 10,
    ensures
        digit_char(d) as u8 == 48 + d,
        '\0' <= digit_char(d) <= '\u{7f}',
        digit_value(digit_char(d) as u8) == d,
        !is_white_space(digit_char(d)),
        digit_char(d) != ':',
        digit_char(d) != '\n',
{
}

proof fn lemma_decimal_digits(n: nat)
    ensures
        decimal(n).len() >= 1,
        is_ascii_chars(decimal(n)),
        forall|i: int|
            0 <= i < decimal(n).len() ==> {
                &&& digit_value(#[trigger] decimal(n)[i] as u8) < 10
                &&& decimal(n)[i] as u8 != 43
                &&& !is_white_space(decimal(n)[i])
                &&& decimal(n)[i] != ':'
                &&& decimal(n)[i] != '\n'
            },
        digits_value(decimal(n).map_values(|c: char| c as u8), 10) == n,
    decreases n,
{
    let t = decimal(n);
    let b = t.map_values(|c: char| c as u8);
    if n < 10 {
        lemma_digit_char(n as int);
        assert(b.drop_last() =~= Seq::<u8>::empty());
        assert(b.last() == digit_char(n as int) as u8);
        assert(digits_value(b.drop_last(), 10) == 0);
        assert(digits_value(b, 10) == digits_value(b.drop_last(), 10) * 10 + digit_value(b.last()));
    } else {
        lemma_decimal_digits(n / 10);
        lemma_digit_char((n % 10) as int);
        let s = decimal(n / 10);
        assert forall|i: int| 0 <= i < t.len() implies {
            &&& digit_value(#[trigger] t[i] as u8) < 10
            &&& t[i] as u8 != 43
            &&& !is_white_space(t[i])
            &&& t[i] != ':'
            &&& t[i] != '\n'
        } by {
            if i < s.len() {
                assert(t[i] == s[i]);
            }
        }
        assert(is_ascii_chars(t)) by {
            assert forall|i: int| 0 <= i < t.len() implies '\0' <= #[trigger] t[i] <= '\u{7f}' by {
                if i < s.len() {
                    assert(t[i] == s[i]);
                }
            }
        }
        assert(b.drop_last() =~= s.map_values(|c: char| c as u8));
        assert(b.last() == digit_char((n % 10) as int) as u8);
        assert(n == (n / 10) * 10 + n % 10) by (nonlinear_arith);
        assert(digits_value(b, 10) == digits_value(b.drop_last(), 10) * 10 + digit_value(b.last()));
    }
}

/// The length line of a response names the body's length in bytes.
proof fn lemma_length_line(n: nat)
    requires
        n <= usize::MAX,
    ensures
        is_length_line("Content-Length: "@ + decimal(n)),
        length_value("Content-Length: "@ + decimal(n)) == Some(n as int),
{
    reveal_strlit("Content-Length: ");
    reveal_strlit("Content-Length");
    let d = decimal(n);
    let line = "Content-Length: "@ + d;
    lemma_decimal_digits(n);
    let name = "Content-Length"@;
    let rest = seq![' '] + d;
    assert(line =~= name + seq![':'] + rest);
    lemma_split_on_front(name, ':', rest);
    lemma_split_on_absent(rest, ':');
    assert(name.is_prefix_of(line)) by {
        assert(line.subrange(0, name.len() as int) =~= name);
    }
    assert(split_on(line, ':') =~= seq![name, rest]);
    assert(is_white_space(' '));
    assert(rest.drop_first() =~= d);
    assert(trim_start(d) == d) by {
        assert(!is_white_space(d[0]));
    }
    assert(trim_start(rest) == d);
    assert(trim_end(d) == d) by {
        assert(!is_white_space(d[d.len() - 1]));
    }
    assert(trim(rest) == d);
    is_ascii_chars_encode_utf8(d);
    assert(encode_utf8(d) =~= d.map_values(|c: char| c as u8));
    let bytes = encode_utf8(d);
    assert(unsigned_digits(bytes) == bytes) by {
        assert(bytes[0] == d[0] as u8);
    }
    assert(all_digits(bytes, 10)) by {
        assert forall|i: int| 0 <= i < bytes.len() implies digit_value(bytes[i]) < 10 by {
            assert(bytes[i] == d[i] as u8);
        }
    }
}

/// A status line is no length line and holds no line break.
proof fn lemma_status_line(status: StatusCode)
    ensures
        !is_length_line(status_line(status)),
        forall|i: int| 0 <= i < status_line(status).len() ==> status_line(status)[i] != '\n',
{
    reveal_strlit("Content-Length");
    reveal_strlit("HTTP/1.1 200 Ok");
    reveal_strlit("HTTP/1.1 404 Not Found");
    reveal_strlit("HTTP/1.1 500 Internal Server Error");
    reveal_strlit("HTTP/1.1 401 Unauthorized");
    reveal_strlit("HTTP/1.1 400 Bad Request");
    let l = status_line(status);
    assert(l[0] == 'H');
    if "Content-Length"@.is_prefix_of(l) {
        assert(l.subrange(0, 14)[0] == l[0]);
    }
}

/// The server reads back, from every response it writes, the length of the
/// body in bytes: the first length line of a response's header section is
/// the one `Response::json` writes.
pub proof fn lemma_response_length_read_back(status: StatusCode, body: Seq<char>)
    requires
        encode_utf8(body).len() <= usize::MAX,
    ensures
        content_length(text_lines(response_text(status, body))) == Some(encode_utf8(body).len() as int),
{
    reveal_strlit("\r\nContent-Length: ");
    reveal_strlit("Content-Length: ");
    reveal_strlit("\r\nContent-Type: application/json\r\n\r\n");
    reveal_strlit("Content-Type: application/json\r\n\r\n");
    let n = encode_utf8(body).len();
    let d = decimal(n);
    lemma_decimal_digits(n);
    lemma_status_line(status);
    let a = status_line(status) + seq!['\r'];
    let b = "Content-Length: "@ + d + seq!['\r'];
    let rest = "Content-Type: application/json\r\n\r\n"@ + body;
    let text = response_text(status, body);
    assert(text =~= a + seq!['\n'] + (b + seq!['\n'] + rest));
    assert forall|i: int| 0 <= i < a.len() implies a[i] != '\n' by {
        if i < status_line(status).len() {
            assert(a[i] == status_line(status)[i]);
        }
    }
    assert forall|i: int| 0 <= i < b.len() implies b[i] != '\n' by {
        if i >= 16 && i < 16 + d.len() {
            assert(b[i] == d[i - 16]);
        }
    }
    lemma_split_on_front(a, '\n', b + seq!['\n'] + rest);
    lemma_split_on_front(b, '\n', rest);
    lemma_split_on_nonempty(rest, '\n');
    let p = split_on(text, '\n');
    assert(p =~= seq![a, b] + split_on(rest, '\n'));
    let lines = text_lines(text);
    assert(lines.len() >= 2);
    assert(strip_cr(a) =~= status_line(status));
    assert(strip_cr(b) =~= "Content-Length: "@ + d);
    assert(lines[0] == strip_cr(p[0]));
    assert(lines[1] == strip_cr(p[1]));
    lemma_length_line(n);
    assert(lines[0] == status_line(status));
    assert(lines[1] == "Content-Length: "@ + d);
    assert(!is_length_line(lines[0]));
    assert(content_length(lines) == content_length(lines.drop_first()));
    assert(lines.drop_first()[0] == lines[1]);
    assert(is_length_line(lines.drop_first()[0]));
    assert(content_length(lines.drop_first()) == length_value(lines[1]));
}

} // verus!

verus! {

proof fn lemma_encode_concat(a: Seq<char>, b: Seq<char>)
    ensures
        encode_utf8(a + b) == encode_utf8(a) + encode_utf8(b),
    decreases a.len(),
{
    if a.len() == 0 {
        assert(a + b =~= b);
        assert(encode_utf8(a) + encode_utf8(b) =~= encode_utf8(b));
    } else {
        lemma_encode_concat(a.drop_first(), b);
        assert((a + b).drop_first() =~= a.drop_first() + b);
        assert((a + b)[0] == a[0]);
        assert(encode_utf8(a + b) =~= encode_utf8(a) + encode_utf8(b));
    }
}

/// The header section a response writes before its body.
pub open spec fn response_head(status: StatusCode, body: Seq<char>) -> Seq<char> {
    status_line(status) + "\r\nContent-Length: "@ + decimal(encode_utf8(body).len())
        + "\r\nContent-Type: application/json\r\n\r\n"@
}

/// The header section of a response is ASCII, and its only blank line is
/// the one that ends it.
proof fn lemma_response_head(status: StatusCode, body: Seq<char>)
    ensures
        is_ascii_chars(response_head(status, body)),
        response_head(status, body).len() >= 4,
        forall|j: int|
            0 <= j < response_head(status, body).len() - 4 ==> !(#[trigger] response_head(status, body)[j] == '\r'
                && response_head(status, body)[j + 1] == '\n' && response_head(status, body)[j + 2] == '\r'),
        response_head(status, body).subrange(
            response_head(status, body).len() - 4,
            response_head(status, body).len() as int,
        ) == seq!['\r', '\n', '\r', '\n'],
{
    reveal_strlit("\r\nContent-Length: ");
    reveal_strlit("\r\nContent-Type: application/json\r\n\r\n");
    reveal_strlit("HTTP/1.1 200 Ok");
    reveal_strlit("HTTP/1.1 404 Not Found");
    reveal_strlit("HTTP/1.1 500 Internal Server Error");
    reveal_strlit("HTTP/1.1 401 Unauthorized");
    reveal_strlit("HTTP/1.1 400 Bad Request");
    let st = status_line(status);
    let l1 = "\r\nContent-Length: "@;
    let d = decimal(encode_utf8(body).len());
    let l2 = "\r\nContent-Type: application/json\r\n\r\n"@;
    let h = response_head(status, body);
    lemma_decimal_digits(encode_utf8(body).len());
    assert(h =~= st + l1 + d + l2);
    let a = st.len() as int;
    let b = a + l1.len();
    let c = b + d.len();
    assert forall|i: int| 0 <= i < h.len() implies '\0' <= #[trigger] h[i] <= '\u{7f}' by {
        if i < a {
            assert(h[i] == st[i]);
        } else if i < b {
            assert(h[i] == l1[i - a]);
        } else if i < c {
            assert(h[i] == d[i - b]);
        } else {
            assert(h[i] == l2[i - c]);
        }
    }
    assert forall|j: int| 0 <= j < h.len() - 4 implies !(#[trigger] h[j] == '\r' && h[j + 1] == '\n' && h[j + 2]
        == '\r') by {
        if j < a {
            assert(h[j] == st[j]);
        } else if j < b {
            assert(h[j] == l1[j - a]);
            if j == a {
                assert(h[j + 2] == l1[2]);
            }
        } else if j < c {
            assert(h[j] == d[j - b]);
        } else {
            assert(h[j] == l2[j - c]);
            if j == c {
                assert(h[j + 2] == l2[2]);
            }
        }
    }
    assert(h.subrange(h.len() - 4, h.len() as int) =~= seq!['\r', '\n', '\r', '\n']) by {
        assert(h[h.len() - 4] == l2[32]);
        assert(h[h.len() - 3] == l2[33]);
        assert(h[h.len() - 2] == l2[34]);
        assert(h[h.len() - 1] == l2[35]);
    }
}

/// The server reads back, from every response it writes, exactly the body:
/// the response starts with its status line; the header section ends where
/// the body's bytes begin (what `get_body_idx` finds), and the declared
/// length (what `get_body_len` finds) is the number of bytes after it; and
/// taking the input of the response's bytes, located by its text, gives the
/// bytes of the body.
pub proof fn lemma_response_body_read_back(status: StatusCode, body: Seq<char>)
    requires
        encode_utf8(body).len() <= usize::MAX,
    ensures
        response_text(status, body).take(status_line(status).len() as int) == status_line(status),
        is_first_occurrence(
            encode_utf8(response_text(status, body)),
            header_terminator(),
            encode_utf8(response_text(status, body)).len() - encode_utf8(body).len() - 4,
        ),
        content_length(text_lines(response_text(status, body))) == Some(
            encode_utf8(response_text(status, body)).len() - (encode_utf8(response_text(status, body)).len()
                - encode_utf8(body).len()),
        ),
        body_within(encode_utf8(response_text(status, body)), response_text(status, body)),
        forall|v: Vec<u8>|
            #![trigger v@]
            input_result(Ok(v), encode_utf8(response_text(status, body)), response_text(status, body)) <==> v@
                == encode_utf8(body),
{
    let t = response_text(status, body);
    let h = response_head(status, body);
    assert(t =~= h + body);
    lemma_response_length_read_back(status, body);
    lemma_response_head(status, body);
    lemma_encode_concat(h, body);
    is_ascii_chars_encode_utf8(h);
    let hb = encode_utf8(h);
    let buf = encode_utf8(t);
    assert(buf == hb + encode_utf8(body));
    let k = h.len() - 4;
    assert(occurs_at(buf, header_terminator(), k)) by {
        assert(buf.subrange(k, k + 4) =~= header_terminator()) by {
            assert forall|i: int| 0 <= i < 4 implies buf[k + i] == header_terminator()[i] by {
                assert(buf[k + i] == hb[k + i]);
                assert(hb[k + i] == h[k + i] as u8);
                assert(h.subrange(h.len() - 4, h.len() as int)[i] == h[k + i]);
            }
        }
    }
    assert forall|j: int| 0 <= j < k implies !occurs_at(buf, header_terminator(), j) by {
        if occurs_at(buf, header_terminator(), j) {
            assert(buf.subrange(j, j + 4)[0] == buf[j]);
            assert(buf.subrange(j, j + 4)[1] == buf[j + 1]);
            assert(buf.subrange(j, j + 4)[2] == buf[j + 2]);
            assert(buf[j] == hb[j] && hb[j] == h[j] as u8);
            assert(buf[j + 1] == hb[j + 1] && hb[j + 1] == h[j + 1] as u8);
            assert(buf[j + 2] == hb[j + 2] && hb[j + 2] == h[j + 2] as u8);
            assert(h[j] == '\r' && h[j + 1] == '\n' && h[j + 2] == '\r');
        }
    }
    lemma_first_occurrence_is(buf, header_terminator(), k);
    assert(buf.len() == h.len() + encode_utf8(body).len());
    assert(body_offset(t) == Some(h.len() as int));
    assert(t.take(status_line(status).len() as int) =~= status_line(status));
    assert(buf.subrange(h.len() as int, h.len() + encode_utf8(body).len() as int) =~= encode_utf8(body));
}

} // verus!
