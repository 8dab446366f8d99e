//! Byte and text primitives that the request parsers are built from,
//! with their meaning stated over `Seq<u8>` and `Seq<char>`.
use vstd::prelude::*;
use vstd::string::StringSliceAdditionalSpecFns;
use vstd::utf8::{decode_utf8, valid_utf8};

verus! {

// ---------------------------------------------------------------------------
// Searching bytes
// ---------------------------------------------------------------------------

/// `needle` occurs in `hay` starting at offset `i`.
pub open spec fn occurs_at(hay: Seq<u8>, needle: Seq<u8>, i: int) -> bool {
    &&& 0 <= i
    &&& i + needle.len() <= hay.len()
    &&& hay.subrange(i, i + needle.len()) == needle
}

/// `i` is the first offset at which `needle` occurs in `hay`.
pub open spec fn is_first_occurrence(hay: Seq<u8>, needle: Seq<u8>, i: int) -> bool {
    &&& occurs_at(hay, needle, i)
    &&& forall|j: int| 0 <= j < i ==> !occurs_at(hay, needle, j)
}

/// `needle` occurs nowhere in `hay`.
pub open spec fn never_occurs(hay: Seq<u8>, needle: Seq<u8>) -> bool {
    forall|j: int| !occurs_at(hay, needle, j)
}

/// The blank line that ends the header section of an HTTP request.
pub open spec fn header_terminator() -> Seq<u8> {
    seq![13u8, 10u8, 13u8, 10u8]
}

/// A line break of the chunked transfer coding.
pub open spec fn crlf() -> Seq<u8> {
    seq![13u8, 10u8]
}

/// Whether `hay` holds `needle` at offset `i`.
fn matches_at(hay: &[u8], needle: &[u8], i: usize) -> (b: bool)
    requires
        i + needle@.len() <= hay@.len(),
    ensures
        b == occurs_at(hay@, needle@, i as int),
{
    let n = needle.len();
    let hl = hay.len();
    let mut k: usize = 0;
    while k < n
        invariant
            n == needle@.len(),
            hl == hay@.len(),
            i + n <= hay@.len(),
            k <= n,
            forall|m: int| 0 <= m < k ==> hay@[i + m] == needle@[m],
        decreases n - k,
    {
        if hay[i + k] != needle[k] {
            assert(hay@.subrange(i as int, i + n)[k as int] != needle@[k as int]);
            return false;
        }
        k = k + 1;
    }
    assert(hay@.subrange(i as int, i + n) =~= needle@);
    true
}

/// The first offset at which `needle` occurs in `hay`.
pub fn find_bytes(hay: &[u8], needle: &[u8]) -> (r: Option<usize>)
    requires
        needle@.len() > 0,
    ensures
        r matches Some(i) ==> is_first_occurrence(hay@, needle@, i as int),
        r is None ==> never_occurs(hay@, needle@),
{
    let n = needle.len();
    if hay.len() < n {
        return None;
    }
    let last = hay.len() - n;
    let mut i: usize = 0;
    while i <= last
        invariant
            n == needle@.len(),
            n > 0,
            last + n == hay@.len(),
            hay@.len() <= usize::MAX,
            i <= last + 1,
            forall|j: int| 0 <= j < i ==> !occurs_at(hay@, needle@, j),
        decreases last + 1 - i,
    {
        if matches_at(hay, needle, i) {
            return Some(i);
        }
        i = i + 1;
    }
    None
}

/// The first offset at which `needle` occurs, if it occurs at all.
pub open spec fn first_occurrence(hay: Seq<u8>, needle: Seq<u8>) -> Option<int> {
    if exists|i: int| is_first_occurrence(hay, needle, i) {
        Some(choose|i: int| is_first_occurrence(hay, needle, i))
    } else {
        None
    }
}

/// What `first_occurrence` finds is an occurrence.
pub proof fn lemma_first_occurrence_occurs(hay: Seq<u8>, needle: Seq<u8>)
    ensures
        first_occurrence(hay, needle) matches Some(i) ==> is_first_occurrence(hay, needle, i),
{
}

/// A first occurrence is the one `first_occurrence` names.
pub proof fn lemma_first_occurrence_is(hay: Seq<u8>, needle: Seq<u8>, i: int)
    requires
        is_first_occurrence(hay, needle, i),
    ensures
        first_occurrence(hay, needle) == Some(i),
{
    let c = choose|j: int| is_first_occurrence(hay, needle, j);
    assert(is_first_occurrence(hay, needle, c));
    if c < i {
        assert(!occurs_at(hay, needle, c));
    } else if i < c {
        assert(!occurs_at(hay, needle, i));
    }
}

/// Where `needle` never occurs, `first_occurrence` finds nothing.
pub proof fn lemma_first_occurrence_none(hay: Seq<u8>, needle: Seq<u8>)
    requires
        never_occurs(hay, needle),
    ensures
        first_occurrence(hay, needle) is None,
{
    if exists|i: int| is_first_occurrence(hay, needle, i) {
        let c = choose|j: int| is_first_occurrence(hay, needle, j);
        assert(occurs_at(hay, needle, c));
    }
}

/// A copy of `src[from..to]`.
pub fn copy_range(src: &[u8], from: usize, to: usize) -> (v: Vec<u8>)
    requires
        from <= to <= src@.len(),
    ensures
        v@ == src@.subrange(from as int, to as int),
{
    let mut v: Vec<u8> = Vec::new();
    append_range(&mut v, src, from, to);
    assert(v@ =~= src@.subrange(from as int, to as int));
    v
}

/// Appends `src[from..to]` to `dst`.
pub fn append_range(dst: &mut Vec<u8>, src: &[u8], from: usize, to: usize)
    requires
        from <= to <= src@.len(),
    ensures
        final(dst)@ == old(dst)@ + src@.subrange(from as int, to as int),
{
    let mut k = from;
    while k < to
        invariant
            from <= k <= to <= src@.len(),
            dst@ == old(dst)@ + src@.subrange(from as int, k as int),
        decreases to - k,
    {
        dst.push(src[k]);
        k = k + 1;
        assert(dst@ =~= old(dst)@ + src@.subrange(from as int, k as int));
    }
}

// ---------------------------------------------------------------------------
// Trusted conversions between bytes and text
// ---------------------------------------------------------------------------

/// What `String::from_utf8_lossy` yields for `bytes`: their UTF-8 decoding,
/// with each invalid sequence replaced by U+FFFD.
pub uninterp spec fn lossy_text(bytes: Seq<u8>) -> Seq<char>;

/// Calls `String::from_utf8_lossy` and takes the text it returns.
/// Claimed: the text is `lossy_text` of the bytes, and where the bytes are
/// valid UTF-8 it is their decoding, unchanged (as std documents).
/// How invalid sequences are replaced is left to the name.
#[verifier::external_body]
pub(crate) fn utf8_lossy(bytes: &[u8]) -> (s: String)
    ensures
        s@ == lossy_text(bytes@),
        valid_utf8(bytes@) ==> s@ == decode_utf8(bytes@),
{
    String::from_utf8_lossy(bytes).into_owned()
}

/// Calls `std::str::from_utf8`.
/// Claimed: it succeeds exactly on valid UTF-8 and the text it returns
/// has the given bytes as its encoding.
#[verifier::external_body]
pub(crate) fn utf8_str(bytes: &[u8]) -> (r: Option<&str>)
    ensures
        r is Some <==> valid_utf8(bytes@),
        r matches Some(s) ==> s.spec_bytes() == bytes@,
{
    std::str::from_utf8(bytes).ok()
}

// ---------------------------------------------------------------------------
// Splitting text
// ---------------------------------------------------------------------------

/// The pieces of `s` between occurrences of `c`, as `str::split` yields them:
/// there is always one piece more than there are occurrences.
pub open spec fn split_on(s: Seq<char>, c: char) -> Seq<Seq<char>>
    decreases s.len(),
{
    if s.len() == 0 {
        seq![Seq::empty()]
    } else {
        let p = split_on(s.drop_last(), c);
        if s.last() == c {
            p.push(Seq::empty())
        } else {
            p.update(p.len() - 1, p.last().push(s.last()))
        }
    }
}

/// A text without `c` is one piece.
pub proof fn lemma_split_on_absent(s: Seq<char>, c: char)
    requires
        forall|i: int| 0 <= i < s.len() ==> s[i] != c,
    ensures
        split_on(s, c) == seq![s],
    decreases s.len(),
{
    if s.len() > 0 {
        lemma_split_on_absent(s.drop_last(), c);
        assert(s[s.len() - 1] != c);
        assert(s.drop_last().push(s.last()) =~= s);
        assert(split_on(s, c) =~= seq![s]);
    } else {
        assert(s =~= Seq::<char>::empty());
    }
}

/// Splitting at `c` a text that starts with a piece `a` holding no `c`,
/// then `c`, gives `a` followed by the pieces of the rest.
pub proof fn lemma_split_on_front(a: Seq<char>, c: char, b: Seq<char>)
    requires
        forall|i: int| 0 <= i < a.len() ==> a[i] != c,
    ensures
        split_on(a + seq![c] + b, c) == seq![a] + split_on(b, c),
    decreases b.len(),
{
    let s = a + seq![c] + b;
    if b.len() == 0 {
        lemma_split_on_absent(a, c);
        assert(s.drop_last() =~= a);
        assert(s.last() == c);
        assert(split_on(s, c) =~= seq![a, Seq::<char>::empty()]);
        assert(seq![a] + split_on(b, c) =~= seq![a, Seq::<char>::empty()]);
    } else {
        lemma_split_on_front(a, c, b.drop_last());
        assert(s.drop_last() =~= a + seq![c] + b.drop_last());
        assert(s.last() == b.last());
        lemma_split_on_nonempty(b.drop_last(), c);
        let q = split_on(b.drop_last(), c);
        let p = seq![a] + q;
        if b.last() == c {
            assert(p.push(Seq::<char>::empty()) =~= seq![a] + q.push(Seq::<char>::empty()));
        } else {
            assert(p.update(p.len() - 1, p.last().push(b.last())) =~= seq![a] + q.update(
                q.len() - 1,
                q.last().push(b.last()),
            ));
        }
    }
}

/// A split always has at least one piece.
pub proof fn lemma_split_on_nonempty(s: Seq<char>, c: char)
    ensures
        split_on(s, c).len() >= 1,
    decreases s.len(),
{
    if s.len() > 0 {
        lemma_split_on_nonempty(s.drop_last(), c);
    }
}

/// `t` without one trailing carriage return.
pub open spec fn strip_cr(t: Seq<char>) -> Seq<char> {
    if t.len() > 0 && t.last() == '\r' {
        t.drop_last()
    } else {
        t
    }
}

/// The lines of `s` as `str::lines` yields them: split at `\n`, a `\r` before
/// each `\n` removed, and no empty line after a final `\n`.
pub open spec fn text_lines(s: Seq<char>) -> Seq<Seq<char>> {
    let p = split_on(s, '\n');
    let ended = p.drop_last().map_values(|t: Seq<char>| strip_cr(t));
    if p.last().len() == 0 {
        ended
    } else {
        ended.push(p.last())
    }
}

/// Views of a vector of strings.
pub open spec fn string_views(v: Seq<String>) -> Seq<Seq<char>> {
    v.map_values(|x: String| x@)
}

/// Unfolds `split_on` by one character at position `i`.
proof fn lemma_split_on_step(s: Seq<char>, c: char, i: int)
    requires
        0 <= i < s.len(),
    ensures
        split_on(s.take(i + 1), c) == ({
            let p = split_on(s.take(i), c);
            if s[i] == c {
                p.push(Seq::empty())
            } else {
                p.update(p.len() - 1, p.last().push(s[i]))
            }
        }),
{
    assert(s.take(i + 1).drop_last() =~= s.take(i));
}

/// The pieces of `s` between occurrences of `c`.
pub fn split_str(s: &str, c: char) -> (r: Vec<String>)
    ensures
        string_views(r@) == split_on(s@, c),
{
    let n = s.unicode_len();
    let mut pieces: Vec<String> = Vec::new();
    let mut start: usize = 0;
    let mut i: usize = 0;
    assert(s@.take(0) =~= Seq::<char>::empty());
    assert(string_views(pieces@).push(s@.subrange(0, 0)) =~= split_on(s@.take(0), c));
    while i < n
        invariant
            n == s@.len(),
            start <= i <= n,
            string_views(pieces@).push(s@.subrange(start as int, i as int)) == split_on(
                s@.take(i as int),
                c,
            ),
        decreases n - i,
    {
        let ch = s.get_char(i);
        proof {
            lemma_split_on_step(s@, c, i as int);
            lemma_split_on_nonempty(s@.take(i as int), c);
        }
        let ghost old_views = string_views(pieces@);
        if ch == c {
            let piece = s.substring_char(start, i).to_owned();
            pieces.push(piece);
            assert(string_views(pieces@) =~= old_views.push(s@.subrange(start as int, i as int)));
            start = i + 1;
            assert(s@.subrange(start as int, (i + 1) as int) =~= Seq::<char>::empty());
            assert(string_views(pieces@).push(s@.subrange(start as int, (i + 1) as int)) =~= split_on(
                s@.take(i + 1),
                c,
            ));
        } else {
            assert(s@.subrange(start as int, (i + 1) as int) =~= s@.subrange(start as int, i as int).push(s@[i as int]));
            assert(string_views(pieces@).push(s@.subrange(start as int, (i + 1) as int)) =~= split_on(
                s@.take(i + 1),
                c,
            ));
        }
        i = i + 1;
    }
    let last = s.substring_char(start, n).to_owned();
    pieces.push(last);
    assert(s@.take(n as int) =~= s@);
    assert(string_views(pieces@) =~= split_on(s@, c));
    pieces
}

/// The last piece of `s` after splitting at `c`.
pub fn last_piece(s: &str, c: char) -> (r: String)
    ensures
        r@ == split_on(s@, c).last(),
{
    let n = s.unicode_len();
    let mut start: usize = 0;
    let mut i: usize = 0;
    assert(s@.take(0) =~= Seq::<char>::empty());
    while i < n
        invariant
            n == s@.len(),
            start <= i <= n,
            split_on(s@.take(i as int), c).len() >= 1,
            split_on(s@.take(i as int), c).last() == s@.subrange(start as int, i as int),
        decreases n - i,
    {
        let ch = s.get_char(i);
        proof {
            lemma_split_on_step(s@, c, i as int);
        }
        if ch == c {
            start = i + 1;
            assert(s@.subrange(start as int, (i + 1) as int) =~= Seq::<char>::empty());
        } else {
            assert(s@.subrange(start as int, (i + 1) as int) =~= s@.subrange(start as int, i as int).push(
                s@[i as int],
            ));
        }
        i = i + 1;
    }
    assert(s@.take(n as int) =~= s@);
    proof {
        lemma_split_on_nonempty(s@, c);
    }
    s.substring_char(start, n).to_owned()
}

/// The lines of `s`.
pub fn lines_of(s: &str) -> (r: Vec<String>)
    ensures
        string_views(r@) == text_lines(s@),
{
    let pieces = split_str(s, '\n');
    proof {
        lemma_split_on_nonempty(s@, '\n');
    }
    let count = pieces.len();
    let mut lines: Vec<String> = Vec::new();
    let mut k: usize = 0;
    while k + 1 < count
        invariant
            count == pieces@.len(),
            count >= 1,
            k + 1 <= count,
            string_views(pieces@) == split_on(s@, '\n'),
            string_views(lines@) == split_on(s@, '\n').take(k as int).map_values(
                |t: Seq<char>| strip_cr(t),
            ),
        decreases count - k,
    {
        let piece = pieces[k].as_str();
        let plen = piece.unicode_len();
        let line = if plen > 0 && piece.get_char(plen - 1) == '\r' {
            piece.substring_char(0, plen - 1).to_owned()
        } else {
            piece.to_owned()
        };
        assert(piece@ == split_on(s@, '\n')[k as int]);
        assert(line@ == strip_cr(split_on(s@, '\n')[k as int]));
        let ghost old_lines = string_views(lines@);
        lines.push(line);
        assert(string_views(lines@) =~= old_lines.push(line@));
        assert(split_on(s@, '\n').take(k + 1) =~= split_on(s@, '\n').take(k as int).push(split_on(s@, '\n')[k as int]));
        k = k + 1;
        assert(string_views(lines@) =~= split_on(s@, '\n').take(k as int).map_values(
            |t: Seq<char>| strip_cr(t),
        ));
    }
    let last = pieces[count - 1].as_str();
    assert(split_on(s@, '\n').drop_last() =~= split_on(s@, '\n').take(k as int));
    if last.unicode_len() > 0 {
        lines.push(last.to_owned());
        assert(string_views(lines@) =~= text_lines(s@));
    } else {
        assert(string_views(lines@) =~= text_lines(s@));
    }
    lines
}

// ---------------------------------------------------------------------------
// Whitespace
// ---------------------------------------------------------------------------

/// `c` has the Unicode White_Space property, which `char::is_whitespace` tests.
pub open spec fn is_white_space(c: char) -> bool {
    let u = c as u32;
    ||| 0x9 <= u <= 0xd
    ||| u == 0x20
    ||| u == 0x85
    ||| u == 0xa0
    ||| u == 0x1680
    ||| 0x2000 <= u <= 0x200a
    ||| u == 0x2028
    ||| u == 0x2029
    ||| u == 0x202f
    ||| u == 0x205f
    ||| u == 0x3000
}

/// Whether `c` is white space.
pub fn is_white_space_char(c: char) -> (b: bool)
    ensures
        b == is_white_space(c),
{
    let u = c as u32;
    (0x9 <= u && u <= 0xd) || u == 0x20 || u == 0x85 || u == 0xa0 || u == 0x1680 || (0x2000 <= u
        && u <= 0x200a) || u == 0x2028 || u == 0x2029 || u == 0x202f || u == 0x205f || u == 0x3000
}

/// `s` without its leading white space.
pub open spec fn trim_start(s: Seq<char>) -> Seq<char>
    decreases s.len(),
{
    if s.len() > 0 && is_white_space(s[0]) {
        trim_start(s.drop_first())
    } else {
        s
    }
}

/// `s` without its trailing white space.
pub open spec fn trim_end(s: Seq<char>) -> Seq<char>
    decreases s.len(),
{
    if s.len() > 0 && is_white_space(s.last()) {
        trim_end(s.drop_last())
    } else {
        s
    }
}

/// `s` without leading and trailing white space, as `str::trim` gives it.
pub open spec fn trim(s: Seq<char>) -> Seq<char> {
    trim_end(trim_start(s))
}

/// `s` without leading and trailing white space.
pub fn trim_str(s: &str) -> (r: &str)
    ensures
        r@ == trim(s@),
{
    let n = s.unicode_len();
    let mut i: usize = 0;
    assert(s@.subrange(0, n as int) =~= s@);
    while i < n && is_white_space_char(s.get_char(i))
        invariant
            n == s@.len(),
            i <= n,
            trim_start(s@) == trim_start(s@.subrange(i as int, n as int)),
        decreases n - i,
    {
        assert(s@.subrange(i as int, n as int).drop_first() =~= s@.subrange(i + 1, n as int));
        i = i + 1;
    }
    if i < n {
        assert(!is_white_space(s@.subrange(i as int, n as int)[0]));
    } else {
        assert(s@.subrange(i as int, n as int) =~= Seq::<char>::empty());
    }
    let mut j: usize = n;
    while j > i && is_white_space_char(s.get_char(j - 1))
        invariant
            n == s@.len(),
            i <= j <= n,
            trim_start(s@) == s@.subrange(i as int, n as int),
            trim(s@) == trim_end(s@.subrange(i as int, j as int)),
        decreases j - i,
    {
        assert(s@.subrange(i as int, j as int).drop_last() =~= s@.subrange(i as int, j - 1));
        j = j - 1;
    }
    if j > i {
        assert(!is_white_space(s@.subrange(i as int, j as int).last()));
    } else {
        assert(s@.subrange(i as int, j as int) =~= Seq::<char>::empty());
    }
    s.substring_char(i, j)
}

/// The pieces of `s` between white space characters, empty ones included.
pub open spec fn split_ws(s: Seq<char>) -> Seq<Seq<char>>
    decreases s.len(),
{
    if s.len() == 0 {
        seq![Seq::empty()]
    } else {
        let p = split_ws(s.drop_last());
        if is_white_space(s.last()) {
            p.push(Seq::empty())
        } else {
            p.update(p.len() - 1, p.last().push(s.last()))
        }
    }
}

/// The non-empty pieces, in order.
pub open spec fn nonempty_pieces(p: Seq<Seq<char>>) -> Seq<Seq<char>>
    decreases p.len(),
{
    if p.len() == 0 {
        seq![]
    } else {
        let r = nonempty_pieces(p.drop_last());
        if p.last().len() > 0 {
            r.push(p.last())
        } else {
            r
        }
    }
}

/// The words of `s`, as `str::split_whitespace` yields them.
pub open spec fn words(s: Seq<char>) -> Seq<Seq<char>> {
    nonempty_pieces(split_ws(s))
}

proof fn lemma_split_ws_nonempty(s: Seq<char>)
    ensures
        split_ws(s).len() >= 1,
    decreases s.len(),
{
    if s.len() > 0 {
        lemma_split_ws_nonempty(s.drop_last());
    }
}

/// The words of `s`.
pub fn words_of(s: &str) -> (r: Vec<String>)
    ensures
        string_views(r@) == words(s@),
{
    let n = s.unicode_len();
    let mut found: Vec<String> = Vec::new();
    let mut start: usize = 0;
    let mut i: usize = 0;
    let ghost mut before: Seq<Seq<char>> = Seq::empty();
    assert(s@.take(0) =~= Seq::<char>::empty());
    assert(split_ws(s@.take(0)) =~= before.push(s@.subrange(0, 0)));
    while i < n
        invariant
            n == s@.len(),
            start <= i <= n,
            split_ws(s@.take(i as int)) == before.push(s@.subrange(start as int, i as int)),
            string_views(found@) == nonempty_pieces(before),
        decreases n - i,
    {
        let ch = s.get_char(i);
        assert(s@.take(i + 1).drop_last() =~= s@.take(i as int));
        proof {
            lemma_split_ws_nonempty(s@.take(i as int));
        }
        if is_white_space_char(ch) {
            let ghost piece = s@.subrange(start as int, i as int);
            if start < i {
                let w = s.substring_char(start, i).to_owned();
                let ghost old_found = string_views(found@);
                found.push(w);
                assert(string_views(found@) =~= old_found.push(piece));
            }
            assert(before.push(piece).drop_last() =~= before);
            proof {
                before = before.push(piece);
            }
            start = i + 1;
            assert(s@.subrange(start as int, (i + 1) as int) =~= Seq::<char>::empty());
            assert(split_ws(s@.take(i + 1)) =~= before.push(s@.subrange(start as int, (i + 1) as int)));
        } else {
            assert(s@.subrange(start as int, (i + 1) as int) =~= s@.subrange(start as int, i as int).push(
                s@[i as int],
            ));
            assert(split_ws(s@.take(i + 1)) =~= before.push(s@.subrange(start as int, (i + 1) as int)));
        }
        i = i + 1;
    }
    assert(s@.take(n as int) =~= s@);
    let ghost piece = s@.subrange(start as int, n as int);
    assert(before.push(piece).drop_last() =~= before);
    if start < n {
        let w = s.substring_char(start, n).to_owned();
        let ghost old_found = string_views(found@);
        found.push(w);
        assert(string_views(found@) =~= old_found.push(piece));
    }
    found
}

/// Whether `s` starts with `prefix`.
pub fn starts_with_str(s: &str, prefix: &str) -> (b: bool)
    ensures
        b == prefix@.is_prefix_of(s@),
{
    let n = s.unicode_len();
    let m = prefix.unicode_len();
    if m > n {
        return false;
    }
    let mut i: usize = 0;
    while i < m
        invariant
            n == s@.len(),
            m == prefix@.len(),
            m <= n,
            i <= m,
            forall|k: int| 0 <= k < i ==> s@[k] == prefix@[k],
        decreases m - i,
    {
        if s.get_char(i) != prefix.get_char(i) {
            assert(prefix@ != s@.subrange(0, m as int)) by {
                assert(s@.subrange(0, m as int)[i as int] != prefix@[i as int]);
            }
            return false;
        }
        i = i + 1;
    }
    assert(prefix@ =~= s@.subrange(0, m as int));
    true
}

/// Whether two texts are the same.
pub fn same_text(a: &str, b: &str) -> (r: bool)
    ensures
        r == (a@ == b@),
{
    if a.unicode_len() != b.unicode_len() {
        return false;
    }
    let r = starts_with_str(a, b);
    proof {
        if r {
            assert(a@ =~= b@);
        }
    }
    r
}

// ---------------------------------------------------------------------------
// Unsigned integers in text
// ---------------------------------------------------------------------------

/// Value of an ASCII digit byte in bases up to 36 (`0-9`, `a-z`, `A-Z`);
/// 36 for any other byte, which is a digit in no base.
pub open spec fn digit_value(b: u8) -> int {
    if 48 <= b <= 57 {
        b - 48
    } else if 97 <= b <= 122 {
        b - 97 + 10
    } else if 65 <= b <= 90 {
        b - 65 + 10
    } else {
        36
    }
}

/// Every byte of `d` is a digit in base `radix`.
pub open spec fn all_digits(d: Seq<u8>, radix: int) -> bool {
    forall|i: int| 0 <= i < d.len() ==> digit_value(d[i]) < radix
}

/// The number that the digits `d` denote in base `radix`.
pub open spec fn digits_value(d: Seq<u8>, radix: int) -> int
    decreases d.len(),
{
    if d.len() == 0 {
        0
    } else {
        digits_value(d.drop_last(), radix) * radix + digit_value(d.last())
    }
}

/// `s` without one leading `+`.
pub open spec fn unsigned_digits(s: Seq<u8>) -> Seq<u8> {
    if s.len() > 0 && s[0] == 43 {
        s.drop_first()
    } else {
        s
    }
}

/// What `usize::from_str_radix` makes of the bytes `s`: an optional `+`
/// followed by at least one digit of the base, denoting a value that fits.
pub open spec fn parse_unsigned(s: Seq<u8>, radix: int) -> Option<int> {
    let d = unsigned_digits(s);
    if d.len() > 0 && all_digits(d, radix) && digits_value(d, radix) <= usize::MAX {
        Some(digits_value(d, radix))
    } else {
        None
    }
}

proof fn lemma_digits_value_nonneg(d: Seq<u8>, radix: int)
    requires
        radix >= 1,
    ensures
        digits_value(d, radix) >= 0,
    decreases d.len(),
{
    if d.len() > 0 {
        lemma_digits_value_nonneg(d.drop_last(), radix);
        vstd::arithmetic::mul::lemma_mul_nonnegative(digits_value(d.drop_last(), radix), radix);
    }
}

/// A parsed number is never negative.
pub proof fn lemma_parse_unsigned_nonneg(s: Seq<u8>, radix: int)
    requires
        radix >= 1,
    ensures
        parse_unsigned(s, radix) matches Some(v) ==> v >= 0,
{
    lemma_digits_value_nonneg(unsigned_digits(s), radix);
}

/// A longer run of digits denotes no smaller number.
proof fn lemma_digits_value_prefix_le(d: Seq<u8>, k: int, radix: int)
    requires
        radix >= 1,
        0 <= k <= d.len(),
    ensures
        digits_value(d.take(k), radix) <= digits_value(d, radix),
    decreases d.len() - k,
{
    if k < d.len() {
        lemma_digits_value_prefix_le(d, k + 1, radix);
        assert(d.take(k + 1).drop_last() =~= d.take(k));
        let v = digits_value(d.take(k), radix);
        lemma_digits_value_nonneg(d.take(k), radix);
        assert(v * radix >= v) by (nonlinear_arith)
            requires
                v >= 0,
                radix >= 1,
        ;
    } else {
        assert(d.take(k) =~= d);
    }
}

/// Value of a digit byte, as `char::to_digit` gives it (36 for a non-digit).
fn digit_of(b: u8) -> (r: u32)
    ensures
        r == digit_value(b),
{
    if 48 <= b && b <= 57 {
        (b - 48) as u32
    } else if 97 <= b && b <= 122 {
        (b - 97 + 10) as u32
    } else if 65 <= b && b <= 90 {
        (b - 65 + 10) as u32
    } else {
        36
    }
}

/// Parses an unsigned number in base `radix` as `usize::from_str_radix` does.
pub fn parse_unsigned_bytes(s: &[u8], radix: u32) -> (r: Option<usize>)
    requires
        2 <= radix <= 36,
    ensures
        r matches Some(v) ==> parse_unsigned(s@, radix as int) == Some(v as int),
        r is None ==> parse_unsigned(s@, radix as int) is None,
{
    let start: usize = if s.len() > 0 && s[0] == 43 {
        1
    } else {
        0
    };
    let d = &s[start..s.len()];
    assert(d@ =~= unsigned_digits(s@));
    if d.len() == 0 {
        return None;
    }
    let mut v: usize = 0;
    let mut i: usize = 0;
    assert(d@.take(0) =~= Seq::<u8>::empty());
    while i < d.len()
        invariant
            2 <= radix <= 36,
            d@ == unsigned_digits(s@),
            d@.len() > 0,
            i <= d@.len(),
            v == digits_value(d@.take(i as int), radix as int),
            all_digits(d@.take(i as int), radix as int),
        decreases d@.len() - i,
    {
        let dv = digit_of(d[i]);
        assert(d@.take(i + 1).drop_last() =~= d@.take(i as int));
        assert(d@.take(i + 1).last() == d@[i as int]);
        if dv >= radix {
            assert(!all_digits(d@, radix as int)) by {
                assert(digit_value(d@[i as int]) >= radix as int);
            }
            return None;
        }
        assert(all_digits(d@.take(i + 1), radix as int));
        match v.checked_mul(radix as usize) {
            Some(m) => match m.checked_add(dv as usize) {
                Some(n) => {
                    v = n;
                },
                None => {
                    proof {
                        assert(digits_value(d@.take(i + 1), radix as int) > usize::MAX);
                        if all_digits(d@, radix as int) {
                            lemma_digits_value_prefix_le(d@, i + 1, radix as int);
                        }
                    }
                    return None;
                },
            },
            None => {
                proof {
                    lemma_digits_value_nonneg(d@.take(i as int), radix as int);
                    assert(digits_value(d@.take(i + 1), radix as int) > usize::MAX);
                    if all_digits(d@, radix as int) {
                        lemma_digits_value_prefix_le(d@, i + 1, radix as int);
                    }
                }
                return None;
            },
        }
        i = i + 1;
    }
    assert(d@.take(d@.len() as int) =~= d@);
    Some(v)
}

} // verus!
