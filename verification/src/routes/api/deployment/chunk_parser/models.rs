//! Results and errors of reading a request body.
use vstd::prelude::*;

use crate::http::response::{decimal, decimal_text};
use crate::text::{lossy_text, utf8_lossy};

verus! {

/// Declares `std::io::Error`, carried by `ChunkReadingError::IoError`.
#[verifier::external_type_specification]
#[verifier::external_body]
pub struct ExIoError(std::io::Error);

/// Why a request body could not be read.
pub enum ChunkReadingError {
    UnexpectedEOF,
    ParserError(ChunkParserError),
    IoError(std::io::Error),
    ParseError(HttpParseError),
}

/// Why the header section of a request could not be split from its body.
pub enum HttpParseError {
    MissingBodySeparator,
}

/// The outcome of one pass of the chunked-body decoder over the bytes received so far.
pub enum ChunkParserResult {
    Done,
    NeedMoreData,
    Error(ChunkParserError),
}

/// Why a chunked body is malformed.
#[derive(Debug)]
pub enum ChunkParserError {
    InvalidUtf8 { line: Vec<u8> },
    InvalidChunkSize { line: String },
    MissingCRLF { after_chunk: Vec<u8> },
    TrailingGarbage { bytes: Vec<u8> },
}

/// What a chunked body is found wrong with, as plain values.
pub enum ChunkFault {
    InvalidUtf8(Seq<u8>),
    InvalidChunkSize(Seq<char>),
    MissingCRLF(Seq<u8>),
    TrailingGarbage(Seq<u8>),
}

/// The outcome of a decoding pass, as plain values.
pub enum ChunkOutcome {
    Done,
    NeedMoreData,
    Error(ChunkFault),
}

impl View for ChunkParserError {
    type V = ChunkFault;

    open spec fn view(&self) -> ChunkFault {
        match self {
            ChunkParserError::InvalidUtf8 { line } => ChunkFault::InvalidUtf8(line@),
            ChunkParserError::InvalidChunkSize { line } => ChunkFault::InvalidChunkSize(line@),
            ChunkParserError::MissingCRLF { after_chunk } => ChunkFault::MissingCRLF(after_chunk@),
            ChunkParserError::TrailingGarbage { bytes } => ChunkFault::TrailingGarbage(bytes@),
        }
    }
}

impl View for ChunkParserResult {
    type V = ChunkOutcome;

    open spec fn view(&self) -> ChunkOutcome {
        match self {
            ChunkParserResult::Done => ChunkOutcome::Done,
            ChunkParserResult::NeedMoreData => ChunkOutcome::NeedMoreData,
            ChunkParserResult::Error(e) => ChunkOutcome::Error(e@),
        }
    }
}

/// Bytes as `Debug` prints a list of them: their decimal values between
/// brackets, separated by a comma and a space.
pub open spec fn debug_bytes(b: Seq<u8>) -> Seq<char> {
    "["@ + debug_items(b) + "]"@
}

/// The decimal values of `b`, separated by a comma and a space.
pub open spec fn debug_items(b: Seq<u8>) -> Seq<char>
    decreases b.len(),
{
    if b.len() == 0 {
        Seq::empty()
    } else if b.len() == 1 {
        decimal(b[0] as nat)
    } else {
        debug_items(b.drop_last()) + ", "@ + decimal(b.last() as nat)
    }
}

fn debug_bytes_text(b: &Vec<u8>) -> (r: String)
    ensures
        r@ == debug_bytes(b@),
{
    let mut items = String::new();
    let mut i: usize = 0;
    while i < b.len()
        invariant
            i <= b@.len(),
            items@ == debug_items(b@.take(i as int)),
        decreases b@.len() - i,
    {
        let digits = decimal_text(b[i] as usize);
        proof {
            assert(b@.take(i + 1).drop_last() =~= b@.take(i as int));
            assert(b@.take(i + 1).last() == b@[i as int]);
        }
        if i == 0 {
            items = digits;
        } else {
            items = items.concat(", ").concat(digits.as_str());
        }
        i = i + 1;
        proof {
            if i == 1 {
                assert(b@.take(1)[0] == b@[0]);
            }
        }
    }
    proof {
        assert(b@.take(i as int) =~= b@);
    }
    String::from_str("[").concat(items.as_str()).concat("]")
}

/// The message for a malformed chunked body.
pub open spec fn chunk_fault_message(e: ChunkFault) -> Seq<char> {
    match e {
        ChunkFault::InvalidUtf8(line) => "Invalid Utf8 characters: "@ + lossy_text(line),
        ChunkFault::InvalidChunkSize(line) => "Size: "@ + line,
        ChunkFault::MissingCRLF(after) => "The line: "@ + lossy_text(after)
            + " is placed instead of proper CRLF"@,
        ChunkFault::TrailingGarbage(bytes) => "Trailing garbage: "@ + debug_bytes(bytes),
    }
}

impl ChunkParserError {
    /// The message that reports what is wrong with the body.
    pub fn message(&self) -> (r: String)
        ensures
            r@ == chunk_fault_message(self@),
    {
        match self {
            ChunkParserError::InvalidUtf8 { line } => String::from_str("Invalid Utf8 characters: ").concat(
                utf8_lossy(line.as_slice()).as_str(),
            ),
            ChunkParserError::InvalidChunkSize { line } => String::from_str("Size: ").concat(line.as_str()),
            ChunkParserError::MissingCRLF { after_chunk } => String::from_str("The line: ").concat(
                utf8_lossy(after_chunk.as_slice()).as_str(),
            ).concat(" is placed instead of proper CRLF"),
            ChunkParserError::TrailingGarbage { bytes } => String::from_str("Trailing garbage: ").concat(
                debug_bytes_text(bytes).as_str(),
            ),
        }
    }
}

/// The message for a request whose header section has no end.
pub open spec fn http_parse_message(e: HttpParseError) -> Seq<char> {
    match e {
        HttpParseError::MissingBodySeparator => "Missing body separator"@,
    }
}

impl HttpParseError {
    /// The message that reports the fault.
    pub fn message(&self) -> (r: String)
        ensures
            r@ == http_parse_message(*self),
    {
        match self {
            HttpParseError::MissingBodySeparator => String::from_str("Missing body separator"),
        }
    }
}

/// Writes an I/O error with its `Display`. The text comes from the
/// operating system, so the contract says nothing of it.
#[verifier::external_body]
fn io_error_text(e: &std::io::Error) -> String {
    e.to_string()
}

/// The message for a body that could not be read, the text of an I/O error
/// given as `io_text`.
pub open spec fn reading_error_message(e: ChunkReadingError, io_text: Seq<char>) -> Seq<char> {
    match e {
        ChunkReadingError::UnexpectedEOF => "Connection was closer earlier before reader could finish reading chunk, EOF error"@,
        ChunkReadingError::ParserError(p) => "Parser error: "@ + chunk_fault_message(p@),
        ChunkReadingError::IoError(_) => "IO error: "@ + io_text,
        ChunkReadingError::ParseError(p) => "Parse error: "@ + http_parse_message(p),
    }
}

impl ChunkReadingError {
    /// The message that reports why the body could not be read; for an I/O
    /// error it holds the error's own text.
    pub fn message(&self) -> (r: String)
        ensures
            exists|io_text: Seq<char>| r@ == reading_error_message(*self, io_text),
            !(self is IoError) ==> r@ == reading_error_message(*self, Seq::empty()),
    {
        let r = match self {
            ChunkReadingError::UnexpectedEOF => String::from_str(
                "Connection was closer earlier before reader could finish reading chunk, EOF error",
            ),
            ChunkReadingError::ParserError(p) => String::from_str("Parser error: ").concat(
                p.message().as_str(),
            ),
            ChunkReadingError::IoError(e) => {
                let text = io_error_text(e);
                let r = String::from_str("IO error: ").concat(text.as_str());
                assert(r@ == reading_error_message(*self, text@));
                r
            },
            ChunkReadingError::ParseError(p) => String::from_str("Parse error: ").concat(
                p.message().as_str(),
            ),
        };
        proof {
            if !(self is IoError) {
                assert(r@ == reading_error_message(*self, Seq::empty()));
            }
        }
        r
    }
}

} // verus!
