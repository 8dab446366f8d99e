use serverless::routes::api::deployment::chunk_parser::models::{
    ChunkParserError, ChunkParserResult, ChunkReadingError, HttpParseError,
};
use serverless::routes::api::deployment::chunk_parser::parser::{get_wasm_code, read_chunks_from_buffer};

fn frame(chunks: &[&[u8]]) -> Vec<u8> {
    let mut out = Vec::new();
    for c in chunks {
        out.extend_from_slice(format!("{:x}\r\n", c.len()).as_bytes());
        out.extend_from_slice(c);
        out.extend_from_slice(b"\r\n");
    }
    out.extend_from_slice(b"0\r\n\r\n");
    out
}

#[test]
fn chunked_round_trip() {
    let mut buffer = frame(&[b"hello", b" ", b"world!"]);
    let mut out = Vec::new();
    let r = read_chunks_from_buffer(&mut buffer, &mut out);
    assert!(matches!(r, ChunkParserResult::Done));
    assert_eq!(out, b"hello world!".to_vec());
    assert_eq!(buffer, b"\r\n".to_vec());
}

#[test]
fn chunked_round_trip_long_chunk() {
    let data = vec![7u8; 300];
    let mut buffer = frame(&[&data]);
    assert!(buffer.starts_with(b"12c\r\n"));
    let mut out = Vec::new();
    assert!(matches!(read_chunks_from_buffer(&mut buffer, &mut out), ChunkParserResult::Done));
    assert_eq!(out, data);
}

#[test]
fn chunk_of_ten_bytes_first_is_refused() {
    let mut buffer = frame(&[b"0123456789"]);
    let mut out = Vec::new();
    match read_chunks_from_buffer(&mut buffer, &mut out) {
        ChunkParserResult::Error(ChunkParserError::TrailingGarbage { bytes }) => {
            assert_eq!(bytes, b"a\r\n01234".to_vec());
        }
        _ => panic!("expected trailing garbage"),
    }
    assert!(out.is_empty());
}

#[test]
fn partial_body_needs_more() {
    let mut buffer = b"5\r\nhel".to_vec();
    let mut out = Vec::new();
    assert!(matches!(read_chunks_from_buffer(&mut buffer, &mut out), ChunkParserResult::NeedMoreData));
    assert_eq!(buffer, b"hel".to_vec());
    assert!(out.is_empty());
    let mut no_line = b"5".to_vec();
    assert!(matches!(read_chunks_from_buffer(&mut no_line, &mut out), ChunkParserResult::NeedMoreData));
    assert_eq!(no_line, b"5".to_vec());
}

#[test]
fn data_without_line_break_after_it_waits() {
    let mut buffer = b"3\r\nabc\r".to_vec();
    let mut out = Vec::new();
    assert!(matches!(read_chunks_from_buffer(&mut buffer, &mut out), ChunkParserResult::NeedMoreData));
    assert_eq!(out, b"abc".to_vec());
    assert_eq!(buffer, b"\r".to_vec());
}

#[test]
fn missing_crlf_after_data() {
    let mut buffer = b"3\r\nabcXY0\r\n\r\n".to_vec();
    let mut out = Vec::new();
    match read_chunks_from_buffer(&mut buffer, &mut out) {
        ChunkParserResult::Error(e) => {
            assert_eq!(e.message(), "The line: XY is placed instead of proper CRLF");
            assert!(matches!(e, ChunkParserError::MissingCRLF { .. }));
        }
        _ => panic!("expected a missing line break"),
    }
}

#[test]
fn invalid_chunk_size() {
    let mut buffer = b"1z\r\nabc\r\n".to_vec();
    let mut out = Vec::new();
    match read_chunks_from_buffer(&mut buffer, &mut out) {
        ChunkParserResult::Error(e) => assert_eq!(e.message(), "Size: 1z"),
        _ => panic!("expected an invalid size"),
    }
}

#[test]
fn invalid_utf8_size_line() {
    let mut buffer = vec![b'1', 0xff, b'\r', b'\n'];
    let mut out = Vec::new();
    match read_chunks_from_buffer(&mut buffer, &mut out) {
        ChunkParserResult::Error(e) => {
            assert!(matches!(e, ChunkParserError::InvalidUtf8 { .. }));
            assert_eq!(e.message(), "Invalid Utf8 characters: 1\u{FFFD}");
        }
        _ => panic!("expected invalid UTF-8"),
    }
}

#[test]
fn size_extension_is_ignored() {
    let mut buffer = b"3;name=x\r\nabc\r\n0\r\n\r\n".to_vec();
    let mut out = Vec::new();
    assert!(matches!(read_chunks_from_buffer(&mut buffer, &mut out), ChunkParserResult::Done));
    assert_eq!(out, b"abc".to_vec());
}

#[test]
fn trailing_garbage_message() {
    let mut buffer = b"xy".to_vec();
    let mut out = Vec::new();
    match read_chunks_from_buffer(&mut buffer, &mut out) {
        ChunkParserResult::Error(e) => assert_eq!(e.message(), "Trailing garbage: [120, 121]"),
        _ => panic!("expected trailing garbage"),
    }
    let mut empty = Vec::new();
    match read_chunks_from_buffer(&mut empty, &mut out) {
        ChunkParserResult::Error(e) => assert_eq!(e.message(), "Trailing garbage: []"),
        _ => panic!("expected trailing garbage"),
    }
}

#[test]
fn reading_error_messages() {
    assert_eq!(
        ChunkReadingError::UnexpectedEOF.message(),
        "Connection was closer earlier before reader could finish reading chunk, EOF error"
    );
    assert_eq!(
        ChunkReadingError::ParseError(HttpParseError::MissingBodySeparator).message(),
        "Parse error: Missing body separator"
    );
    let io = std::io::Error::new(std::io::ErrorKind::Other, "boom");
    assert_eq!(ChunkReadingError::IoError(io).message(), "IO error: boom");
}

#[test]
fn wasm_code_is_everything_after_headers() {
    let buffer = b"POST /functions/f HTTP/1.1\r\n\r\n\x00asm".to_vec();
    let text = String::from_utf8_lossy(&buffer).to_string();
    assert_eq!(get_wasm_code(&buffer, &text).ok(), Some(b"\x00asm".to_vec()));
    let headers_only = b"POST /functions/f HTTP/1.1\r\n".to_vec();
    let text = String::from_utf8_lossy(&headers_only).to_string();
    assert!(matches!(
        get_wasm_code(&headers_only, &text),
        Err(ChunkReadingError::ParseError(HttpParseError::MissingBodySeparator))
    ));
}
