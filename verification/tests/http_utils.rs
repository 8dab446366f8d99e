use serverless::http::response::{decimal_text, Response, StatusCode};
use serverless::http::tcp::{headers_step, HeaderStep};
use serverless::http::utils::{
    find_headers_end, get_body_idx, get_body_len, get_function_name, get_input, parse_request_line,
    split_in_lines, InputError,
};

#[test]
fn utils_function_name_parser() {
    assert_eq!(get_function_name("/"), "".to_string());
    assert_eq!(get_function_name("/foo"), "foo".to_string());
    assert_eq!(get_function_name("/foo/bar"), "bar".to_string());
}

#[test]
fn mod_function_name_parser() {
    assert_eq!(get_function_name("/"), "".to_string());
    assert_eq!(get_function_name("/foo"), "foo".to_string());
    assert_eq!(get_function_name("/foo/bar"), "bar".to_string());
}

#[test]
fn utils_body_len_parser() {
    let headers = "GET /test HTTP/1.1\r\nContent-Type: application/json\r\nContent-Length: 10\r\n\r\n".to_string();
    assert_eq!(get_body_len(&headers), Some(10));
    let no_len = "GET /test HTTP/1.1\r\nContent-Type: application/json\r\n\r\n".to_string();
    assert_eq!(get_body_len(&no_len), None);
    let invalid = "GET /test HTTP/1.1\r\nContent-Type: application/json\r\nContent-Length: invalid\r\n\r\n".to_string();
    assert_eq!(get_body_len(&invalid), None);
    let invalid_len = "GET /test HTTP/1.1\r\nContent-Type: application/json\r\nContent-Length: -10\r\n\r\n".to_string();
    assert_eq!(get_body_len(&invalid_len), None);
}

#[test]
fn mod_body_len_parser() {
    let headers = "GET /test HTTP/1.1\r\nContent-Type: application/json\r\nContent-Length: 10\r\n\r\n".to_string();
    assert_eq!(get_body_len(&headers), Some(10));
    let no_len = "GET /test HTTP/1.1\r\nContent-Type: application/json\r\n\r\n".to_string();
    assert_eq!(get_body_len(&no_len), None);
    let invalid = "GET /test HTTP/1.1\r\nContent-Type: application/json\r\nContent-Length: invalid\r\n\r\n".to_string();
    assert_eq!(get_body_len(&invalid), None);
    let invalid_len = "GET /test HTTP/1.1\r\nContent-Type: application/json\r\nContent-Length: -10\r\n\r\n".to_string();
    assert_eq!(get_body_len(&invalid_len), None);
}

#[test]
fn function_name_without_slash_is_whole_path() {
    assert_eq!(get_function_name("plain"), "plain".to_string());
    assert_eq!(get_function_name("/invoke/"), "".to_string());
}

#[test]
fn body_len_takes_first_length_line_and_trims() {
    let text = "POST /x HTTP/1.1\r\nContent-Length:  42 \r\nContent-Length: 7\r\n\r\n";
    assert_eq!(get_body_len(text), Some(42));
    let plus = "POST /x HTTP/1.1\r\nContent-Length: +5\r\n\r\n";
    assert_eq!(get_body_len(plus), Some(5));
    let two_colons = "POST /x HTTP/1.1\r\nContent-Length: 5:6\r\nContent-Length: 3\r\n\r\n";
    assert_eq!(get_body_len(two_colons), Some(3));
}

#[test]
fn headers_end_is_past_blank_line() {
    assert_eq!(find_headers_end(b"GET / HTTP/1.1\r\n\r\nbody"), Some(18));
    assert_eq!(find_headers_end(b"GET / HTTP/1.1\r\n"), None);
    assert_eq!(get_body_idx("a\r\n\r\n\r\n\r\n"), Some(5));
    assert_eq!(get_body_idx(""), None);
}

#[test]
fn lines_split_like_str_lines() {
    let lines = split_in_lines("one\r\ntwo\nthree".to_string());
    assert_eq!(lines, vec!["one".to_string(), "two".to_string(), "three".to_string()]);
    let trailing = split_in_lines("a\n".to_string());
    assert_eq!(trailing, vec!["a".to_string()]);
    assert!(split_in_lines(String::new()).is_empty());
}

#[test]
fn request_line_gives_method_and_path() {
    assert_eq!(
        parse_request_line("POST /functions/add HTTP/1.1\r\nHost: x\r\n\r\n"),
        Some(("POST".to_string(), "/functions/add".to_string()))
    );
    assert_eq!(parse_request_line(""), None);
    assert_eq!(parse_request_line("POST\r\n"), None);
}

#[test]
fn input_is_the_announced_body() {
    let req = b"POST /invoke/f HTTP/1.1\r\nContent-Length: 5\r\n\r\nhello world";
    assert_eq!(get_input(req).ok(), Some(b"hello".to_vec()));
}

#[test]
fn input_errors() {
    let no_len = b"POST /invoke/f HTTP/1.1\r\n\r\nhello";
    assert!(matches!(get_input(no_len), Err(InputError::NoBodyLength)));
    let no_end = b"POST /invoke/f HTTP/1.1\r\nContent-Length: 2\r\n";
    assert!(matches!(get_input(no_end), Err(InputError::NoBodyIndex)));
    let short = b"POST /invoke/f HTTP/1.1\r\nContent-Length: 20\r\n\r\nhi";
    assert!(matches!(get_input(short), Err(InputError::BodyOutOfRange)));
}

#[test]
fn headers_step_splits_at_blank_line() {
    match headers_step(b"GET / HTTP/1.1\r\n\r\nrest") {
        HeaderStep::Complete { headers, leftover } => {
            assert_eq!(headers, b"GET / HTTP/1.1\r\n\r\n".to_vec());
            assert_eq!(leftover, b"rest".to_vec());
        }
        _ => panic!("expected a complete header section"),
    }
    assert!(matches!(headers_step(b"GET / HTTP/1.1\r\n"), HeaderStep::NeedMore));
    let big = vec![b'a'; 65537];
    assert!(matches!(headers_step(&big), HeaderStep::TooLarge));
    let limit = vec![b'a'; 65536];
    assert!(matches!(headers_step(&limit), HeaderStep::NeedMore));
}

#[test]
fn decimal_text_writes_digits() {
    assert_eq!(decimal_text(0), "0");
    assert_eq!(decimal_text(1234567890), "1234567890");
}

#[test]
fn json_response_with_json_result() {
    let r = Response::json(StatusCode::Success, b"{\"a\": 1}".to_vec(), None);
    assert_eq!(
        r.resp,
        "HTTP/1.1 200 Ok\r\nContent-Length: 18\r\nContent-Type: application/json\r\n\r\n{\"result\":{\"a\":1}}"
    );
}

#[test]
fn json_response_with_text_result() {
    let r = Response::json(StatusCode::Success, b"plain".to_vec(), None);
    assert_eq!(
        r.resp,
        "HTTP/1.1 200 Ok\r\nContent-Length: 18\r\nContent-Type: application/json\r\n\r\n{\"result\":\"plain\"}"
    );
}

#[test]
fn json_response_with_reason() {
    let r = Response::json(StatusCode::BadRequest, Vec::new(), Some("bad \"x\"".to_string()));
    assert_eq!(
        r.resp,
        "HTTP/1.1 400 Bad Request\r\nContent-Length: 22\r\nContent-Type: application/json\r\n\r\n{\"reason\":\"bad \\\"x\\\"\"}"
    );
    let e = Response::json(StatusCode::IntServerError, Vec::new(), Some(String::new()));
    assert!(e.resp.starts_with("HTTP/1.1 500 Internal Server Error\r\n"));
    let n = Response::json(StatusCode::NotFound, b"1".to_vec(), None);
    assert!(n.resp.starts_with("HTTP/1.1 404 Not Found\r\n"));
    let u = Response::json(StatusCode::Unauthorized, b"1".to_vec(), None);
    assert!(u.resp.starts_with("HTTP/1.1 401 Unauthorized\r\n"));
}

#[test]
fn response_length_is_read_back() {
    let body_bytes = "{\"reason\":\"d\u{e9}j\u{e0} vu\"}".len();
    let r = Response::json(StatusCode::BadRequest, Vec::new(), Some("d\u{e9}j\u{e0} vu".to_string()));
    assert_eq!(get_body_len(&r.resp), Some(body_bytes));
    let ok = Response::json(StatusCode::Success, b"[1,2,3]".to_vec(), None);
    assert_eq!(get_body_len(&ok.resp), Some("{\"result\":[1,2,3]}".len()));
}

#[test]
fn function_deployed_is_function_invoked() {
    assert_eq!(get_function_name("/functions/resize"), get_function_name("/invoke/resize"));
    assert_eq!(get_function_name("/invoke/resize"), "resize");
}

#[test]
fn response_body_is_read_back() {
    let ok = Response::json(StatusCode::Success, b"[1,2,3]".to_vec(), None);
    assert_eq!(get_input(ok.resp.as_bytes()).ok(), Some(b"{\"result\":[1,2,3]}".to_vec()));
    let bad = Response::json(StatusCode::BadRequest, Vec::new(), Some("line\r\n\r\nbreak".to_string()));
    assert_eq!(get_input(bad.resp.as_bytes()).ok(), Some(b"{\"reason\":\"line\\r\\n\\r\\nbreak\"}".to_vec()));
}
