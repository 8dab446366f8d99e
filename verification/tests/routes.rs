use serverless::routes::api::execute::{execute, input_member};
use serverless::routes::model::Route;
use serverless::routes::net::{
    body_plan, is_blank_request_line, route_request, sized_body_start, BodyPlan, Endpoint,
};

#[test]
fn route_from_method() {
    assert!(matches!(Route::from_buffer(b"POST /functions/f HTTP/1.1"), Route::POST));
    assert!(matches!(Route::from_buffer(b"DELETE /functions/f HTTP/1.1"), Route::DELETE));
    match Route::from_buffer(b"GET / HTTP/1.1") {
        Route::Unexpected(text) => assert_eq!(text, "GET / HTTP/1.1"),
        _ => panic!("expected an unexpected method"),
    }
}

#[test]
fn endpoints_by_method_and_path() {
    assert!(matches!(
        route_request("POST /functions/add HTTP/1.1\r\n\r\n"),
        Endpoint::Deploy { path } if path == "/functions/add"
    ));
    assert!(matches!(
        route_request("POST /invoke/add HTTP/1.1\r\n\r\n"),
        Endpoint::Invoke { path } if path == "/invoke/add"
    ));
    assert!(matches!(
        route_request("DELETE /functions/add HTTP/1.1\r\n\r\n"),
        Endpoint::Delete { path } if path == "/functions/add"
    ));
    assert!(matches!(route_request("POST /other HTTP/1.1\r\n\r\n"), Endpoint::Unrouted));
    assert!(matches!(route_request("DELETE /invoke/x HTTP/1.1\r\n\r\n"), Endpoint::Unrouted));
    assert!(matches!(route_request("GET / HTTP/1.1\r\n\r\n"), Endpoint::Unexpected));
    assert!(matches!(route_request("GET\r\n\r\n"), Endpoint::Invalid));
    assert!(matches!(route_request(""), Endpoint::Invalid));
}

#[test]
fn blank_request_line() {
    assert!(is_blank_request_line("   \r\nHost: x\r\n\r\n"));
    assert!(!is_blank_request_line(""));
    assert!(!is_blank_request_line("POST / HTTP/1.1\r\n"));
}

#[test]
fn body_framing() {
    assert!(matches!(
        body_plan("POST /functions/f HTTP/1.1\r\nTransfer-Encoding: chunked\r\n\r\n"),
        BodyPlan::Chunked
    ));
    assert!(matches!(
        body_plan("POST /invoke/f HTTP/1.1\r\nContent-Length: 12\r\n\r\n"),
        BodyPlan::Sized(12)
    ));
    assert!(matches!(body_plan("POST /invoke/f HTTP/1.1\r\nContent-Length: 0\r\n\r\n"), BodyPlan::Empty));
    assert!(matches!(body_plan("POST /invoke/f HTTP/1.1\r\n\r\n"), BodyPlan::NoLength));
}

#[test]
fn execute_takes_input_member() {
    let req = b"POST /invoke/f HTTP/1.1\r\nContent-Length: 17\r\n\r\n{\"input\": [1, 2]}";
    assert_eq!(execute(req).ok(), Some(b"[1,2]".to_vec()));
}

#[test]
fn execute_empty_body_gives_null() {
    let req = b"POST /invoke/f HTTP/1.1\r\nContent-Length: 0\r\n\r\n";
    assert_eq!(execute(req).ok(), Some(b"null".to_vec()));
    let no_member = b"POST /invoke/f HTTP/1.1\r\nContent-Length: 7\r\n\r\n{\"a\":1}";
    assert_eq!(execute(no_member).ok(), Some(b"null".to_vec()));
}

#[test]
fn execute_refuses_bad_requests() {
    let no_len = b"POST /invoke/f HTTP/1.1\r\n\r\n{}";
    match execute(no_len) {
        Err(r) => assert!(r.resp.ends_with("{\"reason\":\"Failed to get input: No body length found\"}")),
        Ok(_) => panic!("expected a refusal"),
    }
    let not_json = b"POST /invoke/f HTTP/1.1\r\nContent-Length: 3\r\n\r\nabc";
    match execute(not_json) {
        Err(r) => {
            assert!(r.resp.starts_with("HTTP/1.1 400 Bad Request\r\n"));
            assert!(r.resp.contains("Failed to wrap input value as a json expected value"));
        }
        Ok(_) => panic!("expected a refusal"),
    }
}

#[test]
fn input_member_defaults_to_null() {
    assert_eq!(input_member(b"{}").unwrap(), b"null".to_vec());
    assert_eq!(input_member(b"{\"other\": 1}").unwrap(), b"null".to_vec());
    assert_eq!(input_member(b"{\"input\": {\"x\": 1}}").unwrap(), b"{\"x\":1}".to_vec());
    assert!(input_member(b"[").is_err());
}

#[test]
fn sized_body_starts_with_what_was_read() {
    assert_eq!(sized_body_start(b"ab", 4), vec![b'a', b'b', 0, 0]);
    assert_eq!(sized_body_start(b"", 2), vec![0, 0]);
    assert_eq!(sized_body_start(b"xyz", 3), b"xyz".to_vec());
}
