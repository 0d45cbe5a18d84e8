use ostool_boot::boot_server::{
    boot_relative_path, check_line, ends_headers, file_lookup, file_reply, file_response, http_response,
    plan_request, validate_relative_path, FileRead, LineError, RequestPlan,
};
use ostool_boot::http_wire::{find_http_body_offset, http_response_status_is_200};
use ostool_boot::request_line::{parse_request_line, HttpBootRequest, RequestLineError};

fn reply(status: &str, content_type: &str, body: &[u8], include_body: bool) -> Vec<u8> {
    let mut r = format!(
        "HTTP/1.1 {status}\r\nContent-Type: {content_type}\r\nContent-Length: {}\r\nConnection: close\r\n\r\n",
        body.len()
    )
    .into_bytes();
    if include_body {
        r.extend_from_slice(body);
    }
    r
}

#[test]
fn parse_request_line_reads_get_and_head() {
    assert_eq!(
        parse_request_line(b"GET /boot/kernel.bin HTTP/1.1\r\n"),
        Ok(HttpBootRequest::Get(&b"/boot/kernel.bin"[..]))
    );
    assert_eq!(
        parse_request_line(b"HEAD /boot/a?x=1 HTTP/1.0"),
        Ok(HttpBootRequest::Head(&b"/boot/a"[..]))
    );
    assert_eq!(
        parse_request_line(b"  GET\t/x   HTTP/1.1  \n"),
        Ok(HttpBootRequest::Get(&b"/x"[..]))
    );
}

#[test]
fn parse_request_line_answers_other_methods_and_versions() {
    assert_eq!(parse_request_line(b"POST /boot/a HTTP/1.1\r\n"), Ok(HttpBootRequest::MethodNotAllowed));
    assert_eq!(parse_request_line(b"GET /boot/a HTTP/2\r\n"), Ok(HttpBootRequest::BadRequest));
    assert_eq!(parse_request_line(b"GET /boot/a HTTP/1.1 extra\r\n"), Ok(HttpBootRequest::BadRequest));
    assert_eq!(parse_request_line(b"get /boot/a HTTP/1.1\r\n"), Ok(HttpBootRequest::MethodNotAllowed));
}

#[test]
fn parse_request_line_errors() {
    assert_eq!(parse_request_line(b"\r\n"), Err(RequestLineError::EmptyRequest));
    assert_eq!(parse_request_line(b"GET\r\n"), Err(RequestLineError::MissingTarget));
    assert_eq!(parse_request_line(b"GET /x\r\n"), Err(RequestLineError::MissingVersion));
}

#[test]
fn request_path_never_holds_a_query() {
    match parse_request_line(b"GET /boot/a?b?c HTTP/1.1") {
        Ok(HttpBootRequest::Get(p)) => assert!(!p.contains(&b'?')),
        _ => panic!("expected a GET"),
    }
}

#[test]
fn http_response_formats_headers_and_body() {
    let r = http_response("200 OK", "application/json", b"{}".to_vec(), true);
    assert_eq!(r, reply("200 OK", "application/json", b"{}", true));
    assert_eq!(
        r,
        b"HTTP/1.1 200 OK\r\nContent-Type: application/json\r\nContent-Length: 2\r\nConnection: close\r\n\r\n{}".to_vec()
    );
}

#[test]
fn head_reply_is_get_reply_without_body() {
    let get = http_response("200 OK", "text/plain", b"hello".to_vec(), true);
    let head = http_response("200 OK", "text/plain", b"hello".to_vec(), false);
    assert_eq!(head, reply("200 OK", "text/plain", b"hello", false));
    let mut joined = head.clone();
    joined.extend_from_slice(b"hello");
    assert_eq!(get, joined);
}

#[test]
fn served_file_reads_back_through_the_loader() {
    let body = b"kernel\r\n\r\nbytes".to_vec();
    let r = http_response("200 OK", "application/octet-stream", body.clone(), true);
    let k = find_http_body_offset(&r, r.len()).unwrap();
    assert_eq!(&r[k..], &body[..]);
    assert!(http_response_status_is_200(&r, r.len()));
}

#[test]
fn plan_request_routes_methods() {
    match plan_request(HttpBootRequest::Get(b"/boot/a")) {
        RequestPlan::File { path, include_body } => {
            assert_eq!(path, b"/boot/a");
            assert!(include_body);
        }
        _ => panic!("expected a file"),
    }
    match plan_request(HttpBootRequest::Head(b"/boot/a")) {
        RequestPlan::File { include_body, .. } => assert!(!include_body),
        _ => panic!("expected a file"),
    }
    match plan_request(HttpBootRequest::MethodNotAllowed) {
        RequestPlan::Reply(b) => assert_eq!(b, reply("405 Method Not Allowed", "text/plain", b"method not allowed", true)),
        _ => panic!("expected a reply"),
    }
    match plan_request(HttpBootRequest::BadRequest) {
        RequestPlan::Reply(b) => assert_eq!(b, reply("400 Bad Request", "text/plain", b"bad request", true)),
        _ => panic!("expected a reply"),
    }
}

#[test]
fn boot_relative_path_strips_the_prefix() {
    assert_eq!(boot_relative_path(b"/boot/x/y.bin"), Some(&b"x/y.bin"[..]));
    assert_eq!(boot_relative_path(b"/boot/"), Some(&b""[..]));
    assert_eq!(boot_relative_path(b"/boot"), None);
    assert_eq!(boot_relative_path(b"/other/x"), None);
}

#[test]
fn validate_relative_path_keeps_below_the_root() {
    assert!(validate_relative_path(b"boards/a/current/boot.json"));
    assert!(validate_relative_path(b"a/..b/c"));
    assert!(validate_relative_path(b"a/b.."));
    assert!(!validate_relative_path(b""));
    assert!(!validate_relative_path(b"/etc/passwd"));
    assert!(!validate_relative_path(b"../x"));
    assert!(!validate_relative_path(b"a/../../x"));
    assert!(!validate_relative_path(b"a/.."));
    assert!(!validate_relative_path(b"a\\b"));
    assert!(!validate_relative_path(b"a\0b"));
}

#[test]
fn file_lookup_answers_bad_paths() {
    assert_eq!(file_lookup(b"/boot/a/b.bin", true), Ok(&b"a/b.bin"[..]));
    assert_eq!(file_lookup(b"/x/b.bin", true), Err(reply("404 Not Found", "text/plain", b"not found", true)));
    assert_eq!(file_lookup(b"/x/b.bin", false), Err(reply("404 Not Found", "text/plain", b"not found", false)));
    assert_eq!(
        file_lookup(b"/boot/../secret", true),
        Err(reply("400 Bad Request", "text/plain", b"bad request", true))
    );
}

#[test]
fn file_reply_answers_each_read_outcome() {
    assert_eq!(
        file_reply("application/json", FileRead::Found(b"{}".to_vec()), true),
        reply("200 OK", "application/json", b"{}", true)
    );
    assert_eq!(
        file_reply("application/json", FileRead::NotFound, true),
        reply("404 Not Found", "text/plain", b"not found", true)
    );
    assert_eq!(
        file_reply("application/json", FileRead::Failed, false),
        reply("500 Internal Server Error", "text/plain", b"internal server error", false)
    );
}

#[test]
fn file_response_guesses_the_content_type() {
    assert_eq!(
        file_response("/srv/boot/boards/a/current/boot.json", FileRead::Found(b"{}".to_vec()), true),
        reply("200 OK", "application/json", b"{}", true)
    );
    assert_eq!(
        file_response("/srv/boot/notes.txt", FileRead::Found(b"hi".to_vec()), false),
        reply("200 OK", "text/plain", b"hi", false)
    );
    assert_eq!(
        file_response("/srv/boot/kernel.unknownext", FileRead::Found(b"k".to_vec()), true),
        reply("200 OK", "application/octet-stream", b"k", true)
    );
    assert_eq!(
        file_response("/srv/boot/kernel", FileRead::Found(b"k".to_vec()), true),
        reply("200 OK", "application/octet-stream", b"k", true)
    );
    assert_eq!(
        file_response("/srv/boot/kernel.bin", FileRead::NotFound, true),
        reply("404 Not Found", "text/plain", b"not found", true)
    );
}

#[test]
fn ends_headers_recognizes_blank_lines() {
    assert!(ends_headers(b""));
    assert!(ends_headers(b"\r\n"));
    assert!(ends_headers(b"\n"));
    assert!(!ends_headers(b"Host: x\r\n"));
    assert!(!ends_headers(b"\r"));
}

#[test]
fn check_line_enforces_eof_and_limit() {
    assert_eq!(check_line(0, 0, 8192), Err(LineError::UnexpectedEof));
    assert_eq!(check_line(10, 8193, 8192), Err(LineError::TooLong));
    assert_eq!(check_line(10, 8192, 8192), Ok(()));
}
