//! HTTP/1.1 client.
use thumos::http_client::{
    delete, find_crlf, find_header_end, get, memchr_byte, post_json, put_json, with_auth,
    write_usize_to_buf, HttpError, HttpMethod, HttpResponse, MAX_BODY_SIZE, MAX_HEADER_BLOCK_SIZE,
    MAX_RESPONSE_HEADERS,
};

#[test]
fn method_display() {
    assert_eq!(HttpMethod::Get.to_string(), "GET");
    assert_eq!(HttpMethod::Post.to_string(), "POST");
    assert_eq!(HttpMethod::Put.to_string(), "PUT");
    assert_eq!(HttpMethod::Delete.to_string(), "DELETE");
}

#[test]
fn build_get_request() {
    let req = get("matrix.example.com", "/_matrix/client/v3/sync");
    let raw = req.build_raw();
    assert!(raw.is_ok());
    let raw = raw.ok().unwrap();
    let text = core::str::from_utf8(&raw).ok().unwrap();

    assert!(text.starts_with("GET /_matrix/client/v3/sync HTTP/1.1\r\n"));
    assert!(text.contains("Host: matrix.example.com\r\n"));
    assert!(text.ends_with("\r\n\r\n"));
}

#[test]
fn build_post_json_request() {
    let body = b"{\"user\":\"@alice:example.com\"}";
    let req = post_json("matrix.example.com", "/_matrix/client/v3/login", body);
    let raw = req.build_raw();
    assert!(raw.is_ok());
    let raw = raw.ok().unwrap();
    let text = core::str::from_utf8(&raw).ok().unwrap();

    assert!(text.starts_with("POST /_matrix/client/v3/login HTTP/1.1\r\n"));
    assert!(text.contains("Host: matrix.example.com\r\n"));
    assert!(text.contains("Content-Type: application/json\r\n"));
    assert!(text.contains("Content-Length: 29\r\n"));
    assert!(text.ends_with("{\"user\":\"@alice:example.com\"}"));
}

#[test]
fn build_put_json_request() {
    let body = b"{\"msgtype\":\"m.text\",\"body\":\"hello\"}";
    let req = put_json(
        "matrix.example.com",
        "/_matrix/client/v3/rooms/!abc:example.com/send/m.room.message/txn1",
        body,
    );
    let raw = req.build_raw();
    assert!(raw.is_ok());
    let raw = raw.ok().unwrap();
    let text = core::str::from_utf8(&raw).ok().unwrap();

    assert!(text.starts_with("PUT "));
    assert!(text.contains("Content-Type: application/json\r\n"));
    let cl = format!("Content-Length: {}\r\n", body.len());
    assert!(text.contains(&cl));
}

#[test]
fn build_delete_request() {
    let req = delete(
        "matrix.example.com",
        "/_matrix/client/v3/rooms/!abc:ex/leave",
    );
    let raw = req.build_raw();
    assert!(raw.is_ok());
    let raw = raw.ok().unwrap();
    let text = core::str::from_utf8(&raw).ok().unwrap();

    assert!(text.starts_with("DELETE "));
    assert!(!text.contains("Content-Length"));
}

#[test]
fn build_request_with_auth() {
    let mut req = get("matrix.example.com", "/_matrix/client/v3/sync");
    with_auth(&mut req, "syt_test_token_1234");
    let raw = req.build_raw();
    assert!(raw.is_ok());
    let raw = raw.ok().unwrap();
    let text = core::str::from_utf8(&raw).ok().unwrap();

    assert!(text.contains("Authorization: Bearer syt_test_token_1234\r\n"));
}

#[test]
fn build_request_empty_host_errors() {
    let req = get("", "/path");
    let result = req.build_raw();
    assert_eq!(result, Err(HttpError::EmptyHost));
}

#[test]
fn build_request_empty_path_errors() {
    let req = get("host.example.com", "");
    let result = req.build_raw();
    assert_eq!(result, Err(HttpError::EmptyPath));
}

#[test]
fn build_request_rejects_crlf_in_path() {
    let req = get("matrix.example.com", "/path\r\nX-Injected: evil");
    let result = req.build_raw();
    assert_eq!(result, Err(HttpError::InvalidPath));
}

#[test]
fn build_request_rejects_bare_lf_in_path() {
    let req = get("matrix.example.com", "/path\nX-Injected: evil");
    let result = req.build_raw();
    assert_eq!(result, Err(HttpError::InvalidPath));
}

#[test]
fn build_request_rejects_crlf_in_host() {
    let req = get("matrix.example.com\r\nX-Injected: evil", "/path");
    let result = req.build_raw();
    assert_eq!(result, Err(HttpError::InvalidHost));
}

#[test]
fn build_request_rejects_crlf_in_header_name() {
    let mut req = get("matrix.example.com", "/path");
    req.add_header(String::from("X-Evil\r\nX-Injected"), String::from("value"));
    let result = req.build_raw();
    assert_eq!(result, Err(HttpError::InvalidHeader));
}

#[test]
fn build_request_rejects_crlf_in_header_value() {
    let mut req = get("matrix.example.com", "/path");
    req.add_header(
        String::from("X-Custom"),
        String::from("value\r\nX-Injected: evil"),
    );
    let result = req.build_raw();
    assert_eq!(result, Err(HttpError::InvalidHeader));
}

#[test]
fn parse_simple_response() {
    let raw = b"HTTP/1.1 200 OK\r\nContent-Length: 15\r\nContent-Type: application/json\r\n\r\n{\"status\":\"ok\"}";
    let resp = HttpResponse::parse(raw);
    assert!(resp.is_ok());
    let resp = resp.ok().unwrap();
    assert_eq!(resp.status, 200);
    assert!(resp.is_success());
    assert_eq!(resp.body, b"{\"status\":\"ok\"}");
    assert_eq!(resp.header("content-type"), Some("application/json"));
    assert_eq!(resp.content_length(), Some(15));
}

#[test]
fn total_bytes_matches_input_length() {
    let raw = b"HTTP/1.1 200 OK\r\nContent-Length: 15\r\nContent-Type: application/json\r\n\r\n{\"status\":\"ok\"}";
    let resp = HttpResponse::parse(raw).ok().unwrap();
    assert_eq!(
        resp.total_bytes(),
        raw.len(),
        "total_bytes() must equal the exact input-slice length for a well-formed response"
    );
}

#[test]
fn total_bytes_excludes_trailing_bytes_after_body() {
    let raw = b"HTTP/1.1 200 OK\r\nContent-Length: 15\r\n\r\n{\"status\":\"ok\"}TRAILING";
    let resp = HttpResponse::parse(raw).ok().unwrap();
    assert_eq!(
        resp.total_bytes(),
        raw.len() - b"TRAILING".len(),
        "total_bytes() must not hold bytes past the parsed body"
    );
}

#[test]
fn parse_response_no_content_length() {
    let raw = b"HTTP/1.1 200 OK\r\nServer: nginx\r\n\r\nhello world";
    let resp = HttpResponse::parse(raw);
    assert!(resp.is_ok());
    let resp = resp.ok().unwrap();
    assert_eq!(resp.status, 200);
    assert_eq!(resp.body, b"hello world");
}

#[test]
fn parse_response_401_unauthorized() {
    let raw = b"HTTP/1.1 401 Unauthorized\r\nContent-Length: 0\r\n\r\n";
    let resp = HttpResponse::parse(raw);
    assert!(resp.is_ok());
    let resp = resp.ok().unwrap();
    assert_eq!(resp.status, 401);
    assert!(!resp.is_success());
    assert!(resp.body.is_empty());
}

#[test]
fn parse_response_429_rate_limited() {
    let body = b"{\"errcode\":\"M_LIMIT_EXCEEDED\",\"retry_after_ms\":2000}";
    let mut raw = Vec::from(&b"HTTP/1.1 429 Too Many Requests\r\nContent-Length: "[..]);
    write_usize_to_buf(&mut raw, body.len());
    raw.extend_from_slice(b"\r\n\r\n");
    raw.extend_from_slice(body);

    let resp = HttpResponse::parse(&raw);
    assert!(resp.is_ok());
    let resp = resp.ok().unwrap();
    assert_eq!(resp.status, 429);
    assert!(!resp.is_success());
}

#[test]
fn parse_response_empty_body() {
    let raw = b"HTTP/1.1 204 No Content\r\nContent-Length: 0\r\n\r\n";
    let resp = HttpResponse::parse(raw);
    assert!(resp.is_ok());
    let resp = resp.ok().unwrap();
    assert_eq!(resp.status, 204);
    assert!(resp.body.is_empty());
}

#[test]
fn parse_incomplete_response() {
    let raw = b"HTTP/1.1 200 OK\r\nContent-Length: 5\r\n";
    let result = HttpResponse::parse(raw);
    assert_eq!(result, Err(HttpError::Incomplete));
}

#[test]
fn parse_incomplete_body() {
    let raw = b"HTTP/1.1 200 OK\r\nContent-Length: 100\r\n\r\nshort";
    let result = HttpResponse::parse(raw);
    assert_eq!(result, Err(HttpError::Incomplete));
}

#[test]
fn parse_malformed_status_line() {
    let raw = b"NOT-HTTP\r\nContent-Length: 0\r\n\r\n";
    let result = HttpResponse::parse(raw);
    assert_eq!(result, Err(HttpError::MalformedStatusLine));
}

#[test]
fn parse_invalid_status_code() {
    let raw = b"HTTP/1.1 xyz OK\r\nContent-Length: 0\r\n\r\n";
    let result = HttpResponse::parse(raw);
    assert_eq!(result, Err(HttpError::InvalidStatusCode));
}

#[test]
fn parse_multiple_headers() {
    let raw = b"HTTP/1.1 200 OK\r\nX-One: alpha\r\nX-Two: beta\r\nX-Three: gamma\r\nContent-Length: 0\r\n\r\n";
    let resp = HttpResponse::parse(raw);
    assert!(resp.is_ok());
    let resp = resp.ok().unwrap();
    assert_eq!(resp.headers.len(), 4);
    assert_eq!(resp.header("x-one"), Some("alpha"));
    assert_eq!(resp.header("x-two"), Some("beta"));
    assert_eq!(resp.header("x-three"), Some("gamma"));
}

#[test]
fn parse_header_value_whitespace_trimmed() {
    let raw = b"HTTP/1.1 200 OK\r\nX-Padded:   value   \r\nContent-Length: 0\r\n\r\n";
    let resp = HttpResponse::parse(raw);
    assert!(resp.is_ok());
    let resp = resp.ok().unwrap();
    assert_eq!(resp.header("x-padded"), Some("value"));
}

#[test]
fn parse_response_rejects_header_block_exceeding_max_size() {
    let mut raw = Vec::from(&b"HTTP/1.1 200 OK\r\nX-Pad: "[..]);
    raw.extend(core::iter::repeat(b'a').take(MAX_HEADER_BLOCK_SIZE + 16));
    raw.extend_from_slice(b"\r\n\r\n");

    let result = HttpResponse::parse(&raw);
    assert_eq!(
        result,
        Err(HttpError::HeaderBlockTooLarge),
        "a header block exceeding MAX_HEADER_BLOCK_SIZE must be rejected before parsing headers"
    );
}

#[test]
fn parse_response_rejects_content_length_exceeding_max_body_size() {
    let mut raw = Vec::from(&b"HTTP/1.1 200 OK\r\nContent-Length: "[..]);
    write_usize_to_buf(&mut raw, MAX_BODY_SIZE + 1);
    raw.extend_from_slice(b"\r\n\r\n");

    let result = HttpResponse::parse(&raw);
    assert_eq!(
        result,
        Err(HttpError::BodyTooLarge),
        "a declared Content-Length exceeding MAX_BODY_SIZE must be rejected"
    );
}

#[test]
fn parse_response_rejects_oversized_body_without_content_length() {
    let mut raw = Vec::from(&b"HTTP/1.1 200 OK\r\nServer: x\r\n\r\n"[..]);
    raw.extend(core::iter::repeat(b'a').take(MAX_BODY_SIZE + 1));

    let result = HttpResponse::parse(&raw);
    assert_eq!(
        result,
        Err(HttpError::BodyTooLarge),
        "a connection-close body exceeding MAX_BODY_SIZE must be rejected"
    );
}

#[test]
fn parse_response_rejects_too_many_headers() {
    let mut raw = Vec::from(&b"HTTP/1.1 200 OK\r\n"[..]);
    for i in 0..=MAX_RESPONSE_HEADERS {
        raw.extend_from_slice(b"X-H");
        write_usize_to_buf(&mut raw, i);
        raw.extend_from_slice(b": v\r\n");
    }
    raw.extend_from_slice(b"\r\n");

    let result = HttpResponse::parse(&raw);
    assert_eq!(
        result,
        Err(HttpError::TooManyHeaders),
        "more than MAX_RESPONSE_HEADERS header lines must be rejected"
    );
}

#[test]
fn parse_response_rejects_non_numeric_content_length() {
    let raw = b"HTTP/1.1 200 OK\r\nContent-Length: not-a-number\r\n\r\n";
    let result = HttpResponse::parse(raw);
    assert_eq!(
        result,
        Err(HttpError::InvalidContentLength),
        "a non-numeric Content-Length value must be rejected"
    );
}

#[test]
fn get_constructor_fields() {
    let req = get("host.example.com", "/path");
    assert_eq!(req.method, HttpMethod::Get);
    assert_eq!(req.host, "host.example.com");
    assert_eq!(req.path, "/path");
    assert!(req.body.is_none());
}

#[test]
fn post_json_constructor_fields() {
    let req = post_json("host.example.com", "/path", b"{}");
    assert_eq!(req.method, HttpMethod::Post);
    assert!(req.body.is_some());
    assert_eq!(req.body.as_ref().map(Vec::as_slice), Some(b"{}".as_slice()));
}

#[test]
fn put_json_constructor_fields() {
    let req = put_json("host.example.com", "/path", b"{}");
    assert_eq!(req.method, HttpMethod::Put);
    assert!(req.body.is_some());
}

#[test]
fn delete_constructor_fields() {
    let req = delete("host.example.com", "/path");
    assert_eq!(req.method, HttpMethod::Delete);
    assert!(req.body.is_none());
}

#[test]
fn request_display() {
    let req = get("host.example.com", "/sync");
    let s = req.to_string();
    assert_eq!(s, "GET /sync HTTP/1.1");
}

#[test]
fn response_display() {
    let raw = b"HTTP/1.1 200 OK\r\nContent-Length: 5\r\n\r\nhello";
    let resp = HttpResponse::parse(raw).ok().unwrap();
    let s = resp.to_string();
    assert!(s.contains("200"));
    assert!(s.contains("5 bytes"));
}

#[test]
fn error_display() {
    let e = HttpError::Incomplete;
    assert_eq!(e.to_string(), "incomplete HTTP response");
}

#[test]
fn write_usize_zero() {
    let mut buf = Vec::new();
    write_usize_to_buf(&mut buf, 0);
    assert_eq!(&buf, b"0");
}

#[test]
fn write_usize_single_digit() {
    let mut buf = Vec::new();
    write_usize_to_buf(&mut buf, 7);
    assert_eq!(&buf, b"7");
}

#[test]
fn write_usize_multi_digit() {
    let mut buf = Vec::new();
    write_usize_to_buf(&mut buf, 12345);
    assert_eq!(&buf, b"12345");
}

#[test]
fn find_header_end_present() {
    let data = b"HTTP/1.1 200 OK\r\nHost: x\r\n\r\nbody";
    let pos = find_header_end(data);
    assert_eq!(pos, Some(24));
}

#[test]
fn find_header_end_missing() {
    let data = b"HTTP/1.1 200 OK\r\nHost: x\r\n";
    let pos = find_header_end(data);
    assert_eq!(pos, None);
}

#[test]
fn roundtrip_matrix_sync_request() {
    let mut req = get("matrix.local.lan", "/_matrix/client/v3/sync?timeout=30000");
    with_auth(&mut req, "syt_abc123");
    let raw = req.build_raw().ok().unwrap();
    let text = core::str::from_utf8(&raw).ok().unwrap();

    let lines: Vec<&str> = text.split("\r\n").collect();
    assert_eq!(
        lines[0],
        "GET /_matrix/client/v3/sync?timeout=30000 HTTP/1.1"
    );
    assert_eq!(lines[1], "Host: matrix.local.lan");
    assert!(lines.contains(&"Authorization: Bearer syt_abc123"));
    assert!(lines[lines.len() - 1].is_empty());
    assert!(lines[lines.len() - 2].is_empty());
}

#[test]
fn roundtrip_matrix_send_message() {
    let body = b"{\"msgtype\":\"m.text\",\"body\":\"Hello from Thumos\"}";
    let mut req = put_json(
        "matrix.local.lan",
        "/_matrix/client/v3/rooms/!room:example.com/send/m.room.message/txn42",
        body,
    );
    with_auth(&mut req, "syt_xyz789");
    let raw = req.build_raw().ok().unwrap();
    let text = core::str::from_utf8(&raw).ok().unwrap();

    assert!(text.starts_with("PUT /_matrix/client/v3/rooms/"));
    assert!(text.contains("Content-Type: application/json\r\n"));
    assert!(text.contains(&format!("Content-Length: {}\r\n", body.len())));
    assert!(text.contains("Authorization: Bearer syt_xyz789\r\n"));
    assert!(text.ends_with(core::str::from_utf8(body).ok().unwrap()));
}

#[test]
fn body_as_str_valid_utf8() {
    let raw = b"HTTP/1.1 200 OK\r\nContent-Length: 2\r\n\r\n{}";
    let resp = HttpResponse::parse(raw).ok().unwrap();
    assert_eq!(resp.body_as_str(), Some("{}"));
}

#[test]
fn body_as_str_invalid_utf8() {
    let mut raw = Vec::from(&b"HTTP/1.1 200 OK\r\nContent-Length: 2\r\n\r\n"[..]);
    raw.extend_from_slice(&[0xFF, 0xFE]);
    let resp = HttpResponse::parse(&raw).ok().unwrap();
    assert_eq!(resp.body_as_str(), None);
}

#[test]
fn header_lines_need_a_name_and_text() {
    for head in [
        &b"HTTP/1.1 200 OK\r\nno separator\r\n\r\n"[..],
        &b"HTTP/1.1 200 OK\r\n: no name\r\n\r\n"[..],
        &b"HTTP/1.1 200 OK\r\nX-Bytes: \xff\r\n\r\n"[..],
        &b"HTTP/1.1 200 OK\r\n\xff: text\r\n\r\n"[..],
    ] {
        assert!(matches!(
            HttpResponse::parse(head),
            Err(HttpError::MalformedHeader)
        ));
    }
}

#[test]
fn what_follows_the_body_is_left_alone() {
    let first = b"HTTP/1.1 200 OK\r\nContent-Length: 2\r\n\r\nhi";
    let mut both = first.to_vec();
    both.extend_from_slice(b"HTTP/1.1 404 Not Found\r\nContent-Length: 0\r\n\r\n");
    let parsed = HttpResponse::parse(&both).expect("a response");
    assert_eq!(parsed.total_bytes(), first.len());
    assert_eq!(parsed.status, 200);
    let next = HttpResponse::parse(&both[parsed.total_bytes()..]).expect("a response");
    assert_eq!(next.status, 404);
    assert_eq!(next.total_bytes(), both.len() - first.len());
}

#[test]
fn status_codes_have_three_digits() {
    for line in ["HTTP/1.1 20 OK", "HTTP/1.1 099 OK", "HTTP/1.1 600 OK", "HTTP/1.1 2x0 OK"] {
        let head = format!("{line}\r\nA: b\r\n\r\n");
        assert!(matches!(
            HttpResponse::parse(head.as_bytes()),
            Err(HttpError::InvalidStatusCode)
        ));
    }
}

#[test]
fn content_length_is_found_in_any_case() {
    let parsed = HttpResponse::parse(b"HTTP/1.1 200 OK\r\ncOnTeNt-LENGTH: 3\r\n\r\nabcdef")
        .expect("a response");
    assert_eq!(parsed.body, b"abc");
    assert_eq!(parsed.header("CONTENT-length"), Some("3"));
}

#[test]
fn a_built_request_is_complete() {
    let mut request = post_json("h", "/p", b"{}");
    with_auth(&mut request, "token");
    let raw = request.build_raw().expect("a request");
    let text = String::from_utf8(raw).expect("text");
    assert!(text.starts_with("POST /p HTTP/1.1\r\nHost: h\r\n"));
    assert!(text.contains("Authorization: Bearer token\r\n"));
    assert!(text.contains("Content-Length: 2\r\n"));
    assert!(text.ends_with("\r\n\r\n{}"));
}

#[test]
fn bytes_and_line_ends_are_found() {
    assert_eq!(find_crlf(b"ab\r\ncd\r\n"), Some(2));
    assert_eq!(find_crlf(b"ab\rcd\n"), None);
    assert_eq!(memchr_byte(b'b', b"abab"), Some(1));
    assert_eq!(memchr_byte(b'x', b"abab"), None);
}

#[test]
fn a_response_needs_no_header_lines() {
    let parsed = HttpResponse::parse(b"HTTP/1.1 200 OK\r\n\r\nhi").expect("a response");
    assert_eq!(parsed.status, 200);
    assert!(parsed.headers.is_empty());
    assert_eq!(parsed.body, b"hi");
    assert_eq!(parsed.total_bytes(), 21);
    assert!(matches!(
        HttpResponse::parse(b"HTTP/1.1 20\r\n\r\n"),
        Err(HttpError::MalformedStatusLine)
    ));
}

#[test]
fn every_shorter_part_is_incomplete() {
    let raw = b"HTTP/1.1 200 OK\r\nContent-Length: 5\r\n\r\nhello";
    assert!(HttpResponse::parse(raw).is_ok());
    for n in 0..raw.len() {
        assert_eq!(HttpResponse::parse(&raw[..n]), Err(HttpError::Incomplete));
    }
}
