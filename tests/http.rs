use saba_core::error::Error;
use saba_core::http::HttpResponse;

#[test]
fn test_status_line_only() {
    let raw = "HTTP/1.1 200 OK\n\n".into();
    let res = HttpResponse::new(raw).expect("failed to parse http response");
    assert_eq!(res.version(), "HTTP/1.1");
    assert_eq!(res.status_code(), 200);
    assert_eq!(res.reason(), "OK");
}

#[test]
fn test_one_header() {
    let raw = "HTTP/1.1 200 OK\nDate:xx xx xx\n\n".into();
    let res = HttpResponse::new(raw).expect("afiled to parse http response");
    assert_eq!(res.version(), "HTTP/1.1");
    assert_eq!(res.status_code(), 200);
    assert_eq!(res.reason(), "OK");

    assert_eq!(res.header_value("Date"), Ok("xx xx xx".into()))
}

#[test]
fn test_two_headers() {
    let raw = "HTTP/1.1 200 OK\nDate: xx xx xx\nContent-Length: 42\n\n".into();
    let res = HttpResponse::new(raw).expect("failed to parse http response");
    assert_eq!(res.version(), "HTTP/1.1");
    assert_eq!(res.status_code(), 200);
    assert_eq!(res.reason(), "OK");

    assert_eq!(res.header_value("Date"), Ok("xx xx xx".into()));
    assert_eq!(res.header_value("Content-Length"), Ok("42".into()));
}

#[test]
fn http_test_body() {
    let raw = "HTTP/1.1 200 OK\nDate: xx xx xx\n\nbody message".into();
    let res = HttpResponse::new(raw).expect("failed to parse http response");
    assert_eq!(res.version(), "HTTP/1.1");
    assert_eq!(res.status_code(), 200);
    assert_eq!(res.reason(), "OK");

    assert_eq!(res.header_value("Date"), Ok("xx xx xx".into()));

    assert_eq!(res.body(), "body message".to_string());
}

#[test]
fn test_invalid() {
    let raw = "HTTP/1.1 200 OK".into();
    assert!(HttpResponse::new(raw).is_err());
}

#[test]
fn invalid_message_carries_the_text() {
    match HttpResponse::new("  HTTP/1.1 200 OK".to_string()) {
        Err(Error::Network(m)) => assert_eq!(m, "invalid http response: HTTP/1.1 200 OK"),
        Ok(_) => panic!("expected an error"),
    }
}

#[test]
fn status_line_needs_three_fields() {
    assert!(HttpResponse::new("HTTP/1.1 200\n\n".to_string()).is_err());
    assert!(HttpResponse::new("HTTP/1.1 200 Not Found\n\n".to_string()).is_err());
    assert!(HttpResponse::new("HTTP/1.1  200 OK\n\n".to_string()).is_err());
}

#[test]
fn non_numeric_status_is_404() {
    let res = HttpResponse::new("HTTP/1.1 abc OK\n\n".to_string()).unwrap();
    assert_eq!(res.status_code(), 404);
    let res = HttpResponse::new("HTTP/1.1 4294967296 OK\n\n".to_string()).unwrap();
    assert_eq!(res.status_code(), 404);
    let res = HttpResponse::new("HTTP/1.1 4294967295 OK\n\n".to_string()).unwrap();
    assert_eq!(res.status_code(), 4294967295);
    let res = HttpResponse::new("HTTP/1.1 +201 Created\n\n".to_string()).unwrap();
    assert_eq!(res.status_code(), 201);
    let res = HttpResponse::new("HTTP/1.1 + OK\n\n".to_string()).unwrap();
    assert_eq!(res.status_code(), 404);
}

#[test]
fn leading_space_and_newline_carriage_return() {
    let raw = " \n\tHTTP/1.0 301 Moved\n\rLocation: /x\n\r\n\rhello\n\rworld".to_string();
    let res = HttpResponse::new(raw).unwrap();
    assert_eq!(res.version(), "HTTP/1.0");
    assert_eq!(res.status_code(), 301);
    assert_eq!(res.reason(), "Moved");
    assert_eq!(res.header_value("Location"), Ok("/x".to_string()));
    assert_eq!(res.body(), "hello\nworld");
}

#[test]
fn without_blank_line_everything_is_body() {
    let res = HttpResponse::new("HTTP/1.1 200 OK\nDate: x".to_string()).unwrap();
    assert_eq!(res.headers().len(), 0);
    assert_eq!(res.body(), "Date: x");
}

#[test]
fn header_line_without_colon_is_an_error() {
    assert!(HttpResponse::new("HTTP/1.1 200 OK\nbroken\n\nbody".to_string()).is_err());
}

#[test]
fn header_lookup_is_exact_and_first_wins() {
    let raw = "HTTP/1.1 200 OK\nA: 1\nA: 2\nb: 3\n\n".to_string();
    let res = HttpResponse::new(raw).unwrap();
    assert_eq!(res.headers().len(), 3);
    assert_eq!(res.header_value("A"), Ok("1".to_string()));
    assert_eq!(
        res.header_value("B"),
        Err("failed to find B in headers".to_string())
    );
    assert_eq!(res.header_value("b"), Ok("3".to_string()));
}

#[test]
fn header_value_keeps_later_colons() {
    let raw = "HTTP/1.1 200 OK\nHost:  a:80 \n\n".to_string();
    let res = HttpResponse::new(raw).unwrap();
    assert_eq!(res.header_value("Host"), Ok("a:80".to_string()));
}
