use saba_core::url::Url;

fn parsed(raw: &str) -> Url {
    let u = Url::new(raw.to_string()).parse().expect("failed to parse url");
    assert_eq!(u.url(), raw);
    u
}

#[test]
fn test_url_host() {
    let u = parsed("http://example.com");
    assert_eq!(u.host(), "example.com");
    assert_eq!(u.port(), "80");
    assert_eq!(u.path(), "");
    assert_eq!(u.searchpart(), "");
}

#[test]
fn test_url_host_port() {
    let u = parsed("http://example.com:8888");
    assert_eq!(u.host(), "example.com");
    assert_eq!(u.port(), "8888");
    assert_eq!(u.path(), "");
    assert_eq!(u.searchpart(), "");
}

#[test]
fn test_url_host_port_path() {
    let u = parsed("http://example.com:8888/index.html");
    assert_eq!(u.host(), "example.com");
    assert_eq!(u.port(), "8888");
    assert_eq!(u.path(), "index.html");
    assert_eq!(u.searchpart(), "");
}

#[test]
fn test_url_host_path() {
    let u = parsed("http://example.com/index.html");
    assert_eq!(u.host(), "example.com");
    assert_eq!(u.port(), "80");
    assert_eq!(u.path(), "index.html");
    assert_eq!(u.searchpart(), "");
}

#[test]
fn test_url_host_port_path_searchquery() {
    let u = parsed("http://example.com:8888/index.html?a=123&b= 456");
    assert_eq!(u.host(), "example.com");
    assert_eq!(u.port(), "8888");
    assert_eq!(u.path(), "index.html");
    assert_eq!(u.searchpart(), "a=123&b= 456");
}

#[test]
fn test_no_schme() {
    let url = "example.com".to_string();
    let expected = Err("Only HTTP scheme is supported.".to_string());
    assert_eq!(expected, Url::new(url).parse());
}

#[test]
fn test_unsupported_scheme() {
    let url = "https://example.com:8888/index.html".to_string();
    let expected = Err("Only HTTP scheme is supported.".to_string());
    assert_eq!(expected, Url::new(url).parse());
}

#[test]
fn parse_fills_the_url_in_place() {
    let mut u = Url::new("http://example.com:8080/a/b?x=1".to_string());
    let copy = u.parse().expect("failed to parse url");
    assert_eq!(copy, u);
    assert_eq!(u.path(), "a/b");
    assert_eq!(u.searchpart(), "x=1");
}

#[test]
fn failed_parse_leaves_fields_empty() {
    let mut u = Url::new("ftp://example.com".to_string());
    assert!(u.parse().is_err());
    assert_eq!(u.host(), "");
    assert_eq!(u.port(), "");
}

#[test]
fn query_without_path_is_empty() {
    let u = parsed("http://example.com?q=1");
    assert_eq!(u.host(), "example.com?q=1");
    assert_eq!(u.path(), "");
    assert_eq!(u.searchpart(), "");
}

#[test]
fn empty_path_and_query_after_slash() {
    let u = parsed("http://example.com/");
    assert_eq!(u.path(), "");
    assert_eq!(u.searchpart(), "");
    let u = parsed("http://example.com/x?");
    assert_eq!(u.path(), "x");
    assert_eq!(u.searchpart(), "");
}

#[test]
fn port_keeps_text_after_first_colon() {
    let u = parsed("http://h:1:2/p");
    assert_eq!(u.host(), "h");
    assert_eq!(u.port(), "1:2");
    assert_eq!(u.path(), "p");
}

#[test]
fn rebuilt_url_parses_to_same_parts() {
    for raw in [
        "http://example.com",
        "http://example.com:8888/index.html?a=123&b= 456",
        "http://h/p?q?r",
        "http://h:/",
    ] {
        let u = parsed(raw);
        let rebuilt = format!(
            "http://{}:{}/{}?{}",
            u.host(),
            u.port(),
            u.path(),
            u.searchpart()
        );
        let v = parsed(&rebuilt);
        assert_eq!(u.host(), v.host());
        assert_eq!(u.port(), v.port());
        assert_eq!(u.path(), v.path());
        assert_eq!(u.searchpart(), v.searchpart());
    }
}
