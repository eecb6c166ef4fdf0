use saba_core::browser::{Browser, Page};
use saba_core::http::HttpResponse;
use saba_core::net::HttpClient;
use saba_core::utils::convert_dom_to_string;
use saba_core::dom::Window;

#[test]
fn new_browser_has_one_empty_page() {
    let b = Browser::new();
    assert!(b.current_page().window().is_none());
    assert_eq!(b.current_page().get_browser(), Some(0));
}

#[test]
fn page_builds_a_window_from_the_body() {
    let mut page = Page::new();
    let res = HttpResponse::new("HTTP/1.1 200 OK\n\n<p>hi</p>".to_string()).unwrap();
    let out = page.receive_response(res);
    assert_eq!(
        out,
        "\nDocument\n  Element(html)\n    Element(head)\n    Element(body)\n      Element(p)\n        Text(hi)\n"
    );
    assert!(page.window().is_some());
}

#[test]
fn dump_of_nothing_is_a_line_break() {
    let w = Window::new();
    assert_eq!(convert_dom_to_string(&w, None), "\n");
    assert_eq!(convert_dom_to_string(&w, Some(0)), "\nDocument\n");
}

#[test]
fn request_text_for_get() {
    let c = HttpClient::new();
    assert_eq!(
        c.request("host.test", "test.html"),
        "GET /test.html HTTP/1.1\nHost: host.test\nAccept: text/html\nConnection: close\n\n"
    );
}
