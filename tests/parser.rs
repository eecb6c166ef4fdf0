use saba_core::attribute::Attribute;
use saba_core::dom::{Element, ElementKind, NodeKind, Window};
use saba_core::parser::HtmlParser;
use saba_core::token::{HtmlToken, HtmlTokenizer};
use saba_core::utils::convert_dom_to_string;

fn parse(html: &str) -> Window {
    let t = HtmlTokenizer::new(html.to_string());
    HtmlParser::new(t).construct_tree()
}

fn element(tag: &str) -> NodeKind {
    NodeKind::Element(Element::new(tag, Vec::new()))
}

fn dump(w: &Window) -> String {
    convert_dom_to_string(w, Some(w.document()))
}

fn tokens(html: &str) -> Vec<HtmlToken> {
    let mut t = HtmlTokenizer::new(html.to_string());
    let mut out = Vec::new();
    while let Some(tok) = t.next() {
        out.push(tok);
    }
    out
}

#[test]
fn test_empty() {
    let window = parse("");
    let document = window.document();
    assert_eq!(&NodeKind::Document, window.node(document).kind());
    assert_eq!(None, window.node(document).first_child());
}

#[test]
fn parser_test_body() {
    let window = parse("<html><head></head><body></body></html>");
    let document = window.document();
    assert_eq!(&NodeKind::Document, window.node(document).kind());

    let html = window
        .node(document)
        .first_child()
        .expect("failed to get a first child of document");
    assert_eq!(&element("html"), window.node(html).kind());

    let head = window
        .node(html)
        .first_child()
        .expect("failed to get a first child of html");
    assert_eq!(&element("head"), window.node(head).kind());

    let body = window
        .node(head)
        .next_sibling()
        .expect("failed to get a next sibling of head");
    assert_eq!(&element("body"), window.node(body).kind());
}

#[test]
fn test_text() {
    let window = parse("<html><head></head><body>text</body></html>");
    let document = window.document();
    assert_eq!(&NodeKind::Document, window.node(document).kind());

    let html = window
        .node(document)
        .first_child()
        .expect("failed to get a first child of document");
    assert_eq!(&element("html"), window.node(html).kind());

    let head = window
        .node(html)
        .first_child()
        .expect("failed to get a first child of document");
    let body = window
        .node(head)
        .next_sibling()
        .expect("failed to get a next sibling of head");
    assert_eq!(&element("body"), window.node(body).kind());

    let text = window
        .node(body)
        .first_child()
        .expect("failed to get a first child of document");
    assert_eq!(&NodeKind::Text("text".to_string()), window.node(text).kind());
}

#[test]
fn test_multiple_nodes() {
    let window = parse("<html><head></head><body><p><a foo=bar>text</a></p></body></html>");
    let document = window.document();

    let html = window
        .node(document)
        .first_child()
        .expect("failed to get a first child of document");
    let head = window
        .node(html)
        .first_child()
        .expect("failed to get a frist child of document");
    let body = window
        .node(head)
        .next_sibling()
        .expect("failed to get a next sibling of head");
    assert_eq!(&element("body"), window.node(body).kind());

    let p = window
        .node(body)
        .first_child()
        .expect("failed to get a first child of body");
    assert_eq!(&element("p"), window.node(p).kind());

    let mut attr = Attribute::new();
    attr.add_char('f', true);
    attr.add_char('o', true);
    attr.add_char('o', true);
    attr.add_char('b', false);
    attr.add_char('a', false);
    attr.add_char('r', false);
    let a = window
        .node(p)
        .first_child()
        .expect("failed to get a first child of p");
    assert_eq!(
        &NodeKind::Element(Element::new("a", vec![attr])),
        window.node(a).kind()
    );

    let text = window
        .node(a)
        .first_child()
        .expect("failed to get a first child of a");
    assert_eq!(&NodeKind::Text("text".to_string()), window.node(text).kind());
}

#[test]
fn missing_html_head_body_are_synthesized() {
    let window = parse("hello<p>x</p>");
    assert_eq!(
        dump(&window),
        "\nDocument\n  Element(html)\n    Element(head)\n    Element(body)\n      Element(p)\n        Text(x)\n"
    );
}

#[test]
fn text_only_document_has_no_children() {
    let window = parse("just text");
    assert_eq!(window.node(0).first_child(), None);
    assert_eq!(window.len(), 1);
}

#[test]
fn unknown_tag_in_head_is_ignored() {
    let window = parse("<head><meta charset=utf-8><title>t</title></head><body>b</body>");
    assert_eq!(
        dump(&window),
        "\nDocument\n  Element(html)\n    Element(head)\n    Element(body)\n      Text(b)\n"
    );
}

#[test]
fn unknown_start_tag_in_body_does_not_hang() {
    let window = parse("<body><div><p>x</p></div><span>y</body>");
    assert_eq!(
        dump(&window),
        "\nDocument\n  Element(html)\n    Element(head)\n    Element(body)\n      Element(p)\n        Text(x)\n      Text(y)\n"
    );
}

#[test]
fn body_level_tag_ends_head() {
    let window = parse("<head><p>x");
    assert_eq!(
        dump(&window),
        "\nDocument\n  Element(html)\n    Element(head)\n    Element(body)\n      Element(p)\n        Text(x)\n"
    );
}

#[test]
fn script_content_is_kept_as_text() {
    let window = parse("<html><head><script>if (a<b) {}</s</script></head><body></body></html>");
    assert_eq!(
        dump(&window),
        "\nDocument\n  Element(html)\n    Element(head)\n      Element(script)\n        Text(if (a<b) {}</s)\n    Element(body)\n"
    );
}

#[test]
fn whitespace_between_tags_makes_no_text() {
    let window = parse("<html>\n <head> </head>\n <body>\n<h1>A B</h1> <h2>c</h2></body></html>");
    assert_eq!(
        dump(&window),
        "\nDocument\n  Element(html)\n    Element(head)\n    Element(body)\n      Element(h1)\n        Text(A B)\n      Element(h2)\n        Text(c)\n"
    );
}

#[test]
fn stray_end_tag_is_ignored() {
    let window = parse("<body></p>x</a></h1>");
    assert_eq!(
        dump(&window),
        "\nDocument\n  Element(html)\n    Element(head)\n    Element(body)\n      Text(x)\n"
    );
}

#[test]
fn links_agree_both_ways() {
    let window = parse("<p>a</p><p>b<a>c</a></p><h1>d</h1>");
    for i in 0..window.len() {
        let n = window.node(i);
        if let Some(f) = n.first_child() {
            assert_eq!(window.node(f).parent(), Some(i));
            assert_eq!(window.node(f).previous_sibling(), None);
        }
        if let Some(s) = n.next_sibling() {
            assert_eq!(window.node(s).previous_sibling(), Some(i));
            assert_eq!(window.node(s).parent(), n.parent());
        }
        if let Some(l) = n.last_child() {
            assert_eq!(window.node(l).next_sibling(), None);
        }
    }
}

#[test]
fn parsing_twice_gives_the_same_tree() {
    let src = "<html><head><style>p{}</style></head><body><p><a href='x' b=\"y\">t</a></p></body></html>";
    assert_eq!(dump(&parse(src)), dump(&parse(src)));
}

#[test]
fn html_end_tag_then_more_content() {
    let window = parse("<body></html><p>x");
    let doc = window.node(window.document());
    let html = doc.first_child().unwrap();
    assert_eq!(&element("html"), window.node(html).kind());
    assert_eq!(window.node(html).next_sibling(), None);
    assert_eq!(
        dump(&window),
        "\nDocument\n  Element(html)\n    Element(head)\n    Element(body)\n      Element(p)\n        Text(x)\n"
    );
}

#[test]
fn content_after_body_end_goes_into_body() {
    let window = parse("<body><h1>a</h1></body>b<p>c</p></html><h2>d");
    assert_eq!(
        dump(&window),
        "\nDocument\n  Element(html)\n    Element(head)\n    Element(body)\n      Element(h1)\n        Text(a)\n      Element(p)\n        Text(c)\n      Element(h2)\n        Text(d)\n"
    );
}

#[test]
fn tokenizer_reads_tags_and_attributes() {
    let toks = tokens("<A HREF='x y' Id=\"q\" checked/>z</B >");
    let mut href = Attribute::new();
    for c in "href".chars() {
        href.add_char(c, true);
    }
    for c in "x y".chars() {
        href.add_char(c, false);
    }
    let mut id = Attribute::new();
    id.add_char('i', true);
    id.add_char('d', true);
    id.add_char('q', false);
    let mut checked = Attribute::new();
    for c in "checked".chars() {
        checked.add_char(c, true);
    }
    assert_eq!(
        toks,
        vec![
            HtmlToken::StartTag {
                tag: "a".to_string(),
                self_closing: true,
                attributes: vec![href, id, checked],
            },
            HtmlToken::Char('z'),
            HtmlToken::EndTag { tag: "b".to_string() },
            HtmlToken::Eof,
        ]
    );
}

#[test]
fn tokenizer_keeps_lone_less_than() {
    assert_eq!(
        tokens("a<1"),
        vec![
            HtmlToken::Char('a'),
            HtmlToken::Char('<'),
            HtmlToken::Char('1'),
            HtmlToken::Eof,
        ]
    );
    assert_eq!(tokens(""), vec![HtmlToken::Eof]);
}

#[test]
fn element_kinds_by_name() {
    assert_eq!(ElementKind::from_name("h2"), Some(ElementKind::H2));
    assert_eq!(ElementKind::from_name("div"), None);
    assert_eq!(ElementKind::from_name("HTML"), None);
}

#[test]
fn attribute_builder_appends() {
    let mut a = Attribute::new();
    a.add_char('k', true);
    a.add_char('v', false);
    a.add_char('w', false);
    assert_eq!(a.name(), "k");
    assert_eq!(a.value(), "vw");
}
