use vstd::prelude::*;

use crate::attribute::Attribute;
use crate::dom::{
    append_view, codes, dom_view, lemma_append_view, node_view, view_kind, KindView, NodeView,
    append_facts, append_spec, lemma_append_keeps, lemma_append_wf, node_ok, spec_element_kind, wf_nodes, Element, ElementKind, Node,
    NodeKind, Window,
};
use crate::text::push_char;
use crate::token::{attr_views, next_spec, token_view, HtmlToken, HtmlTokenizer, Machine, TokenView};

verus! {

#[derive(Debug, Clone, Copy, PartialEq, Eq, Structural)]
pub enum InsertionMode {
    Initial,
    BeforeHtml,
    BeforeHead,
    InHead,
    AfterHead,
    InBody,
    Text,
    AfterBody,
    AfterAfterBody,
}

pub open spec fn kind_at(nodes: Seq<Node>, i: int) -> Option<ElementKind> {
    spec_element_kind(nodes[i].kind)
}

/// The shape that tree construction keeps: a well-formed node list whose document's first
/// child, once there is one, is the `html` element at index 1; whose `html` element's first
/// child, once there is one, is the `head` element at index 2; and in which the sibling that
/// follows `head`, once there is one, is a `body` element.
pub open spec fn dom_shape(nodes: Seq<Node>) -> bool {
    &&& wf_nodes(nodes)
    &&& (nodes.len() == 1 ==> nodes[0].first_child is None)
    &&& (nodes.len() >= 2 ==> nodes[0].first_child == Some(1usize) && kind_at(nodes, 1) == Some(
        ElementKind::Html,
    ) && nodes[1].next_sibling is None)
    &&& (nodes.len() >= 3 ==> nodes[1].first_child == Some(2usize) && kind_at(nodes, 2) == Some(
        ElementKind::Head,
    ))
    &&& (nodes.len() >= 3 ==> (nodes[2].next_sibling matches Some(b) ==> kind_at(nodes, b as int)
        == Some(ElementKind::Body) && nodes[b as int].next_sibling is None && nodes[1].last_child == Some(b)))
}

/// The document has at most one child, an `html` element, and has it as soon as anything has
/// been inserted.
pub open spec fn only_document_child_is_html(nodes: Seq<Node>) -> bool {
    &&& (nodes.len() >= 2 ==> nodes[0].first_child is Some)
    &&& (nodes[0].first_child matches Some(h) ==> kind_at(nodes, h as int) == Some(ElementKind::Html)
        && nodes[h as int].next_sibling is None)
}

/// The children of that `html` element: none, or `head`, or `head` then `body` and nothing
/// after `body`.
pub open spec fn html_children_are_head_then_body(nodes: Seq<Node>) -> bool {
    nodes[0].first_child matches Some(h) ==> (nodes[h as int].first_child matches Some(hd) ==> kind_at(
        nodes,
        hd as int,
    ) == Some(ElementKind::Head) && (nodes[hd as int].next_sibling matches Some(b) ==> kind_at(
        nodes,
        b as int,
    ) == Some(ElementKind::Body) && nodes[b as int].next_sibling is None && nodes[h as int].last_child
        == Some(b)))
}

/// A tree of that shape starts with `html`, then `head` and `body` under it.
pub proof fn lemma_shape_laws(nodes: Seq<Node>)
    requires
        dom_shape(nodes),
    ensures
        only_document_child_is_html(nodes),
        html_children_are_head_then_body(nodes),
{
    assert(node_ok(nodes, 0));
    if nodes.len() >= 2 {
        assert(node_ok(nodes, 1));
    }
}

/// Appending keeps the shape when the first element is `html` under the document, the second
/// is `head` under `html`, and the one that follows `head` under `html` is `body`.
pub proof fn lemma_shape_append(nodes: Seq<Node>, p: int, kind: NodeKind)
    requires
        dom_shape(nodes),
        0 <= p < nodes.len(),
        !(nodes[p].kind is Text),
        !(kind is Document),
        nodes.len() < usize::MAX,
        nodes.len() == 1 ==> p == 0 && spec_element_kind(kind) == Some(ElementKind::Html),
        nodes.len() == 2 ==> p == 1 && spec_element_kind(kind) == Some(ElementKind::Head),
        nodes.len() >= 2 ==> p != 0,
        nodes.len() >= 3 && p == 1 ==> nodes[1].last_child == Some(2usize) && spec_element_kind(kind)
            == Some(ElementKind::Body),
    ensures
        dom_shape(append_spec(nodes, p, kind)),
{
    lemma_append_wf(nodes, p, kind);
    assert(node_ok(nodes, 0));
    assert(node_ok(nodes, p));
    if nodes.len() >= 2 {
        assert(node_ok(nodes, 1));
    }
    if nodes.len() >= 3 {
        assert(node_ok(nodes, 2));
        if let Some(l) = nodes[p].last_child {
            assert(node_ok(nodes, l as int));
        }
    }
}

/// Changing the kind of a text node to other text keeps the shape.
pub proof fn lemma_shape_text(nodes: Seq<Node>, after: Seq<Node>, id: int)
    requires
        dom_shape(nodes),
        wf_nodes(after),
        0 <= id < nodes.len(),
        nodes[id].kind is Text,
        after.len() == nodes.len(),
        after[id].kind is Text,
        after[id].first_child == nodes[id].first_child,
        after[id].next_sibling == nodes[id].next_sibling,
        forall|j: int| 0 <= j < nodes.len() && j != id ==> #[trigger] after[j] == nodes[j],
    ensures
        dom_shape(after),
{
    if nodes.len() >= 3 {
        if let Some(b) = nodes[2].next_sibling {
            assert(node_ok(nodes, 2));
        }
    }
}

pub open spec fn rank(m: InsertionMode) -> nat {
    match m {
        InsertionMode::Initial => 8,
        InsertionMode::BeforeHtml => 7,
        InsertionMode::BeforeHead => 6,
        InsertionMode::InHead => 5,
        InsertionMode::AfterHead => 4,
        InsertionMode::AfterBody => 3,
        InsertionMode::AfterAfterBody => 3,
        InsertionMode::Text => 2,
        InsertionMode::InBody => 1,
    }
}

/// How many elements a mode may still insert on its own: `html`, `head` and `body`.
pub open spec fn budget(m: InsertionMode) -> nat {
    match m {
        InsertionMode::Initial => 3,
        InsertionMode::BeforeHtml => 3,
        InsertionMode::BeforeHead => 2,
        InsertionMode::InHead => 1,
        InsertionMode::Text => 1,
        InsertionMode::AfterHead => 1,
        _ => 0,
    }
}


/// The tree constructor's state as plain values.
pub struct ParserView {
    pub nodes: Seq<NodeView>,
    pub mode: InsertionMode,
    pub orig: InsertionMode,
    pub stack: Seq<usize>,
}

/// What a handler does with a token: take the next one, handle it again, or stop.
pub enum FlowView {
    Next,
    Again,
    Stop,
}

pub enum ClassView {
    Char(int),
    Start(Option<ElementKind>),
    End(Option<ElementKind>),
    Eof,
}

pub open spec fn class_of(t: TokenView) -> ClassView {
    match t {
        TokenView::StartTag(name, _, _) => ClassView::Start(crate::dom::element_kind_of(name)),
        TokenView::EndTag(name) => ClassView::End(crate::dom::element_kind_of(name)),
        TokenView::Char(c) => ClassView::Char(c),
        TokenView::Eof => ClassView::Eof,
    }
}

pub open spec fn attrs_of(t: TokenView) -> Seq<(Seq<char>, Seq<char>)> {
    match t {
        TokenView::StartTag(_, _, a) => a,
        _ => Seq::empty(),
    }
}

pub open spec fn is_blank(c: int) -> bool {
    c == ' ' as int || c == '\n' as int
}

pub open spec fn v_top_is_text(pv: ParserView) -> bool {
    pv.stack.len() > 0 && pv.nodes[pv.stack.last() as int].kind is Text
}

pub open spec fn v_base(pv: ParserView) -> Seq<usize> {
    if v_top_is_text(pv) {
        pv.stack.drop_last()
    } else {
        pv.stack
    }
}

pub open spec fn v_parent(pv: ParserView) -> int {
    let b = v_base(pv);
    if b.len() > 0 {
        b.last() as int
    } else {
        0
    }
}

/// Insert-element on plain values.
pub open spec fn v_insert_element(pv: ParserView, kind: ElementKind, attrs: Seq<(Seq<char>, Seq<char>)>) -> ParserView {
    ParserView {
        nodes: append_view(pv.nodes, v_parent(pv), KindView::Element(kind, attrs)),
        stack: v_base(pv).push(pv.nodes.len() as usize),
        ..pv
    }
}

/// Insert-character on plain values.
pub open spec fn v_insert_char(pv: ParserView, c: int) -> ParserView {
    if pv.stack.len() == 0 {
        pv
    } else if v_top_is_text(pv) {
        let top = pv.stack.last() as int;
        let n = pv.nodes[top];
        ParserView {
            nodes: pv.nodes.update(top, NodeView { kind: KindView::Text(n.kind->Text_0.push(c)), ..n }),
            ..pv
        }
    } else if is_blank(c) {
        pv
    } else {
        ParserView {
            nodes: append_view(pv.nodes, pv.stack.last() as int, KindView::Text(seq![c])),
            stack: pv.stack.push(pv.nodes.len() as usize),
            ..pv
        }
    }
}

pub open spec fn v_kind_at(pv: ParserView, j: int) -> Option<ElementKind> {
    view_kind(pv.nodes[pv.stack[j] as int].kind)
}

pub open spec fn v_contains(pv: ParserView, k: ElementKind) -> bool {
    exists|j: int| 0 <= j < pv.stack.len() && #[trigger] v_kind_at(pv, j) == Some(k)
}

pub open spec fn innermost(pv: ParserView, k: ElementKind, i: int) -> bool {
    &&& 0 <= i < pv.stack.len()
    &&& v_kind_at(pv, i) == Some(k)
    &&& forall|j: int| i < j < pv.stack.len() ==> #[trigger] v_kind_at(pv, j) != Some(k)
}

/// Pops up to and including the innermost open element of kind `k`.
pub open spec fn v_pop_until(pv: ParserView, k: ElementKind) -> ParserView {
    ParserView { stack: pv.stack.subrange(0, choose|i: int| innermost(pv, k, i)), ..pv }
}

pub open spec fn v_current_is(pv: ParserView, k: ElementKind) -> bool {
    pv.stack.len() > 0 && v_kind_at(pv, pv.stack.len() - 1) == Some(k)
}

pub open spec fn v_pop(pv: ParserView) -> ParserView {
    ParserView { stack: pv.stack.drop_last(), ..pv }
}

pub open spec fn v_mode(pv: ParserView, m: InsertionMode) -> ParserView {
    ParserView { mode: m, ..pv }
}

pub open spec fn is_inline(k: ElementKind) -> bool {
    k == ElementKind::P || k == ElementKind::H1 || k == ElementKind::H2 || k == ElementKind::A
}

/// Back in the body: `html` and `body` are the open elements again.
pub open spec fn v_reopen_body(pv: ParserView) -> ParserView {
    ParserView {
        stack: seq![1usize, pv.nodes[2].next_sibling->Some_0],
        mode: InsertionMode::InBody,
        ..pv
    }
}

/// One token handled in the current insertion mode.
pub open spec fn v_process(pv: ParserView, t: TokenView) -> (ParserView, FlowView) {
    let cl = class_of(t);
    match pv.mode {
        InsertionMode::Initial => match cl {
            ClassView::Char(_) => (pv, FlowView::Next),
            _ => (v_mode(pv, InsertionMode::BeforeHtml), FlowView::Again),
        },
        InsertionMode::BeforeHtml => match cl {
            ClassView::Char(c) if is_blank(c) => (pv, FlowView::Next),
            ClassView::Start(Some(ElementKind::Html)) => (
                v_mode(v_insert_element(pv, ElementKind::Html, attrs_of(t)), InsertionMode::BeforeHead),
                FlowView::Next,
            ),
            ClassView::Eof => (pv, FlowView::Stop),
            _ => (
                v_mode(v_insert_element(pv, ElementKind::Html, Seq::empty()), InsertionMode::BeforeHead),
                FlowView::Again,
            ),
        },
        InsertionMode::BeforeHead => match cl {
            ClassView::Char(c) if is_blank(c) => (pv, FlowView::Next),
            ClassView::Start(Some(ElementKind::Head)) => (
                v_mode(v_insert_element(pv, ElementKind::Head, attrs_of(t)), InsertionMode::InHead),
                FlowView::Next,
            ),
            ClassView::Eof => (pv, FlowView::Stop),
            _ => (
                v_mode(v_insert_element(pv, ElementKind::Head, Seq::empty()), InsertionMode::InHead),
                FlowView::Again,
            ),
        },
        InsertionMode::InHead => match cl {
            ClassView::Char(c) => (
                if is_blank(c) {
                    v_insert_char(pv, c)
                } else {
                    pv
                },
                FlowView::Next,
            ),
            ClassView::Start(Some(k)) => if k == ElementKind::Style || k == ElementKind::Script {
                (
                    ParserView {
                        mode: InsertionMode::Text,
                        orig: pv.mode,
                        ..v_insert_element(pv, k, attrs_of(t))
                    },
                    FlowView::Next,
                )
            } else {
                (v_mode(v_pop_until(pv, ElementKind::Head), InsertionMode::AfterHead), FlowView::Again)
            },
            ClassView::End(Some(ElementKind::Head)) => (
                v_mode(v_pop_until(pv, ElementKind::Head), InsertionMode::AfterHead),
                FlowView::Next,
            ),
            ClassView::Eof => (pv, FlowView::Stop),
            _ => (pv, FlowView::Next),
        },
        InsertionMode::AfterHead => match cl {
            ClassView::Char(c) if is_blank(c) => (v_insert_char(pv, c), FlowView::Next),
            ClassView::Start(Some(ElementKind::Body)) => (
                v_mode(v_insert_element(pv, ElementKind::Body, attrs_of(t)), InsertionMode::InBody),
                FlowView::Next,
            ),
            ClassView::Eof => (pv, FlowView::Stop),
            _ => (
                v_mode(v_insert_element(pv, ElementKind::Body, Seq::empty()), InsertionMode::InBody),
                FlowView::Again,
            ),
        },
        InsertionMode::InBody => match cl {
            ClassView::Start(Some(k)) => (
                if is_inline(k) {
                    v_insert_element(pv, k, attrs_of(t))
                } else {
                    pv
                },
                FlowView::Next,
            ),
            ClassView::Start(None) => (pv, FlowView::Next),
            ClassView::End(Some(ElementKind::Body)) => (
                v_mode(
                    if v_contains(pv, ElementKind::Body) {
                        v_pop_until(pv, ElementKind::Body)
                    } else {
                        pv
                    },
                    InsertionMode::AfterBody,
                ),
                FlowView::Next,
            ),
            ClassView::End(Some(ElementKind::Html)) => (
                if v_current_is(pv, ElementKind::Body) {
                    let p1 = v_pop(pv);
                    v_mode(
                        if v_current_is(p1, ElementKind::Html) {
                            v_pop(p1)
                        } else {
                            p1
                        },
                        InsertionMode::AfterAfterBody,
                    )
                } else {
                    pv
                },
                FlowView::Next,
            ),
            ClassView::End(Some(k)) => (
                if is_inline(k) && v_contains(pv, k) {
                    v_pop_until(pv, k)
                } else {
                    pv
                },
                FlowView::Next,
            ),
            ClassView::End(None) => (pv, FlowView::Next),
            ClassView::Char(c) => (v_insert_char(pv, c), FlowView::Next),
            ClassView::Eof => (pv, FlowView::Stop),
        },
        InsertionMode::Text => match cl {
            ClassView::Char(c) => (v_insert_char(pv, c), FlowView::Next),
            ClassView::End(Some(k)) => (
                if v_kind_at(pv, 2) == Some(k) {
                    ParserView { stack: pv.stack.subrange(0, 2), mode: pv.orig, ..pv }
                } else {
                    pv
                },
                FlowView::Next,
            ),
            ClassView::Eof => (pv, FlowView::Stop),
            _ => (pv, FlowView::Next),
        },
        InsertionMode::AfterBody => match cl {
            ClassView::Char(_) => (pv, FlowView::Next),
            ClassView::End(Some(ElementKind::Html)) => (v_mode(pv, InsertionMode::AfterAfterBody), FlowView::Next),
            ClassView::Eof => (pv, FlowView::Stop),
            _ => (v_reopen_body(pv), FlowView::Again),
        },
        InsertionMode::AfterAfterBody => match cl {
            ClassView::Char(_) => (pv, FlowView::Next),
            ClassView::Eof => (pv, FlowView::Stop),
            _ => (v_reopen_body(pv), FlowView::Again),
        },
    }
}

/// Tree construction from state `pv`, holding token `cur`, with the tokenizer at `pos` in
/// `input` in state `m`; `fuel` bounds the steps.
pub open spec fn v_run(input: Seq<char>, pos: int, m: Machine, pv: ParserView, cur: Option<TokenView>, fuel: nat) -> Seq<NodeView>
    decreases fuel,
{
    if fuel == 0 {
        pv.nodes
    } else {
        match cur {
            None => pv.nodes,
            Some(t) => {
                let (pv2, f) = v_process(pv, t);
                match f {
                    FlowView::Stop => pv2.nodes,
                    FlowView::Again => v_run(input, pos, m, pv2, cur, (fuel - 1) as nat),
                    FlowView::Next => {
                        let (c2, pos2, m2) = next_spec(input, pos, m);
                        v_run(input, pos2, m2, pv2, c2, (fuel - 1) as nat)
                    },
                }
            },
        }
    }
}

/// The tree built from state `pv` with the tokenizer at `pos` in `input` in state `m`, within
/// `fuel` steps.
pub open spec fn tree_from(input: Seq<char>, pos: int, m: Machine, pv: ParserView, fuel: nat) -> Seq<NodeView> {
    let (c, pos2, m2) = next_spec(input, pos, m);
    v_run(input, pos2, m2, pv, c, fuel)
}

/// A document holding nothing, and no open element.
pub open spec fn initial_parser_view() -> ParserView {
    ParserView {
        nodes: seq![
            NodeView {
                kind: KindView::Document,
                parent: None,
                first_child: None,
                last_child: None,
                next_sibling: None,
                previous_sibling: None,
            },
        ],
        mode: InsertionMode::Initial,
        orig: InsertionMode::Initial,
        stack: Seq::empty(),
    }
}

/// The DOM that parsing `html` builds: each token of the tokenizer's model run through the
/// insertion modes, from an empty document. Every run ends within the fuel given here.
pub open spec fn html_tree(html: Seq<char>) -> Seq<NodeView> {
    tree_from(html, 0, crate::token::initial_machine(), initial_parser_view(), 10 * (2 * html.len() + 1) + 10)
}

/// Parsing the empty text leaves the document without children.
pub proof fn lemma_empty_html()
    ensures
        html_tree(Seq::empty()) == initial_parser_view().nodes,
        html_tree(Seq::empty()).len() == 1,
        html_tree(Seq::empty())[0].first_child is None,
{
    let m = crate::token::initial_machine();
    let e = Seq::<char>::empty();
    assert(next_spec(e, 0, m).0 == Some(TokenView::Eof));
    let pv = initial_parser_view();
    let (pv1, f1) = v_process(pv, TokenView::Eof);
    assert(f1 == FlowView::Again);
    let (pv2, f2) = v_process(pv1, TokenView::Eof);
    assert(f2 == FlowView::Stop);
    let (_, pos2, m2) = next_spec(e, 0, m);
    assert(v_run(e, pos2, m2, pv1, Some(TokenView::Eof), 19) == pv1.nodes);
}

/// In `head`, a start tag whose name is not recognized is dropped: nothing changes, and the
/// next token follows.
pub proof fn lemma_unknown_tag_in_head(pv: ParserView, t: TokenView)
    requires
        pv.mode == InsertionMode::InHead,
        class_of(t) == ClassView::Start(None),
    ensures
        v_process(pv, t) == (pv, FlowView::Next),
{
}

/// The same text always gives the same tree.
pub proof fn lemma_html_tree_deterministic(a: Seq<char>, b: Seq<char>)
    requires
        a == b,
    ensures
        html_tree(a) == html_tree(b),
{
}

/// What a token handler did with the token.
enum Flow {
    Next,
    Reconsume(HtmlToken),
    Stop,
}

spec fn flow_view(r: Flow) -> FlowView {
    match r {
        Flow::Next => FlowView::Next,
        Flow::Reconsume(_) => FlowView::Again,
        Flow::Stop => FlowView::Stop,
    }
}

#[derive(Clone, Copy)]
enum TokenClass {
    Char(char),
    Start(Option<ElementKind>),
    End(Option<ElementKind>),
    Eof,
}

spec fn class_view(c: TokenClass) -> ClassView {
    match c {
        TokenClass::Char(x) => ClassView::Char(x as int),
        TokenClass::Start(k) => ClassView::Start(k),
        TokenClass::End(k) => ClassView::End(k),
        TokenClass::Eof => ClassView::Eof,
    }
}

fn classify(tok: &HtmlToken) -> (r: TokenClass)
    ensures
        class_view(r) == class_of(token_view(*tok)),
{
    match tok {
        HtmlToken::StartTag { tag, .. } => TokenClass::Start(ElementKind::from_name(tag.as_str())),
        HtmlToken::EndTag { tag } => TokenClass::End(ElementKind::from_name(tag.as_str())),
        HtmlToken::Char(c) => TokenClass::Char(*c),
        HtmlToken::Eof => TokenClass::Eof,
    }
}

fn no_attributes() -> (r: Vec<Attribute>)
    ensures
        attr_views(r@) == Seq::<(Seq<char>, Seq<char>)>::empty(),
{
    let r: Vec<Attribute> = Vec::new();
    assert(attr_views(r@) =~= Seq::empty());
    r
}

fn take_attributes(tok: HtmlToken) -> (r: Vec<Attribute>)
    ensures
        attr_views(r@) == attrs_of(token_view(tok)),
{
    match tok {
        HtmlToken::StartTag { attributes, .. } => attributes,
        _ => {
            let r: Vec<Attribute> = Vec::new();
            assert(attr_views(r@) =~= Seq::empty());
            r
        },
    }
}

/// Builds the DOM of a document from its tokens.
#[derive(Debug)]
pub struct HtmlParser {
    window: Window,
    mode: InsertionMode,
    original_insertion_mode: InsertionMode,
    stack_of_open_elements: Vec<usize>,
    t: HtmlTokenizer,
}

impl HtmlParser {
    pub closed spec fn mode(&self) -> InsertionMode {
        self.mode
    }

    pub closed spec fn original_mode(&self) -> InsertionMode {
        self.original_insertion_mode
    }

    /// The indices of the open elements, innermost last.
    pub closed spec fn open_elements(&self) -> Seq<usize> {
        self.stack_of_open_elements@
    }

    pub closed spec fn tokenizer(&self) -> HtmlTokenizer {
        self.t
    }

    pub closed spec fn nodes(&self) -> Seq<Node> {
        self.window@
    }

    /// The state as plain values.
    pub closed spec fn pview(&self) -> ParserView {
        ParserView {
            nodes: dom_view(self.window@),
            mode: self.mode,
            orig: self.original_insertion_mode,
            stack: self.stack_of_open_elements@,
        }
    }

    proof fn lemma_kinds(&self)
        requires
            self.stack_ok(),
        ensures
            self.pview().nodes.len() == self.window@.len(),
            forall|j: int|
                0 <= j < self.stack_of_open_elements@.len() ==> #[trigger] v_kind_at(self.pview(), j)
                    == kind_at(self.window@, self.stack_of_open_elements@[j] as int) && ((
                self.pview().nodes[self.stack_of_open_elements@[j] as int].kind is Text)
                    == (self.window@[self.stack_of_open_elements@[j] as int].kind is Text)),
            self.base_stack() == v_base(self.pview()),
            self.insert_parent() == v_parent(self.pview()),
    {
        let st = self.stack_of_open_elements@;
        let n = self.window@;
        assert forall|j: int| 0 <= j < st.len() implies #[trigger] v_kind_at(self.pview(), j) == kind_at(n, st[j] as int)
            && ((self.pview().nodes[st[j] as int].kind is Text) == (n[st[j] as int].kind is Text)) by {
            assert(dom_view(n)[st[j] as int] == node_view(n[st[j] as int]));
        }
        if st.len() > 0 {
            assert(dom_view(n)[st.last() as int] == node_view(n[st.last() as int]));
        }
    }

    closed spec fn stack_ok(&self) -> bool {
        let n = self.window@;
        let st = self.stack_of_open_elements@;
        &&& forall|j: int| 0 <= j < st.len() ==> 1 <= #[trigger] st[j] && (st[j] as int) < n.len()
        &&& forall|j: int| 0 <= j < st.len() - 1 ==> !(n[#[trigger] st[j] as int].kind is Text)
        &&& st.len() > 0 ==> !(n[st[0] as int].kind is Text)
    }

    closed spec fn top_is_text(&self) -> bool {
        let st = self.stack_of_open_elements@;
        st.len() > 0 && self.window@[st.last() as int].kind is Text
    }

    /// The open elements once a text node on top is set aside.
    closed spec fn base_stack(&self) -> Seq<usize> {
        let st = self.stack_of_open_elements@;
        if self.top_is_text() {
            st.drop_last()
        } else {
            st
        }
    }

    /// Where the next element goes: the innermost open element, or the document.
    closed spec fn insert_parent(&self) -> int {
        let b = self.base_stack();
        if b.len() > 0 {
            b.last() as int
        } else {
            0
        }
    }

    closed spec fn mode_ok(&self) -> bool {
        let n = self.window@;
        let st = self.stack_of_open_elements@;
        match self.mode {
            InsertionMode::Initial | InsertionMode::BeforeHtml => n.len() == 1 && st.len() == 0,
            InsertionMode::BeforeHead => n.len() == 2 && st == seq![1usize],
            InsertionMode::InHead => n.len() >= 3 && st == seq![1usize, 2usize] && n[1].last_child == Some(
                2usize,
            ),
            InsertionMode::Text => {
                &&& n.len() >= 3
                &&& st.len() >= 3
                &&& st[0] == 1 && st[1] == 2
                &&& forall|j: int| 2 <= j < st.len() ==> #[trigger] st[j] >= 3
                &&& n[1].last_child == Some(2usize)
                &&& self.original_insertion_mode == InsertionMode::InHead
            },
            InsertionMode::AfterHead => n.len() >= 3 && st == seq![1usize] && n[1].last_child == Some(
                2usize,
            ),
            InsertionMode::InBody => {
                &&& n.len() >= 3
                &&& n[2].next_sibling is Some
                &&& st.len() >= 2 && st[0] == 1 && Some(st[1]) == n[2].next_sibling
                &&& forall|j: int| 1 <= j < st.len() ==> #[trigger] st[j] >= 3
                &&& forall|j: int| 2 <= j < st.len() ==> kind_at(n, #[trigger] st[j] as int) != Some(ElementKind::Body)
            },
            InsertionMode::AfterBody => n.len() >= 3 && n[2].next_sibling is Some && st == seq![1usize],
            InsertionMode::AfterAfterBody => n.len() >= 3 && n[2].next_sibling is Some && (st.len() == 0 || st
                == seq![1usize]),
        }
    }

    closed spec fn inv(&self) -> bool {
        &&& dom_shape(self.window@)
        &&& self.stack_ok()
        &&& self.mode_ok()
        &&& self.t.wf()
    }

    closed spec fn potential(&self) -> nat {
        self.window@.len() + budget(self.mode)
    }

    /// A parser that has not started and whose input is small enough to index.
    pub closed spec fn ready(&self) -> bool {
        &&& self.inv()
        &&& self.mode == InsertionMode::Initial
        &&& self.potential() + self.t.remaining() + 8 < usize::MAX
    }

    pub fn new(t: HtmlTokenizer) -> (r: HtmlParser)
        requires
            t.wf(),
            t.remaining() + 12 < usize::MAX,
        ensures
            r.ready(),
            r.mode() == InsertionMode::Initial,
            r.original_mode() == InsertionMode::Initial,
            r.open_elements().len() == 0,
            r.tokenizer() == t,
            r.nodes().len() == 1,
            r.nodes()[0].kind is Document,
            r.nodes()[0].first_child is None,
            r.pview() == initial_parser_view(),
    {
        let r = HtmlParser {
            window: Window::new(),
            mode: InsertionMode::Initial,
            original_insertion_mode: InsertionMode::Initial,
            stack_of_open_elements: Vec::new(),
            t,
        };
        assert(dom_view(r.window@) =~= initial_parser_view().nodes);
        r
    }

    fn initial(&mut self, tok: HtmlToken) -> (r: Flow)
        requires
            old(self).inv(),
            old(self).potential() + 1 < usize::MAX,
            old(self).mode == InsertionMode::Initial,
        ensures
            final(self).inv(),
            final(self).t == old(self).t,
            r is Next ==> final(self).potential() <= old(self).potential() + 1,
            r is Reconsume ==> final(self).potential() <= old(self).potential() && rank(final(self).mode)
                < rank(old(self).mode),
            r is Stop ==> final(self).potential() == old(self).potential(),
            final(self).pview() == v_process(old(self).pview(), token_view(tok)).0,
            flow_view(r) == v_process(old(self).pview(), token_view(tok)).1,
            r matches Flow::Reconsume(t2) ==> t2 == tok,
    {
        match classify(&tok) {
            TokenClass::Char(_) => Flow::Next,
            _ => {
                self.mode = InsertionMode::BeforeHtml;
                Flow::Reconsume(tok)
            },
        }
    }

    fn before_html(&mut self, tok: HtmlToken) -> (r: Flow)
        requires
            old(self).inv(),
            old(self).potential() + 1 < usize::MAX,
            old(self).mode == InsertionMode::BeforeHtml,
        ensures
            final(self).inv(),
            final(self).t == old(self).t,
            r is Next ==> final(self).potential() <= old(self).potential() + 1,
            r is Reconsume ==> final(self).potential() <= old(self).potential() && rank(final(self).mode)
                < rank(old(self).mode),
            r is Stop ==> final(self).potential() == old(self).potential(),
            final(self).pview() == v_process(old(self).pview(), token_view(tok)).0,
            flow_view(r) == v_process(old(self).pview(), token_view(tok)).1,
            r matches Flow::Reconsume(t2) ==> t2 == tok,
    {
        match classify(&tok) {
            TokenClass::Char(c) => {
                if c == ' ' || c == '\n' {
                    return Flow::Next;
                }
            },
            TokenClass::Start(Some(ElementKind::Html)) => {
                self.insert_element(ElementKind::Html, take_attributes(tok));
                assert(self.stack_of_open_elements@ =~= seq![1usize]);
                self.mode = InsertionMode::BeforeHead;
                return Flow::Next;
            },
            TokenClass::Eof => {
                return Flow::Stop;
            },
            _ => {},
        }
        self.insert_element(ElementKind::Html, no_attributes());
        assert(self.stack_of_open_elements@ =~= seq![1usize]);
        self.mode = InsertionMode::BeforeHead;
        Flow::Reconsume(tok)
    }

    fn before_head(&mut self, tok: HtmlToken) -> (r: Flow)
        requires
            old(self).inv(),
            old(self).potential() + 1 < usize::MAX,
            old(self).mode == InsertionMode::BeforeHead,
        ensures
            final(self).inv(),
            final(self).t == old(self).t,
            r is Next ==> final(self).potential() <= old(self).potential() + 1,
            r is Reconsume ==> final(self).potential() <= old(self).potential() && rank(final(self).mode)
                < rank(old(self).mode),
            r is Stop ==> final(self).potential() == old(self).potential(),
            final(self).pview() == v_process(old(self).pview(), token_view(tok)).0,
            flow_view(r) == v_process(old(self).pview(), token_view(tok)).1,
            r matches Flow::Reconsume(t2) ==> t2 == tok,
    {
        match classify(&tok) {
            TokenClass::Char(c) => {
                if c == ' ' || c == '\n' {
                    return Flow::Next;
                }
            },
            TokenClass::Start(Some(ElementKind::Head)) => {
                self.insert_element(ElementKind::Head, take_attributes(tok));
                assert(self.stack_of_open_elements@ =~= seq![1usize, 2usize]);
                self.mode = InsertionMode::InHead;
                return Flow::Next;
            },
            TokenClass::Eof => {
                return Flow::Stop;
            },
            _ => {},
        }
        self.insert_element(ElementKind::Head, no_attributes());
        assert(self.stack_of_open_elements@ =~= seq![1usize, 2usize]);
        self.mode = InsertionMode::InHead;
        Flow::Reconsume(tok)
    }

    fn in_head(&mut self, tok: HtmlToken) -> (r: Flow)
        requires
            old(self).inv(),
            old(self).potential() + 1 < usize::MAX,
            old(self).mode == InsertionMode::InHead,
        ensures
            final(self).inv(),
            final(self).t == old(self).t,
            r is Next ==> final(self).potential() <= old(self).potential() + 1,
            r is Reconsume ==> final(self).potential() <= old(self).potential() && rank(final(self).mode)
                < rank(old(self).mode),
            r is Stop ==> final(self).potential() == old(self).potential(),
            final(self).pview() == v_process(old(self).pview(), token_view(tok)).0,
            flow_view(r) == v_process(old(self).pview(), token_view(tok)).1,
            r matches Flow::Reconsume(t2) ==> t2 == tok,
    {
        proof {
            assert(node_ok(self.window@, 1));
            assert(node_ok(self.window@, 2));
        }
        match classify(&tok) {
            TokenClass::Char(c) => {
                if c == ' ' || c == '\n' {
                    self.insert_char(c);
                }
                Flow::Next
            },
            TokenClass::Start(Some(k)) => {
                if k == ElementKind::Style || k == ElementKind::Script {
                    self.insert_element(k, take_attributes(tok));
                    assert(self.stack_of_open_elements@[0] == 1 && self.stack_of_open_elements@[1] == 2);
                    assert(self.window@[1] == old(self).window@[1]);
                    self.original_insertion_mode = self.mode;
                    self.mode = InsertionMode::Text;
                    Flow::Next
                } else {
                    assert(kind_at(self.window@, self.stack_of_open_elements@[1] as int) == Some(ElementKind::Head));
                    assert(kind_at(self.window@, self.stack_of_open_elements@[0] as int) == Some(ElementKind::Html));
                    self.pop_until(ElementKind::Head);
                    assert(self.stack_of_open_elements@ =~= seq![1usize]);
                    self.mode = InsertionMode::AfterHead;
                    Flow::Reconsume(tok)
                }
            },
            TokenClass::End(Some(ElementKind::Head)) => {
                assert(kind_at(self.window@, self.stack_of_open_elements@[1] as int) == Some(ElementKind::Head));
                assert(kind_at(self.window@, self.stack_of_open_elements@[0] as int) == Some(ElementKind::Html));
                self.pop_until(ElementKind::Head);
                assert(self.stack_of_open_elements@ =~= seq![1usize]);
                self.mode = InsertionMode::AfterHead;
                Flow::Next
            },
            TokenClass::Eof => Flow::Stop,
            _ => Flow::Next,
        }
    }

    fn after_head(&mut self, tok: HtmlToken) -> (r: Flow)
        requires
            old(self).inv(),
            old(self).potential() + 1 < usize::MAX,
            old(self).mode == InsertionMode::AfterHead,
        ensures
            final(self).inv(),
            final(self).t == old(self).t,
            r is Next ==> final(self).potential() <= old(self).potential() + 1,
            r is Reconsume ==> final(self).potential() <= old(self).potential() && rank(final(self).mode)
                < rank(old(self).mode),
            r is Stop ==> final(self).potential() == old(self).potential(),
            final(self).pview() == v_process(old(self).pview(), token_view(tok)).0,
            flow_view(r) == v_process(old(self).pview(), token_view(tok)).1,
            r matches Flow::Reconsume(t2) ==> t2 == tok,
    {
        match classify(&tok) {
            TokenClass::Char(c) => {
                if c == ' ' || c == '\n' {
                    self.insert_char(c);
                    return Flow::Next;
                }
            },
            TokenClass::Start(Some(ElementKind::Body)) => {
                self.insert_element(ElementKind::Body, take_attributes(tok));
                self.mode = InsertionMode::InBody;
                return Flow::Next;
            },
            TokenClass::Eof => {
                return Flow::Stop;
            },
            _ => {},
        }
        self.insert_element(ElementKind::Body, no_attributes());
        self.mode = InsertionMode::InBody;
        Flow::Reconsume(tok)
    }

    fn in_body(&mut self, tok: HtmlToken) -> (r: Flow)
        requires
            old(self).inv(),
            old(self).potential() + 1 < usize::MAX,
            old(self).mode == InsertionMode::InBody,
        ensures
            final(self).inv(),
            final(self).t == old(self).t,
            r is Next ==> final(self).potential() <= old(self).potential() + 1,
            r is Reconsume ==> final(self).potential() <= old(self).potential() && rank(final(self).mode)
                < rank(old(self).mode),
            r is Stop ==> final(self).potential() == old(self).potential(),
            final(self).pview() == v_process(old(self).pview(), token_view(tok)).0,
            flow_view(r) == v_process(old(self).pview(), token_view(tok)).1,
            r matches Flow::Reconsume(t2) ==> t2 == tok,
    {
        proof {
            assert(node_ok(self.window@, 1));
            assert(node_ok(self.window@, 2));
        }
        let ghost n = self.window@;
        let ghost st = self.stack_of_open_elements@;
        proof {
            assert(kind_at(n, st[0] as int) == Some(ElementKind::Html));
            assert(kind_at(n, st[1] as int) == Some(ElementKind::Body));
        }
        match classify(&tok) {
            TokenClass::Start(Some(k)) => {
                if k == ElementKind::P || k == ElementKind::H1 || k == ElementKind::H2 || k == ElementKind::A {
                    self.insert_element(k, take_attributes(tok));
                }
                Flow::Next
            },
            TokenClass::Start(None) => Flow::Next,
            TokenClass::End(Some(ElementKind::Body)) => {
                if self.contain_in_stack(ElementKind::Body) {
                    self.pop_until(ElementKind::Body);
                    assert(self.stack_of_open_elements@ =~= seq![1usize]);
                } else {
                    assert(kind_at(n, st[1] as int) == Some(ElementKind::Body));
                }
                self.mode = InsertionMode::AfterBody;
                Flow::Next
            },
            TokenClass::End(Some(ElementKind::Html)) => {
                if self.pop_current_node(ElementKind::Body) {
                    assert(st.len() == 2);
                    self.pop_current_node(ElementKind::Html);
                    assert(self.stack_of_open_elements@.len() == 0);
                    self.mode = InsertionMode::AfterAfterBody;
                }
                Flow::Next
            },
            TokenClass::End(Some(k)) => {
                if k == ElementKind::P || k == ElementKind::H1 || k == ElementKind::H2 || k == ElementKind::A {
                    // an end tag with no open element of its kind is dropped
                    if self.contain_in_stack(k) {
                        self.pop_until(k);
                        assert(self.stack_of_open_elements@.len() >= 2);
                        assert(self.stack_of_open_elements@[0] == st[0]);
                        assert(self.stack_of_open_elements@[1] == st[1]);
                    }
                }
                Flow::Next
            },
            TokenClass::End(None) => Flow::Next,
            TokenClass::Char(c) => {
                self.insert_char(c);
                Flow::Next
            },
            TokenClass::Eof => Flow::Stop,
        }
    }

    fn text(&mut self, tok: HtmlToken) -> (r: Flow)
        requires
            old(self).inv(),
            old(self).potential() + 1 < usize::MAX,
            old(self).mode == InsertionMode::Text,
        ensures
            final(self).inv(),
            final(self).t == old(self).t,
            r is Next ==> final(self).potential() <= old(self).potential() + 1,
            r is Reconsume ==> final(self).potential() <= old(self).potential() && rank(final(self).mode)
                < rank(old(self).mode),
            r is Stop ==> final(self).potential() == old(self).potential(),
            final(self).pview() == v_process(old(self).pview(), token_view(tok)).0,
            flow_view(r) == v_process(old(self).pview(), token_view(tok)).1,
            r matches Flow::Reconsume(t2) ==> t2 == tok,
    {
        proof {
            assert(node_ok(self.window@, 1));
            assert(self.stack_of_open_elements@[self.stack_of_open_elements@.len() - 1] >= 3);
        }
        match classify(&tok) {
            TokenClass::Char(c) => {
                self.insert_char(c);
                Flow::Next
            },
            TokenClass::End(Some(k)) => {
                let raw = self.stack_of_open_elements[2];
                let open = self.window.node(raw).element_kind();
                let same = match open {
                    Some(o) => o == k,
                    None => false,
                };
                if same {
                    self.stack_of_open_elements.truncate(2);
                    assert(self.stack_of_open_elements@ =~= seq![1usize, 2usize]);
                    self.mode = self.original_insertion_mode;
                }
                Flow::Next
            },
            TokenClass::Eof => Flow::Stop,
            _ => Flow::Next,
        }
    }

    fn after_body(&mut self, tok: HtmlToken) -> (r: Flow)
        requires
            old(self).inv(),
            old(self).potential() + 1 < usize::MAX,
            old(self).mode == InsertionMode::AfterBody,
        ensures
            final(self).inv(),
            final(self).t == old(self).t,
            r is Next ==> final(self).potential() <= old(self).potential() + 1,
            r is Reconsume ==> final(self).potential() <= old(self).potential() && rank(final(self).mode)
                < rank(old(self).mode),
            r is Stop ==> final(self).potential() == old(self).potential(),
            final(self).pview() == v_process(old(self).pview(), token_view(tok)).0,
            flow_view(r) == v_process(old(self).pview(), token_view(tok)).1,
            r matches Flow::Reconsume(t2) ==> t2 == tok,
    {
        match classify(&tok) {
            TokenClass::Char(_) => Flow::Next,
            TokenClass::End(Some(ElementKind::Html)) => {
                self.mode = InsertionMode::AfterAfterBody;
                Flow::Next
            },
            TokenClass::Eof => Flow::Stop,
            _ => {
                self.reopen_body();
                Flow::Reconsume(tok)
            },
        }
    }

    fn after_after_body(&mut self, tok: HtmlToken) -> (r: Flow)
        requires
            old(self).inv(),
            old(self).potential() + 1 < usize::MAX,
            old(self).mode == InsertionMode::AfterAfterBody,
        ensures
            final(self).inv(),
            final(self).t == old(self).t,
            r is Next ==> final(self).potential() <= old(self).potential() + 1,
            r is Reconsume ==> final(self).potential() <= old(self).potential() && rank(final(self).mode)
                < rank(old(self).mode),
            r is Stop ==> final(self).potential() == old(self).potential(),
            final(self).pview() == v_process(old(self).pview(), token_view(tok)).0,
            flow_view(r) == v_process(old(self).pview(), token_view(tok)).1,
            r matches Flow::Reconsume(t2) ==> t2 == tok,
    {
        match classify(&tok) {
            TokenClass::Char(_) => Flow::Next,
            TokenClass::Eof => Flow::Stop,
            _ => {
                self.reopen_body();
                Flow::Reconsume(tok)
            },
        }
    }

    /// Makes `html` and `body` the open elements again and returns to the body.
    fn reopen_body(&mut self)
        requires
            old(self).inv(),
            old(self).mode == InsertionMode::AfterBody || old(self).mode == InsertionMode::AfterAfterBody,
        ensures
            final(self).inv(),
            final(self).t == old(self).t,
            final(self).window == old(self).window,
            final(self).pview() == v_reopen_body(old(self).pview()),
            final(self).mode == InsertionMode::InBody,
    {
        let b = match self.window.node(2).next_sibling() {
            Some(b) => b,
            None => 2,
        };
        let mut st: Vec<usize> = Vec::new();
        st.push(1);
        st.push(b);
        self.stack_of_open_elements = st;
        self.mode = InsertionMode::InBody;
        proof {
            let n = self.window@;
            assert(node_ok(n, 2));
            assert(node_ok(n, 1));
            assert(self.stack_of_open_elements@ =~= seq![1usize, b]);
            assert(dom_view(n)[2] == node_view(n[2]));
        }
    }

    fn process(&mut self, tok: HtmlToken) -> (r: Flow)
        requires
            old(self).inv(),
            old(self).potential() + 1 < usize::MAX,
        ensures
            final(self).inv(),
            final(self).t == old(self).t,
            r is Next ==> final(self).potential() <= old(self).potential() + 1,
            r is Reconsume ==> final(self).potential() <= old(self).potential() && rank(final(self).mode)
                < rank(old(self).mode),
            r is Stop ==> final(self).potential() == old(self).potential(),
            final(self).pview() == v_process(old(self).pview(), token_view(tok)).0,
            flow_view(r) == v_process(old(self).pview(), token_view(tok)).1,
            r matches Flow::Reconsume(t2) ==> t2 == tok,
    {
        match self.mode {
            InsertionMode::Initial => self.initial(tok),
            InsertionMode::BeforeHtml => self.before_html(tok),
            InsertionMode::BeforeHead => self.before_head(tok),
            InsertionMode::InHead => self.in_head(tok),
            InsertionMode::AfterHead => self.after_head(tok),
            InsertionMode::InBody => self.in_body(tok),
            InsertionMode::Text => self.text(tok),
            InsertionMode::AfterBody => self.after_body(tok),
            InsertionMode::AfterAfterBody => self.after_after_body(tok),
        }
    }

    /// Runs the insertion modes over the tokens until one of them meets the end of the input,
    /// and hands back the window that holds the document.
    pub fn construct_tree(self) -> (r: Window)
        requires
            self.ready(),
        ensures
            wf_nodes(r@),
            only_document_child_is_html(r@),
            html_children_are_head_then_body(r@),
            dom_shape(r@),
            dom_view(r@) == tree_from(
                self.tokenizer().input(),
                self.tokenizer().pos(),
                self.tokenizer().machine(),
                self.pview(),
                10 * self.tokenizer().remaining() + 10,
            ),
    {
        let mut p = self;
        let ghost bound = p.potential() + p.t.remaining() + 1;
        let ghost rem0 = p.t.remaining();
        let ghost r0 = tree_from(p.t.input(), p.t.pos(), p.t.machine(), p.pview(), 10 * rem0 + 10);
        let mut cur = p.t.next();
        let ghost mut fuel: nat = 10 * rem0 + 10;
        loop
            invariant_except_break
                v_run(p.t.input(), p.t.pos(), p.t.machine(), p.pview(), crate::token::opt_token_view(cur), fuel)
                    == r0,
                fuel > 10 * (p.t.remaining() + (if cur is Some { 1nat } else { 0nat })) + rank(p.mode),
                p.potential() + p.t.remaining() + (if cur is Some { 1nat } else { 0nat }) <= bound,
            invariant
                p.inv(),
                bound + 4 < usize::MAX,
            ensures
                dom_view(p.window@) == r0,
            decreases p.t.remaining() + (if cur is Some { 1nat } else { 0nat }), rank(p.mode),
        {
            match cur {
                None => {
                    break;
                },
                Some(tok) => {
                    let ghost tv = token_view(tok);
                    match p.process(tok) {
                        Flow::Next => {
                            cur = p.t.next();
                            proof {
                                fuel = (fuel - 1) as nat;
                            }
                        },
                        Flow::Reconsume(t) => {
                            cur = Some(t);
                            proof {
                                fuel = (fuel - 1) as nat;
                            }
                        },
                        Flow::Stop => {
                            break;
                        },
                    }
                },
            }
        }
        proof {
            lemma_shape_laws(p.window@);
        }
        p.window
    }

    fn create_element(&self, kind: ElementKind, attributes: Vec<Attribute>) -> (r: NodeKind)
        ensures
            r == NodeKind::Element(Element { kind, attributes }),
    {
        NodeKind::Element(Element { kind, attributes })
    }

    /// Sets aside a text node on top of the stack.
    fn pop_text(&mut self)
        requires
            old(self).stack_ok(),
        ensures
            final(self).stack_of_open_elements@ == old(self).base_stack(),
            final(self).window == old(self).window,
            final(self).mode == old(self).mode,
            final(self).original_insertion_mode == old(self).original_insertion_mode,
            final(self).t == old(self).t,
            final(self).stack_ok(),
            !final(self).top_is_text(),
    {
        let n = self.stack_of_open_elements.len();
        if n > 0 {
            let top = self.stack_of_open_elements[n - 1];
            let is_text = match self.window.node(top).kind() {
                NodeKind::Text(_) => true,
                _ => false,
            };
            if is_text {
                self.stack_of_open_elements.pop();
            }
        }
        proof {
            let st = self.stack_of_open_elements@;
            if st.len() > 0 {
                assert(old(self).stack_of_open_elements@[st.len() - 1] == st.last());
            }
        }
    }

    /// Creates an element and appends it as the last child of the current node, which it then
    /// becomes.
    fn insert_element(&mut self, kind: ElementKind, attributes: Vec<Attribute>)
        requires
            wf_nodes(old(self).window@),
            old(self).stack_ok(),
            old(self).window@.len() + 1 < usize::MAX,
        ensures
            final(self).pview() == v_insert_element(old(self).pview(), kind, attr_views(attributes@)),
            final(self).window@ == append_spec(
                old(self).window@,
                old(self).insert_parent(),
                NodeKind::Element(Element { kind, attributes }),
            ),
            final(self).stack_of_open_elements@ == old(self).base_stack().push(
                old(self).window@.len() as usize,
            ),
            append_facts(old(self).window@, final(self).window@, old(self).insert_parent()),
            kind_at(final(self).window@, old(self).window@.len() as int) == Some(kind),
            wf_nodes(final(self).window@),
            ({
                let n = old(self).window@;
                let p = old(self).insert_parent();
                &&& dom_shape(n)
                &&& (n.len() == 1 ==> p == 0 && kind == ElementKind::Html)
                &&& (n.len() == 2 ==> p == 1 && kind == ElementKind::Head)
                &&& (n.len() >= 2 ==> p != 0)
                &&& (n.len() >= 3 && p == 1 ==> n[1].last_child == Some(2usize) && kind == ElementKind::Body)
            }) ==> dom_shape(final(self).window@),
            final(self).stack_ok(),
            final(self).mode == old(self).mode,
            final(self).original_insertion_mode == old(self).original_insertion_mode,
            final(self).t == old(self).t,
    {
        let ghost p = old(self).insert_parent();
        self.pop_text();
        let n = self.stack_of_open_elements.len();
        let parent = if n > 0 {
            self.stack_of_open_elements[n - 1]
        } else {
            0
        };
        assert(parent == p);
        let node = self.create_element(kind, attributes);
        let ghost k = node;
        proof {
            let n = self.window@;
            lemma_append_wf(n, parent as int, node);
            if dom_shape(n) && (n.len() == 1 ==> p == 0 && kind == ElementKind::Html) && (n.len() == 2 ==> p
                == 1 && kind == ElementKind::Head) && (n.len() >= 2 ==> p != 0) && (n.len() >= 3 && p == 1 ==> n[1].last_child == Some(
                2usize,
            ) && kind == ElementKind::Body) {
                lemma_shape_append(n, parent as int, node);
            }
        }
        let id = self.window.append_child(parent, node);
        self.stack_of_open_elements.push(id);
        proof {
            old(self).lemma_kinds();
            lemma_append_view(old(self).window@, p, k);
            let st = self.stack_of_open_elements@;
            lemma_append_keeps(old(self).window@, p, k);
            assert forall|j: int| 0 <= j < st.len() - 1 implies !(self.window@[#[trigger] st[j] as int].kind is Text) by {
                let x = st[j] as int;
                assert(old(self).base_stack()[j] == st[j]);
                if old(self).top_is_text() {
                    assert(old(self).stack_of_open_elements@[j] == st[j]);
                } else if j < old(self).stack_of_open_elements@.len() - 1 {
                    assert(old(self).stack_of_open_elements@[j] == st[j]);
                }
                assert(self.window@[x].kind == old(self).window@[x].kind);
            }
        }
    }

    fn create_char(&self, c: char) -> (r: NodeKind)
        ensures
            r is Text,
            r->Text_0@ == seq![c],
    {
        let mut s = String::new();
        push_char(&mut s, c);
        NodeKind::Text(s)
    }

    /// Adds `c` to the text node on top of the stack; otherwise, unless `c` is a line break or a
    /// space, starts a new text node under the current node and makes it the current node.
    fn insert_char(&mut self, c: char)
        requires
            wf_nodes(old(self).window@),
            old(self).stack_ok(),
            old(self).window@.len() + 1 < usize::MAX,
        ensures
            final(self).pview() == v_insert_char(old(self).pview(), c as int),
            wf_nodes(final(self).window@),
            ({
                let st = old(self).stack_of_open_elements@;
                &&& dom_shape(old(self).window@)
                &&& (st.len() > 0 ==> old(self).window@.len() >= 3)
                &&& !(st.len() > 0 && st.last() == 1 && c != ' ' && c != '\n')
            }) ==> dom_shape(final(self).window@),
            final(self).stack_ok(),
            final(self).mode == old(self).mode,
            final(self).original_insertion_mode == old(self).original_insertion_mode,
            final(self).t == old(self).t,
            old(self).stack_of_open_elements@.len() == 0 ==> final(self).window@ == old(self).window@
                && final(self).stack_of_open_elements@ == old(self).stack_of_open_elements@,
            old(self).top_is_text() ==> ({
                let top = old(self).stack_of_open_elements@.last() as int;
                &&& final(self).stack_of_open_elements@ == old(self).stack_of_open_elements@
                &&& final(self).window@.len() == old(self).window@.len()
                &&& final(self).window@[top].kind is Text
                &&& final(self).window@[top].kind->Text_0@ == old(self).window@[top].kind->Text_0@.push(c)
                &&& final(self).window@[top].parent == old(self).window@[top].parent
                &&& final(self).window@[top].first_child == old(self).window@[top].first_child
                &&& final(self).window@[top].last_child == old(self).window@[top].last_child
                &&& final(self).window@[top].next_sibling == old(self).window@[top].next_sibling
                &&& final(self).window@[top].previous_sibling == old(self).window@[top].previous_sibling
                &&& forall|j: int| 0 <= j < old(self).window@.len() && j != top ==> #[trigger] final(self).window@[j]
                    == old(self).window@[j]
            }),
            old(self).stack_of_open_elements@.len() > 0 && !old(self).top_is_text() && (c == ' ' || c
                == '\n') ==> final(self).window@ == old(self).window@
                && final(self).stack_of_open_elements@ == old(self).stack_of_open_elements@,
            old(self).stack_of_open_elements@.len() > 0 && !old(self).top_is_text() && c != ' ' && c != '\n'
                ==> ({
                let id = old(self).window@.len();
                &&& final(self).window@ == append_spec(
                    old(self).window@,
                    old(self).stack_of_open_elements@.last() as int,
                    final(self).window@[id as int].kind,
                )
                &&& final(self).window@[id as int].kind is Text
                &&& final(self).window@[id as int].kind->Text_0@ == seq![c]
                &&& final(self).stack_of_open_elements@ == old(self).stack_of_open_elements@.push(id as usize)
                &&& append_facts(old(self).window@, final(self).window@, old(self).stack_of_open_elements@.last() as int)
            }),
    {
        let n = self.stack_of_open_elements.len();
        proof {
            old(self).lemma_kinds();
        }
        if n == 0 {
            return;
        }
        let current = self.stack_of_open_elements[n - 1];
        let is_text = match self.window.node(current).kind() {
            NodeKind::Text(_) => true,
            _ => false,
        };
        if is_text {
            let ghost before = self.window@;
            self.window.push_text(current, c);
            proof {
                if dom_shape(before) {
                    lemma_shape_text(before, self.window@, current as int);
                }
                old(self).lemma_kinds();
                let ov = dom_view(before);
                let n = ov[current as int];
                assert(before[current as int].kind is Text);
                assert(n == node_view(before[current as int]));
                assert(codes(self.window@[current as int].kind->Text_0@) =~= codes(before[current as int].kind->Text_0@).push(c as int));
                assert(dom_view(self.window@) =~= ov.update(current as int, NodeView { kind: KindView::Text(n.kind->Text_0.push(c as int)), ..n }));
            }
            return;
        }
        if c == '\n' || c == ' ' {
            return;
        }
        let node = self.create_char(c);
        let ghost node_kind = node;
        proof {
            let n = self.window@;
            let st = self.stack_of_open_elements@;
            lemma_append_wf(n, current as int, node);
            if dom_shape(n) && (st.len() > 0 ==> n.len() >= 3) && !(st.len() > 0 && st.last() == 1 && c
                != ' ' && c != '\n') {
                lemma_shape_append(n, current as int, node);
            }
        }
        let id = self.window.append_child(current, node);
        self.stack_of_open_elements.push(id);
        proof {
            old(self).lemma_kinds();
            lemma_append_view(old(self).window@, current as int, node_kind);
            assert(codes(node_kind->Text_0@) =~= seq![c as int]);
            let st = self.stack_of_open_elements@;
            lemma_append_keeps(old(self).window@, current as int, node_kind);
            assert forall|j: int| 0 <= j < st.len() - 1 implies !(self.window@[#[trigger] st[j] as int].kind is Text) by {
                let x = st[j] as int;
                assert(old(self).stack_of_open_elements@[j] == st[j]);
                assert(self.window@[x].kind == old(self).window@[x].kind);
            }
        }
    }

    /// Pops the current node if it is an element of kind `kind`.
    fn pop_current_node(&mut self, kind: ElementKind) -> (r: bool)
        requires
            old(self).stack_ok(),
        ensures
            r == v_current_is(old(self).pview(), kind),
            final(self).pview() == if r {
                v_pop(old(self).pview())
            } else {
                old(self).pview()
            },
            r == (old(self).stack_of_open_elements@.len() > 0 && kind_at(
                old(self).window@,
                old(self).stack_of_open_elements@.last() as int,
            ) == Some(kind)),
            r ==> final(self).stack_of_open_elements@ == old(self).stack_of_open_elements@.drop_last(),
            !r ==> final(self).stack_of_open_elements@ == old(self).stack_of_open_elements@,
            final(self).window == old(self).window,
            final(self).mode == old(self).mode,
            final(self).original_insertion_mode == old(self).original_insertion_mode,
            final(self).t == old(self).t,
            final(self).stack_ok(),
    {
        let n = self.stack_of_open_elements.len();
        if n == 0 {
            return false;
        }
        let current = self.stack_of_open_elements[n - 1];
        let matches = match self.window.node(current).element_kind() {
            Some(k) => k == kind,
            None => false,
        };
        if matches {
            self.stack_of_open_elements.pop();
            proof {
                let st = self.stack_of_open_elements@;
                assert forall|j: int| 0 <= j < st.len() implies #[trigger] st[j] == old(self).stack_of_open_elements@[j] by {}
            }
        }
        matches
    }

    /// Whether an element of kind `kind` is open.
    fn contain_in_stack(&self, kind: ElementKind) -> (r: bool)
        requires
            self.stack_ok(),
        ensures
            r == v_contains(self.pview(), kind),
            r == exists|j: int|
                0 <= j < self.stack_of_open_elements@.len() && kind_at(
                    self.window@,
                    #[trigger] self.stack_of_open_elements@[j] as int,
                ) == Some(kind),
    {
        proof {
            self.lemma_kinds();
        }
        let mut i: usize = 0;
        while i < self.stack_of_open_elements.len()
            invariant
                self.stack_ok(),
                i <= self.stack_of_open_elements@.len(),
                forall|j: int| 0 <= j < i ==> kind_at(self.window@, #[trigger] self.stack_of_open_elements@[j] as int) != Some(kind),
            decreases self.stack_of_open_elements.len() - i,
        {
            let id = self.stack_of_open_elements[i];
            let found = match self.window.node(id).element_kind() {
                Some(k) => k == kind,
                None => false,
            };
            if found {
                assert(v_kind_at(self.pview(), i as int) == Some(kind));
                return true;
            }
            i += 1;
        }
        false
    }

    /// Pops open elements up to and including the innermost one of kind `kind`.
    fn pop_until(&mut self, kind: ElementKind)
        requires
            old(self).stack_ok(),
            exists|j: int|
                0 <= j < old(self).stack_of_open_elements@.len() && kind_at(
                    old(self).window@,
                    #[trigger] old(self).stack_of_open_elements@[j] as int,
                ) == Some(kind),
        ensures
            final(self).pview() == v_pop_until(old(self).pview(), kind),
            exists|k: int|
                0 <= k < old(self).stack_of_open_elements@.len() && kind_at(
                    old(self).window@,
                    #[trigger] old(self).stack_of_open_elements@[k] as int,
                ) == Some(kind) && final(self).stack_of_open_elements@ == old(
                    self,
                ).stack_of_open_elements@.subrange(0, k) && forall|j: int|
                    k < j < old(self).stack_of_open_elements@.len() ==> kind_at(
                        old(self).window@,
                        #[trigger] old(self).stack_of_open_elements@[j] as int,
                    ) != Some(kind),
            final(self).window == old(self).window,
            final(self).mode == old(self).mode,
            final(self).original_insertion_mode == old(self).original_insertion_mode,
            final(self).t == old(self).t,
            final(self).stack_ok(),
    {
        let ghost st0 = self.stack_of_open_elements@;
        proof {
            old(self).lemma_kinds();
        }
        loop
            invariant
                self.window == old(self).window,
                self.mode == old(self).mode,
                self.original_insertion_mode == old(self).original_insertion_mode,
                self.t == old(self).t,
                st0 == old(self).stack_of_open_elements@,
                self.stack_of_open_elements@.len() <= st0.len(),
                self.stack_of_open_elements@ == st0.subrange(0, self.stack_of_open_elements@.len() as int),
                exists|j: int|
                    0 <= j < self.stack_of_open_elements@.len() && kind_at(
                        self.window@,
                        #[trigger] st0[j] as int,
                    ) == Some(kind),
                old(self).stack_ok(),
                forall|j: int|
                    self.stack_of_open_elements@.len() <= j < st0.len() ==> kind_at(
                        self.window@,
                        #[trigger] st0[j] as int,
                    ) != Some(kind),
            decreases self.stack_of_open_elements@.len(),
        {
            let n = self.stack_of_open_elements.len();
            let current = self.stack_of_open_elements[n - 1];
            self.stack_of_open_elements.pop();
            assert(current == st0[n - 1]);
            let found = match self.window.node(current).element_kind() {
                Some(k) => k == kind,
                None => false,
            };
            assert(self.stack_of_open_elements@ =~= st0.subrange(0, n - 1));
            if found {
                proof {
                    let st = self.stack_of_open_elements@;
                    assert forall|j: int| 0 <= j < st.len() implies #[trigger] st[j] == st0[j] by {}
                    let k = (n - 1) as int;
                    let pv = old(self).pview();
                    assert(v_kind_at(pv, k) == kind_at(old(self).window@, st0[k] as int));
                    assert forall|j: int| k < j < st0.len() implies #[trigger] v_kind_at(pv, j) != Some(kind) by {
                        assert(v_kind_at(pv, j) == kind_at(old(self).window@, st0[j] as int));
                    }
                    assert(innermost(pv, kind, k));
                    let i = choose|i: int| innermost(pv, kind, i);
                    if i < k {
                        assert(v_kind_at(pv, k) != Some(kind));
                    }
                    if i > k {
                        assert(v_kind_at(pv, i) != Some(kind));
                    }
                    assert(i == k);
                }
                return;
            }
        }
    }
}

} // verus!
