use vstd::prelude::*;

use crate::attribute::Attribute;
use crate::text::{chars_of, push_char, same_chars};

verus! {

/// The element names that the parser recognizes.
#[derive(Debug, Clone, Copy, PartialEq, Eq, Structural)]
pub enum ElementKind {
    Html,
    Head,
    Style,
    Script,
    Body,
    P,
    H1,
    H2,
    A,
}

/// The kind that a tag name stands for, if it is recognized.
pub open spec fn element_kind_of(name: Seq<char>) -> Option<ElementKind> {
    if name == "html"@ {
        Some(ElementKind::Html)
    } else if name == "head"@ {
        Some(ElementKind::Head)
    } else if name == "style"@ {
        Some(ElementKind::Style)
    } else if name == "script"@ {
        Some(ElementKind::Script)
    } else if name == "body"@ {
        Some(ElementKind::Body)
    } else if name == "p"@ {
        Some(ElementKind::P)
    } else if name == "h1"@ {
        Some(ElementKind::H1)
    } else if name == "h2"@ {
        Some(ElementKind::H2)
    } else if name == "a"@ {
        Some(ElementKind::A)
    } else {
        None
    }
}

impl ElementKind {
    /// The recognized kind that `name` stands for.
    pub fn from_name(name: &str) -> (r: Option<ElementKind>)
        ensures
            r == element_kind_of(name@),
    {
        let v = chars_of(name);
        if same_chars(&v, &chars_of("html")) {
            Some(ElementKind::Html)
        } else if same_chars(&v, &chars_of("head")) {
            Some(ElementKind::Head)
        } else if same_chars(&v, &chars_of("style")) {
            Some(ElementKind::Style)
        } else if same_chars(&v, &chars_of("script")) {
            Some(ElementKind::Script)
        } else if same_chars(&v, &chars_of("body")) {
            Some(ElementKind::Body)
        } else if same_chars(&v, &chars_of("p")) {
            Some(ElementKind::P)
        } else if same_chars(&v, &chars_of("h1")) {
            Some(ElementKind::H1)
        } else if same_chars(&v, &chars_of("h2")) {
            Some(ElementKind::H2)
        } else if same_chars(&v, &chars_of("a")) {
            Some(ElementKind::A)
        } else {
            None
        }
    }
}

#[derive(Debug, PartialEq, Eq)]
pub struct Element {
    pub kind: ElementKind,
    pub attributes: Vec<Attribute>,
}

impl Element {
    /// An element for a recognized tag name.
    pub fn new(tag: &str, attributes: Vec<Attribute>) -> (r: Element)
        requires
            element_kind_of(tag@) is Some,
        ensures
            Some(r.kind) == element_kind_of(tag@),
            r.attributes@ == attributes@,
    {
        let kind = match ElementKind::from_name(tag) {
            Some(k) => k,
            None => ElementKind::Html,
        };
        Element { kind, attributes }
    }

    pub fn kind(&self) -> (r: ElementKind)
        ensures
            r == self.kind,
    {
        self.kind
    }

    pub fn attributes(&self) -> (r: &Vec<Attribute>)
        ensures
            r@ == self.attributes@,
    {
        &self.attributes
    }
}

#[derive(Debug, PartialEq, Eq)]
pub enum NodeKind {
    Document,
    Element(Element),
    Text(String),
}

/// A vertex of the DOM. Links are indices into the node list of the owning `Window`.
#[derive(Debug)]
pub struct Node {
    pub kind: NodeKind,
    pub parent: Option<usize>,
    pub first_child: Option<usize>,
    pub last_child: Option<usize>,
    pub next_sibling: Option<usize>,
    pub previous_sibling: Option<usize>,
}

pub open spec fn spec_element_kind(k: NodeKind) -> Option<ElementKind> {
    match k {
        NodeKind::Element(e) => Some(e.kind),
        _ => None,
    }
}

impl Node {
    pub fn new(kind: NodeKind) -> (r: Node)
        ensures
            r.kind == kind,
            r.parent is None && r.first_child is None && r.last_child is None,
            r.next_sibling is None && r.previous_sibling is None,
    {
        Node {
            kind,
            parent: None,
            first_child: None,
            last_child: None,
            next_sibling: None,
            previous_sibling: None,
        }
    }

    pub fn kind(&self) -> (r: &NodeKind)
        ensures
            *r == self.kind,
    {
        &self.kind
    }

    pub fn parent(&self) -> (r: Option<usize>)
        ensures
            r == self.parent,
    {
        self.parent
    }

    pub fn first_child(&self) -> (r: Option<usize>)
        ensures
            r == self.first_child,
    {
        self.first_child
    }

    pub fn last_child(&self) -> (r: Option<usize>)
        ensures
            r == self.last_child,
    {
        self.last_child
    }

    pub fn next_sibling(&self) -> (r: Option<usize>)
        ensures
            r == self.next_sibling,
    {
        self.next_sibling
    }

    pub fn previous_sibling(&self) -> (r: Option<usize>)
        ensures
            r == self.previous_sibling,
    {
        self.previous_sibling
    }

    /// The recognized kind of an element node; `None` for other nodes.
    pub fn element_kind(&self) -> (r: Option<ElementKind>)
        ensures
            r == spec_element_kind(self.kind),
    {
        match &self.kind {
            NodeKind::Element(e) => Some(e.kind),
            _ => None,
        }
    }
}

pub open spec fn link_in(n: nat, l: Option<usize>) -> bool {
    match l {
        Some(i) => i < n,
        None => true,
    }
}

/// What a node holds, as plain values.
pub enum KindView {
    Document,
    Element(ElementKind, Seq<(Seq<char>, Seq<char>)>),
    /// The text, by code points.
    Text(Seq<int>),
}

pub struct NodeView {
    pub kind: KindView,
    pub parent: Option<usize>,
    pub first_child: Option<usize>,
    pub last_child: Option<usize>,
    pub next_sibling: Option<usize>,
    pub previous_sibling: Option<usize>,
}

pub open spec fn codes(s: Seq<char>) -> Seq<int> {
    s.map_values(|c: char| c as int)
}

pub open spec fn kind_view(k: NodeKind) -> KindView {
    match k {
        NodeKind::Document => KindView::Document,
        NodeKind::Element(e) => KindView::Element(e.kind, crate::token::attr_views(e.attributes@)),
        NodeKind::Text(s) => KindView::Text(codes(s@)),
    }
}

pub open spec fn node_view(n: Node) -> NodeView {
    NodeView {
        kind: kind_view(n.kind),
        parent: n.parent,
        first_child: n.first_child,
        last_child: n.last_child,
        next_sibling: n.next_sibling,
        previous_sibling: n.previous_sibling,
    }
}

/// The tree as plain values.
pub open spec fn dom_view(nodes: Seq<Node>) -> Seq<NodeView> {
    nodes.map_values(|n: Node| node_view(n))
}

pub open spec fn view_kind(k: KindView) -> Option<ElementKind> {
    match k {
        KindView::Element(e, _) => Some(e),
        _ => None,
    }
}

/// `append_spec` on plain values.
pub open spec fn append_view(nodes: Seq<NodeView>, p: int, kind: KindView) -> Seq<NodeView> {
    let id = nodes.len() as usize;
    let fresh = NodeView {
        kind,
        parent: Some(p as usize),
        first_child: None,
        last_child: None,
        next_sibling: None,
        previous_sibling: nodes[p].last_child,
    };
    let s1 = nodes.push(fresh);
    let s2 = match nodes[p].last_child {
        Some(l) => s1.update(l as int, NodeView { next_sibling: Some(id), ..s1[l as int] }),
        None => s1,
    };
    let np = s2[p];
    s2.update(
        p,
        NodeView {
            first_child: if nodes[p].first_child is None {
                Some(id)
            } else {
                np.first_child
            },
            last_child: Some(id),
            ..np
        },
    )
}

pub proof fn lemma_append_view(nodes: Seq<Node>, p: int, kind: NodeKind)
    requires
        wf_nodes(nodes),
        0 <= p < nodes.len(),
    ensures
        dom_view(append_spec(nodes, p, kind)) == append_view(dom_view(nodes), p, kind_view(kind)),
{
    assert(node_ok(nodes, p));
    assert(dom_view(append_spec(nodes, p, kind)) =~= append_view(dom_view(nodes), p, kind_view(kind)));
}

/// The links of node `i` agree with those of the nodes they point to.
pub open spec fn node_ok(nodes: Seq<Node>, i: int) -> bool {
    let n = nodes[i];
    let len = nodes.len();
    &&& link_in(len, n.parent) && link_in(len, n.first_child) && link_in(len, n.last_child)
    &&& link_in(len, n.next_sibling) && link_in(len, n.previous_sibling)
    &&& (n.first_child is Some <==> n.last_child is Some)
    &&& (n.first_child matches Some(f) ==> nodes[f as int].parent == Some(i as usize)
        && nodes[f as int].previous_sibling is None)
    &&& (n.last_child matches Some(l) ==> nodes[l as int].parent == Some(i as usize)
        && nodes[l as int].next_sibling is None)
    &&& (n.next_sibling matches Some(s) ==> nodes[s as int].previous_sibling == Some(i as usize)
        && nodes[s as int].parent == n.parent)
    &&& (n.kind is Text ==> n.first_child is None)
    &&& (i > 0 ==> n.parent is Some)
    &&& (n.parent matches Some(q) ==> (q as int) < i)
}

/// A well-formed node list: the document at index 0, every link consistent.
pub open spec fn wf_nodes(nodes: Seq<Node>) -> bool {
    &&& nodes.len() >= 1
    &&& nodes[0].kind is Document
    &&& nodes[0].parent is None
    &&& forall|i: int| 0 <= i < nodes.len() ==> #[trigger] node_ok(nodes, i)
}

/// The node list after a new node of kind `kind` is appended as the last child of `p`.
pub open spec fn append_spec(nodes: Seq<Node>, p: int, kind: NodeKind) -> Seq<Node> {
    let id = nodes.len() as usize;
    let fresh = Node {
        kind,
        parent: Some(p as usize),
        first_child: None,
        last_child: None,
        next_sibling: None,
        previous_sibling: nodes[p].last_child,
    };
    let s1 = nodes.push(fresh);
    let s2 = match nodes[p].last_child {
        Some(l) => s1.update(l as int, Node { next_sibling: Some(id), ..s1[l as int] }),
        None => s1,
    };
    let np = s2[p];
    s2.update(
        p,
        Node {
            first_child: if nodes[p].first_child is None {
                Some(id)
            } else {
                np.first_child
            },
            last_child: Some(id),
            ..np
        },
    )
}

/// What appending a child to `p` leaves of the nodes that were there: kinds and parents stay,
/// `p` gets the new node as its last child, and only `p` and its old last child change.
pub open spec fn append_facts(before: Seq<Node>, after: Seq<Node>, p: int) -> bool {
    let id = before.len();
    &&& after.len() == before.len() + 1
    &&& forall|x: int|
        0 <= x < before.len() ==> (#[trigger] after[x]).kind == before[x].kind && after[x].parent
            == before[x].parent
    &&& forall|x: int|
        0 <= x < before.len() && (#[trigger] before[x]).next_sibling is Some ==> after[x].next_sibling is Some
    &&& forall|x: int|
        0 <= x < before.len() && x != p && Some(x as usize) != before[p].last_child ==> #[trigger] after[x]
            == before[x]
    &&& after[id as int].parent == Some(p as usize)
    &&& after[p].last_child == Some(id as usize)
    &&& after[p].next_sibling == before[p].next_sibling
}

pub proof fn lemma_append_keeps(nodes: Seq<Node>, p: int, kind: NodeKind)
    requires
        wf_nodes(nodes),
        0 <= p < nodes.len(),
    ensures
        append_facts(nodes, append_spec(nodes, p, kind), p),
        append_spec(nodes, p, kind)[nodes.len() as int].kind == kind,
{
    assert(node_ok(nodes, p));
    if let Some(l) = nodes[p].last_child {
        assert(node_ok(nodes, l as int));
    }
}

/// Appending a child to a node that is not text keeps a node list well formed.
pub proof fn lemma_append_wf(nodes: Seq<Node>, p: int, kind: NodeKind)
    requires
        wf_nodes(nodes),
        0 <= p < nodes.len(),
        !(nodes[p].kind is Text),
        !(kind is Document),
        nodes.len() < usize::MAX,
    ensures
        wf_nodes(append_spec(nodes, p, kind)),
{
    let after = append_spec(nodes, p, kind);
    assert(node_ok(nodes, p));
    assert forall|i: int| 0 <= i < after.len() implies #[trigger] node_ok(after, i) by {
        if i < nodes.len() {
            assert(node_ok(nodes, i));
            let n = nodes[i];
            if let Some(f) = n.first_child {
                assert(node_ok(nodes, f as int));
            }
            if let Some(l) = n.last_child {
                assert(node_ok(nodes, l as int));
            }
            if let Some(s) = n.next_sibling {
                assert(node_ok(nodes, s as int));
            }
        }
    }
}

#[derive(Debug)]
pub struct Window {
    nodes: Vec<Node>,
}

impl View for Window {
    type V = Seq<Node>;

    closed spec fn view(&self) -> Seq<Node> {
        self.nodes@
    }
}

impl Window {
    /// A window holding an empty document.
    pub fn new() -> (r: Window)
        ensures
            r@.len() == 1,
            r@[0].kind is Document,
            r@[0].parent is None && r@[0].first_child is None && r@[0].last_child is None,
            r@[0].next_sibling is None && r@[0].previous_sibling is None,
            wf_nodes(r@),
    {
        let mut nodes: Vec<Node> = Vec::new();
        nodes.push(Node::new(NodeKind::Document));
        let r = Window { nodes };
        assert(node_ok(r@, 0));
        r
    }

    /// The index of the document node.
    pub fn document(&self) -> (r: usize)
        ensures
            r == 0,
    {
        0
    }

    pub fn len(&self) -> (r: usize)
        ensures
            r == self@.len(),
    {
        self.nodes.len()
    }

    pub fn node(&self, id: usize) -> (r: &Node)
        requires
            id < self@.len(),
        ensures
            *r == self@[id as int],
    {
        &self.nodes[id]
    }

    /// Appends a new node of kind `kind` as the last child of `parent` and returns its index.
    pub fn append_child(&mut self, parent: usize, kind: NodeKind) -> (id: usize)
        requires
            wf_nodes(old(self)@),
            parent < old(self)@.len(),
            !(old(self)@[parent as int].kind is Text),
            !(kind is Document),
            old(self)@.len() < usize::MAX,
        ensures
            id == old(self)@.len(),
            final(self)@ == append_spec(old(self)@, parent as int, kind),
            wf_nodes(final(self)@),
    {
        let id = self.nodes.len();
        let old_last = self.nodes[parent].last_child;
        let ghost before = self.nodes@;
        let ghost k = kind;
        proof {
            assert(node_ok(before, parent as int));
            lemma_append_wf(before, parent as int, kind);
        }
        let mut node = Node::new(kind);
        node.parent = Some(parent);
        node.previous_sibling = old_last;
        self.nodes.push(node);
        match old_last {
            Some(l) => {
                self.nodes[l].next_sibling = Some(id);
            },
            None => {
                self.nodes[parent].first_child = Some(id);
            },
        }
        self.nodes[parent].last_child = Some(id);
        assert(self.nodes@ =~= append_spec(before, parent as int, k));
        id
    }

    /// Appends `c` to the string of the text node `id`.
    pub fn push_text(&mut self, id: usize, c: char)
        requires
            wf_nodes(old(self)@),
            id < old(self)@.len(),
            old(self)@[id as int].kind is Text,
        ensures
            wf_nodes(final(self)@),
            final(self)@.len() == old(self)@.len(),
            final(self)@[id as int].kind is Text,
            final(self)@[id as int].kind->Text_0@ == old(self)@[id as int].kind->Text_0@.push(c),
            final(self)@[id as int].parent == old(self)@[id as int].parent,
            final(self)@[id as int].first_child == old(self)@[id as int].first_child,
            final(self)@[id as int].last_child == old(self)@[id as int].last_child,
            final(self)@[id as int].next_sibling == old(self)@[id as int].next_sibling,
            final(self)@[id as int].previous_sibling == old(self)@[id as int].previous_sibling,
            forall|j: int| 0 <= j < old(self)@.len() && j != id ==> #[trigger] final(self)@[j] == old(self)@[j],
    {
        let ghost before = self.nodes@;
        match &mut self.nodes[id].kind {
            NodeKind::Text(s) => push_char(s, c),
            _ => {},
        }
        proof {
            let after = self.nodes@;
            assert forall|i: int| 0 <= i < after.len() implies #[trigger] node_ok(after, i) by {
                assert(node_ok(before, i));
            }
        }
    }
}

} // verus!
