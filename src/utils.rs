use vstd::prelude::*;

use crate::dom::{ElementKind, Node, NodeKind, Window};
use crate::text::push_char;
use vstd::string::StringExecFns;

verus! {

pub open spec fn kind_name_spec(k: ElementKind) -> Seq<char> {
    match k {
        ElementKind::Html => "html"@,
        ElementKind::Head => "head"@,
        ElementKind::Style => "style"@,
        ElementKind::Script => "script"@,
        ElementKind::Body => "body"@,
        ElementKind::P => "p"@,
        ElementKind::H1 => "h1"@,
        ElementKind::H2 => "h2"@,
        ElementKind::A => "a"@,
    }
}

/// The line that describes a node of kind `k`, with its line break.
pub open spec fn line_of(k: NodeKind) -> Seq<char> {
    let text = match k {
        NodeKind::Document => "Document"@,
        NodeKind::Element(e) => "Element("@ + kind_name_spec(e.kind) + ")"@,
        NodeKind::Text(s) => "Text("@ + s@ + ")"@,
    };
    text + seq!['\n']
}

/// Two spaces for each level of depth.
pub open spec fn indent(d: nat) -> Seq<char>
    decreases d,
{
    if d == 0 {
        Seq::empty()
    } else {
        indent((d - 1) as nat) + "  "@
    }
}

/// The lines for the entries of `todo`, taken last first: a node's line, then its children's
/// (one level deeper), then its later siblings'; `steps` bounds the lines.
pub open spec fn dump_from(nodes: Seq<Node>, todo: Seq<(usize, usize)>, steps: nat) -> Seq<char>
    decreases steps,
{
    if steps == 0 || todo.len() == 0 {
        Seq::empty()
    } else {
        let (id, depth) = todo.last();
        let rest = todo.drop_last();
        if (id as int) < nodes.len() {
            let n = nodes[id as int];
            let t1 = match n.next_sibling {
                Some(s) => rest.push((s, depth)),
                None => rest,
            };
            let t2 = match n.first_child {
                Some(c) => t1.push((c, (depth + 1) as usize)),
                None => t1,
            };
            indent(depth as nat) + line_of(n.kind) + dump_from(nodes, t2, (steps - 1) as nat)
        } else {
            dump_from(nodes, rest, (steps - 1) as nat)
        }
    }
}

/// The pre-order listing of the tree under `root`, one line per node indented by its depth.
pub open spec fn dump(nodes: Seq<Node>, root: usize) -> Seq<char> {
    dump_from(nodes, seq![(root, 0usize)], nodes.len())
}

fn kind_name(k: ElementKind) -> (r: &'static str)
    ensures
        r@ == kind_name_spec(k),
{
    match k {
        ElementKind::Html => "html",
        ElementKind::Head => "head",
        ElementKind::Style => "style",
        ElementKind::Script => "script",
        ElementKind::Body => "body",
        ElementKind::P => "p",
        ElementKind::H1 => "h1",
        ElementKind::H2 => "h2",
        ElementKind::A => "a",
    }
}

/// Appends the line describing a node of kind `kind`.
fn push_kind(out: &mut String, kind: &NodeKind)
    ensures
        final(out)@ == old(out)@ + line_of(*kind),
{
    let ghost start = out@;
    match kind {
        NodeKind::Document => out.append("Document"),
        NodeKind::Element(e) => {
            out.append("Element(");
            out.append(kind_name(e.kind));
            out.append(")");
        },
        NodeKind::Text(s) => {
            out.append("Text(");
            out.append(s.as_str());
            out.append(")");
        },
    }
    push_char(out, '\n');
    assert(out@ =~= start + line_of(*kind));
}

/// A text dump of the tree under `root`: a line break, then one line per node in pre-order,
/// children before the next sibling, each indented by two spaces per level.
pub fn convert_dom_to_string(window: &Window, root: Option<usize>) -> (r: String)
    ensures
        r@.len() >= 1 && r@[0] == '\n',
        root is None ==> r@ == seq!['\n'],
        root matches Some(i) ==> r@ == seq!['\n'] + dump(window@, i),
{
    let mut result = String::new();
    push_char(&mut result, '\n');
    let n = window.len();
    let mut todo: Vec<(usize, usize)> = Vec::new();
    if let Some(id) = root {
        todo.push((id, 0));
    }
    let mut steps: usize = 0;
    while todo.len() > 0 && steps < n
        invariant
            result@.len() >= 1 && result@[0] == '\n',
            n == window@.len(),
            steps <= n,
            forall|j: int| 0 <= j < todo@.len() ==> (#[trigger] todo@[j]).1 <= steps,
            root is None ==> todo@.len() == 0 && result@ == seq!['\n'],
            root matches Some(i) ==> result@ + dump_from(window@, todo@, (n - steps) as nat) == seq!['\n']
                + dump(window@, i),
        decreases n - steps,
    {
        let ghost before_iter = result@;
        let ghost todo0 = todo@;
        let (id, depth) = todo.pop().unwrap();
        if id < n {
            let node = window.node(id);
            let mut d: usize = 0;
            while d < depth
                invariant
                    d <= depth,
                    result@ == before_iter + indent(d as nat),
                decreases depth - d,
            {
                result.append("  ");
                d += 1;
            }
            push_kind(&mut result, node.kind());
            if let Some(s) = node.next_sibling() {
                todo.push((s, depth));
            }
            if let Some(c) = node.first_child() {
                todo.push((c, depth + 1));
            }
            proof {
                let rest = dump_from(window@, todo@, (n - steps - 1) as nat);
                assert(result@ + rest =~= before_iter + (indent(depth as nat) + line_of(node.kind) + rest));
            }
        } else {
            proof {
                assert(result@ == before_iter);
            }
        }
        steps += 1;
    }
    proof {
        if root is Some {
            assert(dump_from(window@, todo@, (n - steps) as nat) == Seq::<char>::empty());
            assert(result@ + Seq::<char>::empty() =~= result@);
        }
    }
    result
}

} // verus!
