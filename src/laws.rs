//! Laws of the rendering algebra.
use crate::fragment::Fragment;
use crate::node::{node_rendered, nodes_rendered, Node};
use crate::render::{rendered_all, Render};
use crate::element::{children_at, element_at};
use crate::element_attribute::{Diagnostic, DiagnosticKind};
use crate::lexer::Span;
use crate::tags::{closing_tag_at, open_tag_at, same_name};
use vstd::prelude::*;

verus! {

/// An element with no contents renders as `<tag .../>` when it closes
/// itself and as `<tag ...></tag>` when it does not, and the two differ.
pub proof fn lemma_self_closing_differs_from_paired(closed: Node, paired: Node)
    requires
        closed is Element,
        paired is Element,
        closed->Element_tag == paired->Element_tag,
        closed->Element_attributes == paired->Element_attributes,
        closed->Element_self_closing,
        !paired->Element_self_closing,
        *closed->Element_contents == Node::Unit,
        *paired->Element_contents == Node::Unit,
    ensures
        ({
            let open = seq!['<'] + closed->Element_tag@ + crate::simple_element::attributes_rendered(
                closed->Element_attributes@,
            );
            &&& node_rendered(closed) == open + seq!['/', '>']
            &&& node_rendered(paired) == open + seq!['>', '<', '/'] + closed->Element_tag@ + seq!['>']
        }),
        node_rendered(closed) != node_rendered(paired),
{
    let open = seq!['<'] + closed->Element_tag@ + crate::simple_element::attributes_rendered(
        closed->Element_attributes@,
    );
    assert(node_rendered(Node::Unit) =~= Seq::<char>::empty());
    assert(node_rendered(closed) =~= open + seq!['/', '>']);
    assert(node_rendered(paired) =~= open + seq!['>', '<', '/'] + closed->Element_tag@ + seq!['>']);
    assert(node_rendered(closed)[open.len() as int] == '/');
    assert(node_rendered(paired)[open.len() as int] == '>');
}

/// A fragment of two children renders as the first child followed by the
/// second.
pub proof fn lemma_fragment_transparent<A: Render, B: Render>(a: A, b: B)
    ensures
        (Fragment { children: (a, b) }).rendered() == a.rendered() + b.rendered(),
{
}

/// A fragment node over a sequence `[a, b]` renders as `a` followed by `b`.
pub proof fn lemma_fragment_node_transparent(members: Vec<Node>, a: Node, b: Node)
    requires
        members@ == seq![a, b],
    ensures
        node_rendered(Node::Fragment(Box::new(Node::Sequence(members)))) == node_rendered(a)
            + node_rendered(b),
{
    lemma_nodes_rendered_three(seq![a, b]);
    let inner = Node::Sequence(members);
    assert(node_rendered(inner) == nodes_rendered(members@));
    assert(node_rendered(Node::Fragment(Box::new(inner))) == node_rendered(inner));
}

/// The markup of a list of nodes is that of its first part followed by
/// that of the rest, wherever the list is cut: how members are grouped does
/// not change what is written.
pub proof fn lemma_nodes_rendered_concat(s: Seq<Node>, t: Seq<Node>)
    ensures
        nodes_rendered(s + t) == nodes_rendered(s) + nodes_rendered(t),
    decreases t.len(),
{
    if t.len() == 0 {
        assert(s + t =~= s);
        assert(nodes_rendered(t) =~= Seq::<char>::empty());
        assert(nodes_rendered(s) + nodes_rendered(t) =~= nodes_rendered(s));
    } else {
        lemma_nodes_rendered_concat(s, t.drop_last());
        assert((s + t).drop_last() =~= s + t.drop_last());
        assert((s + t).last() == t.last());
        assert(nodes_rendered(s + t) =~= nodes_rendered(s) + nodes_rendered(t));
    }
}

/// A list of up to three nodes renders as each member's markup in order.
proof fn lemma_nodes_rendered_three(s: Seq<Node>)
    requires
        s.len() <= 3,
    ensures
        s.len() == 2 ==> nodes_rendered(s) == node_rendered(s[0]) + node_rendered(s[1]),
        s.len() == 3 ==> nodes_rendered(s) == node_rendered(s[0]) + node_rendered(s[1])
            + node_rendered(s[2]),
{
    let e = Seq::<Node>::empty();
    assert(nodes_rendered(e) =~= Seq::<char>::empty());
    if s.len() >= 1 {
        assert(s.take(1).drop_last() =~= e);
        assert(nodes_rendered(s.take(1)) =~= node_rendered(s[0]));
    }
    if s.len() >= 2 {
        assert(s.take(2).drop_last() =~= s.take(1));
        assert(nodes_rendered(s.take(2)) =~= node_rendered(s[0]) + node_rendered(s[1]));
    }
    if s.len() == 2 {
        assert(s.take(2) =~= s);
    }
    if s.len() == 3 {
        assert(s.drop_last() =~= s.take(2));
        assert(nodes_rendered(s) =~= node_rendered(s[0]) + node_rendered(s[1]) + node_rendered(
            s[2],
        ));
    }
}

/// Three children render in document order, whether they are grouped as
/// `((x, y), z)`, as `(x, (y, z))` or as a triple.
pub proof fn lemma_sequence_order<X: Render, Y: Render, Z: Render>(x: X, y: Y, z: Z)
    ensures
        ((x, y), z).rendered() == x.rendered() + y.rendered() + z.rendered(),
        (x, (y, z)).rendered() == x.rendered() + y.rendered() + z.rendered(),
        (x, y, z).rendered() == x.rendered() + y.rendered() + z.rendered(),
{
    assert((x, (y, z)).rendered() =~= x.rendered() + y.rendered() + z.rendered());
}

/// A list `[x, y, z]` renders as `x`, then `y`, then `z`.
pub proof fn lemma_list_order<T: Render>(items: Vec<T>, x: T, y: T, z: T)
    requires
        items@ == seq![x, y, z],
    ensures
        items.rendered() == x.rendered() + y.rendered() + z.rendered(),
{
    let s = items@;
    assert(s.drop_last() =~= seq![x, y]);
    assert(seq![x, y].drop_last() =~= seq![x]);
    assert(seq![x].drop_last() =~= Seq::<T>::empty());
    assert(rendered_all(Seq::<T>::empty()) =~= Seq::<char>::empty());
    assert(rendered_all(seq![x]) =~= x.rendered());
    assert(rendered_all(seq![x, y]) =~= x.rendered() + y.rendered());
    assert(rendered_all(s) =~= x.rendered() + y.rendered() + z.rendered());
}

/// A sequence node over `[x, y, z]` renders as `x`, then `y`, then `z`.
pub proof fn lemma_sequence_node_order(members: Vec<Node>, x: Node, y: Node, z: Node)
    requires
        members@ == seq![x, y, z],
    ensures
        node_rendered(Node::Sequence(members)) == node_rendered(x) + node_rendered(y)
            + node_rendered(z),
{
    lemma_nodes_rendered_three(seq![x, y, z]);
}

/// An absent optional renders nothing, and a present one renders what it
/// holds.
pub proof fn lemma_optional<T: Render>(x: T)
    ensures
        None::<T>.rendered() == Seq::<char>::empty(),
        Some(x).rendered() == x.rendered(),
        node_rendered(Node::Optional(None)) == Seq::<char>::empty(),
{
}

/// A closing tag whose name differs from its opening tag's does not stop
/// the parse: the element keeps the opening tag's name, attributes and
/// children, and its last diagnostic is a mismatch at the closing tag that
/// names the opening tag.
pub proof fn lemma_mismatched_closing_tag(s: Seq<char>, p: int)
    requires
        open_tag_at(s, p) is Ok,
        !open_tag_at(s, p)->Ok_0.0.self_closing,
        p < open_tag_at(s, p)->Ok_0.2 <= s.len(),
        children_at(s, open_tag_at(s, p)->Ok_0.2) is Ok,
        closing_tag_at(s, children_at(s, open_tag_at(s, p)->Ok_0.2)->Ok_0.2) is Ok,
        !same_name(
            s,
            open_tag_at(s, p)->Ok_0.0.name,
            closing_tag_at(s, children_at(s, open_tag_at(s, p)->Ok_0.2)->Ok_0.2)->Ok_0.0,
        ),
    ensures
        ({
            let t = open_tag_at(s, p)->Ok_0.0;
            let cs = children_at(s, open_tag_at(s, p)->Ok_0.2)->Ok_0;
            let c = cs.2;
            let e = closing_tag_at(s, c)->Ok_0.1;
            &&& element_at(s, p) is Ok
            &&& element_at(s, p)->Ok_0.0.name == t.name
            &&& element_at(s, p)->Ok_0.0.attributes == t.attributes
            &&& element_at(s, p)->Ok_0.0.children == cs.0
            &&& element_at(s, p)->Ok_0.1.last() == Diagnostic {
                kind: DiagnosticKind::ClosingTagMismatch,
                at: Span { start: c as usize, end: e as usize },
                opening: t.name,
            }
            &&& element_at(s, p)->Ok_0.2 == e
        }),
{
}

} // verus!
