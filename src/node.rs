//! The render tree: one sum type for every value that a template reduces to,
//! with its markup.
use crate::html_escaping::{escape_html, escaped};
use crate::numbers::decimal_int;
use crate::render::Render;
use crate::simple_element::{attributes_rendered, element_rendered};
use vstd::prelude::*;

verus! {

/// A node of the render tree.
pub enum Node {
    /// Renders nothing.
    Unit,
    /// Text, written escaped.
    Text(String),
    /// Markup, written verbatim.
    Raw(String),
    /// An integer, written in base 10.
    Number(i64),
    /// A simple element: its tag, its attributes with their unescaped
    /// values, whether it closes itself, and its contents.
    Element { tag: String, attributes: Vec<(String, String)>, self_closing: bool, contents: Box<Node> },
    /// The pass-through wrapper: its contents and no markup of its own.
    Fragment(Box<Node>),
    /// Its members, first to last.
    Sequence(Vec<Node>),
    /// Nothing, or the node held.
    Optional(Option<Box<Node>>),
    /// Either side of a result, whichever is held.
    Fallible(Result<Box<Node>, Box<Node>>),
}

/// The markup of a node.
pub open spec fn node_rendered(n: Node) -> Seq<char>
    decreases n,
{
    match n {
        Node::Unit => Seq::empty(),
        Node::Text(s) => escaped(s@),
        Node::Raw(s) => s@,
        Node::Number(k) => decimal_int(k as int),
        Node::Element { tag, attributes, self_closing, contents } => element_rendered(
            tag@,
            attributes_rendered(attributes@),
            self_closing,
            node_rendered(*contents),
        ),
        Node::Fragment(c) => node_rendered(*c),
        Node::Sequence(v) => nodes_rendered(v@),
        Node::Optional(o) => match o {
            None => Seq::empty(),
            Some(c) => node_rendered(*c),
        },
        Node::Fallible(r) => match r {
            Ok(c) => node_rendered(*c),
            Err(c) => node_rendered(*c),
        },
    }
}

/// The markup of a list of nodes: each one's, in order.
pub open spec fn nodes_rendered(s: Seq<Node>) -> Seq<char>
    decreases s,
{
    if s.len() == 0 {
        Seq::empty()
    } else {
        nodes_rendered(s.drop_last()) + node_rendered(s.last())
    }
}

/// A member of a sequence node is smaller than the node.
proof fn lemma_member_decreases(n: Node, i: int)
    requires
        n is Sequence,
        0 <= i < n->Sequence_0@.len(),
    ensures
        decreases_to!(n => n->Sequence_0@[i]),
{
    let v = n->Sequence_0;
    assert(decreases_to!(n => n->Sequence_0));
    assert(decreases_to!(v => v@));
    assert(decreases_to!(v@ => v@[i]));
}

/// Appends the markup of `n` to `writer`.
fn render_node(n: &Node, writer: &mut String)
    ensures
        final(writer)@ == old(writer)@ + node_rendered(*n),
    decreases *n,
{
    match n {
        Node::Unit => {
            assert(writer@ =~= writer@ + Seq::<char>::empty());
        },
        Node::Text(s) => escape_html(s.as_str(), writer),
        Node::Raw(s) => writer.append(s.as_str()),
        Node::Number(k) => k.render_into(writer),
        Node::Element { tag, attributes, self_closing, contents } => {
            writer.push('<');
            writer.append(tag.as_str());
            crate::simple_element::write_attribute_list(attributes, writer);
            if *self_closing {
                writer.push('/');
                writer.push('>');
            } else {
                writer.push('>');
                render_node(contents, writer);
                writer.push('<');
                writer.push('/');
                writer.append(tag.as_str());
                writer.push('>');
            }
            assert(writer@ =~= old(writer)@ + node_rendered(*n));
        },
        Node::Fragment(c) => render_node(c, writer),
        Node::Sequence(v) => {
            let mut i: usize = 0;
            while i < v.len()
                invariant
                    i <= v@.len(),
                    *n == Node::Sequence(*v),
                    writer@ == old(writer)@ + nodes_rendered(v@.take(i as int)),
                decreases v@.len() - i,
            {
                proof {
                    lemma_member_decreases(*n, i as int);
                }
                render_node(&v[i], writer);
                proof {
                    let t = v@.take(i + 1);
                    assert(t.drop_last() =~= v@.take(i as int));
                    assert(t.last() == v@[i as int]);
                    assert(writer@ =~= old(writer)@ + nodes_rendered(t));
                }
                i = i + 1;
            }
            assert(v@.take(i as int) =~= v@);
        },
        Node::Optional(o) => match o {
            None => {
                assert(writer@ =~= writer@ + Seq::<char>::empty());
            },
            Some(c) => render_node(c, writer),
        },
        Node::Fallible(r) => match r {
            Ok(c) => render_node(c, writer),
            Err(c) => render_node(c, writer),
        },
    }
}

impl Render for Node {
    open spec fn rendered(&self) -> Seq<char> {
        node_rendered(*self)
    }

    fn render_into(&self, writer: &mut String) {
        render_node(self, writer);
    }
}

/// Whether a node stands for one child: neither nothing nor a pairing.
pub open spec fn is_single(n: Node) -> bool {
    !(n is Unit) && !(n is Sequence)
}

} // verus!
