//! Simple HTML elements: a tag, its attributes and its contents.
use crate::html_escaping::{escape_html, escaped};
use crate::render::Render;
use vstd::prelude::*;

verus! {

/// The markup of one attribute: ` key="value"`, the value escaped.
pub open spec fn attribute_rendered(key: Seq<char>, value: Seq<char>) -> Seq<char> {
    seq![' '] + key + seq!['=', '"'] + escaped(value) + seq!['"']
}

/// The markup of a list of attributes, in list order.
pub open spec fn attributes_rendered(attributes: Seq<(String, String)>) -> Seq<char>
    decreases attributes.len(),
{
    if attributes.len() == 0 {
        Seq::empty()
    } else {
        attributes_rendered(attributes.drop_last()) + attribute_rendered(
            attributes.last().0@,
            attributes.last().1@,
        )
    }
}

/// The markup of an optional list of attributes.
pub open spec fn maybe_attributes_rendered(attributes: Option<Vec<(String, String)>>) -> Seq<char> {
    match attributes {
        None => Seq::empty(),
        Some(list) => attributes_rendered(list@),
    }
}

/// Simple HTML element tag
pub struct SimpleElement<T: Render> {
    /// the HTML tag name, like `html`, `head`, `body`, `link`...
    pub tag_name: String,
    /// attribute keys and their unescaped values, written in list order
    pub attributes: Option<Vec<(String, String)>>,
    pub contents: Option<T>,
    pub self_closing: bool,
}

/// The markup of an element: `<tag attrs/>` when it closes itself, else
/// `<tag attrs>contents</tag>`.
pub open spec fn element_rendered(
    tag: Seq<char>,
    attributes: Seq<char>,
    self_closing: bool,
    contents: Seq<char>,
) -> Seq<char> {
    if self_closing {
        seq!['<'] + tag + attributes + seq!['/', '>']
    } else {
        seq!['<'] + tag + attributes + seq!['>'] + contents + seq!['<', '/'] + tag + seq!['>']
    }
}

/// Appends ` key="value"` for each attribute, in list order.
pub(crate) fn write_attribute_list(attributes: &Vec<(String, String)>, writer: &mut String)
    ensures
        final(writer)@ == old(writer)@ + attributes_rendered(attributes@),
{
    let mut i: usize = 0;
    while i < attributes.len()
        invariant
            i <= attributes@.len(),
            writer@ == old(writer)@ + attributes_rendered(attributes@.take(i as int)),
        decreases attributes@.len() - i,
    {
        let ghost before = writer@;
        writer.push(' ');
        writer.append(attributes[i].0.as_str());
        writer.push('=');
        writer.push('"');
        escape_html(attributes[i].1.as_str(), writer);
        writer.push('"');
        proof {
            let s = attributes@.take(i + 1);
            assert(s.drop_last() =~= attributes@.take(i as int));
            assert(s.last() == attributes@[i as int]);
            assert(writer@ =~= before + attribute_rendered(
                attributes@[i as int].0@,
                attributes@[i as int].1@,
            ));
            assert(writer@ =~= old(writer)@ + attributes_rendered(s));
        }
        i = i + 1;
    }
    assert(attributes@.take(i as int) =~= attributes@);
}

/// Appends ` key="value"` for each attribute, in list order.
fn write_attributes(maybe_attributes: &Option<Vec<(String, String)>>, writer: &mut String)
    ensures
        final(writer)@ == old(writer)@ + maybe_attributes_rendered(*maybe_attributes),
{
    match maybe_attributes {
        None => {
            assert(writer@ =~= writer@ + Seq::<char>::empty());
        },
        Some(attributes) => write_attribute_list(attributes, writer),
    }
}

impl<T: Render> Render for SimpleElement<T> {
    open spec fn rendered(&self) -> Seq<char> {
        element_rendered(
            self.tag_name@,
            maybe_attributes_rendered(self.attributes),
            self.self_closing,
            self.contents.rendered(),
        )
    }

    fn render_into(&self, writer: &mut String) {
        writer.push('<');
        writer.append(self.tag_name.as_str());
        write_attributes(&self.attributes, writer);
        if self.self_closing {
            writer.push('/');
            writer.push('>');
        } else {
            writer.push('>');
            self.contents.render_into(writer);
            writer.push('<');
            writer.push('/');
            writer.append(self.tag_name.as_str());
            writer.push('>');
        }
        assert(writer@ =~= old(writer)@ + self.rendered());
    }
}

} // verus!
