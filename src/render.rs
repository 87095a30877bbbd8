//! The rendering contract, and its impls for the building blocks of a tree:
//! nothing, pairs and triples, optional and fallible values, lists, text and
//! integers.
use crate::html_escaping::{escape_html, escaped};
use vstd::prelude::*;

verus! {

/// Render a component
///
/// A value renders by appending its markup to a `String`. Each impl names
/// that markup as `rendered`, and `render_into` appends exactly that.
pub trait Render {
    /// The markup that this value stands for.
    spec fn rendered(&self) -> Seq<char>;

    /// Render the component to a writer.
    fn render_into(&self, writer: &mut String)
        ensures
            final(writer)@ == old(writer)@ + self.rendered(),
    ;

    /// Render the component to string
    fn render(&self) -> (r: String)
        ensures
            r@ == self.rendered(),
    {
        let mut buf = String::new();
        self.render_into(&mut buf);
        buf
    }
}

/// Renders `value` into a fresh `String`.
pub fn render_to_string<T: Render>(value: &T) -> (r: String)
    ensures
        r@ == value.rendered(),
{
    value.render()
}

/// Does nothing
impl Render for () {
    open spec fn rendered(&self) -> Seq<char> {
        Seq::empty()
    }

    fn render_into(&self, writer: &mut String) {
        assert(writer@ =~= writer@ + Seq::<char>::empty());
    }
}

/// Renders `A`, then `B`
impl<A: Render, B: Render> Render for (A, B) {
    open spec fn rendered(&self) -> Seq<char> {
        self.0.rendered() + self.1.rendered()
    }

    fn render_into(&self, writer: &mut String) {
        self.0.render_into(writer);
        self.1.render_into(writer);
        assert(writer@ =~= old(writer)@ + self.rendered());
    }
}

/// Renders `A`, then `B`, then `C`
impl<A: Render, B: Render, C: Render> Render for (A, B, C) {
    open spec fn rendered(&self) -> Seq<char> {
        self.0.rendered() + self.1.rendered() + self.2.rendered()
    }

    fn render_into(&self, writer: &mut String) {
        self.0.render_into(writer);
        self.1.render_into(writer);
        self.2.render_into(writer);
        assert(writer@ =~= old(writer)@ + self.rendered());
    }
}

/// Renders `T` or nothing
impl<T: Render> Render for Option<T> {
    open spec fn rendered(&self) -> Seq<char> {
        match self {
            None => Seq::empty(),
            Some(x) => x.rendered(),
        }
    }

    fn render_into(&self, writer: &mut String) {
        match self {
            None => {
                assert(writer@ =~= writer@ + Seq::<char>::empty());
            },
            Some(x) => x.render_into(writer),
        }
    }
}

/// Renders `O` or `E`
impl<O: Render, E: Render> Render for Result<O, E> {
    open spec fn rendered(&self) -> Seq<char> {
        match self {
            Ok(o) => o.rendered(),
            Err(e) => e.rendered(),
        }
    }

    fn render_into(&self, writer: &mut String) {
        match self {
            Ok(o) => o.render_into(writer),
            Err(e) => e.render_into(writer),
        }
    }
}

/// The markup of a list of values: each one's, in order.
pub open spec fn rendered_all<T: Render>(items: Seq<T>) -> Seq<char>
    decreases items.len(),
{
    if items.len() == 0 {
        Seq::empty()
    } else {
        rendered_all(items.drop_last()) + items.last().rendered()
    }
}

/// Renders each item, first to last
impl<T: Render> Render for Vec<T> {
    open spec fn rendered(&self) -> Seq<char> {
        rendered_all(self@)
    }

    fn render_into(&self, writer: &mut String) {
        let mut i: usize = 0;
        while i < self.len()
            invariant
                i <= self@.len(),
                writer@ == old(writer)@ + rendered_all(self@.take(i as int)),
            decreases self@.len() - i,
        {
            self[i].render_into(writer);
            proof {
                assert(self@.take(i + 1).drop_last() =~= self@.take(i as int));
                assert(self@.take(i + 1).last() == self@[i as int]);
                assert(writer@ =~= old(writer)@ + rendered_all(self@.take(i + 1)));
            }
            i = i + 1;
        }
        assert(self@.take(i as int) =~= self@);
    }
}

/// Renders the text escaped
impl Render for String {
    open spec fn rendered(&self) -> Seq<char> {
        escaped(self@)
    }

    fn render_into(&self, writer: &mut String) {
        escape_html(self.as_str(), writer);
    }
}

/// Renders the text escaped
impl Render for &str {
    open spec fn rendered(&self) -> Seq<char> {
        escaped(self@)
    }

    fn render_into(&self, writer: &mut String) {
        escape_html(*self, writer);
    }
}

/// Renders the text escaped
impl Render for std::borrow::Cow<'_, str> {
    open spec fn rendered(&self) -> Seq<char> {
        escaped(self@)
    }

    fn render_into(&self, writer: &mut String) {
        match self {
            std::borrow::Cow::Borrowed(b) => escape_html(*b, writer),
            std::borrow::Cow::Owned(o) => escape_html(o.as_str(), writer),
        }
    }
}

} // verus!
