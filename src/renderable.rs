//! A component that renders straight to a `String`.
use crate::numbers::decimal;
use vstd::prelude::*;

verus! {

/// A renderable component
pub trait Renderable {
    /// The text that this component renders to.
    spec fn text(&self) -> Seq<char>;

    /// Render the component to the HTML representation.
    fn render(&self) -> (r: String)
        ensures
            r@ == self.text(),
    ;
}

/// Renders an empty string
impl Renderable for () {
    open spec fn text(&self) -> Seq<char> {
        Seq::empty()
    }

    fn render(&self) -> (r: String) {
        String::new()
    }
}

/// Renders `A` and then `B`
impl<A: Renderable, B: Renderable> Renderable for (A, B) {
    open spec fn text(&self) -> Seq<char> {
        self.0.text() + self.1.text()
    }

    fn render(&self) -> (r: String) {
        let mut s = self.0.render();
        let b = self.1.render();
        s.append(b.as_str());
        s
    }
}

/// Renders `A`, `B`, and then `C`
impl<A: Renderable, B: Renderable, C: Renderable> Renderable for (A, B, C) {
    open spec fn text(&self) -> Seq<char> {
        self.0.text() + self.1.text() + self.2.text()
    }

    fn render(&self) -> (r: String) {
        let mut s = self.0.render();
        let b = self.1.render();
        let c = self.2.render();
        s.append(b.as_str());
        s.append(c.as_str());
        s
    }
}

/// Renders `A`, `B`, `C` and then `D`
impl<A: Renderable, B: Renderable, C: Renderable, D: Renderable> Renderable for (A, B, C, D) {
    open spec fn text(&self) -> Seq<char> {
        self.0.text() + self.1.text() + self.2.text() + self.3.text()
    }

    fn render(&self) -> (r: String) {
        let mut s = self.0.render();
        let b = self.1.render();
        let c = self.2.render();
        let d = self.3.render();
        s.append(b.as_str());
        s.append(c.as_str());
        s.append(d.as_str());
        s
    }
}

/// Renders the `T` or an empty string
impl<T: Renderable> Renderable for Option<T> {
    open spec fn text(&self) -> Seq<char> {
        match self {
            None => Seq::empty(),
            Some(x) => x.text(),
        }
    }

    fn render(&self) -> (r: String) {
        match self {
            None => String::new(),
            Some(x) => x.render(),
        }
    }
}

/// Renders `O` or `E`
impl<O: Renderable, E: Renderable> Renderable for Result<O, E> {
    open spec fn text(&self) -> Seq<char> {
        match self {
            Err(e) => e.text(),
            Ok(o) => o.text(),
        }
    }

    fn render(&self) -> (r: String) {
        match self {
            Err(e) => e.render(),
            Ok(o) => o.render(),
        }
    }
}

/// Renders the number in base 10
impl Renderable for usize {
    open spec fn text(&self) -> Seq<char> {
        decimal(*self as nat)
    }

    fn render(&self) -> (r: String) {
        crate::render::Render::render(self)
    }
}

} // verus!
