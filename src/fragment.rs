//! The fragment component
use crate::render::Render;
use vstd::prelude::*;

verus! {

/// A top-level root component to combine a same-level components
/// in a RSX fashion: it renders its children and no markup of its own.
pub struct Fragment<T: Render> {
    pub children: T,
}

impl<T: Render> Render for Fragment<T> {
    open spec fn rendered(&self) -> Seq<char> {
        self.children.rendered()
    }

    fn render_into(&self, writer: &mut String) {
        self.children.render_into(writer);
    }
}

} // verus!
