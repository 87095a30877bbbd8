//! HTML utilities
use crate::render::Render;
use vstd::prelude::*;

verus! {

/// HTML 5 doctype declaration
pub struct HTML5Doctype;

/// The text of the HTML 5 doctype declaration.
pub open spec fn doctype_text() -> Seq<char> {
    seq!['<', '!', 'D', 'O', 'C', 'T', 'Y', 'P', 'E', ' ', 'h', 't', 'm', 'l', '>']
}

impl Render for HTML5Doctype {
    open spec fn rendered(&self) -> Seq<char> {
        doctype_text()
    }

    fn render_into(&self, writer: &mut String) {
        let text = "<!DOCTYPE html>";
        proof {
            reveal_strlit("<!DOCTYPE html>");
        }
        writer.append(text);
        assert(text@ =~= doctype_text());
    }
}

} // verus!
