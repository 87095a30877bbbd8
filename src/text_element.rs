//! Raw text: markup written as it is, without escaping.
use crate::render::Render;
use vstd::prelude::*;

verus! {

/// A raw (unencoded) html string
pub struct Raw(pub String);

impl From<&str> for Raw {
    fn from(s: &str) -> (r: Raw)
        ensures
            r.0@ == s@,
    {
        Raw(s.to_string())
    }
}

impl vstd::std_specs::convert::FromSpecImpl<&str> for Raw {
    /// A `String` is not fixed by its characters alone, so the conversion
    /// is described by the `ensures` of `from` instead.
    open spec fn obeys_from_spec() -> bool {
        false
    }

    open spec fn from_spec(s: &str) -> Raw {
        arbitrary()
    }
}

impl From<String> for Raw {
    fn from(s: String) -> (r: Raw)
        ensures
            r.0@ == s@,
    {
        Raw(s)
    }
}

impl vstd::std_specs::convert::FromSpecImpl<String> for Raw {
    open spec fn obeys_from_spec() -> bool {
        true
    }

    open spec fn from_spec(s: String) -> Raw {
        Raw(s)
    }
}

/// A raw (unencoded) html string: written verbatim
impl Render for Raw {
    open spec fn rendered(&self) -> Seq<char> {
        self.0@
    }

    fn render_into(&self, writer: &mut String) {
        writer.append(self.0.as_str());
    }
}

} // verus!
