//! Opening and closing tags.
use crate::element_attribute::{Diagnostic, ParseError, ParseErrorKind, AttributeView};
use crate::element_attributes::{attributes_from, attributes_in, keys_unique, ElementAttributes};
use crate::lexer::{char_at, has_char, path_at, same_text, scan_path, skip_whitespace, skip_ws, span_in, text_of, Span};
use vstd::prelude::*;

verus! {

/// Where the last segment of the qualified name in `start..i` begins.
pub open spec fn segment_start(s: Seq<char>, start: int, i: int) -> int
    decreases i - start,
{
    if i <= start {
        start
    } else if s[i - 1] == ':' {
        i
    } else {
        segment_start(s, start, i - 1)
    }
}

/// The uppercase of `c`, by Unicode case rules (one character or more).
pub uninterp spec fn upper_of(c: char) -> Seq<char>;

/// Relies on `char::to_uppercase`, collected into a `String`: the uppercase
/// of the character by Unicode case rules, which depends on it alone.
#[verifier::external_body]
fn uppercase(c: char) -> (r: String)
    ensures
        r@ == upper_of(c),
{
    c.to_uppercase().collect::<String>()
}

/// Whether `c` equals its own uppercase.
pub open spec fn is_own_uppercase(c: char) -> bool {
    upper_of(c) == seq![c]
}

/// Whether `c` equals its own uppercase.
fn own_uppercase(c: char) -> (r: bool)
    ensures
        r == is_own_uppercase(c),
{
    let u = uppercase(c);
    let t = u.as_str();
    if t.unicode_len() != 1 {
        return false;
    }
    let first = t.get_char(0);
    proof {
        if first == c {
            assert(upper_of(c) =~= seq![c]);
        }
    }
    first == c
}

/// Whether a tag name makes a custom element: no name (a fragment), or a
/// last segment whose first character, uppercased by Unicode case rules,
/// equals itself. An empty name would make a simple element.
pub open spec fn is_custom_name(s: Seq<char>, name: Option<Span>) -> bool {
    match name {
        None => true,
        Some(n) => {
            let i = segment_start(s, n.start as int, n.end as int);
            i < n.end && is_own_uppercase(s[i])
        },
    }
}

/// Whether two tag names are the same: both absent, or the same text.
pub open spec fn same_name(s: Seq<char>, a: Option<Span>, b: Option<Span>) -> bool {
    match (a, b) {
        (None, None) => true,
        (Some(x), Some(y)) => text_of(s, x) == text_of(s, y),
        _ => false,
    }
}

/// An opening tag as the grammar sees it.
pub struct OpenTagView {
    pub name: Option<Span>,
    pub attributes: Seq<AttributeView>,
    pub self_closing: bool,
}

/// The opening tag at `p`, the diagnostics on its attributes, and the
/// position after it.
pub open spec fn open_tag_at(s: Seq<char>, p: int) -> Result<(OpenTagView, Seq<Diagnostic>, int), ParseError> {
    if !char_at(s, p, '<') {
        Err(ParseError { kind: ParseErrorKind::ExpectedOpenAngle, at: p as usize })
    } else {
        let n0 = skip_ws(s, p + 1);
        let name = path_at(s, n0);
        let a0 = match name {
            Some(n) => n.end as int,
            None => n0,
        };
        match attributes_from(s, a0, is_custom_name(s, name), Seq::empty(), Seq::empty(), Seq::empty()) {
            Err(e) => Err(e),
            Ok((attributes, diags, q)) => {
                let self_closing = char_at(s, q, '/');
                let g = if self_closing {
                    skip_ws(s, q + 1)
                } else {
                    q
                };
                if char_at(s, g, '>') {
                    Ok((OpenTagView { name, attributes, self_closing }, diags, g + 1))
                } else {
                    Err(ParseError { kind: ParseErrorKind::ExpectedCloseAngle, at: g as usize })
                }
            },
        }
    }
}

/// The name of the closing tag at `p`, and the position after it.
pub open spec fn closing_tag_at(s: Seq<char>, p: int) -> Result<(Option<Span>, int), ParseError> {
    if !char_at(s, p, '<') {
        Err(ParseError { kind: ParseErrorKind::ExpectedOpenAngle, at: p as usize })
    } else {
        let q = skip_ws(s, p + 1);
        if !char_at(s, q, '/') {
            Err(ParseError { kind: ParseErrorKind::ExpectedSlash, at: q as usize })
        } else {
            let n0 = skip_ws(s, q + 1);
            let name = path_at(s, n0);
            let e = match name {
                Some(n) => skip_ws(s, n.end as int),
                None => n0,
            };
            if char_at(s, e, '>') {
                Ok((name, e + 1))
            } else {
                Err(ParseError { kind: ParseErrorKind::ExpectedCloseAngle, at: e as usize })
            }
        }
    }
}

/// An opening tag: its name (absent for a fragment), its attributes and
/// whether it closes itself.
pub struct OpenTag {
    pub name: Option<Span>,
    pub attributes: ElementAttributes,
    pub self_closing: bool,
}

impl OpenTag {
    pub open spec fn view(&self) -> OpenTagView {
        OpenTagView { name: self.name, attributes: self.attributes.view(), self_closing: self.self_closing }
    }
}

/// A closing tag: its name, absent for a fragment.
pub struct ClosingTag {
    pub name: Option<Span>,
}

/// Whether the tag name `name` makes a custom element.
pub fn is_custom(src: &Vec<char>, name: Option<Span>) -> (r: bool)
    requires
        name matches Some(n) ==> span_in(src@, n),
    ensures
        r == is_custom_name(src@, name),
{
    match name {
        None => true,
        Some(n) => {
            let mut i = n.end;
            while i > n.start && src[i - 1] != ':'
                invariant
                    n.start <= i <= n.end <= src@.len(),
                    segment_start(src@, n.start as int, i as int) == segment_start(
                        src@,
                        n.start as int,
                        n.end as int,
                    ),
                decreases i,
            {
                i = i - 1;
            }
            i < n.end && own_uppercase(src[i])
        },
    }
}

/// Whether two tag names are the same.
pub fn names_match(src: &Vec<char>, a: Option<Span>, b: Option<Span>) -> (r: bool)
    requires
        a matches Some(x) ==> span_in(src@, x),
        b matches Some(y) ==> span_in(src@, y),
    ensures
        r == same_name(src@, a, b),
{
    match (a, b) {
        (None, None) => true,
        (Some(x), Some(y)) => same_text(src, x, y),
        _ => false,
    }
}

impl OpenTag {
    /// Parses the opening tag at `p`, pushing the diagnostics on its
    /// attributes to `diags`.
    pub fn parse(src: &Vec<char>, p: usize, diags: &mut Vec<Diagnostic>) -> (r: Result<(OpenTag, usize), ParseError>)
        requires
            p <= src@.len() <= usize::MAX,
        ensures
            match (r, open_tag_at(src@, p as int)) {
                (Ok((t, e)), Ok((v, d, f))) => t.view() == v && final(diags)@ == old(diags)@ + d && e as int == f,
                (Err(x), Err(y)) => x == y,
                _ => false,
            },
            r matches Ok((t, e)) ==> p < e <= src@.len() && attributes_in(src@, t.view().attributes)
                && keys_unique(src@, t.view().attributes) && (t.name matches Some(n) ==> span_in(src@, n)),
    {
        if !has_char(src, p, '<') {
            return Err(ParseError { kind: ParseErrorKind::ExpectedOpenAngle, at: p });
        }
        let n0 = skip_whitespace(src, p + 1);
        let name = scan_path(src, n0);
        let a0 = match name {
            Some(n) => n.end,
            None => n0,
        };
        let custom = is_custom(src, name);
        let (attributes, q) = ElementAttributes::parse(src, a0, custom, diags)?;
        let self_closing = has_char(src, q, '/');
        let g = if self_closing {
            skip_whitespace(src, q + 1)
        } else {
            q
        };
        if has_char(src, g, '>') {
            Ok((OpenTag { name, attributes, self_closing }, g + 1))
        } else {
            Err(ParseError { kind: ParseErrorKind::ExpectedCloseAngle, at: g })
        }
    }
}

impl ClosingTag {
    /// Parses the closing tag at `p`.
    pub fn parse(src: &Vec<char>, p: usize) -> (r: Result<(ClosingTag, usize), ParseError>)
        requires
            p <= src@.len() <= usize::MAX,
        ensures
            match (r, closing_tag_at(src@, p as int)) {
                (Ok((t, e)), Ok((n, f))) => t.name == n && e as int == f,
                (Err(x), Err(y)) => x == y,
                _ => false,
            },
            r matches Ok((t, e)) ==> p < e <= src@.len() && (t.name matches Some(n) ==> span_in(src@, n)),
    {
        if !has_char(src, p, '<') {
            return Err(ParseError { kind: ParseErrorKind::ExpectedOpenAngle, at: p });
        }
        let q = skip_whitespace(src, p + 1);
        if !has_char(src, q, '/') {
            return Err(ParseError { kind: ParseErrorKind::ExpectedSlash, at: q });
        }
        let n0 = skip_whitespace(src, q + 1);
        let name = scan_path(src, n0);
        let e = match name {
            Some(n) => skip_whitespace(src, n.end),
            None => n0,
        };
        if has_char(src, e, '>') {
            Ok((ClosingTag { name }, e + 1))
        } else {
            Err(ParseError { kind: ParseErrorKind::ExpectedCloseAngle, at: e })
        }
    }

    /// Whether this closing tag names the element that `open_tag` opened,
    /// by the text of the two names.
    pub fn validate(&self, src: &Vec<char>, open_tag: &OpenTag) -> (r: bool)
        requires
            self.name matches Some(x) ==> span_in(src@, x),
            open_tag.name matches Some(y) ==> span_in(src@, y),
        ensures
            r == same_name(src@, open_tag.name, self.name),
    {
        names_match(src, open_tag.name, self.name)
    }
}

} // verus!
