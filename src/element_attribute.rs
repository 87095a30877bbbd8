//! One attribute of an element: a dashed key, punned or with a braced value.
use crate::lexer::{
    has_char, same_text, scan_block_close, scan_key, skip_whitespace, block_close, BlockState, char_at, is_word_start,
    key_rest, skip_ws, span_in, span_string, text_of, word_at, is_rust_block, scan_word, span_is_block, Span,
};
use vstd::prelude::*;

verus! {

/// Why a template could not be parsed.
#[derive(Clone, Copy, PartialEq, Eq, Debug)]
pub enum ParseErrorKind {
    /// A `<` was expected.
    ExpectedOpenAngle,
    /// A `>` was expected.
    ExpectedCloseAngle,
    /// A `/` was expected, to start a closing tag.
    ExpectedSlash,
    /// A `{` was expected, after `=`.
    ExpectedBlock,
    /// A `{` was never closed.
    UnclosedBlock,
    /// A braced expression is not a Rust block.
    MalformedExpression,
    /// The input ended before the element's closing tag.
    UnexpectedEnd,
    /// Something other than whitespace follows the element.
    TrailingInput,
}

/// A fatal parse error and the position where it was found.
#[derive(Clone, Copy, PartialEq, Eq, Debug)]
pub struct ParseError {
    pub kind: ParseErrorKind,
    pub at: usize,
}

/// What a recoverable problem in a template is.
#[derive(Clone, Copy, PartialEq, Eq, Debug)]
pub enum DiagnosticKind {
    /// The closing tag names another element than the opening tag.
    ClosingTagMismatch,
    /// The element already has an attribute with this key; this one is
    /// dropped.
    DuplicateAttribute,
    /// A custom element's attribute key has dashes; use `underscore_name`
    /// instead.
    DashedCustomAttribute,
    /// A punned attribute's key has dashes, so no variable can be named
    /// like it.
    DashedPunnedAttribute,
}

/// A recoverable problem, the span of the template it concerns, and for a
/// closing tag that does not match, the name of the opening tag it should
/// close (absent for a fragment, and for other kinds).
#[derive(Clone, Copy, PartialEq, Eq, Debug)]
pub struct Diagnostic {
    pub kind: DiagnosticKind,
    pub at: Span,
    pub opening: Option<Span>,
}

/// An attribute as the grammar sees it: its key segments, and the span
/// inside the braces of its value, absent when the attribute is punned.
pub struct AttributeView {
    pub key: Seq<Span>,
    pub value: Option<Span>,
}

/// An element attribute
pub enum ElementAttribute {
    /// `key` alone: the value is the variable named like the key.
    Punned(Vec<Span>),
    /// `key={expression}`: the span is the expression inside the braces.
    WithValue(Vec<Span>, Span),
}

impl ElementAttribute {
    pub open spec fn view(&self) -> AttributeView {
        match self {
            ElementAttribute::Punned(k) => AttributeView { key: k@, value: None },
            ElementAttribute::WithValue(k, v) => AttributeView { key: k@, value: Some(*v) },
        }
    }

    /// The key segments.
    pub fn ident(&self) -> (r: &Vec<Span>)
        ensures
            r@ == self.view().key,
    {
        match self {
            ElementAttribute::Punned(k) => k,
            ElementAttribute::WithValue(k, _) => k,
        }
    }

    /// Whether the attribute may stand on an element of the given kind: a
    /// custom element takes no dashed key (use `underscore_name` instead),
    /// and a simple one no dashed punned key.
    pub fn validate(&self, is_custom_element: bool) -> (r: bool)
        ensures
            r == crate::element_attributes::attribute_allowed(self.view(), is_custom_element),
    {
        if is_custom_element {
            self.ident().len() < 2
        } else {
            !(self.is_punned() && self.ident().len() > 1)
        }
    }

    /// Whether the attribute is punned.
    pub fn is_punned(&self) -> (r: bool)
        ensures
            r == (self.view().value is None),
    {
        match self {
            ElementAttribute::Punned(_) => true,
            ElementAttribute::WithValue(_, _) => false,
        }
    }
}

/// The views of a list of attributes.
pub open spec fn attribute_views(a: Seq<ElementAttribute>) -> Seq<AttributeView> {
    a.map_values(|x: ElementAttribute| x.view())
}

/// The text of each segment of a key.
pub open spec fn key_text(s: Seq<char>, key: Seq<Span>) -> Seq<Seq<char>> {
    key.map_values(|sp: Span| text_of(s, sp))
}

/// Whether every segment of a key lies within `s`.
pub open spec fn key_in(s: Seq<char>, key: Seq<Span>) -> bool {
    forall|i: int| 0 <= i < key.len() ==> span_in(s, #[trigger] key[i])
}

/// Whether two keys are the same: they have the same segments, by text.
/// The value plays no part.
pub open spec fn same_key(s: Seq<char>, a: Seq<Span>, b: Seq<Span>) -> bool {
    key_text(s, a) == key_text(s, b)
}

/// The segments of the attribute key that starts at `p`, where a word
/// starts.
pub open spec fn key_at(s: Seq<char>, p: int) -> Seq<Span> {
    seq![word_at(s, p)->0] + key_rest(s, word_at(s, p)->0.end as int).0
}

/// A key's segments, as written, joined by `sep`.
pub open spec fn joined(s: Seq<char>, key: Seq<Span>, sep: char) -> Seq<char>
    decreases key.len(),
{
    if key.len() <= 1 {
        if key.len() == 1 {
            text_of(s, key[0])
        } else {
            Seq::empty()
        }
    } else {
        joined(s, key.drop_last(), sep) + seq![sep] + text_of(s, key.last())
    }
}

/// The attribute that starts at `p`, where a word starts, and where it ends.
pub open spec fn attribute_at(s: Seq<char>, p: int) -> Result<(AttributeView, int), ParseError> {
    let w = word_at(s, p)->0;
    let rest = key_rest(s, w.end as int);
    let key = key_at(s, p);
    let e = skip_ws(s, rest.1);
    if char_at(s, e, '=') {
        let b = skip_ws(s, e + 1);
        if char_at(s, b, '{') {
            match block_close(s, b + 1, 0, BlockState::Code) {
                Some(c) => if is_rust_block(s.subrange(b, c + 1)) {
                    Ok(
                        (
                            AttributeView {
                                key,
                                value: Some(Span { start: (b + 1) as usize, end: c as usize }),
                            },
                            c + 1,
                        ),
                    )
                } else {
                    Err(ParseError { kind: ParseErrorKind::MalformedExpression, at: b as usize })
                },
                None => Err(ParseError { kind: ParseErrorKind::UnclosedBlock, at: b as usize }),
            }
        } else {
            Err(ParseError { kind: ParseErrorKind::ExpectedBlock, at: b as usize })
        }
    } else {
        Ok((AttributeView { key, value: None }, rest.1))
    }
}

/// Whether the key segments that scanning found lie within `s`.
proof fn lemma_key_rest_in(s: Seq<char>, p: int)
    requires
        0 <= p <= s.len(),
        s.len() <= usize::MAX,
    ensures
        key_in(s, key_rest(s, p).0),
        p <= key_rest(s, p).1 <= s.len(),
    decreases s.len() - p,
{
    if 0 <= p < s.len() && s[p] == '-' && word_at(s, p + 1) is Some && p < word_at(s, p + 1)->0.end
        <= s.len() {
        let w = word_at(s, p + 1)->0;
        lemma_key_rest_in(s, w.end as int);
        lemma_word_in(s, p + 1);
        let r = key_rest(s, w.end as int);
        assert forall|i: int| 0 <= i < (seq![w] + r.0).len() implies span_in(
            s,
            #[trigger] (seq![w] + r.0)[i],
        ) by {
            if i > 0 {
                assert((seq![w] + r.0)[i] == r.0[i - 1]);
            }
        }
    }
}

/// A word lies within `s`.
pub proof fn lemma_word_in(s: Seq<char>, p: int)
    requires
        word_at(s, p) is Some,
        s.len() <= usize::MAX,
    ensures
        span_in(s, word_at(s, p)->0),
        p <= word_at(s, p)->0.start,
        word_at(s, p)->0.start < word_at(s, p)->0.end,
{
    if 0 <= p && p + 2 < s.len() && s[p] == 'r' && s[p + 1] == '#' && is_word_start(s[p + 2]) {
        lemma_word_run_bounds(s, p + 3);
    } else {
        lemma_word_run_bounds(s, p + 1);
    }
}

proof fn lemma_word_run_bounds(s: Seq<char>, p: int)
    requires
        0 <= p <= s.len(),
    ensures
        p <= crate::lexer::word_run(s, p) <= s.len(),
    decreases s.len() - p,
{
    if p < s.len() {
        lemma_word_run_bounds(s, p + 1);
    }
}

impl ElementAttribute {
    /// Parses the attribute that starts at `p`, where the word `first` starts.
    pub fn parse(src: &Vec<char>, p: usize) -> (r: Result<(ElementAttribute, usize), ParseError>)
        requires
            p <= src@.len() <= usize::MAX,
            word_at(src@, p as int) is Some,
        ensures
            match (r, attribute_at(src@, p as int)) {
                (Ok((a, e)), Ok((v, f))) => a.view() == v && e as int == f,
                (Err(x), Err(y)) => x == y,
                _ => false,
            },
            r matches Ok((a, e)) ==> p < e <= src@.len() && key_in(src@, a.view().key) && a.view().key.len()
                >= 1 && (a.view().value matches Some(v) ==> span_in(src@, v)),
    {
        let (key, kend) = scan_key_at(src, p);
        let e = skip_whitespace(src, kend);
        if has_char(src, e, '=') {
            let b = skip_whitespace(src, e + 1);
            if has_char(src, b, '{') {
                match scan_block_close(src, b + 1) {
                    Some(c) => {
                        if !span_is_block(src, Span { start: b, end: c + 1 }) {
                            return Err(ParseError { kind: ParseErrorKind::MalformedExpression, at: b });
                        }
                        let r = ElementAttribute::WithValue(key, Span { start: b + 1, end: c });
                        proof {
                            let bc = block_close(src@, b + 1, 0, BlockState::Code);
                            assert(bc == Some(c as int));
                            assert(attribute_at(src@, p as int) == Ok::<(AttributeView, int), ParseError>((r.view(), c + 1)));
                        }
                        Ok((r, c + 1))
                    },
                    None => Err(ParseError { kind: ParseErrorKind::UnclosedBlock, at: b }),
                }
            } else {
                Err(ParseError { kind: ParseErrorKind::ExpectedBlock, at: b })
            }
        } else {
            let r = ElementAttribute::Punned(key);
            assert(attribute_at(src@, p as int) == Ok::<(AttributeView, int), ParseError>((r.view(), kend as int)));
            Ok((r, kend))
        }
    }
}

/// The segments of the attribute key that starts at `p`, and where the key
/// ends.
fn scan_key_at(src: &Vec<char>, p: usize) -> (r: (Vec<Span>, usize))
    requires
        p <= src@.len() <= usize::MAX,
        word_at(src@, p as int) is Some,
    ensures
        r.0@ == key_at(src@, p as int),
        r.1 as int == key_rest(src@, word_at(src@, p as int)->0.end as int).1,
        p < r.1 <= src@.len(),
        key_in(src@, r.0@),
        r.0@.len() >= 1,
{
    let first = scan_word(src, p).unwrap();
    proof {
        lemma_word_in(src@, p as int);
        lemma_key_rest_in(src@, first.end as int);
    }
    let (key, kend) = scan_key(src, first);
    proof {
        let k = key@;
        assert forall|i: int| 0 <= i < k.len() implies span_in(src@, #[trigger] k[i]) by {
            if i > 0 {
                assert(k[i] == key_rest(src@, first.end as int).0[i - 1]);
            }
        }
    }
    (key, kend)
}

/// A key's segments, as written, joined by `sep`.
pub(crate) fn key_string(src: &Vec<char>, key: &Vec<Span>, sep: char) -> (r: String)
    requires
        key_in(src@, key@),
        key@.len() >= 1,
    ensures
        r@ == joined(src@, key@, sep),
{
    let mut out = span_string(src, key[0]);
    let mut i: usize = 1;
    assert(key@.take(1).drop_last() =~= Seq::<Span>::empty());
    while i < key.len()
        invariant
            1 <= i <= key@.len(),
            key_in(src@, key@),
            out@ == joined(src@, key@.take(i as int), sep),
        decreases key@.len() - i,
    {
        assert(span_in(src@, key@[i as int]));
        let seg = span_string(src, key[i]);
        out.push(sep);
        out.append(seg.as_str());
        proof {
            let t = key@.take(i + 1);
            assert(t.drop_last() =~= key@.take(i as int));
            assert(out@ =~= joined(src@, t, sep));
        }
        i = i + 1;
    }
    assert(key@.take(i as int) =~= key@);
    out
}

impl Diagnostic {
    /// For a closing tag that does not match, the name of the element it
    /// should close (`Expected closing tag for: <name>`); none for a
    /// fragment and for other kinds.
    pub fn expected_name(&self, src: &Vec<char>) -> (r: Option<String>)
        ensures
            match r {
                Some(t) => self.kind == DiagnosticKind::ClosingTagMismatch && self.opening is Some
                    && span_in(src@, self.opening->0) && t@ == text_of(src@, self.opening->0),
                None => !(self.kind == DiagnosticKind::ClosingTagMismatch && self.opening is Some
                    && span_in(src@, self.opening->0)),
            },
    {
        match self.kind {
            DiagnosticKind::ClosingTagMismatch => {},
            _ => {
                return None;
            },
        }
        match self.opening {
            None => None,
            Some(n) => {
                if n.start <= n.end && n.end <= src.len() {
                    Some(span_string(src, n))
                } else {
                    None
                }
            },
        }
    }

    /// For a dashed key on a custom element, the name to use instead: the
    /// key's segments joined by `_` (`data-test-id` gives `data_test_id`).
    /// The key is the one that starts where the diagnostic does.
    pub fn suggestion(&self, src: &Vec<char>) -> (r: Option<String>)
        requires
            src@.len() <= usize::MAX,
        ensures
            match r {
                Some(t) => self.kind == DiagnosticKind::DashedCustomAttribute && self.at.start <= src@.len()
                    && word_at(src@, self.at.start as int) is Some && t@ == joined(
                    src@,
                    key_at(src@, self.at.start as int),
                    '_',
                ),
                None => !(self.kind == DiagnosticKind::DashedCustomAttribute && self.at.start <= src@.len()
                    && word_at(src@, self.at.start as int) is Some),
            },
    {
        match self.kind {
            DiagnosticKind::DashedCustomAttribute => {},
            _ => {
                return None;
            },
        }
        if self.at.start > src.len() {
            return None;
        }
        match scan_word(src, self.at.start) {
            None => None,
            Some(_) => {
                let (key, _) = scan_key_at(src, self.at.start);
                Some(key_string(src, &key, '_'))
            },
        }
    }
}

/// Whether two keys of `src` are the same, segment by segment.
pub(crate) fn keys_equal(src: &Vec<char>, a: &Vec<Span>, b: &Vec<Span>) -> (r: bool)
    requires
        key_in(src@, a@),
        key_in(src@, b@),
    ensures
        r == same_key(src@, a@, b@),
{
    if a.len() != b.len() {
        assert(key_text(src@, a@).len() != key_text(src@, b@).len());
        return false;
    }
    let mut i: usize = 0;
    while i < a.len()
        invariant
            i <= a@.len(),
            a@.len() == b@.len(),
            key_in(src@, a@),
            key_in(src@, b@),
            forall|j: int| 0 <= j < i ==> #[trigger] key_text(src@, a@)[j] == key_text(src@, b@)[j],
        decreases a@.len() - i,
    {
        assert(span_in(src@, a@[i as int]));
        assert(span_in(src@, b@[i as int]));
        if !same_text(src, a[i], b[i]) {
            assert(key_text(src@, a@)[i as int] != key_text(src@, b@)[i as int]);
            return false;
        }
        i = i + 1;
    }
    assert(key_text(src@, a@) =~= key_text(src@, b@));
    true
}

} // verus!
