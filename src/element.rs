//! Elements and their children: the recursive part of the template grammar.
use crate::element_attribute::{AttributeView, Diagnostic, DiagnosticKind, ParseError, ParseErrorKind};
use crate::element_attributes::{attributes_in, keys_unique, ElementAttributes};
use crate::lexer::{
    block_close, BlockState, char_at, has_char, is_rust_block, scan_block_close, scan_text, skip_whitespace,
    skip_ws, span_in, span_is_block, text_end, collapse_text, collapsed, Span,
};
use crate::tags::{closing_tag_at, is_custom, is_custom_name, open_tag_at, same_name, ClosingTag, OpenTag};
use vstd::prelude::*;

verus! {

/// An element as the grammar sees it.
pub struct ElementView {
    pub name: Option<Span>,
    pub attributes: Seq<AttributeView>,
    pub children: Seq<ChildView>,
    pub self_closing: bool,
}

/// A child as the grammar sees it.
pub enum ChildView {
    Element(ElementView),
    RawBlock(Span),
    Literal(Seq<char>),
}

/// Puts a child and its diagnostics before the result of parsing the
/// children after it.
pub open spec fn prepend(
    c: Seq<ChildView>,
    d: Seq<Diagnostic>,
    r: Result<(Seq<ChildView>, Seq<Diagnostic>, int), ParseError>,
) -> Result<(Seq<ChildView>, Seq<Diagnostic>, int), ParseError> {
    match r {
        Err(x) => Err(x),
        Ok((cs, ds, e)) => Ok((c + cs, d + ds, e)),
    }
}

/// The element at `p`, the diagnostics found in it, and the position after
/// it. Its children are parsed only when it does not close itself; a
/// closing tag whose name differs from the opening tag's is reported, and
/// the element keeps the opening tag's name.
pub open spec fn element_at(s: Seq<char>, p: int) -> Result<(ElementView, Seq<Diagnostic>, int), ParseError>
    decreases s.len() - p, 0int,
{
    match open_tag_at(s, p) {
        Err(x) => Err(x),
        Ok((t, d, q)) => if t.self_closing {
            Ok(
                (
                    ElementView {
                        name: t.name,
                        attributes: t.attributes,
                        children: Seq::empty(),
                        self_closing: true,
                    },
                    d,
                    q,
                ),
            )
        } else if !(p < q <= s.len()) {
            // Never taken: a tag ends after where it starts (the parsers'
            // `ensures` show each position moving forward). The test keeps
            // the measure of the recursion visibly decreasing.
            Err(ParseError { kind: ParseErrorKind::UnexpectedEnd, at: q as usize })
        } else {
            match children_at(s, q) {
                Err(x) => Err(x),
                Ok((cs, cd, c)) => match closing_tag_at(s, c) {
                    Err(x) => Err(x),
                    Ok((cn, e)) => {
                        let md = if same_name(s, t.name, cn) {
                            Seq::empty()
                        } else {
                            seq![
                                Diagnostic {
                                    kind: DiagnosticKind::ClosingTagMismatch,
                                    at: Span { start: c as usize, end: e as usize },
                                    opening: t.name,
                                },
                            ]
                        };
                        Ok(
                            (
                                ElementView {
                                    name: t.name,
                                    attributes: t.attributes,
                                    children: cs,
                                    self_closing: false,
                                },
                                d + cd + md,
                                e,
                            ),
                        )
                    },
                },
            }
        },
    }
}

/// Whether a closing tag starts at `q`: a `<` and then, past whitespace, a
/// `/`.
pub open spec fn closing_ahead(s: Seq<char>, q: int) -> bool {
    char_at(s, q, '<') && char_at(s, skip_ws(s, q + 1), '/')
}

/// The child at `q`, where something other than whitespace stands: an
/// element at `<`, a braced expression at `{`, else a run of text up to the
/// next `<` or `{`. Gives it, the diagnostics found in it, and the position
/// after it.
pub open spec fn child_at(s: Seq<char>, q: int) -> Result<(ChildView, Seq<Diagnostic>, int), ParseError>
    decreases s.len() - q, 1int,
{
    if !(0 <= q < s.len()) {
        Err(ParseError { kind: ParseErrorKind::UnexpectedEnd, at: q as usize })
    } else if s[q] == '<' {
        match element_at(s, q) {
            Err(x) => Err(x),
            Ok((el, d, e)) => Ok((ChildView::Element(el), d, e)),
        }
    } else if s[q] == '{' {
        match block_close(s, q + 1, 0, BlockState::Code) {
            None => Err(ParseError { kind: ParseErrorKind::UnclosedBlock, at: q as usize }),
            Some(c) => if is_rust_block(s.subrange(q, c + 1)) {
                Ok((ChildView::RawBlock(Span { start: (q + 1) as usize, end: c as usize }), Seq::empty(), c + 1))
            } else {
                Err(ParseError { kind: ParseErrorKind::MalformedExpression, at: q as usize })
            },
        }
    } else {
        let t = text_end(s, q);
        Ok((ChildView::Literal(collapsed(s.subrange(q, t))), Seq::empty(), t))
    }
}

/// The children from `p` up to the closing tag, the diagnostics found in
/// them, and the position of the closing tag.
pub open spec fn children_at(s: Seq<char>, p: int) -> Result<(Seq<ChildView>, Seq<Diagnostic>, int), ParseError>
    decreases s.len() - p, 2int,
{
    let q = skip_ws(s, p);
    // Past whitespace the input has ended: no closing tag follows. (That
    // `q` is before `p` never holds, nor that a child ends at or before
    // where it starts; the tests keep the measure visibly decreasing.)
    if !(p <= q < s.len()) {
        Err(ParseError { kind: ParseErrorKind::UnexpectedEnd, at: q as usize })
    } else if closing_ahead(s, q) {
        Ok((Seq::empty(), Seq::empty(), q))
    } else {
        match child_at(s, q) {
            Err(x) => Err(x),
            Ok((c, d, e)) => if !(q < e <= s.len()) {
                Err(ParseError { kind: ParseErrorKind::UnexpectedEnd, at: e as usize })
            } else {
                prepend(seq![c], d, children_at(s, e))
            },
        }
    }
}

/// A child of an element.
pub enum Child {
    /// A nested element.
    Element(Element),
    /// A braced expression; the span is inside the braces.
    RawBlock(Span),
    /// A run of text, as its tokens are spelled, with one space where
    /// whitespace stood between two of them.
    Literal(String),
}

/// The children of an element, in document order.
pub struct Children {
    pub nodes: Vec<Child>,
}

/// A parsed element.
pub struct Element {
    pub name: Option<Span>,
    pub attributes: ElementAttributes,
    pub children: Children,
    pub self_closing: bool,
}

/// The view of an element.
pub open spec fn element_view(e: Element) -> ElementView
    decreases e,
{
    ElementView {
        name: e.name,
        attributes: e.attributes.view(),
        children: children_view(e.children.nodes@),
        self_closing: e.self_closing,
    }
}

/// The views of a list of children.
pub open spec fn children_view(s: Seq<Child>) -> Seq<ChildView>
    decreases s,
{
    if s.len() == 0 {
        Seq::empty()
    } else {
        children_view(s.drop_last()).push(child_view(s.last()))
    }
}

/// The view of a child.
pub open spec fn child_view(c: Child) -> ChildView
    decreases c,
{
    match c {
        Child::Element(e) => ChildView::Element(element_view(e)),
        Child::RawBlock(b) => ChildView::RawBlock(b),
        Child::Literal(t) => ChildView::Literal(t@),
    }
}

/// Whether every span of an element lies within `s`, and its attributes
/// have distinct keys.
pub open spec fn element_in(s: Seq<char>, e: ElementView) -> bool
    decreases e,
{
    &&& (e.name matches Some(n) ==> span_in(s, n))
    &&& attributes_in(s, e.attributes)
    &&& keys_unique(s, e.attributes)
    &&& forall|i: int| 0 <= i < e.children.len() ==> child_in(s, #[trigger] e.children[i])
}

/// Whether every span of a child lies within `s`.
pub open spec fn child_in(s: Seq<char>, c: ChildView) -> bool
    decreases c,
{
    match c {
        ChildView::Element(e) => element_in(s, e),
        ChildView::RawBlock(b) => span_in(s, b),
        ChildView::Literal(_) => true,
    }
}

impl Children {
    pub fn new(nodes: Vec<Child>) -> (r: Self)
        ensures
            r.nodes@ == nodes@,
    {
        Children { nodes }
    }

    pub fn len(&self) -> (r: usize)
        ensures
            r == self.nodes@.len(),
    {
        self.nodes.len()
    }

    /// Parses the children from `p` up to the closing tag, pushing the
    /// diagnostics found in them to `diags`; gives the position of the
    /// closing tag.
    pub fn parse(src: &Vec<char>, p: usize, diags: &mut Vec<Diagnostic>) -> (r: Result<(Children, usize), ParseError>)
        requires
            p <= src@.len() <= usize::MAX,
        ensures
            match (r, children_at(src@, p as int)) {
                (Ok((c, e)), Ok((v, d, f))) => children_view(c.nodes@) == v && final(diags)@ == old(diags)@ + d
                    && e as int == f,
                (Err(x), Err(y)) => x == y,
                _ => false,
            },
            r matches Ok((c, e)) ==> p <= e < src@.len() && children_view(c.nodes@).len() == c.nodes@.len() && forall|i: int|
                0 <= i < c.nodes@.len() ==> child_in(src@, #[trigger] children_view(c.nodes@)[i]),
        decreases src@.len() - p, 2int,
    {
        let mut nodes: Vec<Child> = Vec::new();
        let ghost d0 = diags@;
        let mut q0 = p;
        assert(children_view(nodes@) =~= Seq::<ChildView>::empty());
        assert(diags@.subrange(d0.len() as int, diags@.len() as int) =~= Seq::<Diagnostic>::empty());
        assert(diags@.subrange(0, d0.len() as int) =~= d0);
        loop
            invariant
                p <= q0 <= src@.len() <= usize::MAX,
                d0 == old(diags)@,
                d0.len() <= diags@.len(),
                diags@.subrange(0, d0.len() as int) == d0,
                children_at(src@, p as int) == prepend(
                    children_view(nodes@),
                    diags@.subrange(d0.len() as int, diags@.len() as int),
                    children_at(src@, q0 as int),
                ),
                forall|i: int| 0 <= i < nodes@.len() ==> child_in(src@, #[trigger] children_view(nodes@)[i]),
            decreases src@.len() - q0,
        {
            let ghost added = diags@.subrange(d0.len() as int, diags@.len() as int);
            let ghost cv = children_view(nodes@);
            let q = skip_whitespace(src, q0);
            if q >= src.len() {
                return Err(ParseError { kind: ParseErrorKind::UnexpectedEnd, at: q });
            }
            if src[q] == '<' && has_char(src, skip_whitespace(src, q + 1), '/') {
                proof {
                    assert(children_at(src@, q0 as int) == Ok::<(Seq<ChildView>, Seq<Diagnostic>, int), ParseError>((Seq::empty(), Seq::empty(), q as int)));
                    assert(cv + Seq::<ChildView>::empty() =~= cv);
                    assert(added + Seq::<Diagnostic>::empty() =~= added);
                    assert(diags@ =~= d0 + added);
                    lemma_children_view_len(nodes@);
                }
                return Ok((Children::new(nodes), q));
            }
            let (child, e) = Child::parse(src, q, diags)?;
            let ghost chv = child_view(child);
            let ghost d1 = diags@;
            let ghost before = nodes@;
            nodes.push(child);
            proof {
                lemma_children_view_push(before, child);
                assert(children_view(nodes@) =~= cv.push(chv));
                assert(cv.push(chv) =~= cv + seq![chv]);
                let dd = d1.subrange((d0.len() + added.len()) as int, d1.len() as int);
                assert(d1.subrange(d0.len() as int, d1.len() as int) =~= added + dd);
                assert(d1.subrange(0, d0.len() as int) =~= d0);
                assert(dd =~= child_at(src@, q as int)->Ok_0.1);
                lemma_children_step(src@, q0 as int, q as int, chv, dd, e as int);
                lemma_prepend_assoc(cv, added, seq![chv], dd, children_at(src@, e as int));
                assert forall|i: int| 0 <= i < nodes@.len() implies child_in(src@, #[trigger] children_view(nodes@)[i]) by {
                    if i < nodes@.len() - 1 {
                        assert(children_view(nodes@)[i] == cv[i]);
                    }
                }
            }
            q0 = e;
        }
    }
}

impl Child {
    /// Parses the child at `q`, where something other than whitespace
    /// stands, pushing the diagnostics found in it to `diags`.
    pub fn parse(src: &Vec<char>, q: usize, diags: &mut Vec<Diagnostic>) -> (r: Result<(Child, usize), ParseError>)
        requires
            q < src@.len() <= usize::MAX,
        ensures
            match (r, child_at(src@, q as int)) {
                (Ok((c, e)), Ok((v, d, f))) => child_view(c) == v && final(diags)@ == old(diags)@ + d
                    && e as int == f,
                (Err(x), Err(y)) => x == y,
                _ => false,
            },
            r matches Ok((c, e)) ==> q < e <= src@.len() && child_in(src@, child_view(c)),
        decreases src@.len() - q, 1int,
    {
        if src[q] == '<' {
            let (el, e) = Element::parse(src, q, diags)?;
            let ghost ev = element_view(el);
            let c = Child::Element(el);
            assert(child_view(c) == ChildView::Element(ev));
            Ok((c, e))
        } else if src[q] == '{' {
            match scan_block_close(src, q + 1) {
                None => Err(ParseError { kind: ParseErrorKind::UnclosedBlock, at: q }),
                Some(c) => {
                    if !span_is_block(src, Span { start: q, end: c + 1 }) {
                        return Err(ParseError { kind: ParseErrorKind::MalformedExpression, at: q });
                    }
                    assert(diags@ =~= old(diags)@ + Seq::<Diagnostic>::empty());
                    Ok((Child::RawBlock(Span { start: q + 1, end: c }), c + 1))
                },
            }
        } else {
            let t = scan_text(src, q);
            proof {
                crate::lexer::lemma_text_end_bounds(src@, q + 1, src@[q as int] == '"', false);
            }
            assert(diags@ =~= old(diags)@ + Seq::<Diagnostic>::empty());
            let text = collapse_text(src, Span { start: q, end: t });
            Ok((Child::Literal(text), t))
        }
    }
}

/// A list of children has as many views as members, and pushing a child
/// pushes its view.
proof fn lemma_children_view_push(s: Seq<Child>, c: Child)
    ensures
        children_view(s).len() == s.len(),
        children_view(s.push(c)) == children_view(s).push(child_view(c)),
    decreases s.len(),
{
    assert(s.push(c).drop_last() =~= s);
    if s.len() > 0 {
        lemma_children_view_push(s.drop_last(), s.last());
        assert(s.drop_last().push(s.last()) =~= s);
    }
}

/// One step of the children grammar: a child and then the rest.
proof fn lemma_children_step(s: Seq<char>, q0: int, q: int, c: ChildView, d: Seq<Diagnostic>, e: int)
    requires
        q == skip_ws(s, q0),
        q0 <= q < s.len(),
        !closing_ahead(s, q),
        child_at(s, q) == Ok::<(ChildView, Seq<Diagnostic>, int), ParseError>((c, d, e)),
        q < e <= s.len(),
    ensures
        children_at(s, q0) == prepend(seq![c], d, children_at(s, e)),
{
}

/// A list of children has as many views as members.
pub proof fn lemma_children_view_len(s: Seq<Child>)
    ensures
        children_view(s).len() == s.len(),
    decreases s.len(),
{
    if s.len() > 0 {
        lemma_children_view_len(s.drop_last());
    }
}

/// The view of a list of children at `i` is the view of its member at `i`.
pub proof fn lemma_children_view_index(s: Seq<Child>, i: int)
    requires
        0 <= i < s.len(),
    ensures
        children_view(s)[i] == child_view(s[i]),
    decreases s.len(),
{
    lemma_children_view_len(s.drop_last());
    if i < s.len() - 1 {
        lemma_children_view_index(s.drop_last(), i);
    }
}

/// Prepending in two steps is prepending the joined parts.
proof fn lemma_prepend_assoc(
    c1: Seq<ChildView>,
    d1: Seq<Diagnostic>,
    c2: Seq<ChildView>,
    d2: Seq<Diagnostic>,
    r: Result<(Seq<ChildView>, Seq<Diagnostic>, int), ParseError>,
)
    ensures
        prepend(c1, d1, prepend(c2, d2, r)) == prepend(c1 + c2, d1 + d2, r),
{
    match r {
        Err(_) => {},
        Ok((cs, ds, e)) => {
            assert(c1 + (c2 + cs) =~= c1 + c2 + cs);
            assert(d1 + (d2 + ds) =~= d1 + d2 + ds);
        },
    }
}

impl Element {
    /// Parses the element at `p`, pushing the diagnostics found in it to
    /// `diags`.
    pub fn parse(src: &Vec<char>, p: usize, diags: &mut Vec<Diagnostic>) -> (r: Result<(Element, usize), ParseError>)
        requires
            p <= src@.len() <= usize::MAX,
        ensures
            match (r, element_at(src@, p as int)) {
                (Ok((el, e)), Ok((v, d, f))) => element_view(el) == v && final(diags)@ == old(diags)@ + d
                    && e as int == f,
                (Err(x), Err(y)) => x == y,
                _ => false,
            },
            r matches Ok((el, e)) ==> p < e <= src@.len() && element_in(src@, element_view(el)),
        decreases src@.len() - p, 0int,
    {
        let ghost d0 = diags@;
        let (open, q) = OpenTag::parse(src, p, diags)?;
        if open.self_closing {
            let el = Element {
                name: open.name,
                attributes: open.attributes,
                children: Children::new(Vec::new()),
                self_closing: true,
            };
            assert(children_view(el.children.nodes@) =~= Seq::<ChildView>::empty());
            assert(element_in(src@, element_view(el)));
            return Ok((el, q));
        }
        let (children, c) = Children::parse(src, q, diags)?;
        let (closing, e) = ClosingTag::parse(src, c)?;
        if !closing.validate(src, &open) {
            diags.push(Diagnostic { kind: DiagnosticKind::ClosingTagMismatch, at: Span { start: c, end: e }, opening: open.name });
        }
        let el = Element {
            name: open.name,
            attributes: open.attributes,
            children,
            self_closing: false,
        };
        proof {
            let t = open_tag_at(src@, p as int)->Ok_0;
            let cs = children_at(src@, q as int)->Ok_0;
            let md = if same_name(src@, open.name, closing.name) {
                Seq::<Diagnostic>::empty()
            } else {
                seq![Diagnostic { kind: DiagnosticKind::ClosingTagMismatch, at: Span { start: c, end: e }, opening: open.name }]
            };
            assert(diags@ =~= d0 + (t.1 + cs.1 + md));
            lemma_children_view_len(el.children.nodes@);
            assert(element_in(src@, element_view(el)));
        }
        Ok((el, e))
    }

    /// Whether the element is custom: no name, or a last name segment whose
    /// first character equals its own uppercase (by Unicode case rules).
    pub fn is_custom_element(&self, src: &Vec<char>) -> (r: bool)
        requires
            self.name matches Some(n) ==> span_in(src@, n),
        ensures
            r == is_custom_name(src@, self.name),
    {
        is_custom(src, self.name)
    }
}

} // verus!
