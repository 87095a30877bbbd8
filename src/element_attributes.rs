//! The attribute set of an element: at most one attribute per key.
use crate::element_attribute::{
    attribute_at, attribute_views, key_at, key_in, keys_equal, same_key, AttributeView,
    Diagnostic, DiagnosticKind, ElementAttribute, ParseError,
};
use crate::lexer::{scan_word, skip_whitespace, skip_ws, span_in, word_at, Span};
use vstd::prelude::*;

verus! {

/// The span from the first segment of a key to the end of its last.
pub open spec fn key_span(key: Seq<Span>) -> Span {
    Span { start: key[0].start, end: key.last().end }
}

/// Whether an attribute in `attributes` has the key `key`.
pub open spec fn has_key(s: Seq<char>, attributes: Seq<AttributeView>, key: Seq<Span>) -> bool {
    exists|i: int| 0 <= i < attributes.len() && same_key(s, #[trigger] attributes[i].key, key)
}

/// Whether an attribute may stand on an element of the given kind: a
/// custom element takes no dashed key, and a simple one no dashed punned
/// key.
pub open spec fn attribute_allowed(a: AttributeView, custom: bool) -> bool {
    if custom {
        a.key.len() < 2
    } else {
        !(a.value is None && a.key.len() > 1)
    }
}

/// The span of an attribute's key that starts at `q`, through its last
/// segment.
pub open spec fn attribute_key_span(q: int, key: Seq<Span>) -> Span {
    Span { start: q as usize, end: key.last().end }
}

/// The diagnostic for the attribute at `q` that may not stand on an element
/// of the given kind.
pub open spec fn disallowed(q: int, a: AttributeView, custom: bool) -> Diagnostic {
    Diagnostic {
        kind: if custom {
            DiagnosticKind::DashedCustomAttribute
        } else {
            DiagnosticKind::DashedPunnedAttribute
        },
        at: attribute_key_span(q, a.key),
        opening: None,
    }
}

/// The attributes from `p` on of an element of the given kind, given those
/// before them: `kept`, and `dropped` as not allowed on this kind. An
/// attribute whose key came before is dropped with a diagnostic, keeping the
/// first; one not allowed is dropped with a diagnostic. Gives what is kept,
/// the diagnostics added to `diags`, and the position after the attributes.
pub open spec fn attributes_from(
    s: Seq<char>,
    p: int,
    custom: bool,
    kept: Seq<AttributeView>,
    dropped: Seq<AttributeView>,
    diags: Seq<Diagnostic>,
) -> Result<(Seq<AttributeView>, Seq<Diagnostic>, int), ParseError>
    decreases s.len() - p,
{
    let q = skip_ws(s, p);
    if word_at(s, q) is Some {
        match attribute_at(s, q) {
            Err(e) => Err(e),
            // The first branch is never taken (an attribute ends after where
            // it starts); it keeps the measure visibly decreasing.
            Ok((a, e)) => if !(p < e <= s.len()) {
                Ok((kept, diags, q))
            } else if has_key(s, kept, a.key) || has_key(s, dropped, a.key) {
                attributes_from(
                    s,
                    e,
                    custom,
                    kept,
                    dropped,
                    diags.push(Diagnostic {
                        kind: DiagnosticKind::DuplicateAttribute,
                        at: attribute_key_span(q, a.key),
                        opening: None,
                    }),
                )
            } else if !attribute_allowed(a, custom) {
                attributes_from(s, e, custom, kept, dropped.push(a), diags.push(disallowed(q, a, custom)))
            } else {
                attributes_from(s, e, custom, kept.push(a), dropped, diags)
            },
        }
    } else {
        Ok((kept, diags, q))
    }
}

/// Whether each attribute's key lies in `s` and has a segment, and each
/// value lies in `s`.
pub open spec fn attributes_in(s: Seq<char>, attributes: Seq<AttributeView>) -> bool {
    forall|i: int|
        0 <= i < attributes.len() ==> {
            let a = #[trigger] attributes[i];
            &&& key_in(s, a.key)
            &&& a.key.len() >= 1
            &&& (a.value matches Some(v) ==> span_in(s, v))
        }
}

/// Whether no two attributes have the same key.
pub open spec fn keys_unique(s: Seq<char>, attributes: Seq<AttributeView>) -> bool {
    forall|i: int, j: int|
        0 <= i < j < attributes.len() ==> !same_key(s, #[trigger] attributes[i].key, #[trigger] attributes[j].key)
}

/// The attributes of an element, each key at most once.
pub struct ElementAttributes {
    pub attributes: Vec<ElementAttribute>,
}

impl ElementAttributes {
    pub open spec fn view(&self) -> Seq<AttributeView> {
        attribute_views(self.attributes@)
    }

    pub fn new(attributes: Vec<ElementAttribute>) -> (r: Self)
        ensures
            r.attributes@ == attributes@,
    {
        ElementAttributes { attributes }
    }
}

/// Whether the key of some attribute of `list` is `key`.
fn has_key_in(src: &Vec<char>, list: &Vec<ElementAttribute>, key: &Vec<Span>) -> (r: bool)
    requires
        attributes_in(src@, attribute_views(list@)),
        key_in(src@, key@),
    ensures
        r == has_key(src@, attribute_views(list@), key@),
{
    let mut i: usize = 0;
    while i < list.len()
        invariant
            i <= list@.len(),
            attributes_in(src@, attribute_views(list@)),
            key_in(src@, key@),
            forall|j: int| 0 <= j < i ==> !same_key(src@, #[trigger] attribute_views(list@)[j].key, key@),
        decreases list@.len() - i,
    {
        assert(key_in(src@, attribute_views(list@)[i as int].key));
        if keys_equal(src, list[i].ident(), key) {
            assert(same_key(src@, attribute_views(list@)[i as int].key, key@));
            return true;
        }
        i = i + 1;
    }
    false
}

impl ElementAttributes {
    /// Parses the attributes from `p` on of an element of the given kind,
    /// dropping each whose key came before and each not allowed on the kind,
    /// with a diagnostic pushed to `diags` for each one dropped.
    pub fn parse(src: &Vec<char>, p: usize, custom: bool, diags: &mut Vec<Diagnostic>) -> (r: Result<
        (ElementAttributes, usize),
        ParseError,
    >)
        requires
            p <= src@.len() <= usize::MAX,
        ensures
            match (r, attributes_from(src@, p as int, custom, Seq::empty(), Seq::empty(), Seq::empty())) {
                (Ok((a, e)), Ok((v, d, f))) => a.view() == v && final(diags)@ == old(diags)@ + d && e as int == f,
                (Err(x), Err(y)) => x == y,
                _ => false,
            },
            r matches Ok((a, e)) ==> p <= e <= src@.len() && attributes_in(src@, a.view()) && keys_unique(src@, a.view()),
    {
        let mut kept: Vec<ElementAttribute> = Vec::new();
        let mut dropped: Vec<ElementAttribute> = Vec::new();
        let ghost d0 = diags@;
        let mut q = p;
        assert(attribute_views(kept@) =~= Seq::<AttributeView>::empty());
        assert(attribute_views(dropped@) =~= Seq::<AttributeView>::empty());
        assert(diags@.subrange(d0.len() as int, diags@.len() as int) =~= Seq::<Diagnostic>::empty());
        assert(diags@.subrange(0, d0.len() as int) =~= d0);
        loop
            invariant
                p <= q <= src@.len() <= usize::MAX,
                attributes_from(src@, p as int, custom, Seq::empty(), Seq::empty(), Seq::empty()) == attributes_from(
                    src@,
                    q as int,
                    custom,
                    attribute_views(kept@),
                    attribute_views(dropped@),
                    diags@.subrange(d0.len() as int, diags@.len() as int),
                ),
                diags@.subrange(0, d0.len() as int) == d0,
                d0.len() <= diags@.len(),
                d0 == old(diags)@,
                attributes_in(src@, attribute_views(kept@)),
                attributes_in(src@, attribute_views(dropped@)),
                keys_unique(src@, attribute_views(kept@)),
            decreases src@.len() - q,
        {
            let ghost added = diags@.subrange(d0.len() as int, diags@.len() as int);
            let ghost kv = attribute_views(kept@);
            let ghost dv = attribute_views(dropped@);
            let w = skip_whitespace(src, q);
            match scan_word(src, w) {
                None => {
                    assert(diags@ =~= d0 + added);
                    let r = ElementAttributes::new(kept);
                    assert(r.view() == kv);
                    assert(attributes_from(src@, q as int, custom, kv, dv, added) == Ok::<(Seq<AttributeView>, Seq<Diagnostic>, int), ParseError>((kv, added, w as int)));
                    return Ok((r, w));
                },
                Some(_) => {
                    let (a, e) = ElementAttribute::parse(src, w)?;
                    let ghost av = a.view();
                    if has_key_in(src, &kept, a.ident()) || has_key_in(src, &dropped, a.ident()) {
                        let key = a.ident();
                        let at = Span { start: w, end: key[key.len() - 1].end };
                        diags.push(Diagnostic { kind: DiagnosticKind::DuplicateAttribute, at, opening: None });
                        proof {
                            assert(diags@.subrange(d0.len() as int, diags@.len() as int) =~= added.push(
                                Diagnostic { kind: DiagnosticKind::DuplicateAttribute, at, opening: None },
                            ));
                            assert(diags@.subrange(0, d0.len() as int) =~= d0);
                        }
                    } else if !a.validate(custom) {
                        let key = a.ident();
                        let at = Span { start: w, end: key[key.len() - 1].end };
                        let kind = if custom {
                            DiagnosticKind::DashedCustomAttribute
                        } else {
                            DiagnosticKind::DashedPunnedAttribute
                        };
                        diags.push(Diagnostic { kind, at, opening: None });
                        dropped.push(a);
                        proof {
                            assert(diags@.subrange(d0.len() as int, diags@.len() as int) =~= added.push(
                                disallowed(w as int, av, custom),
                            ));
                            assert(diags@.subrange(0, d0.len() as int) =~= d0);
                            assert(attribute_views(dropped@) =~= dv.push(av));
                        }
                    } else {
                        kept.push(a);
                        proof {
                            assert(attribute_views(kept@) =~= kv.push(av));
                            assert(!has_key(src@, kv, av.key));
                        }
                    }
                    q = e;
                },
            }
        }
    }
}

/// A diagnostic on an attribute starts where the attribute does, so the
/// key read from its start is that attribute's key: the suggestion for a
/// dashed key on a custom element names that key's segments.
pub proof fn lemma_diagnostic_starts_at_key(s: Seq<char>, q: int, custom: bool)
    requires
        0 <= q <= usize::MAX,
        word_at(s, q) is Some,
        attribute_at(s, q) is Ok,
    ensures
        disallowed(q, attribute_at(s, q)->Ok_0.0, custom).at.start == q,
        key_at(s, q) == attribute_at(s, q)->Ok_0.0.key,
{
}

} // verus!
