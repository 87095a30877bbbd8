//! A whole template: one element, with whitespace around it.
use crate::element::{element_at, element_in, element_view, Element, ElementView};
use crate::element_attribute::{Diagnostic, ParseError, ParseErrorKind};
use crate::emit::{element_markup, element_node, ComponentView, Components, EmitError};
use crate::lexer::{skip_whitespace, skip_ws};
use crate::node::{node_rendered, Node};
use crate::render::Render;
use crate::scope::{Scope, ValueView};
use vstd::prelude::*;

verus! {

/// What a template source parses to: its element and the diagnostics found
/// in it, or the first fatal error. Nothing but whitespace may stand around
/// the element.
pub open spec fn template_of(s: Seq<char>) -> Result<(ElementView, Seq<Diagnostic>), ParseError> {
    match element_at(s, skip_ws(s, 0)) {
        Err(x) => Err(x),
        Ok((e, d, end)) => if skip_ws(s, end) == s.len() {
            Ok((e, d))
        } else {
            Err(ParseError { kind: ParseErrorKind::TrailingInput, at: skip_ws(s, end) as usize })
        },
    }
}

/// A parsed template: its source characters, its element, and the
/// diagnostics found while parsing it.
pub struct Template {
    pub source: Vec<char>,
    pub root: Element,
    pub diagnostics: Vec<Diagnostic>,
}

impl Template {
    /// Whether the element's spans lie within the source.
    pub open spec fn well_formed(&self) -> bool {
        element_in(self.source@, element_view(self.root))
    }
}

/// The characters of `source`, in order.
pub fn chars_of(source: &str) -> (r: Vec<char>)
    ensures
        r@ == source@,
{
    let mut v: Vec<char> = Vec::new();
    for c in it: source.chars()
        invariant
            it.seq() == source@,
            v@ == source@.take(it.index() as int),
    {
        proof {
            assert(source@.take(it.index() + 1) =~= v@.push(c));
        }
        v.push(c);
    }
    assert(source@.take(source@.len() as int) =~= source@);
    v
}

/// Parses a template source: one element, with only whitespace around it.
/// Recoverable problems are gathered as diagnostics; the first fatal one is
/// the error.
pub fn parse_template(source: &str) -> (r: Result<Template, ParseError>)
    ensures
        match (r, template_of(source@)) {
            (Ok(t), Ok((v, d))) => t.source@ == source@ && element_view(t.root) == v && t.diagnostics@ == d,
            (Err(x), Err(y)) => x == y,
            _ => false,
        },
        r matches Ok(t) ==> t.well_formed(),
{
    let src = chars_of(source);
    let n = src.len();
    let mut diagnostics: Vec<Diagnostic> = Vec::new();
    let start = skip_whitespace(&src, 0);
    let (root, end) = Element::parse(&src, start, &mut diagnostics)?;
    assert(diagnostics@ =~= element_at(src@, start as int)->Ok_0.1);
    let rest = skip_whitespace(&src, end);
    if rest != src.len() {
        return Err(ParseError { kind: ParseErrorKind::TrailingInput, at: rest });
    }
    Ok(Template { source: src, root, diagnostics })
}

/// How deeply components may be nested when a template is rendered.
pub const MAX_COMPONENT_DEPTH: usize = 64;

impl Template {
    /// The render tree of the template's element, its expressions evaluated
    /// in `scope` and its custom elements taken from `comps`, entering at
    /// most `MAX_COMPONENT_DEPTH` components deep.
    pub fn to_node(&self, scope: &Scope, comps: &Components) -> (r: Result<Node, EmitError>)
        requires
            self.well_formed(),
            comps.well_formed(),
        ensures
            match r {
                Ok(n) => element_markup(
                    self.source@,
                    element_view(self.root),
                    scope.view(),
                    comps.view(),
                    MAX_COMPONENT_DEPTH as nat,
                ) == Ok::<Seq<char>, EmitError>(node_rendered(n)) && element_node(
                    n,
                    self.source@,
                    element_view(self.root),
                    scope.view(),
                    comps.view(),
                    MAX_COMPONENT_DEPTH as nat,
                ),
                Err(x) => element_markup(
                    self.source@,
                    element_view(self.root),
                    scope.view(),
                    comps.view(),
                    MAX_COMPONENT_DEPTH as nat,
                ) == Err::<Seq<char>, EmitError>(x),
            },
    {
        self.root.to_node(&self.source, scope, comps, MAX_COMPONENT_DEPTH)
    }
}

/// Why a template could not be rendered.
#[derive(Clone, Copy, PartialEq, Eq, Debug)]
pub enum TemplateError {
    Parse(ParseError),
    Emit(EmitError),
}

/// The markup of a template source with its expressions evaluated in the
/// bindings `b` and its custom elements taken from `comps`, or why there is
/// none.
pub open spec fn template_markup(
    s: Seq<char>,
    b: Seq<(Seq<char>, ValueView)>,
    comps: Seq<ComponentView>,
) -> Result<Seq<char>, TemplateError> {
    match template_of(s) {
        Err(x) => Err(TemplateError::Parse(x)),
        Ok((e, _)) => match element_markup(s, e, b, comps, MAX_COMPONENT_DEPTH as nat) {
            Err(x) => Err(TemplateError::Emit(x)),
            Ok(m) => Ok(m),
        },
    }
}

/// Parses a template source and renders it, its expressions evaluated in
/// `scope` and its custom elements taken from `comps`. Diagnostics do not
/// stop rendering.
pub fn render_template(source: &str, scope: &Scope, comps: &Components) -> (r: Result<String, TemplateError>)
    requires
        comps.well_formed(),
    ensures
        match r {
            Ok(out) => template_markup(source@, scope.view(), comps.view()) == Ok::<Seq<char>, TemplateError>(out@),
            Err(x) => template_markup(source@, scope.view(), comps.view()) == Err::<Seq<char>, TemplateError>(x),
        },
{
    match parse_template(source) {
        Err(x) => Err(TemplateError::Parse(x)),
        Ok(t) => match t.to_node(scope, comps) {
            Err(x) => Err(TemplateError::Emit(x)),
            Ok(n) => Ok(n.render()),
        },
    }
}

} // verus!
