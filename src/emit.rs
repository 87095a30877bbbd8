//! From a parsed element to the render tree: simple elements become element
//! nodes, the fragment its children, other custom elements the tree of their
//! component's template, and children combine in document order.
use crate::element::{child_in, element_in, element_view, Child, ChildView, Children, Element, ElementView, children_view, child_view};
use crate::element_attribute::{AttributeView, ElementAttribute, attribute_views, joined, key_in, key_string};
use crate::element_attributes::{attributes_in, ElementAttributes};
use crate::html_escaping::escaped;
use crate::lexer::{is_ws, span_in, span_string, text_of, Span};
use crate::node::{is_single, node_rendered, Node};
use crate::render::Render;
use crate::scope::{copy_value, evaluate, evaluate_span, trimmed, value_markup, value_text, Scope, Value, ValueView};
use crate::template::Template;
use crate::simple_element::{attribute_rendered, element_rendered};
use crate::tags::is_custom_name;
use vstd::prelude::*;

verus! {

/// Why a parsed element could not be turned into a render tree.
#[derive(Clone, Copy, PartialEq, Eq, Debug)]
pub enum EmitErrorKind {
    /// An expression is neither a string or integer literal nor a name in
    /// scope.
    UnknownName,
    /// A custom element names no registered component.
    UnknownComponent,
    /// Components are nested deeper than the depth allowed.
    TooDeep,
}

/// An emission error and the span it concerns.
#[derive(Clone, Copy, PartialEq, Eq, Debug)]
pub struct EmitError {
    pub kind: EmitErrorKind,
    pub at: Span,
}

/// A component as contracts see it: its name, its template's source and
/// element, and the constants its template sees besides its fields.
pub struct ComponentView {
    pub name: Seq<char>,
    pub source: Seq<char>,
    pub root: ElementView,
    pub constants: Seq<(Seq<char>, ValueView)>,
}

/// The first component named `name` from index `i` on, with its index.
pub open spec fn component_from(comps: Seq<ComponentView>, name: Seq<char>, i: int) -> Option<int>
    decreases comps.len() - i,
{
    if i < 0 || i >= comps.len() {
        None
    } else if comps[i].name == name {
        Some(i)
    } else {
        component_from(comps, name, i + 1)
    }
}

/// The name of the field that holds a custom element's children.
pub open spec fn children_field() -> Seq<char> {
    seq!['c', 'h', 'i', 'l', 'd', 'r', 'e', 'n']
}

/// The value of an attribute: its expression's, or for a punned one the
/// value of the name it is spelled as.
pub open spec fn attribute_field(s: Seq<char>, a: AttributeView, b: Seq<(Seq<char>, ValueView)>) -> Result<ValueView, EmitError> {
    match a.value {
        Some(v) => match evaluate(text_of(s, trimmed(s, v)), b) {
            Some(x) => Ok(x),
            None => Err(EmitError { kind: EmitErrorKind::UnknownName, at: v }),
        },
        None => match crate::scope::lookup(b, joined(s, a.key, '-')) {
            Some(x) => Ok(x),
            None => Err(EmitError { kind: EmitErrorKind::UnknownName, at: crate::element_attributes::key_span(a.key) }),
        },
    }
}

/// The fields that a custom element's attributes give: each key as written,
/// with its value, in order; or the first error.
pub open spec fn fields_of(s: Seq<char>, attrs: Seq<AttributeView>, b: Seq<(Seq<char>, ValueView)>) -> Result<Seq<(Seq<char>, ValueView)>, EmitError>
    decreases attrs.len(),
{
    if attrs.len() == 0 {
        Ok(Seq::empty())
    } else {
        match fields_of(s, attrs.drop_last(), b) {
            Err(x) => Err(x),
            Ok(f) => match attribute_field(s, attrs.last(), b) {
                Err(x) => Err(x),
                Ok(v) => Ok(f.push((joined(s, attrs.last().key, '-'), v))),
            },
        }
    }
}

/// The markup of a list of attributes, or the first error among them.
pub open spec fn attributes_markup(s: Seq<char>, attrs: Seq<AttributeView>, b: Seq<(Seq<char>, ValueView)>) -> Result<Seq<char>, EmitError>
    decreases attrs.len(),
{
    if attrs.len() == 0 {
        Ok(Seq::empty())
    } else {
        match attributes_markup(s, attrs.drop_last(), b) {
            Err(x) => Err(x),
            Ok(m) => match attribute_field(s, attrs.last(), b) {
                Err(x) => Err(x),
                Ok(v) => Ok(m + attribute_rendered(joined(s, attrs.last().key, '-'), value_text(v))),
            },
        }
    }
}

/// The value text of an attribute, or why there is none.
pub open spec fn attribute_text(s: Seq<char>, a: AttributeView, b: Seq<(Seq<char>, ValueView)>) -> Result<Seq<char>, EmitError> {
    match attribute_field(s, a, b) {
        Ok(v) => Ok(value_text(v)),
        Err(x) => Err(x),
    }
}

/// Whether `v` is the attribute list of a simple element with attributes
/// `attrs`: one pair per attribute, in order, of its key as written (the
/// segments joined by `-`) and its value text.
pub open spec fn simple_attribute_list(
    s: Seq<char>,
    attrs: Seq<AttributeView>,
    b: Seq<(Seq<char>, ValueView)>,
    v: Seq<(String, String)>,
) -> bool {
    &&& v.len() == attrs.len()
    &&& forall|i: int|
        0 <= i < v.len() ==> {
            &&& (#[trigger] v[i]).0@ == joined(s, attrs[i].key, '-')
            &&& attribute_text(s, attrs[i], b) == Ok::<Seq<char>, EmitError>(v[i].1@)
        }
}

/// The markup of an element, or the first error in document order. A
/// simple element is written as markup; the fragment as its children; any
/// other custom element as the template of the first component of its name,
/// with the attributes as fields, the children's markup as the raw field
/// `children` when there are children, and then the component's constants.
/// Each component entered spends one unit of `fuel`.
pub open spec fn element_markup(
    s: Seq<char>,
    e: ElementView,
    b: Seq<(Seq<char>, ValueView)>,
    comps: Seq<ComponentView>,
    fuel: nat,
) -> Result<Seq<char>, EmitError>
    decreases fuel, e,
{
    match e.name {
        None => children_markup(s, e.children, b, comps, fuel),
        Some(n) => if is_custom_name(s, Some(n)) {
            match component_from(comps, text_of(s, n), 0) {
                None => Err(EmitError { kind: EmitErrorKind::UnknownComponent, at: n }),
                Some(i) => if fuel == 0 {
                    Err(EmitError { kind: EmitErrorKind::TooDeep, at: n })
                } else {
                    match fields_of(s, e.attributes, b) {
                        Err(x) => Err(x),
                        Ok(f) => {
                            let given = if e.children.len() == 0 {
                                Ok(f)
                            } else {
                                match children_markup(s, e.children, b, comps, fuel) {
                                    Err(x) => Err(x),
                                    Ok(m) => Ok(f.push((children_field(), ValueView::Raw(m)))),
                                }
                            };
                            match given {
                                Err(x) => Err(x),
                                Ok(g) => element_markup(
                                    comps[i].source,
                                    comps[i].root,
                                    g + comps[i].constants,
                                    comps,
                                    (fuel - 1) as nat,
                                ),
                            }
                        },
                    }
                },
            }
        } else {
            match attributes_markup(s, e.attributes, b) {
                Err(x) => Err(x),
                Ok(a) => if e.self_closing {
                    Ok(element_rendered(text_of(s, n), a, true, Seq::empty()))
                } else {
                    match children_markup(s, e.children, b, comps, fuel) {
                        Err(x) => Err(x),
                        Ok(m) => Ok(element_rendered(text_of(s, n), a, false, m)),
                    }
                },
            }
        },
    }
}

/// The markup of a list of children, each after the one before, or the
/// first error.
pub open spec fn children_markup(
    s: Seq<char>,
    cs: Seq<ChildView>,
    b: Seq<(Seq<char>, ValueView)>,
    comps: Seq<ComponentView>,
    fuel: nat,
) -> Result<Seq<char>, EmitError>
    decreases fuel, cs,
{
    if cs.len() == 0 {
        Ok(Seq::empty())
    } else {
        match children_markup(s, cs.drop_last(), b, comps, fuel) {
            Err(x) => Err(x),
            Ok(m) => match child_markup(s, cs.last(), b, comps, fuel) {
                Err(x) => Err(x),
                Ok(c) => Ok(m + c),
            },
        }
    }
}

/// The markup of a child: an element's, an expression's value, or the
/// escaped text of a text run.
pub open spec fn child_markup(
    s: Seq<char>,
    c: ChildView,
    b: Seq<(Seq<char>, ValueView)>,
    comps: Seq<ComponentView>,
    fuel: nat,
) -> Result<Seq<char>, EmitError>
    decreases fuel, c,
{
    match c {
        ChildView::Element(e) => element_markup(s, e, b, comps, fuel),
        ChildView::RawBlock(v) => match evaluate(text_of(s, trimmed(s, v)), b) {
            Some(x) => Ok(value_markup(x)),
            None => Err(EmitError { kind: EmitErrorKind::UnknownName, at: v }),
        },
        ChildView::Literal(t) => Ok(escaped(t)),
    }
}

/// Whether `n` is the node of the children `cs`: nothing for none, the
/// child's own node for one, and for more a pair of the node of all but the
/// last and the last child's node; each child's node writes that child's
/// markup.
pub open spec fn children_nodes(
    n: Node,
    s: Seq<char>,
    cs: Seq<ChildView>,
    b: Seq<(Seq<char>, ValueView)>,
    comps: Seq<ComponentView>,
    fuel: nat,
) -> bool
    decreases cs.len(),
{
    if cs.len() == 0 {
        n is Unit
    } else if cs.len() == 1 {
        is_single(n) && child_markup(s, cs[0], b, comps, fuel) == Ok::<Seq<char>, EmitError>(node_rendered(n))
    } else {
        &&& n is Sequence
        &&& n->Sequence_0@.len() == 2
        &&& children_nodes(n->Sequence_0@[0], s, cs.drop_last(), b, comps, fuel)
        &&& is_single(n->Sequence_0@[1])
        &&& child_markup(s, cs.last(), b, comps, fuel) == Ok::<Seq<char>, EmitError>(node_rendered(n->Sequence_0@[1]))
    }
}

/// Whether `n` is the node of the element `e`: for the fragment, a fragment
/// node over its children's node; for a simple element, an element node
/// with its tag as written, its attribute list, its self-closing flag, and
/// as contents nothing when it closes itself, else its children's node. The
/// node of another custom element is that of its component's template.
pub open spec fn element_node(
    n: Node,
    s: Seq<char>,
    e: ElementView,
    b: Seq<(Seq<char>, ValueView)>,
    comps: Seq<ComponentView>,
    fuel: nat,
) -> bool {
    match e.name {
        None => n is Fragment && children_nodes(*n->Fragment_0, s, e.children, b, comps, fuel),
        Some(nm) => is_custom_name(s, Some(nm)) || {
            &&& n is Element
            &&& n->Element_tag@ == text_of(s, nm)
            &&& n->Element_self_closing == e.self_closing
            &&& simple_attribute_list(s, e.attributes, b, n->Element_attributes@)
            &&& if e.self_closing {
                *n->Element_contents == Node::Unit
            } else {
                children_nodes(*n->Element_contents, s, e.children, b, comps, fuel)
            }
        },
    }
}

/// The value of an attribute.
fn attribute_field_of(src: &Vec<char>, a: &ElementAttribute, scope: &Scope) -> (r: Result<Value, EmitError>)
    requires
        key_in(src@, a.view().key),
        a.view().key.len() >= 1,
        a.view().value matches Some(v) ==> span_in(src@, v),
    ensures
        match r {
            Ok(v) => attribute_field(src@, a.view(), scope.view()) == Ok::<ValueView, EmitError>(v.view()),
            Err(x) => attribute_field(src@, a.view(), scope.view()) == Err::<ValueView, EmitError>(x),
        },
{
    match a {
        ElementAttribute::WithValue(_, v) => match evaluate_span(src, *v, scope) {
            Some(x) => Ok(x),
            None => Err(EmitError { kind: EmitErrorKind::UnknownName, at: *v }),
        },
        ElementAttribute::Punned(key) => {
            let name = key_string(src, key, '-');
            match scope.lookup(&name) {
                Some(x) => Ok(copy_value(x)),
                None => Err(
                    EmitError {
                        kind: EmitErrorKind::UnknownName,
                        at: Span { start: key[0].start, end: key[key.len() - 1].end },
                    },
                ),
            }
        },
    }
}

impl ElementAttributes {
    /// The attribute list of a simple element: each key as written, with its
    /// value text.
    pub fn for_simple_element(&self, src: &Vec<char>, scope: &Scope) -> (r: Result<Vec<(String, String)>, EmitError>)
        requires
            attributes_in(src@, attribute_views(self.attributes@)),
        ensures
            match r {
                Ok(v) => attributes_markup(src@, self.view(), scope.view()) == Ok::<Seq<char>, EmitError>(
                    crate::simple_element::attributes_rendered(v@),
                ) && simple_attribute_list(src@, self.view(), scope.view(), v@),
                Err(x) => attributes_markup(src@, self.view(), scope.view()) == Err::<Seq<char>, EmitError>(x),
            },
    {
        let attrs = &self.attributes;
        let ghost all = attribute_views(attrs@);
        let mut out: Vec<(String, String)> = Vec::new();
        let mut i: usize = 0;
        assert(all.take(0) =~= Seq::<AttributeView>::empty());
        while i < attrs.len()
            invariant
                i <= attrs@.len(),
                all == attribute_views(attrs@),
                all == self.view(),
                attributes_in(src@, all),
                attributes_markup(src@, all.take(i as int), scope.view()) == Ok::<Seq<char>, EmitError>(
                    crate::simple_element::attributes_rendered(out@),
                ),
                simple_attribute_list(src@, all.take(i as int), scope.view(), out@),
            decreases attrs@.len() - i,
        {
            let a = &attrs[i];
            assert(all[i as int] == a.view());
            let key = key_string(src, a.ident(), '-');
            let ghost t = all.take(i + 1);
            assert(t.drop_last() =~= all.take(i as int));
            assert(t.last() == a.view());
            match attribute_field_of(src, a, scope) {
                Err(x) => {
                    proof {
                        lemma_attributes_markup_prefix_err(src@, all, i + 1, scope.view(), x);
                    }
                    return Err(x);
                },
                Ok(v) => {
                    let ghost before = out@;
                    out.push((key, v.text()));
                    proof {
                        assert(out@.drop_last() =~= before);
                        assert forall|k: int| 0 <= k < out@.len() implies {
                            &&& (#[trigger] out@[k]).0@ == joined(src@, t[k].key, '-')
                            &&& attribute_text(src@, t[k], scope.view()) == Ok::<Seq<char>, EmitError>(out@[k].1@)
                        } by {
                            if k < i {
                                assert(out@[k] == before[k]);
                                assert(t[k] == all.take(i as int)[k]);
                            }
                        }
                    }
                },
            }
            i = i + 1;
        }
        assert(all.take(i as int) =~= all);
        Ok(out)
    }

    /// The fields that a custom element's attributes give, as a scope.
    pub fn for_custom_element(&self, src: &Vec<char>, scope: &Scope) -> (r: Result<Scope, EmitError>)
        requires
            attributes_in(src@, attribute_views(self.attributes@)),
        ensures
            match r {
                Ok(f) => fields_of(src@, self.view(), scope.view()) == Ok::<Seq<(Seq<char>, ValueView)>, EmitError>(f.view()),
                Err(x) => fields_of(src@, self.view(), scope.view()) == Err::<Seq<(Seq<char>, ValueView)>, EmitError>(x),
            },
    {
        let attrs = &self.attributes;
        let ghost all = attribute_views(attrs@);
        let mut out = Scope::new();
        let mut i: usize = 0;
        assert(all.take(0) =~= Seq::<AttributeView>::empty());
        while i < attrs.len()
            invariant
                i <= attrs@.len(),
                all == attribute_views(attrs@),
                all == self.view(),
                attributes_in(src@, all),
                fields_of(src@, all.take(i as int), scope.view()) == Ok::<Seq<(Seq<char>, ValueView)>, EmitError>(out.view()),
            decreases attrs@.len() - i,
        {
            let a = &attrs[i];
            assert(all[i as int] == a.view());
            let key = key_string(src, a.ident(), '-');
            let ghost t = all.take(i + 1);
            assert(t.drop_last() =~= all.take(i as int));
            assert(t.last() == a.view());
            match attribute_field_of(src, a, scope) {
                Err(x) => {
                    proof {
                        lemma_fields_prefix_err(src@, all, i + 1, scope.view(), x);
                    }
                    return Err(x);
                },
                Ok(v) => {
                    out.bind(key, v);
                },
            }
            i = i + 1;
        }
        assert(all.take(i as int) =~= all);
        Ok(out)
    }
}

/// An error in a prefix of the attributes is the error of the whole list.
proof fn lemma_attributes_markup_prefix_err(s: Seq<char>, all: Seq<AttributeView>, k: int, b: Seq<(Seq<char>, ValueView)>, x: EmitError)
    requires
        0 <= k <= all.len(),
        attributes_markup(s, all.take(k), b) == Err::<Seq<char>, EmitError>(x),
    ensures
        attributes_markup(s, all, b) == Err::<Seq<char>, EmitError>(x),
    decreases all.len() - k,
{
    if k < all.len() {
        let t = all.take(k + 1);
        assert(t.drop_last() =~= all.take(k));
        lemma_attributes_markup_prefix_err(s, all, k + 1, b, x);
    } else {
        assert(all.take(k) =~= all);
    }
}

/// An error in a prefix of the attributes is the error of all the fields.
proof fn lemma_fields_prefix_err(s: Seq<char>, all: Seq<AttributeView>, k: int, b: Seq<(Seq<char>, ValueView)>, x: EmitError)
    requires
        0 <= k <= all.len(),
        fields_of(s, all.take(k), b) == Err::<Seq<(Seq<char>, ValueView)>, EmitError>(x),
    ensures
        fields_of(s, all, b) == Err::<Seq<(Seq<char>, ValueView)>, EmitError>(x),
    decreases all.len() - k,
{
    if k < all.len() {
        let t = all.take(k + 1);
        assert(t.drop_last() =~= all.take(k));
        lemma_fields_prefix_err(s, all, k + 1, b, x);
    } else {
        assert(all.take(k) =~= all);
    }
}

/// An error in a prefix of the children is the error of the whole list.
proof fn lemma_children_markup_prefix_err(
    s: Seq<char>,
    all: Seq<ChildView>,
    k: int,
    b: Seq<(Seq<char>, ValueView)>,
    comps: Seq<ComponentView>,
    fuel: nat,
    x: EmitError,
)
    requires
        0 <= k <= all.len(),
        children_markup(s, all.take(k), b, comps, fuel) == Err::<Seq<char>, EmitError>(x),
    ensures
        children_markup(s, all, b, comps, fuel) == Err::<Seq<char>, EmitError>(x),
    decreases all.len() - k,
{
    if k < all.len() {
        let t = all.take(k + 1);
        assert(t.drop_last() =~= all.take(k));
        lemma_children_markup_prefix_err(s, all, k + 1, b, comps, fuel, x);
    } else {
        assert(all.take(k) =~= all);
    }
}

/// A component: a named template, and the constants its template sees
/// besides the fields it is given.
pub struct Component {
    pub name: String,
    pub template: Template,
    pub constants: Scope,
}

impl Component {
    pub open spec fn view(&self) -> ComponentView {
        ComponentView {
            name: self.name@,
            source: self.template.source@,
            root: element_view(self.template.root),
            constants: self.constants.view(),
        }
    }
}

/// The components that custom elements can name; the first of a name
/// counts.
pub struct Components {
    pub entries: Vec<Component>,
}

impl Components {
    pub open spec fn view(&self) -> Seq<ComponentView> {
        self.entries@.map_values(|c: Component| c.view())
    }

    /// Whether every component's template is well formed.
    pub open spec fn well_formed(&self) -> bool {
        forall|i: int| 0 <= i < self.entries@.len() ==> (#[trigger] self.entries@[i]).template.well_formed()
    }

    pub fn new() -> (r: Components)
        ensures
            r.view() == Seq::<ComponentView>::empty(),
            r.well_formed(),
    {
        let r = Components { entries: Vec::new() };
        assert(r.view() =~= Seq::<ComponentView>::empty());
        r
    }

    /// Registers a component, after those already registered.
    pub fn register(&mut self, name: String, template: Template, constants: Scope)
        requires
            old(self).well_formed(),
            template.well_formed(),
        ensures
            final(self).well_formed(),
            final(self).view() == old(self).view().push(
                ComponentView {
                    name: name@,
                    source: template.source@,
                    root: element_view(template.root),
                    constants: constants.view(),
                },
            ),
    {
        let c = Component { name, template, constants };
        let ghost cv = c.view();
        self.entries.push(c);
        assert(self.view() =~= old(self).view().push(cv));
    }

    /// The index of the first component named `name`.
    fn find(&self, name: &String) -> (r: Option<usize>)
        ensures
            match r {
                Some(i) => component_from(self.view(), name@, 0) == Some(i as int) && i < self.entries@.len(),
                None => component_from(self.view(), name@, 0) is None,
            },
    {
        let mut i: usize = 0;
        while i < self.entries.len()
            invariant
                i <= self.entries@.len(),
                component_from(self.view(), name@, 0) == component_from(self.view(), name@, i as int),
            decreases self.entries@.len() - i,
        {
            assert(self.view()[i as int] == self.entries@[i as int].view());
            if self.entries[i].name == *name {
                return Some(i);
            }
            i = i + 1;
        }
        None
    }
}

/// The name `children`.
fn children_name() -> (r: String)
    ensures
        r@ == children_field(),
{
    let mut r = String::new();
    r.push('c');
    r.push('h');
    r.push('i');
    r.push('l');
    r.push('d');
    r.push('r');
    r.push('e');
    r.push('n');
    assert(r@ =~= children_field());
    r
}

/// Adds the bindings of `more` after those of `scope`.
fn extend_scope(scope: &mut Scope, more: &Scope)
    ensures
        final(scope).view() == old(scope).view() + more.view(),
{
    let mut i: usize = 0;
    while i < more.bindings.len()
        invariant
            i <= more.bindings@.len(),
            scope.view() == old(scope).view() + more.view().take(i as int),
        decreases more.bindings@.len() - i,
    {
        let name = more.bindings[i].0.clone();
        let value = copy_value(&more.bindings[i].1);
        scope.bind(name, value);
        assert(more.view().take(i + 1) =~= more.view().take(i as int).push(more.view()[i as int]));
        assert(scope.view() =~= old(scope).view() + more.view().take(i + 1));
        i = i + 1;
    }
    assert(more.view().take(i as int) =~= more.view());
}

/// A member of a list of children that is an element is smaller than the
/// list.
proof fn lemma_child_element_decreases(children: Children, i: int)
    requires
        0 <= i < children.nodes@.len(),
        children.nodes@[i] is Element,
    ensures
        decreases_to!(children => children.nodes@[i]->Element_0),
{
    let nodes = children.nodes;
    assert(decreases_to!(children => nodes));
    assert(decreases_to!(nodes => nodes@));
    assert(decreases_to!(nodes@ => nodes@[i]));
    assert(decreases_to!(nodes@[i] => nodes@[i]->Element_0));
}

impl Children {
    /// The node of the children: nothing for none, the child itself for one,
    /// and for more the pairing `((c0, c1), c2) ...`, which renders them in
    /// document order.
    pub fn to_node(&self, src: &Vec<char>, scope: &Scope, comps: &Components, fuel: usize) -> (r: Result<Node, EmitError>)
        requires
            forall|i: int| 0 <= i < self.nodes@.len() ==> child_in(src@, #[trigger] children_view(self.nodes@)[i]),
            comps.well_formed(),
        ensures
            match r {
                Ok(n) => children_markup(src@, children_view(self.nodes@), scope.view(), comps.view(), fuel as nat) == Ok::<Seq<char>, EmitError>(node_rendered(n))
                && children_nodes(n, src@, children_view(self.nodes@), scope.view(), comps.view(), fuel as nat),
                Err(x) => children_markup(src@, children_view(self.nodes@), scope.view(), comps.view(), fuel as nat) == Err::<Seq<char>, EmitError>(x),
            },
        decreases fuel, self,
    {
        let nodes = &self.nodes;
        let ghost cv = children_view(nodes@);
        let ghost b = scope.view();
        let ghost cs = comps.view();
        proof {
            crate::element::lemma_children_view_len(nodes@);
        }
        let mut acc = Node::Unit;
        let mut i: usize = 0;
        assert(cv.take(0) =~= Seq::<ChildView>::empty());
        while i < nodes.len()
            invariant
                i <= nodes@.len(),
                cv == children_view(nodes@),
                *nodes == self.nodes,
                cv.len() == nodes@.len(),
                b == scope.view(),
                cs == comps.view(),
                comps.well_formed(),
                forall|k: int| 0 <= k < nodes@.len() ==> child_in(src@, #[trigger] cv[k]),
                children_markup(src@, cv.take(i as int), b, cs, fuel as nat) == Ok::<Seq<char>, EmitError>(node_rendered(acc)),
                children_nodes(acc, src@, cv.take(i as int), b, cs, fuel as nat),
            decreases nodes@.len() - i,
        {
            let ghost t = cv.take(i + 1);
            assert(t.drop_last() =~= cv.take(i as int));
            assert(t.last() == cv[i as int]);
            proof {
                crate::element::lemma_children_view_index(nodes@, i as int);
            }
            let child = match &nodes[i] {
                Child::Element(e) => {
                    proof {
                        lemma_child_element_decreases(*self, i as int);
                    }
                    match e.to_node(src, scope, comps, fuel) {
                        Ok(n) => {
                            assert(cv[i as int] == ChildView::Element(element_view(*e)));
                            n
                        },
                        Err(x) => {
                            proof {
                                assert(cv[i as int] == ChildView::Element(element_view(*e)));
                                assert(child_markup(src@, cv[i as int], b, cs, fuel as nat) == Err::<Seq<char>, EmitError>(x));
                                assert(children_markup(src@, t, b, cs, fuel as nat) == Err::<Seq<char>, EmitError>(x));
                                lemma_children_markup_prefix_err(src@, cv, i + 1, b, cs, fuel as nat, x);
                            }
                            return Err(x);
                        },
                    }
                },
                Child::RawBlock(v) => match evaluate_span(src, *v, scope) {
                    Some(x) => {
                        assert(cv[i as int] == ChildView::RawBlock(*v));
                        x.node()
                    },
                    None => {
                        proof {
                            let x = EmitError { kind: EmitErrorKind::UnknownName, at: *v };
                            assert(cv[i as int] == ChildView::RawBlock(*v));
                            assert(child_markup(src@, cv[i as int], b, cs, fuel as nat) == Err::<Seq<char>, EmitError>(x));
                            assert(children_markup(src@, t, b, cs, fuel as nat) == Err::<Seq<char>, EmitError>(x));
                            lemma_children_markup_prefix_err(src@, cv, i + 1, b, cs, fuel as nat, x);
                        }
                        return Err(EmitError { kind: EmitErrorKind::UnknownName, at: *v });
                    },
                },
                Child::Literal(l) => {
                    assert(cv[i as int] == ChildView::Literal(l@));
                    Node::Text(l.clone())
                },
            };
            assert(child_markup(src@, cv[i as int], b, cs, fuel as nat) == Ok::<Seq<char>, EmitError>(node_rendered(child)));
            let ghost before = node_rendered(acc);
            let ghost cr = node_rendered(child);
            let ghost old_acc = acc;
            if i == 0 {
                acc = child;
                assert(before =~= Seq::<char>::empty());
                assert(node_rendered(acc) =~= before + cr);
                assert(t.len() == 1);
                assert(children_nodes(acc, src@, t, b, cs, fuel as nat));
            } else {
                let pair = vec![acc, child];
                proof {
                    let ps = pair@;
                    assert(ps.drop_last().drop_last() =~= Seq::<Node>::empty());
                    assert(crate::node::nodes_rendered(Seq::<Node>::empty()) =~= Seq::<char>::empty());
                    assert(crate::node::nodes_rendered(ps.drop_last()) =~= before);
                    assert(crate::node::nodes_rendered(ps) =~= before + cr);
                }
                acc = Node::Sequence(pair);
                assert(acc->Sequence_0@[0] == old_acc);
                assert(acc->Sequence_0@[1] == child);
                assert(children_nodes(acc, src@, t, b, cs, fuel as nat));
            }
            i = i + 1;
        }
        assert(cv.take(i as int) =~= cv);
        Ok(acc)
    }
}

impl Element {
    /// Turns a parsed element into a render tree node: a simple element becomes
    /// an element node with its attribute values evaluated, the fragment a
    /// fragment node of its children, and another custom element the node of
    /// its component's template, given the element's fields.
    pub fn to_node(&self, src: &Vec<char>, scope: &Scope, comps: &Components, fuel: usize) -> (r: Result<Node, EmitError>)
        requires
            element_in(src@, element_view(*self)),
            comps.well_formed(),
        ensures
            match r {
                Ok(n) => element_markup(src@, element_view(*self), scope.view(), comps.view(), fuel as nat) == Ok::<Seq<char>, EmitError>(node_rendered(n))
                && is_single(n) && element_node(n, src@, element_view(*self), scope.view(), comps.view(), fuel as nat),
                Err(x) => element_markup(src@, element_view(*self), scope.view(), comps.view(), fuel as nat) == Err::<Seq<char>, EmitError>(x),
            },
        decreases fuel, self,
    {
        let el = self;
        proof {
            crate::element::lemma_children_view_len(el.children.nodes@);
        }
        match el.name {
            None => {
                let c = el.children.to_node(src, scope, comps, fuel)?;
                let r = Node::Fragment(Box::new(c));
                assert(element_node(r, src@, element_view(*self), scope.view(), comps.view(), fuel as nat));
                Ok(r)
            },
            Some(n) => {
                if crate::tags::is_custom(src, Some(n)) {
                    let name = span_string(src, n);
                    match comps.find(&name) {
                        None => Err(EmitError { kind: EmitErrorKind::UnknownComponent, at: n }),
                        Some(ci) => {
                            if fuel == 0 {
                                return Err(EmitError { kind: EmitErrorKind::TooDeep, at: n });
                            }
                            let mut given = el.attributes.for_custom_element(src, scope)?;
                            if el.children.nodes.len() > 0 {
                                let c = el.children.to_node(src, scope, comps, fuel)?;
                                given.bind(children_name(), Value::Raw(c.render()));
                            }
                            let comp = &comps.entries[ci];
                            assert(comps.view()[ci as int] == comp.view());
                            extend_scope(&mut given, &comp.constants);
                            assert(comp.template.well_formed());
                            comp.template.root.to_node(&comp.template.source, &given, comps, fuel - 1)
                        },
                    }
                } else {
                    let attributes = el.attributes.for_simple_element(src, scope)?;
                    let tag = span_string(src, n);
                    if el.self_closing {
                        let r = Node::Element { tag, attributes, self_closing: true, contents: Box::new(Node::Unit) };
                        assert(element_node(r, src@, element_view(*self), scope.view(), comps.view(), fuel as nat));
                        Ok(r)
                    } else {
                        let c = el.children.to_node(src, scope, comps, fuel)?;
                        let r = Node::Element { tag, attributes, self_closing: false, contents: Box::new(c) };
                        assert(element_node(r, src@, element_view(*self), scope.view(), comps.view(), fuel as nat));
                        Ok(r)
                    }
                }
            },
        }
    }
}

} // verus!
