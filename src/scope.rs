//! The values that a template's expressions and punned attributes name.
use crate::html_escaping::escaped;
use crate::lexer::{is_ws, span_in, span_string, text_of, Span};
use crate::node::Node;
use crate::numbers::decimal_int;
use crate::render::Render;
use vstd::prelude::*;

verus! {

/// A value bound to a name.
pub enum Value {
    /// Text, escaped when written as a child.
    Text(String),
    /// Markup, written verbatim as a child.
    Raw(String),
    /// An integer, written in base 10.
    Number(i64),
}

/// A value as contracts see it.
pub enum ValueView {
    Text(Seq<char>),
    Raw(Seq<char>),
    Number(int),
}

impl Value {
    pub open spec fn view(&self) -> ValueView {
        match self {
            Value::Text(s) => ValueView::Text(s@),
            Value::Raw(s) => ValueView::Raw(s@),
            Value::Number(n) => ValueView::Number(*n as int),
        }
    }
}

/// The text of a value, as an attribute value takes it (and then escapes
/// it).
pub open spec fn value_text(v: ValueView) -> Seq<char> {
    match v {
        ValueView::Text(s) => s,
        ValueView::Raw(s) => s,
        ValueView::Number(n) => decimal_int(n),
    }
}

/// The markup of a value written as a child.
pub open spec fn value_markup(v: ValueView) -> Seq<char> {
    match v {
        ValueView::Text(s) => escaped(s),
        ValueView::Raw(s) => s,
        ValueView::Number(n) => decimal_int(n),
    }
}

/// The names in scope and their values; the first binding of a name counts.
pub struct Scope {
    pub bindings: Vec<(String, Value)>,
}

/// The value of the first binding of `name` from index `i` on.
pub open spec fn lookup_from(b: Seq<(Seq<char>, ValueView)>, name: Seq<char>, i: int) -> Option<ValueView>
    decreases b.len() - i,
{
    if i < 0 || i >= b.len() {
        None
    } else if b[i].0 == name {
        Some(b[i].1)
    } else {
        lookup_from(b, name, i + 1)
    }
}

/// The value of the first binding of `name`.
pub open spec fn lookup(b: Seq<(Seq<char>, ValueView)>, name: Seq<char>) -> Option<ValueView> {
    lookup_from(b, name, 0)
}

/// The value of `t` read as a Rust string literal (escapes resolved), or
/// none when it is not one.
pub uninterp spec fn str_literal_value(t: Seq<char>) -> Option<Seq<char>>;

/// The value of `t` read as a Rust integer literal that fits in `i64`, or
/// none when it is not one.
pub uninterp spec fn int_literal_value(t: Seq<char>) -> Option<i64>;

/// Relies on syn's `parse_str::<syn::LitStr>` and `LitStr::value`: the
/// whole text parsed as a string literal, and its value.
#[verifier::external_body]
fn parse_str_literal(text: &str) -> (r: Option<String>)
    ensures
        match r {
            Some(v) => str_literal_value(text@) == Some(v@),
            None => str_literal_value(text@) is None,
        },
{
    match syn::parse_str::<syn::LitStr>(text) {
        Ok(lit) => Some(lit.value()),
        Err(_) => None,
    }
}

/// Relies on syn's `parse_str::<syn::LitInt>` and `LitInt::base10_parse`:
/// the whole text parsed as an integer literal, and its value as `i64`.
#[verifier::external_body]
fn parse_int_literal(text: &str) -> (r: Option<i64>)
    ensures
        r == int_literal_value(text@),
{
    match syn::parse_str::<syn::LitInt>(text) {
        Ok(lit) => lit.base10_parse::<i64>().ok(),
        Err(_) => None,
    }
}

/// What an expression evaluates to: a string literal is its text, an
/// integer literal its number, and anything else a name, looked up in the
/// scope.
pub open spec fn evaluate(t: Seq<char>, b: Seq<(Seq<char>, ValueView)>) -> Option<ValueView> {
    match str_literal_value(t) {
        Some(v) => Some(ValueView::Text(v)),
        None => match int_literal_value(t) {
            Some(n) => Some(ValueView::Number(n as int)),
            None => lookup(b, t),
        },
    }
}

/// The first position in `i..end` that holds no whitespace, or `end`.
pub open spec fn trim_start(s: Seq<char>, i: int, end: int) -> int
    decreases end - i,
{
    if i < end && 0 <= i < s.len() && is_ws(s[i]) {
        trim_start(s, i + 1, end)
    } else {
        i
    }
}

/// The position after the last character in `start..j` that is no
/// whitespace, or `start`.
pub open spec fn trim_end(s: Seq<char>, start: int, j: int) -> int
    decreases j - start,
{
    if start < j && 0 < j <= s.len() && is_ws(s[j - 1]) {
        trim_end(s, start, j - 1)
    } else {
        j
    }
}

/// A span without the whitespace at either end.
pub open spec fn trimmed(s: Seq<char>, span: Span) -> Span {
    let a = trim_start(s, span.start as int, span.end as int);
    Span { start: a as usize, end: trim_end(s, a, span.end as int) as usize }
}

impl Scope {
    pub open spec fn view(&self) -> Seq<(Seq<char>, ValueView)> {
        self.bindings@.map_values(|b: (String, Value)| (b.0@, b.1.view()))
    }

    pub fn new() -> (r: Scope)
        ensures
            r.view() == Seq::<(Seq<char>, ValueView)>::empty(),
    {
        let r = Scope { bindings: Vec::new() };
        assert(r.view() =~= Seq::<(Seq<char>, ValueView)>::empty());
        r
    }

    /// Binds `name` to `value`, after the bindings already made.
    pub fn bind(&mut self, name: String, value: Value)
        ensures
            final(self).view() == old(self).view().push((name@, value.view())),
    {
        self.bindings.push((name, value));
        assert(self.view() =~= old(self).view().push((name@, value.view())));
    }

    /// The first binding of `name`, if any.
    pub fn lookup(&self, name: &String) -> (r: Option<&Value>)
        ensures
            match r {
                Some(v) => lookup(self.view(), name@) == Some(v.view()),
                None => lookup(self.view(), name@) is None,
            },
    {
        let mut i: usize = 0;
        while i < self.bindings.len()
            invariant
                i <= self.bindings@.len(),
                lookup(self.view(), name@) == lookup_from(self.view(), name@, i as int),
            decreases self.bindings@.len() - i,
        {
            assert(self.view()[i as int] == (self.bindings@[i as int].0@, self.bindings@[i as int].1.view()));
            if self.bindings[i].0 == *name {
                return Some(&self.bindings[i].1);
            }
            i = i + 1;
        }
        None
    }
}

impl Value {
    /// The value's text.
    pub fn text(&self) -> (r: String)
        ensures
            r@ == value_text(self.view()),
    {
        match self {
            Value::Text(s) => s.clone(),
            Value::Raw(s) => s.clone(),
            Value::Number(n) => n.render(),
        }
    }

    /// The node that writes the value as a child.
    pub fn node(&self) -> (r: Node)
        ensures
            crate::node::node_rendered(r) == value_markup(self.view()),
            crate::node::is_single(r),
    {
        match self {
            Value::Text(s) => Node::Text(s.clone()),
            Value::Raw(s) => Node::Raw(s.clone()),
            Value::Number(n) => Node::Number(*n),
        }
    }
}

/// The span without the whitespace at either end.
pub fn trim(src: &Vec<char>, span: Span) -> (r: Span)
    requires
        span_in(src@, span),
    ensures
        r == trimmed(src@, span),
        span.start <= r.start <= r.end <= span.end,
{
    let mut a = span.start;
    while a < span.end && (src[a] == ' ' || src[a] == '\t' || src[a] == '\n' || src[a] == '\r')
        invariant
            span.start <= a <= span.end <= src@.len(),
            trim_start(src@, a as int, span.end as int) == trim_start(src@, span.start as int, span.end as int),
        decreases span.end - a,
    {
        a = a + 1;
    }
    let mut b = span.end;
    while b > a && (src[b - 1] == ' ' || src[b - 1] == '\t' || src[b - 1] == '\n' || src[b - 1] == '\r')
        invariant
            a <= b <= span.end <= src@.len(),
            trim_end(src@, a as int, b as int) == trim_end(src@, a as int, span.end as int),
        decreases b,
    {
        b = b - 1;
    }
    Span { start: a, end: b }
}

/// Evaluates the expression in `span`: a string or integer literal, or a
/// name in the scope.
pub fn evaluate_span(src: &Vec<char>, span: Span, scope: &Scope) -> (r: Option<Value>)
    requires
        span_in(src@, span),
    ensures
        match r {
            Some(v) => evaluate(text_of(src@, trimmed(src@, span)), scope.view()) == Some(v.view()),
            None => evaluate(text_of(src@, trimmed(src@, span)), scope.view()) is None,
        },
{
    let t = trim(src, span);
    let text = span_string(src, t);
    if let Some(v) = parse_str_literal(text.as_str()) {
        return Some(Value::Text(v));
    }
    if let Some(n) = parse_int_literal(text.as_str()) {
        return Some(Value::Number(n));
    }
    match scope.lookup(&text) {
        Some(v) => Some(copy_value(v)),
        None => None,
    }
}

/// A copy of a value.
pub fn copy_value(v: &Value) -> (r: Value)
    ensures
        r.view() == v.view(),
{
    match v {
        Value::Text(s) => Value::Text(s.clone()),
        Value::Raw(s) => Value::Raw(s.clone()),
        Value::Number(n) => Value::Number(*n),
    }
}

} // verus!
