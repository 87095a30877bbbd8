//! HTML escaping of text, so that it can be written safely into markup.
use vstd::prelude::*;

verus! {

/// The entity text that a single character is written as.
pub open spec fn escape_char(c: char) -> Seq<char> {
    if c == '>' {
        seq!['&', 'g', 't', ';']
    } else if c == '<' {
        seq!['&', 'l', 't', ';']
    } else if c == '"' {
        seq!['&', 'q', 'u', 'o', 't', ';']
    } else if c == '&' {
        seq!['&', 'a', 'm', 'p', ';']
    } else if c == '\'' {
        seq!['&', 'a', 'p', 'o', 's', ';']
    } else {
        seq![c]
    }
}

/// The escaped form of a character sequence: each character replaced by
/// its entity text, in order.
pub open spec fn escaped(s: Seq<char>) -> Seq<char>
    decreases s.len(),
{
    if s.len() == 0 {
        Seq::empty()
    } else {
        escaped(s.drop_last()) + escape_char(s.last())
    }
}

/// Relies on std's `String::push`, which appends the character `c` at the
/// end of `s`.
pub assume_specification[ String::push ](s: &mut String, c: char)
    ensures
        final(s)@ == old(s)@.push(c),
;

/// Appends the entity text of one character to `writer`.
fn push_escaped_char(c: char, writer: &mut String)
    ensures
        final(writer)@ == old(writer)@ + escape_char(c),
{
    let ghost w0 = writer@;
    if c == '>' {
        writer.push('&');
        writer.push('g');
        writer.push('t');
        writer.push(';');
    } else if c == '<' {
        writer.push('&');
        writer.push('l');
        writer.push('t');
        writer.push(';');
    } else if c == '"' {
        writer.push('&');
        writer.push('q');
        writer.push('u');
        writer.push('o');
        writer.push('t');
        writer.push(';');
    } else if c == '&' {
        writer.push('&');
        writer.push('a');
        writer.push('m');
        writer.push('p');
        writer.push(';');
    } else if c == '\'' {
        writer.push('&');
        writer.push('a');
        writer.push('p');
        writer.push('o');
        writer.push('s');
        writer.push(';');
    } else {
        writer.push(c);
    }
    assert(writer@ =~= w0 + escape_char(c));
}

/// Simple HTML escaping, so strings can be safely rendered: appends the
/// escaped form of `html` to `writer`.
pub fn escape_html(html: &str, writer: &mut String)
    ensures
        final(writer)@ == old(writer)@ + escaped(html@),
{
    for c in it: html.chars()
        invariant
            it.seq() == html@,
            writer@ == old(writer)@ + escaped(html@.take(it.index() as int)),
    {
        let ghost k = it.index() as int;
        let ghost before = writer@;
        push_escaped_char(c, writer);
        proof {
            assert(html@.take(k + 1).drop_last() =~= html@.take(k));
            assert(html@.take(k + 1).last() == c);
            assert(writer@ =~= old(writer)@ + escaped(html@.take(k + 1)));
        }
    }
    assert(html@.take(html@.len() as int) =~= html@);
}

/// Whether `c` is one of the five characters that escaping replaces.
pub open spec fn is_markup_char(c: char) -> bool {
    c == '>' || c == '<' || c == '"' || c == '&' || c == '\''
}

/// Whether `t` starts with the entity `e`.
pub open spec fn starts_with(t: Seq<char>, e: Seq<char>) -> bool {
    t.len() >= e.len() && t.take(e.len() as int) =~= e
}

/// Reads escaped text back: each entity becomes the character it stands
/// for, every other character stays.
pub open spec fn unescaped(t: Seq<char>) -> Seq<char>
    decreases t.len(),
{
    if t.len() == 0 {
        Seq::empty()
    } else if t[0] == '&' && starts_with(t, escape_char('>')) {
        seq!['>'] + unescaped(t.skip(4))
    } else if t[0] == '&' && starts_with(t, escape_char('<')) {
        seq!['<'] + unescaped(t.skip(4))
    } else if t[0] == '&' && starts_with(t, escape_char('"')) {
        seq!['"'] + unescaped(t.skip(6))
    } else if t[0] == '&' && starts_with(t, escape_char('&')) {
        seq!['&'] + unescaped(t.skip(5))
    } else if t[0] == '&' && starts_with(t, escape_char('\'')) {
        seq!['\''] + unescaped(t.skip(6))
    } else {
        seq![t[0]] + unescaped(t.skip(1))
    }
}

/// Escaping distributes over concatenation.
pub proof fn lemma_escaped_concat(a: Seq<char>, b: Seq<char>)
    ensures
        escaped(a + b) == escaped(a) + escaped(b),
    decreases b.len(),
{
    if b.len() == 0 {
        assert(a + b =~= a);
        assert(escaped(a) + escaped(b) =~= escaped(a));
    } else {
        lemma_escaped_concat(a, b.drop_last());
        assert((a + b).drop_last() =~= a + b.drop_last());
        assert((a + b).last() == b.last());
        assert(escaped(a + b) =~= escaped(a) + escaped(b));
    }
}

/// Text without any of the five markup characters is left as it is by
/// escaping.
pub proof fn lemma_escape_safe_is_identity(s: Seq<char>)
    requires
        forall|i: int| 0 <= i < s.len() ==> !is_markup_char(#[trigger] s[i]),
    ensures
        escaped(s) == s,
    decreases s.len(),
{
    if s.len() > 0 {
        lemma_escape_safe_is_identity(s.drop_last());
        assert(escaped(s) =~= s);
    }
}

/// Escaped text holds none of `<`, `>`, `"` and `'`, is never shorter than
/// its input, and reads back to exactly that input.
pub proof fn lemma_escape_round_trip(s: Seq<char>)
    ensures
        forall|i: int|
            0 <= i < escaped(s).len() ==> {
                let c = #[trigger] escaped(s)[i];
                c != '<' && c != '>' && c != '"' && c != '\''
            },
        escaped(s).len() >= s.len(),
        unescaped(escaped(s)) == s,
    decreases s.len(),
{
    if s.len() > 0 {
        let c = s[0];
        let r = s.skip(1);
        lemma_escape_round_trip(r);
        assert(s =~= seq![c] + r);
        lemma_escaped_concat(seq![c], r);
        assert(seq![c].drop_last() =~= Seq::<char>::empty());
        assert(seq![c].last() == c);
        assert(escaped(Seq::<char>::empty()) =~= Seq::<char>::empty());
        assert(escaped(seq![c]) =~= escape_char(c));
        let e = escape_char(c);
        let t = e + escaped(r);
        assert(escaped(s) == t);
        assert(t.skip(e.len() as int) =~= escaped(r));
        assert(t.take(e.len() as int) =~= e);
        if !is_markup_char(c) {
            assert(t[0] == c);
            assert(unescaped(t) =~= seq![c] + unescaped(escaped(r)));
        } else {
            assert(unescaped(t) =~= seq![c] + unescaped(escaped(r)));
        }
        assert(unescaped(escaped(s)) =~= s);
    }
}

} // verus!
