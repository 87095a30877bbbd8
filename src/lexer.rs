//! Character-level pieces of the template grammar: whitespace, words,
//! qualified names, dashed attribute keys, braced expressions and text runs.
use vstd::prelude::*;

verus! {

/// A range `start..end` of character positions in the template source.
#[derive(Clone, Copy, PartialEq, Eq, Debug)]
pub struct Span {
    pub start: usize,
    pub end: usize,
}

/// The characters of `s` that `span` covers.
pub open spec fn text_of(s: Seq<char>, span: Span) -> Seq<char> {
    s.subrange(span.start as int, span.end as int)
}

/// Whether `span` lies within `s`.
pub open spec fn span_in(s: Seq<char>, span: Span) -> bool {
    span.start <= span.end <= s.len()
}

pub open spec fn is_ws(c: char) -> bool {
    c == ' ' || c == '\t' || c == '\n' || c == '\r'
}

/// Whether `c` has the Unicode property XID_Start.
pub uninterp spec fn xid_start(c: char) -> bool;

/// Whether `c` has the Unicode property XID_Continue.
pub uninterp spec fn xid_continue(c: char) -> bool;

/// Whether a Rust identifier can start with `c`: XID_Start or `_`.
pub open spec fn is_word_start(c: char) -> bool {
    c == '_' || xid_start(c)
}

/// Whether a Rust identifier can go on with `c`: XID_Continue.
pub open spec fn is_word_char(c: char) -> bool {
    xid_continue(c)
}

/// The first position at or after `p` that holds no whitespace.
pub open spec fn skip_ws(s: Seq<char>, p: int) -> int
    decreases s.len() - p,
{
    if 0 <= p < s.len() && is_ws(s[p]) {
        skip_ws(s, p + 1)
    } else {
        p
    }
}

/// The first position at or after `p` that holds no word character.
pub open spec fn word_run(s: Seq<char>, p: int) -> int
    decreases s.len() - p,
{
    if 0 <= p < s.len() && is_word_char(s[p]) {
        word_run(s, p + 1)
    } else {
        p
    }
}

/// The word that starts at `p`, if any: a letter or `_` and the word
/// characters after it. A raw word `r#name` stands for `name`, and its span
/// leaves the `r#` out.
pub open spec fn word_at(s: Seq<char>, p: int) -> Option<Span> {
    if 0 <= p && p + 2 < s.len() && s[p] == 'r' && s[p + 1] == '#' && is_word_start(s[p + 2]) {
        Some(Span { start: (p + 2) as usize, end: word_run(s, p + 3) as usize })
    } else if 0 <= p < s.len() && is_word_start(s[p]) {
        Some(Span { start: p as usize, end: word_run(s, p + 1) as usize })
    } else {
        None
    }
}

/// The end of a qualified name whose words so far end at `p`: each further
/// `::word` is taken in.
pub open spec fn path_end(s: Seq<char>, p: int) -> int
    decreases s.len() - p,
{
    if 0 <= p && p + 2 < s.len() && s[p] == ':' && s[p + 1] == ':' && word_at(s, p + 2) is Some
        && p < word_at(s, p + 2)->0.end <= s.len() {
        path_end(s, word_at(s, p + 2)->0.end as int)
    } else {
        p
    }
}

/// The qualified name that starts at `p`, if a word starts there.
pub open spec fn path_at(s: Seq<char>, p: int) -> Option<Span> {
    match word_at(s, p) {
        None => None,
        Some(w) => Some(Span { start: p as usize, end: path_end(s, w.end as int) as usize }),
    }
}

/// The further `-word` segments of an attribute key from `p` on, and where
/// they end.
pub open spec fn key_rest(s: Seq<char>, p: int) -> (Seq<Span>, int)
    decreases s.len() - p,
{
    if 0 <= p < s.len() && s[p] == '-' && word_at(s, p + 1) is Some && p < word_at(s,
        p + 1,
    )->0.end <= s.len() {
        let w = word_at(s, p + 1)->0;
        let r = key_rest(s, w.end as int);
        (seq![w] + r.0, r.1)
    } else {
        (Seq::empty(), p)
    }
}

/// Where the scan of a braced expression stands: in code, in a string
/// literal (just after a `\\` in one or not), in a raw string literal closed
/// by `"` and that many `#`, or in a line or (nested) block comment.
#[derive(Clone, Copy, PartialEq, Eq, Debug)]
pub enum BlockState {
    Code,
    Str,
    StrEscape,
    RawStr(usize),
    LineComment,
    BlockComment(usize),
}

/// The number of `#` from `p` on.
pub open spec fn hash_run(s: Seq<char>, p: int) -> nat
    decreases s.len() - p,
{
    if 0 <= p < s.len() && s[p] == '#' {
        1 + hash_run(s, p + 1)
    } else {
        0
    }
}

/// Whether `n` characters `#` stand from `p` on.
pub open spec fn hashes_at(s: Seq<char>, p: int, n: int) -> bool {
    0 <= p && p + n <= s.len() && forall|k: int| 0 <= k < n ==> #[trigger] s[p + k] == '#'
}

/// The first `'` at or after `p`.
pub open spec fn next_quote(s: Seq<char>, p: int) -> Option<int>
    decreases s.len() - p,
{
    if p < 0 || p >= s.len() {
        None
    } else if s[p] == '\'' {
        Some(p)
    } else {
        next_quote(s, p + 1)
    }
}

/// Whether an `r` at `p` can start a raw string literal: it does not end an
/// identifier, but for a `b` or `c` prefix.
pub open spec fn raw_start_ok(s: Seq<char>, p: int) -> bool {
    p == 0 || !is_word_char(s[p - 1]) || ((s[p - 1] == 'b' || s[p - 1] == 'c') && (p == 1
        || !is_word_char(s[p - 2])))
}

/// Where the brace that closes a braced expression stands, scanning from `p`
/// in state `st` with `depth` braces open beyond the outer one. Braces in
/// string, raw string and character literals and in comments do not count.
pub open spec fn block_close(s: Seq<char>, p: int, depth: nat, st: BlockState) -> Option<int>
    decreases s.len() - p,
{
    if p < 0 || p >= s.len() {
        None
    } else {
        match st {
            BlockState::Str => if s[p] == '\\' {
                block_close(s, p + 1, depth, BlockState::StrEscape)
            } else if s[p] == '"' {
                block_close(s, p + 1, depth, BlockState::Code)
            } else {
                block_close(s, p + 1, depth, BlockState::Str)
            },
            BlockState::StrEscape => block_close(s, p + 1, depth, BlockState::Str),
            BlockState::RawStr(n) => if s[p] == '"' && hashes_at(s, p + 1, n as int) {
                block_close(s, p + 1 + n, depth, BlockState::Code)
            } else {
                block_close(s, p + 1, depth, BlockState::RawStr(n))
            },
            BlockState::LineComment => if s[p] == '\n' {
                block_close(s, p + 1, depth, BlockState::Code)
            } else {
                block_close(s, p + 1, depth, BlockState::LineComment)
            },
            BlockState::BlockComment(k) => if s[p] == '*' && char_at(s, p + 1, '/') {
                if k <= 1 {
                    block_close(s, p + 2, depth, BlockState::Code)
                } else {
                    block_close(s, p + 2, depth, BlockState::BlockComment((k - 1) as usize))
                }
            } else if s[p] == '/' && char_at(s, p + 1, '*') && k < usize::MAX {
                block_close(s, p + 2, depth, BlockState::BlockComment((k + 1) as usize))
            } else {
                block_close(s, p + 1, depth, BlockState::BlockComment(k))
            },
            BlockState::Code => if s[p] == '"' {
                block_close(s, p + 1, depth, BlockState::Str)
            } else if s[p] == 'r' && raw_start_ok(s, p) && hash_run(s, p + 1) <= usize::MAX && char_at(
                s,
                p + 1 + hash_run(s, p + 1),
                '"',
            ) {
                block_close(s, p + 2 + hash_run(s, p + 1), depth, BlockState::RawStr(hash_run(s, p + 1) as usize))
            } else if s[p] == '\'' && char_at(s, p + 1, '\\') && next_quote(s, p + 3) is Some
                && p < next_quote(s, p + 3)->0 < s.len() {
                block_close(s, next_quote(s, p + 3)->0 + 1, depth, BlockState::Code)
            } else if s[p] == '\'' && char_at(s, p + 2, '\'') {
                block_close(s, p + 3, depth, BlockState::Code)
            } else if s[p] == '/' && char_at(s, p + 1, '/') {
                block_close(s, p + 2, depth, BlockState::LineComment)
            } else if s[p] == '/' && char_at(s, p + 1, '*') {
                block_close(s, p + 2, depth, BlockState::BlockComment(1))
            } else if s[p] == '{' {
                block_close(s, p + 1, depth + 1, BlockState::Code)
            } else if s[p] == '}' {
                if depth == 0 {
                    Some(p)
                } else {
                    block_close(s, p + 1, (depth - 1) as nat, BlockState::Code)
                }
            } else {
                block_close(s, p + 1, depth, BlockState::Code)
            },
        }
    }
}

/// Where a run of text tokens ends, scanning from `p`, inside a string
/// literal or not, just after a `\` in one or not: at the first `<` or `{`
/// outside string literals, or at the end.
pub open spec fn text_run_end(s: Seq<char>, p: int, in_str: bool, esc: bool) -> int
    decreases s.len() - p,
{
    if p < 0 || p >= s.len() {
        p
    } else if in_str {
        if esc {
            text_run_end(s, p + 1, true, false)
        } else if s[p] == '\\' {
            text_run_end(s, p + 1, true, true)
        } else if s[p] == '"' {
            text_run_end(s, p + 1, false, false)
        } else {
            text_run_end(s, p + 1, true, false)
        }
    } else if s[p] == '<' || s[p] == '{' {
        p
    } else if s[p] == '"' {
        text_run_end(s, p + 1, true, false)
    } else {
        text_run_end(s, p + 1, false, false)
    }
}

/// Where the run of text tokens that starts at `p` ends.
pub open spec fn text_end(s: Seq<char>, p: int) -> int {
    text_run_end(s, p, false, false)
}

/// The text of a run of tokens, written as the tokens are spelled, scanning
/// from `i` with `out` written so far: outside string literals a run of
/// whitespace between two tokens becomes one space and whitespace at either
/// end goes; a string literal is kept as written.
pub open spec fn collapse_from(t: Seq<char>, i: int, in_str: bool, esc: bool, pending: bool, out: Seq<char>) -> Seq<char>
    decreases t.len() - i,
{
    if i < 0 || i >= t.len() {
        out
    } else {
        let c = t[i];
        if in_str {
            if esc {
                collapse_from(t, i + 1, true, false, false, out.push(c))
            } else if c == '\\' {
                collapse_from(t, i + 1, true, true, false, out.push(c))
            } else if c == '"' {
                collapse_from(t, i + 1, false, false, false, out.push(c))
            } else {
                collapse_from(t, i + 1, true, false, false, out.push(c))
            }
        } else if is_ws(c) {
            collapse_from(t, i + 1, false, false, out.len() > 0, out)
        } else {
            let spaced = if pending {
                out.push(' ')
            } else {
                out
            };
            collapse_from(t, i + 1, c == '"', false, false, spaced.push(c))
        }
    }
}

/// The text of a run of tokens.
pub open spec fn collapsed(t: Seq<char>) -> Seq<char> {
    collapse_from(t, 0, false, false, false, Seq::empty())
}

/// Whether `s[p]` exists and is `c`.
pub open spec fn char_at(s: Seq<char>, p: int, c: char) -> bool {
    0 <= p < s.len() && s[p] == c
}

fn is_ws_char(c: char) -> (r: bool)
    ensures
        r == is_ws(c),
{
    c == ' ' || c == '\t' || c == '\n' || c == '\r'
}

/// Relies on `unicode_ident::is_xid_start`: whether the character has the
/// Unicode property XID_Start. On ASCII it answers from its table
/// `ASCII_START`, which holds exactly the letters.
#[verifier::external_body]
fn has_xid_start(c: char) -> (r: bool)
    ensures
        r == xid_start(c),
        c < '\u{80}' ==> (r <==> (('a' <= c && c <= 'z') || ('A' <= c && c <= 'Z'))),
{
    unicode_ident::is_xid_start(c)
}

/// Relies on `unicode_ident::is_xid_continue`: whether the character has
/// the Unicode property XID_Continue. On ASCII it answers from its table
/// `ASCII_CONTINUE`, which holds exactly the letters, the digits and `_`.
#[verifier::external_body]
fn has_xid_continue(c: char) -> (r: bool)
    ensures
        r == xid_continue(c),
        c < '\u{80}' ==> (r <==> (('a' <= c && c <= 'z') || ('A' <= c && c <= 'Z') || ('0' <= c
            && c <= '9') || c == '_')),
{
    unicode_ident::is_xid_continue(c)
}

fn is_word_start_char(c: char) -> (r: bool)
    ensures
        r == is_word_start(c),
{
    c == '_' || has_xid_start(c)
}

fn is_word_char_char(c: char) -> (r: bool)
    ensures
        r == is_word_char(c),
{
    has_xid_continue(c)
}

/// Whether `src[p]` exists and is `c`.
pub(crate) fn has_char(src: &Vec<char>, p: usize, c: char) -> (r: bool)
    ensures
        r == char_at(src@, p as int, c),
        r ==> p < src.len(),
{
    p < src.len() && src[p] == c
}

/// Skips whitespace from `p` on.
pub(crate) fn skip_whitespace(src: &Vec<char>, p: usize) -> (q: usize)
    requires
        p <= src@.len(),
    ensures
        q == skip_ws(src@, p as int),
        p <= q <= src@.len(),
{
    let mut q = p;
    while q < src.len() && is_ws_char(src[q])
        invariant
            p <= q <= src@.len(),
            skip_ws(src@, q as int) == skip_ws(src@, p as int),
        decreases src@.len() - q,
    {
        q = q + 1;
    }
    q
}

/// The end of the run of word characters from `p` on.
fn scan_word_run(src: &Vec<char>, p: usize) -> (q: usize)
    requires
        p <= src@.len(),
    ensures
        q == word_run(src@, p as int),
        p <= q <= src@.len(),
{
    let mut q = p;
    while q < src.len() && is_word_char_char(src[q])
        invariant
            p <= q <= src@.len(),
            word_run(src@, q as int) == word_run(src@, p as int),
        decreases src@.len() - q,
    {
        q = q + 1;
    }
    q
}

/// The word that starts at `p`, if any.
pub(crate) fn scan_word(src: &Vec<char>, p: usize) -> (r: Option<Span>)
    requires
        p <= src@.len(),
    ensures
        r == word_at(src@, p as int),
        r matches Some(w) ==> p <= w.start < w.end <= src@.len(),
{
    if src.len() - p > 2 && src[p] == 'r' && src[p + 1] == '#' && is_word_start_char(src[p + 2]) {
        let end = scan_word_run(src, p + 3);
        Some(Span { start: p + 2, end })
    } else if p < src.len() && is_word_start_char(src[p]) {
        let end = scan_word_run(src, p + 1);
        Some(Span { start: p, end })
    } else {
        None
    }
}

/// The qualified name that starts at `p`, if any.
pub(crate) fn scan_path(src: &Vec<char>, p: usize) -> (r: Option<Span>)
    requires
        p <= src@.len(),
    ensures
        r == path_at(src@, p as int),
        r matches Some(n) ==> p == n.start < n.end <= src@.len(),
{
    match scan_word(src, p) {
        None => None,
        Some(w) => {
            let mut q = w.end;
            while src.len() - q > 2 && src[q] == ':' && src[q + 1] == ':'
                invariant
                    p < q <= src@.len(),
                    w == word_at(src@, p as int)->0,
                    path_end(src@, q as int) == path_end(src@, w.end as int),
                ensures
                    p < q <= src@.len(),
                    path_end(src@, q as int) == q,
                    path_end(src@, q as int) == path_end(src@, w.end as int),
                decreases src@.len() - q,
            {
                match scan_word(src, q + 2) {
                    None => break,
                    Some(next) => {
                        if next.end <= q {
                            break;
                        }
                        q = next.end;
                    },
                }
            }
            Some(Span { start: p, end: q })
        },
    }
}

/// The dashed segments of an attribute key whose first word is `first`,
/// and where the key ends.
pub(crate) fn scan_key(src: &Vec<char>, first: Span) -> (r: (Vec<Span>, usize))
    requires
        first.end <= src@.len(),
    ensures
        r.0@ == seq![first] + key_rest(src@, first.end as int).0,
        r.1 as int == key_rest(src@, first.end as int).1,
        first.end <= r.1 <= src@.len(),
{
    let mut segments: Vec<Span> = Vec::new();
    segments.push(first);
    let mut q = first.end;
    loop
        invariant
            first.end <= q <= src@.len(),
            seq![first] + key_rest(src@, first.end as int).0 == segments@ + key_rest(
                src@,
                q as int,
            ).0,
            key_rest(src@, first.end as int).1 == key_rest(src@, q as int).1,
        ensures
            first.end <= q <= src@.len(),
            key_rest(src@, q as int).0 == Seq::<Span>::empty(),
            key_rest(src@, q as int).1 == q,
            seq![first] + key_rest(src@, first.end as int).0 == segments@,
            key_rest(src@, first.end as int).1 == q,
        decreases src@.len() - q,
    {
        if q >= src.len() || src[q] != '-' {
            assert(segments@ + Seq::<Span>::empty() =~= segments@);
            break;
        }
        match scan_word(src, q + 1) {
            None => {
                assert(segments@ + Seq::<Span>::empty() =~= segments@);
                break;
            },
            Some(w) => {
                proof {
                    let r = key_rest(src@, w.end as int);
                    assert(key_rest(src@, q as int).0 == seq![w] + r.0);
                    assert(segments@ + (seq![w] + r.0) =~= segments@.push(w) + r.0);
                }
                segments.push(w);
                q = w.end;
            },
        }
    }
    (segments, q)
}

/// The number of `#` from `p` on.
fn count_hashes(src: &Vec<char>, p: usize) -> (r: usize)
    requires
        p <= src@.len(),
    ensures
        r as int == hash_run(src@, p as int),
        p + r <= src@.len(),
{
    let mut q = p;
    while q < src.len() && src[q] == '#'
        invariant
            p <= q <= src@.len(),
            hash_run(src@, p as int) == (q - p) + hash_run(src@, q as int),
        decreases src@.len() - q,
    {
        q = q + 1;
    }
    q - p
}

/// Whether `n` characters `#` stand from `p` on.
fn hashes_follow(src: &Vec<char>, p: usize, n: usize) -> (r: bool)
    requires
        p <= src@.len() <= usize::MAX,
    ensures
        r == hashes_at(src@, p as int, n as int),
{
    if n > src.len() - p {
        return false;
    }
    let mut k: usize = 0;
    while k < n
        invariant
            k <= n,
            p + n <= src@.len() <= usize::MAX,
            forall|j: int| 0 <= j < k ==> #[trigger] src@[p + j] == '#',
        decreases n - k,
    {
        if src[p + k] != '#' {
            return false;
        }
        k = k + 1;
    }
    true
}

/// The first `'` at or after `p`.
fn find_quote(src: &Vec<char>, p: usize) -> (r: Option<usize>)
    ensures
        match r {
            Some(i) => next_quote(src@, p as int) == Some(i as int) && p <= i < src@.len(),
            None => next_quote(src@, p as int) is None,
        },
{
    let mut q = p;
    while q < src.len()
        invariant
            p <= q,
            next_quote(src@, q as int) == next_quote(src@, p as int),
        decreases src@.len() - q,
    {
        if src[q] == '\'' {
            return Some(q);
        }
        q = q + 1;
    }
    None
}

/// Whether an `r` at `p` can start a raw string literal.
fn raw_start_allowed(src: &Vec<char>, p: usize) -> (r: bool)
    requires
        p < src@.len(),
    ensures
        r == raw_start_ok(src@, p as int),
{
    if p == 0 {
        return true;
    }
    if !is_word_char_char(src[p - 1]) {
        return true;
    }
    (src[p - 1] == 'b' || src[p - 1] == 'c') && (p == 1 || !is_word_char_char(src[p - 2]))
}

/// Where the brace that closes a braced expression opened before `p` stands.
pub(crate) fn scan_block_close(src: &Vec<char>, p: usize) -> (r: Option<usize>)
    requires
        p <= src@.len() <= usize::MAX,
    ensures
        match r {
            Some(c) => block_close(src@, p as int, 0, BlockState::Code) == Some(c as int),
            None => block_close(src@, p as int, 0, BlockState::Code) is None,
        },
        r matches Some(c) ==> p <= c < src@.len() && src@[c as int] == '}',
{
    let mut q = p;
    let mut depth: usize = 0;
    let mut st = BlockState::Code;
    while q < src.len()
        invariant
            p <= q <= src@.len(),
            depth <= q - p,
            st matches BlockState::BlockComment(k) ==> k <= q - p,
            block_close(src@, q as int, depth as nat, st) == block_close(src@, p as int, 0, BlockState::Code),
        decreases src@.len() - q,
    {
        let c = src[q];
        match st {
            BlockState::Str => {
                if c == '\\' {
                    st = BlockState::StrEscape;
                } else if c == '"' {
                    st = BlockState::Code;
                }
                q = q + 1;
            },
            BlockState::StrEscape => {
                st = BlockState::Str;
                q = q + 1;
            },
            BlockState::RawStr(n) => {
                if c == '"' && hashes_follow(src, q + 1, n) {
                    st = BlockState::Code;
                    q = q + 1 + n;
                } else {
                    q = q + 1;
                }
            },
            BlockState::LineComment => {
                if c == '\n' {
                    st = BlockState::Code;
                }
                q = q + 1;
            },
            BlockState::BlockComment(k) => {
                if c == '*' && has_char(src, q + 1, '/') {
                    if k <= 1 {
                        st = BlockState::Code;
                    } else {
                        st = BlockState::BlockComment(k - 1);
                    }
                    q = q + 2;
                } else if c == '/' && has_char(src, q + 1, '*') {
                    st = BlockState::BlockComment(k + 1);
                    q = q + 2;
                } else {
                    q = q + 1;
                }
            },
            BlockState::Code => {
                if c == '"' {
                    st = BlockState::Str;
                    q = q + 1;
                } else if c == 'r' && raw_start_allowed(src, q) && has_char(
                    src,
                    q + 1 + count_hashes(src, q + 1),
                    '"',
                ) {
                    let n = count_hashes(src, q + 1);
                    st = BlockState::RawStr(n);
                    q = q + 2 + n;
                } else if c == '\'' && has_char(src, q + 1, '\\') && src.len() - q >= 3 && find_quote(
                    src,
                    q + 3,
                ).is_some() {
                    let i = find_quote(src, q + 3).unwrap();
                    q = i + 1;
                } else if c == '\'' && src.len() - q > 2 && src[q + 2] == '\'' {
                    q = q + 3;
                } else if c == '/' && has_char(src, q + 1, '/') {
                    st = BlockState::LineComment;
                    q = q + 2;
                } else if c == '/' && has_char(src, q + 1, '*') {
                    st = BlockState::BlockComment(1);
                    q = q + 2;
                } else if c == '{' {
                    depth = depth + 1;
                    q = q + 1;
                } else if c == '}' {
                    if depth == 0 {
                        return Some(q);
                    }
                    depth = depth - 1;
                    q = q + 1;
                } else {
                    q = q + 1;
                }
            },
        }
    }
    None
}

/// The end of the text run that starts at `p`.
pub(crate) fn scan_text(src: &Vec<char>, p: usize) -> (q: usize)
    requires
        p <= src@.len(),
    ensures
        q == text_end(src@, p as int),
        p <= q <= src@.len(),
{
    let mut q = p;
    let mut in_str = false;
    let mut esc = false;
    while q < src.len()
        invariant
            p <= q <= src@.len(),
            text_run_end(src@, q as int, in_str, esc) == text_end(src@, p as int),
            !in_str ==> !esc,
        decreases src@.len() - q,
    {
        let c = src[q];
        if in_str {
            if esc {
                esc = false;
            } else if c == '\\' {
                esc = true;
            } else if c == '"' {
                in_str = false;
            }
        } else if c == '<' || c == '{' {
            return q;
        } else if c == '"' {
            in_str = true;
        }
        q = q + 1;
    }
    q
}

/// The text of the run in `span`, as `collapsed` gives it.
pub fn collapse_text(src: &Vec<char>, span: Span) -> (r: String)
    requires
        span_in(src@, span),
    ensures
        r@ == collapsed(text_of(src@, span)),
{
    let ghost t = text_of(src@, span);
    let mut out = String::new();
    let mut in_str = false;
    let mut esc = false;
    let mut pending = false;
    let mut started = false;
    let mut i = span.start;
    while i < span.end
        invariant
            span.start <= i <= span.end <= src@.len(),
            t == text_of(src@, span),
            collapse_from(t, i - span.start, in_str, esc, pending, out@) == collapsed(t),
            !in_str ==> !esc,
            started == (out@.len() > 0),
        decreases span.end - i,
    {
        let c = src[i];
        assert(t[i - span.start] == c);
        if in_str {
            out.push(c);
            if esc {
                esc = false;
            } else if c == '\\' {
                esc = true;
            } else if c == '"' {
                in_str = false;
            }
            pending = false;
            started = true;
        } else if c == ' ' || c == '\t' || c == '\n' || c == '\r' {
            pending = started;
        } else {
            if pending {
                out.push(' ');
            }
            out.push(c);
            in_str = c == '"';
            pending = false;
            started = true;
        }
        i = i + 1;
    }
    out
}

/// Whether two spans of `src` hold the same text.
pub(crate) fn same_text(src: &Vec<char>, a: Span, b: Span) -> (r: bool)
    requires
        span_in(src@, a),
        span_in(src@, b),
    ensures
        r == (text_of(src@, a) == text_of(src@, b)),
{
    if a.end - a.start != b.end - b.start {
        assert(text_of(src@, a).len() != text_of(src@, b).len());
        return false;
    }
    let n = a.end - a.start;
    let mut i: usize = 0;
    while i < n
        invariant
            i <= n,
            n == a.end - a.start,
            n == b.end - b.start,
            span_in(src@, a),
            span_in(src@, b),
            forall|j: int| 0 <= j < i ==> #[trigger] text_of(src@, a)[j] == text_of(src@, b)[j],
        decreases n - i,
    {
        if src[a.start + i] != src[b.start + i] {
            assert(text_of(src@, a)[i as int] != text_of(src@, b)[i as int]);
            return false;
        }
        i = i + 1;
    }
    assert(text_of(src@, a) =~= text_of(src@, b));
    true
}

/// A text run ends at or after where it starts, and within `s`.
pub proof fn lemma_text_end_bounds(s: Seq<char>, p: int, in_str: bool, esc: bool)
    requires
        0 <= p <= s.len(),
    ensures
        p <= text_run_end(s, p, in_str, esc) <= s.len(),
    decreases s.len() - p,
{
    if p < s.len() {
        lemma_text_end_bounds(s, p + 1, true, false);
        lemma_text_end_bounds(s, p + 1, true, true);
        lemma_text_end_bounds(s, p + 1, false, false);
    }
}

/// The characters that a span of `src` covers, as a `String`.
pub fn span_string(src: &Vec<char>, span: Span) -> (r: String)
    requires
        span_in(src@, span),
    ensures
        r@ == text_of(src@, span),
{
    let mut out = String::new();
    let mut i = span.start;
    while i < span.end
        invariant
            span.start <= i <= span.end <= src@.len(),
            out@ == src@.subrange(span.start as int, i as int),
        decreases span.end - i,
    {
        out.push(src[i]);
        proof {
            assert(src@.subrange(span.start as int, i + 1) =~= src@.subrange(span.start as int, i as int).push(src@[i as int]));
        }
        i = i + 1;
    }
    out
}

/// Whether `text` parses as a Rust block: braces around statements and an
/// optional final expression.
pub uninterp spec fn is_rust_block(text: Seq<char>) -> bool;

/// Relies on syn's `parse_str::<syn::Block>`, which parses the whole text
/// as a Rust block and fails on anything else; the answer depends on the
/// text alone.
#[verifier::external_body]
fn parses_as_block(text: &str) -> (r: bool)
    ensures
        r == is_rust_block(text@),
{
    syn::parse_str::<syn::Block>(text).is_ok()
}

/// Whether the characters of `src` in `span` parse as a Rust block.
pub(crate) fn span_is_block(src: &Vec<char>, span: Span) -> (r: bool)
    requires
        span_in(src@, span),
    ensures
        r == is_rust_block(text_of(src@, span)),
{
    let text = span_string(src, span);
    parses_as_block(text.as_str())
}

} // verus!
