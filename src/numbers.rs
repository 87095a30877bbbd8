//! Render impls for the integer primitives: their base-10 form, which needs
//! no escaping.
use crate::render::Render;
use vstd::prelude::*;

verus! {

/// The ASCII digit for `d`, where `d < 10`.
pub open spec fn digit_char(d: nat) -> char {
    ((d + 48) as u8) as char
}

/// The base-10 digits of `n`, most significant first, with no leading zero.
pub open spec fn decimal(n: nat) -> Seq<char>
    decreases n,
{
    if n < 10 {
        seq![digit_char(n)]
    } else {
        decimal(n / 10).push(digit_char(n % 10))
    }
}

/// The canonical base-10 form of `n`: a `-` before the digits of a negative.
pub open spec fn decimal_int(n: int) -> Seq<char> {
    if n < 0 {
        seq!['-'] + decimal((-n) as nat)
    } else {
        decimal(n as nat)
    }
}

/// Appends the base-10 digits of `n` to `writer`.
fn push_decimal(n: u128, writer: &mut String)
    ensures
        final(writer)@ == old(writer)@ + decimal(n as nat),
    decreases n,
{
    if n >= 10 {
        push_decimal(n / 10, writer);
    }
    let d: u8 = (n % 10) as u8;
    writer.push((d + 48u8) as char);
    assert(writer@ =~= old(writer)@ + decimal(n as nat));
}

/// Appends the canonical base-10 form of `n` to `writer`.
fn push_signed(n: i128, writer: &mut String)
    ensures
        final(writer)@ == old(writer)@ + decimal_int(n as int),
{
    if n < 0 {
        writer.push('-');
        let m: u128 = ((-(n + 1)) as u128) + 1;
        push_decimal(m, writer);
        assert(writer@ =~= old(writer)@ + decimal_int(n as int));
    } else {
        push_decimal(n as u128, writer);
    }
}

impl Render for u8 {
    open spec fn rendered(&self) -> Seq<char> {
        decimal(*self as nat)
    }

    fn render_into(&self, writer: &mut String) {
        let n: u128 = *self as u128;
        assert(n as nat == *self as nat);
        push_decimal(n, writer);
    }
}

impl Render for u16 {
    open spec fn rendered(&self) -> Seq<char> {
        decimal(*self as nat)
    }

    fn render_into(&self, writer: &mut String) {
        let n: u128 = *self as u128;
        assert(n as nat == *self as nat);
        push_decimal(n, writer);
    }
}

impl Render for u32 {
    open spec fn rendered(&self) -> Seq<char> {
        decimal(*self as nat)
    }

    fn render_into(&self, writer: &mut String) {
        let n: u128 = *self as u128;
        assert(n as nat == *self as nat);
        push_decimal(n, writer);
    }
}

impl Render for u64 {
    open spec fn rendered(&self) -> Seq<char> {
        decimal(*self as nat)
    }

    fn render_into(&self, writer: &mut String) {
        let n: u128 = *self as u128;
        assert(n as nat == *self as nat);
        push_decimal(n, writer);
    }
}

impl Render for u128 {
    open spec fn rendered(&self) -> Seq<char> {
        decimal(*self as nat)
    }

    fn render_into(&self, writer: &mut String) {
        let n: u128 = *self as u128;
        assert(n as nat == *self as nat);
        push_decimal(n, writer);
    }
}

impl Render for usize {
    open spec fn rendered(&self) -> Seq<char> {
        decimal(*self as nat)
    }

    fn render_into(&self, writer: &mut String) {
        let n: u128 = *self as u128;
        assert(n as nat == *self as nat);
        push_decimal(n, writer);
    }
}

impl Render for i8 {
    open spec fn rendered(&self) -> Seq<char> {
        decimal_int(*self as int)
    }

    fn render_into(&self, writer: &mut String) {
        let n: i128 = *self as i128;
        assert(n as int == *self as int);
        push_signed(n, writer);
        assert(writer@ == old(writer)@ + decimal_int(*self as int));
        assert(writer@ == old(writer)@ + self.rendered());
    }
}

impl Render for i16 {
    open spec fn rendered(&self) -> Seq<char> {
        decimal_int(*self as int)
    }

    fn render_into(&self, writer: &mut String) {
        let n: i128 = *self as i128;
        assert(n as int == *self as int);
        push_signed(n, writer);
        assert(writer@ == old(writer)@ + decimal_int(*self as int));
        assert(writer@ == old(writer)@ + self.rendered());
    }
}

impl Render for i32 {
    open spec fn rendered(&self) -> Seq<char> {
        decimal_int(*self as int)
    }

    fn render_into(&self, writer: &mut String) {
        let n: i128 = *self as i128;
        assert(n as int == *self as int);
        push_signed(n, writer);
        assert(writer@ == old(writer)@ + decimal_int(*self as int));
        assert(writer@ == old(writer)@ + self.rendered());
    }
}

impl Render for i64 {
    open spec fn rendered(&self) -> Seq<char> {
        decimal_int(*self as int)
    }

    fn render_into(&self, writer: &mut String) {
        let n: i128 = *self as i128;
        assert(n as int == *self as int);
        push_signed(n, writer);
        assert(writer@ == old(writer)@ + decimal_int(*self as int));
        assert(writer@ == old(writer)@ + self.rendered());
    }
}

impl Render for i128 {
    open spec fn rendered(&self) -> Seq<char> {
        decimal_int(*self as int)
    }

    fn render_into(&self, writer: &mut String) {
        let n: i128 = *self as i128;
        assert(n as int == *self as int);
        push_signed(n, writer);
        assert(writer@ == old(writer)@ + decimal_int(*self as int));
        assert(writer@ == old(writer)@ + self.rendered());
    }
}

impl Render for isize {
    open spec fn rendered(&self) -> Seq<char> {
        decimal_int(*self as int)
    }

    fn render_into(&self, writer: &mut String) {
        let n: i128 = *self as i128;
        assert(n as int == *self as int);
        push_signed(n, writer);
        assert(writer@ == old(writer)@ + decimal_int(*self as int));
        assert(writer@ == old(writer)@ + self.rendered());
    }
}

} // verus!
