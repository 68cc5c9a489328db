//! Decimal numbers and padded columns, as text.

use vstd::prelude::*;
use vstd::string::*;

verus! {

/// The character of the decimal digit `d`, for `0 <= d <= 9`.
pub open spec fn digit(d: int) -> char {
    if d == 0 {
        '0'
    } else if d == 1 {
        '1'
    } else if d == 2 {
        '2'
    } else if d == 3 {
        '3'
    } else if d == 4 {
        '4'
    } else if d == 5 {
        '5'
    } else if d == 6 {
        '6'
    } else if d == 7 {
        '7'
    } else if d == 8 {
        '8'
    } else {
        '9'
    }
}

/// The decimal numeral of `n`: its digits from the most significant one, with no
/// leading zero but for `0` itself.
pub open spec fn decimal(n: nat) -> Seq<char>
    decreases n,
{
    if n < 10 {
        seq![digit(n as int)]
    } else {
        decimal(n / 10).push(digit((n % 10) as int))
    }
}

/// `text` in a column at least `width` wide: shorter text is moved to the right
/// edge and the room before it filled with `fill`; longer text is kept whole.
pub open spec fn padded(text: Seq<char>, width: nat, fill: char) -> Seq<char> {
    if text.len() >= width {
        text
    } else {
        Seq::new((width - text.len()) as nat, |i: int| fill) + text
    }
}

/// The one-character text of the decimal digit `d`.
fn digit_text(d: usize) -> (text: &'static str)
    requires
        d < 10,
    ensures
        text@ == seq![digit(d as int)],
{
    proof {
        reveal_strlit("0");
        reveal_strlit("1");
        reveal_strlit("2");
        reveal_strlit("3");
        reveal_strlit("4");
        reveal_strlit("5");
        reveal_strlit("6");
        reveal_strlit("7");
        reveal_strlit("8");
        reveal_strlit("9");
    }
    let text = if d == 0 {
        "0"
    } else if d == 1 {
        "1"
    } else if d == 2 {
        "2"
    } else if d == 3 {
        "3"
    } else if d == 4 {
        "4"
    } else if d == 5 {
        "5"
    } else if d == 6 {
        "6"
    } else if d == 7 {
        "7"
    } else if d == 8 {
        "8"
    } else {
        "9"
    };
    assert(text@ =~= seq![digit(d as int)]);
    text
}

/// The number of digits of the decimal numeral of `n`.
pub fn decimal_width(n: usize) -> (width: usize)
    ensures
        width == decimal(n as nat).len(),
{
    let mut rest: usize = n;
    let mut width: usize = 1;
    while rest >= 10
        invariant
            1 <= width,
            width + rest <= n + 1,
            decimal(n as nat).len() == decimal(rest as nat).len() + width - 1,
        decreases rest,
    {
        rest = rest / 10;
        width += 1;
    }
    width
}

/// Appends the decimal numeral of `n` to `out`.
pub fn push_decimal(out: &mut String, n: usize)
    ensures
        final(out)@ == old(out)@ + decimal(n as nat),
    decreases n,
{
    if n >= 10 {
        push_decimal(out, n / 10);
        out.append(digit_text(n % 10));
        assert(out@ =~= old(out)@ + decimal(n as nat));
    } else {
        out.append(digit_text(n));
        assert(out@ =~= old(out)@ + decimal(n as nat));
    }
}

/// The character that fills the room before a text that is shorter than its
/// column.
#[derive(Debug, Clone, Copy, PartialEq, Eq, Structural)]
pub enum Fill {
    Space,
    Zero,
}

impl Fill {
    /// The character itself.
    pub open spec fn character(self) -> char {
        match self {
            Fill::Space => ' ',
            Fill::Zero => '0',
        }
    }

    /// The character as a text.
    fn text(self) -> (text: &'static str)
        ensures
            text@ == seq![self.character()],
    {
        proof {
            reveal_strlit(" ");
            reveal_strlit("0");
        }
        let text = match self {
            Fill::Space => " ",
            Fill::Zero => "0",
        };
        assert(text@ =~= seq![self.character()]);
        text
    }
}

/// Appends `count` copies of the character `fill` to `out`.
pub fn push_fill(out: &mut String, count: usize, fill: Fill)
    ensures
        final(out)@ == old(out)@ + Seq::new(count as nat, |i: int| fill.character()),
{
    let mut done: usize = 0;
    assert(out@ =~= old(out)@ + Seq::new(0, |i: int| fill.character()));
    while done < count
        invariant
            done <= count,
            out@ == old(out)@ + Seq::new(done as nat, |i: int| fill.character()),
        decreases count - done,
    {
        out.append(fill.text());
        done += 1;
        assert(out@ =~= old(out)@ + Seq::new(done as nat, |i: int| fill.character()));
    }
}

/// Appends `text` to `out` in a column of `width` characters, filled on the left
/// with `fill`.
pub fn push_padded(out: &mut String, text: &str, width: usize, fill: Fill)
    ensures
        final(out)@ == old(out)@ + padded(text@, width as nat, fill.character()),
{
    let length = text.unicode_len();
    if length < width {
        push_fill(out, width - length, fill);
    }
    out.append(text);
    assert(out@ =~= old(out)@ + padded(text@, width as nat, fill.character()));
}

/// Appends the decimal numeral of `n` to `out` in a column of `width` characters,
/// filled on the left with `fill`.
pub fn push_number(out: &mut String, n: usize, width: usize, fill: Fill)
    ensures
        final(out)@ == old(out)@ + padded(decimal(n as nat), width as nat, fill.character()),
{
    let length = decimal_width(n);
    if length < width {
        push_fill(out, width - length, fill);
    }
    push_decimal(out, n);
    assert(out@ =~= old(out)@ + padded(decimal(n as nat), width as nat, fill.character()));
}

} // verus!
