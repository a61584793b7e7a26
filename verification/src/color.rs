//! RGBA colors, the unit of every pixel write.

use vstd::prelude::*;

verus! {

use vstd::arithmetic::div_mod::{lemma_div_denominator, lemma_small_mod, lemma_mod_bound};

/// One RGBA color; each channel is an 8-bit intensity.
#[derive(Clone, Copy, PartialEq, Eq, Structural, Debug)]
pub struct RgbColor {
    pub red: u8,
    pub green: u8,
    pub blue: u8,
    pub alpha: u8,
}

impl RgbColor {
    /// An opaque color from its three channels.
    pub fn rgb(red: u8, green: u8, blue: u8) -> (c: RgbColor)
        ensures
            c == (RgbColor { red, green, blue, alpha: 255 }),
    {
        RgbColor { red, green, blue, alpha: 255 }
    }

    /// A color from all four channels, as laid out in a texture byte stream.
    pub fn rgba(red: u8, green: u8, blue: u8, alpha: u8) -> (c: RgbColor)
        ensures
            c == (RgbColor { red, green, blue, alpha }),
    {
        RgbColor { red, green, blue, alpha }
    }
}

/// The character of one decimal digit.
pub open spec fn spec_digit(d: int) -> char {
    if d == 0 {
        '0'
    } else if d == 1 {
        '1'
    } else if d == 2 {
        '2'
    } else if d == 3 {
        '3'
    } else if d == 4 {
        '4'
    } else if d == 5 {
        '5'
    } else if d == 6 {
        '6'
    } else if d == 7 {
        '7'
    } else if d == 8 {
        '8'
    } else {
        '9'
    }
}

/// The decimal digits of a nonnegative value, most significant first.
pub open spec fn spec_decimal(n: int) -> Seq<char>
    decreases n,
{
    if n < 10 {
        seq![spec_digit(n)]
    } else {
        spec_decimal(n / 10) + seq![spec_digit(n % 10)]
    }
}

/// The textual form of a color, as a CSS-style function of its four
/// channels in decimal.
pub open spec fn spec_color_text(c: RgbColor) -> Seq<char> {
    "rgb("@ + spec_decimal(c.red as int) + ","@ + spec_decimal(c.green as int) + ","@
        + spec_decimal(c.blue as int) + ","@ + spec_decimal(c.alpha as int) + ")"@
}

/// One decimal digit as text.
fn digit_str(d: u8) -> (s: &'static str)
    requires
        d < 10,
    ensures
        s@ == seq![spec_digit(d as int)],
{
    proof {
        reveal_strlit("0");
        reveal_strlit("1");
        reveal_strlit("2");
        reveal_strlit("3");
        reveal_strlit("4");
        reveal_strlit("5");
        reveal_strlit("6");
        reveal_strlit("7");
        reveal_strlit("8");
        reveal_strlit("9");
    }
    let s: &'static str = match d {
        0 => "0",
        1 => "1",
        2 => "2",
        3 => "3",
        4 => "4",
        5 => "5",
        6 => "6",
        7 => "7",
        8 => "8",
        _ => "9",
    };
    proof {
        assert(s@ =~= seq![spec_digit(d as int)]);
    }
    s
}

/// Appends a byte value's decimal digits.
fn push_decimal(out: &mut String, n: u8)
    ensures
        final(out)@ == old(out)@ + spec_decimal(n as int),
{
    let ghost base = out@;
    let d2 = n / 100;
    let d1 = (n / 10) % 10;
    let d0 = n % 10;
    proof {
        lemma_div_denominator(n as int, 10, 10);
        lemma_mod_bound(n as int / 10, 10);
        lemma_mod_bound(n as int, 10);
        if n < 100 {
            lemma_small_mod((n as int / 10) as nat, 10);
        }
    }
    if n >= 100 {
        out.append(digit_str(d2));
    }
    if n >= 10 {
        out.append(digit_str(d1));
    }
    out.append(digit_str(d0));
    proof {
        if n >= 100 {
            assert(spec_decimal(n as int) == spec_decimal(n as int / 10) + seq![
                spec_digit(n as int % 10),
            ]);
            assert(spec_decimal(n as int / 10) == spec_decimal(n as int / 10 / 10) + seq![
                spec_digit((n as int / 10) % 10),
            ]);
            assert(spec_decimal(n as int / 10 / 10) == seq![spec_digit(n as int / 10 / 10)]);
            assert(out@ =~= base + spec_decimal(n as int));
        } else if n >= 10 {
            assert(spec_decimal(n as int) == spec_decimal(n as int / 10) + seq![
                spec_digit(n as int % 10),
            ]);
            assert(spec_decimal(n as int / 10) == seq![spec_digit(n as int / 10)]);
            assert(out@ =~= base + spec_decimal(n as int));
        } else {
            assert(out@ =~= base + spec_decimal(n as int));
        }
    }
}

impl RgbColor {
    /// The color as CSS-style text, for a host's line-drawing interface.
    pub fn to_string(&self) -> (s: String)
        ensures
            s@ == spec_color_text(*self),
    {
        let mut out = String::new();
        out.append("rgb(");
        push_decimal(&mut out, self.red);
        out.append(",");
        push_decimal(&mut out, self.green);
        out.append(",");
        push_decimal(&mut out, self.blue);
        out.append(",");
        push_decimal(&mut out, self.alpha);
        out.append(")");
        proof {
            assert(out@ =~= spec_color_text(*self));
        }
        out
    }
}

} // verus!
