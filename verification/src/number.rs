//! Numbers as the applet shows them: a reading rounded to whole units or to
//! tenths, written in decimal.

use vstd::prelude::*;
use vstd::string::*;

verus! {

/// The decimal digit for `d < 10`.
pub open spec fn spec_digit(d: nat) -> char {
    if d == 0 {
        '0'
    } else if d == 1 {
        '1'
    } else if d == 2 {
        '2'
    } else if d == 3 {
        '3'
    } else if d == 4 {
        '4'
    } else if d == 5 {
        '5'
    } else if d == 6 {
        '6'
    } else if d == 7 {
        '7'
    } else if d == 8 {
        '8'
    } else {
        '9'
    }
}

/// The decimal digits of `n`, most significant first, with no leading zero
/// ("0" for zero).
pub open spec fn spec_decimal(n: nat) -> Seq<char>
    decreases n,
{
    if n < 10 {
        seq![spec_digit(n)]
    } else {
        spec_decimal(n / 10).push(spec_digit(n % 10))
    }
}

fn digit(d: u128) -> (c: char)
    requires
        d < 10,
    ensures
        c == spec_digit(d as nat),
{
    if d == 0 {
        '0'
    } else if d == 1 {
        '1'
    } else if d == 2 {
        '2'
    } else if d == 3 {
        '3'
    } else if d == 4 {
        '4'
    } else if d == 5 {
        '5'
    } else if d == 6 {
        '6'
    } else if d == 7 {
        '7'
    } else if d == 8 {
        '8'
    } else {
        '9'
    }
}

/// Appends the decimal digits of `n` to `out`.
pub fn push_decimal(out: &mut String, n: u128)
    ensures
        final(out)@ == old(out)@ + spec_decimal(n as nat),
    decreases n,
{
    if n >= 10 {
        push_decimal(out, n / 10);
    }
    out.push(digit(n % 10));
}

/// A reading rounded to a whole number, as the format `{:.0}` shows an `f32`:
/// the sign (kept for a negative value that rounds to zero) and the rounded
/// magnitude, or one of the two values that are not numbers.
#[derive(Clone, Copy, Debug, PartialEq, Eq, Structural)]
pub enum Rounded {
    Number { negative: bool, whole: u128 },
    NotANumber,
    Infinite { negative: bool },
}

/// A reading rounded to tenths, as the format `{:.1}` shows an `f32`: the
/// sign and the rounded magnitude counted in tenths, or one of the two
/// values that are not numbers.
#[derive(Clone, Copy, Debug, PartialEq, Eq, Structural)]
pub enum RoundedTenths {
    Number { negative: bool, tenths: u128 },
    NotANumber,
    Infinite { negative: bool },
}

pub open spec fn spec_sign(negative: bool) -> Seq<char> {
    if negative {
        "-"@
    } else {
        Seq::empty()
    }
}

/// The text of a reading rounded to whole units.
pub open spec fn spec_show_whole(r: Rounded) -> Seq<char> {
    match r {
        Rounded::Number { negative, whole } => spec_sign(negative) + spec_decimal(whole as nat),
        Rounded::NotANumber => "NaN"@,
        Rounded::Infinite { negative } => spec_sign(negative) + "inf"@,
    }
}

/// The text of a reading rounded to tenths.
pub open spec fn spec_show_tenths(r: RoundedTenths) -> Seq<char> {
    match r {
        RoundedTenths::Number { negative, tenths } => spec_sign(negative) + spec_decimal(
            (tenths / 10) as nat,
        ) + "."@ + seq![spec_digit((tenths % 10) as nat)],
        RoundedTenths::NotANumber => "NaN"@,
        RoundedTenths::Infinite { negative } => spec_sign(negative) + "inf"@,
    }
}

fn push_sign(out: &mut String, negative: bool)
    ensures
        final(out)@ == old(out)@ + spec_sign(negative),
{
    if negative {
        out.append("-");
    } else {
        assert(old(out)@ + spec_sign(negative) =~= old(out)@);
    }
}

/// Appends the text of `r` to `out`.
pub fn push_whole(out: &mut String, r: Rounded)
    ensures
        final(out)@ == old(out)@ + spec_show_whole(r),
{
    match r {
        Rounded::Number { negative, whole } => {
            push_sign(out, negative);
            push_decimal(out, whole);
            assert(out@ =~= old(out)@ + spec_show_whole(r));
        },
        Rounded::NotANumber => {
            out.append("NaN");
        },
        Rounded::Infinite { negative } => {
            push_sign(out, negative);
            out.append("inf");
            assert(out@ =~= old(out)@ + spec_show_whole(r));
        },
    }
}

/// Appends the text of `r` to `out`.
pub fn push_tenths(out: &mut String, r: RoundedTenths)
    ensures
        final(out)@ == old(out)@ + spec_show_tenths(r),
{
    match r {
        RoundedTenths::Number { negative, tenths } => {
            push_sign(out, negative);
            push_decimal(out, tenths / 10);
            out.append(".");
            out.push(digit(tenths % 10));
            assert(out@ =~= old(out)@ + spec_show_tenths(r));
        },
        RoundedTenths::NotANumber => {
            out.append("NaN");
        },
        RoundedTenths::Infinite { negative } => {
            push_sign(out, negative);
            out.append("inf");
            assert(out@ =~= old(out)@ + spec_show_tenths(r));
        },
    }
}

/// The text of a reading rounded to whole units (`format!("{:.0}", x)`).
pub fn show_whole(r: Rounded) -> (s: String)
    ensures
        s@ == spec_show_whole(r),
{
    let mut s = String::new();
    push_whole(&mut s, r);
    assert(s@ =~= spec_show_whole(r));
    s
}

/// The text of a reading rounded to tenths (`format!("{:.1}", x)`).
pub fn show_tenths(r: RoundedTenths) -> (s: String)
    ensures
        s@ == spec_show_tenths(r),
{
    let mut s = String::new();
    push_tenths(&mut s, r);
    assert(s@ =~= spec_show_tenths(r));
    s
}

/// `s` right-aligned in a field of `width` characters, as the formats
/// `{:>w}` (and `{:w}` for numbers) pad it: spaces in front when it is
/// shorter than the field.
pub open spec fn spec_pad_left(s: Seq<char>, width: nat) -> Seq<char> {
    if s.len() >= width {
        s
    } else {
        Seq::new((width - s.len()) as nat, |i: int| ' ') + s
    }
}

/// Appends `s` right-aligned in a field of `width` characters.
pub fn push_padded(out: &mut String, s: &String, width: usize)
    ensures
        final(out)@ == old(out)@ + spec_pad_left(s@, width as nat),
{
    let len = s.as_str().unicode_len();
    let mut k: usize = len;
    while k < width
        invariant
            len == s@.len(),
            len <= k,
            len < width ==> k <= width,
            len >= width ==> k == len,
            out@ == old(out)@ + Seq::new((k - len) as nat, |i: int| ' '),
        decreases width - k,
    {
        out.push(' ');
        k = k + 1;
        assert(out@ =~= old(out)@ + Seq::new((k - len) as nat, |i: int| ' '));
    }
    out.append(s.as_str());
    if len >= width {
        assert(out@ =~= old(out)@ + spec_pad_left(s@, width as nat));
    } else {
        assert(Seq::new((k - len) as nat, |i: int| ' ') =~= Seq::new(
            (width - s@.len()) as nat,
            |i: int| ' ',
        ));
        assert(out@ =~= old(out)@ + spec_pad_left(s@, width as nat));
    }
}

/// The value of a decimal digit character (meaningful for `'0'..='9'`).
pub open spec fn spec_digit_value(c: char) -> nat {
    if c == '1' {
        1
    } else if c == '2' {
        2
    } else if c == '3' {
        3
    } else if c == '4' {
        4
    } else if c == '5' {
        5
    } else if c == '6' {
        6
    } else if c == '7' {
        7
    } else if c == '8' {
        8
    } else if c == '9' {
        9
    } else {
        0
    }
}

/// The number a string of decimal digits spells.
pub open spec fn spec_decimal_value(s: Seq<char>) -> nat
    decreases s.len(),
{
    if s.len() == 0 {
        0
    } else {
        spec_decimal_value(s.drop_last()) * 10 + spec_digit_value(s.last())
    }
}

/// A character `'0'` to `'9'`.
pub open spec fn is_digit_char(c: char) -> bool {
    c == '0' || c == '1' || c == '2' || c == '3' || c == '4' || c == '5' || c == '6' || c == '7'
        || c == '8' || c == '9'
}

/// The decimal text of a number is made of digits, starts with `0` only for
/// zero itself, and reads back as the number.
pub proof fn law_decimal(n: nat)
    ensures
        spec_decimal(n).len() > 0,
        forall|i: int| 0 <= i < spec_decimal(n).len() ==> is_digit_char(#[trigger] spec_decimal(n)[i]),
        spec_decimal(n)[0] == '0' ==> n == 0,
        spec_decimal_value(spec_decimal(n)) == n,
    decreases n,
{
    if n >= 10 {
        law_decimal(n / 10);
        let d = spec_decimal(n / 10);
        assert(spec_decimal(n) == d.push(spec_digit(n % 10)));
        assert(spec_decimal(n).drop_last() =~= d);
        assert(spec_digit_value(spec_digit(n % 10)) == n % 10);
        assert(spec_decimal(n)[0] == d[0]);
        assert(spec_decimal_value(spec_decimal(n)) == spec_decimal_value(d) * 10 + n % 10);
        assert((n / 10) * 10 + n % 10 == n);
        assert forall|i: int| 0 <= i < spec_decimal(n).len() implies is_digit_char(
            #[trigger] spec_decimal(n)[i],
        ) by {
            if i < d.len() {
                assert(spec_decimal(n)[i] == d[i]);
            }
        }
    } else {
        assert(seq![spec_digit(n)].drop_last() =~= Seq::<char>::empty());
        assert(spec_digit_value(spec_digit(n)) == n);
        assert(spec_decimal_value(spec_decimal(n)) == spec_decimal_value(Seq::<char>::empty()) * 10
            + spec_digit_value(spec_digit(n)));
    }
}

/// Padding right-aligns: the result is as wide as the field, or as the text
/// when the text is wider, it ends with the text, and what comes before the
/// text is spaces.
pub proof fn law_pad_left(s: Seq<char>, width: nat)
    ensures
        spec_pad_left(s, width).len() == if s.len() >= width {
            s.len()
        } else {
            width
        },
        spec_pad_left(s, width).skip(spec_pad_left(s, width).len() - s.len()) == s,
        forall|i: int|
            0 <= i < spec_pad_left(s, width).len() - s.len() ==> #[trigger] spec_pad_left(
                s,
                width,
            )[i] == ' ',
{
    let p = spec_pad_left(s, width);
    assert(p.skip(p.len() - s.len()) =~= s);
}

/// A whole reading is written as `-` when negative, then digits that read
/// back as its magnitude; the values that are not numbers are written `NaN`,
/// `inf` and `-inf`.
pub proof fn law_show_whole(r: Rounded)
    ensures
        r matches Rounded::Number { negative, whole } ==> ({
            let text = spec_show_whole(r);
            let sign: int = if negative { 1 } else { 0 };
            let digits = text.skip(sign);
            &&& negative ==> text.len() > 0 && text[0] == '-'
            &&& digits.len() > 0
            &&& forall|i: int| 0 <= i < digits.len() ==> is_digit_char(#[trigger] digits[i])
            &&& spec_decimal_value(digits) == whole
        }),
        r is NotANumber ==> spec_show_whole(r) == seq!['N', 'a', 'N'],
        r matches Rounded::Infinite { negative } ==> spec_show_whole(r) == if negative {
            seq!['-', 'i', 'n', 'f']
        } else {
            seq!['i', 'n', 'f']
        },
{
    reveal_strlit("-");
    reveal_strlit("NaN");
    reveal_strlit("inf");
    assert("-"@ =~= seq!['-']);
    assert("NaN"@ =~= seq!['N', 'a', 'N']);
    assert("inf"@ =~= seq!['i', 'n', 'f']);
    match r {
        Rounded::Number { negative, whole } => {
            law_decimal(whole as nat);
            let text = spec_show_whole(r);
            let sign: int = if negative { 1 } else { 0 };
            assert(text.skip(sign) =~= spec_decimal(whole as nat));
        },
        Rounded::Infinite { negative } => {
            assert(spec_show_whole(r) =~= if negative {
                seq!['-', 'i', 'n', 'f']
            } else {
                seq!['i', 'n', 'f']
            });
        },
        _ => {},
    }
}

/// A reading to tenths is written as `-` when negative, then digits, a
/// point and one digit, which together read back as its magnitude in tenths.
pub proof fn law_show_tenths(r: RoundedTenths)
    ensures
        r matches RoundedTenths::Number { negative, tenths } ==> ({
            let text = spec_show_tenths(r);
            let sign: int = if negative { 1 } else { 0 };
            let body = text.skip(sign);
            let whole = body.take(body.len() - 2);
            &&& negative ==> text.len() > 0 && text[0] == '-'
            &&& body.len() >= 3
            &&& body[body.len() - 2] == '.'
            &&& is_digit_char(body.last())
            &&& forall|i: int| 0 <= i < whole.len() ==> is_digit_char(#[trigger] whole[i])
            &&& spec_decimal_value(whole) * 10 + spec_digit_value(body.last()) == tenths
        }),
        r is NotANumber ==> spec_show_tenths(r) == seq!['N', 'a', 'N'],
        r matches RoundedTenths::Infinite { negative } ==> spec_show_tenths(r) == if negative {
            seq!['-', 'i', 'n', 'f']
        } else {
            seq!['i', 'n', 'f']
        },
{
    reveal_strlit("-");
    reveal_strlit(".");
    reveal_strlit("NaN");
    reveal_strlit("inf");
    assert("-"@ =~= seq!['-']);
    assert("."@ =~= seq!['.']);
    assert("NaN"@ =~= seq!['N', 'a', 'N']);
    assert("inf"@ =~= seq!['i', 'n', 'f']);
    match r {
        RoundedTenths::Number { negative, tenths } => {
            let w = (tenths / 10) as nat;
            let d = (tenths % 10) as nat;
            law_decimal(w);
            let text = spec_show_tenths(r);
            let sign: int = if negative { 1 } else { 0 };
            let body = text.skip(sign);
            assert(body =~= spec_decimal(w) + seq!['.'] + seq![spec_digit(d)]);
            assert(body.take(body.len() - 2) =~= spec_decimal(w));
            assert(spec_digit_value(spec_digit(d)) == d);
            assert(is_digit_char(spec_digit(d)));
        },
        RoundedTenths::Infinite { negative } => {
            assert(spec_show_tenths(r) =~= if negative {
                seq!['-', 'i', 'n', 'f']
            } else {
                seq!['i', 'n', 'f']
            });
        },
        _ => {},
    }
}

/// The digit of `d` is the character with code point `'0' + d`, and the
/// value of a digit character is its code point less that of `'0'`.
pub proof fn law_digit(d: nat, c: char)
    ensures
        d < 10 ==> spec_digit(d) as u32 == 48 + d,
        is_digit_char(c) ==> spec_digit_value(c) == c as u32 - 48,
{
}

} // verus!
