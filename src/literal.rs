//! Numeric literals: decimal digits, or hexadecimal digits after a `$`.
use vstd::prelude::*;

verus! {

/// Value of one digit character in the given radix, as `char::to_digit` reads it.
pub open spec fn digit_value(c: char, radix: nat) -> Option<nat> {
    let d: int = if '0' <= c && c <= '9' {
        c as int - '0' as int
    } else if 'a' <= c && c <= 'z' {
        c as int - 'a' as int + 10
    } else if 'A' <= c && c <= 'Z' {
        c as int - 'A' as int + 10
    } else {
        36
    };
    if d < radix {
        Some(d as nat)
    } else {
        None
    }
}

/// Value of a non-empty run of digits, most significant first.
pub open spec fn digits_value(s: Seq<char>, radix: nat) -> Option<nat>
    decreases s.len(),
{
    if s.len() == 0 {
        None
    } else if s.len() == 1 {
        digit_value(s[0], radix)
    } else {
        match (digits_value(s.drop_last(), radix), digit_value(s.last(), radix)) {
            (Some(high), Some(low)) => Some(high * radix + low),
            _ => None,
        }
    }
}

/// Value of an unsigned integer text: an optional `+`, then digits.
pub open spec fn unsigned_value(s: Seq<char>, radix: nat) -> Option<nat> {
    if s.len() > 0 && s[0] == '+' {
        digits_value(s.drop_first(), radix)
    } else {
        digits_value(s, radix)
    }
}

/// Value of a literal: hexadecimal after a leading `$`, decimal otherwise.
pub open spec fn literal_value(s: Seq<char>) -> Option<nat> {
    if s.len() > 0 && s[0] == '$' {
        unsigned_value(s.drop_first(), 16)
    } else {
        unsigned_value(s, 10)
    }
}

/// `v` when it is present and at most `bound`.
pub open spec fn within(v: Option<nat>, bound: nat) -> Option<nat> {
    match v {
        Some(n) => if n <= bound {
            Some(n)
        } else {
            None
        },
        None => None,
    }
}

/// An unsigned integer type that literals can be read into.
pub trait LiteralInt: Sized {
    /// The largest value of the type.
    spec fn literal_bound() -> nat;

    /// The value as a natural number.
    spec fn literal_nat(&self) -> nat;

    /// Reads `text` in `radix`: an optional `+`, then digits; fails when out of range.
    fn from_text(text: &str, radix: u32) -> (r: Option<Self>)
        requires
            radix == 10 || radix == 16,
        ensures
            match r {
                Some(v) => within(unsigned_value(text@, radix as nat), Self::literal_bound())
                    == Some(v.literal_nat()),
                None => within(unsigned_value(text@, radix as nat), Self::literal_bound()) is None,
            },
    ;
}

/// Relies on num's `Num::from_str_radix` for `u8`, which forwards to `u8::from_str_radix`:
/// an optional `+` then digits of the radix, failing on anything else or on overflow.
#[verifier::external_body]
fn u8_from_str_radix(text: &str, radix: u32) -> (r: Option<u8>)
    requires
        radix == 10 || radix == 16,
    ensures
        match r {
            Some(v) => within(unsigned_value(text@, radix as nat), 255) == Some(v as nat),
            None => within(unsigned_value(text@, radix as nat), 255) is None,
        },
{
    <u8 as num::Num>::from_str_radix(text, radix).ok()
}

/// Relies on num's `Num::from_str_radix` for `u16`, which forwards to `u16::from_str_radix`:
/// an optional `+` then digits of the radix, failing on anything else or on overflow.
#[verifier::external_body]
fn u16_from_str_radix(text: &str, radix: u32) -> (r: Option<u16>)
    requires
        radix == 10 || radix == 16,
    ensures
        match r {
            Some(v) => within(unsigned_value(text@, radix as nat), 65535) == Some(v as nat),
            None => within(unsigned_value(text@, radix as nat), 65535) is None,
        },
{
    <u16 as num::Num>::from_str_radix(text, radix).ok()
}

impl LiteralInt for u8 {
    open spec fn literal_bound() -> nat {
        255
    }

    open spec fn literal_nat(&self) -> nat {
        *self as nat
    }

    fn from_text(text: &str, radix: u32) -> (r: Option<u8>) {
        u8_from_str_radix(text, radix)
    }
}

impl LiteralInt for u16 {
    open spec fn literal_bound() -> nat {
        65535
    }

    open spec fn literal_nat(&self) -> nat {
        *self as nat
    }

    fn from_text(text: &str, radix: u32) -> (r: Option<u16>) {
        u16_from_str_radix(text, radix)
    }
}

/// Reads a decimal literal, or a hexadecimal one after `$`, into `T`.
/// Fails when the text is not a literal or its value does not fit in `T`.
pub fn parse_number<T: LiteralInt>(text: &str) -> (r: Option<T>)
    ensures
        match r {
            Some(v) => within(literal_value(text@), T::literal_bound()) == Some(v.literal_nat()),
            None => within(literal_value(text@), T::literal_bound()) is None,
        },
{
    let len = text.unicode_len();
    if len > 0 && text.get_char(0) == '$' {
        let digits = text.substring_char(1, len);
        assert(digits@ == text@.drop_first());
        T::from_text(digits, 16)
    } else {
        T::from_text(text, 10)
    }
}


/// The character of digit `d`, with upper-case letters from ten on.
pub open spec fn digit_char(d: nat) -> char {
    if d == 0 { '0' } else if d == 1 { '1' } else if d == 2 { '2' } else if d == 3 { '3' }
    else if d == 4 { '4' } else if d == 5 { '5' } else if d == 6 { '6' } else if d == 7 { '7' }
    else if d == 8 { '8' } else if d == 9 { '9' } else if d == 10 { 'A' } else if d == 11 { 'B' }
    else if d == 12 { 'C' } else if d == 13 { 'D' } else if d == 14 { 'E' } else { 'F' }
}

/// `n` in decimal, without leading zeros.
pub open spec fn decimal_text(n: nat) -> Seq<char>
    decreases n,
{
    if n < 10 {
        seq![digit_char(n)]
    } else {
        decimal_text(n / 10).push(digit_char(n % 10))
    }
}

/// `v` as `$` and four hexadecimal digits.
pub open spec fn hex_text(v: u16) -> Seq<char> {
    seq![
        '$',
        digit_char((v / 4096) as nat),
        digit_char((v / 256 % 16) as nat),
        digit_char((v / 16 % 16) as nat),
        digit_char((v % 16) as nat),
    ]
}

proof fn lemma_digit_char(d: nat, radix: nat)
    requires
        d < radix,
        radix == 10 || radix == 16,
    ensures
        digit_value(digit_char(d), radix) == Some(d),
        digit_char(d) != '+',
        digit_char(d) != '$',
{
}

proof fn lemma_decimal_text(n: nat)
    ensures
        decimal_text(n).len() >= 1,
        decimal_text(n)[0] != '+',
        decimal_text(n)[0] != '$',
        digits_value(decimal_text(n), 10) == Some(n),
    decreases n,
{
    if n < 10 {
        lemma_digit_char(n, 10);
    } else {
        lemma_decimal_text(n / 10);
        lemma_digit_char(n % 10, 10);
        let s = decimal_text(n);
        assert(s.drop_last() =~= decimal_text(n / 10));
        assert(s[0] == decimal_text(n / 10)[0]);
        assert(n / 10 * 10 + n % 10 == n);
    }
}

/// Every 16-bit value, written in decimal or as `$` and four hexadecimal digits,
/// reads back as itself; a literal whose value is past 16 bits reads as nothing.
pub proof fn lemma_literal_round_trip(v: u16, text: Seq<char>)
    ensures
        within(literal_value(decimal_text(v as nat)), 65535) == Some(v as nat),
        within(literal_value(hex_text(v)), 65535) == Some(v as nat),
        (literal_value(text) is Some && literal_value(text)->0 > 65535) ==> within(
            literal_value(text),
            65535,
        ) is None,
{
    lemma_decimal_text(v as nat);
    let a = v / 4096;
    let b = v / 256 % 16;
    let c = v / 16 % 16;
    let d = v % 16;
    lemma_digit_char(a as nat, 16);
    lemma_digit_char(b as nat, 16);
    lemma_digit_char(c as nat, 16);
    lemma_digit_char(d as nat, 16);
    let h = hex_text(v).drop_first();
    assert(h.drop_last().drop_last().drop_last() =~= seq![digit_char(a as nat)]);
    assert(h.drop_last().drop_last() =~= seq![digit_char(a as nat), digit_char(b as nat)]);
    assert(h.drop_last() =~= seq![digit_char(a as nat), digit_char(b as nat), digit_char(c as nat)]);
    assert(((a * 16 + b) * 16 + c) * 16 + d == v) by (bit_vector)
        requires
            a == v / 4096,
            b == v / 256 % 16,
            c == v / 16 % 16,
            d == v % 16,
    ;
    let (na, nb, nc, nd) = (a as nat, b as nat, c as nat, d as nat);
    assert(digits_value(h.drop_last().drop_last().drop_last(), 16) == Some(na));
    assert(digits_value(h.drop_last().drop_last(), 16) == Some(na * 16 + nb));
    assert(digits_value(h.drop_last(), 16) == Some((na * 16 + nb) * 16 + nc));
    assert(digits_value(h, 16) == Some(((na * 16 + nb) * 16 + nc) * 16 + nd));
    assert(unsigned_value(h, 16) == digits_value(h, 16));
}

} // verus!
