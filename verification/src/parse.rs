//! Interpretation of numeric literals: hexadecimal with a `0x`/`0X` prefix,
//! octal with a bare leading `0`, and decimal otherwise.

use vstd::prelude::*;
use vstd::arithmetic::div_mod::lemma_fundamental_div_mod;

verus! {

/// Why a literal failed to parse.
#[derive(Debug, Clone, Copy, PartialEq, Eq, Structural)]
pub enum ParseErrorKind {
    /// A hex literal whose digit count after the `0x` prefix is odd:
    /// the digits must describe whole bytes.
    OddHexLength,
    /// No digits at all after the prefix.
    Empty,
    /// A character that is no digit of the selected base, or a bare sign.
    InvalidDigit,
    /// The value does not fit in 64 bits.
    Overflow,
}

/// The numeric value of `c` as a digit, as `char::to_digit` assigns it:
/// `'0'`–`'9'` are 0 to 9, `'a'`–`'z'` and `'A'`–`'Z'` are 10 to 35.
/// A character that is a digit in no base maps to 36.
pub open spec fn digit_value(c: char) -> nat {
    let u = c as u32;
    if 48 <= u && u <= 57 {
        (u - 48) as nat
    } else if 97 <= u && u <= 122 {
        (u - 87) as nat
    } else if 65 <= u && u <= 90 {
        (u - 55) as nat
    } else {
        36
    }
}

/// Whether `c` is a digit of base `radix`.
pub open spec fn is_radix_digit(c: char, radix: nat) -> bool {
    digit_value(c) < radix
}

/// The base-`radix` value of `digits`, read left to right, continuing from
/// the already accumulated value `acc`.
pub open spec fn radix_value_from(digits: Seq<char>, radix: nat, acc: nat) -> nat
    decreases digits.len(),
{
    if digits.len() == 0 {
        acc
    } else {
        radix_value_from(digits.skip(1), radix, acc * radix + digit_value(digits[0]))
    }
}

/// The base-`radix` value of `digits`.
pub open spec fn radix_value(digits: Seq<char>, radix: nat) -> nat {
    radix_value_from(digits, radix, 0)
}

/// Digit-by-digit parsing of `digits` in base `radix`, continuing from the
/// accumulated value `acc`: the first character that is no digit of the base
/// is an `InvalidDigit` error, and the first step at which the value leaves
/// the 64-bit range is an `Overflow` error, whichever comes first.
pub open spec fn spec_parse_digits(digits: Seq<char>, radix: nat, acc: nat) -> Result<
    u64,
    ParseErrorKind,
>
    decreases digits.len(),
{
    if digits.len() == 0 {
        Ok(acc as u64)
    } else if !is_radix_digit(digits[0], radix) {
        Err(ParseErrorKind::InvalidDigit)
    } else if acc * radix + digit_value(digits[0]) > u64::MAX {
        Err(ParseErrorKind::Overflow)
    } else {
        spec_parse_digits(digits.skip(1), radix, acc * radix + digit_value(digits[0]))
    }
}

/// A whole base-`radix` literal, with `u64::from_str_radix`'s grammar: an
/// optional leading `+`, then at least one digit.
pub open spec fn spec_parse_radix_literal(s: Seq<char>, radix: nat) -> Result<
    u64,
    ParseErrorKind,
> {
    if s.len() == 0 {
        Err(ParseErrorKind::Empty)
    } else {
        let digits = if s[0] == '+' {
            s.skip(1)
        } else {
            s
        };
        if digits.len() == 0 {
            Err(ParseErrorKind::InvalidDigit)
        } else {
            spec_parse_digits(digits, radix, 0)
        }
    }
}

/// Whether `s` carries the hexadecimal marker `0x` or `0X`.
pub open spec fn has_hex_prefix(s: Seq<char>) -> bool {
    s.len() >= 2 && s[0] == '0' && (s[1] == 'x' || s[1] == 'X')
}

/// Whether `s` falls under the octal rule: a leading `0` that is not part of
/// a hexadecimal marker.
pub open spec fn has_octal_prefix(s: Seq<char>) -> bool {
    !has_hex_prefix(s) && s.len() >= 1 && s[0] == '0'
}

/// The value of one input literal. A `0x`/`0X` prefix selects base 16 and
/// demands an even number of digits; a bare leading `0` selects base 8 with
/// the `0` dropped; anything else is read in base 10.
pub open spec fn spec_parse_number(s: Seq<char>) -> Result<u64, ParseErrorKind> {
    if has_hex_prefix(s) {
        if (s.len() - 2) % 2 != 0 {
            Err(ParseErrorKind::OddHexLength)
        } else {
            spec_parse_radix_literal(s.skip(2), 16)
        }
    } else if has_octal_prefix(s) {
        spec_parse_radix_literal(s.skip(1), 8)
    } else {
        spec_parse_radix_literal(s, 10)
    }
}

/// The digit value of `c`, as `digit_value` assigns it.
fn digit_of(c: char) -> (d: u32)
    ensures
        d as nat == digit_value(c),
{
    let u = c as u32;
    if 48 <= u && u <= 57 {
        u - 48
    } else if 97 <= u && u <= 122 {
        u - 87
    } else if 65 <= u && u <= 90 {
        u - 55
    } else {
        36
    }
}

/// Convert one input literal to a field-element value: hexadecimal after a
/// `0x`/`0X` prefix (whole bytes only, so an even digit count), octal after a
/// bare leading `0`, decimal otherwise.
pub fn parse_number(input: &str) -> (r: Result<u64, ParseErrorKind>)
    ensures
        r == spec_parse_number(input@),
        has_hex_prefix(input@) && (input@.len() - 2) % 2 != 0 ==> r == Err::<
            u64,
            ParseErrorKind,
        >(ParseErrorKind::OddHexLength),
{
    let n = input.unicode_len();
    let radix: u32;
    let prefix_len: usize;
    if n >= 2 && input.get_char(0) == '0' && (input.get_char(1) == 'x' || input.get_char(1)
        == 'X') {
        if (n - 2) % 2 != 0 {
            return Err(ParseErrorKind::OddHexLength);
        }
        radix = 16;
        prefix_len = 2;
    } else if n >= 1 && input.get_char(0) == '0' {
        radix = 8;
        prefix_len = 1;
    } else {
        radix = 10;
        prefix_len = 0;
    }
    if n == prefix_len {
        return Err(ParseErrorKind::Empty);
    }
    let mut i = prefix_len;
    if input.get_char(i) == '+' {
        i = i + 1;
        if i == n {
            return Err(ParseErrorKind::InvalidDigit);
        }
    }
    proof {
        assert(input@.skip(prefix_len as int).skip(1) =~= input@.skip(prefix_len as int + 1));
        assert(spec_parse_number(input@) == spec_parse_digits(
            input@.skip(i as int),
            radix as nat,
            0,
        ));
    }
    let mut acc: u64 = 0;
    while i < n
        invariant
            i <= n,
            n == input@.len(),
            radix == 8 || radix == 10 || radix == 16,
            spec_parse_number(input@) == spec_parse_digits(
                input@.skip(i as int),
                radix as nat,
                acc as nat,
            ),
        decreases n - i,
    {
        let c = input.get_char(i);
        let d = digit_of(c);
        if !(d < radix) {
            return Err(ParseErrorKind::InvalidDigit);
        }
        proof {
            assert((acc as u128) * (radix as u128) <= 0xffff_ffff_ffff_ffffu128 * 16) by (nonlinear_arith)
                requires
                    acc <= 0xffff_ffff_ffff_ffffu64,
                    radix <= 16,
            ;
        }
        let wide: u128 = (acc as u128) * (radix as u128) + (d as u128);
        if wide > u64::MAX as u128 {
            return Err(ParseErrorKind::Overflow);
        }
        proof {
            assert(input@.skip(i as int).skip(1) =~= input@.skip(i as int + 1));
        }
        acc = wide as u64;
        i = i + 1;
    }
    proof {
        assert(input@.skip(i as int) =~= Seq::<char>::empty());
    }
    Ok(acc)
}

/// The canonical character for digit value `v`, lower case above 9.
pub open spec fn digit_char(v: nat) -> char {
    if v == 0 {
        '0'
    } else if v == 1 {
        '1'
    } else if v == 2 {
        '2'
    } else if v == 3 {
        '3'
    } else if v == 4 {
        '4'
    } else if v == 5 {
        '5'
    } else if v == 6 {
        '6'
    } else if v == 7 {
        '7'
    } else if v == 8 {
        '8'
    } else if v == 9 {
        '9'
    } else if v == 10 {
        'a'
    } else if v == 11 {
        'b'
    } else if v == 12 {
        'c'
    } else if v == 13 {
        'd'
    } else if v == 14 {
        'e'
    } else if v == 15 {
        'f'
    } else {
        '?'
    }
}

/// The canonical base-`radix` digit string of `v`: most significant digit
/// first, no leading zero except for the value zero itself.
pub open spec fn repr(v: nat, radix: nat) -> Seq<char>
    recommends
        2 <= radix <= 16,
    decreases v,
    via repr_decreases
{
    if radix < 2 {
        Seq::empty()
    } else if v < radix {
        seq![digit_char(v)]
    } else {
        repr(v / radix, radix).push(digit_char(v % radix))
    }
}

#[via_fn]
proof fn repr_decreases(v: nat, radix: nat) {
    if radix >= 2 && v >= radix {
        vstd::arithmetic::div_mod::lemma_div_is_strictly_smaller(v as int, radix as int);
    }
}

/// The canonical decimal text of `v`.
pub open spec fn decimal_form(v: nat) -> Seq<char> {
    repr(v, 10)
}

/// The canonical hexadecimal literal of `v`: the `0x` marker, then the hex
/// digits, padded with one leading zero where their count would be odd.
pub open spec fn hex_form(v: nat) -> Seq<char> {
    if repr(v, 16).len() % 2 == 1 {
        seq!['0', 'x', '0'] + repr(v, 16)
    } else {
        seq!['0', 'x'] + repr(v, 16)
    }
}

/// The canonical octal literal of `v`: a leading `0`, then the octal digits.
pub open spec fn octal_form(v: nat) -> Seq<char> {
    seq!['0'] + repr(v, 8)
}

proof fn lemma_digit_char_value(v: nat)
    requires
        v < 16,
    ensures
        digit_value(digit_char(v)) == v,
{
}

/// Appending a digit multiplies the accumulated value by the base and adds
/// the digit.
proof fn lemma_value_from_push(d: Seq<char>, radix: nat, acc: nat, c: char)
    ensures
        radix_value_from(d.push(c), radix, acc) == radix_value_from(d, radix, acc) * radix
            + digit_value(c),
    decreases d.len(),
{
    let s = d.push(c);
    if d.len() == 0 {
        assert(s[0] == c);
        assert(s.skip(1) =~= Seq::<char>::empty());
        assert(radix_value_from(s.skip(1), radix, acc * radix + digit_value(c)) == acc * radix
            + digit_value(c));
        assert(radix_value_from(s, radix, acc) == acc * radix + digit_value(c));
        assert(radix_value_from(d, radix, acc) == acc);
    } else {
        assert(s[0] == d[0]);
        assert(s.skip(1) =~= d.skip(1).push(c));
        lemma_value_from_push(d.skip(1), radix, acc * radix + digit_value(d[0]), c);
        assert(radix_value_from(s, radix, acc) == radix_value_from(
            s.skip(1),
            radix,
            acc * radix + digit_value(d[0]),
        ));
        assert(radix_value_from(d, radix, acc) == radix_value_from(
            d.skip(1),
            radix,
            acc * radix + digit_value(d[0]),
        ));
    }
}

/// Reading further digits never lowers the accumulated value.
proof fn lemma_value_from_lower_bound(d: Seq<char>, radix: nat, acc: nat)
    requires
        1 <= radix,
    ensures
        radix_value_from(d, radix, acc) >= acc,
    decreases d.len(),
{
    if d.len() > 0 {
        assert(acc * radix >= acc) by (nonlinear_arith)
            requires
                1 <= radix,
        ;
        lemma_value_from_lower_bound(d.skip(1), radix, acc * radix + digit_value(d[0]));
    }
}

/// Digit-by-digit parsing succeeds on an all-digit string whose value fits
/// in 64 bits, and returns exactly that value.
proof fn lemma_parse_digits_ok(d: Seq<char>, radix: nat, acc: nat)
    requires
        2 <= radix,
        forall|k: int| 0 <= k < d.len() ==> is_radix_digit(#[trigger] d[k], radix),
        radix_value_from(d, radix, acc) <= u64::MAX,
    ensures
        spec_parse_digits(d, radix, acc) == Ok::<u64, ParseErrorKind>(
            radix_value_from(d, radix, acc) as u64,
        ),
    decreases d.len(),
{
    if d.len() > 0 {
        let acc2 = acc * radix + digit_value(d[0]);
        lemma_value_from_lower_bound(d.skip(1), radix, acc2);
        assert(forall|k: int|
            0 <= k < d.skip(1).len() ==> is_radix_digit(#[trigger] d.skip(1)[k], radix));
        lemma_parse_digits_ok(d.skip(1), radix, acc2);
    }
}

/// The canonical digit string of `v` is nonempty, consists of digits of the
/// base, has value `v`, and opens with a nonzero digit whenever `v` is
/// nonzero.
proof fn lemma_repr_props(v: nat, radix: nat)
    requires
        2 <= radix <= 16,
    ensures
        repr(v, radix).len() >= 1,
        forall|k: int|
            0 <= k < repr(v, radix).len() ==> is_radix_digit(#[trigger] repr(v, radix)[k], radix),
        radix_value(repr(v, radix), radix) == v,
        v >= 1 ==> digit_value(repr(v, radix)[0]) >= 1,
    decreases v,
{
    if v < radix {
        lemma_digit_char_value(v);
        assert(seq![digit_char(v)].skip(1) =~= Seq::<char>::empty());
        assert(radix_value_from(seq![digit_char(v)].skip(1), radix, digit_value(digit_char(v)))
            == digit_value(digit_char(v)));
        assert(radix_value_from(repr(v, radix), radix, 0) == radix_value_from(
            seq![digit_char(v)].skip(1),
            radix,
            0 * radix + digit_value(digit_char(v)),
        ));
    } else {
        let q = v / radix;
        let r0 = v % radix;
        lemma_fundamental_div_mod(v as int, radix as int);
        assert(q >= 1) by (nonlinear_arith)
            requires
                v >= radix,
                radix >= 2,
                q == v / radix,
        ;
        lemma_repr_props(q, radix);
        lemma_digit_char_value(r0);
        lemma_value_from_push(repr(q, radix), radix, 0, digit_char(r0));
        assert(repr(v, radix) == repr(q, radix).push(digit_char(r0)));
        assert(radix_value(repr(v, radix), radix) == q * radix + r0);
        assert(q * radix + r0 == v) by (nonlinear_arith)
            requires
                v == radix * q + r0,
        ;
        assert(repr(v, radix)[0] == repr(q, radix)[0]);
        assert(forall|k: int|
            0 <= k < repr(v, radix).len() ==> is_radix_digit(
                #[trigger] repr(v, radix)[k],
                radix,
            )) by {
            assert(forall|k: int|
                0 <= k < repr(q, radix).len() ==> repr(v, radix)[k] == #[trigger] repr(
                    q,
                    radix,
                )[k]);
            assert(repr(v, radix)[repr(v, radix).len() - 1] == digit_char(r0));
        }
    }
}

/// One value, three spellings: for a positive 64-bit value, the canonical
/// decimal text, the even-length `0x` hexadecimal literal and the
/// zero-prefixed octal literal all parse to the same field element.
/// The value zero is left out: its bare decimal text `0` is read as an
/// octal literal with no digits, which is rejected.
pub proof fn lemma_radix_forms_agree(v: u64)
    requires
        v >= 1,
    ensures
        spec_parse_number(decimal_form(v as nat)) == Ok::<u64, ParseErrorKind>(v),
        spec_parse_number(hex_form(v as nat)) == Ok::<u64, ParseErrorKind>(v),
        spec_parse_number(octal_form(v as nat)) == Ok::<u64, ParseErrorKind>(v),
{
    let n = v as nat;
    // Decimal: the leading digit is nonzero, so neither prefix rule applies.
    let d = repr(n, 10);
    lemma_repr_props(n, 10);
    assert(d[0] != '0' && d[0] != '+');
    lemma_parse_digits_ok(d, 10, 0);
    // Hexadecimal: the marker selects base 16 and the digit count is even.
    let h = repr(n, 16);
    lemma_repr_props(n, 16);
    if h.len() % 2 == 1 {
        let s = seq!['0', 'x', '0'] + h;
        assert(s[0] == '0' && s[1] == 'x');
        assert(s.skip(2) =~= seq!['0'] + h);
        assert((seq!['0'] + h)[0] == '0');
        assert((seq!['0'] + h).skip(1) =~= h);
        assert(radix_value_from(seq!['0'] + h, 16, 0) == radix_value(h, 16));
        assert(forall|k: int|
            0 <= k < (seq!['0'] + h).len() ==> is_radix_digit(#[trigger] (seq!['0'] + h)[k], 16))
            by {
            assert(forall|k: int| 1 <= k < (seq!['0'] + h).len() ==> (seq!['0'] + h)[k] == h[k - 1]);
            assert(is_radix_digit((seq!['0'] + h)[0], 16));
        }
        lemma_parse_digits_ok(seq!['0'] + h, 16, 0);
        assert(spec_parse_number(s) == Ok::<u64, ParseErrorKind>(v));
    } else {
        let s = seq!['0', 'x'] + h;
        assert(s[0] == '0' && s[1] == 'x');
        assert(s.skip(2) =~= h);
        assert(h[0] != '+');
        lemma_parse_digits_ok(h, 16, 0);
        assert(spec_parse_number(s) == Ok::<u64, ParseErrorKind>(v));
    }
    // Octal: the leading zero is dropped and the rest is read in base 8.
    let o = repr(n, 8);
    lemma_repr_props(n, 8);
    let s = seq!['0'] + o;
    assert(s[0] == '0');
    assert(s[1] == o[0]);
    assert(is_radix_digit(o[0], 8));
    assert(s[1] != 'x' && s[1] != 'X');
    assert(s.skip(1) =~= o);
    assert(o[0] != '+');
    lemma_parse_digits_ok(o, 8, 0);
    assert(spec_parse_number(s) == Ok::<u64, ParseErrorKind>(v));
}

/// Why zero is left out of the agreement law: the bare decimal text `0`
/// falls under the octal rule, and an octal literal with no digits after
/// the leading zero is rejected.
pub proof fn lemma_zero_decimal_rejected()
    ensures
        spec_parse_number(decimal_form(0)) == Err::<u64, ParseErrorKind>(ParseErrorKind::Empty),
{
    assert(decimal_form(0) == seq![digit_char(0)]);
    assert(seq!['0'].skip(1) =~= Seq::<char>::empty());
}

} // verus!
