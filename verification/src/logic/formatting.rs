//! Fixed-width text for the display: a measurement, right-justified in a
//! field, a space, and its unit.
//!
//! The field grows when the number is wider than asked for, so that no
//! digit is ever cut off. A line of text holds at most sixteen bytes; every
//! function here asks that what it is to write fits.

use vstd::prelude::*;
use vstd::utf8::is_ascii_chars;
use crate::logic::binary32::{
    lemma_fract_scaled_bound, lemma_pow10_increases, lemma_pow10_values, lemma_scaled_is_rounded,
    pow10, pow10_u32, Binary32,
};
use crate::logic::ticks::round_half_up;
use crate::logic::text::{
    empty_text, lemma_utf8_len_ascii, lemma_utf8_len_concat, push, push_str, text_of, utf8_len,
    CAPACITY,
};

verus! {

/// The largest number of fractional digits that a measurement is shown
/// with.
pub const MAX_PRECISION: u8 = 4;

/// The character of the decimal digit `d`.
pub open spec fn digit(d: int) -> char
    recommends
        0 <= d <= 9,
{
    (d + 48) as char
}

/// The decimal digits of `n`, most significant first, without leading
/// zeros; a single `0` for zero.
pub open spec fn decimal(n: nat) -> Seq<char>
    decreases n,
{
    if n < 10 {
        seq![digit(n as int)]
    } else {
        decimal(n / 10).push(digit((n % 10) as int))
    }
}

/// The number of decimal digits of `n`, for `n` below 2^32.
pub open spec fn digit_count(n: nat) -> nat {
    if n < 10 {
        1
    } else if n < 100 {
        2
    } else if n < 1_000 {
        3
    } else if n < 10_000 {
        4
    } else if n < 100_000 {
        5
    } else if n < 1_000_000 {
        6
    } else if n < 10_000_000 {
        7
    } else if n < 100_000_000 {
        8
    } else if n < 1_000_000_000 {
        9
    } else {
        10
    }
}

/// `count` times the character `c`.
pub open spec fn repeated(c: char, count: nat) -> Seq<char> {
    Seq::new(count, |i: int| c)
}

/// What is left of a field of `width` places once `used` of them are
/// taken; nothing, if more are taken than there are.
pub open spec fn room(width: int, used: int) -> nat {
    if width > used {
        (width - used) as nat
    } else {
        0
    }
}

/// `body`, with spaces before it to fill `width` places.
pub open spec fn right_justified(body: Seq<char>, width: nat) -> Seq<char> {
    repeated(' ', room(width as int, body.len() as int)) + body
}

/// The digits of `n`, with zeros before them to fill `width` places.
pub open spec fn zero_filled(n: nat, width: nat) -> Seq<char> {
    repeated('0', room(width as int, decimal(n).len() as int)) + decimal(n)
}

/// The text of a whole-number measurement: the digits of `value`
/// right-justified in `pad_main` places, a space, the unit.
pub open spec fn u32_measurement_text(value: u32, pad_main: u8, unit: Seq<char>) -> Seq<char> {
    right_justified(decimal(value as nat), pad_main as nat) + seq![' '] + unit
}

/// Whether the fraction of `value`, rounded to `precision` digits, rounds
/// up to one and so carries into the whole part.
pub open spec fn carries(value: Binary32, precision: u8) -> bool {
    precision > 0 && value.fract_scaled(precision as nat) == pow10(precision as nat)
}

/// The whole part that is shown for `value`: its floor, raised by one
/// when the fraction carries.
pub open spec fn shown_whole(value: Binary32, precision: u8) -> nat {
    if carries(value, precision) {
        (value.whole() + 1) as nat
    } else {
        value.whole() as nat
    }
}

/// The fraction that is shown for `value`, in units of the last of
/// `precision` digits: zero when it carries, and when no digit is shown.
pub open spec fn shown_fract(value: Binary32, precision: u8) -> nat {
    if precision == 0 || carries(value, precision) {
        0
    } else {
        value.fract_scaled(precision as nat) as nat
    }
}

/// The text of a fractional measurement: the whole part right-justified in
/// `pad_main` places; unless `precision` is zero, a point and exactly
/// `precision` digits of fraction; a space; the unit.
pub open spec fn float_measurement_text(
    value: Binary32,
    pad_main: u8,
    precision: u8,
    unit: Seq<char>,
) -> Seq<char> {
    right_justified(decimal(shown_whole(value, precision)), pad_main as nat) + (if precision > 0 {
        seq!['.'] + zero_filled(shown_fract(value, precision), precision as nat)
    } else {
        Seq::<char>::empty()
    }) + seq![' '] + unit
}

/// The width of the field of a fractional measurement: the places of the
/// whole part, and those of the point and the fraction if there are any.
pub open spec fn float_field_width(pad_main: u8, precision: u8) -> nat {
    if precision > 0 {
        (pad_main + precision + 1) as nat
    } else {
        pad_main as nat
    }
}

/// The text of a missing measurement: a dash at the right end of a field
/// of `width` places, a space, and the unit, if the unit still fits in
/// the line.
pub open spec fn missing_text(width: nat, unit: Seq<char>) -> Seq<char> {
    (if width > 0 {
        repeated(' ', (width - 1) as nat).push('-')
    } else {
        Seq::<char>::empty()
    }) + seq![' '] + (if width + 1 + utf8_len(unit) <= CAPACITY {
        unit
    } else {
        Seq::<char>::empty()
    })
}

/// Digits are ASCII, and a number below `10^k` has at most `k` of them.
pub proof fn lemma_decimal(n: nat, k: nat)
    requires
        k >= 1,
        n < pow10(k),
    ensures
        is_ascii_chars(decimal(n)),
        1 <= decimal(n).len() <= k,
    decreases n,
{
    if n < 10 {
    } else {
        lemma_pow10_values();
        if k == 1 {
        } else {
            assert(pow10(k) == 10 * pow10((k - 1) as nat));
            lemma_decimal(n / 10, (k - 1) as nat);
        }
    }
}

/// A 32-bit number has at most ten digits, as many as `digit_count`
/// tells.
pub proof fn lemma_decimal_u32(value: u32)
    ensures
        is_ascii_chars(decimal(value as nat)),
        1 <= decimal(value as nat).len() <= 10,
        decimal(value as nat).len() == digit_count(value as nat),
{
    lemma_pow10_values();
    assert(pow10(10) == 10 * pow10(9));
    lemma_decimal(value as nat, 10);
    reveal_with_fuel(decimal, 11);
}

/// The number of decimal digits of `num`; 1 for zero.
pub fn u32_len(num: u32) -> (count: u8)
    ensures
        count == decimal(num as nat).len(),
        count == digit_count(num as nat),
{
    proof {
        lemma_decimal_u32(num);
    }
    if num == 0 {
        return 1;
    }
    let mut count: u8 = 0;
    let mut rest: u32 = num;
    while rest > 0
        invariant
            decimal(num as nat).len() <= 10,
            decimal(num as nat).len() == count + if rest > 0 {
                decimal(rest as nat).len()
            } else {
                0
            },
        decreases rest,
    {
        rest = rest / 10;
        count = count + 1;
    }
    count
}

/// Whether the text of a whole-number measurement fits in a line.
pub fn u32_measurement_fits(value: u32, pad_main: u8, unit: &str) -> (fits: bool)
    ensures
        fits == (utf8_len(u32_measurement_text(value, pad_main, unit@)) <= CAPACITY),
{
    let digits: u8 = u32_len(value);
    let field: u8 = if pad_main > digits {
        pad_main
    } else {
        digits
    };
    proof {
        lemma_u32_measurement_len(value, pad_main, unit@);
    }
    let unit_len: usize = unit.as_bytes().len();
    unit_len <= CAPACITY && field as usize + 1 + unit_len <= CAPACITY
}

/// The bytes of a whole-number measurement text: the field, the space,
/// the unit.
pub proof fn lemma_u32_measurement_len(value: u32, pad_main: u8, unit: Seq<char>)
    ensures
        utf8_len(u32_measurement_text(value, pad_main, unit)) == room(
            pad_main as int,
            decimal(value as nat).len() as int,
        ) + decimal(value as nat).len() + 1 + utf8_len(unit),
{
    let digits = decimal(value as nat);
    let field = right_justified(digits, pad_main as nat);
    lemma_decimal_u32(value);
    lemma_utf8_len_concat(field + seq![' '], unit);
    lemma_utf8_len_concat(field, seq![' ']);
    lemma_utf8_len_ascii(seq![' ']);
    lemma_utf8_len_ascii(field);
}

/// The bytes of a fractional measurement text: the field of the whole
/// part, the point and the fraction, the space, the unit.
pub proof fn lemma_float_measurement_len(
    value: Binary32,
    pad_main: u8,
    precision: u8,
    unit: Seq<char>,
)
    requires
        precision <= MAX_PRECISION,
    ensures
        shown_whole(value, precision) <= u32::MAX,
        shown_fract(value, precision) < pow10(precision as nat) || precision == 0,
        precision > 0 ==> zero_filled(shown_fract(value, precision), precision as nat).len()
            == precision,
        utf8_len(float_measurement_text(value, pad_main, precision, unit)) == room(
            pad_main as int,
            decimal(shown_whole(value, precision)).len() as int,
        ) + decimal(shown_whole(value, precision)).len() + (if precision > 0 {
            precision + 1
        } else {
            0
        }) + 1 + utf8_len(unit),
{
    let whole = shown_whole(value, precision);
    let fract = shown_fract(value, precision);
    lemma_shown_whole(value, precision);
    lemma_fract_scaled_bound(value, precision as nat);
    lemma_pow10_values();
    lemma_pow10_increases(precision as nat, 4);
    lemma_decimal_u32(whole as u32);
    let field = right_justified(decimal(whole), pad_main as nat);
    let tail = if precision > 0 {
        seq!['.'] + zero_filled(fract, precision as nat)
    } else {
        Seq::<char>::empty()
    };
    if precision > 0 {
        lemma_decimal(fract, precision as nat);
    }
    lemma_utf8_len_concat(field + tail + seq![' '], unit);
    lemma_utf8_len_concat(field + tail, seq![' ']);
    lemma_utf8_len_concat(field, tail);
    lemma_utf8_len_ascii(seq![' ']);
    lemma_utf8_len_ascii(field);
    lemma_utf8_len_ascii(tail);
}

/// The whole part that is shown fits in 32 bits: a number whose fraction
/// carries is below 2^24.
pub proof fn lemma_shown_whole(value: Binary32, precision: u8)
    ensures
        0 <= value.whole() <= u32::MAX,
        carries(value, precision) ==> value.whole() < 0x100_0000,
        shown_whole(value, precision) <= u32::MAX,
{
    let k = (-value.scale()) as nat;
    lemma_pow10_increases(0, precision as nat);
    if value.is_measure() && value.scale() < 0 {
        vstd::arithmetic::power2::lemma_pow2_pos(k);
        vstd::arithmetic::div_mod::lemma_div_pos_is_pos(
            value.significand(),
            vstd::arithmetic::power2::pow2(k) as int,
        );
        vstd::arithmetic::div_mod::lemma_div_is_ordered_by_denominator(
            value.significand(),
            1,
            vstd::arithmetic::power2::pow2(k) as int,
        );
    } else if value.is_measure() {
        vstd::arithmetic::power2::lemma_pow2_pos(value.scale() as nat);
        assert(value.significand() * vstd::arithmetic::power2::pow2(value.scale() as nat) >= 0)
            by (nonlinear_arith)
            requires
                value.significand() >= 0,
        ;
    }
}

/// Showing a number with `precision` digits of fraction rounds it, half
/// up, to the last of those digits: the whole part and the fraction that
/// are shown, read together as a count of units of the last digit, are the
/// number times `10^precision`, rounded half up. The carry is what makes
/// this hold where the fraction alone rounds up to one.
pub proof fn lemma_shown_is_rounded(value: Binary32, precision: u8)
    requires
        value.is_measure(),
        value.scale() < 0,
        precision > 0,
    ensures
        shown_whole(value, precision) * pow10(precision as nat) + shown_fract(value, precision)
            == round_half_up(
            value.significand() * pow10(precision as nat),
            vstd::arithmetic::power2::pow2((-value.scale()) as nat) as int,
        ),
{
    let t = pow10(precision as nat) as int;
    let q = value.whole();
    lemma_shown_whole(value, precision);
    lemma_fract_scaled_bound(value, precision as nat);
    lemma_scaled_is_rounded(value, precision as nat);
    let shown = shown_whole(value, precision) * t + shown_fract(value, precision);
    assert(shown == q * t + value.fract_scaled(precision as nat)) by (nonlinear_arith)
        requires
            shown == shown_whole(value, precision) * t + shown_fract(value, precision),
            shown_whole(value, precision) == if value.fract_scaled(precision as nat) == t {
                q + 1
            } else {
                q
            },
            shown_fract(value, precision) == if value.fract_scaled(precision as nat) == t {
                0
            } else {
                value.fract_scaled(precision as nat)
            },
    ;
}

/// The character of the decimal digit `d`.
fn digit_char(d: u8) -> (c: char)
    requires
        d <= 9,
    ensures
        c == digit(d as int),
        c <= '\u{7f}',
{
    (d + 48) as char
}

/// Appends one ASCII character.
fn put(text: &mut heapless::String<16>, c: char)
    requires
        c <= '\u{7f}',
        utf8_len(text_of(*old(text))) + 1 <= CAPACITY,
    ensures
        text_of(*final(text)) == text_of(*old(text)).push(c),
        utf8_len(text_of(*final(text))) == utf8_len(text_of(*old(text))) + 1,
{
    proof {
        lemma_utf8_len_ascii(seq![c]);
        lemma_utf8_len_concat(text_of(*text), seq![c]);
        assert(text_of(*text).push(c) =~= text_of(*text) + seq![c]);
    }
    let _ = push(text, c);
}

/// Appends `count` times the ASCII character `c`.
fn put_repeated(text: &mut heapless::String<16>, c: char, count: u8)
    requires
        c <= '\u{7f}',
        utf8_len(text_of(*old(text))) + count <= CAPACITY,
    ensures
        text_of(*final(text)) == text_of(*old(text)) + repeated(c, count as nat),
        utf8_len(text_of(*final(text))) == utf8_len(text_of(*old(text))) + count,
{
    let ghost start = text_of(*text);
    let mut i: u8 = 0;
    assert(start + repeated(c, 0) =~= start);
    while i < count
        invariant
            i <= count,
            c <= '\u{7f}',
            utf8_len(start) + count <= CAPACITY,
            text_of(*text) == start + repeated(c, i as nat),
            utf8_len(text_of(*text)) == utf8_len(start) + i,
        decreases count - i,
    {
        put(text, c);
        i = i + 1;
        assert(start + repeated(c, i as nat) =~= (start + repeated(c, (i - 1) as nat)).push(c));
    }
}

/// Appends the decimal digits of `value`.
fn put_decimal(text: &mut heapless::String<16>, value: u32)
    requires
        utf8_len(text_of(*old(text))) + decimal(value as nat).len() <= CAPACITY,
    ensures
        text_of(*final(text)) == text_of(*old(text)) + decimal(value as nat),
        utf8_len(text_of(*final(text))) == utf8_len(text_of(*old(text))) + decimal(
            value as nat,
        ).len(),
    decreases value,
{
    let ghost start = text_of(*text);
    if value >= 10 {
        put_decimal(text, value / 10);
        put(text, digit_char((value % 10) as u8));
        assert(start + decimal(value as nat) =~= (start + decimal((value / 10) as nat)).push(
            digit((value % 10) as int),
        ));
    } else {
        put(text, digit_char(value as u8));
        assert(start + decimal(value as nat) =~= start.push(digit(value as int)));
    }
}

/// Writes the text of a missing measurement.
fn format_none(width: u8, unit: &str) -> (text: heapless::String<16>)
    requires
        width < CAPACITY,
    ensures
        text_of(text) == missing_text(width as nat, unit@),
{
    let mut output = empty_text();
    proof {
        lemma_utf8_len_ascii(Seq::<char>::empty());
    }
    if width > 0 {
        put_repeated(&mut output, ' ', width - 1);
        put(&mut output, '-');
    }
    put(&mut output, ' ');
    let ghost field = text_of(output);
    let _ = push_str(&mut output, unit);
    proof {
        let dash = if width > 0 {
            repeated(' ', (width - 1) as nat).push('-')
        } else {
            Seq::<char>::empty()
        };
        assert(field =~= dash + seq![' ']);
        assert(field + Seq::<char>::empty() =~= field);
    }
    output
}

/// The whole part and the fraction that are shown for `value`.
fn shown_parts(value: Binary32, precision: u8) -> (parts: (u32, u32))
    requires
        precision <= MAX_PRECISION,
    ensures
        parts.0 == shown_whole(value, precision),
        parts.1 == shown_fract(value, precision),
{
    let whole: u32 = value.floor_u32();
    if precision == 0 {
        return (whole, 0);
    }
    let times: u32 = pow10_u32(precision);
    let fract: u32 = value.fract_scaled_u32(precision);
    proof {
        lemma_shown_whole(value, precision);
    }
    if fract >= times {
        (whole + 1, 0)
    } else {
        (whole, fract)
    }
}

/// Whether the text of a fractional measurement fits in a line, with a
/// precision that the formatter takes.
pub fn float_measurement_fits(value: Binary32, pad_main: u8, precision: u8, unit: &str) -> (fits:
    bool)
    ensures
        fits == (precision <= MAX_PRECISION && utf8_len(
            float_measurement_text(value, pad_main, precision, unit@),
        ) <= CAPACITY),
{
    if precision > MAX_PRECISION {
        return false;
    }
    let (whole, _) = shown_parts(value, precision);
    let digits: u8 = u32_len(whole);
    let field: u8 = if pad_main > digits {
        pad_main
    } else {
        digits
    };
    let tail: u8 = if precision > 0 {
        precision + 1
    } else {
        0
    };
    proof {
        lemma_float_measurement_len(value, pad_main, precision, unit@);
    }
    let unit_len: usize = unit.as_bytes().len();
    unit_len <= CAPACITY && field as usize + tail as usize + 1 + unit_len <= CAPACITY
}

/// Writes a whole-number measurement: `value` right-justified in a field
/// of `pad_main` places, a space, and `unit`. A value with more digits
/// than `pad_main` is written in full.
pub fn format_u32_measurement(value: u32, pad_main: u8, unit: &str) -> (text: heapless::String<16>)
    requires
        utf8_len(u32_measurement_text(value, pad_main, unit@)) <= CAPACITY,
    ensures
        text_of(text) == u32_measurement_text(value, pad_main, unit@),
{
    let mut output = empty_text();
    proof {
        lemma_utf8_len_ascii(Seq::<char>::empty());
        lemma_u32_measurement_len(value, pad_main, unit@);
    }
    let int_len: u8 = u32_len(value);
    let pad: u8 = if pad_main > int_len {
        pad_main - int_len
    } else {
        0
    };
    put_repeated(&mut output, ' ', pad);
    put_decimal(&mut output, value);
    put(&mut output, ' ');
    let ghost field = text_of(output);
    let _ = push_str(&mut output, unit);
    proof {
        assert(field =~= right_justified(decimal(value as nat), pad_main as nat) + seq![' ']);
    }
    output
}

/// Writes a whole-number measurement, or the text of a missing one in a
/// field of the same width.
pub fn format_u32_measurement_optional(value: Option<u32>, pad_main: u8, unit: &str) -> (text:
    heapless::String<16>)
    requires
        match value {
            Some(value) => utf8_len(u32_measurement_text(value, pad_main, unit@)) <= CAPACITY,
            None => pad_main < CAPACITY,
        },
    ensures
        text_of(text) == match value {
            Some(value) => u32_measurement_text(value, pad_main, unit@),
            None => missing_text(pad_main as nat, unit@),
        },
{
    match value {
        Some(value) => format_u32_measurement(value, pad_main, unit),
        None => format_none(pad_main, unit),
    }
}

/// Writes a fractional measurement: the whole part of `value`
/// right-justified in a field of `pad_main` places; unless `precision` is
/// zero, a point and the fraction, rounded half up to exactly `precision`
/// digits; a space; and `unit`.
///
/// A fraction that rounds up to one carries into the whole part, and
/// zeros follow the point. With a precision of zero the whole part is the
/// floor of the number.
pub fn format_float_measurement(value: Binary32, pad_main: u8, precision: u8, unit: &str) -> (text:
    heapless::String<16>)
    requires
        precision <= MAX_PRECISION,
        utf8_len(float_measurement_text(value, pad_main, precision, unit@)) <= CAPACITY,
    ensures
        text_of(text) == float_measurement_text(value, pad_main, precision, unit@),
{
    let (whole, fract) = shown_parts(value, precision);
    let mut output = empty_text();
    proof {
        lemma_utf8_len_ascii(Seq::<char>::empty());
        lemma_float_measurement_len(value, pad_main, precision, unit@);
    }
    let int_len: u8 = u32_len(whole);
    let pad: u8 = if pad_main > int_len {
        pad_main - int_len
    } else {
        0
    };
    put_repeated(&mut output, ' ', pad);
    put_decimal(&mut output, whole);
    if precision > 0 {
        let frac_len: u8 = u32_len(fract);
        put(&mut output, '.');
        put_repeated(&mut output, '0', precision - frac_len);
        put_decimal(&mut output, fract);
    }
    put(&mut output, ' ');
    let ghost field = text_of(output);
    let _ = push_str(&mut output, unit);
    proof {
        let tail = if precision > 0 {
            seq!['.'] + zero_filled(fract as nat, precision as nat)
        } else {
            Seq::<char>::empty()
        };
        assert(field =~= right_justified(decimal(whole as nat), pad_main as nat) + tail + seq![
            ' ',
        ]);
    }
    output
}

/// Writes a fractional measurement, or the text of a missing one in a
/// field of the same width, point and fraction included.
pub fn format_float_measurement_optional(
    value: Option<Binary32>,
    pad_main: u8,
    precision: u8,
    unit: &str,
) -> (text: heapless::String<16>)
    requires
        precision <= MAX_PRECISION,
        match value {
            Some(value) => utf8_len(float_measurement_text(value, pad_main, precision, unit@))
                <= CAPACITY,
            None => float_field_width(pad_main, precision) < CAPACITY,
        },
    ensures
        text_of(text) == match value {
            Some(value) => float_measurement_text(value, pad_main, precision, unit@),
            None => missing_text(float_field_width(pad_main, precision), unit@),
        },
{
    match value {
        Some(value) => format_float_measurement(value, pad_main, precision, unit),
        None => {
            let width: u8 = if precision > 0 {
                pad_main + precision + 1
            } else {
                pad_main
            };
            format_none(width, unit)
        },
    }
}

} // verus!
