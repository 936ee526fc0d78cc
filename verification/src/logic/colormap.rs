//! Colour gradients: a measurement's place in its range, turned into the
//! colour of a light.
//!
//! Every quantity here is a 16-bit fraction of full scale: a level `v`
//! stands for `v / 65535`. That holds of the place that is looked up, of the
//! positions of anchors, and of the red, green and blue of a colour. An
//! 8-bit colour goes in as `byte * 257`, which is the same fraction, and
//! comes out as `255 * level / 65535` rounded down.
//!
//! A gradient is a list of anchors. Between two anchors a colour is mixed
//! linearly, each channel on its own, and rounded down to a level.

use vstd::prelude::*;
use crate::logic::ticks::{lemma_ticks_monotonic, ticks_of, value_to_ticks};

verus! {

/// The level that stands for one.
pub const FULL: u16 = 65535;

/// A colour: the levels of red, green and blue.
pub type Color = (u16, u16, u16);

/// An anchor of a gradient: the levels of red, green and blue, and the
/// position of the anchor between the ends of the gradient.
pub type ColorSegment = (u16, u16, u16, u16);

/// Why a list of anchors is no gradient.
#[derive(Debug, Copy, Clone, PartialEq, Eq, Structural)]
pub enum ColorMapError {
    /// The list is empty.
    NoAnchors,
    /// A position is lower than the one before it.
    Unsorted,
}

/// The level `part / whole` of the way from `from` to `to`, rounded down.
pub open spec fn mix(from: int, to: int, part: int, whole: int) -> int
    recommends
        0 <= part <= whole,
        0 < whole,
{
    from + ((to - from) * part) / whole
}

/// The colour `part / whole` of the way from `from` to `to`.
pub open spec fn mix_colors(
    from: Color,
    to: Color,
    part: int,
    whole: int,
) -> Color
    recommends
        0 <= part <= whole,
        0 < whole,
{
    (
        mix(from.0 as int, to.0 as int, part, whole) as u16,
        mix(from.1 as int, to.1 as int, part, whole) as u16,
        mix(from.2 as int, to.2 as int, part, whole) as u16,
    )
}

/// The colour of an anchor with a position.
pub open spec fn color_of(anchor: ColorSegment) -> Color {
    (anchor.0, anchor.1, anchor.2)
}

/// The colour at `fraction` of a gradient whose anchors are spaced evenly
/// from zero to one: with `n` anchors the place is `fraction * (n - 1)`,
/// its whole part picks the anchor below, and its fractional part mixes
/// that anchor with the next.
pub open spec fn even_color(colors: Seq<Color>, fraction: int) -> Color
    recommends
        colors.len() > 0,
        0 <= fraction <= 65535,
{
    let place = fraction * (colors.len() - 1);
    let below = place / 65535;
    let above = if below + 1 < colors.len() {
        below + 1
    } else {
        below
    };
    mix_colors(colors[below], colors[above], place % 65535, 65535)
}

/// No position is lower than one before it.
pub open spec fn sorted(colors: Seq<ColorSegment>) -> bool {
    forall|i: int, j: int| 0 <= i <= j < colors.len() ==> colors[i].3 <= colors[j].3
}

/// The index, from `start` on, of the first anchor whose position is at
/// least `fraction`; the number of anchors if there is none.
pub open spec fn first_reaching(colors: Seq<ColorSegment>, fraction: int, start: int) -> int
    decreases colors.len() - start,
{
    if start < 0 || start >= colors.len() {
        colors.len() as int
    } else if fraction <= colors[start].3 {
        start
    } else {
        first_reaching(colors, fraction, start + 1)
    }
}

/// The colour at `fraction` of a gradient whose anchors have positions.
/// The first anchor at or after `fraction` and the one before it are
/// mixed by the place of `fraction` between their positions. Before the
/// first anchor the colour is the first anchor's, after the last one the
/// last anchor's.
pub open spec fn positioned_color(colors: Seq<ColorSegment>, fraction: int) -> Color
    recommends
        colors.len() > 0,
        sorted(colors),
{
    let above = first_reaching(colors, fraction, 0);
    if above == 0 {
        color_of(colors[0])
    } else if above == colors.len() {
        color_of(colors[colors.len() - 1])
    } else {
        mix_colors(
            color_of(colors[above - 1]),
            color_of(colors[above]),
            fraction - colors[above - 1].3,
            colors[above].3 - colors[above - 1].3,
        )
    }
}

/// The 8-bit value of a level: 255 times the fraction, rounded down.
pub open spec fn byte_of(level: u16) -> int {
    (255 * level) / 65535
}

/// The level of an 8-bit value: the same fraction of full scale.
pub open spec fn level_of(byte: u8) -> int {
    byte * 257
}

/// The division of a number that is not positive rounds towards minus
/// infinity: it is minus the division of its magnitude, rounded up.
pub proof fn lemma_div_negative(x: int, w: int)
    requires
        x >= 0,
        w > 0,
    ensures
        (-x) / w == -((x + w - 1) / w),
{
    let c = (x + w - 1) / w;
    let r = (x + w - 1) % w;
    vstd::arithmetic::div_mod::lemma_fundamental_div_mod(x + w - 1, w);
    vstd::arithmetic::div_mod::lemma_mod_bound(x + w - 1, w);
    assert(-x == (-c) * w + (w - 1 - r)) by (nonlinear_arith)
        requires
            x + w - 1 == w * c + r,
    ;
    vstd::arithmetic::div_mod::lemma_fundamental_div_mod_converse(-x, w, -c, w - 1 - r);
}

/// A mixed level lies between the two levels that were mixed, and is the
/// first of them when the part is zero.
pub proof fn lemma_mix_between(from: int, to: int, part: int, whole: int)
    requires
        0 <= part <= whole,
        0 < whole,
    ensures
        from <= to ==> from <= mix(from, to, part, whole) <= to,
        to <= from ==> to <= mix(from, to, part, whole) <= from,
        part == 0 ==> mix(from, to, part, whole) == from,
        part == whole ==> mix(from, to, part, whole) == to,
{
    let span = to - from;
    if span >= 0 {
        assert(0 <= span * part <= span * whole) by (nonlinear_arith)
            requires
                0 <= part <= whole,
                span >= 0,
        ;
        vstd::arithmetic::div_mod::lemma_div_pos_is_pos(span * part, whole);
        vstd::arithmetic::div_mod::lemma_div_is_ordered(span * part, span * whole, whole);
        vstd::arithmetic::div_mod::lemma_div_multiples_vanish(span, whole);
        assert(span * whole == whole * span) by (nonlinear_arith);
    } else {
        let x = (-span) * part;
        assert(0 <= x <= (-span) * whole && span * part == -x) by (nonlinear_arith)
            requires
                x == (-span) * part,
                0 <= part <= whole,
                span < 0,
        ;
        lemma_div_negative(x, whole);
        vstd::arithmetic::div_mod::lemma_div_pos_is_pos(x + whole - 1, whole);
        // x + whole - 1 < (-span + 1) * whole
        assert(x + whole - 1 < whole * (-span + 1)) by (nonlinear_arith)
            requires
                x <= (-span) * whole,
                whole > 0,
        ;
        vstd::arithmetic::div_mod::lemma_multiply_divide_lt(x + whole - 1, whole, -span + 1);
        if part == 0 {
            assert(x == 0) by (nonlinear_arith)
                requires
                    x == (-span) * part,
                    part == 0,
            ;
            vstd::arithmetic::div_mod::lemma_basic_div(whole - 1, whole);
        }
        if part == whole {
            assert(span * whole == whole * span) by (nonlinear_arith);
            assert(span * part == whole * span);
            vstd::arithmetic::div_mod::lemma_div_multiples_vanish(span, whole);
        }
    }
}

/// Mixes two levels.
fn mix_levels(from: u16, to: u16, part: u16, whole: u16) -> (level: u16)
    requires
        part <= whole,
        0 < whole,
    ensures
        level == mix(from as int, to as int, part as int, whole as int),
{
    proof {
        lemma_mix_between(from as int, to as int, part as int, whole as int);
    }
    if to >= from {
        let span: u32 = (to - from) as u32;
        assert(span * part <= 65535 * 65535) by (nonlinear_arith)
            requires
                span <= 65535,
                part <= 65535,
        ;
        let step: u32 = span * part as u32 / whole as u32;
        (from as u32 + step) as u16
    } else {
        let span: u32 = (from - to) as u32;
        assert(span * part <= 65535 * 65535) by (nonlinear_arith)
            requires
                span <= 65535,
                part <= 65535,
        ;
        let x: u32 = span * part as u32;
        proof {
            lemma_div_negative(x as int, whole as int);
            assert((to - from) * part == -(x as int)) by (nonlinear_arith)
                requires
                    x == (from - to) * part,
            ;
        }
        let step: u32 = (x + whole as u32 - 1) / whole as u32;
        (from as u32 - step) as u16
    }
}

/// Mixes two colours, channel by channel.
fn mix_pair(from: Color, to: Color, part: u16, whole: u16) -> (color: Color)
    requires
        part <= whole,
        0 < whole,
    ensures
        color == mix_colors(from, to, part as int, whole as int),
{
    (
        mix_levels(from.0, to.0, part, whole),
        mix_levels(from.1, to.1, part, whole),
        mix_levels(from.2, to.2, part, whole),
    )
}

/// The colour at `fraction` of an evenly spaced gradient.
fn even_lookup(colors: &[Color], fraction: u16) -> (color: Color)
    requires
        colors@.len() > 0,
    ensures
        color == even_color(colors@, fraction as int),
{
    let count: usize = colors.len();
    let steps: u128 = (count - 1) as u128;
    assert(fraction * steps <= 65535 * steps) by (nonlinear_arith)
        requires
            fraction <= 65535,
            steps >= 0,
    ;
    let place: u128 = fraction as u128 * steps;
    let below: usize = (place / 65535) as usize;
    let part: u16 = (place % 65535) as u16;
    let above: usize = if below + 1 < count {
        below + 1
    } else {
        below
    };
    mix_pair(colors[below], colors[above], part, FULL)
}

/// The colour at `fraction` of the gradient whose anchors `colors` are
/// spaced evenly: the first anchor at 0, the last at 65535.
///
/// Fails exactly when there is no anchor.
pub fn linear_interpolating_map(colors: &[Color], fraction: u16) -> (r: Result<
    Color,
    ColorMapError,
>)
    ensures
        colors@.len() == 0 ==> r == Err::<Color, ColorMapError>(ColorMapError::NoAnchors),
        colors@.len() > 0 ==> r == Ok::<Color, ColorMapError>(
            even_color(colors@, fraction as int),
        ),
{
    if colors.len() == 0 {
        return Err(ColorMapError::NoAnchors);
    }
    Ok(even_lookup(colors, fraction))
}

/// Tells whether no position is lower than the one before it.
fn is_sorted(colors: &[ColorSegment]) -> (r: bool)
    ensures
        r == sorted(colors@),
{
    let count: usize = colors.len();
    if count == 0 {
        return true;
    }
    let mut i: usize = 1;
    while i < count
        invariant
            1 <= i <= count,
            count == colors@.len(),
            forall|a: int, b: int| 0 <= a <= b < i ==> colors@[a].3 <= colors@[b].3,
        decreases count - i,
    {
        if colors[i - 1].3 > colors[i].3 {
            assert(!(colors@[i - 1].3 <= colors@[i as int].3));
            return false;
        }
        i = i + 1;
    }
    true
}

/// The colour at `fraction` of a gradient.
fn positioned_lookup(colors: &[ColorSegment], fraction: u16) -> (color: Color)
    requires
        colors@.len() > 0,
    ensures
        color == positioned_color(colors@, fraction as int),
{
    let count: usize = colors.len();
    let mut above: usize = 0;
    while above < count && fraction > colors[above].3
        invariant
            above <= count,
            count == colors@.len(),
            first_reaching(colors@, fraction as int, 0) == first_reaching(
                colors@,
                fraction as int,
                above as int,
            ),
            above > 0 ==> colors@[above - 1].3 < fraction,
        decreases count - above,
    {
        above = above + 1;
    }
    if above == 0 {
        let first = colors[0];
        (first.0, first.1, first.2)
    } else if above == count {
        let last = colors[count - 1];
        (last.0, last.1, last.2)
    } else {
        let from = colors[above - 1];
        let to = colors[above];
        mix_pair(
            (from.0, from.1, from.2),
            (to.0, to.1, to.2),
            fraction - from.3,
            to.3 - from.3,
        )
    }
}

/// The colour at `fraction` of the gradient whose anchors `colors` each
/// carry a colour and, last, a position.
///
/// Fails with `NoAnchors` exactly when there is no anchor, and with
/// `Unsorted` exactly when there are anchors and one of them has a lower
/// position than one before it.
pub fn linear_position_interpolating_map(colors: &[ColorSegment], fraction: u16) -> (r:
    Result<Color, ColorMapError>)
    ensures
        colors@.len() == 0 ==> r == Err::<Color, ColorMapError>(ColorMapError::NoAnchors),
        colors@.len() > 0 && !sorted(colors@) ==> r == Err::<Color, ColorMapError>(
            ColorMapError::Unsorted,
        ),
        colors@.len() > 0 && sorted(colors@) ==> r == Ok::<Color, ColorMapError>(
            positioned_color(colors@, fraction as int),
        ),
{
    if colors.len() == 0 {
        return Err(ColorMapError::NoAnchors);
    }
    if !is_sorted(colors) {
        return Err(ColorMapError::Unsorted);
    }
    Ok(positioned_lookup(colors, fraction))
}

/// Turns the levels of a colour into 8-bit values, rounding down.
pub fn fractions_to_rgb(colors: Color) -> (rgb: (u8, u8, u8))
    ensures
        rgb.0 == byte_of(colors.0),
        rgb.1 == byte_of(colors.1),
        rgb.2 == byte_of(colors.2),
{
    (
        (255 * colors.0 as u32 / 65535) as u8,
        (255 * colors.1 as u32 / 65535) as u8,
        (255 * colors.2 as u32 / 65535) as u8,
    )
}

/// Turns the 8-bit values of a colour into levels, exactly.
pub fn rgb_to_fractions(rgb: (u8, u8, u8)) -> (colors: Color)
    ensures
        colors.0 == level_of(rgb.0),
        colors.1 == level_of(rgb.1),
        colors.2 == level_of(rgb.2),
        byte_of(colors.0) == rgb.0,
        byte_of(colors.1) == rgb.1,
        byte_of(colors.2) == rgb.2,
{
    (rgb.0 as u16 * 257, rgb.1 as u16 * 257, rgb.2 as u16 * 257)
}

/// The 8-bit colour of a colour in levels.
pub open spec fn rgb_of(color: Color) -> (u8, u8, u8) {
    (byte_of(color.0) as u8, byte_of(color.1) as u8, byte_of(color.2) as u8)
}

/// The colour in levels of an 8-bit colour.
pub open spec fn levels(red: u8, green: u8, blue: u8) -> Color {
    (level_of(red) as u16, level_of(green) as u16, level_of(blue) as u16)
}

/// The anchors of the red-yellow-green gradient, from green to red.
pub open spec fn rdylgn_colors() -> Seq<Color> {
    seq![
        levels(0, 104, 55),
        levels(26, 152, 80),
        levels(102, 189, 99),
        levels(166, 217, 106),
        levels(217, 239, 139),
        levels(255, 255, 191),
        levels(254, 224, 139),
        levels(253, 174, 97),
        levels(244, 109, 67),
        levels(215, 48, 39),
        levels(165, 0, 38),
    ]
}

/// The anchors of the plain gradient: green, yellow, red, blue.
pub open spec fn simple_colors() -> Seq<Color> {
    seq![levels(0, 255, 0), levels(255, 255, 0), levels(255, 0, 0), levels(0, 0, 255)]
}

/// An anchor: a colour, and the place of `value` in `[min, max]` as its
/// position.
pub open spec fn anchor(color: Color, value: int, min: int, max: int) -> ColorSegment {
    (color.0, color.1, color.2, ticks_of(value, min, max) as u16)
}

/// The anchors of the CO2 gradient over 424 to 3000 ppm: green at 424,
/// yellow at 1000, red at 1600, blue at 3000.
pub open spec fn co2_colors() -> Seq<ColorSegment> {
    seq![
        anchor(levels(0, 255, 0), 424, 424, 3000),
        anchor(levels(255, 255, 0), 1000, 424, 3000),
        anchor(levels(255, 0, 0), 1600, 424, 3000),
        anchor(levels(0, 0, 255), 3000, 424, 3000),
    ]
}

/// The anchors of a gradient from blue over green and yellow to red,
/// over `0` to `max`: blue at 0, green at `green`, yellow at `yellow`,
/// red at `max`.
pub open spec fn rising_colors(green: int, yellow: int, max: int) -> Seq<ColorSegment> {
    seq![
        anchor(levels(0, 0, 255), 0, 0, max),
        anchor(levels(0, 255, 0), green, 0, max),
        anchor(levels(255, 255, 0), yellow, 0, max),
        anchor(levels(255, 0, 0), max, 0, max),
    ]
}

/// The anchors of the VOC gradient over an index of 0 to 500: green at
/// 100, which is average air, and yellow at 200.
pub open spec fn voc_colors() -> Seq<ColorSegment> {
    rising_colors(100, 200, 500)
}

/// The anchors of the temperature gradient over 0 to 45 degrees Celsius:
/// green at 15 and yellow at 25.
pub open spec fn temp_colors() -> Seq<ColorSegment> {
    rising_colors(15, 25, 45)
}

/// The anchors of the particulate gradient over 0 to 50 micrograms per
/// cubic metre: green at 10 and yellow at 20.
pub open spec fn pm10_colors() -> Seq<ColorSegment> {
    rising_colors(10, 20, 50)
}

/// The anchors of the pressure gradient over 990 to 1040 hPa, counted in
/// quarters of a hectopascal: blue at 990, cyan at 1000, green at 1013.25,
/// red at 1026, magenta at 1040.
pub open spec fn pressure_colors() -> Seq<ColorSegment> {
    seq![
        anchor(levels(0, 0, 255), 3960, 3960, 4160),
        anchor(levels(0, 255, 255), 4000, 3960, 4160),
        anchor(levels(0, 255, 0), 4053, 3960, 4160),
        anchor(levels(255, 0, 0), 4104, 3960, 4160),
        anchor(levels(255, 0, 255), 4160, 3960, 4160),
    ]
}

/// Builds an anchor from an 8-bit colour and the place of `value` in
/// `[min, max]`.
fn anchor_at(rgb: (u8, u8, u8), value: i32, min: i32, max: i32) -> (r: ColorSegment)
    requires
        min < max,
    ensures
        r == anchor(levels(rgb.0, rgb.1, rgb.2), value as int, min as int, max as int),
{
    let color = rgb_to_fractions(rgb);
    (color.0, color.1, color.2, value_to_ticks(value, min, max))
}

/// The colour at `fraction` of the gradient from blue over green and
/// yellow to red.
fn rising_map(green: i32, yellow: i32, max: i32, fraction: u16) -> (color: Color)
    requires
        0 < max,
    ensures
        color == positioned_color(
            rising_colors(green as int, yellow as int, max as int),
            fraction as int,
        ),
{
    let colors: [ColorSegment; 4] = [
        anchor_at((0, 0, 255), 0, 0, max),
        anchor_at((0, 255, 0), green, 0, max),
        anchor_at((255, 255, 0), yellow, 0, max),
        anchor_at((255, 0, 0), max, 0, max),
    ];
    assert(colors@ =~= rising_colors(green as int, yellow as int, max as int));
    positioned_lookup(&colors, fraction)
}

/// The colour at `fraction` of the red-yellow-green gradient, which runs
/// from green at 0 to red at 65535.
pub fn rdylgn_map(fraction: u16) -> (color: Color)
    ensures
        color == even_color(rdylgn_colors(), fraction as int),
{
    let colors: [Color; 11] = [
        rgb_to_fractions((0, 104, 55)),
        rgb_to_fractions((26, 152, 80)),
        rgb_to_fractions((102, 189, 99)),
        rgb_to_fractions((166, 217, 106)),
        rgb_to_fractions((217, 239, 139)),
        rgb_to_fractions((255, 255, 191)),
        rgb_to_fractions((254, 224, 139)),
        rgb_to_fractions((253, 174, 97)),
        rgb_to_fractions((244, 109, 67)),
        rgb_to_fractions((215, 48, 39)),
        rgb_to_fractions((165, 0, 38)),
    ];
    assert(colors@ =~= rdylgn_colors());
    even_lookup(&colors, fraction)
}

/// `rdylgn_map` in 8-bit values.
pub fn rdylgn_map_rgb(fraction: u16) -> (rgb: (u8, u8, u8))
    ensures
        rgb == rgb_of(even_color(rdylgn_colors(), fraction as int)),
{
    fractions_to_rgb(rdylgn_map(fraction))
}

/// The colour at `fraction` of the plain gradient: green, yellow, red and
/// blue, evenly spaced.
pub fn simple_map(fraction: u16) -> (color: Color)
    ensures
        color == even_color(simple_colors(), fraction as int),
{
    let colors: [Color; 4] = [
        rgb_to_fractions((0, 255, 0)),
        rgb_to_fractions((255, 255, 0)),
        rgb_to_fractions((255, 0, 0)),
        rgb_to_fractions((0, 0, 255)),
    ];
    assert(colors@ =~= simple_colors());
    even_lookup(&colors, fraction)
}

/// `simple_map` in 8-bit values.
pub fn simple_map_rgb(fraction: u16) -> (rgb: (u8, u8, u8))
    ensures
        rgb == rgb_of(even_color(simple_colors(), fraction as int)),
{
    fractions_to_rgb(simple_map(fraction))
}

/// The colour of a CO2 concentration whose place between 424 and 3000
/// ppm is `fraction`.
pub fn co2_map(fraction: u16) -> (color: Color)
    ensures
        color == positioned_color(co2_colors(), fraction as int),
{
    let colors: [ColorSegment; 4] = [
        anchor_at((0, 255, 0), 424, 424, 3000),
        anchor_at((255, 255, 0), 1000, 424, 3000),
        anchor_at((255, 0, 0), 1600, 424, 3000),
        anchor_at((0, 0, 255), 3000, 424, 3000),
    ];
    assert(colors@ =~= co2_colors());
    positioned_lookup(&colors, fraction)
}

/// `co2_map` in 8-bit values.
pub fn co2_map_rgb(fraction: u16) -> (rgb: (u8, u8, u8))
    ensures
        rgb == rgb_of(positioned_color(co2_colors(), fraction as int)),
{
    fractions_to_rgb(co2_map(fraction))
}

/// The colour of a VOC index whose place between 0 and 500 is
/// `fraction`.
pub fn voc_map(fraction: u16) -> (color: Color)
    ensures
        color == positioned_color(voc_colors(), fraction as int),
{
    rising_map(100, 200, 500, fraction)
}

/// `voc_map` in 8-bit values.
pub fn voc_map_rgb(fraction: u16) -> (rgb: (u8, u8, u8))
    ensures
        rgb == rgb_of(positioned_color(voc_colors(), fraction as int)),
{
    fractions_to_rgb(voc_map(fraction))
}

/// The colour of a temperature whose place between 0 and 45 degrees
/// Celsius is `fraction`.
pub fn temp_map(fraction: u16) -> (color: Color)
    ensures
        color == positioned_color(temp_colors(), fraction as int),
{
    rising_map(15, 25, 45, fraction)
}

/// `temp_map` in 8-bit values.
pub fn temp_map_rgb(fraction: u16) -> (rgb: (u8, u8, u8))
    ensures
        rgb == rgb_of(positioned_color(temp_colors(), fraction as int)),
{
    fractions_to_rgb(temp_map(fraction))
}

/// The colour of a PM10 mass concentration whose place between 0 and 50
/// micrograms per cubic metre is `fraction`.
pub fn pm10_map(fraction: u16) -> (color: Color)
    ensures
        color == positioned_color(pm10_colors(), fraction as int),
{
    rising_map(10, 20, 50, fraction)
}

/// `pm10_map` in 8-bit values.
pub fn pm10_map_rgb(fraction: u16) -> (rgb: (u8, u8, u8))
    ensures
        rgb == rgb_of(positioned_color(pm10_colors(), fraction as int)),
{
    fractions_to_rgb(pm10_map(fraction))
}

/// The colour of an air pressure whose place between 990 and 1040 hPa is
/// `fraction`.
pub fn pressure_map(fraction: u16) -> (color: Color)
    ensures
        color == positioned_color(pressure_colors(), fraction as int),
{
    let colors: [ColorSegment; 5] = [
        anchor_at((0, 0, 255), 3960, 3960, 4160),
        anchor_at((0, 255, 255), 4000, 3960, 4160),
        anchor_at((0, 255, 0), 4053, 3960, 4160),
        anchor_at((255, 0, 0), 4104, 3960, 4160),
        anchor_at((255, 0, 255), 4160, 3960, 4160),
    ];
    assert(colors@ =~= pressure_colors());
    positioned_lookup(&colors, fraction)
}

/// `pressure_map` in 8-bit values.
pub fn pressure_map_rgb(fraction: u16) -> (rgb: (u8, u8, u8))
    ensures
        rgb == rgb_of(positioned_color(pressure_colors(), fraction as int)),
{
    fractions_to_rgb(pressure_map(fraction))
}

/// The positions of a gradient from blue to red rise whenever its
/// turning points do.
pub proof fn lemma_rising_sorted(green: int, yellow: int, max: int)
    requires
        0 <= green <= yellow <= max,
        0 < max,
    ensures
        sorted(rising_colors(green, yellow, max)),
{
    lemma_ticks_monotonic(0, green, 0, max);
    lemma_ticks_monotonic(green, yellow, 0, max);
    lemma_ticks_monotonic(yellow, max, 0, max);
}

/// The gradients of the five measurements are sorted, start at position
/// 0 and end at position 65535.
pub proof fn lemma_gradients_sorted()
    ensures
        sorted(co2_colors()),
        sorted(voc_colors()),
        sorted(temp_colors()),
        sorted(pm10_colors()),
        sorted(pressure_colors()),
        co2_colors()[0].3 == 0 && co2_colors()[3].3 == 65535,
        voc_colors()[0].3 == 0 && voc_colors()[3].3 == 65535,
        temp_colors()[0].3 == 0 && temp_colors()[3].3 == 65535,
        pm10_colors()[0].3 == 0 && pm10_colors()[3].3 == 65535,
        pressure_colors()[0].3 == 0 && pressure_colors()[4].3 == 65535,
{
    lemma_ticks_monotonic(424, 1000, 424, 3000);
    lemma_ticks_monotonic(1000, 1600, 424, 3000);
    lemma_ticks_monotonic(1600, 3000, 424, 3000);
    lemma_rising_sorted(100, 200, 500);
    lemma_rising_sorted(15, 25, 45);
    lemma_rising_sorted(10, 20, 50);
    lemma_ticks_monotonic(3960, 4000, 3960, 4160);
    lemma_ticks_monotonic(4000, 4053, 3960, 4160);
    lemma_ticks_monotonic(4053, 4104, 3960, 4160);
    lemma_ticks_monotonic(4104, 4160, 3960, 4160);
}

/// Where the search for the first anchor at or after `fraction` ends:
/// every anchor before that place has a lower position, and the anchor at
/// that place, if there is one, has not.
pub proof fn lemma_first_reaching(colors: Seq<ColorSegment>, fraction: int, start: int)
    requires
        0 <= start <= colors.len(),
    ensures
        start <= first_reaching(colors, fraction, start) <= colors.len(),
        forall|j: int|
            start <= j < first_reaching(colors, fraction, start) ==> (#[trigger] colors[j]).3
                < fraction,
        first_reaching(colors, fraction, start) < colors.len() ==> fraction
            <= colors[first_reaching(colors, fraction, start)].3,
    decreases colors.len() - start,
{
    if start < colors.len() && fraction > colors[start].3 {
        lemma_first_reaching(colors, fraction, start + 1);
    }
}

/// An evenly spaced gradient gives its first anchor at 0 and its last
/// anchor at 65535, exactly.
pub proof fn lemma_even_ends(colors: Seq<Color>)
    requires
        colors.len() > 0,
    ensures
        even_color(colors, 0) == colors[0],
        even_color(colors, 65535) == colors[colors.len() - 1],
{
    let steps = colors.len() - 1;
    let first = colors[0];
    let next = colors[if steps > 0 { 1int } else { 0int }];
    lemma_mix_between(first.0 as int, next.0 as int, 0, 65535);
    lemma_mix_between(first.1 as int, next.1 as int, 0, 65535);
    lemma_mix_between(first.2 as int, next.2 as int, 0, 65535);
    assert(0 * steps == 0);
    let last = colors[steps];
    assert(65535 * steps / 65535 == steps && 65535 * steps % 65535 == 0);
    lemma_mix_between(last.0 as int, last.0 as int, 0, 65535);
    lemma_mix_between(last.1 as int, last.1 as int, 0, 65535);
    lemma_mix_between(last.2 as int, last.2 as int, 0, 65535);
}

/// A gradient with positions gives its first anchor's colour up to that
/// anchor's position and its last anchor's colour beyond the last
/// position, both unmixed.
pub proof fn lemma_positioned_ends(colors: Seq<ColorSegment>, fraction: int)
    requires
        colors.len() > 0,
        sorted(colors),
    ensures
        fraction <= colors[0].3 ==> positioned_color(colors, fraction) == color_of(colors[0]),
        fraction > colors[colors.len() - 1].3 ==> positioned_color(colors, fraction) == color_of(
            colors[colors.len() - 1],
        ),
{
    lemma_first_reaching(colors, fraction, 0);
}

/// At the position of an anchor a gradient gives that anchor's colour,
/// unmixed, if no anchor before it has the same position.
pub proof fn lemma_positioned_at_anchor(colors: Seq<ColorSegment>, at: int)
    requires
        0 <= at < colors.len(),
        sorted(colors),
        at > 0 ==> colors[at - 1].3 < colors[at].3,
    ensures
        positioned_color(colors, colors[at].3 as int) == color_of(colors[at]),
{
    let fraction = colors[at].3 as int;
    lemma_first_reaching(colors, fraction, 0);
    let above = first_reaching(colors, fraction, 0);
    assert(above == at) by {
        if above < at {
            assert(colors[above].3 <= colors[at - 1].3);
        }
        if above > at {
            assert(colors[at].3 < fraction);
        }
    }
    if at > 0 {
        let from = color_of(colors[at - 1]);
        let to = color_of(colors[at]);
        let whole = colors[at].3 - colors[at - 1].3;
        lemma_mix_between(from.0 as int, to.0 as int, whole, whole);
        lemma_mix_between(from.1 as int, to.1 as int, whole, whole);
        lemma_mix_between(from.2 as int, to.2 as int, whole, whole);
    }
}

/// No overshoot, evenly spaced: where every channel of every anchor lies
/// in `[low, high]`, so does every channel of every colour of the
/// gradient.
pub proof fn lemma_even_within(colors: Seq<Color>, fraction: int, low: int, high: int)
    requires
        colors.len() > 0,
        0 <= fraction <= 65535,
        forall|i: int|
            0 <= i < colors.len() ==> {
                &&& low <= (#[trigger] colors[i]).0 <= high
                &&& low <= colors[i].1 <= high
                &&& low <= colors[i].2 <= high
            },
    ensures
        low <= even_color(colors, fraction).0 <= high,
        low <= even_color(colors, fraction).1 <= high,
        low <= even_color(colors, fraction).2 <= high,
{
    let steps = colors.len() - 1;
    let place = fraction * steps;
    assert(0 <= place <= 65535 * steps) by (nonlinear_arith)
        requires
            place == fraction * steps,
            0 <= fraction <= 65535,
            steps >= 0,
    ;
    let below = place / 65535;
    let above = if below + 1 < colors.len() {
        below + 1
    } else {
        below
    };
    let from = colors[below];
    let to = colors[above];
    lemma_mix_between(from.0 as int, to.0 as int, place % 65535, 65535);
    lemma_mix_between(from.1 as int, to.1 as int, place % 65535, 65535);
    lemma_mix_between(from.2 as int, to.2 as int, place % 65535, 65535);
}

/// No overshoot, with positions: where every channel of every anchor lies
/// in `[low, high]`, so does every channel of every colour of the
/// gradient.
pub proof fn lemma_positioned_within(
    colors: Seq<ColorSegment>,
    fraction: int,
    low: int,
    high: int,
)
    requires
        colors.len() > 0,
        forall|i: int|
            0 <= i < colors.len() ==> {
                &&& low <= (#[trigger] colors[i]).0 <= high
                &&& low <= colors[i].1 <= high
                &&& low <= colors[i].2 <= high
            },
    ensures
        low <= positioned_color(colors, fraction).0 <= high,
        low <= positioned_color(colors, fraction).1 <= high,
        low <= positioned_color(colors, fraction).2 <= high,
{
    lemma_first_reaching(colors, fraction, 0);
    let above = first_reaching(colors, fraction, 0);
    if 0 < above < colors.len() {
        let from = color_of(colors[above - 1]);
        let to = color_of(colors[above]);
        let part = fraction - colors[above - 1].3;
        let whole = colors[above].3 - colors[above - 1].3;
        lemma_mix_between(from.0 as int, to.0 as int, part, whole);
        lemma_mix_between(from.1 as int, to.1 as int, part, whole);
        lemma_mix_between(from.2 as int, to.2 as int, part, whole);
    }
}

/// Rounding a colour down to levels first and to 8-bit values after
/// loses nothing: the 8-bit value of a mixed level is 255 times the exact
/// mix, rounded down.
pub proof fn lemma_byte_of_mix(from: int, to: int, part: int, whole: int)
    requires
        0 <= from <= 65535,
        0 <= to <= 65535,
        0 <= part <= whole,
        0 < whole,
    ensures
        byte_of(mix(from, to, part, whole) as u16) == (from * whole + (to - from) * part) / (257
            * whole),
{
    let n = from * whole + (to - from) * part;
    lemma_mix_between(from, to, part, whole);
    let m = mix(from, to, part, whole);
    vstd::arithmetic::div_mod::lemma_hoist_over_denominator((to - from) * part, from, whole as nat);
    assert(m == n / whole);
    assert(n >= 0) by {
        vstd::arithmetic::div_mod::lemma_fundamental_div_mod(n, whole);
        vstd::arithmetic::div_mod::lemma_mod_bound(n, whole);
        assert(whole * m >= 0) by (nonlinear_arith)
            requires
                whole > 0,
                m >= 0,
        ;
        if n < 0 {
            vstd::arithmetic::div_mod::lemma_div_by_multiple_is_strongly_ordered(
                n,
                0,
                whole,
                whole,
            );
        }
    }
    vstd::arithmetic::div_mod::lemma_div_denominator(n, whole, 257);
    assert((255 * m) / 65535 == m / 257);
}

} // verus!
