//! The likelihood colour scale.
//!
//! Probabilities are quantised into a small number of levels and drawn from a
//! semantic heat ramp: unlikely readings are yellow and recede towards the page, likely
//! ones are a saturated red. Both ramps are monotone in OKLCH lightness (light mode runs
//! L 0.95 -> 0.43, dark mode L 0.34 -> 0.65), so the scale still reads correctly in
//! greyscale and under colour vision deficiencies; the multi-hue journey is the
//! "semantic heat" case, which is why the page always ships a scale legend and a table
//! view of the same numbers.

use vstd::prelude::*;

use crate::text;

verus! {

/// Number of colour levels used unless the caller asks for another.
pub const DEFAULT_LEVELS: usize = 10;

/// Levels below this would blur into each other; above [`MAX_LEVELS`] the legend gets
/// unreadable.
pub const MIN_LEVELS: usize = 3;

pub const MAX_LEVELS: usize = 16;

/// Heat ramp for a light surface (`#fcfcfb`), least to most likely.
pub const HEAT_LIGHT: [&'static str; DEFAULT_LEVELS] = [
    "#fef0b4",
    "#fde68f",
    "#fbd464",
    "#f9bd45",
    "#f6a132",
    "#ef8329",
    "#e26522",
    "#d0481f",
    "#b62f1d",
    "#96161a",
];

/// The same journey stepped for a dark surface (`#1a1a19`), least to most likely.
pub const HEAT_DARK: [&'static str; DEFAULT_LEVELS] = [
    "#433700",
    "#4e4000",
    "#5c4700",
    "#6d4d00",
    "#834f00",
    "#9c4f00",
    "#b54c10",
    "#c84d2b",
    "#db503c",
    "#ed534e",
];

/// Steps on the coverage strip's scale, above "nothing recorded".
pub const COVERAGE_LEVELS: usize = 5;

/// How much of a facet's calendar an hour was observed on, for a light surface.
///
/// Deliberately neutral grey: coverage is a second, secondary encoding sitting under the
/// same plot as the likelihood heat, and a hue there would read as another probability.
pub const COVERAGE_LIGHT: [&'static str; COVERAGE_LEVELS] = [
    "#e8e7e0",
    "#d3d2c8",
    "#b9b8ac",
    "#9d9b8f",
    "#7e7c72",
];

/// The same scale stepped for a dark surface.
pub const COVERAGE_DARK: [&'static str; COVERAGE_LEVELS] = [
    "#2c2c2a",
    "#3d3d3a",
    "#52514e",
    "#6a6963",
    "#898781",
];

// ---------------------------------------------------------------------------------------
// Coverage
// ---------------------------------------------------------------------------------------

/// Whether a share of the calendar lands on a step: the lowest whose upper end it does not
/// exceed, where each step stands for an equal part of the calendar and the last one has no
/// end.
pub open spec fn is_coverage_step(observed: nat, possible: nat, step: int) -> bool {
    &&& 0 <= step < COVERAGE_LEVELS
    &&& step > 0 ==> observed * COVERAGE_LEVELS > step * possible
    &&& step < COVERAGE_LEVELS - 1 ==> observed * COVERAGE_LEVELS <= (step + 1) * possible
}

/// Which coverage step a share of the calendar lands on, or `None` for nothing observed.
pub fn coverage_level(observed: u32, possible: u32) -> (level: Option<usize>)
    ensures
        match level {
            None => observed == 0,
            Some(step) => observed > 0 && is_coverage_step(
                observed as nat,
                possible as nat,
                step as int,
            ),
        },
{
    if observed == 0 {
        return None;
    }
    let share: u64 = observed as u64 * 5;
    let mut step: usize = 0;
    let mut end: u64 = possible as u64;
    while step < COVERAGE_LEVELS - 1 && share > end
        invariant
            step <= COVERAGE_LEVELS - 1,
            share == observed * COVERAGE_LEVELS,
            step > 0 ==> share > step * possible,
            end == (step + 1) * possible,
            end <= (step + 1) * u32::MAX,
        decreases COVERAGE_LEVELS - step,
    {
        proof {
            assert((step + 1) * possible + possible == (step + 2) * possible) by (nonlinear_arith);
        }
        end = end + possible as u64;
        step = step + 1;
    }
    Some(step)
}

/// A share of the calendar lands on one step only, and more days never land on a lower one.
pub proof fn coverage_steps_never_fall(
    fewer: nat,
    more: nat,
    possible: nat,
    lower: int,
    higher: int,
)
    requires
        fewer <= more,
        is_coverage_step(fewer, possible, lower),
        is_coverage_step(more, possible, higher),
    ensures
        lower <= higher,
        fewer == more ==> lower == higher,
{
    if lower > higher {
        assert((higher + 1) * possible <= lower * possible) by (nonlinear_arith)
            requires
                higher + 1 <= lower,
        ;
    }
    if higher > lower {
        assert((lower + 1) * possible <= higher * possible) by (nonlinear_arith)
            requires
                lower + 1 <= higher,
        ;
    }
}

// ---------------------------------------------------------------------------------------
// Hexadecimal colours
// ---------------------------------------------------------------------------------------

/// What a hexadecimal digit stands for.
pub open spec fn digit_value(c: char) -> Option<nat> {
    if '0' <= c <= '9' {
        Some((c as u32 - '0' as u32) as nat)
    } else if 'a' <= c <= 'f' {
        Some((c as u32 - 'a' as u32 + 10) as nat)
    } else if 'A' <= c <= 'F' {
        Some((c as u32 - 'A' as u32 + 10) as nat)
    } else {
        None
    }
}

/// The number that hexadecimal digits write, if all of them are digits.
pub open spec fn digits_value(digits: Seq<char>) -> Option<nat>
    decreases digits.len(),
{
    if digits.len() == 0 {
        Some(0)
    } else {
        match (digits_value(digits.drop_last()), digit_value(digits.last())) {
            (Some(before), Some(digit)) => Some(before * 16 + digit),
            _ => None,
        }
    }
}

/// The digits of a colour: what follows any leading `#`, and a plus sign where more follows.
pub open spec fn colour_digits(hex: Seq<char>) -> Seq<char> {
    let rest = text::without_leading(hex, seq!['#']);
    if rest.len() > 1 && rest[0] == '+' {
        rest.skip(1)
    } else {
        rest
    }
}

/// The number that a colour writes, or nothing where it is not a number of 32 bits.
pub open spec fn colour_value(hex: Seq<char>) -> nat {
    match digits_value(colour_digits(hex)) {
        Some(value) => if value <= u32::MAX {
            value
        } else {
            0
        },
        None => 0,
    }
}

/// The red, green and blue channels of a colour.
pub open spec fn channels_of(hex: Seq<char>) -> (u8, u8, u8) {
    let value = colour_value(hex);
    ((value / 0x1_0000 % 256) as u8, (value / 256 % 256) as u8, (value % 256) as u8)
}

fn digit_of(c: char) -> (digit: Option<u64>)
    ensures
        match digit {
            Some(digit) => digit < 16 && digit_value(c) == Some(digit as nat),
            None => digit_value(c) is None,
        },
{
    if '0' <= c && c <= '9' {
        Some((c as u8 - 48) as u64)
    } else if 'a' <= c && c <= 'f' {
        Some((c as u8 - 87) as u64)
    } else if 'A' <= c && c <= 'F' {
        Some((c as u8 - 55) as u64)
    } else {
        None
    }
}

/// More digits never make a number smaller, and none becomes valid by more digits.
proof fn digits_only_add(digits: Seq<char>, count: int)
    requires
        0 <= count <= digits.len(),
    ensures
        digits_value(digits) is Some ==> digits_value(digits.take(count)) is Some,
        digits_value(digits) matches Some(value) ==> digits_value(digits.take(count))->0 <= value,
    decreases digits.len() - count,
{
    if count == digits.len() {
        assert(digits.take(count) =~= digits);
    } else {
        digits_only_add(digits, count + 1);
        assert(digits.take(count + 1).drop_last() =~= digits.take(count));
    }
}

/// The red, green and blue channels of a `#rrggbb` colour; anything else is black.
pub fn parse_hex(hex: &str) -> (channels: (u8, u8, u8))
    ensures
        channels == channels_of(hex@),
{
    proof {
        reveal_strlit("#");
        assert("#"@ =~= seq!['#']);
    }
    let rest: String = text::trim_leading(hex, "#");
    let chars: Vec<char> = text::characters(rest.as_str());
    let start: usize = if chars.len() > 1 && chars[0] == '+' {
        1
    } else {
        0
    };
    let ghost digits = colour_digits(hex@);
    proof {
        assert(chars@.skip(start as int) =~= digits);
        assert(digits.take(0) =~= Seq::<char>::empty());
    }
    let mut value: u64 = 0;
    let mut i: usize = start;
    while i < chars.len()
        invariant
            start <= i <= chars@.len(),
            digits == chars@.skip(start as int),
            digits == colour_digits(hex@),
            digits_value(digits.take(i - start)) == Some(value as nat),
            value <= u32::MAX,
        decreases chars@.len() - i,
    {
        proof {
            assert(digits.take(i - start + 1).drop_last() =~= digits.take(i - start));
            digits_only_add(digits, i - start + 1);
        }
        match digit_of(chars[i]) {
            Some(digit) => {
                value = value * 16 + digit;
                if value > 0xffff_ffff {
                    return (0, 0, 0);
                }
            },
            None => {
                return (0, 0, 0);
            },
        }
        i = i + 1;
    }
    proof {
        assert(digits.take(i - start) =~= digits);
    }
    ((value / 0x1_0000 % 256) as u8, (value / 256 % 256) as u8, (value % 256) as u8)
}

/// The character that writes one hexadecimal digit.
pub open spec fn hex_char(n: nat) -> char {
    if n < 10 {
        ('0' as nat + n) as char
    } else {
        ('a' as nat + n - 10) as char
    }
}

/// A colour as `#rrggbb`.
pub open spec fn colour_text(red: nat, green: nat, blue: nat) -> Seq<char> {
    seq![
        '#',
        hex_char(red / 16),
        hex_char(red % 16),
        hex_char(green / 16),
        hex_char(green % 16),
        hex_char(blue / 16),
        hex_char(blue % 16),
    ]
}

fn push_hex(out: &mut String, n: u8)
    ensures
        final(out)@ == old(out)@.push(hex_char((n / 16) as nat)).push(hex_char((n % 16) as nat)),
{
    let (high, low): (u8, u8) = (n / 16, n % 16);
    out.push(
        if high < 10 {
            (48 + high) as char
        } else {
            (87 + high) as char
        },
    );
    out.push(
        if low < 10 {
            (48 + low) as char
        } else {
            (87 + low) as char
        },
    );
}

// ---------------------------------------------------------------------------------------
// Resampling
// ---------------------------------------------------------------------------------------

/// A position between two colours is held in this many parts.
pub const POSITION_PARTS: u32 = 1_024;

/// Where level `index` of `levels` falls on the reference ramp, to the nearest part of a
/// step.
pub open spec fn position(index: nat, levels: nat) -> nat
    recommends
        levels > 1,
{
    let last = (levels - 1) as nat;
    (2 * (DEFAULT_LEVELS - 1) * index * POSITION_PARTS + last) as nat / (2 * last)
}

/// One channel `part` parts of the way from `from` to `to`, to the nearest whole number.
pub open spec fn blend(from: nat, to: nat, part: nat) -> nat
    recommends
        part <= POSITION_PARTS,
{
    (from * (POSITION_PARTS - part) + to * part + 512) as nat / 1_024
}

/// A ramp has at least [`MIN_LEVELS`] and at most [`MAX_LEVELS`] steps.
pub open spec fn allowed_levels(levels: nat) -> nat {
    if levels < MIN_LEVELS {
        MIN_LEVELS as nat
    } else if levels > MAX_LEVELS {
        MAX_LEVELS as nat
    } else {
        levels
    }
}

/// The reference ramp.
pub open spec fn reference(dark: bool, step: int) -> Seq<char> {
    if dark {
        HEAT_DARK@[step]@
    } else {
        HEAT_LIGHT@[step]@
    }
}

/// The colour a position on the reference ramp blends to.
pub open spec fn colour_at(dark: bool, position: nat) -> Seq<char> {
    let lower = position / 1_024;
    let part = position % 1_024;
    let upper = if lower + 1 < DEFAULT_LEVELS {
        lower + 1
    } else {
        (DEFAULT_LEVELS - 1) as nat
    };
    let from = channels_of(reference(dark, lower as int));
    let to = channels_of(reference(dark, upper as int));
    colour_text(
        blend(from.0 as nat, to.0 as nat, part),
        blend(from.1 as nat, to.1 as nat, part),
        blend(from.2 as nat, to.2 as nat, part),
    )
}

fn blend_channel(from: u8, to: u8, part: u32) -> (channel: u8)
    requires
        part <= POSITION_PARTS,
    ensures
        channel == blend(from as nat, to as nat, part as nat),
{
    let (a, b): (u32, u32) = (from as u32, to as u32);
    proof {
        assert(a * (1_024 - part) <= 255 * (1_024 - part)) by (nonlinear_arith)
            requires
                a <= 255,
                part <= 1_024,
        ;
        assert(b * part <= 255 * part) by (nonlinear_arith)
            requires
                b <= 255,
        ;
        assert(0 <= a * (1_024 - part)) by (nonlinear_arith)
            requires
                part <= 1_024,
        ;
    }
    ((a * (1_024 - part) + b * part + 512) / 1_024) as u8
}

/// Blend two `#rrggbb` colours in sRGB, `part` parts of the way from one to the other.
fn mix(from: &str, to: &str, part: u32) -> (colour: String)
    requires
        part <= POSITION_PARTS,
    ensures
        ({
            let (a, b) = (channels_of(from@), channels_of(to@));
            colour@ == colour_text(
                blend(a.0 as nat, b.0 as nat, part as nat),
                blend(a.1 as nat, b.1 as nat, part as nat),
                blend(a.2 as nat, b.2 as nat, part as nat),
            )
        }),
{
    let (a, b) = (parse_hex(from), parse_hex(to));
    let mut colour: String = String::new();
    colour.push('#');
    push_hex(&mut colour, blend_channel(a.0, b.0, part));
    push_hex(&mut colour, blend_channel(a.1, b.1, part));
    push_hex(&mut colour, blend_channel(a.2, b.2, part));
    proof {
        let (a, b) = (channels_of(from@), channels_of(to@));
        assert(colour@ =~= colour_text(
            blend(a.0 as nat, b.0 as nat, part as nat),
            blend(a.1 as nat, b.1 as nat, part as nat),
            blend(a.2 as nat, b.2 as nat, part as nat),
        ));
    }
    colour
}

/// Interpolate the reference ramp to `levels` steps.
///
/// The ramps above are authored at ten steps; asking for more or fewer resamples them
/// rather than inventing new hues.
pub fn ramp(levels: usize, dark: bool) -> (colours: Vec<String>)
    ensures
        colours@.len() == allowed_levels(levels as nat),
        forall|i: int|
            0 <= i < colours@.len() ==> (#[trigger] colours@[i])@ == colour_at(
                dark,
                position(i as nat, colours@.len()),
            ),
{
    let count: usize = if levels < MIN_LEVELS {
        MIN_LEVELS
    } else if levels > MAX_LEVELS {
        MAX_LEVELS
    } else {
        levels
    };
    let last: u32 = (count - 1) as u32;
    let mut colours: Vec<String> = Vec::new();
    let mut i: usize = 0;
    while i < count
        invariant
            i <= count,
            MIN_LEVELS <= count <= MAX_LEVELS,
            last == count - 1,
            count == allowed_levels(levels as nat),
            colours@.len() == i,
            forall|k: int|
                0 <= k < i ==> (#[trigger] colours@[k])@ == colour_at(
                    dark,
                    position(k as nat, count as nat),
                ),
        decreases count - i,
    {
        let place: u32 = (2 * 9 * (i as u32) * POSITION_PARTS + last) / (2 * last);
        proof {
            assert(place == position(i as nat, count as nat));
            assert(place <= 9 * 1_024) by (nonlinear_arith)
                requires
                    place == (2 * 9 * (i as u32) * 1_024 + last) / (2 * last as int),
                    i <= last,
                    2 <= last,
            ;
        }
        let lower: usize = (place / 1_024) as usize;
        let upper: usize = if lower + 1 < DEFAULT_LEVELS {
            lower + 1
        } else {
            DEFAULT_LEVELS - 1
        };
        let colour: String = if dark {
            mix(HEAT_DARK[lower], HEAT_DARK[upper], place % 1_024)
        } else {
            mix(HEAT_LIGHT[lower], HEAT_LIGHT[upper], place % 1_024)
        };
        assert(colour@ == colour_at(dark, position(i as nat, count as nat)));
        colours.push(colour);
        i = i + 1;
    }
    colours
}

/// Whether a text is a colour as `#rrggbb`, in small letters.
pub open spec fn is_colour(hex: Seq<char>) -> bool {
    &&& hex.len() == 7
    &&& hex[0] == '#'
    &&& forall|i: int|
        1 <= i < 7 ==> '0' <= #[trigger] hex[i] <= '9' || 'a' <= hex[i] <= 'f'
}

/// What two hexadecimal digits stand for.
pub open spec fn pair_value(high: char, low: char) -> nat {
    (digit_value(high)->0 * 16 + digit_value(low)->0) as nat
}

/// Two digits are written as they were read.
proof fn pairs_read_as_written(high: char, low: char)
    requires
        '0' <= high <= '9' || 'a' <= high <= 'f',
        '0' <= low <= '9' || 'a' <= low <= 'f',
    ensures
        digit_value(high) is Some,
        digit_value(low) is Some,
        pair_value(high, low) < 256,
        hex_char(pair_value(high, low) / 16) == high,
        hex_char(pair_value(high, low) % 16) == low,
{
    let (a, b) = (digit_value(high)->0, digit_value(low)->0);
    assert(a < 16 && b < 16);
    assert((a * 16 + b) / 16 == a);
    assert((a * 16 + b) % 16 == b);
}

/// What one more digit makes of a number.
proof fn one_more_digit(digits: Seq<char>, n: int, before: nat, digit: nat)
    requires
        0 <= n < digits.len(),
        digits_value(digits.take(n)) == Some(before),
        digit_value(digits[n]) == Some(digit),
    ensures
        digits_value(digits.take(n + 1)) == Some(before * 16 + digit),
{
    assert(digits.take(n + 1).drop_last() =~= digits.take(n));
}

/// The digits of a colour are what follows the `#`.
proof fn digits_of_a_colour(hex: Seq<char>)
    requires
        is_colour(hex),
    ensures
        colour_digits(hex) == hex.skip(1),
{
    let digits = hex.skip(1);
    let mark = seq!['#'];
    assert(digits[0] == hex[1]);
    assert(text::matches_at(hex, mark, 0)) by {
        assert(hex.subrange(0, 1) =~= mark);
    }
    assert(!text::matches_at(digits, mark, 0)) by {
        assert(digits.subrange(0, 1)[0] == hex[1]);
        assert(mark[0] == '#');
    }
    assert(text::without_leading(digits, mark) == digits);
}

/// The number that six digits write.
proof fn value_of_six_digits(
    digits: Seq<char>,
    a: nat,
    b: nat,
    c: nat,
    d: nat,
    e: nat,
    f: nat,
)
    requires
        digits.len() == 6,
        digit_value(digits[0]) == Some(a),
        digit_value(digits[1]) == Some(b),
        digit_value(digits[2]) == Some(c),
        digit_value(digits[3]) == Some(d),
        digit_value(digits[4]) == Some(e),
        digit_value(digits[5]) == Some(f),
    ensures
        digits_value(digits) == Some(
            (a * 16 + b) * 0x1_0000 + (c * 16 + d) * 0x100 + (e * 16 + f),
        ),
{
    assert(digits.take(0) =~= Seq::<char>::empty());
    one_more_digit(digits, 0, 0, a);
    one_more_digit(digits, 1, a, b);
    one_more_digit(digits, 2, a * 16 + b, c);
    one_more_digit(digits, 3, (a * 16 + b) * 16 + c, d);
    one_more_digit(digits, 4, ((a * 16 + b) * 16 + c) * 16 + d, e);
    one_more_digit(digits, 5, (((a * 16 + b) * 16 + c) * 16 + d) * 16 + e, f);
    assert(digits.take(6) =~= digits);
}

/// The channels that a number of 24 bits holds.
proof fn channels_of_a_number(value: nat, red: nat, green: nat, blue: nat)
    requires
        value == red * 0x1_0000 + green * 0x100 + blue,
        red < 256,
        green < 256,
        blue < 256,
    ensures
        value <= u32::MAX,
        value / 0x1_0000 % 256 == red,
        value / 256 % 256 == green,
        value % 256 == blue,
{
}

/// A colour is written as it was read.
pub proof fn colours_read_as_written(hex: Seq<char>)
    requires
        is_colour(hex),
    ensures
        ({
            let channels = channels_of(hex);
            colour_text(channels.0 as nat, channels.1 as nat, channels.2 as nat) == hex
        }),
{
    let digits = hex.skip(1);
    digits_of_a_colour(hex);
    assert(hex[1] == digits[0] && hex[2] == digits[1] && hex[3] == digits[2]);
    assert(hex[4] == digits[3] && hex[5] == digits[4] && hex[6] == digits[5]);
    pairs_read_as_written(hex[1], hex[2]);
    pairs_read_as_written(hex[3], hex[4]);
    pairs_read_as_written(hex[5], hex[6]);
    let red = pair_value(hex[1], hex[2]);
    let green = pair_value(hex[3], hex[4]);
    let blue = pair_value(hex[5], hex[6]);
    value_of_six_digits(
        digits,
        digit_value(hex[1])->0,
        digit_value(hex[2])->0,
        digit_value(hex[3])->0,
        digit_value(hex[4])->0,
        digit_value(hex[5])->0,
        digit_value(hex[6])->0,
    );
    channels_of_a_number(red * 0x1_0000 + green * 0x100 + blue, red, green, blue);
    assert(channels_of(hex) == (red as u8, green as u8, blue as u8));
    written_as_read(hex, red, green, blue);
}

/// A text that starts with `#` and holds the digits of three channels writes them.
proof fn written_as_read(hex: Seq<char>, red: nat, green: nat, blue: nat)
    requires
        hex.len() == 7,
        hex[0] == '#',
        hex[1] == hex_char(red / 16),
        hex[2] == hex_char(red % 16),
        hex[3] == hex_char(green / 16),
        hex[4] == hex_char(green % 16),
        hex[5] == hex_char(blue / 16),
        hex[6] == hex_char(blue % 16),
    ensures
        colour_text(red, green, blue) == hex,
{
    assert(colour_text(red, green, blue) =~= hex);
}

/// Every step of the reference ramps is a colour.
proof fn references_are_colours(dark: bool, step: int)
    requires
        0 <= step < DEFAULT_LEVELS,
    ensures
        is_colour(reference(dark, step)),
{
    reveal_strlit("#fef0b4");
    reveal_strlit("#fde68f");
    reveal_strlit("#fbd464");
    reveal_strlit("#f9bd45");
    reveal_strlit("#f6a132");
    reveal_strlit("#ef8329");
    reveal_strlit("#e26522");
    reveal_strlit("#d0481f");
    reveal_strlit("#b62f1d");
    reveal_strlit("#96161a");
    reveal_strlit("#433700");
    reveal_strlit("#4e4000");
    reveal_strlit("#5c4700");
    reveal_strlit("#6d4d00");
    reveal_strlit("#834f00");
    reveal_strlit("#9c4f00");
    reveal_strlit("#b54c10");
    reveal_strlit("#c84d2b");
    reveal_strlit("#db503c");
    reveal_strlit("#ed534e");
}

/// A position that falls on a step of the reference ramp has exactly the colour of that
/// step.
pub proof fn steps_keep_their_colour(dark: bool, step: nat)
    requires
        step < DEFAULT_LEVELS,
    ensures
        colour_at(dark, step * 1_024) == reference(dark, step as int),
{
    let hex = reference(dark, step as int);
    references_are_colours(dark, step as int);
    colours_read_as_written(hex);
    assert((step * 1_024) / 1_024 == step);
    assert((step * 1_024) % 1_024 == 0);
    let channels = channels_of(hex);
    assert(blend(channels.0 as nat, 0, 0) == channels.0);
    assert(forall|from: nat, to: nat| #[trigger] blend(from, to, 0) == from);
}

/// However many steps a ramp is resampled to, it keeps its endpoints.
pub proof fn resampling_keeps_the_endpoints(dark: bool, levels: nat)
    requires
        MIN_LEVELS <= levels <= MAX_LEVELS,
    ensures
        colour_at(dark, position(0, levels)) == reference(dark, 0),
        colour_at(dark, position((levels - 1) as nat, levels)) == reference(
            dark,
            DEFAULT_LEVELS - 1,
        ),
{
    let last = (levels - 1) as nat;
    assert(position(0, levels) == 0) by (nonlinear_arith)
        requires
            position(0, levels) == (last / (2 * last)) as nat,
            last >= 2,
    ;
    assert(position(last, levels) == 9 * 1_024) by (nonlinear_arith)
        requires
            position(last, levels) == (18 * last * 1_024 + last) as nat / (2 * last),
            last >= 2,
    ;
    steps_keep_their_colour(dark, 0);
    steps_keep_their_colour(dark, 9);
}

/// At as many steps as the reference has, the ramp is the reference.
pub proof fn the_reference_is_not_resampled(dark: bool, step: nat)
    requires
        step < DEFAULT_LEVELS,
    ensures
        colour_at(dark, position(step, DEFAULT_LEVELS as nat)) == reference(dark, step as int),
{
    assert(position(step, DEFAULT_LEVELS as nat) == (18 * step * 1_024 + 9) / 18) by {
        assert(2 * (DEFAULT_LEVELS - 1) * step == 18 * step);
    }
    assert((18 * step * 1_024 + 9) / 18 == step * 1_024);
    steps_keep_their_colour(dark, step);
}

/// Whatever lies between two channels is a channel.
proof fn blends_are_channels(from: nat, to: nat, part: nat)
    requires
        from <= 255,
        to <= 255,
        part <= POSITION_PARTS,
    ensures
        blend(from, to, part) <= 255,
{
    assert(from * (1_024 - part) <= 255 * (1_024 - part)) by (nonlinear_arith)
        requires
            from <= 255,
            part <= 1_024,
    ;
    assert(to * part <= 255 * part) by (nonlinear_arith)
        requires
            to <= 255,
    ;
}

/// Three channels are written as a colour.
proof fn channels_make_a_colour(red: nat, green: nat, blue: nat)
    requires
        red <= 255,
        green <= 255,
        blue <= 255,
    ensures
        is_colour(colour_text(red, green, blue)),
{
    assert(red / 16 < 16 && green / 16 < 16 && blue / 16 < 16);
}

/// Whatever a ramp is resampled to, each of its steps is a colour.
pub proof fn every_step_is_a_colour(dark: bool, position: nat)
    ensures
        is_colour(colour_at(dark, position)),
{
    let lower = position / 1_024;
    let part = position % 1_024;
    let upper = if lower + 1 < DEFAULT_LEVELS {
        lower + 1
    } else {
        (DEFAULT_LEVELS - 1) as nat
    };
    let from = channels_of(reference(dark, lower as int));
    let to = channels_of(reference(dark, upper as int));
    blends_are_channels(from.0 as nat, to.0 as nat, part);
    blends_are_channels(from.1 as nat, to.1 as nat, part);
    blends_are_channels(from.2 as nat, to.2 as nat, part);
    channels_make_a_colour(
        blend(from.0 as nat, to.0 as nat, part),
        blend(from.1 as nat, to.1 as nat, part),
        blend(from.2 as nat, to.2 as nat, part),
    );
}

/// Every step of the coverage ramps is a colour.
pub proof fn coverage_steps_are_colours(step: int)
    requires
        0 <= step < COVERAGE_LEVELS,
    ensures
        is_colour(COVERAGE_LIGHT@[step]@),
        is_colour(COVERAGE_DARK@[step]@),
{
    reveal_strlit("#e8e7e0");
    reveal_strlit("#d3d2c8");
    reveal_strlit("#b9b8ac");
    reveal_strlit("#9d9b8f");
    reveal_strlit("#7e7c72");
    reveal_strlit("#2c2c2a");
    reveal_strlit("#3d3d3a");
    reveal_strlit("#52514e");
    reveal_strlit("#6a6963");
    reveal_strlit("#898781");
}

/// What a hexadecimal digit in small letters counts.
pub open spec fn counts(c: char) -> int {
    if c <= '9' {
        c as int - '0' as int
    } else {
        10 + c as int - 'a' as int
    }
}

/// The channels of a colour are its three pairs of digits: red, green and blue, each with its
/// first digit worth sixteen of its second.
pub proof fn channels_are_pairs_of_digits(hex: Seq<char>)
    requires
        is_colour(hex),
    ensures
        channels_of(hex).0 == 16 * counts(hex[1]) + counts(hex[2]),
        channels_of(hex).1 == 16 * counts(hex[3]) + counts(hex[4]),
        channels_of(hex).2 == 16 * counts(hex[5]) + counts(hex[6]),
{
    let digits = hex.skip(1);
    digits_of_a_colour(hex);
    assert(hex[1] == digits[0] && hex[2] == digits[1] && hex[3] == digits[2]);
    assert(hex[4] == digits[3] && hex[5] == digits[4] && hex[6] == digits[5]);
    pairs_read_as_written(hex[1], hex[2]);
    pairs_read_as_written(hex[3], hex[4]);
    pairs_read_as_written(hex[5], hex[6]);
    let red = pair_value(hex[1], hex[2]);
    let green = pair_value(hex[3], hex[4]);
    let blue = pair_value(hex[5], hex[6]);
    value_of_six_digits(
        digits,
        digit_value(hex[1])->0,
        digit_value(hex[2])->0,
        digit_value(hex[3])->0,
        digit_value(hex[4])->0,
        digit_value(hex[5])->0,
        digit_value(hex[6])->0,
    );
    channels_of_a_number(red * 0x1_0000 + green * 0x100 + blue, red, green, blue);
}

/// A colour that is written reads back as its channels.
pub proof fn written_colours_read_back(red: nat, green: nat, blue: nat)
    requires
        red < 256,
        green < 256,
        blue < 256,
    ensures
        channels_of(colour_text(red, green, blue)) == (red as u8, green as u8, blue as u8),
{
    channels_make_a_colour(red, green, blue);
    let hex = colour_text(red, green, blue);
    channels_are_pairs_of_digits(hex);
    hex_chars_count(red / 16);
    hex_chars_count(red % 16);
    hex_chars_count(green / 16);
    hex_chars_count(green % 16);
    hex_chars_count(blue / 16);
    hex_chars_count(blue % 16);
}

proof fn hex_chars_count(n: nat)
    requires
        n < 16,
    ensures
        counts(hex_char(n)) == n,
{
}

/// What lies between two channels lies between them: never below the lower nor above the
/// higher, and no more than half a step from where the parts of the way put it.
pub proof fn blends_lie_between(from: nat, to: nat, part: nat)
    requires
        part <= 1_024,
    ensures
        from <= to ==> from <= blend(from, to, part) <= to,
        to <= from ==> to <= blend(from, to, part) <= from,
        -512 <= 1_024 * blend(from, to, part) - (from * (1_024 - part) + to * part) <= 512,
{
    let sum = from * (1_024 - part) + to * part;
    assert(sum == 1_024 * from + (to - from) * part) by (nonlinear_arith)
        requires
            sum == from * (1_024 - part) + to * part,
    ;
    assert(from <= to ==> 0 <= (to - from) * part <= (to - from) * 1_024) by (nonlinear_arith)
        requires
            0 <= part <= 1_024,
    ;
    assert(to <= from ==> (to - from) * 1_024 <= (to - from) * part <= 0) by (nonlinear_arith)
        requires
            0 <= part <= 1_024,
    ;
    assert(sum >= 0);
}

/// The levels of a ramp lie evenly on the reference, none more than half a part from its
/// place, and a higher level never lies before a lower one.
pub proof fn levels_lie_evenly(index: nat, levels: nat)
    requires
        index < levels,
        levels >= 2,
    ensures
        2 * (position(index, levels) * (levels - 1) - 9 * 1_024 * index) <= levels - 1,
        2 * (9 * 1_024 * index - position(index, levels) * (levels - 1)) <= levels - 1,
        position(index, levels) <= 9 * 1_024,
        position(index, levels) <= position(index + 1, levels),
{
    let last = levels - 1;
    let place = position(index, levels);
    let next = position(index + 1, levels);
    let top = 18 * index * 1_024 + last;
    let higher = 18 * (index + 1) * 1_024 + last;
    assert(place == top / (2 * last));
    assert(next == higher / (2 * last));
    vstd::arithmetic::div_mod::lemma_fundamental_div_mod(top, 2 * last);
    vstd::arithmetic::div_mod::lemma_mod_bound(top, 2 * last);
    assert(2 * last * place == 2 * (place * last)) by (nonlinear_arith);
    vstd::arithmetic::div_mod::lemma_div_is_ordered(top, higher, 2 * last);
    assert(place <= 9 * 1_024) by (nonlinear_arith)
        requires
            place == (18 * index * 1_024 + last) / (2 * last),
            index <= last,
            last >= 1,
    ;
}

/// A colour between two steps of the reference blends the two, channel by channel.
pub proof fn colours_blend_their_neighbours(dark: bool, step: nat, part: nat)
    requires
        step < 9,
        part < 1_024,
    ensures
        ({
            let from = channels_of(reference(dark, step as int));
            let to = channels_of(reference(dark, (step + 1) as int));
            let colour = channels_of(colour_at(dark, step * 1_024 + part));
            &&& -512 <= 1_024 * colour.0 - (from.0 * (1_024 - part) + to.0 * part) <= 512
            &&& -512 <= 1_024 * colour.1 - (from.1 * (1_024 - part) + to.1 * part) <= 512
            &&& -512 <= 1_024 * colour.2 - (from.2 * (1_024 - part) + to.2 * part) <= 512
        }),
{
    let from = channels_of(reference(dark, step as int));
    let to = channels_of(reference(dark, (step + 1) as int));
    assert((step * 1_024 + part) / 1_024 == step);
    assert((step * 1_024 + part) % 1_024 == part);
    blends_lie_between(from.0 as nat, to.0 as nat, part);
    blends_lie_between(from.1 as nat, to.1 as nat, part);
    blends_lie_between(from.2 as nat, to.2 as nat, part);
    blends_are_channels(from.0 as nat, to.0 as nat, part);
    blends_are_channels(from.1 as nat, to.1 as nat, part);
    blends_are_channels(from.2 as nat, to.2 as nat, part);
    written_colours_read_back(
        blend(from.0 as nat, to.0 as nat, part),
        blend(from.1 as nat, to.1 as nat, part),
        blend(from.2 as nat, to.2 as nat, part),
    );
}

/// A ramp has as many levels as asked for, as long as those are no fewer than three and no
/// more than sixteen, and else the nearest number that is allowed.
pub proof fn levels_keep_to_what_is_allowed(levels: nat)
    ensures
        3 <= allowed_levels(levels) <= 16,
        3 <= levels <= 16 ==> allowed_levels(levels) == levels,
        levels < 3 ==> allowed_levels(levels) == 3,
        levels > 16 ==> allowed_levels(levels) == 16,
{
}

/// Each coverage step stands for a fifth of the calendar, without its lower end and with its
/// upper.
pub proof fn coverage_steps_are_fifths(observed: nat, possible: nat, step: int)
    requires
        is_coverage_step(observed, possible, step),
        0 < observed <= possible,
    ensures
        0 <= step < 5,
        step * possible < 5 * observed <= (step + 1) * possible,
{
    assert(observed * 5 == 5 * observed);
    assert(step * possible < 5 * observed) by {
        if step == 0 {
            assert(0 * possible == 0);
        }
    }
    if step == 4 {
        assert((step + 1) * possible == 5 * possible);
    }
}

/// A hexadecimal digit counts the same in either case, and no other character counts.
pub proof fn digits_count_in_either_case(c: char)
    ensures
        '0' <= c <= '9' ==> (digit_value(c) matches Some(n) && n == c as int - '0' as int),
        'a' <= c <= 'f' ==> (digit_value(c) matches Some(n) && n == 10 + c as int - 'a' as int),
        'A' <= c <= 'F' ==> (digit_value(c) matches Some(n) && n == 10 + c as int - 'A' as int),
        digit_value(c) is Some <==> '0' <= c <= '9' || 'a' <= c <= 'f' || 'A' <= c <= 'F',
{
}

/// Each digit is worth sixteen of the next, and one that is none spoils the number.
pub proof fn digits_are_worth_sixteen_of_the_next(digits: Seq<char>, c: char)
    ensures
        digits_value(Seq::<char>::empty()) == Some(0nat),
        digits_value(digits.push(c)) == (if digits_value(digits) is Some && digit_value(
            c,
        ) is Some {
            Some((digits_value(digits)->0 * 16 + digit_value(c)->0) as nat)
        } else {
            None
        }),
{
    assert(digits.push(c).drop_last() =~= digits);
}

/// Hashes in front of a colour count for nothing, nor does a plus sign with digits behind it;
/// what is no number of thirty-two bits is black.
pub proof fn what_is_no_colour_is_black(hex: Seq<char>)
    ensures
        colour_digits(seq!['#'] + hex) == colour_digits(hex),
        hex.len() > 1 && hex[0] == '+' ==> colour_digits(hex) == hex.skip(1),
        hex.len() > 0 && hex[0] != '#' && hex[0] != '+' ==> colour_digits(hex) == hex,
        hex.len() == 1 && hex[0] != '#' ==> colour_digits(hex) == hex,
        digits_value(colour_digits(hex)) is None ==> channels_of(hex) == (0u8, 0u8, 0u8),
        digits_value(colour_digits(hex)) matches Some(value) && value >= 0x1_0000_0000
            ==> channels_of(hex) == (0u8, 0u8, 0u8),
        digits_value(colour_digits(hex)) matches Some(value) && value < 0x1_0000_0000
            ==> colour_value(hex) == digits_value(colour_digits(hex))->0,
{
    let mark = seq!['#'];
    let more = mark + hex;
    text::what_leads_is_taken_off(hex, mark);
    if hex.len() > 0 && hex[0] != '#' {
        assert(!text::matches_at(hex, mark, 0)) by {
            assert(hex.subrange(0, 1)[0] == hex[0]);
            assert(mark[0] == '#');
        }
        assert(text::without_leading(hex, mark) == hex);
    }
}

} // verus!
