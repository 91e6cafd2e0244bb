//! Colours: hexadecimal notation, and the modes in which a particle gets its colour.

use vstd::prelude::*;
use crate::text::{trim, trim_start_matches};

verus! {

/// A colour whose channels are counted in 255ths of full intensity.
#[derive(Debug, Clone, Copy, PartialEq, Eq, Structural)]
pub struct Rgba {
    pub r: u8,
    pub g: u8,
    pub b: u8,
    pub a: u8,
}

/// The value of a hexadecimal digit of either case.
pub open spec fn digit_value(c: char) -> Option<int> {
    if '0' <= c <= '9' {
        Some(c as int - '0' as int)
    } else if 'a' <= c <= 'f' {
        Some(c as int - 'a' as int + 10)
    } else if 'A' <= c <= 'F' {
        Some(c as int - 'A' as int + 10)
    } else {
        None
    }
}

/// The value at a place of a hexadecimal number. A plus sign may stand in the first place, where
/// it counts as zero.
pub open spec fn place_value(digits: Seq<char>, i: int) -> Option<int> {
    if i == 0 && digits[0] == '+' {
        Some(0)
    } else {
        digit_value(digits[i])
    }
}

/// The number is written with hexadecimal digits only, after at most one plus sign.
pub open spec fn is_hex_number(digits: Seq<char>) -> bool {
    forall|i: int| 0 <= i < digits.len() ==> #[trigger] place_value(digits, i) is Some
}

/// The byte that two places of a hexadecimal number stand for.
pub open spec fn byte_at(digits: Seq<char>, i: int) -> int {
    16 * place_value(digits, 2 * i)->0 + place_value(digits, 2 * i + 1)->0
}

/// The digits of a colour: the text without white space around it and without leading hashes.
pub open spec fn color_digits(s: Seq<char>) -> Seq<char> {
    crate::text::without_leading(crate::text::trimmed(s), '#')
}

/// The colour that digits stand for: red, green and blue in two digits each, then, if there are
/// eight, the opacity, which is full otherwise. Nothing else is a colour.
pub open spec fn digits_color(digits: Seq<char>) -> Option<Rgba> {
    if (digits.len() == 6 || digits.len() == 8) && is_hex_number(digits) {
        Some(
            Rgba {
                r: byte_at(digits, 0) as u8,
                g: byte_at(digits, 1) as u8,
                b: byte_at(digits, 2) as u8,
                a: if digits.len() == 8 {
                    byte_at(digits, 3) as u8
                } else {
                    255
                },
            },
        )
    } else {
        None
    }
}

/// The colour that a text stands for.
pub open spec fn text_color(s: Seq<char>) -> Option<Rgba> {
    digits_color(color_digits(s))
}

fn hex_digit(c: char) -> (value: Option<u8>)
    ensures
        value is Some <==> digit_value(c) is Some,
        value matches Some(v) ==> v == digit_value(c)->0 && v < 16,
{
    if '0' <= c && c <= '9' {
        Some((c as u32 - '0' as u32) as u8)
    } else if 'a' <= c && c <= 'f' {
        Some((c as u32 - 'a' as u32 + 10) as u8)
    } else if 'A' <= c && c <= 'F' {
        Some((c as u32 - 'A' as u32 + 10) as u8)
    } else {
        None
    }
}

fn hex_place(digits: &str, i: usize) -> (value: Option<u8>)
    requires
        i < digits@.len(),
    ensures
        value is Some <==> place_value(digits@, i as int) is Some,
        value matches Some(v) ==> v == place_value(digits@, i as int)->0 && v < 16,
{
    let c = digits.get_char(i);
    if i == 0 && c == '+' {
        Some(0)
    } else {
        hex_digit(c)
    }
}

fn hex_byte(digits: &str, i: usize) -> (byte: Option<u8>)
    requires
        i < 4,
        2 * i + 1 < digits@.len(),
    ensures
        byte is Some <==> place_value(digits@, 2 * i as int) is Some && place_value(
            digits@,
            2 * i as int + 1,
        ) is Some,
        byte matches Some(b) ==> b == byte_at(digits@, i as int),
{
    match (hex_place(digits, 2 * i), hex_place(digits, 2 * i + 1)) {
        (Some(high), Some(low)) => Some(16 * high + low),
        _ => None,
    }
}

impl Rgba {
    /// White at full opacity, which stands in for every colour that cannot be read.
    pub open spec fn white() -> Rgba {
        Rgba { r: 255, g: 255, b: 255, a: 255 }
    }

    /// The colour with these channels.
    pub fn new(r: u8, g: u8, b: u8, a: u8) -> (c: Self)
        ensures
            c == (Rgba { r, g, b, a }),
    {
        Rgba { r, g, b, a }
    }

    /// Reads a colour in hexadecimal notation, such as `#ff2d95` or, with its opacity,
    /// `#ff2d9580`.
    pub fn from_hex(s: &str) -> (color: Option<Self>)
        ensures
            color == text_color(s@),
    {
        let digits = trim_start_matches(trim(s), '#');
        let n: usize = digits.unicode_len();
        if n != 6 && n != 8 {
            return None;
        }
        let r = hex_byte(digits, 0);
        let g = hex_byte(digits, 1);
        let b = hex_byte(digits, 2);
        let a = if n == 8 {
            hex_byte(digits, 3)
        } else {
            Some(255)
        };
        proof {
            let d = digits@;
            if is_hex_number(d) {
                assert(place_value(d, 0) is Some && place_value(d, 1) is Some);
                assert(place_value(d, 2) is Some && place_value(d, 3) is Some);
                assert(place_value(d, 4) is Some && place_value(d, 5) is Some);
                if n == 8 {
                    assert(place_value(d, 6) is Some && place_value(d, 7) is Some);
                }
            }
            if r is Some && g is Some && b is Some && a is Some {
                assert forall|i: int| 0 <= i < d.len() implies #[trigger] place_value(
                    d,
                    i,
                ) is Some by {
                    assert(i == 0 || i == 1 || i == 2 || i == 3 || i == 4 || i == 5 || i == 6 || i
                        == 7);
                }
            }
        }
        match (r, g, b, a) {
            (Some(r), Some(g), Some(b), Some(a)) => Some(Rgba::new(r, g, b, a)),
            _ => None,
        }
    }

    /// The channels as bytes.
    pub fn to_rgba8(self) -> (bytes: [u8; 4])
        ensures
            bytes@ == seq![self.r, self.g, self.b, self.a],
    {
        [self.r, self.g, self.b, self.a]
    }
}

/// Where a channel's intensity comes from when a hue is turned into red, green and blue.
#[derive(Debug, Clone, Copy, PartialEq, Eq, Structural)]
pub enum Share {
    /// The chroma: the full range of intensities.
    Full,
    /// The part of the chroma that depends on the place in the sector.
    Partial,
    Zero,
}

/// How the channels share the chroma of a colour whose hue is in a sector of 60 degrees, counted
/// from red. From sector to sector one channel at a time fades in or out. Everything past the
/// fifth sector counts as the sixth.
pub open spec fn shares_in(sector: u32) -> (Share, Share, Share) {
    if sector == 0 {
        (Share::Full, Share::Partial, Share::Zero)
    } else if sector == 1 {
        (Share::Partial, Share::Full, Share::Zero)
    } else if sector == 2 {
        (Share::Zero, Share::Full, Share::Partial)
    } else if sector == 3 {
        (Share::Zero, Share::Partial, Share::Full)
    } else if sector == 4 {
        (Share::Partial, Share::Zero, Share::Full)
    } else {
        (Share::Full, Share::Zero, Share::Partial)
    }
}

/// How red, green and blue share the chroma in a sector of the hues.
pub fn hue_shares(sector: u32) -> (shares: (Share, Share, Share))
    ensures
        shares == shares_in(sector),
{
    match sector {
        0 => (Share::Full, Share::Partial, Share::Zero),
        1 => (Share::Partial, Share::Full, Share::Zero),
        2 => (Share::Zero, Share::Full, Share::Partial),
        3 => (Share::Zero, Share::Partial, Share::Full),
        4 => (Share::Partial, Share::Zero, Share::Full),
        _ => (Share::Full, Share::Zero, Share::Partial),
    }
}

/// How a particle gets its colour.
///
/// The numbers of `Rainbow` are carried along by their IEEE 754 bits.
#[derive(Debug, Clone)]
pub enum ColorMode {
    Fixed { color: String },
    Palette { colors: Vec<String> },
    Gradient { from: String, to: String },
    /// Hue cycles over time; saturation/value fixed.
    Rainbow { speed: u32, saturation: u32, value: u32 },
}

/// What is left to be computed of a particle's colour.
#[derive(Debug, Clone, Copy, PartialEq, Eq, Structural)]
pub enum ColorPlan {
    /// Nothing: this is the colour.
    Solid(Rgba),
    /// A random point between two colours.
    Between { from: Rgba, to: Rgba },
    /// A hue that depends on the time, with a little random variation.
    Hue { speed: u32, saturation: u32, value: u32 },
}

/// The colour that a text stands for, or white if it is none.
pub open spec fn color_or_white(s: Seq<char>) -> Rgba {
    match text_color(s) {
        Some(color) => color,
        None => Rgba::white(),
    }
}

fn read_color(s: &String) -> (color: Rgba)
    ensures
        color == color_or_white(s@),
{
    match Rgba::from_hex(s.as_str()) {
        Some(color) => color,
        None => Rgba::new(255, 255, 255, 255),
    }
}

/// `fastrand::usize` on the range `..len`: any number below `len`.
#[verifier::external_body]
fn random_below(len: usize) -> (i: usize)
    requires
        len > 0,
    ensures
        i < len,
{
    fastrand::usize(..len)
}

impl Default for ColorMode {
    fn default() -> (mode: Self)
        ensures
            mode matches ColorMode::Palette { colors } && colors@.len() == 5 && colors@[0]@
                == "#ff2d95"@ && colors@[1]@ == "#ff9f1c"@ && colors@[2]@ == "#2de2e6"@
                && colors@[3]@ == "#a06cff"@ && colors@[4]@ == "#f9f871"@,
    {
        let mut colors: Vec<String> = Vec::new();
        colors.push("#ff2d95".to_owned());
        colors.push("#ff9f1c".to_owned());
        colors.push("#2de2e6".to_owned());
        colors.push("#a06cff".to_owned());
        colors.push("#f9f871".to_owned());
        ColorMode::Palette { colors }
    }
}

impl ColorMode {
    /// How many colours there are to pick from.
    pub open spec fn choices(self) -> nat {
        match self {
            ColorMode::Palette { colors } => colors@.len(),
            _ => 0,
        }
    }

    /// The plan for a particle for which the colour with the number `pick` was drawn, where there
    /// are colours to pick from.
    pub open spec fn plan(self, pick: int) -> ColorPlan {
        match self {
            ColorMode::Fixed { color } => ColorPlan::Solid(color_or_white(color@)),
            ColorMode::Palette { colors } => ColorPlan::Solid(
                if colors@.len() == 0 {
                    Rgba::white()
                } else {
                    color_or_white(colors@[pick]@)
                },
            ),
            ColorMode::Gradient { from, to } => ColorPlan::Between {
                from: color_or_white(from@),
                to: color_or_white(to@),
            },
            ColorMode::Rainbow { speed, saturation, value } => ColorPlan::Hue {
                speed,
                saturation,
                value,
            },
        }
    }

    /// The plan for a particle for which the colour with the number `pick` was drawn.
    pub fn resolve_with(&self, pick: usize) -> (plan: ColorPlan)
        requires
            self.choices() > 0 ==> pick < self.choices(),
        ensures
            plan == self.plan(pick as int),
    {
        match self {
            ColorMode::Fixed { color } => ColorPlan::Solid(read_color(color)),
            ColorMode::Palette { colors } => {
                if colors.len() == 0 {
                    ColorPlan::Solid(Rgba::new(255, 255, 255, 255))
                } else {
                    ColorPlan::Solid(read_color(&colors[pick]))
                }
            },
            ColorMode::Gradient { from, to } => ColorPlan::Between {
                from: read_color(from),
                to: read_color(to),
            },
            ColorMode::Rainbow { speed, saturation, value } => ColorPlan::Hue {
                speed: *speed,
                saturation: *saturation,
                value: *value,
            },
        }
    }

    /// The plan for a particle: where there are colours to pick from, one of them is drawn at
    /// random.
    pub fn resolve(&self) -> (plan: ColorPlan)
        ensures
            self.choices() == 0 ==> plan == self.plan(0),
            self.choices() > 0 ==> exists|pick: int|
                0 <= pick < self.choices() && plan == #[trigger] self.plan(pick),
    {
        let pick: usize = match self {
            ColorMode::Palette { colors } => if colors.len() == 0 {
                0
            } else {
                random_below(colors.len())
            },
            _ => 0,
        };
        self.resolve_with(pick)
    }
}

/// Six digits stand for the same colour as eight of which the last two say full opacity.
pub proof fn six_digits_mean_full_opacity(digits: Seq<char>)
    requires
        digits.len() == 6,
    ensures
        digits_color(digits) == digits_color(digits + seq!['f', 'f']),
{
    let longer = digits + seq!['f', 'f'];
    assert forall|i: int| 0 <= i < 6 implies #[trigger] place_value(longer, i) == place_value(
        digits,
        i,
    ) by {
        assert(longer[i] == digits[i]);
        assert(longer[0] == digits[0]);
    }
    assert(longer[6] == 'f' && longer[7] == 'f');
    assert(place_value(longer, 6) == Some(15int) && place_value(longer, 7) == Some(15int));
    if is_hex_number(digits) {
        assert forall|i: int| 0 <= i < 8 implies #[trigger] place_value(longer, i) is Some by {
            if i < 6 {
                assert(place_value(digits, i) is Some);
            }
        }
    }
    if is_hex_number(longer) {
        assert forall|i: int| 0 <= i < 6 implies #[trigger] place_value(digits, i) is Some by {
            assert(place_value(longer, i) is Some);
        }
    }
}

/// White space around a colour, and hashes in front of its digits, make no difference.
pub proof fn notation_around_digits_is_ignored(
    before: Seq<char>,
    hashes: Seq<char>,
    digits: Seq<char>,
    after: Seq<char>,
)
    requires
        forall|i: int| 0 <= i < before.len() ==> crate::text::is_white_space(#[trigger] before[i]),
        forall|i: int| 0 <= i < after.len() ==> crate::text::is_white_space(#[trigger] after[i]),
        forall|i: int| 0 <= i < hashes.len() ==> #[trigger] hashes[i] == '#',
        forall|i: int|
            0 <= i < digits.len() ==> !crate::text::is_white_space(#[trigger] digits[i])
                && digits[i] != '#',
        digits.len() > 0,
    ensures
        text_color(before + (hashes + digits) + after) == digits_color(digits),
{
    let notation = hashes + digits;
    crate::text::trimming_ignores_white_space_around(before, notation, after);
    assert(!crate::text::is_white_space('#'));
    assert(notation.first() == if hashes.len() > 0 {
        hashes[0]
    } else {
        digits[0]
    });
    assert(notation.last() == digits[digits.len() - 1]);
    assert(crate::text::trimmed(notation) == notation);
    leading_hashes_are_dropped(hashes, digits);
}

proof fn leading_hashes_are_dropped(hashes: Seq<char>, digits: Seq<char>)
    requires
        forall|i: int| 0 <= i < hashes.len() ==> #[trigger] hashes[i] == '#',
        digits.len() > 0,
        digits[0] != '#',
    ensures
        crate::text::without_leading(hashes + digits, '#') == digits,
    decreases hashes.len(),
{
    if hashes.len() == 0 {
        assert(hashes + digits == digits);
    } else {
        assert((hashes + digits).first() == hashes[0]);
        assert((hashes + digits).drop_first() == hashes.drop_first() + digits);
        leading_hashes_are_dropped(hashes.drop_first(), digits);
    }
}

/// The hexadecimal digit of a value.
pub open spec fn digit_of(value: int) -> char {
    if value < 10 {
        ('0' as int + value) as char
    } else {
        ('a' as int + value - 10) as char
    }
}

/// A colour written out in eight digits.
pub open spec fn written(color: Rgba) -> Seq<char> {
    seq![
        digit_of(color.r as int / 16),
        digit_of(color.r as int % 16),
        digit_of(color.g as int / 16),
        digit_of(color.g as int % 16),
        digit_of(color.b as int / 16),
        digit_of(color.b as int % 16),
        digit_of(color.a as int / 16),
        digit_of(color.a as int % 16),
    ]
}

/// Every colour can be written in hexadecimal notation, and reading it gives the colour back.
pub proof fn reading_gives_back_what_was_written(color: Rgba)
    ensures
        digits_color(written(color)) == Some(color),
        text_color(seq!['#'] + written(color)) == Some(color),
{
    let digits = written(color);
    assert(forall|v: int| 0 <= v < 16 ==> digit_value(#[trigger] digit_of(v)) == Some(v));
    assert(forall|v: int| 0 <= v < 16 ==> #[trigger] digit_of(v) != '+');
    assert forall|i: int| 0 <= i < 8 implies #[trigger] place_value(digits, i) is Some by {
        assert(i == 0 || i == 1 || i == 2 || i == 3 || i == 4 || i == 5 || i == 6 || i == 7);
    }
    assert(forall|v: int|
        0 <= v < 16 ==> !crate::text::is_white_space(#[trigger] digit_of(v)) && digit_of(v) != '#');
    notation_around_digits_is_ignored(Seq::empty(), seq!['#'], digits, Seq::empty());
    assert(Seq::<char>::empty() + (seq!['#'] + digits) + Seq::<char>::empty() == seq!['#']
        + digits);
}

/// In every sector of the hues one channel has the full chroma, one a part of it and one none.
pub proof fn every_sector_has_all_shares(sector: u32)
    ensures
        ({
            let (r, g, b) = shares_in(sector);
            r != g && g != b && b != r
        }),
{
}

/// From a sector to the next exactly one channel keeps its share: the one that has the full
/// chroma or none of it in both.
pub proof fn neighbouring_sectors_agree_at_their_border(sector: u32)
    requires
        sector < 5,
    ensures
        ({
            let (r, g, b) = shares_in(sector);
            let (next_r, next_g, next_b) = shares_in((sector + 1) as u32);
            &&& r == next_r ==> r != Share::Partial && g != next_g && b != next_b
            &&& g == next_g ==> g != Share::Partial && r != next_r && b != next_b
            &&& b == next_b ==> b != Share::Partial && r != next_r && g != next_g
            &&& r == next_r || g == next_g || b == next_b
        }),
{
}

/// A character is a hexadecimal digit of either case.
pub open spec fn is_hex_digit(c: char) -> bool {
    '0' <= c <= '9' || 'a' <= c <= 'f' || 'A' <= c <= 'F'
}

/// Digits are a colour exactly if there are six or eight of them and all are hexadecimal, but for
/// a plus sign that may stand first.
pub proof fn only_hexadecimal_digits_make_a_color(digits: Seq<char>)
    ensures
        digits_color(digits) is Some <==> (digits.len() == 6 || digits.len() == 8) && forall|i: int|
            0 <= i < digits.len() ==> is_hex_digit(#[trigger] digits[i]) || (i == 0 && digits[i]
                == '+'),
{
    let allowed = forall|i: int|
        0 <= i < digits.len() ==> is_hex_digit(#[trigger] digits[i]) || (i == 0 && digits[i] == '+');
    if is_hex_number(digits) {
        assert forall|i: int| 0 <= i < digits.len() implies is_hex_digit(#[trigger] digits[i]) || (i
            == 0 && digits[i] == '+') by {
            assert(place_value(digits, i) is Some);
        }
    }
    if allowed {
        assert forall|i: int| 0 <= i < digits.len() implies #[trigger] place_value(
            digits,
            i,
        ) is Some by {
            assert(is_hex_digit(digits[i]) || (i == 0 && digits[i] == '+'));
        }
    }
}

/// Capital digits stand for the same colour as small ones.
pub proof fn the_case_of_digits_makes_no_difference(small: Seq<char>, mixed: Seq<char>)
    requires
        small.len() == mixed.len(),
        forall|i: int|
            0 <= i < small.len() ==> #[trigger] small[i] == mixed[i] || ('a' <= small[i] <= 'f'
                && mixed[i] as int == small[i] as int - 'a' as int + 'A' as int),
    ensures
        digits_color(small) == digits_color(mixed),
{
    assert forall|i: int| 0 <= i < small.len() implies #[trigger] place_value(small, i)
        == place_value(mixed, i) by {
        assert(small[i] == mixed[i] || 'a' <= small[i] <= 'f');
        assert(small[0] == mixed[0] || 'a' <= small[0] <= 'f');
    }
    if is_hex_number(small) {
        assert forall|i: int| 0 <= i < mixed.len() implies #[trigger] place_value(
            mixed,
            i,
        ) is Some by {
            assert(place_value(small, i) is Some);
        }
    }
    if is_hex_number(mixed) {
        assert forall|i: int| 0 <= i < small.len() implies #[trigger] place_value(
            small,
            i,
        ) is Some by {
            assert(place_value(mixed, i) is Some);
        }
    }
}

/// A plus sign in front stands for the same as a zero in its place.
pub proof fn a_leading_plus_counts_as_zero(digits: Seq<char>)
    requires
        digits.len() > 0,
        digits[0] == '+',
    ensures
        digits_color(digits) == digits_color(digits.update(0, '0')),
{
    let zero = digits.update(0, '0');
    assert forall|i: int| 0 <= i < digits.len() implies #[trigger] place_value(digits, i)
        == place_value(zero, i) by {}
    if is_hex_number(digits) {
        assert forall|i: int| 0 <= i < zero.len() implies #[trigger] place_value(zero, i) is Some by {
            assert(place_value(digits, i) is Some);
        }
    }
    if is_hex_number(zero) {
        assert forall|i: int| 0 <= i < digits.len() implies #[trigger] place_value(
            digits,
            i,
        ) is Some by {
            assert(place_value(zero, i) is Some);
        }
    }
}

/// Every text means what is left of it without the white space around it and then without the
/// hashes in front.
pub proof fn a_text_means_its_digits(
    before: Seq<char>,
    hashes: Seq<char>,
    digits: Seq<char>,
    after: Seq<char>,
)
    requires
        forall|i: int| 0 <= i < before.len() ==> crate::text::is_white_space(#[trigger] before[i]),
        forall|i: int| 0 <= i < after.len() ==> crate::text::is_white_space(#[trigger] after[i]),
        forall|i: int| 0 <= i < hashes.len() ==> #[trigger] hashes[i] == '#',
        digits.len() > 0 ==> digits[0] != '#' && !crate::text::is_white_space(
            digits[digits.len() - 1],
        ),
        digits.len() > 0 && hashes.len() == 0 ==> !crate::text::is_white_space(digits[0]),
    ensures
        text_color(before + (hashes + digits) + after) == digits_color(digits),
{
    let notation = hashes + digits;
    crate::text::trimming_ignores_white_space_around(before, notation, after);
    assert(!crate::text::is_white_space('#'));
    if notation.len() > 0 {
        assert(notation.first() == if hashes.len() > 0 {
            hashes[0]
        } else {
            digits[0]
        });
        assert(notation.last() == if digits.len() > 0 {
            digits[digits.len() - 1]
        } else {
            hashes[hashes.len() - 1]
        });
    }
    crate::text::a_bare_text_is_not_trimmed(notation);
    crate::text::leading_copies_are_dropped(hashes, '#', digits);
}

/// A text of the configuration stands for the colour that it means, with all four channels, and
/// for opaque white if it means none. So do the fixed text, the picked text of a palette and both
/// ends of a gradient. A rainbow keeps its numbers.
pub proof fn modes_keep_the_colors_of_their_texts(mode: ColorMode, pick: int)
    ensures
        mode matches ColorMode::Fixed { color } ==> (mode.plan(pick) matches ColorPlan::Solid(c)
            && means(color@, c)),
        mode matches ColorMode::Palette { colors } ==> (mode.plan(pick) matches ColorPlan::Solid(c)
            && if colors@.len() == 0 {
            c == (Rgba { r: 255, g: 255, b: 255, a: 255 })
        } else {
            means(colors@[pick]@, c)
        }),
        mode matches ColorMode::Gradient { from, to } ==> (mode.plan(
            pick,
        ) matches ColorPlan::Between { from: f, to: t } && means(from@, f) && means(to@, t)),
        mode matches ColorMode::Rainbow { speed, saturation, value } ==> mode.plan(pick) == (
        ColorPlan::Hue { speed, saturation, value }),
        mode.choices() == match mode {
            ColorMode::Palette { colors } => colors@.len(),
            _ => 0,
        },
{
}

/// The colour is the one that the text means, or opaque white if the text means none.
pub open spec fn means(text: Seq<char>, color: Rgba) -> bool {
    ||| text_color(text) == Some(color)
    ||| text_color(text) is None && color == (Rgba { r: 255, g: 255, b: 255, a: 255 })
}

/// A colour that is written out in eight digits after a hash is the one that a mode gives, opacity
/// included: fixed, picked from a palette, or at either end of a gradient.
pub proof fn written_colors_are_what_modes_give(mode: ColorMode, pick: int, c: Rgba, d: Rgba)
    ensures
        mode matches ColorMode::Fixed { color } && color@ == seq!['#'] + written(c) ==> mode.plan(
            pick,
        ) == ColorPlan::Solid(c),
        mode matches ColorMode::Palette { colors } && 0 <= pick < colors@.len() && colors@[pick]@
            == seq!['#'] + written(c) ==> mode.plan(pick) == ColorPlan::Solid(c),
        mode matches ColorMode::Gradient { from, to } && from@ == seq!['#'] + written(c) && to@
            == seq!['#'] + written(d) ==> mode.plan(pick) == (ColorPlan::Between { from: c, to: d }),
{
    reading_gives_back_what_was_written(c);
    reading_gives_back_what_was_written(d);
}

/// The channel with the full chroma is that of the primary colour nearest to the sector, and the
/// one without any is that of the primary colour opposite. Every later sector is like the sixth.
pub proof fn the_nearest_primary_has_the_full_chroma(sector: u32)
    ensures
        shares_in(sector).0 == Share::Full <==> sector == 0 || sector >= 5,
        shares_in(sector).1 == Share::Full <==> sector == 1 || sector == 2,
        shares_in(sector).2 == Share::Full <==> sector == 3 || sector == 4,
        shares_in(sector).0 == Share::Zero <==> sector == 2 || sector == 3,
        shares_in(sector).1 == Share::Zero <==> sector >= 4,
        shares_in(sector).2 == Share::Zero <==> sector == 0 || sector == 1,
{
}

} // verus!
