use imlec::color::{hue_shares, ColorMode, ColorPlan, Rgba, Share};
use imlec::text::{join_path, split_once, trim, trim_start_matches, white_space};
use std::path::PathBuf;

fn rgba(r: u8, g: u8, b: u8, a: u8) -> Rgba {
    Rgba::new(r, g, b, a)
}

/// The colour by way of the standard library's number parser, in floating point.
fn by_number(s: &str) -> Option<[u8; 4]> {
    let s = s.trim().trim_start_matches('#');
    let v = u32::from_str_radix(s, 16).ok()?;
    let channel = |shift: u32| {
        let f = ((v >> shift) & 0xff) as f32 / 255.0;
        (f.clamp(0.0, 1.0) * 255.0) as u8
    };
    match s.len() {
        6 => Some([channel(16), channel(8), channel(0), 255]),
        8 => Some([channel(24), channel(16), channel(8), channel(0)]),
        _ => None,
    }
}

#[test]
fn six_digits() {
    assert_eq!(Rgba::from_hex("#ff2d95"), Some(rgba(0xff, 0x2d, 0x95, 0xff)));
    assert_eq!(Rgba::from_hex("ff2d95"), Some(rgba(0xff, 0x2d, 0x95, 0xff)));
    assert_eq!(Rgba::from_hex("#FF2D95"), Some(rgba(0xff, 0x2d, 0x95, 0xff)));
}

#[test]
fn eight_digits() {
    assert_eq!(Rgba::from_hex("#12345678"), Some(rgba(0x12, 0x34, 0x56, 0x78)));
    assert_eq!(Rgba::from_hex("#ff2d95ff"), Rgba::from_hex("#ff2d95"));
}

#[test]
fn notation_around_the_digits() {
    assert_eq!(Rgba::from_hex("  \u{3000}##a06cff\n"), Some(rgba(0xa0, 0x6c, 0xff, 0xff)));
    assert_eq!(Rgba::from_hex("# a06cff"), None);
    assert_eq!(Rgba::from_hex("a06cff#"), None);
}

#[test]
fn a_plus_sign_counts_as_zero() {
    assert_eq!(Rgba::from_hex("+12345"), Some(rgba(0x01, 0x23, 0x45, 0xff)));
    assert_eq!(Rgba::from_hex("++2345"), None);
}

#[test]
fn what_is_no_color() {
    for s in ["", "#", "#fff", "#ff2d9", "#ff2d955", "red", "#gg2d95", "#ff2d95000", "-12345", "0x1234"] {
        assert_eq!(Rgba::from_hex(s), None, "{s}");
    }
}

#[test]
fn agrees_with_the_number_parser() {
    for s in [
        "#ff2d95", "#ff9f1c", "#2de2e6", "#a06cff", "#f9f871", "#FF3b30", "00000000", "ffffffff",
        "+12345", "+1234567", "12+345", "\u{a0}#abcdef\u{85}", "#äbcd", "##", "ééé", "1234567",
        "123456789", "#\u{ff11}23456", " # 123456", "-123456", "٣٣٣٣٣٣",
    ] {
        assert_eq!(Rgba::from_hex(s).map(Rgba::to_rgba8), by_number(s), "{s}");
    }
}

#[test]
fn every_byte_survives() {
    for byte in 0..=255u8 {
        let text = format!("#{byte:02x}{byte:02X}{byte:02x}{byte:02X}");
        assert_eq!(Rgba::from_hex(&text), Some(rgba(byte, byte, byte, byte)));
        assert_eq!(Rgba::from_hex(&text).map(Rgba::to_rgba8), by_number(&text));
    }
}

#[test]
fn bytes_of_a_color() {
    assert_eq!(rgba(1, 2, 3, 4).to_rgba8(), [1, 2, 3, 4]);
}

#[test]
fn default_palette() {
    match ColorMode::default() {
        ColorMode::Palette { colors } => {
            assert_eq!(colors, ["#ff2d95", "#ff9f1c", "#2de2e6", "#a06cff", "#f9f871"])
        }
        other => panic!("{other:?}"),
    }
}

#[test]
fn fixed_color() {
    let mode = ColorMode::Fixed { color: "#ff3b30".into() };
    assert_eq!(mode.resolve(), ColorPlan::Solid(rgba(0xff, 0x3b, 0x30, 0xff)));
    let mode = ColorMode::Fixed { color: "red".into() };
    assert_eq!(mode.resolve(), ColorPlan::Solid(rgba(255, 255, 255, 255)));
}

#[test]
fn palette_draws_one_of_its_colors() {
    let mode = ColorMode::Palette { colors: vec!["#000001".into(), "oops".into(), "#000003".into()] };
    let expected = [rgba(0, 0, 1, 255), rgba(255, 255, 255, 255), rgba(0, 0, 3, 255)];
    let mut seen = [false; 3];
    for _ in 0..500 {
        match mode.resolve() {
            ColorPlan::Solid(c) => seen[expected.iter().position(|e| *e == c).unwrap()] = true,
            other => panic!("{other:?}"),
        }
    }
    assert_eq!(seen, [true; 3]);
    for (i, color) in expected.iter().enumerate() {
        assert_eq!(mode.resolve_with(i), ColorPlan::Solid(*color));
    }
}

#[test]
fn empty_palette_is_white() {
    let mode = ColorMode::Palette { colors: vec![] };
    assert_eq!(mode.resolve(), ColorPlan::Solid(rgba(255, 255, 255, 255)));
}

#[test]
fn gradient_and_rainbow() {
    let mode = ColorMode::Gradient { from: "#000000".into(), to: "bad".into() };
    assert_eq!(
        mode.resolve(),
        ColorPlan::Between { from: rgba(0, 0, 0, 255), to: rgba(255, 255, 255, 255) }
    );
    let (speed, saturation, value) = (120.0f32.to_bits(), 1.0f32.to_bits(), 0.5f32.to_bits());
    let mode = ColorMode::Rainbow { speed, saturation, value };
    assert_eq!(mode.resolve(), ColorPlan::Hue { speed, saturation, value });
}

#[test]
fn hue_sectors() {
    assert_eq!(hue_shares(0), (Share::Full, Share::Partial, Share::Zero));
    assert_eq!(hue_shares(1), (Share::Partial, Share::Full, Share::Zero));
    assert_eq!(hue_shares(2), (Share::Zero, Share::Full, Share::Partial));
    assert_eq!(hue_shares(3), (Share::Zero, Share::Partial, Share::Full));
    assert_eq!(hue_shares(4), (Share::Partial, Share::Zero, Share::Full));
    assert_eq!(hue_shares(5), (Share::Full, Share::Zero, Share::Partial));
    assert_eq!(hue_shares(6), (Share::Full, Share::Zero, Share::Partial));
}

#[test]
fn white_space_is_that_of_the_standard_library() {
    for c in '\0'..=char::MAX {
        assert_eq!(white_space(c), c.is_whitespace(), "{c:?}");
    }
}

#[test]
fn trimming_is_that_of_the_standard_library() {
    for s in ["", " ", "a", " a b ", "\t\u{2003}x\u{2028}", "\u{200b}x", "##x#", " #x"] {
        assert_eq!(trim(s), s.trim());
        assert_eq!(trim_start_matches(s, '#'), s.trim_start_matches('#'));
        assert_eq!(split_once(s, 'x'), s.split_once('x'));
    }
}

#[test]
fn paths_join_as_in_the_standard_library() {
    for base in ["", "/", "/run/user/1000", "/run/", "relative", "a//"] {
        for part in ["", "hypr", "/abs", "a/b", "é"] {
            let expected = PathBuf::from(base).join(part);
            assert_eq!(join_path(base, part), expected.to_str().unwrap(), "{base:?} {part:?}");
        }
    }
}
