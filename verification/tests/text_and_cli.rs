//! Byte-level text primitives, draw strategies, and command-line value
//! parsing.

use epizentrum::cli::{CanvasSize, CachingStrategy, CliParseError, GpuMode, MediaDescription};
use epizentrum::draw_strategy::{generate_draw_order, DrawStrategy, ParseError};
use epizentrum::handshake::{parse_size_response, size_query, HandshakeError};
use epizentrum::text::{bytes_eq, parse_u16, push_dec_u16, push_hex2, split_bytes};

#[test]
fn decimal_rendering_is_plain_ascii() {
    let mut out = Vec::new();
    push_dec_u16(&mut out, 0);
    push_dec_u16(&mut out, 7);
    push_dec_u16(&mut out, 65535);
    assert_eq!(out, b"0765535".to_vec());
}

#[test]
fn hex_rendering_is_lowercase_pairs() {
    let mut out = Vec::new();
    push_hex2(&mut out, 0x00);
    push_hex2(&mut out, 0x80);
    push_hex2(&mut out, 0xff);
    push_hex2(&mut out, 0x1a);
    assert_eq!(out, b"0080ff1a".to_vec());
}

#[test]
fn parse_u16_accepts_exactly_u16_numerals() {
    assert_eq!(parse_u16(b"0"), Some(0));
    assert_eq!(parse_u16(b"65535"), Some(65535));
    assert_eq!(parse_u16(b"00042"), Some(42));
    assert_eq!(parse_u16(b"65536"), None);
    assert_eq!(parse_u16(b""), None);
    assert_eq!(parse_u16(b"12a"), None);
    assert_eq!(parse_u16(b"-1"), None);
    assert_eq!(parse_u16(b"99999999999999999999"), None);
}

#[test]
fn split_bytes_mirrors_str_split() {
    let parts = split_bytes(b"a:bc::d", b':');
    let views: Vec<&[u8]> = parts.iter().map(|p| p.as_slice()).collect();
    assert_eq!(views, vec![&b"a"[..], &b"bc"[..], &b""[..], &b"d"[..]]);
    let parts = split_bytes(b"", b':');
    assert_eq!(parts.len(), 1);
    assert!(parts[0].is_empty());
}

#[test]
fn bytes_eq_is_content_equality() {
    assert!(bytes_eq(b"abc", b"abc"));
    assert!(!bytes_eq(b"abc", b"abd"));
    assert!(!bytes_eq(b"abc", b"ab"));
}

#[test]
fn strategy_names_round_trip() {
    for name in ["random", "down", "up", "right", "left"] {
        let parsed = DrawStrategy::from_bytes(name.as_bytes()).unwrap();
        assert_eq!(parsed.name_bytes(), name.as_bytes().to_vec());
    }
}

#[test]
fn unknown_strategy_name_is_reported() {
    match DrawStrategy::from_bytes(b"sideways") {
        Err(ParseError::Invalid(b)) => assert_eq!(b, b"sideways".to_vec()),
        _ => panic!("expected an invalid-strategy error"),
    }
}

#[test]
fn draw_order_covers_grid_without_repeats() {
    for strategy in [
        DrawStrategy::Random,
        DrawStrategy::Rows { reversed: false },
        DrawStrategy::Rows { reversed: true },
        DrawStrategy::Columns { reversed: false },
        DrawStrategy::Columns { reversed: true },
    ] {
        let order = strategy.draw_order((5, 3));
        assert_eq!(order.len(), 15);
        let mut sorted = order.clone();
        sorted.sort();
        let mut expected = Vec::new();
        for x in 0..5u16 {
            for y in 0..3u16 {
                expected.push((x, y));
            }
        }
        assert_eq!(sorted, expected);
    }
}

#[test]
fn row_and_column_orders_walk_as_named() {
    let down = DrawStrategy::Rows { reversed: false }.draw_order((3, 2));
    assert_eq!(down, vec![(0, 0), (1, 0), (2, 0), (0, 1), (1, 1), (2, 1)]);
    let up = DrawStrategy::Rows { reversed: true }.draw_order((3, 2));
    assert_eq!(up, vec![(2, 1), (1, 1), (0, 1), (2, 0), (1, 0), (0, 0)]);
    let right = DrawStrategy::Columns { reversed: false }.draw_order((3, 2));
    assert_eq!(right, vec![(0, 0), (0, 1), (1, 0), (1, 1), (2, 0), (2, 1)]);
    let left = DrawStrategy::Columns { reversed: true }.draw_order((3, 2));
    assert_eq!(left, vec![(2, 1), (2, 0), (1, 1), (1, 0), (0, 1), (0, 0)]);
}

#[test]
fn generate_draw_order_emits_outer_then_inner() {
    let plain = generate_draw_order((2, 3), false);
    assert_eq!(plain, vec![(0, 0), (0, 1), (0, 2), (1, 0), (1, 1), (1, 2)]);
    let swapped = generate_draw_order((2, 3), true);
    assert_eq!(swapped, vec![(0, 0), (1, 0), (2, 0), (0, 1), (1, 1), (2, 1)]);
}

#[test]
fn canvas_size_parses_wxh() {
    let c = CanvasSize::from_str_bytes(b"1280x720").unwrap();
    assert_eq!((c.0, c.1), (1280, 720));
    assert!(matches!(
        CanvasSize::from_str_bytes(b"0x720"),
        Err(CliParseError::Invalid)
    ));
    assert!(matches!(
        CanvasSize::from_str_bytes(b"1280"),
        Err(CliParseError::Invalid)
    ));
    assert!(matches!(
        CanvasSize::from_str_bytes(b"1280x720x1"),
        Err(CliParseError::Invalid)
    ));
    assert!(matches!(
        CanvasSize::from_str_bytes(b"axb"),
        Err(CliParseError::Invalid)
    ));
}

#[test]
fn media_description_grammar() {
    let m = MediaDescription::from_str_bytes(b"foo.gif").unwrap();
    assert_eq!(m.path, b"foo.gif".to_vec());
    assert_eq!((m.x, m.y), (0, 0));
    assert!(matches!(m.draw_strategy, DrawStrategy::Random));

    let m = MediaDescription::from_str_bytes(b"foo.gif:10:20").unwrap();
    assert_eq!((m.x, m.y), (10, 20));
    assert!(matches!(m.draw_strategy, DrawStrategy::Random));

    let m = MediaDescription::from_str_bytes(b"foo.gif:10:20:down").unwrap();
    assert!(matches!(m.draw_strategy, DrawStrategy::Rows { reversed: false }));

    assert!(MediaDescription::from_str_bytes(b"foo.gif:10").is_err());
    assert!(MediaDescription::from_str_bytes(b"foo.gif:10:zz").is_err());
    assert!(MediaDescription::from_str_bytes(b"foo.gif:10:20:diagonal").is_err());
    assert!(MediaDescription::from_str_bytes(b"foo.gif:10:20:down:x").is_err());
}

#[test]
fn enum_defaults_and_names() {
    assert!(matches!(GpuMode::default(), GpuMode::Preferred));
    assert!(matches!(CachingStrategy::default(), CachingStrategy::KeepLast));
    assert_eq!(GpuMode::Disabled.name_bytes(), b"None".to_vec());
    assert_eq!(GpuMode::Required.name_bytes(), b"Required".to_vec());
    assert_eq!(CachingStrategy::KeepAllLazy.name_bytes(), b"KeepAllLazy".to_vec());
    assert_eq!(CachingStrategy::Disabled.name_bytes(), b"None".to_vec());
}

#[test]
fn size_handshake_parses_responses() {
    assert_eq!(size_query(), b"SIZE\n".to_vec());
    assert_eq!(parse_size_response(b"SIZE 1024 768\n"), Ok((1024, 768)));
    assert_eq!(parse_size_response(b"blah SIZE 10 20\n"), Ok((10, 20)));
    assert_eq!(
        parse_size_response(b"HELP nothing\n"),
        Err(HandshakeError::Invalid)
    );
    assert_eq!(parse_size_response(b"SIZE 10\n"), Err(HandshakeError::Invalid));
    assert_eq!(
        parse_size_response(b"SIZE ten 20\n"),
        Err(HandshakeError::BadNumber)
    );
    assert_eq!(
        parse_size_response(b"SIZE 99999 1\n"),
        Err(HandshakeError::BadNumber)
    );
}
