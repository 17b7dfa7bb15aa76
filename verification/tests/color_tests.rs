use swatchgen::color::{classify, color_hex, is_light, label_hex, parse_color, LabelColor, RgbColor};
use swatchgen::hex::parse_hex;

#[test]
fn parse_hex_reads_two_digits() {
    assert_eq!(parse_hex("ff"), Some(255));
    assert_eq!(parse_hex("00"), Some(0));
    assert_eq!(parse_hex("7b"), Some(123));
    assert_eq!(parse_hex("7B"), Some(123));
}

#[test]
fn parse_hex_reads_long_values() {
    assert_eq!(parse_hex("ffffffffffffffff"), Some(u64::MAX));
    assert_eq!(parse_hex("10000000000000000"), None);
    assert_eq!(parse_hex("0000000000000000f"), Some(15));
}

#[test]
fn parse_hex_rejects_bad_input() {
    assert_eq!(parse_hex(""), None);
    assert_eq!(parse_hex("g1"), None);
    assert_eq!(parse_hex("+1"), None);
    assert_eq!(parse_hex("1 "), None);
}

#[test]
fn parse_color_decodes_channels_in_order() {
    assert_eq!(
        parse_color("FF00aB"),
        Some(RgbColor { red: 255, green: 0, blue: 171 })
    );
    assert_eq!(
        parse_color("000000"),
        Some(RgbColor { red: 0, green: 0, blue: 0 })
    );
    assert_eq!(
        parse_color("123456"),
        Some(RgbColor { red: 0x12, green: 0x34, blue: 0x56 })
    );
}

#[test]
fn parse_color_rejects_wrong_length() {
    assert_eq!(parse_color(""), None);
    assert_eq!(parse_color("12345"), None);
    assert_eq!(parse_color("1234567"), None);
}

#[test]
fn parse_color_rejects_non_hex_characters() {
    assert_eq!(parse_color("GGGGGG"), None);
    assert_eq!(parse_color("12345G"), None);
    assert_eq!(parse_color("+12345"), None);
    assert_eq!(parse_color("12 456"), None);
}

#[test]
fn round_trip_re_encodes_up_to_case() {
    let c = parse_color("1a2B3c").unwrap();
    assert_eq!(color_hex(c), "1A2B3C");
    let c = parse_color("FFFFFF").unwrap();
    assert_eq!(color_hex(c), "FFFFFF");
    let c = parse_color("00ff00").unwrap();
    assert_eq!(color_hex(c), "00FF00");
}

#[test]
fn classify_extremes() {
    assert_eq!(
        classify(RgbColor { red: 255, green: 255, blue: 255 }),
        LabelColor::Black
    );
    assert_eq!(
        classify(RgbColor { red: 0, green: 0, blue: 0 }),
        LabelColor::White
    );
}

#[test]
fn classify_boundary_is_inclusive_on_the_light_side() {
    // luma of an equal-channel grey is the channel value itself
    assert_eq!(
        classify(RgbColor { red: 128, green: 128, blue: 128 }),
        LabelColor::Black
    );
    assert_eq!(
        classify(RgbColor { red: 127, green: 127, blue: 127 }),
        LabelColor::White
    );
}

#[test]
fn classify_uses_luma_weights() {
    // pure green: luma 149 -> light; pure red: luma 76 -> dark; pure blue: luma 29 -> dark
    assert_eq!(
        classify(RgbColor { red: 0, green: 255, blue: 0 }),
        LabelColor::Black
    );
    assert_eq!(
        classify(RgbColor { red: 255, green: 0, blue: 0 }),
        LabelColor::White
    );
    assert_eq!(
        classify(RgbColor { red: 0, green: 0, blue: 255 }),
        LabelColor::White
    );
}

#[test]
fn is_light_matches_threshold() {
    assert!(is_light(RgbColor { red: 255, green: 255, blue: 255 }));
    assert!(!is_light(RgbColor { red: 0, green: 0, blue: 0 }));
}

#[test]
fn label_hex_is_canonical() {
    assert_eq!(label_hex(LabelColor::Black), "000000");
    assert_eq!(label_hex(LabelColor::White), "FFFFFF");
}
