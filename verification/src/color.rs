//! Colors: decoding six-digit hexadecimal color strings into RGB triplets,
//! re-encoding them, and choosing a readable label color by a luma threshold.

use crate::hex::{all_hex_digits, hex_val, hex_value_of, is_hex_digit, parse_hex};
use vstd::prelude::*;

verus! {

/// An RGB color with three 8-bit channels and implicit full opacity.
#[derive(Clone, Copy, PartialEq, Eq, Structural, Debug)]
pub struct RgbColor {
    pub red: u8,
    pub green: u8,
    pub blue: u8,
}

/// The color of the text label laid over a swatch: pure black or pure white.
#[derive(Clone, Copy, PartialEq, Eq, Structural, Debug)]
pub enum LabelColor {
    Black,
    White,
}

/// A well-formed color string: exactly six hexadecimal digits, either case.
pub open spec fn valid_hex_color(s: Seq<char>) -> bool {
    s.len() == 6 && all_hex_digits(s)
}

/// The color a well-formed six-digit string denotes: two digits per channel,
/// red first.
pub open spec fn rgb_of(s: Seq<char>) -> RgbColor {
    RgbColor {
        red: hex_value_of(s.subrange(0, 2)) as u8,
        green: hex_value_of(s.subrange(2, 4)) as u8,
        blue: hex_value_of(s.subrange(4, 6)) as u8,
    }
}

/// Integer luma approximation with the standard broadcast weights.
pub open spec fn luma(c: RgbColor) -> int {
    (299 * c.red + 587 * c.green + 114 * c.blue) / 1000
}

/// The label color chosen for a background color: black on a light
/// background (luma at least 128), white on a dark one.
pub open spec fn label_of(c: RgbColor) -> LabelColor {
    if luma(c) >= 128 {
        LabelColor::Black
    } else {
        LabelColor::White
    }
}

/// Canonical six-digit rendering of a label color.
pub open spec fn label_hex_seq(l: LabelColor) -> Seq<char> {
    match l {
        LabelColor::Black => seq!['0', '0', '0', '0', '0', '0'],
        LabelColor::White => seq!['F', 'F', 'F', 'F', 'F', 'F'],
    }
}

/// Two hexadecimal digits have a value of at most 255.
pub proof fn lemma_hex_value_byte(s: Seq<char>)
    requires
        s.len() == 2,
        all_hex_digits(s),
    ensures
        hex_value_of(s) == hex_val(s[0]) * 16 + hex_val(s[1]),
        0 <= hex_value_of(s) <= 255,
{
    let d = s.drop_last();
    assert(d.len() == 1);
    assert(hex_value_of(d.drop_last()) == 0);
    assert(d.last() == s[0]);
    assert(hex_value_of(d) == hex_val(s[0]));
    assert(s.last() == s[1]);
    assert(is_hex_digit(s[0]) && is_hex_digit(s[1]));
}

/// Decodes a six-digit hexadecimal color string into its RGB triplet.
/// Fails on a string of any other length and on any non-hexadecimal
/// character; no partial result is ever produced.
pub fn parse_color(color: &str) -> (r: Option<RgbColor>)
    ensures
        r is Some <==> valid_hex_color(color@),
        r is Some ==> r->Some_0 == rgb_of(color@),
{
    let n = color.unicode_len();
    if n != 6 {
        return None;
    }
    let red = parse_channel(color, 0);
    let green = parse_channel(color, 2);
    let blue = parse_channel(color, 4);
    match (red, green, blue) {
        (Some(r), Some(g), Some(b)) => {
            proof {
                assert forall|i: int| 0 <= i < 6 implies is_hex_digit(#[trigger] color@[i]) by {
                    if i < 2 {
                        assert(color@.subrange(0, 2)[i] == color@[i]);
                    } else if i < 4 {
                        assert(color@.subrange(2, 4)[i - 2] == color@[i]);
                    } else {
                        assert(color@.subrange(4, 6)[i - 4] == color@[i]);
                    }
                }
            }
            Some(RgbColor { red: r, green: g, blue: b })
        },
        _ => {
            proof {
                if valid_hex_color(color@) {
                    assert(all_hex_digits(color@.subrange(0, 2)));
                    assert(all_hex_digits(color@.subrange(2, 4)));
                    assert(all_hex_digits(color@.subrange(4, 6)));
                }
            }
            None
        },
    }
}

/// Reads the two-digit channel that starts at `at` out of a six-character
/// color string.
fn parse_channel(color: &str, at: usize) -> (r: Option<u8>)
    requires
        color@.len() == 6,
        at == 0 || at == 2 || at == 4,
    ensures
        r is Some <==> all_hex_digits(color@.subrange(at as int, at + 2)),
        r is Some ==> r->Some_0 == hex_value_of(color@.subrange(at as int, at + 2)),
{
    let chunk = color.substring_char(at, at + 2);
    proof {
        if all_hex_digits(chunk@) {
            lemma_hex_value_byte(chunk@);
        }
    }
    match parse_hex(chunk) {
        Some(v) => Some(v as u8),
        None => None,
    }
}

/// True when the label laid over this color should be black: the color is
/// light, its luma reaching the threshold of 128.
pub fn is_light(color: RgbColor) -> (r: bool)
    ensures
        r == (luma(color) >= 128),
{
    let y: u32 = (299 * (color.red as u32) + 587 * (color.green as u32) + 114 * (color.blue
        as u32)) / 1000;
    y >= 128
}

/// Chooses the label color for a background color: black if the background
/// is light, white if it is dark. Total and deterministic.
pub fn classify(color: RgbColor) -> (r: LabelColor)
    ensures
        r == label_of(color),
{
    if is_light(color) {
        LabelColor::Black
    } else {
        LabelColor::White
    }
}

/// The canonical six-digit string of a label color.
pub fn label_hex(l: LabelColor) -> (r: &'static str)
    ensures
        r@ == label_hex_seq(l),
{
    match l {
        LabelColor::Black => {
            let s = "000000";
            proof {
                reveal_strlit("000000");
                assert(s@ =~= label_hex_seq(LabelColor::Black));
            }
            s
        },
        LabelColor::White => {
            let s = "FFFFFF";
            proof {
                reveal_strlit("FFFFFF");
                assert(s@ =~= label_hex_seq(LabelColor::White));
            }
            s
        },
    }
}

/// Classification is total and deterministic: the label is a function of
/// the color alone, and any two labels derived for the same color agree.
pub proof fn lemma_classify_deterministic(c: RgbColor, l1: LabelColor, l2: LabelColor)
    requires
        l1 == label_of(c),
        l2 == label_of(c),
    ensures
        l1 == l2,
{
}

/// The extreme colors: pure white is light and gets the black label, pure
/// black is dark and gets the white label.
pub proof fn lemma_classify_extremes()
    ensures
        label_of(RgbColor { red: 255, green: 255, blue: 255 }) == LabelColor::Black,
        label_of(RgbColor { red: 0, green: 0, blue: 0 }) == LabelColor::White,
{
}

/// The threshold is inclusive on the light side: a luma of exactly 128
/// yields the black label, a luma of 127 the white label.
pub proof fn lemma_classify_boundary(light: RgbColor, dark: RgbColor)
    requires
        luma(light) == 128,
        luma(dark) == 127,
    ensures
        label_of(light) == LabelColor::Black,
        label_of(dark) == LabelColor::White,
{
}

/// The character for one hexadecimal digit value, upper case.
pub open spec fn hex_digit_char(d: int) -> char {
    if d == 0 {
        '0'
    } else if d == 1 {
        '1'
    } else if d == 2 {
        '2'
    } else if d == 3 {
        '3'
    } else if d == 4 {
        '4'
    } else if d == 5 {
        '5'
    } else if d == 6 {
        '6'
    } else if d == 7 {
        '7'
    } else if d == 8 {
        '8'
    } else if d == 9 {
        '9'
    } else if d == 10 {
        'A'
    } else if d == 11 {
        'B'
    } else if d == 12 {
        'C'
    } else if d == 13 {
        'D'
    } else if d == 14 {
        'E'
    } else {
        'F'
    }
}

/// Two-digit upper-case hexadecimal rendering of a byte value.
pub open spec fn byte_hex_seq(v: int) -> Seq<char> {
    seq![hex_digit_char(v / 16), hex_digit_char(v % 16)]
}

/// Canonical six-digit upper-case rendering of a color, red channel first.
pub open spec fn color_hex_seq(c: RgbColor) -> Seq<char> {
    byte_hex_seq(c.red as int) + byte_hex_seq(c.green as int) + byte_hex_seq(c.blue as int)
}

/// A hexadecimal digit mapped to upper case; any other character unchanged.
pub open spec fn upper_hex_char(c: char) -> char {
    if c == 'a' {
        'A'
    } else if c == 'b' {
        'B'
    } else if c == 'c' {
        'C'
    } else if c == 'd' {
        'D'
    } else if c == 'e' {
        'E'
    } else if c == 'f' {
        'F'
    } else {
        c
    }
}

/// Encoding the value of a hexadecimal digit yields that digit, upper-cased.
pub proof fn lemma_hex_digit_char_upper(c: char)
    requires
        is_hex_digit(c),
    ensures
        hex_digit_char(hex_val(c)) == upper_hex_char(c),
{
}

/// The single character of one hexadecimal digit value, upper case.
fn hex_digit_str(d: u8) -> (r: &'static str)
    requires
        d < 16,
    ensures
        r@ == seq![hex_digit_char(d as int)],
{
    proof {
        reveal_strlit("0");
        reveal_strlit("1");
        reveal_strlit("2");
        reveal_strlit("3");
        reveal_strlit("4");
        reveal_strlit("5");
        reveal_strlit("6");
        reveal_strlit("7");
        reveal_strlit("8");
        reveal_strlit("9");
        reveal_strlit("A");
        reveal_strlit("B");
        reveal_strlit("C");
        reveal_strlit("D");
        reveal_strlit("E");
        reveal_strlit("F");
    }
    let r = if d == 0 {
        "0"
    } else if d == 1 {
        "1"
    } else if d == 2 {
        "2"
    } else if d == 3 {
        "3"
    } else if d == 4 {
        "4"
    } else if d == 5 {
        "5"
    } else if d == 6 {
        "6"
    } else if d == 7 {
        "7"
    } else if d == 8 {
        "8"
    } else if d == 9 {
        "9"
    } else if d == 10 {
        "A"
    } else if d == 11 {
        "B"
    } else if d == 12 {
        "C"
    } else if d == 13 {
        "D"
    } else if d == 14 {
        "E"
    } else {
        "F"
    };
    proof {
        assert(r@ =~= seq![hex_digit_char(d as int)]);
    }
    r
}

/// Encodes a color as its canonical six-digit upper-case hexadecimal string.
pub fn color_hex(c: RgbColor) -> (r: String)
    ensures
        r@ == color_hex_seq(c),
{
    let mut s = String::new();
    s.append(hex_digit_str(c.red / 16));
    s.append(hex_digit_str(c.red % 16));
    s.append(hex_digit_str(c.green / 16));
    s.append(hex_digit_str(c.green % 16));
    s.append(hex_digit_str(c.blue / 16));
    s.append(hex_digit_str(c.blue % 16));
    proof {
        assert(s@ =~= color_hex_seq(c));
    }
    s
}

/// Decoding a well-formed six-digit color string and re-encoding the
/// resulting triplet gives back the input, mapped to upper case.
pub proof fn lemma_decode_encode_round_trip(s: Seq<char>)
    requires
        valid_hex_color(s),
    ensures
        color_hex_seq(rgb_of(s)) == s.map_values(|c: char| upper_hex_char(c)),
{
    let c = rgb_of(s);
    lemma_channel_round_trip(s, 0);
    lemma_channel_round_trip(s, 2);
    lemma_channel_round_trip(s, 4);
    assert(color_hex_seq(c) =~= s.map_values(|ch: char| upper_hex_char(ch)));
}

/// One channel of the round trip: the two digits starting at `at` re-encode
/// to themselves, upper-cased.
proof fn lemma_channel_round_trip(s: Seq<char>, at: int)
    requires
        valid_hex_color(s),
        at == 0 || at == 2 || at == 4,
    ensures
        byte_hex_seq(hex_value_of(s.subrange(at, at + 2)) as u8 as int) == seq![
            upper_hex_char(s[at]),
            upper_hex_char(s[at + 1]),
        ],
{
    let chunk = s.subrange(at, at + 2);
    assert(all_hex_digits(chunk));
    lemma_hex_value_byte(chunk);
    let v = hex_value_of(chunk);
    assert(chunk[0] == s[at] && chunk[1] == s[at + 1]);
    assert(0 <= hex_val(s[at]) < 16 && 0 <= hex_val(s[at + 1]) < 16);
    assert(v == hex_val(s[at]) * 16 + hex_val(s[at + 1]));
    assert(v / 16 == hex_val(s[at]) && v % 16 == hex_val(s[at + 1])) by (nonlinear_arith)
        requires
            v == hex_val(s[at]) * 16 + hex_val(s[at + 1]),
            0 <= hex_val(s[at]) < 16,
            0 <= hex_val(s[at + 1]) < 16,
    ;
    lemma_hex_digit_char_upper(s[at]);
    lemma_hex_digit_char_upper(s[at + 1]);
    assert(byte_hex_seq(v as u8 as int) =~= seq![upper_hex_char(s[at]), upper_hex_char(s[at + 1])]);
}

} // verus!
