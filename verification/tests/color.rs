use jwtop::color::{format_hex_color, parse_hex_color, ColorError, RgbColor};

#[test]
fn color_de() {
    assert_eq!(
        RgbColor { r: 0xaa, g: 0xbb, b: 0xcc },
        parse_hex_color("#AABBCC").unwrap()
    );
    assert_eq!(
        RgbColor { r: 0xdd, g: 0xee, b: 0xff },
        parse_hex_color("#ddeeff").unwrap()
    );
}

#[test]
fn both_ways() {
    let val = RgbColor { r: 12, g: 240, b: 144 };
    assert_eq!(val, parse_hex_color(&format_hex_color(val)).unwrap());
}

#[test]
fn formats_lowercase_with_hash() {
    assert_eq!(format_hex_color(RgbColor { r: 0xaa, g: 0xbb, b: 0xcc }), "#aabbcc");
    assert_eq!(format_hex_color(RgbColor { r: 0, g: 1, b: 255 }), "#0001ff");
}

#[test]
fn rejects_non_ascii() {
    assert_eq!(parse_hex_color("#aabbc\u{e9}"), Err(ColorError::NotAscii));
}

#[test]
fn rejects_wrong_length() {
    assert_eq!(parse_hex_color("#aabbc"), Err(ColorError::WrongLength));
    assert_eq!(parse_hex_color("#aabbccd"), Err(ColorError::WrongLength));
    assert_eq!(parse_hex_color(""), Err(ColorError::WrongLength));
}

#[test]
fn rejects_missing_hash() {
    assert_eq!(parse_hex_color("0aabbcc"), Err(ColorError::MissingHash));
}

#[test]
fn rejects_bad_digit() {
    assert_eq!(parse_hex_color("#aabbcg"), Err(ColorError::NotHexDigit));
    assert_eq!(parse_hex_color("#aa bbc"), Err(ColorError::NotHexDigit));
}
