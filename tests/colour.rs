use brick_server::colour::{convert_hexcode_to_rgb, Color};

fn rgb(red: u8, green: u8, blue: u8) -> Color {
    Color { red, green, blue }
}

#[test]
fn full_code_with_and_without_hash() {
    assert_eq!(Color::new("#ff8000"), Ok(rgb(255, 128, 0)));
    assert_eq!(Color::new("FF8000"), Ok(rgb(255, 128, 0)));
    assert_eq!(Color::new("#0a0b0c"), Ok(rgb(10, 11, 12)));
}

#[test]
fn shorthand_code_is_spelled_out() {
    assert_eq!(Color::new("#f80"), Ok(rgb(255, 136, 0)));
    assert_eq!(Color::new("abc"), Ok(rgb(0xAA, 0xBB, 0xCC)));
}

#[test]
fn fourth_byte_is_ignored() {
    assert_eq!(Color::new("#ff800080"), Ok(rgb(255, 128, 0)));
}

#[test]
fn empty_code_is_refused() {
    assert_eq!(Color::new(""), Err("empty".to_string()));
}

#[test]
fn malformed_codes_are_invalid() {
    for code in ["#", "#12345", "#gg0000", "#ff80", "#ab", "#1234567890", "#\u{e9}\u{e9}\u{e9}"] {
        assert_eq!(Color::new(code), Err("invalid".to_string()), "{}", code);
    }
}

#[test]
fn plus_sign_pairs_parse_as_digits() {
    assert_eq!(Color::new("+f+f+f"), Ok(rgb(15, 15, 15)));
}

#[test]
fn convert_matches_new() {
    assert_eq!(convert_hexcode_to_rgb("#000000".to_string()), Ok(rgb(0, 0, 0)));
    assert_eq!(convert_hexcode_to_rgb(String::new()), Err("empty".to_string()));
}
