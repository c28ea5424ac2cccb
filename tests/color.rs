use wasm_game_of_life::{parse_color, ColorError};

#[test]
fn parse_valid_6_color() {
    let col = "#010abc";
    let res = parse_color(col).unwrap();
    println!("{col} -> {res:x}");
    assert_eq!(res, 0xff_bc_0a_01);
}

#[test]
fn parse_valid_8_color() {
    let col = "#010abc7f";
    let res = parse_color(col).unwrap();
    assert_eq!(res, 0x7f_bc_0a_01);
}

#[test]
fn parse_invalid_colors() {
    parse_color("#010abcgg").expect_err("expecting invalid number");
    parse_color("#abcde").expect_err("expecting wrong length");
}

#[test]
fn six_and_eight_digit_forms_differ_only_in_alpha() {
    let opaque = parse_color("#010ABC").unwrap();
    let translucent = parse_color("#010ABC7F").unwrap();
    assert_eq!(opaque, 0xff_bc_0a_01);
    assert_eq!(translucent, 0x7f_bc_0a_01);
    assert_ne!(opaque, translucent);
    assert_eq!(opaque & 0x00ff_ffff, translucent & 0x00ff_ffff);
}

#[test]
fn invalid_digit_reports_digits() {
    assert_eq!(
        parse_color("#010ABCGG"),
        Err(ColorError::InvalidHex("010ABCGG".to_string()))
    );
}

#[test]
fn invalid_length_reports_digits() {
    assert_eq!(
        parse_color("#ABCDE"),
        Err(ColorError::InvalidLength("ABCDE".to_string()))
    );
    assert_eq!(
        parse_color("#1234567"),
        Err(ColorError::InvalidLength("1234567".to_string()))
    );
    assert_eq!(parse_color(""), Err(ColorError::InvalidLength(String::new())));
    assert_eq!(parse_color("#"), Err(ColorError::InvalidLength(String::new())));
}

#[test]
fn bad_digit_wins_over_bad_length() {
    assert_eq!(
        parse_color("#12x"),
        Err(ColorError::InvalidHex("12x".to_string()))
    );
}

#[test]
fn hash_is_optional_and_case_is_ignored() {
    assert_eq!(parse_color("FFaa00"), Ok(0xff_00_aa_ff));
    assert_eq!(parse_color("#ffAA00"), Ok(0xff_00_aa_ff));
    assert_eq!(parse_color("000000"), Ok(0xff_00_00_00));
    assert_eq!(parse_color("12345678"), Ok(0x78_56_34_12));
}

#[test]
fn only_one_hash_is_stripped() {
    assert_eq!(
        parse_color("##000000"),
        Err(ColorError::InvalidHex("#000000".to_string()))
    );
    assert_eq!(
        parse_color("#+12345"),
        Err(ColorError::InvalidHex("+12345".to_string()))
    );
}
