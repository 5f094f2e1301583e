use gif_maker::config::Config;
use gif_maker::error::GifError;
use gif_maker::parse::{parse_i32, parse_u16};

#[test]
fn config_new() {
    let args = vec![
        String::from("program_name"),
        String::from("dir_name"),
        String::from("10"),
        String::from("100"),
    ];
    let config = Config::new(&args);
    assert_eq!(config.is_err(), false);
    let config = config.unwrap();
    assert_eq!(config.dir_name, "dir_name");
    assert_eq!(config.delay, 10);
    assert_eq!(config.end_frames_delay, 100);
}

#[test]
fn config_new_not_enough_args() {
    let args = vec![String::from("program_name")];
    let config = Config::new(&args);
    assert_eq!(config.is_err(), true);
    assert_eq!(config.unwrap_err(), GifError::UsageError);
}

#[test]
fn config_new_invalid_delay() {
    let args = vec![
        String::from("program_name"),
        String::from("dir_name"),
        String::from("invalid"),
    ];
    let config = Config::new(&args);
    assert_eq!(config.is_err(), true);
}

#[test]
fn config_new_rejects_non_integer_delay() {
    let args = vec![
        String::from("program_name"),
        String::from("dir_name"),
        String::from("12x"),
        String::from("100"),
    ];
    assert_eq!(Config::new(&args).unwrap_err(), GifError::InvalidDelayValue);
    let args = vec![
        String::from("program_name"),
        String::from("dir_name"),
        String::from("10"),
        String::from("-1"),
    ];
    assert_eq!(Config::new(&args).unwrap_err(), GifError::InvalidDelayValue);
}

#[test]
fn parse_u16_exact_values() {
    assert_eq!(parse_u16("100"), Some(100));
    assert_eq!(parse_u16("0"), Some(0));
    assert_eq!(parse_u16("+7"), Some(7));
    assert_eq!(parse_u16("007"), Some(7));
    assert_eq!(parse_u16("65535"), Some(65535));
    assert_eq!(parse_u16("65536"), None);
    assert_eq!(parse_u16(""), None);
    assert_eq!(parse_u16("+"), None);
    assert_eq!(parse_u16("-1"), None);
    assert_eq!(parse_u16("10abc"), None);
    assert_eq!(parse_u16(" 10"), None);
}

#[test]
fn parse_i32_exact_values() {
    assert_eq!(parse_i32("42"), Some(42));
    assert_eq!(parse_i32("-3"), Some(-3));
    assert_eq!(parse_i32("+12"), Some(12));
    assert_eq!(parse_i32("2147483647"), Some(2147483647));
    assert_eq!(parse_i32("2147483648"), None);
    assert_eq!(parse_i32("-2147483648"), Some(i32::MIN));
    assert_eq!(parse_i32("-2147483649"), None);
    assert_eq!(parse_i32(""), None);
    assert_eq!(parse_i32("-"), None);
    assert_eq!(parse_i32("12.5"), None);
}

#[test]
fn parse_matches_std_parse() {
    let cases = [
        "0", "1", "10", "99999", "65535", "65536", "+0", "-0", "007", "", "+", "-", "abc", "1a",
        "2147483647", "2147483648", "-2147483648", "-2147483649", "4294967296",
    ];
    for s in cases {
        assert_eq!(parse_u16(s), s.parse::<u16>().ok(), "u16 {s:?}");
        assert_eq!(parse_i32(s), s.parse::<i32>().ok(), "i32 {s:?}");
    }
}
