use mazegen::options::{parse_number, Options, OptionsError};
use mazegen::wall_map::SizeError;

fn args(words: &[&str]) -> Vec<String> {
    words.iter().map(|w| w.to_string()).collect()
}

#[test]
fn parse_number_reads_digits() {
    assert_eq!(parse_number("0"), Some(0));
    assert_eq!(parse_number("7"), Some(7));
    assert_eq!(parse_number("12"), Some(12));
    assert_eq!(parse_number("100"), Some(100));
    assert_eq!(parse_number("007"), Some(7));
    assert_eq!(parse_number("4294967295"), Some(4294967295));
}

#[test]
fn parse_number_takes_a_plus_sign() {
    assert_eq!(parse_number("+7"), Some(7));
    assert_eq!(parse_number("+0"), Some(0));
    assert_eq!(parse_number("+120"), Some(120));
}

#[test]
fn parse_number_refuses_what_is_no_number() {
    for text in ["", "+", "-", "-3", "++3", "3+", "1a", "a1", " 5", "5 ", "1_000", "1.5", "0x10", "five", "٣", "+-1"] {
        assert_eq!(parse_number(text), None);
    }
}

#[test]
fn parse_number_refuses_what_does_not_fit() {
    assert_eq!(parse_number(&usize::MAX.to_string()), Some(usize::MAX));
    assert_eq!(parse_number(&format!("+{}", usize::MAX)), Some(usize::MAX));
    assert_eq!(parse_number(&format!("{}0", usize::MAX)), None);
    assert_eq!(parse_number("99999999999999999999999999999999999999999"), None);
    assert_eq!(parse_number("99999999999999999999999999999999999999999x"), None);
    let above = (usize::MAX as u128 + 1).to_string();
    assert_eq!(parse_number(&above), None);
}

#[test]
fn parse_number_agrees_with_the_standard_library() {
    for text in ["0", "3", "+3", "-3", "", "+", "0003", "18446744073709551615", "18446744073709551616", "12a", "1 2"] {
        assert_eq!(parse_number(text), text.parse::<usize>().ok());
    }
}

#[test]
fn options_take_height_then_width() {
    assert_eq!(Options::new(&args(&["5", "8"])), Ok(Options { height: 5, width: 8 }));
    assert_eq!(Options::new(&args(&["3", "3"])), Ok(Options { height: 3, width: 3 }));
    assert_eq!(Options::new(&args(&["+30", "040"])), Ok(Options { height: 30, width: 40 }));
}

#[test]
fn options_want_two_numbers() {
    assert_eq!(Options::new(&args(&[])), Err(OptionsError::Usage));
    assert_eq!(Options::new(&args(&["5"])), Err(OptionsError::Usage));
    assert_eq!(Options::new(&args(&["5", "6", "7"])), Err(OptionsError::Usage));
    assert_eq!(Options::new(&args(&["five", "6"])), Err(OptionsError::Usage));
    assert_eq!(Options::new(&args(&["5", "six"])), Err(OptionsError::Usage));
    assert_eq!(Options::new(&args(&["5", "-6"])), Err(OptionsError::Usage));
    assert_eq!(Options::new(&args(&["", ""])), Err(OptionsError::Usage));
    assert_eq!(Options::new(&args(&["x", "1"])), Err(OptionsError::Usage));
}

#[test]
fn options_refuse_small_sizes_width_first() {
    assert_eq!(
        Options::new(&args(&["5", "2"])),
        Err(OptionsError::Size(SizeError::WidthTooSmall))
    );
    assert_eq!(
        Options::new(&args(&["2", "5"])),
        Err(OptionsError::Size(SizeError::HeightTooSmall))
    );
    assert_eq!(
        Options::new(&args(&["2", "2"])),
        Err(OptionsError::Size(SizeError::WidthTooSmall))
    );
    assert_eq!(
        Options::new(&args(&["0", "0"])),
        Err(OptionsError::Size(SizeError::WidthTooSmall))
    );
}

#[test]
fn messages_name_what_is_wrong() {
    assert_eq!(OptionsError::Usage.message(), "Usage: cargo run <height> <width>");
    assert_eq!(
        OptionsError::Size(SizeError::WidthTooSmall).message(),
        "`width >= 3` shall be met."
    );
    assert_eq!(
        OptionsError::Size(SizeError::HeightTooSmall).message(),
        "`height >= 3` shall be met."
    );
}
