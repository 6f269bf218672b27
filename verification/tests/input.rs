use phase_score::decimal::{decimal_text, digit_of};
use phase_score::input::{parse_phased_up, parse_score, InputError};

#[test]
fn decimal_text_of_small_and_large_numbers() {
    assert_eq!(decimal_text(0), "0");
    assert_eq!(decimal_text(7), "7");
    assert_eq!(decimal_text(10), "10");
    assert_eq!(decimal_text(1234567890), "1234567890");
    assert_eq!(decimal_text(100200), "100200");
    assert_eq!(decimal_text(u64::MAX as u128), "18446744073709551615");
    assert_eq!(decimal_text(u128::MAX), "340282366920938463463374607431768211455");
}

#[test]
fn decimal_text_is_what_formatting_gives() {
    let mut n: u128 = 1;
    for step in 0..120u32 {
        assert_eq!(decimal_text(n), format!("{}", n));
        assert_eq!(decimal_text(n - 1), format!("{}", n - 1));
        n = n.wrapping_mul(3).wrapping_add(step as u128) | 1;
    }
}

#[test]
fn digit_of_knows_the_ten_digits() {
    let digits = ['0', '1', '2', '3', '4', '5', '6', '7', '8', '9'];
    for (value, c) in digits.iter().enumerate() {
        assert_eq!(digit_of(*c), Some(value as u8));
    }
    for c in ['a', '+', '-', ' ', '/', ':', '٣', '\n'] {
        assert_eq!(digit_of(c), None);
    }
}

#[test]
fn parse_phased_up_takes_y_and_n() {
    assert_eq!(parse_phased_up("y"), Ok(true));
    assert_eq!(parse_phased_up("n"), Ok(false));
}

#[test]
fn parse_phased_up_takes_nothing_else() {
    for text in ["", "Y", "N", "yes", "no", "y ", " n", "yn", "1", "ý"] {
        assert_eq!(parse_phased_up(text), Err(InputError::NotYesOrNo));
    }
}

#[test]
fn parse_score_reads_numbers() {
    assert_eq!(parse_score("0"), Ok(0));
    assert_eq!(parse_score("15"), Ok(15));
    assert_eq!(parse_score("+15"), Ok(15));
    assert_eq!(parse_score("007"), Ok(7));
    assert_eq!(parse_score("+000"), Ok(0));
    assert_eq!(parse_score("1234567890"), Ok(1234567890));
    assert_eq!(parse_score(&format!("{}", usize::MAX)), Ok(usize::MAX));
    assert_eq!(parse_score(&format!("000{}", usize::MAX)), Ok(usize::MAX));
}

#[test]
fn parse_score_refuses_what_is_no_number() {
    let mut too_large = format!("{}", usize::MAX);
    too_large.push('0');
    let one_more = format!("{}", usize::MAX as u128 + 1);
    let refused = [
        "", "+", "-", "-5", "++5", "+-5", "5+", "1 2", " 5", "5 ", "abc", "1e3", "0x10", "1.5",
        "٣", "5\r", &too_large, &one_more,
    ];
    for text in refused {
        assert_eq!(parse_score(text), Err(InputError::NotANumber(String::from(text))));
    }
}

#[test]
fn parse_score_agrees_with_the_standard_parser() {
    let alphabet = ['0', '1', '9', '+', '-', ' ', 'x'];
    let mut texts = vec![String::new()];
    for _ in 0..4 {
        let mut longer = Vec::new();
        for text in &texts {
            for c in alphabet {
                let mut next = text.clone();
                next.push(c);
                longer.push(next);
            }
        }
        texts.extend(longer);
    }
    for text in &texts {
        assert_eq!(parse_score(text).ok(), text.parse::<usize>().ok());
    }
}

#[test]
fn parse_score_reads_back_what_decimal_text_writes() {
    for score in [0, 1, 9, 10, 99, 100, 4711, usize::MAX - 1, usize::MAX] {
        assert_eq!(parse_score(&decimal_text(score as u128)), Ok(score));
    }
}

#[test]
fn messages_say_what_was_wrong() {
    assert_eq!(InputError::NotYesOrNo.message(), "Only accepts 'y' or 'n'");
    assert_eq!(InputError::NotANumber(String::from("abc")).message(), "'abc' is not a number");
    assert_eq!(InputError::NotANumber(String::new()).message(), "'' is not a number");
    assert_eq!(parse_score("1O").unwrap_err().message(), "'1O' is not a number");
    assert_eq!(parse_phased_up("maybe").unwrap_err().message(), "Only accepts 'y' or 'n'");
}
