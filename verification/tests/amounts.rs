use txnengine::text::{
    blank, chars_of, decimal, digit_of, digit_text, digits_end, push_decimal, push_padded,
    same_text, trim, unsigned,
};
use txnengine::transaction::amount::{Amount, AmountError, FRACTION_DIGITS, UNITS_PER_WHOLE};

#[test]
fn amounts_hold_units() {
    assert_eq!(Amount::new(125_000).units(), 125_000);
    assert_eq!(Amount::zero().units(), 0);
    assert_eq!(Amount::new(-3).units(), -3);
    assert!(Amount::new(-1).is_negative());
    assert!(!Amount::zero().is_negative());
    assert_eq!(UNITS_PER_WHOLE, 10_000);
    assert_eq!(FRACTION_DIGITS, 4);
}

#[test]
fn amounts_are_equal_when_their_units_are() {
    let sum = Amount::new(100_000).checked_add(Amount::new(200_000)).unwrap();
    assert_eq!(Amount::new(300_000), sum);
    assert_ne!(Amount::new(300_000), Amount::new(300_001));
}

#[test]
fn amounts_are_ordered_by_units() {
    assert!(Amount::new(1) < Amount::new(2));
    assert!(Amount::new(-5) < Amount::new(0));
    assert!(Amount::new(2) > Amount::new(1));
    assert!(Amount::new(2) >= Amount::new(2));
    assert!(Amount::new(2) <= Amount::new(2));
    assert!(!(Amount::new(2) < Amount::new(2)));
}

#[test]
fn checked_arithmetic() {
    assert_eq!(Amount::new(7).checked_add(Amount::new(-9)), Some(Amount::new(-2)));
    assert_eq!(Amount::new(7).checked_sub(Amount::new(9)), Some(Amount::new(-2)));
    assert_eq!(Amount::new(i64::MAX).checked_add(Amount::new(1)), None);
    assert_eq!(Amount::new(i64::MIN).checked_sub(Amount::new(1)), None);
    assert_eq!(Amount::new(i64::MAX).checked_sub(Amount::new(-1)), None);
    assert_eq!(
        Amount::new(i64::MAX).checked_add(Amount::new(i64::MIN)),
        Some(Amount::new(-1))
    );
}

#[test]
fn amounts_are_written_with_four_decimals() {
    assert_eq!(Amount::new(0).to_string(), "0.0000");
    assert_eq!(Amount::new(1).to_string(), "0.0001");
    assert_eq!(Amount::new(-1).to_string(), "-0.0001");
    assert_eq!(Amount::new(15_000).to_string(), "1.5000");
    assert_eq!(Amount::new(300_000).to_string(), "30.0000");
    assert_eq!(Amount::new(-123_456_789).to_string(), "-12345.6789");
    assert_eq!(Amount::new(10_203).to_string(), "1.0203");
    assert_eq!(Amount::new(i64::MAX).to_string(), "922337203685477.5807");
    assert_eq!(Amount::new(i64::MIN).to_string(), "-922337203685477.5808");
}

#[test]
fn amounts_are_read_from_text() {
    assert_eq!(Amount::parse("0"), Ok(Amount::new(0)));
    assert_eq!(Amount::parse("10.0"), Ok(Amount::new(100_000)));
    assert_eq!(Amount::parse("1.5"), Ok(Amount::new(15_000)));
    assert_eq!(Amount::parse("1.0203"), Ok(Amount::new(10_203)));
    assert_eq!(Amount::parse("0012.34"), Ok(Amount::new(123_400)));
    assert_eq!(Amount::parse("-3"), Ok(Amount::new(-30_000)));
    assert_eq!(Amount::parse("+3.25"), Ok(Amount::new(32_500)));
    assert_eq!(Amount::parse(".25"), Ok(Amount::new(2_500)));
    assert_eq!(Amount::parse("7."), Ok(Amount::new(70_000)));
    assert_eq!(Amount::parse("-0"), Ok(Amount::new(0)));
    assert_eq!(Amount::parse("922337203685477.5807"), Ok(Amount::new(i64::MAX)));
    assert_eq!(Amount::parse("-922337203685477.5808"), Ok(Amount::new(i64::MIN)));
}

#[test]
fn text_that_is_no_amount() {
    assert_eq!(Amount::parse(""), Err(AmountError::Malformed));
    assert_eq!(Amount::parse("-"), Err(AmountError::Malformed));
    assert_eq!(Amount::parse("."), Err(AmountError::Malformed));
    assert_eq!(Amount::parse("+."), Err(AmountError::Malformed));
    assert_eq!(Amount::parse("1.2.3"), Err(AmountError::Malformed));
    assert_eq!(Amount::parse("1,5"), Err(AmountError::Malformed));
    assert_eq!(Amount::parse("1e3"), Err(AmountError::Malformed));
    assert_eq!(Amount::parse(" 1"), Err(AmountError::Malformed));
    assert_eq!(Amount::parse("1 "), Err(AmountError::Malformed));
    assert_eq!(Amount::parse("--1"), Err(AmountError::Malformed));
    assert_eq!(Amount::parse("1.5x"), Err(AmountError::Malformed));
    assert_eq!(Amount::parse("1.\u{665}"), Err(AmountError::Malformed));
    assert_eq!(Amount::parse("inf"), Err(AmountError::Malformed));
    assert_eq!(Amount::parse("1.00000"), Err(AmountError::TooPrecise));
    assert_eq!(Amount::parse("0.12345"), Err(AmountError::TooPrecise));
    assert_eq!(Amount::parse("922337203685477.5808"), Err(AmountError::OutOfRange));
    assert_eq!(Amount::parse("-922337203685477.5809"), Err(AmountError::OutOfRange));
    assert_eq!(Amount::parse("1000000000000001"), Err(AmountError::OutOfRange));
    assert_eq!(
        Amount::parse("99999999999999999999999999999999999999999"),
        Err(AmountError::OutOfRange)
    );
}

#[test]
fn amount_read_from_a_range_of_characters() {
    let chars: Vec<char> = "ab-1.5cd".chars().collect();
    assert_eq!(Amount::read(&chars, 2, 6), Ok(Amount::new(-15_000)));
    assert_eq!(Amount::read(&chars, 3, 4), Ok(Amount::new(10_000)));
    assert_eq!(Amount::read(&chars, 2, 7), Err(AmountError::Malformed));
    assert_eq!(Amount::read(&chars, 2, 2), Err(AmountError::Malformed));
}

#[test]
fn what_is_written_can_be_read_back() {
    for units in [0, 1, -1, 9_999, 10_000, -10_001, 123_456_789, i64::MAX, i64::MIN] {
        let amount = Amount::new(units);
        assert_eq!(Amount::parse(&amount.to_string()), Ok(amount));
    }
}

#[test]
fn characters_of_a_text() {
    assert_eq!(chars_of("a\u{e9}1"), vec!['a', '\u{e9}', '1']);
    assert_eq!(chars_of(""), Vec::<char>::new());
}

#[test]
fn digits_and_blanks() {
    assert_eq!(digit_of('0'), Some(0));
    assert_eq!(digit_of('9'), Some(9));
    assert_eq!(digit_of('/'), None);
    assert_eq!(digit_of(':'), None);
    assert_eq!(digit_of('\u{661}'), None);
    for c in [' ', '\t', '\n', '\u{b}', '\u{c}', '\r'] {
        assert!(blank(c));
    }
    assert!(!blank('a'));
    assert!(!blank('\u{a0}'));
    assert!(!blank('\u{8}'));
    assert!(!blank('\u{e}'));
    assert_eq!(digit_text(0), "0");
    assert_eq!(digit_text(7), "7");
    assert_eq!(digit_text(9), "9");
}

#[test]
fn trimming() {
    let chars = chars_of("  \t12 3\r\n");
    assert_eq!(trim(&chars), (3, 7));
    let chars = chars_of("x");
    assert_eq!(trim(&chars), (0, 1));
    let chars = chars_of(" \n ");
    let (from, to) = trim(&chars);
    assert_eq!(from, to);
    let chars = chars_of("");
    assert_eq!(trim(&chars), (0, 0));
}

#[test]
fn runs_of_digits() {
    let chars = chars_of("12a345");
    assert_eq!(digits_end(&chars, 0, 6), 2);
    assert_eq!(digits_end(&chars, 2, 6), 2);
    assert_eq!(digits_end(&chars, 3, 6), 6);
    assert_eq!(digits_end(&chars, 3, 5), 5);
    assert_eq!(decimal(&chars, 0, 2, 100), Some(12));
    assert_eq!(decimal(&chars, 0, 2, 11), None);
    assert_eq!(decimal(&chars, 0, 3, 1000), None);
    assert_eq!(decimal(&chars, 3, 6, 345), Some(345));
    assert_eq!(decimal(&chars, 3, 3, 0), Some(0));
    let big = chars_of("184467440737095516160");
    assert_eq!(decimal(&big, 0, 20, u64::MAX), None);
    assert_eq!(decimal(&big, 0, 21, u64::MAX), None);
    assert_eq!(decimal(&big, 0, 19, u64::MAX), Some(1844674407370955161));
}

#[test]
fn whole_numbers() {
    let chars = chars_of("+65535 65536 007 + -1");
    assert_eq!(unsigned(&chars, 0, 6, 65_535), Some(65_535));
    assert_eq!(unsigned(&chars, 1, 6, 65_535), Some(65_535));
    assert_eq!(unsigned(&chars, 7, 12, 65_535), None);
    assert_eq!(unsigned(&chars, 7, 12, 65_536), Some(65_536));
    assert_eq!(unsigned(&chars, 13, 16, 10), Some(7));
    assert_eq!(unsigned(&chars, 17, 18, 10), None);
    assert_eq!(unsigned(&chars, 19, 21, 10), None);
    assert_eq!(unsigned(&chars, 3, 3, 10), None);
    assert_eq!(unsigned(&chars, 5, 7, 100), None);
}

#[test]
fn writing_numbers() {
    let mut text = String::from("n=");
    push_decimal(&mut text, 0);
    text.push(',');
    push_decimal(&mut text, 1_070);
    text.push(',');
    push_decimal(&mut text, u64::MAX);
    text.push(',');
    push_padded(&mut text, 42, 4);
    text.push(',');
    push_padded(&mut text, 123_456, 3);
    text.push(',');
    push_padded(&mut text, 9, 0);
    assert_eq!(text, "n=0,1070,18446744073709551615,0042,456,");
}

#[test]
fn comparing_texts() {
    assert!(same_text("deposit", "deposit"));
    assert!(same_text("", ""));
    assert!(!same_text("deposit", "deposits"));
    assert!(!same_text("deposit", "depos1t"));
    assert!(!same_text("Deposit", "deposit"));
}
