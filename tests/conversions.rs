use lits::byte_count::{bits_needed, convert_byte_count, fits_in_bits};
use lits::duration_literal::{
    convert_duration, duration_text_is_bounded, scale_duration, DurationMacroInput, Modifier, Operator,
};
use lits::error::{ErrorKind, Expected, LitError};
use lits::number::{parse_number, NumberError, Ratio};
use lits::timestamp::convert_timestamp;
use lits::token::Token;
use lits::{bytes, datetime, duration};

fn text(s: &str) -> Token {
    Token::Str(s.to_string())
}

fn integer(s: &str) -> Token {
    Token::Int(s.to_string())
}

fn float(s: &str) -> Token {
    Token::Float(s.to_string())
}

fn kind_of<T: std::fmt::Debug>(r: Result<T, LitError>) -> (ErrorKind, usize) {
    let e = r.unwrap_err();
    (e.kind, e.position)
}

#[test]
fn ui_tests() {
    assert_eq!(duration(&vec![text("2h")]).unwrap(), (7200, 0));
    assert_eq!(duration(&vec![text("30m"), Token::Punct('*'), integer("2")]).unwrap(), (3600, 0));
    assert_eq!(duration(&vec![text("90s"), Token::Punct('/'), integer("3")]).unwrap(), (30, 0));
    assert_eq!(duration(&vec![text("2s"), Token::Punct('*'), float("1.5")]).unwrap(), (3, 0));
    assert_eq!(duration(&vec![text("1s"), Token::Punct('/'), float("2.0")]).unwrap(), (0, 500_000_000));
    assert_eq!(datetime(&vec![text("1970-01-01T00:00:00Z")]).unwrap(), (0, 0));
    assert_eq!(bytes(&vec![text("1 KiB")], 32).unwrap(), 1024);
}

#[test]
fn duration_documented_examples() {
    assert_eq!(duration(&vec![text("7d")]).unwrap(), (7 * 24 * 60 * 60, 0));
    assert_eq!(duration(&vec![text("1d"), Token::Punct('*'), integer("7")]).unwrap(), (7 * 24 * 60 * 60, 0));
    assert_eq!(duration(&vec![text("2s"), Token::Punct('/'), integer("20")]).unwrap(), (0, 100_000_000));
}

#[test]
fn duration_with_exponent() {
    assert_eq!(duration(&vec![text("1s"), Token::Punct('*'), float("1e3")]).unwrap(), (1000, 0));
    assert_eq!(duration(&vec![text("1s"), Token::Punct('/'), float("1e3")]).unwrap(), (0, 1_000_000));
}

#[test]
fn duration_without_modifier_is_parser_value() {
    assert_eq!(convert_duration("1h 30m", &None).unwrap(), (5400, 0));
    assert_eq!(convert_duration("1500ms", &None).unwrap(), (1, 500_000_000));
    assert_eq!(convert_duration("45s", &None).unwrap(), (45, 0));
}

#[test]
fn multiply_is_repeated_sum() {
    let one = convert_duration("1s 500ms", &None).unwrap();
    let by_three = Some(Modifier { op: Operator::Multiply, number: "3".to_string() });
    let three = convert_duration("1s 500ms", &by_three).unwrap();
    let ns = |v: (u64, u32)| v.0 as u128 * 1_000_000_000 + v.1 as u128;
    assert_eq!(ns(three), 3 * ns(one));
    assert_eq!(three, (4, 500_000_000));
}

#[test]
fn divide_undoes_multiply() {
    let v = (12u64, 345_678_901u32);
    let w = scale_duration(v, Ratio { num: 7, den: 1 }).unwrap();
    assert_eq!(scale_duration(w, Ratio { num: 1, den: 7 }).unwrap(), v);
}

#[test]
fn scaling_rounds_half_up() {
    assert_eq!(scale_duration((0, 1), Ratio { num: 1, den: 2 }), Some((0, 1)));
    assert_eq!(scale_duration((0, 1), Ratio { num: 1, den: 3 }), Some((0, 0)));
    assert_eq!(scale_duration((0, 2), Ratio { num: 1, den: 3 }), Some((0, 1)));
    assert_eq!(scale_duration((u64::MAX, 0), Ratio { num: 2, den: 1 }), None);
}

#[test]
fn duration_parse_error_carries_text_and_cause() {
    let e = duration(&vec![text("12 parsecs")]).unwrap_err();
    assert_eq!(e.kind, ErrorKind::DurationParse);
    assert_eq!(e.position, 0);
    assert_eq!(e.text, "12 parsecs");
    assert!(!e.cause.is_empty());
}

#[test]
fn trailing_token_must_be_operator() {
    let r = duration(&vec![text("1s"), Token::Punct('+'), integer("2")]);
    assert_eq!(kind_of(r), (ErrorKind::Syntax(Expected::MulOrDiv), 1));
    let r = duration(&vec![text("1s"), Token::Other]);
    assert_eq!(kind_of(r), (ErrorKind::Syntax(Expected::MulOrDiv), 1));
}

#[test]
fn duration_syntax_errors() {
    assert_eq!(kind_of(duration(&vec![])), (ErrorKind::Syntax(Expected::StringLiteral), 0));
    assert_eq!(kind_of(duration(&vec![integer("5")])), (ErrorKind::Syntax(Expected::StringLiteral), 0));
    assert_eq!(kind_of(duration(&vec![text("1s"), Token::Punct('*')])), (ErrorKind::Syntax(Expected::NumberLiteral), 2));
    assert_eq!(
        kind_of(duration(&vec![text("1s"), Token::Punct('*'), text("2")])),
        (ErrorKind::Syntax(Expected::NumberLiteral), 2)
    );
    assert_eq!(
        kind_of(duration(&vec![text("1s"), Token::Punct('*'), integer("2"), Token::Other])),
        (ErrorKind::Syntax(Expected::End), 3)
    );
    assert_eq!(
        kind_of(duration(&vec![text("1s"), Token::Punct('*'), float("1.2.3")])),
        (ErrorKind::Syntax(Expected::NumberLiteral), 2)
    );
}

const HUGE: &str = "1000000000000000000000000000000000000000";

#[test]
fn duration_range_errors() {
    let e = duration(&vec![text("1s"), Token::Punct('/'), integer("0")]).unwrap_err();
    assert_eq!((e.kind, e.position), (ErrorKind::NonFinite, 0));
    assert_eq!(e.text, "1s");
    assert!(!e.cause.is_empty());
    let zero_digits = "0.00000000000000000000000000000000000000000";
    assert_eq!(kind_of(duration(&vec![text("0s"), Token::Punct('/'), float(zero_digits)])), (ErrorKind::NonFinite, 0));
    assert_eq!(
        kind_of(duration(&vec![text("1s"), Token::Punct('*'), integer(HUGE)])),
        (ErrorKind::DurationOverflow, 0)
    );
    assert_eq!(
        kind_of(duration(&vec![text("1s"), Token::Punct('*'), integer("100000000000000000000000000000")])),
        (ErrorKind::DurationOverflow, 0)
    );
}

#[test]
fn zero_duration_times_any_number() {
    assert_eq!(duration(&vec![text("0s"), Token::Punct('*'), integer(HUGE)]).unwrap(), (0, 0));
    assert_eq!(duration(&vec![text("0s"), Token::Punct('/'), integer(HUGE)]).unwrap(), (0, 0));
    assert_eq!(duration(&vec![text("0s"), Token::Punct('*'), integer("3")]).unwrap(), (0, 0));
}

#[test]
fn huge_number_keeps_parser_error() {
    let e = duration(&vec![text("12 parsecs"), Token::Punct('*'), integer(HUGE)]).unwrap_err();
    assert_eq!((e.kind, e.position), (ErrorKind::DurationParse, 0));
    assert_eq!(e.text, "12 parsecs");
    assert!(!e.cause.is_empty());
}

#[test]
fn huge_number_then_trailing_token() {
    let r = duration(&vec![text("1s"), Token::Punct('*'), integer(HUGE), Token::Other]);
    assert_eq!(kind_of(r), (ErrorKind::Syntax(Expected::End), 3));
}

#[test]
fn duration_text_bound() {
    assert!(duration_text_is_bounded("2h 30m"));
    assert!(duration_text_is_bounded("99999999999s"));
    assert!(!duration_text_is_bounded("999999999999s"));
    assert!(!duration_text_is_bounded("18446744073709551615s 1000000000ns"));
    assert!(duration_text_is_bounded(""));
}

#[test]
fn duration_macro_input_parse() {
    let d = DurationMacroInput::parse(&vec![text("3h"), Token::Punct('/'), float("2.5")]).unwrap();
    assert_eq!(d.duration, "3h");
    let m = d.modifier.unwrap();
    assert_eq!(m.op, Operator::Divide);
    assert_eq!(m.number, "2.5");
    let d = DurationMacroInput::parse(&vec![text("3h"), Token::Punct('*'), integer(HUGE)]).unwrap();
    assert_eq!(d.modifier.unwrap().number, HUGE);
    let d = DurationMacroInput::parse(&vec![text("3h")]).unwrap();
    assert!(d.modifier.is_none());
}

#[test]
fn number_literals() {
    assert_eq!(parse_number("2"), Ok(Ratio { num: 2, den: 1 }));
    assert_eq!(parse_number("1.5"), Ok(Ratio { num: 15, den: 10 }));
    assert_eq!(parse_number("3."), Ok(Ratio { num: 3, den: 1 }));
    assert_eq!(parse_number("0.25"), Ok(Ratio { num: 25, den: 100 }));
    assert_eq!(parse_number(""), Err(NumberError::Malformed));
    assert_eq!(parse_number(".5"), Err(NumberError::Malformed));
    assert_eq!(parse_number("1e3"), Ok(Ratio { num: 1000, den: 1 }));
    assert_eq!(parse_number("25e-1"), Ok(Ratio { num: 25, den: 10 }));
    assert_eq!(parse_number("1.5E+2"), Ok(Ratio { num: 1500, den: 10 }));
    assert_eq!(parse_number("0e99999999999999999999999999999999999999999"), Ok(Ratio { num: 0, den: 1 }));
    assert_eq!(parse_number("2.5e-40"), Err(NumberError::OutOfRange { zero: false }));
    assert_eq!(parse_number("0.0e-99999999999999999999999999999999999999999"), Err(NumberError::OutOfRange { zero: true }));
    assert_eq!(parse_number("1e"), Err(NumberError::Malformed));
    assert_eq!(parse_number("1e+"), Err(NumberError::Malformed));
    assert_eq!(parse_number("1e3.5"), Err(NumberError::Malformed));
    assert_eq!(parse_number("340282366920938463463374607431768211456"), Err(NumberError::OutOfRange { zero: false }));
    assert_eq!(
        parse_number("340282366920938463463374607431768211455"),
        Ok(Ratio { num: u128::MAX, den: 1 })
    );
}

#[test]
fn timestamps() {
    assert_eq!(datetime(&vec![text("1970-01-01T00:00:00Z")]).unwrap(), (0, 0));
    assert_eq!(datetime(&vec![text("2000-01-01T00:00:00Z")]).unwrap(), (946_684_800, 0));
    assert_eq!(convert_timestamp("2018-02-14 00:28:07.5").unwrap(), (1_518_568_087, 500_000_000));
    let e = convert_timestamp("1969-12-31T23:59:59Z").unwrap_err();
    assert_eq!(e.kind, ErrorKind::TimestampParse);
    assert_eq!(e.text, "1969-12-31T23:59:59Z");
    assert!(!e.cause.is_empty());
    assert_eq!(
        kind_of(datetime(&vec![text("1970-01-01T00:00:00Z"), Token::Other])),
        (ErrorKind::Syntax(Expected::End), 1)
    );
    assert_eq!(kind_of(datetime(&vec![Token::Other])), (ErrorKind::Syntax(Expected::StringLiteral), 0));
}

#[test]
fn byte_counts() {
    assert_eq!(bytes(&vec![text("1 KiB")], 32).unwrap(), 1024);
    assert_eq!(bytes(&vec![text("1 kB")], 32).unwrap(), 1000);
    assert_eq!(convert_byte_count("1 kiB", 64).unwrap(), 1024);
    assert_eq!(convert_byte_count("4 GiB", 64).unwrap(), 4_294_967_296);
    let e = convert_byte_count("4 GiB", 32).unwrap_err();
    assert_eq!(e.kind, ErrorKind::ByteSizeOverflow { value: 4_294_967_296, bits: 32, needed: 33 });
    let e = bytes(&vec![text("many bytes")], 64).unwrap_err();
    assert_eq!(e.kind, ErrorKind::ByteSizeParse);
    assert_eq!(e.text, "many bytes");
    assert!(!e.cause.is_empty());
}

#[test]
fn widths() {
    assert!(fits_in_bits(255, 8));
    assert!(!fits_in_bits(256, 8));
    assert!(fits_in_bits(0, 0));
    assert!(!fits_in_bits(1, 0));
    assert!(fits_in_bits(u64::MAX, 64));
    assert!(!fits_in_bits(u64::MAX, 63));
    assert_eq!(bits_needed(0), 0);
    assert_eq!(bits_needed(1), 1);
    assert_eq!(bits_needed(255), 8);
    assert_eq!(bits_needed(256), 9);
    assert_eq!(bits_needed(u64::MAX), 64);
}
