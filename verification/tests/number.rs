use lindenmayer::number::{is_float, parse_i32, parse_u32, parse_usize};
use lindenmayer::text::to_chars;

fn float_cases() -> Vec<&'static str> {
    vec![
        "0", "1", "375", "-1", "+1", "1.5", "-1.5", "+1.5", ".5", "5.", ".", "", "+", "-", "1e5",
        "1E5", "1e+5", "1e-5", "1e", "1e+", "e5", "1.e5", ".5e5", ".e5", "1.5e5x", "inf", "INF",
        "Inf", "+inf", "-inf", "infinity", "Infinity", "INFINITY", "-infinity", "infinit", "nan",
        "NaN", "NAN", "-nan", "+nan", "nanx", " 1", "1 ", "1_000", "0x10", "1,5", "１", "1..2",
        "1.2.3", "--1", "+-1", "1e5e5", "1e5.5", "00012.5000", "9999999999999999999999999999",
        "1e999", "1.7976931348623157e308", "i", "n", "in", "na", "infinityy", "1f", "1d", "٣",
        "1.0e", "1.0E-", "-.5", "-.", "+.e1", "0e0", "inF", "iNfInItY",
    ]
}

#[test]
fn float_literals_are_those_of_the_standard_library() {
    for case in float_cases() {
        let chars = to_chars(case);
        assert_eq!(is_float(&chars), case.parse::<f64>().is_ok(), "{:?}", case);
    }
}

fn integer_cases() -> Vec<&'static str> {
    vec![
        "0", "1", "-1", "+1", "-0", "+0", "", "+", "-", "12", "0012", "2147483647", "2147483648",
        "-2147483648", "-2147483649", "4294967295", "4294967296", "18446744073709551615",
        "18446744073709551616", "99999999999999999999999999", "1.5", " 1", "1 ", "1a", "a", "+-1",
        "-+1", "--1", "++1", "１", "1_0", "0x1", "-","+00", "-007",
    ]
}

#[test]
fn integers_are_those_of_the_standard_library() {
    for case in integer_cases() {
        let chars = to_chars(case);
        assert_eq!(parse_i32(&chars), case.parse::<i32>().ok(), "{:?}", case);
        assert_eq!(parse_u32(&chars), case.parse::<u32>().ok(), "{:?}", case);
        assert_eq!(parse_usize(&chars), case.parse::<usize>().ok(), "{:?}", case);
    }
}

#[test]
fn integer_values() {
    assert_eq!(parse_i32(&to_chars("-5")), Some(-5));
    assert_eq!(parse_i32(&to_chars("750")), Some(750));
    assert_eq!(parse_u32(&to_chars("4")), Some(4));
    assert_eq!(parse_u32(&to_chars("-4")), None);
    assert_eq!(parse_usize(&to_chars("+12")), Some(12));
}
