use math_dsl::ast::MathType;
use math_dsl::error::RuntimeError;
use math_dsl::interpreter::apply_math;
use math_dsl::number::is_digit_char;
use math_dsl::number::Number;
use math_dsl::text::chars_of;
use math_dsl::text::digit_of;
use math_dsl::text::push_decimal;
use math_dsl::text::push_text;
use math_dsl::text::same_chars;
use math_dsl::text::string_of;
use math_dsl::text::text_equals;

fn n(value: i64) -> Number {
    Number::from_i64(value)
}

fn text(number: &Number) -> String {
    number.to_string()
}

#[test]
fn a_number_is_written_in_decimal() {
    assert_eq!(text(&n(0)), "0");
    assert_eq!(text(&n(7)), "7");
    assert_eq!(text(&n(-7)), "-7");
    assert_eq!(text(&n(128)), "128");
    assert_eq!(text(&n(-128)), "-128");
    assert_eq!(text(&n(-129)), "-129");
    assert_eq!(text(&n(i64::MAX)), "9223372036854775807");
    assert_eq!(text(&n(i64::MIN)), "-9223372036854775808");
}

#[test]
fn a_literal_is_read_in_base_ten() {
    assert_eq!(text(&Number::parse("0").unwrap()), "0");
    assert_eq!(text(&Number::parse("42").unwrap()), "42");
    assert_eq!(text(&Number::parse("007").unwrap()), "7");
    assert_eq!(
        text(&Number::parse("340282366920938463463374607431768211456").unwrap()),
        "340282366920938463463374607431768211456"
    );
}

#[test]
fn underscores_in_a_literal_are_skipped() {
    assert_eq!(text(&Number::parse("1_000_000").unwrap()), "1000000");
    assert_eq!(text(&Number::parse("1_").unwrap()), "1");
}

#[test]
fn what_is_no_literal_is_not_read() {
    assert!(Number::parse("").is_none());
    assert!(Number::parse("_1").is_none());
    assert!(Number::parse("-1").is_none());
    assert!(Number::parse("+1").is_none());
    assert!(Number::parse("1.5").is_none());
    assert!(Number::parse("12a").is_none());
    assert!(Number::parse("a").is_none());
}

#[test]
fn sums_differences_and_products_are_exact() {
    assert_eq!(text(&n(2).add(&n(3))), "5");
    assert_eq!(text(&n(2).sub(&n(3))), "-1");
    assert_eq!(text(&n(-4).mul(&n(3))), "-12");
    let big = n(i64::MAX);
    assert_eq!(text(&big.add(&big)), "18446744073709551614");
    assert_eq!(text(&big.mul(&big)), "85070591730234615847396907784232501249");
    assert_eq!(text(&n(i64::MIN).sub(&n(1))), "-9223372036854775809");
}

#[test]
fn a_quotient_is_rounded_toward_zero() {
    assert_eq!(text(&n(7).checked_div(&n(2)).unwrap()), "3");
    assert_eq!(text(&n(-7).checked_div(&n(2)).unwrap()), "-3");
    assert_eq!(text(&n(7).checked_div(&n(-2)).unwrap()), "-3");
    assert_eq!(text(&n(-7).checked_div(&n(-2)).unwrap()), "3");
    assert_eq!(text(&n(6).checked_div(&n(3)).unwrap()), "2");
    assert_eq!(text(&n(0).checked_div(&n(5)).unwrap()), "0");
    assert_eq!(text(&n(1).checked_div(&n(5)).unwrap()), "0");
}

#[test]
fn nothing_is_divided_by_zero() {
    assert!(n(7).checked_div(&n(0)).is_none());
    assert!(n(0).checked_div(&n(0)).is_none());
}

#[test]
fn a_power_is_a_repeated_product() {
    assert_eq!(text(&n(2).pow(10)), "1024");
    assert_eq!(text(&n(-2).pow(3)), "-8");
    assert_eq!(text(&n(-2).pow(4)), "16");
    assert_eq!(text(&n(5).pow(0)), "1");
    assert_eq!(text(&n(0).pow(0)), "1");
    assert_eq!(text(&n(0).pow(3)), "0");
    assert_eq!(text(&n(2).pow(100)), "1267650600228229401496703205376");
}

#[test]
fn numbers_are_compared_by_value() {
    assert!(n(3).equals(&n(3)));
    assert!(!n(3).equals(&n(-3)));
    assert!(Number::parse("0003").unwrap().equals(&n(3)));
    assert!(n(-5).less_than(&n(2)));
    assert!(!n(2).less_than(&n(2)));
    assert!(!n(2).less_than(&n(-5)));
    assert!(n(255).less_than(&n(256)));
    assert!(n(-256).less_than(&n(-255)));
    assert!(n(0).is_zero());
    assert!(!n(1).is_zero());
}

#[test]
fn a_number_that_fits_is_a_u32() {
    assert_eq!(n(0).to_u32(), Some(0));
    assert_eq!(n(17).to_u32(), Some(17));
    assert_eq!(n(u32::MAX as i64).to_u32(), Some(u32::MAX));
    assert_eq!(n(u32::MAX as i64 + 1).to_u32(), None);
    assert_eq!(n(-1).to_u32(), None);
}

#[test]
fn a_copy_of_a_number_has_its_value() {
    let first = n(-123456789);
    let copy = first.clone();
    assert!(copy.equals(&first));
    assert_eq!(text(&copy), "-123456789");
}

#[test]
fn each_operator_is_applied() {
    let value = |math: MathType, a: i64, b: i64| text(&apply_math(math, &n(a), &n(b)).unwrap());
    assert_eq!(value(MathType::Add, 6, 3), "9");
    assert_eq!(value(MathType::Subtract, 6, 3), "3");
    assert_eq!(value(MathType::Multiply, 6, 3), "18");
    assert_eq!(value(MathType::Divide, 6, 4), "1");
    assert_eq!(value(MathType::Pow, 6, 3), "216");
    assert_eq!(value(MathType::Equals, 6, 3), "0");
    assert_eq!(value(MathType::Equals, 3, 3), "1");
    assert_eq!(value(MathType::NotEquals, 6, 3), "1");
    assert_eq!(value(MathType::NotEquals, 3, 3), "0");
    assert_eq!(value(MathType::BiggerOrEquals, 3, 3), "1");
    assert_eq!(value(MathType::BiggerOrEquals, 2, 3), "0");
    assert_eq!(value(MathType::Bigger, 3, 3), "0");
    assert_eq!(value(MathType::Bigger, 4, 3), "1");
    assert_eq!(value(MathType::SmallerOrEquals, 3, 3), "1");
    assert_eq!(value(MathType::SmallerOrEquals, 4, 3), "0");
    assert_eq!(value(MathType::Smaller, 3, 3), "0");
    assert_eq!(value(MathType::Smaller, 2, 3), "1");
}

#[test]
fn an_operator_may_fail() {
    let error = |math: MathType, a: i64, b: i64| apply_math(math, &n(a), &n(b)).unwrap_err();
    assert_eq!(error(MathType::Divide, 7, 0), RuntimeError::DivisionByZero);
    assert_eq!(error(MathType::Pow, 2, -1), RuntimeError::ExponentOutOfRange);
    assert_eq!(error(MathType::Pow, 2, u32::MAX as i64 + 1), RuntimeError::ExponentOutOfRange);
}

#[test]
fn each_operator_has_its_text() {
    let all = vec![
        (MathType::Add, "+"),
        (MathType::Subtract, "-"),
        (MathType::Multiply, "*"),
        (MathType::Divide, "/"),
        (MathType::Equals, "=="),
        (MathType::NotEquals, "=!"),
        (MathType::BiggerOrEquals, ">="),
        (MathType::Bigger, ">"),
        (MathType::SmallerOrEquals, "<="),
        (MathType::Smaller, "<"),
        (MathType::Pow, "^"),
    ];
    for (math, symbol) in all {
        assert_eq!(math.operator(), symbol);
        assert_eq!(MathType::of(symbol.to_owned()), math);
        assert_eq!(MathType::lookup(symbol), Some(math));
    }
    assert_eq!(MathType::lookup("="), None);
    assert_eq!(MathType::lookup("!="), None);
    assert_eq!(MathType::lookup(""), None);
    assert_eq!(MathType::entries().len(), 11);
}

#[test]
fn texts_and_characters_convert() {
    assert_eq!(chars_of("a*b"), vec!['a', '*', 'b']);
    assert_eq!(chars_of(""), Vec::<char>::new());
    assert_eq!(chars_of("é\n"), vec!['é', '\n']);
    assert_eq!(string_of(&vec!['x', 'y']), "xy");
    assert_eq!(string_of(&Vec::new()), "");
    assert!(same_chars(&vec!['a', 'b'], &vec!['a', 'b']));
    assert!(!same_chars(&vec!['a', 'b'], &vec!['a', 'c']));
    assert!(!same_chars(&vec!['a'], &vec!['a', 'c']));
    assert!(text_equals("PLUS", "PLUS"));
    assert!(!text_equals("PLUS", "PLUSS"));
    assert!(!text_equals("PLUS", "MINUS"));
    assert!(text_equals("", ""));
}

#[test]
fn digits_are_written_and_told_apart() {
    assert_eq!(digit_of(0), '0');
    assert_eq!(digit_of(9), '9');
    assert!(is_digit_char('0'));
    assert!(is_digit_char('9'));
    assert!(!is_digit_char('a'));
    assert!(!is_digit_char('_'));
    let mut out = "p".to_owned();
    push_decimal(&mut out, 0);
    assert_eq!(out, "p0");
    push_decimal(&mut out, 1234);
    assert_eq!(out, "p01234");
    push_text(&mut out, " = x");
    assert_eq!(out, "p01234 = x");
}
