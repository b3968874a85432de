use woojin::error::WoojinErrorKind;
use woojin::types::parse::{parse_bool, parse_int, parse_string, parse_value, parse_variable_name, to_literal};
use woojin::types::{Arith, WoojinValue, WoojinValueKind};
use woojin::text::chars_of;
use woojin::variable::Env;

fn s(t: &str) -> WoojinValue {
    WoojinValue::String(t.to_string())
}

#[test]
fn int_plus_int() {
    let env = Env::new();
    assert_eq!(WoojinValue::Int(2).add(&WoojinValue::Int(3), &env).unwrap(), WoojinValue::Int(5));
}

#[test]
fn int_addition_wraps() {
    let env = Env::new();
    let r = WoojinValue::Int(i32::MAX).add(&WoojinValue::Int(1), &env).unwrap();
    assert_eq!(r, WoojinValue::Int(i32::MIN));
}

#[test]
fn strings_concatenate() {
    let env = Env::new();
    assert_eq!(s("ab").add(&s("cd"), &env).unwrap(), s("abcd"));
}

#[test]
fn int_minus_and_times() {
    let env = Env::new();
    assert_eq!(WoojinValue::Int(2).sub(&WoojinValue::Int(7), &env).unwrap(), WoojinValue::Int(-5));
    assert_eq!(WoojinValue::Int(-6).mul(&WoojinValue::Int(7), &env).unwrap(), WoojinValue::Int(-42));
}

#[test]
fn string_times_count_repeats() {
    let env = Env::new();
    assert_eq!(s("ab").mul(&WoojinValue::Int(3), &env).unwrap(), s("ababab"));
    assert_eq!(s("ab").mul(&WoojinValue::Long(2), &env).unwrap(), s("abab"));
    assert_eq!(s("ab").mul(&WoojinValue::Int(0), &env).unwrap(), s(""));
}

#[test]
fn string_times_negative_count_is_empty() {
    let env = Env::new();
    assert_eq!(s("ab").mul(&WoojinValue::Int(-2), &env).unwrap(), s(""));
}

#[test]
fn division_truncates_toward_zero() {
    let env = Env::new();
    assert_eq!(WoojinValue::Int(7).div(&WoojinValue::Int(2), &env).unwrap(), WoojinValue::Int(3));
    assert_eq!(WoojinValue::Int(-7).div(&WoojinValue::Int(2), &env).unwrap(), WoojinValue::Int(-3));
    assert_eq!(WoojinValue::Int(7).div(&WoojinValue::Int(-2), &env).unwrap(), WoojinValue::Int(-3));
    assert_eq!(WoojinValue::Int(-7).div(&WoojinValue::Int(-2), &env).unwrap(), WoojinValue::Int(3));
}

#[test]
fn division_of_min_by_minus_one_wraps() {
    let env = Env::new();
    let r = WoojinValue::Int(i32::MIN).div(&WoojinValue::Int(-1), &env).unwrap();
    assert_eq!(r, WoojinValue::Int(i32::MIN));
}

#[test]
fn division_by_zero_is_refused() {
    let env = Env::new();
    let e = WoojinValue::Int(7).div(&WoojinValue::Int(0), &env).unwrap_err();
    assert!(matches!(e.kind, WoojinErrorKind::DivisionByZero));
}

#[test]
fn mixed_kinds_are_refused_by_each_operator() {
    let env = Env::new();
    let a = WoojinValue::Int(1);
    let b = s("x");
    assert!(matches!(a.add(&b, &env).unwrap_err().kind, WoojinErrorKind::CannotAdd));
    assert!(matches!(a.sub(&b, &env).unwrap_err().kind, WoojinErrorKind::CannotSubtract));
    assert!(matches!(a.mul(&b, &env).unwrap_err().kind, WoojinErrorKind::CannotMultiply));
    assert!(matches!(a.div(&b, &env).unwrap_err().kind, WoojinErrorKind::CannotDivide));
    let t = WoojinValue::Bool(true);
    assert!(matches!(t.add(&a, &env).unwrap_err().kind, WoojinErrorKind::CannotAdd));
    assert!(matches!(s("a").sub(&s("b"), &env).unwrap_err().kind, WoojinErrorKind::CannotSubtract));
    assert!(matches!(WoojinValue::Long(2).add(&WoojinValue::Long(3), &env).unwrap_err().kind, WoojinErrorKind::CannotAdd));
    assert!(matches!(WoojinValue::Unit.apply(Arith::Div, &a, &env).unwrap_err().kind, WoojinErrorKind::CannotDivide));
}

#[test]
fn undeclared_operand_is_reported() {
    let env = Env::new();
    let e = WoojinValue::Var("x".to_string()).add(&WoojinValue::Int(1), &env).unwrap_err();
    assert!(matches!(e.kind, WoojinErrorKind::UndeclaredVariable));
}

#[test]
fn rendering() {
    let env = Env::new();
    assert_eq!(WoojinValue::Bool(true).to_print(&env).unwrap(), "uglyguri");
    assert_eq!(WoojinValue::Bool(false).to_print(&env).unwrap(), "beautifulguri");
    assert_eq!(WoojinValue::Int(-120).to_print(&env).unwrap(), "-120");
    assert_eq!(WoojinValue::Int(0).to_print(&env).unwrap(), "0");
    assert_eq!(WoojinValue::Int(i32::MIN).to_print(&env).unwrap(), "-2147483648");
    assert_eq!(WoojinValue::Long(i64::MIN).to_print(&env).unwrap(), "-9223372036854775808");
    assert_eq!(WoojinValue::Unit.to_print(&env).unwrap(), "()");
    assert_eq!(s("hi").to_print(&env).unwrap(), "hi");
}

#[test]
fn kinds_and_type_names() {
    let env = Env::new();
    assert!(matches!(WoojinValue::Int(1).kind(&env).unwrap(), WoojinValueKind::Int));
    assert!(WoojinValue::Int(1).type_eq(WoojinValueKind::Any, &env).unwrap());
    assert!(!WoojinValue::Int(1).type_eq(WoojinValueKind::String, &env).unwrap());
    assert!(matches!(WoojinValueKind::from_name("string").unwrap(), WoojinValueKind::String));
    assert!(matches!(WoojinValueKind::from_name("unit").unwrap(), WoojinValueKind::Unit));
    assert!(matches!(WoojinValueKind::from_name("any").unwrap_err().kind, WoojinErrorKind::InvalidType));
    assert!(matches!(WoojinValueKind::from_name("integer").unwrap_err().kind, WoojinErrorKind::InvalidType));
    assert_eq!(WoojinValueKind::Double.name(), "double");
}

#[test]
fn integer_literals() {
    assert_eq!(parse_int(&chars_of("-42 rest"), 0), Some((-42, 3)));
    assert_eq!(parse_int(&chars_of("+7"), 0), Some((7, 2)));
    assert_eq!(parse_int(&chars_of("2147483647"), 0), Some((i32::MAX, 10)));
    assert_eq!(parse_int(&chars_of("-2147483648"), 0), Some((i32::MIN, 11)));
    assert_eq!(parse_int(&chars_of("2147483648"), 0), None);
    assert_eq!(parse_int(&chars_of("-"), 0), None);
}

#[test]
fn string_literals_and_escapes() {
    let (t, e) = parse_string(&chars_of(r#""a\tb\n\"q\"\\\0" tail"#), 0).unwrap();
    assert_eq!(t, "a\tb\n\"q\"\\\0");
    assert_eq!(e, 17);
    assert_eq!(parse_string(&chars_of(r#""""#), 0), Some((String::new(), 2)));
    assert_eq!(parse_string(&chars_of(r#""bad \q""#), 0), None);
    assert_eq!(parse_string(&chars_of(r#""open"#), 0), None);
}

#[test]
fn boolean_words_and_variables() {
    assert_eq!(parse_bool(&chars_of("uglyguri"), 0), Some((true, 8)));
    assert_eq!(parse_bool(&chars_of("beautifulguri"), 0), Some((false, 13)));
    assert_eq!(parse_bool(&chars_of("true"), 0), None);
    assert_eq!(parse_variable_name(&chars_of("$my_var2 + 1"), 0), Some(("my_var2".to_string(), 8)));
    assert_eq!(parse_variable_name(&chars_of("$ x"), 0), None);
}

#[test]
fn float_shaped_literal_is_not_a_value() {
    assert_eq!(parse_value(&chars_of("1.5"), 0), None);
    assert_eq!(parse_value(&chars_of("12"), 0), Some((WoojinValue::Int(12), 2)));
}

#[test]
fn string_literal_round_trip() {
    for text in ["plain", "", "line\nbreak", "say \"hi\"", "back\\slash", "tab\there", "nul\0cr\r"] {
        let lit = to_literal(text);
        let (v, e) = parse_value(&chars_of(&lit), 0).unwrap();
        assert_eq!(v, s(text));
        assert_eq!(e, lit.chars().count());
    }
    assert_eq!(to_literal("a\"b\n"), r#""a\"b\n""#);
}

#[test]
fn arrays_render_their_elements() {
    let env = Env::new();
    let a = WoojinValue::Array(vec![
        WoojinValue::Int(-5),
        WoojinValue::Bool(true),
        WoojinValue::Bool(false),
        s("x"),
        WoojinValue::Unit,
    ]);
    assert_eq!(a.to_print(&env).unwrap(), "[-5, uglyguri, beautifulguri, x, ()]");
    let nested = WoojinValue::Array(vec![WoojinValue::Array(vec![]), WoojinValue::Array(vec![WoojinValue::Int(1), WoojinValue::Int(2)])]);
    assert_eq!(nested.to_print(&env).unwrap(), "[[], [1, 2]]");
    let with_ref = WoojinValue::Array(vec![WoojinValue::Var("x".to_string())]);
    assert_eq!(with_ref.text(), "[$x]");
}

#[test]
fn arrays_have_their_own_kind_and_take_no_arithmetic() {
    let env = Env::new();
    let a = WoojinValue::Array(vec![WoojinValue::Int(1)]);
    assert!(matches!(a.kind(&env).unwrap(), WoojinValueKind::Array));
    assert!(matches!(a.add(&a, &env).unwrap_err().kind, WoojinErrorKind::CannotAdd));
    assert!(matches!(a.mul(&WoojinValue::Int(2), &env).unwrap_err().kind, WoojinErrorKind::CannotMultiply));
    assert_eq!(a.duplicate(), a);
    assert_ne!(a, WoojinValue::Array(vec![WoojinValue::Int(2)]));
    assert_ne!(a, WoojinValue::Array(vec![]));
}

#[test]
fn array_can_be_stored_and_read_back() {
    let mut env = Env::new();
    let a = WoojinValue::Array(vec![s("p"), WoojinValue::Long(7)]);
    env.dec_var("xs", &a, false).unwrap();
    assert_eq!(env.get_var("xs").unwrap(), a);
    let r = WoojinValue::Var("xs".to_string()).to_print(&env).unwrap();
    assert_eq!(r, "[p, 7]");
}
