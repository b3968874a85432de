use woojin::ast::Statements;
use woojin::calc::{check_calc, parse_calc, Calc};
use woojin::error::WoojinErrorKind;
use woojin::parser::{split_comma, tokenize_line};
use woojin::text::chars_of;
use woojin::types::{WoojinValue, WoojinValueKind};
use woojin::variable::Env;

fn tree(text: &str) -> Calc {
    parse_calc(&chars_of(text)).unwrap().0
}

fn eval(text: &str) -> Result<WoojinValue, WoojinErrorKind> {
    check_calc(&tree(text), &Env::new()).map_err(|e| e.kind)
}

#[test]
fn precedence_of_times_over_plus() {
    let t = tree("2 + 3 * 4");
    assert_eq!(format!("{:?}", t), "Add(Value(Int(2)), Mul(Value(Int(3)), Value(Int(4))))");
    assert_eq!(eval("2 + 3 * 4"), Ok(WoojinValue::Int(14)));
}

#[test]
fn operators_associate_to_the_left() {
    assert_eq!(
        format!("{:?}", tree("8 - 3 - 2")),
        "Sub(Sub(Value(Int(8)), Value(Int(3))), Value(Int(2)))"
    );
    assert_eq!(eval("8 - 3 - 2"), Ok(WoojinValue::Int(3)));
    assert_eq!(eval("2 * 3 * 4"), Ok(WoojinValue::Int(24)));
    assert_eq!(eval("100 / 10 / 5"), Ok(WoojinValue::Int(2)));
}

#[test]
fn parentheses_group() {
    assert_eq!(eval("(2 + 3) * 4"), Ok(WoojinValue::Int(20)));
    assert_eq!(eval("( 1 +2)*(3- 1 )"), Ok(WoojinValue::Int(6)));
}

#[test]
fn division_of_literals() {
    assert_eq!(eval("7 / 2"), Ok(WoojinValue::Int(3)));
    assert_eq!(eval("-7 / 2"), Ok(WoojinValue::Int(-3)));
    assert_eq!(eval("7 / 0"), Err(WoojinErrorKind::DivisionByZero));
    assert_eq!(eval("\"a\" / 2"), Err(WoojinErrorKind::CannotDivide));
}

#[test]
fn string_expressions() {
    assert_eq!(eval("\"ab\" + \"c\""), Ok(WoojinValue::String("abc".to_string())));
    assert_eq!(eval("\"ab\" * 2"), Ok(WoojinValue::String("abab".to_string())));
}

#[test]
fn splitting_arguments() {
    let pieces = split_comma(&chars_of(" \"a, b\" , 1 ,$x "));
    let texts: Vec<String> = pieces.iter().map(|p| p.iter().collect()).collect();
    assert_eq!(texts, vec!["\"a, b\"", "1", "$x"]);
    let one = split_comma(&chars_of("  1 + 2 "));
    assert_eq!(one.len(), 1);
    assert_eq!(one[0].iter().collect::<String>(), "1 + 2");
}

#[test]
fn dispatch_on_keywords() {
    assert!(matches!(tokenize_line("   ").unwrap(), Statements::Value { value: WoojinValue::String(ref s) } if s.is_empty()));
    assert!(matches!(tokenize_line("// note  ").unwrap(), Statements::Comment(ref s) if s == "note"));
    assert!(matches!(tokenize_line("else:").unwrap(), Statements::Value { value: WoojinValue::Unit }));
    assert!(matches!(tokenize_line("yee -12").unwrap(), Statements::Yee { code: -12 }));
    assert!(matches!(tokenize_line("yee 0").unwrap(), Statements::Yee { code: 0 }));
    assert!(matches!(tokenize_line("println \"a\", 1").unwrap(), Statements::Println { ref values } if values.len() == 2));
    assert!(matches!(tokenize_line("print 1").unwrap(), Statements::Print { ref values } if values.len() == 1));
    assert!(matches!(tokenize_line("input \"name? \"").unwrap(), Statements::Input { .. }));
    assert!(matches!(tokenize_line("sleep 10").unwrap(), Statements::Sleep { .. }));
    assert!(matches!(tokenize_line("$x = 3 + 1").unwrap(), Statements::Assignment { ref name, .. } if name == "x"));
    assert!(matches!(tokenize_line("42").unwrap(), Statements::Value { value: WoojinValue::Int(42) }));
    assert!(matches!(tokenize_line("1 + 1").unwrap(), Statements::Calc(_)));
}

#[test]
fn if_line_holds_its_condition() {
    match tokenize_line("if uglyguri:").unwrap() {
        Statements::If { condition, stmt, else_stmt } => {
            assert!(matches!(*condition, Statements::Value { value: WoojinValue::Bool(true) }));
            assert!(stmt.is_empty() && else_stmt.is_empty());
        },
        other => panic!("not an if: {:?}", other),
    }
    assert!(matches!(tokenize_line("if uglyguri").unwrap_err().kind, WoojinErrorKind::ParseError));
}

#[test]
fn let_lines() {
    match tokenize_line("let mut count: int = 1 + 2").unwrap() {
        Statements::Let { name, kind, option, .. } => {
            assert_eq!(name, "count");
            assert!(matches!(kind, WoojinValueKind::Int));
            assert!(option.is_mut);
        },
        other => panic!("not a let: {:?}", other),
    }
    match tokenize_line("let name = \"w\"").unwrap() {
        Statements::Let { name, kind, option, .. } => {
            assert_eq!(name, "name");
            assert!(matches!(kind, WoojinValueKind::Any));
            assert!(!option.is_mut);
        },
        other => panic!("not a let: {:?}", other),
    }
    assert!(matches!(tokenize_line("let x: number = 1").unwrap_err().kind, WoojinErrorKind::InvalidType));
    assert!(matches!(tokenize_line("let x 1").unwrap_err().kind, WoojinErrorKind::ParseError));
}

#[test]
fn roar_is_evaluated_while_reading() {
    assert!(matches!(tokenize_line("roar 1 + 2").unwrap(), Statements::Roar { value: WoojinValue::Int(3) }));
    assert!(matches!(tokenize_line("roar \"boom\"").unwrap(), Statements::Roar { value: WoojinValue::String(ref s) } if s == "boom"));
    assert!(matches!(tokenize_line("roar $x + 1").unwrap_err().kind, WoojinErrorKind::UndeclaredVariable));
}

#[test]
fn malformed_lines() {
    assert!(matches!(tokenize_line("hello").unwrap_err().kind, WoojinErrorKind::UnknownToken));
    assert!(matches!(tokenize_line("println").unwrap_err().kind, WoojinErrorKind::Unknown));
    assert!(matches!(tokenize_line("printx 1").unwrap_err().kind, WoojinErrorKind::Unknown));
    assert!(matches!(tokenize_line("yee x").unwrap_err().kind, WoojinErrorKind::ParseError));
    assert!(matches!(tokenize_line("yee 99999999999").unwrap_err().kind, WoojinErrorKind::ParseError));
    assert!(matches!(tokenize_line("println 1, nope").unwrap_err().kind, WoojinErrorKind::UnknownToken));
}

#[test]
fn unicode_whitespace_is_trimmed() {
    assert!(matches!(tokenize_line("\u{a0}").unwrap(), Statements::Value { value: WoojinValue::String(ref s) } if s.is_empty()));
    assert!(matches!(tokenize_line("\u{3000} 42 \u{2028}").unwrap(), Statements::Value { value: WoojinValue::Int(42) }));
    let pieces = split_comma(&chars_of("1,\u{a0}2"));
    let texts: Vec<String> = pieces.iter().map(|p| p.iter().collect()).collect();
    assert_eq!(texts, vec!["1", "2"]);
    assert_eq!(eval("2\u{a0}*\u{205f}3"), Ok(WoojinValue::Int(6)));
}

#[test]
fn unknown_token_quotes_the_text() {
    let e = tokenize_line("  @@@ ").unwrap_err();
    assert!(matches!(e.kind, WoojinErrorKind::UnknownToken));
    assert_eq!(e.details, "Unknown token \"@@@\"");
}
