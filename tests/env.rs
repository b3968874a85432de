use woojin::error::WoojinErrorKind;
use woojin::types::WoojinValue;
use woojin::variable::{Env, VariableOption};

#[test]
fn immutable_variable_cannot_be_assigned() {
    let mut env = Env::new();
    env.dec_var("x", &WoojinValue::Int(1), false).unwrap();
    let e = env.change_var("x", &WoojinValue::Int(2)).unwrap_err();
    assert!(matches!(e.kind, WoojinErrorKind::VariableNotMutable));
    assert_eq!(env.get_var("x").unwrap(), WoojinValue::Int(1));
}

#[test]
fn assignment_of_another_kind_is_refused() {
    let mut env = Env::new();
    env.dec_var("x", &WoojinValue::Int(1), true).unwrap();
    let e = env.change_var("x", &WoojinValue::String("a".to_string())).unwrap_err();
    assert!(matches!(e.kind, WoojinErrorKind::TypeMismatch));
    assert_eq!(env.get_var("x").unwrap(), WoojinValue::Int(1));
}

#[test]
fn declaring_twice_is_refused() {
    let mut env = Env::new();
    env.dec_var("x", &WoojinValue::Int(1), true).unwrap();
    let e = env.dec_var("x", &WoojinValue::Int(5), false).unwrap_err();
    assert!(matches!(e.kind, WoojinErrorKind::VariableAlreadyDeclared));
    assert_eq!(env.get_var("x").unwrap(), WoojinValue::Int(1));
}

#[test]
fn mutable_variable_takes_a_value_of_its_kind() {
    let mut env = Env::new();
    env.dec_var("n", &WoojinValue::Int(1), true).unwrap();
    env.change_var("n", &WoojinValue::Int(9)).unwrap();
    assert_eq!(env.get_var("n").unwrap(), WoojinValue::Int(9));
}

#[test]
fn undeclared_names_are_reported() {
    let mut env = Env::new();
    assert!(matches!(env.get_var("nope").unwrap_err().kind, WoojinErrorKind::UndeclaredVariable));
    let e = env.change_var("nope", &WoojinValue::Int(1)).unwrap_err();
    assert!(matches!(e.kind, WoojinErrorKind::UndeclaredVariable));
    assert!(!env.contains("nope"));
}

#[test]
fn declaring_from_a_variable_copies_its_value() {
    let mut env = Env::new();
    env.dec_var("a", &WoojinValue::Int(4), false).unwrap();
    env.dec_var("b", &WoojinValue::Var("a".to_string()), true).unwrap();
    assert_eq!(env.get_var("b").unwrap(), WoojinValue::Int(4));
    let r = WoojinValue::Var("b".to_string()).add(&WoojinValue::Int(1), &env).unwrap();
    assert_eq!(r, WoojinValue::Int(5));
}

#[test]
fn variable_option_defaults_to_immutable() {
    assert!(!VariableOption::new(None, None).is_mut);
    assert!(VariableOption::new(Some(true), Some(false)).is_mut);
}
