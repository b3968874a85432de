use woojin::ast::Statements;
use woojin::block::{is_else, tokenizer};
use woojin::error::{WoojinError, WoojinErrorKind};
use woojin::machine::{Action, Program};
use woojin::run;

fn lines(src: &[(usize, &str)]) -> Vec<(usize, String)> {
    src.iter().map(|(i, l)| (*i, l.to_string())).collect()
}

enum End {
    Exit(i32),
    Fail(WoojinErrorKind),
    Abort(String),
    Finished,
}

/// Runs a program to its end, answering input requests from `input`.
fn execute(src: &[(usize, &str)], input: &[&str]) -> (String, Vec<u64>, End) {
    let mut program: Program = run(lines(src)).unwrap();
    let mut out = String::new();
    let mut sleeps = Vec::new();
    let mut pending: Option<String> = None;
    let mut input = input.iter();
    for _ in 0..10_000 {
        match program.step(pending.take()) {
            Action::Continue => {},
            Action::Output(s) => out.push_str(&s),
            Action::ReadLine => pending = Some(input.next().unwrap().to_string()),
            Action::Sleep(ms) => sleeps.push(ms),
            Action::Exit(c) => return (out, sleeps, End::Exit(c)),
            Action::Fail(e) => return (out, sleeps, End::Fail(e.kind)),
            Action::Abort(e) => return (out, sleeps, End::Abort(e.details)),
            Action::Finished => return (out, sleeps, End::Finished),
        }
    }
    panic!("program did not stop");
}

#[test]
fn if_else_blocks_by_indentation() {
    let src = [(0, "if uglyguri:"), (1, "println \"a\""), (0, "else:"), (1, "println \"b\""), (0, "yee 0")];
    let program = tokenizer(&lines(&src)).unwrap();
    assert_eq!(program.len(), 2);
    match &program[0] {
        Statements::If { stmt, else_stmt, .. } => {
            assert_eq!(stmt.len(), 1);
            assert_eq!(else_stmt.len(), 1);
            assert!(matches!(&stmt[0], Statements::Println { .. }));
            assert!(matches!(&else_stmt[0], Statements::Println { .. }));
        },
        other => panic!("not an if: {:?}", other),
    }
    assert!(matches!(program[1], Statements::Yee { code: 0 }));
    let (out, _, end) = execute(&src, &[]);
    assert_eq!(out, "a\n");
    assert!(matches!(end, End::Exit(0)));
}

#[test]
fn false_condition_runs_the_else_body() {
    let src = [(0, "if beautifulguri:"), (1, "println \"a\""), (0, "else:"), (1, "println \"b\""), (0, "yee 3")];
    let (out, _, end) = execute(&src, &[]);
    assert_eq!(out, "b\n");
    assert!(matches!(end, End::Exit(3)));
}

#[test]
fn nested_blocks() {
    let src = [
        (0, "let x = uglyguri"),
        (0, "if $x:"),
        (1, "if beautifulguri:"),
        (2, "println 1"),
        (1, "else:"),
        (2, "println 2"),
        (1, "println 3"),
        (0, "println 4"),
        (0, "yee 0"),
    ];
    let (out, _, end) = execute(&src, &[]);
    assert_eq!(out, "2\n3\n4\n");
    assert!(matches!(end, End::Exit(0)));
}

#[test]
fn if_without_a_following_line_fails() {
    let e: WoojinError = tokenizer(&lines(&[(0, "if uglyguri:")])).unwrap_err();
    assert!(matches!(e.kind, WoojinErrorKind::IfParsingFailed));
    let e = tokenizer(&lines(&[(0, "if uglyguri:"), (1, "println 1"), (0, "else:"), (1, "println 2")])).unwrap_err();
    assert!(matches!(e.kind, WoojinErrorKind::ElseParsingFailed));
}

#[test]
fn else_marker() {
    assert!(is_else("else:"));
    assert!(is_else("else  :"));
    assert!(!is_else("else"));
    assert!(!is_else("elsewhere:x"));
}

#[test]
fn print_joins_arguments_with_spaces() {
    let src = [(0, "print 1, \"a, b\", uglyguri"), (0, "println ()"), (0, "yee 0")];
    let parsed = run(lines(&src));
    assert!(parsed.is_err());
    let src = [(0, "print 1, \"a, b\", uglyguri"), (0, "println \"!\""), (0, "yee 0")];
    let (out, _, _) = execute(&src, &[]);
    assert_eq!(out, "1 a, b uglyguri!\n");
}

#[test]
fn variables_flow_through_statements() {
    let src = [
        (0, "let mut n: int = 2"),
        (0, "$n = $n * 10 + 1"),
        (0, "println $n, $n - 1"),
        (0, "yee 0"),
    ];
    let (out, _, _) = execute(&src, &[]);
    assert_eq!(out, "21 20\n");
}

#[test]
fn assignment_to_immutable_fails_the_program() {
    let src = [(0, "let x = 1"), (0, "$x = 2"), (0, "yee 0")];
    let (_, _, end) = execute(&src, &[]);
    assert!(matches!(end, End::Fail(WoojinErrorKind::VariableNotMutable)));
}

#[test]
fn declared_type_is_checked() {
    let src = [(0, "let x: string = 1"), (0, "yee 0")];
    let (_, _, end) = execute(&src, &[]);
    assert!(matches!(end, End::Fail(WoojinErrorKind::TypeMismatch)));
}

#[test]
fn condition_must_be_boolean() {
    let src = [(0, "if 1:"), (1, "println 1"), (0, "yee 0")];
    let (_, _, end) = execute(&src, &[]);
    assert!(matches!(end, End::Fail(WoojinErrorKind::TypeMismatch)));
}

#[test]
fn input_prompts_then_reads_a_trimmed_line() {
    let src = [(0, "let name = input \"name? \""), (0, "println \"hi \" + $name"), (0, "yee 0")];
    let (out, _, end) = execute(&src, &["  woojin \n"]);
    assert_eq!(out, "name? hi woojin\n");
    assert!(matches!(end, End::Exit(0)));
}

#[test]
fn sleep_takes_milliseconds() {
    let src = [(0, "sleep 5 * 2"), (0, "sleep -3"), (0, "yee 0")];
    let (_, sleeps, _) = execute(&src, &[]);
    assert_eq!(sleeps, vec![10, 0]);
    let (_, _, end) = execute(&[(0, "sleep \"x\""), (0, "yee 0")], &[]);
    assert!(matches!(end, End::Fail(WoojinErrorKind::TypeMismatch)));
}

#[test]
fn roar_aborts_with_its_text() {
    let src = [(0, "println 1"), (0, "roar \"bad\" + \"!\""), (0, "println 2"), (0, "yee 0")];
    let (out, _, end) = execute(&src, &[]);
    assert_eq!(out, "1\n");
    assert!(matches!(end, End::Abort(ref t) if t == "bad!"));
}

#[test]
fn program_without_exit_finishes() {
    let (out, _, end) = execute(&[(0, "println 7")], &[]);
    assert_eq!(out, "7\n");
    assert!(matches!(end, End::Finished));
}

#[test]
fn division_by_zero_fails_the_program() {
    let (_, _, end) = execute(&[(0, "println 1 / 0"), (0, "yee 0")], &[]);
    assert!(matches!(end, End::Fail(WoojinErrorKind::DivisionByZero)));
}

#[test]
fn error_message_format() {
    let e = WoojinError::new("oops", WoojinErrorKind::TypeMismatch);
    assert_eq!(e.message(), "\x1b[1m\x1b[31mWJ17\x1b[0m: oops");
    assert_eq!(WoojinErrorKind::Roar.code(), 0);
}

#[test]
fn input_line_is_trimmed_of_unicode_whitespace() {
    let src = [(0, "let name = input \"? \""), (0, "println $name + \"!\""), (0, "yee 0")];
    let (out, _, _) = execute(&src, &["\u{3000}woojin\u{a0}\r\n"]);
    assert_eq!(out, "? woojin!\n");
}
