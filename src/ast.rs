//! Statements: one variant per construct of the language.
use vstd::prelude::*;
use crate::calc::{Calc, Tree};
use crate::types::{Val, WoojinValue, WoojinValueKind};
use crate::variable::VariableOption;

verus! {

/// A statement. Each child is owned by its parent; an `if` owns the two
/// ordered bodies it selects between.
#[derive(Debug)]
pub enum Statements {
    Comment(String),
    Calc(Calc),
    Print { values: Vec<Statements> },
    Println { values: Vec<Statements> },
    Assignment { name: String, value: Box<Statements> },
    Input { question: Box<Statements> },
    Let { name: String, kind: WoojinValueKind, stmt: Box<Statements>, option: VariableOption },
    If { condition: Box<Statements>, stmt: Vec<Statements>, else_stmt: Vec<Statements> },
    Roar { value: WoojinValue },
    Yee { code: i32 },
    Value { value: WoojinValue },
    Sleep { value: Box<Statements> },
}

/// The mathematical form of a statement.
pub enum Stmt {
    Comment(Seq<char>),
    Calc(Tree),
    Print(Seq<Stmt>),
    Println(Seq<Stmt>),
    Assignment(Seq<char>, Box<Stmt>),
    Input(Box<Stmt>),
    Let(Seq<char>, WoojinValueKind, Box<Stmt>, bool),
    If(Box<Stmt>, Seq<Stmt>, Seq<Stmt>),
    Roar(Val),
    Yee(i32),
    Value(Val),
    Sleep(Box<Stmt>),
}

/// The statement a `Statements` stands for.
pub open spec fn stmt_of(s: &Statements) -> Stmt
    decreases s,
{
    match s {
        Statements::Comment(t) => Stmt::Comment(t@),
        Statements::Calc(c) => Stmt::Calc(c@),
        Statements::Print { values } => Stmt::Print(
            Seq::new(values.len() as nat, |i: int| if 0 <= i < values.len() { stmt_of(&values[i]) } else { Stmt::Value(Val::Unit) }),
        ),
        Statements::Println { values } => Stmt::Println(
            Seq::new(values.len() as nat, |i: int| if 0 <= i < values.len() { stmt_of(&values[i]) } else { Stmt::Value(Val::Unit) }),
        ),
        Statements::Assignment { name, value } => Stmt::Assignment(name@, Box::new(stmt_of(value))),
        Statements::Input { question } => Stmt::Input(Box::new(stmt_of(question))),
        Statements::Let { name, kind, stmt, option } => Stmt::Let(name@, *kind, Box::new(stmt_of(stmt)), option.is_mut),
        Statements::If { condition, stmt, else_stmt } => Stmt::If(
            Box::new(stmt_of(condition)),
            Seq::new(stmt.len() as nat, |i: int| if 0 <= i < stmt.len() { stmt_of(&stmt[i]) } else { Stmt::Value(Val::Unit) }),
            Seq::new(else_stmt.len() as nat, |i: int| if 0 <= i < else_stmt.len() { stmt_of(&else_stmt[i]) } else { Stmt::Value(Val::Unit) }),
        ),
        Statements::Roar { value } => Stmt::Roar(value@),
        Statements::Yee { code } => Stmt::Yee(*code),
        Statements::Value { value } => Stmt::Value(value@),
        Statements::Sleep { value } => Stmt::Sleep(Box::new(stmt_of(value))),
    }
}

/// The statements a list stands for, in order.
pub open spec fn stmts_of(v: Seq<Statements>) -> Seq<Stmt> {
    Seq::new(v.len(), |i: int| stmt_of(&v[i]))
}

impl View for Statements {
    type V = Stmt;

    open spec fn view(&self) -> Stmt {
        stmt_of(self)
    }
}

} // verus!
