use vstd::prelude::*;
use vstd::string::StringExecFns;
use crate::text::{int_text, push_int};

verus! {

/// The closed taxonomy of failures the language reports.
#[derive(Debug, Clone, Copy, PartialEq, Eq, Structural)]
pub enum WoojinErrorKind {
    Roar,
    Success,
    Unknown,
    UnknownToken,
    FileNotFound,
    UnsupportedExtension,
    FailReadFailure,
    UndeclaredVariable,
    VariableAlreadyDeclared,
    VariableNotMutable,
    ParseError,
    CannotAdd,
    CannotSubtract,
    CannotMultiply,
    CannotDivide,
    DivisionByZero,
    InvalidType,
    TypeMismatch,
    IfParsingFailed,
    ElseParsingFailed,
}

/// The number under which a kind is reported: its position in the list.
pub open spec fn kind_code(k: WoojinErrorKind) -> int {
    match k {
        WoojinErrorKind::Roar => 0,
        WoojinErrorKind::Success => 1,
        WoojinErrorKind::Unknown => 2,
        WoojinErrorKind::UnknownToken => 3,
        WoojinErrorKind::FileNotFound => 4,
        WoojinErrorKind::UnsupportedExtension => 5,
        WoojinErrorKind::FailReadFailure => 6,
        WoojinErrorKind::UndeclaredVariable => 7,
        WoojinErrorKind::VariableAlreadyDeclared => 8,
        WoojinErrorKind::VariableNotMutable => 9,
        WoojinErrorKind::ParseError => 10,
        WoojinErrorKind::CannotAdd => 11,
        WoojinErrorKind::CannotSubtract => 12,
        WoojinErrorKind::CannotMultiply => 13,
        WoojinErrorKind::CannotDivide => 14,
        WoojinErrorKind::DivisionByZero => 15,
        WoojinErrorKind::InvalidType => 16,
        WoojinErrorKind::TypeMismatch => 17,
        WoojinErrorKind::IfParsingFailed => 18,
        WoojinErrorKind::ElseParsingFailed => 19,
    }
}

impl WoojinErrorKind {
    /// The number under which the kind is reported (its position in the list).
    pub fn code(self) -> (r: i32)
        ensures
            r == kind_code(self),
    {
        match self {
            WoojinErrorKind::Roar => 0,
            WoojinErrorKind::Success => 1,
            WoojinErrorKind::Unknown => 2,
            WoojinErrorKind::UnknownToken => 3,
            WoojinErrorKind::FileNotFound => 4,
            WoojinErrorKind::UnsupportedExtension => 5,
            WoojinErrorKind::FailReadFailure => 6,
            WoojinErrorKind::UndeclaredVariable => 7,
            WoojinErrorKind::VariableAlreadyDeclared => 8,
            WoojinErrorKind::VariableNotMutable => 9,
            WoojinErrorKind::ParseError => 10,
            WoojinErrorKind::CannotAdd => 11,
            WoojinErrorKind::CannotSubtract => 12,
            WoojinErrorKind::CannotMultiply => 13,
            WoojinErrorKind::CannotDivide => 14,
            WoojinErrorKind::DivisionByZero => 15,
            WoojinErrorKind::InvalidType => 16,
            WoojinErrorKind::TypeMismatch => 17,
            WoojinErrorKind::IfParsingFailed => 18,
            WoojinErrorKind::ElseParsingFailed => 19,
        }
    }
}

/// A failure: its kind and a human-readable explanation.
#[derive(Debug, Clone)]
pub struct WoojinError {
    pub details: String,
    pub kind: WoojinErrorKind,
}

impl WoojinError {
    pub fn new(msg: &str, kind: WoojinErrorKind) -> (r: WoojinError)
        ensures
            r.details@ == msg@,
            r.kind == kind,
    {
        WoojinError { details: String::from_str(msg), kind }
    }

    /// The report of the error: `WJ<code>: <details>`, the prefix in bold red.
    pub fn message(&self) -> (r: String)
        ensures
            r@ == "\x1b[1m\x1b[31mWJ"@ + int_text(kind_code(self.kind)) + "\x1b[0m: "@ + self.details@,
    {
        let mut r = String::from_str("\x1b[1m\x1b[31mWJ");
        push_int(&mut r, self.kind.code() as i64);
        r.append("\x1b[0m: ");
        r.append(self.details.as_str());
        r
    }

    /// An error whose explanation is already a `String`.
    pub fn with_details(details: String, kind: WoojinErrorKind) -> (r: WoojinError)
        ensures
            r.details == details,
            r.kind == kind,
    {
        WoojinError { details, kind }
    }
}

} // verus!
