//! An interpreter for a small, indentation-scoped scripting language: literal
//! and expression parsing, statement classification, block structuring by
//! indentation, a typed variable environment, and a step machine that
//! executes a program one decision at a time while the host performs its
//! input, output, sleeping and exiting.
pub mod ast;
pub mod block;
pub mod calc;
pub mod error;
pub mod machine;
pub mod parser;
pub mod text;
pub mod types;
pub mod variable;

use vstd::prelude::*;
use crate::block::{lines_view, program_of, tokenizer};
use crate::error::WoojinError;
use crate::machine::{FrameV, MachineV, Program};
use crate::types::Val;

verus! {

/// Reads a whole program, given as `(indent, line)` pairs, and returns it
/// ready to run: a machine about to execute its statements in order, with
/// no variable declared. A program that does not parse gives the error.
pub fn run(value: Vec<(usize, String)>) -> (r: Result<Program, WoojinError>)
    ensures
        r is Ok <==> program_of(lines_view(value@)) is Ok,
        r is Ok ==> r->Ok_0.wf() && r->Ok_0@ == (MachineV {
            env: Map::empty(),
            frames: seq![FrameV::Block(program_of(lines_view(value@))->Ok_0)],
            last: Val::Unit,
            halted: false,
        }),
        r is Err ==> program_of(lines_view(value@)) == Err::<Seq<crate::ast::Stmt>, crate::error::WoojinErrorKind>(r->Err_0.kind),
{
    match tokenizer(&value) {
        Ok(statements) => Ok(Program::new(statements)),
        Err(e) => Err(e),
    }
}

} // verus!
