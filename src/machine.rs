//! The evaluator, as a step machine. The program's statements are executed
//! one small step at a time; a step that needs the outside world (printing,
//! reading a line, sleeping, exiting) hands the host an `Action` to perform,
//! and a line that was read comes back with the next step.
use vstd::prelude::*;
use vstd::string::StringExecFns;
use crate::ast::{stmt_of, stmts_of, Statements, Stmt};
use crate::calc::{check_calc, eval_tree};
use crate::error::{WoojinError, WoojinErrorKind};
use crate::text::{chars_of, string_of, trim, trimmed};
use crate::types::{fits, resolve, text_of, Val, WoojinValue, WoojinValueKind};
use crate::variable::{assign_spec, declare_spec, Bindings, Env};

verus! {

/// Pending work, innermost last. The frame on top either runs a statement
/// or waits for the value the statement above it produced.
pub enum Frame {
    /// A statement to run.
    Run(Statements),
    /// Statements still to run, in order; their values are discarded.
    Block(Vec<Statements>),
    /// Print the value just produced, then the remaining arguments.
    Args { rest: Vec<Statements>, newline: bool },
    /// Declare a name with the value just produced.
    Declare { name: String, kind: WoojinValueKind, is_mut: bool },
    /// Assign the value just produced to a name.
    Assign { name: String },
    /// Run one of two bodies, as the value just produced says.
    Branch { then_body: Vec<Statements>, else_body: Vec<Statements> },
    /// Sleep for the value just produced, in milliseconds.
    Pause,
    /// Print the value just produced as a prompt, then read a line.
    Prompt,
    /// Wait for the line read from the input.
    Read,
}

/// The mathematical form of a frame.
pub enum FrameV {
    Run(Stmt),
    Block(Seq<Stmt>),
    Args(Seq<Stmt>, bool),
    Declare(Seq<char>, WoojinValueKind, bool),
    Assign(Seq<char>),
    Branch(Seq<Stmt>, Seq<Stmt>),
    Pause,
    Prompt,
    Read,
}

pub open spec fn frame_of(f: &Frame) -> FrameV {
    match f {
        Frame::Run(s) => FrameV::Run(stmt_of(s)),
        Frame::Block(v) => FrameV::Block(stmts_of(v@)),
        Frame::Args { rest, newline } => FrameV::Args(stmts_of(rest@), *newline),
        Frame::Declare { name, kind, is_mut } => FrameV::Declare(name@, *kind, *is_mut),
        Frame::Assign { name } => FrameV::Assign(name@),
        Frame::Branch { then_body, else_body } => FrameV::Branch(stmts_of(then_body@), stmts_of(else_body@)),
        Frame::Pause => FrameV::Pause,
        Frame::Prompt => FrameV::Prompt,
        Frame::Read => FrameV::Read,
    }
}

pub open spec fn frames_view(v: Seq<Frame>) -> Seq<FrameV> {
    v.map_values(|f: Frame| frame_of(&f))
}

/// What the host is asked to do after a step.
#[derive(Debug)]
pub enum Action {
    /// Nothing: take the next step.
    Continue,
    /// Write this text to the output, as it is.
    Output(String),
    /// Read one line of input and hand it to the next step.
    ReadLine,
    /// Block for this many milliseconds.
    Sleep(u64),
    /// End the process with this exit code.
    Exit(i32),
    /// The program failed; report the error and end with a non-zero code.
    Fail(WoojinError),
    /// The program was stopped by `roar`; report it and end with a non-zero code.
    Abort(WoojinError),
    /// The program has run to its end.
    Finished,
}

/// The mathematical form of an action: a failure by its kind, a `roar` by
/// its kind and the text it carries.
pub enum ActionV {
    Continue,
    Output(Seq<char>),
    ReadLine,
    Sleep(u64),
    Exit(i32),
    Fail(WoojinErrorKind),
    Abort(WoojinErrorKind, Seq<char>),
    Finished,
}

pub open spec fn action_view(a: &Action) -> ActionV {
    match a {
        Action::Continue => ActionV::Continue,
        Action::Output(s) => ActionV::Output(s@),
        Action::ReadLine => ActionV::ReadLine,
        Action::Sleep(n) => ActionV::Sleep(*n),
        Action::Exit(c) => ActionV::Exit(*c),
        Action::Fail(e) => ActionV::Fail(e.kind),
        Action::Abort(e) => ActionV::Abort(e.kind, e.details@),
        Action::Finished => ActionV::Finished,
    }
}

/// The mathematical form of the machine.
pub struct MachineV {
    pub env: Bindings,
    pub frames: Seq<FrameV>,
    pub last: Val,
    pub halted: bool,
}

/// The machine stops, with a last action; no work is left.
pub open spec fn halt(m: MachineV, a: ActionV) -> (MachineV, ActionV) {
    (MachineV { env: m.env, frames: Seq::empty(), last: m.last, halted: true }, a)
}

/// The machine goes on with these frames and this value.
pub open spec fn resume(m: MachineV, frames: Seq<FrameV>, last: Val, env: Bindings) -> (MachineV, ActionV) {
    (MachineV { env, frames, last, halted: m.halted }, ActionV::Continue)
}

/// The separator printed after an argument: a space between arguments, and
/// after the last one a newline for `println`.
pub open spec fn separator(more: bool, newline: bool) -> Seq<char> {
    if more { seq![' '] } else if newline { seq!['\n'] } else { Seq::empty() }
}

/// Starting to run statement `s`; `below` are the frames under it.
pub open spec fn start(m: MachineV, below: Seq<FrameV>, s: Stmt) -> (MachineV, ActionV) {
    match s {
        Stmt::Comment(_) => resume(m, below, Val::Unit, m.env),
        Stmt::Calc(t) => match eval_tree(t, m.env) {
            Ok(v) => resume(m, below, v, m.env),
            Err(k) => halt(m, ActionV::Fail(k)),
        },
        Stmt::Value(v) => match resolve(v, m.env) {
            Some(x) => resume(m, below, x, m.env),
            None => halt(m, ActionV::Fail(WoojinErrorKind::UndeclaredVariable)),
        },
        Stmt::Print(vs) => if vs.len() == 0 {
            resume(m, below, Val::Unit, m.env)
        } else {
            resume(m, below.push(FrameV::Args(vs.drop_first(), false)).push(FrameV::Run(vs[0])), m.last, m.env)
        },
        Stmt::Println(vs) => if vs.len() == 0 {
            resume(m, below, Val::Unit, m.env)
        } else {
            resume(m, below.push(FrameV::Args(vs.drop_first(), true)).push(FrameV::Run(vs[0])), m.last, m.env)
        },
        Stmt::Assignment(n, x) => resume(m, below.push(FrameV::Assign(n)).push(FrameV::Run(*x)), m.last, m.env),
        Stmt::Input(q) => resume(m, below.push(FrameV::Prompt).push(FrameV::Run(*q)), m.last, m.env),
        Stmt::Let(n, k, x, mu) => resume(m, below.push(FrameV::Declare(n, k, mu)).push(FrameV::Run(*x)), m.last, m.env),
        Stmt::If(c, tb, eb) => resume(m, below.push(FrameV::Branch(tb, eb)).push(FrameV::Run(*c)), m.last, m.env),
        Stmt::Roar(v) => match resolve(v, m.env) {
            Some(x) => halt(m, ActionV::Abort(WoojinErrorKind::Roar, text_of(x))),
            None => halt(m, ActionV::Fail(WoojinErrorKind::UndeclaredVariable)),
        },
        Stmt::Yee(c) => halt(m, ActionV::Exit(c)),
        Stmt::Sleep(x) => resume(m, below.push(FrameV::Pause).push(FrameV::Run(*x)), m.last, m.env),
    }
}

/// One step of the machine; `line` is the line read for a pending `ReadLine`.
pub open spec fn next(m: MachineV, line: Option<Seq<char>>) -> (MachineV, ActionV) {
    if m.halted {
        (m, ActionV::Finished)
    } else if m.frames.len() == 0 {
        halt(m, ActionV::Finished)
    } else {
        let below = m.frames.drop_last();
        match m.frames.last() {
            FrameV::Run(s) => start(m, below, s),
            FrameV::Block(rest) => if rest.len() == 0 {
                resume(m, below, Val::Unit, m.env)
            } else {
                resume(m, below.push(FrameV::Block(rest.drop_first())).push(FrameV::Run(rest[0])), m.last, m.env)
            },
            FrameV::Args(rest, nl) => {
                let out = text_of(m.last) + separator(rest.len() > 0, nl);
                if rest.len() == 0 {
                    (MachineV { env: m.env, frames: below, last: Val::Unit, halted: false }, ActionV::Output(out))
                } else {
                    (MachineV {
                        env: m.env,
                        frames: below.push(FrameV::Args(rest.drop_first(), nl)).push(FrameV::Run(rest[0])),
                        last: m.last,
                        halted: false,
                    }, ActionV::Output(out))
                }
            },
            FrameV::Declare(n, k, mu) => if !fits(m.last, k) {
                halt(m, ActionV::Fail(WoojinErrorKind::TypeMismatch))
            } else {
                match declare_spec(m.env, n, m.last, mu) {
                    Ok(e) => resume(m, below, Val::Unit, e),
                    Err(k) => halt(m, ActionV::Fail(k)),
                }
            },
            FrameV::Assign(n) => match assign_spec(m.env, n, m.last) {
                Ok(e) => resume(m, below, Val::Unit, e),
                Err(k) => halt(m, ActionV::Fail(k)),
            },
            FrameV::Branch(tb, eb) => match m.last {
                Val::Bool(b) => resume(m, below.push(FrameV::Block(if b { tb } else { eb })), m.last, m.env),
                _ => halt(m, ActionV::Fail(WoojinErrorKind::TypeMismatch)),
            },
            FrameV::Pause => match m.last {
                Val::Int(n) => (
                    MachineV { env: m.env, frames: below, last: Val::Unit, halted: false },
                    ActionV::Sleep(if n < 0 { 0 } else { n as u64 }),
                ),
                _ => halt(m, ActionV::Fail(WoojinErrorKind::TypeMismatch)),
            },
            FrameV::Prompt => (
                MachineV { env: m.env, frames: below.push(FrameV::Read), last: m.last, halted: false },
                ActionV::Output(text_of(m.last)),
            ),
            FrameV::Read => match line {
                None => (m, ActionV::ReadLine),
                Some(l) => resume(m, below, Val::Str(trimmed(l)), m.env),
            },
        }
    }
}

/// The machine with one more frame on top.
pub open spec fn with_top(m: MachineV, f: FrameV) -> MachineV {
    MachineV { env: m.env, frames: m.frames.push(f), last: m.last, halted: m.halted }
}

pub open spec fn line_view(line: &Option<String>) -> Option<Seq<char>> {
    match line {
        Some(l) => Some(l@),
        None => None,
    }
}

/// A program being run: the variable environment, the pending work, the
/// value the last statement produced, and whether it has stopped.
pub struct Program {
    env: Env,
    frames: Vec<Frame>,
    last: WoojinValue,
    halted: bool,
}

impl View for Program {
    type V = MachineV;

    closed spec fn view(&self) -> MachineV {
        MachineV { env: self.env@, frames: frames_view(self.frames@), last: self.last@, halted: self.halted }
    }
}

proof fn lemma_frames_push(v: Seq<Frame>, f: Frame)
    ensures
        frames_view(v.push(f)) == frames_view(v).push(frame_of(&f)),
{
    assert(frames_view(v.push(f)) =~= frames_view(v).push(frame_of(&f)));
}

impl Program {
    /// The environment is well formed.
    pub closed spec fn wf(&self) -> bool {
        self.env.wf()
    }

    /// A program about to run `statements`, in order, with no variable declared.
    pub fn new(statements: Vec<Statements>) -> (r: Program)
        ensures
            r.wf(),
            r@ == (MachineV {
                env: Map::empty(),
                frames: seq![FrameV::Block(stmts_of(statements@))],
                last: Val::Unit,
                halted: false,
            }),
    {
        let mut frames: Vec<Frame> = Vec::new();
        frames.push(Frame::Block(statements));
        let r = Program { env: Env::new(), frames, last: WoojinValue::Unit, halted: false };
        assert(frames_view(r.frames@) =~= seq![FrameV::Block(stmts_of(statements@))]);
        r
    }

    fn stop(&mut self, a: Action) -> (r: Action)
        requires
            old(self).wf(),
        ensures
            final(self).wf(),
            final(self)@ == halt(old(self)@, action_view(&a)).0,
            r == a,
    {
        self.halted = true;
        self.frames = Vec::new();
        assert(frames_view(self.frames@) =~= Seq::<FrameV>::empty());
        a
    }

    fn push(&mut self, f: Frame)
        requires
            old(self).wf(),
        ensures
            final(self).wf(),
            final(self)@ == with_top(old(self)@, frame_of(&f)),
    {
        let ghost before = self.frames@;
        self.frames.push(f);
        proof { lemma_frames_push(before, f); }
    }

    fn run_stmt(&mut self, s: Statements) -> (r: Action)
        requires
            old(self).wf(),
            !old(self).halted,
        ensures
            final(self).wf(),
            (final(self)@, action_view(&r)) == start(old(self)@, old(self)@.frames, stmt_of(&s)),
    {
        match s {
            Statements::Comment(_) => {
                self.last = WoojinValue::Unit;
                Action::Continue
            },
            Statements::Calc(c) => match check_calc(&c, &self.env) {
                Ok(v) => {
                    self.last = v;
                    Action::Continue
                },
                Err(e) => self.stop(Action::Fail(e)),
            },
            Statements::Value { value } => match value.value(&self.env) {
                Ok(v) => {
                    self.last = v;
                    Action::Continue
                },
                Err(e) => self.stop(Action::Fail(e)),
            },
            Statements::Print { values } => {
                proof {
                    match stmt_of(&s) {
                        Stmt::Print(xs) => assert(xs =~= stmts_of(values@)),
                        _ => {},
                    }
                }
                self.begin_args(values, false)
            },
            Statements::Println { values } => {
                proof {
                    match stmt_of(&s) {
                        Stmt::Println(xs) => assert(xs =~= stmts_of(values@)),
                        _ => {},
                    }
                }
                self.begin_args(values, true)
            },
            Statements::Assignment { name, value } => {
                self.push(Frame::Assign { name });
                self.push(Frame::Run(*value));
                Action::Continue
            },
            Statements::Input { question } => {
                self.push(Frame::Prompt);
                self.push(Frame::Run(*question));
                Action::Continue
            },
            Statements::Let { name, kind, stmt, option } => {
                self.push(Frame::Declare { name, kind, is_mut: option.is_mut });
                self.push(Frame::Run(*stmt));
                Action::Continue
            },
            Statements::If { condition, stmt, else_stmt } => {
                self.push(Frame::Branch { then_body: stmt, else_body: else_stmt });
                self.push(Frame::Run(*condition));
                proof {
                    match stmt_of(&s) {
                        Stmt::If(_, a, b) => {
                            assert(a =~= stmts_of(stmt@));
                            assert(b =~= stmts_of(else_stmt@));
                        },
                        _ => {},
                    }
                }
                Action::Continue
            },
            Statements::Roar { value } => match value.to_print(&self.env) {
                Ok(t) => self.stop(Action::Abort(WoojinError::with_details(t, WoojinErrorKind::Roar))),
                Err(e) => self.stop(Action::Fail(e)),
            },
            Statements::Yee { code } => self.stop(Action::Exit(code)),
            Statements::Sleep { value } => {
                self.push(Frame::Pause);
                self.push(Frame::Run(*value));
                Action::Continue
            },
        }
    }

    fn begin_args(&mut self, values: Vec<Statements>, newline: bool) -> (r: Action)
        requires
            old(self).wf(),
            !old(self).halted,
        ensures
            final(self).wf(),
            (final(self)@, action_view(&r)) == (if stmts_of(values@).len() == 0 {
                resume(old(self)@, old(self)@.frames, Val::Unit, old(self)@.env)
            } else {
                resume(
                    old(self)@,
                    old(self)@.frames.push(FrameV::Args(stmts_of(values@).drop_first(), newline))
                        .push(FrameV::Run(stmts_of(values@)[0])),
                    old(self)@.last,
                    old(self)@.env,
                )
            }),
    {
        let mut values = values;
        if values.len() == 0 {
            self.last = WoojinValue::Unit;
            return Action::Continue;
        }
        let ghost all = values@;
        let first = values.remove(0);
        assert(stmts_of(values@) =~= stmts_of(all).drop_first());
        self.push(Frame::Args { rest: values, newline });
        self.push(Frame::Run(first));
        Action::Continue
    }

    /// Takes one step. `line` is the line read from the input when the last
    /// action asked for one.
    pub fn step(&mut self, line: Option<String>) -> (r: Action)
        requires
            old(self).wf(),
        ensures
            final(self).wf(),
            (final(self)@, action_view(&r)) == next(old(self)@, line_view(&line)),
    {
        if self.halted {
            return Action::Finished;
        }
        let ghost m = self@;
        let ghost all = self.frames@;
        let f = match self.frames.pop() {
            None => return self.stop(Action::Finished),
            Some(f) => f,
        };
        proof {
            assert(frames_view(self.frames@) =~= m.frames.drop_last());
            assert(frame_of(&f) == m.frames.last());
        }
        match f {
            Frame::Run(s) => self.run_stmt(s),
            Frame::Block(rest) => {
                let mut rest = rest;
                if rest.len() == 0 {
                    self.last = WoojinValue::Unit;
                    return Action::Continue;
                }
                let ghost full = rest@;
                let first = rest.remove(0);
                assert(stmts_of(rest@) =~= stmts_of(full).drop_first());
                self.push(Frame::Block(rest));
                self.push(Frame::Run(first));
                Action::Continue
            },
            Frame::Args { rest, newline } => {
                let mut rest = rest;
                let mut out = self.last.text();
                if rest.len() > 0 {
                    out.append(" ");
                } else if newline {
                    out.append("\n");
                }
                proof {
                    reveal_strlit(" ");
                    reveal_strlit("\n");
                    assert(out@ =~= text_of(m.last) + separator(rest@.len() > 0, newline));
                }
                if rest.len() == 0 {
                    self.last = WoojinValue::Unit;
                    return Action::Output(out);
                }
                let ghost full = rest@;
                let first = rest.remove(0);
                assert(stmts_of(rest@) =~= stmts_of(full).drop_first());
                self.push(Frame::Args { rest, newline });
                self.push(Frame::Run(first));
                Action::Output(out)
            },
            Frame::Declare { name, kind, is_mut } => {
                if !self.last.type_eq_concrete(kind) {
                    return self.stop(Action::Fail(WoojinError::new(
                        "The type of the value and the type of the variable are different",
                        WoojinErrorKind::TypeMismatch,
                    )));
                }
                match self.env.dec_var(name.as_str(), &self.last, is_mut) {
                    Ok(()) => {
                        self.last = WoojinValue::Unit;
                        Action::Continue
                    },
                    Err(e) => self.stop(Action::Fail(e)),
                }
            },
            Frame::Assign { name } => match self.env.change_var(name.as_str(), &self.last) {
                Ok(()) => {
                    self.last = WoojinValue::Unit;
                    Action::Continue
                },
                Err(e) => self.stop(Action::Fail(e)),
            },
            Frame::Branch { then_body, else_body } => match self.last {
                WoojinValue::Bool(b) => {
                    self.push(Frame::Block(if b { then_body } else { else_body }));
                    Action::Continue
                },
                _ => self.stop(Action::Fail(WoojinError::new(
                    "The condition of the if statement must be a boolean",
                    WoojinErrorKind::TypeMismatch,
                ))),
            },
            Frame::Pause => match self.last {
                WoojinValue::Int(n) => {
                    self.last = WoojinValue::Unit;
                    Action::Sleep(if n < 0 { 0 } else { n as u64 })
                },
                _ => self.stop(Action::Fail(WoojinError::new(
                    "The param of the sleep function must be an integer",
                    WoojinErrorKind::TypeMismatch,
                ))),
            },
            Frame::Prompt => {
                let out = self.last.text();
                self.push(Frame::Read);
                Action::Output(out)
            },
            Frame::Read => match line {
                None => {
                    self.push(Frame::Read);
                    proof { assert(frames_view(self.frames@) =~= m.frames); }
                    Action::ReadLine
                },
                Some(l) => {
                    let cs = trim(&chars_of(l.as_str()));
                    self.last = WoojinValue::String(string_of(&cs, 0, cs.len()));
                    assert(self.last@ == Val::Str(trimmed(l@))) by {
                        assert(cs@.subrange(0, cs@.len() as int) =~= cs@);
                    }
                    Action::Continue
                },
            },
        }
    }
}

} // verus!
