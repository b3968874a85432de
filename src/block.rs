//! The block structurer: turns the whole program, one `(indent, line)` pair
//! per source line, into a list of statements, collecting the bodies of each
//! `if` (and of its `else:`) from the lines indented deeper than it.
use vstd::prelude::*;
use crate::ast::{stmt_of, stmts_of, Statements, Stmt};
use crate::error::{WoojinError, WoojinErrorKind};
use crate::parser::{line_stmt, tokenize_line};
use crate::text::{at, chars_of, has_at, skip_space, skip_ws};

verus! {

/// The program text in mathematical form.
pub open spec fn lines_view(lines: Seq<(usize, String)>) -> Seq<(usize, Seq<char>)> {
    lines.map_values(|p: (usize, String)| (p.0, p.1@))
}

/// An `else:` marker: `else`, optional whitespace, then `:`.
pub open spec fn is_else_line(l: Seq<char>) -> bool {
    has_at(l, 0, "else"@) && skip_space(l, 4) < l.len() && l[skip_space(l, 4)] == ':'
}

/// The bodies of an `if` whose own indent is `indent`, read from line `i`
/// on, with `acc` collected so far: the `then` body, the `else` body, and the
/// first line not consumed. A body runs while lines are indented deeper; the
/// `then` body may be followed by an `else:` at exactly the `if`'s indent.
pub open spec fn if_body(l: Seq<(usize, Seq<char>)>, i: int, indent: int, acc: Seq<Stmt>)
    -> Result<(Seq<Stmt>, Seq<Stmt>, int), WoojinErrorKind>
    decreases l.len() - i,
{
    if i < 0 || i >= l.len() {
        Err(WoojinErrorKind::IfParsingFailed)
    } else if l[i].0 <= indent {
        if l[i].0 == indent && is_else_line(l[i].1) {
            match else_body(l, i + 1, indent, Seq::empty()) {
                Ok((eb, next)) => Ok((acc, eb, next)),
                Err(k) => Err(k),
            }
        } else {
            Ok((acc, Seq::empty(), i))
        }
    } else {
        match line_stmt(l[i].1) {
            Err(k) => Err(k),
            Ok(Stmt::If(c, _, _)) => match if_body(l, i + 1, l[i].0 as int, Seq::empty()) {
                Ok((tb, eb, next)) => if i < next <= l.len() {
                    if_body(l, next, indent, acc.push(Stmt::If(c, tb, eb)))
                } else {
                    Err(WoojinErrorKind::IfParsingFailed)
                },
                Err(k) => Err(k),
            },
            Ok(x) => if_body(l, i + 1, indent, acc.push(x)),
        }
    }
}

/// The `else` body of an `if` whose own indent is `indent`, read from line
/// `i` on: the body and the first line not consumed.
pub open spec fn else_body(l: Seq<(usize, Seq<char>)>, i: int, indent: int, acc: Seq<Stmt>)
    -> Result<(Seq<Stmt>, int), WoojinErrorKind>
    decreases l.len() - i,
{
    if i < 0 || i >= l.len() {
        Err(WoojinErrorKind::ElseParsingFailed)
    } else if l[i].0 <= indent {
        Ok((acc, i))
    } else {
        match line_stmt(l[i].1) {
            Err(k) => Err(k),
            Ok(Stmt::If(c, _, _)) => match if_body(l, i + 1, l[i].0 as int, Seq::empty()) {
                Ok((tb, eb, next)) => if i < next <= l.len() {
                    else_body(l, next, indent, acc.push(Stmt::If(c, tb, eb)))
                } else {
                    Err(WoojinErrorKind::ElseParsingFailed)
                },
                Err(k) => Err(k),
            },
            Ok(x) => else_body(l, i + 1, indent, acc.push(x)),
        }
    }
}

/// The statements of the whole program, read from line `i` on.
pub open spec fn program_from(l: Seq<(usize, Seq<char>)>, i: int, acc: Seq<Stmt>) -> Result<Seq<Stmt>, WoojinErrorKind>
    decreases l.len() - i,
{
    if i < 0 || i >= l.len() {
        Ok(acc)
    } else {
        match line_stmt(l[i].1) {
            Err(k) => Err(k),
            Ok(Stmt::If(c, _, _)) => match if_body(l, i + 1, l[i].0 as int, Seq::empty()) {
                Ok((tb, eb, next)) => if i < next <= l.len() {
                    program_from(l, next, acc.push(Stmt::If(c, tb, eb)))
                } else {
                    Err(WoojinErrorKind::IfParsingFailed)
                },
                Err(k) => Err(k),
            },
            Ok(x) => program_from(l, i + 1, acc.push(x)),
        }
    }
}

/// The statements of the whole program.
pub open spec fn program_of(l: Seq<(usize, Seq<char>)>) -> Result<Seq<Stmt>, WoojinErrorKind> {
    program_from(l, 0, Seq::empty())
}

/// Whether a line is an `else:` marker.
pub fn is_else(line: &str) -> (r: bool)
    ensures
        r == is_else_line(line@),
{
    proof { reveal_strlit("else"); }
    let l = chars_of(line);
    if !at(&l, 0, "else") {
        return false;
    }
    let j = skip_ws(&l, 4);
    j < l.len() && l[j] == ':'
}

proof fn lemma_stmts_push(v: Seq<Statements>, x: Statements)
    ensures
        stmts_of(v.push(x)) == stmts_of(v).push(stmt_of(&x)),
{
    assert(stmts_of(v.push(x)) =~= stmts_of(v).push(stmt_of(&x)));
}

/// An `if` statement given its two bodies.
fn with_bodies(x: Statements, tb: Vec<Statements>, eb: Vec<Statements>) -> (r: Statements)
    requires
        x@ is If,
    ensures
        r@ == (match x@ {
            Stmt::If(c, _, _) => Stmt::If(c, stmts_of(tb@), stmts_of(eb@)),
            _ => x@,
        }),
{
    match x {
        Statements::If { condition, stmt: _, else_stmt: _ } => {
            let r = Statements::If { condition, stmt: tb, else_stmt: eb };
            proof {
                match stmt_of(&r) {
                    Stmt::If(_, a, b) => {
                        assert(a =~= stmts_of(tb@));
                        assert(b =~= stmts_of(eb@));
                    },
                    _ => {},
                }
            }
            r
        },
        _ => x,
    }
}

/// Collects the bodies of an `if` whose own indent is `indent`, from line `i`
/// on: the `then` body, the `else` body and the first line not consumed.
pub fn parse_if(lines: &Vec<(usize, String)>, i: usize, indent: usize)
    -> (r: Result<(Vec<Statements>, Vec<Statements>, usize), WoojinError>)
    requires
        i <= lines@.len(),
    ensures
        match r {
            Ok((tb, eb, next)) => if_body(lines_view(lines@), i as int, indent as int, Seq::empty())
                == Ok::<(Seq<Stmt>, Seq<Stmt>, int), WoojinErrorKind>((stmts_of(tb@), stmts_of(eb@), next as int))
                && i <= next <= lines@.len(),
            Err(e) => if_body(lines_view(lines@), i as int, indent as int, Seq::empty())
                == Err::<(Seq<Stmt>, Seq<Stmt>, int), WoojinErrorKind>(e.kind),
        },
    decreases lines@.len() - i,
{
    let ghost l = lines_view(lines@);
    let ghost target = if_body(l, i as int, indent as int, Seq::empty());
    let start = i;
    let mut acc: Vec<Statements> = Vec::new();
    let mut p = i;
    assert(stmts_of(acc@) =~= Seq::<Stmt>::empty());
    while p < lines.len()
        invariant
            start == i,
            start <= p <= lines@.len(),
            l == lines_view(lines@),
            if_body(l, p as int, indent as int, stmts_of(acc@)) == target,
            target == if_body(l, start as int, indent as int, Seq::empty()),
        decreases lines@.len() - p,
    {
        let li = lines[p].0;
        let line = lines[p].1.as_str();
        assert(l[p as int] == (li, line@));
        if li <= indent {
            if li == indent && is_else(line) {
                let (eb, next) = parse_else(lines, p + 1, indent)?;
                return Ok((acc, eb, next));
            }
            let eb: Vec<Statements> = Vec::new();
            assert(stmts_of(eb@) =~= Seq::<Stmt>::empty());
            return Ok((acc, eb, p));
        }
        let x = tokenize_line(line)?;
        if let Statements::If { .. } = x {
            let (tb, eb, next) = parse_if(lines, p + 1, li)?;
            let y = with_bodies(x, tb, eb);
            let ghost before = acc@;
            acc.push(y);
            proof { lemma_stmts_push(before, y); }
            p = next;
        } else {
            let ghost before = acc@;
            acc.push(x);
            proof { lemma_stmts_push(before, x); }
            p = p + 1;
        }
    }
    Err(WoojinError::new("Parsing If statement failed", WoojinErrorKind::IfParsingFailed))
}

/// Collects the `else` body of an `if` whose own indent is `indent`, from
/// line `i` on: the body and the first line not consumed.
pub fn parse_else(lines: &Vec<(usize, String)>, i: usize, indent: usize)
    -> (r: Result<(Vec<Statements>, usize), WoojinError>)
    requires
        i <= lines@.len(),
    ensures
        match r {
            Ok((eb, next)) => else_body(lines_view(lines@), i as int, indent as int, Seq::empty())
                == Ok::<(Seq<Stmt>, int), WoojinErrorKind>((stmts_of(eb@), next as int))
                && i <= next <= lines@.len(),
            Err(e) => else_body(lines_view(lines@), i as int, indent as int, Seq::empty())
                == Err::<(Seq<Stmt>, int), WoojinErrorKind>(e.kind),
        },
    decreases lines@.len() - i,
{
    let ghost l = lines_view(lines@);
    let ghost target = else_body(l, i as int, indent as int, Seq::empty());
    let start = i;
    let mut acc: Vec<Statements> = Vec::new();
    let mut p = i;
    assert(stmts_of(acc@) =~= Seq::<Stmt>::empty());
    while p < lines.len()
        invariant
            start == i,
            start <= p <= lines@.len(),
            l == lines_view(lines@),
            else_body(l, p as int, indent as int, stmts_of(acc@)) == target,
            target == else_body(l, start as int, indent as int, Seq::empty()),
        decreases lines@.len() - p,
    {
        let li = lines[p].0;
        let line = lines[p].1.as_str();
        assert(l[p as int] == (li, line@));
        if li <= indent {
            return Ok((acc, p));
        }
        let x = tokenize_line(line)?;
        if let Statements::If { .. } = x {
            let (tb, eb, next) = parse_if(lines, p + 1, li)?;
            let y = with_bodies(x, tb, eb);
            let ghost before = acc@;
            acc.push(y);
            proof { lemma_stmts_push(before, y); }
            p = next;
        } else {
            let ghost before = acc@;
            acc.push(x);
            proof { lemma_stmts_push(before, x); }
            p = p + 1;
        }
    }
    Err(WoojinError::new("Parsing Else statement failed", WoojinErrorKind::ElseParsingFailed))
}

/// Reads the whole program: one statement per top-level line, each `if`
/// holding the bodies collected by indentation.
pub fn tokenizer(lines: &Vec<(usize, String)>) -> (r: Result<Vec<Statements>, WoojinError>)
    ensures
        match r {
            Ok(v) => program_of(lines_view(lines@)) == Ok::<Seq<Stmt>, WoojinErrorKind>(stmts_of(v@)),
            Err(e) => program_of(lines_view(lines@)) == Err::<Seq<Stmt>, WoojinErrorKind>(e.kind),
        },
{
    let ghost l = lines_view(lines@);
    let mut acc: Vec<Statements> = Vec::new();
    let mut i: usize = 0;
    assert(stmts_of(acc@) =~= Seq::<Stmt>::empty());
    while i < lines.len()
        invariant
            i <= lines@.len(),
            l == lines_view(lines@),
            program_from(l, i as int, stmts_of(acc@)) == program_of(l),
        decreases lines@.len() - i,
    {
        let li = lines[i].0;
        let line = lines[i].1.as_str();
        assert(l[i as int] == (li, line@));
        let x = tokenize_line(line)?;
        if let Statements::If { .. } = x {
            let (tb, eb, next) = parse_if(lines, i + 1, li)?;
            let y = with_bodies(x, tb, eb);
            let ghost before = acc@;
            acc.push(y);
            proof { lemma_stmts_push(before, y); }
            i = next;
        } else {
            let ghost before = acc@;
            acc.push(x);
            proof { lemma_stmts_push(before, x); }
            i = i + 1;
        }
    }
    Ok(acc)
}

} // verus!
