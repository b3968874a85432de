//! The statement tokenizer: one source line in, one statement out, chosen by
//! a fixed-priority dispatch on the line's leading keyword or sigil.
use vstd::prelude::*;
use vstd::string::StringExecFns;
use crate::ast::{stmt_of, stmts_of, Statements, Stmt};
use crate::calc::{check_calc, eval_tree, expr_at, parse_calc, Calc, Tree};
use crate::error::{WoojinError, WoojinErrorKind};
use crate::text::{
    at, chars_of, digit, has_at, is_digit, is_word, skip_space, skip_ws, slice_of, string_of, trim,
    trimmed, word,
};
use crate::types::parse::{
    digits_end, digits_end_exec, digits_value, lemma_digits_end_bounds, lemma_digits_value_grows,
    word_end, word_end_exec,
};
use crate::types::{kind_named, Val, WoojinValue, WoojinValueKind};
use crate::variable::{Env, VariableOption};

verus! {

/// The text of an `if` condition: what stands between `if ` and the first `:`.
pub open spec fn if_condition(t: Seq<char>) -> Option<Seq<char>> {
    let c = colon_from(t, 3);
    if has_at(t, 0, "if "@) && c < t.len() { Some(t.subrange(3, c)) } else { None }
}

/// The first `:` at or after `i`, or the length when there is none.
pub open spec fn colon_from(t: Seq<char>, i: int) -> int
    decreases t.len() - i,
{
    if 0 <= i < t.len() && t[i] != ':' { colon_from(t, i + 1) } else { i }
}

/// The exit code of `yee [-]digits`: at most ten digits are read, and they
/// must write a number that fits `i32`.
pub open spec fn yee_code(t: Seq<char>) -> Option<i32> {
    let neg = 4 < t.len() && t[4] == '-';
    let d0: int = if neg { 5 } else { 4 };
    let k = if digits_end(t, d0) < d0 + 10 { digits_end(t, d0) } else { d0 + 10 };
    let m = digits_value(t, d0, k);
    if !has_at(t, 0, "yee "@) || k == d0 || m > i32::MAX {
        None
    } else {
        Some((if neg { -m } else { m }) as i32)
    }
}

/// The first `;` or newline at or after `i`, or the length.
pub open spec fn value_end(t: Seq<char>, i: int) -> int
    decreases t.len() - i,
{
    if 0 <= i < t.len() && t[i] != ';' && t[i] != '\n' { value_end(t, i + 1) } else { i }
}

/// `let [mut] name[:] [type] = value`: the name, the type text (possibly
/// empty), the value text and whether `mut` was given.
pub open spec fn let_parts(t: Seq<char>) -> Option<(Seq<char>, Seq<char>, Seq<char>, bool)> {
    let a = skip_space(t, 3);
    let mutable = has_at(t, a, "mut"@) && skip_space(t, a + 3) > a + 3;
    let b = if mutable { skip_space(t, a + 3) } else { a };
    let ne = word_end(t, b);
    let c0 = skip_space(t, ne);
    let c1 = if c0 < t.len() && t[c0] == ':' { skip_space(t, c0 + 1) } else { c0 };
    let te = word_end(t, c1);
    let d = skip_space(t, te);
    let v0 = skip_space(t, d + 1);
    let ve = value_end(t, v0);
    if !has_at(t, 0, "let"@) || a == 3 || ne == b || !(d < t.len() && t[d] == '=') || ve == v0 {
        None
    } else {
        Some((t.subrange(b, ne), t.subrange(c1, te), t.subrange(v0, ve), mutable))
    }
}

/// `$name = value`, the name starting with a letter or `_`: the name and the
/// text after the first `=`.
pub open spec fn assign_parts(t: Seq<char>) -> Option<(Seq<char>, Seq<char>)> {
    let e = word_end(t, 1);
    let j = skip_space(t, e);
    if t.len() >= 2 && t[0] == '$' && is_word(t[1]) && !is_digit(t[1]) && j < t.len() && t[j] == '=' {
        Some((t.subrange(1, e), t.subrange(j + 1, t.len() as int)))
    } else {
        None
    }
}

/// Splits `s` at the commas that stand outside double quotes, from `i` on;
/// each piece is trimmed.
pub open spec fn split_from(s: Seq<char>, i: int, start: int, quoted: bool, acc: Seq<Seq<char>>) -> Seq<Seq<char>>
    decreases s.len() - i,
{
    if i < 0 || i >= s.len() {
        acc.push(trimmed(s.subrange(start, s.len() as int)))
    } else if s[i] == '"' {
        split_from(s, i + 1, start, !quoted, acc)
    } else if s[i] == ',' && !quoted {
        split_from(s, i + 1, i + 1, quoted, acc.push(trimmed(s.subrange(start, i))))
    } else {
        split_from(s, i + 1, start, quoted, acc)
    }
}

pub open spec fn split_pieces(s: Seq<char>) -> Seq<Seq<char>> {
    split_from(s, 0, 0, false, Seq::empty())
}

/// The statements of a list of results, or the first error among them.
pub open spec fn collect(rs: Seq<Result<Stmt, WoojinErrorKind>>) -> Result<Seq<Stmt>, WoojinErrorKind>
    decreases rs.len(),
{
    if rs.len() == 0 {
        Ok(Seq::empty())
    } else {
        match collect(rs.drop_last()) {
            Err(k) => Err(k),
            Ok(xs) => match rs.last() {
                Ok(x) => Ok(xs.push(x)),
                Err(k) => Err(k),
            },
        }
    }
}

/// The value that `roar` carries: a literal as written, an expression
/// evaluated on the spot (no variable exists yet while a program is read).
pub open spec fn roar_value(r: Result<Stmt, WoojinErrorKind>) -> Result<Stmt, WoojinErrorKind> {
    match r {
        Ok(Stmt::Value(v)) => Ok(Stmt::Roar(v)),
        Ok(Stmt::Calc(t)) => match eval_tree(t, Map::empty()) {
            Ok(v) => Ok(Stmt::Roar(v)),
            Err(k) => Err(k),
        },
        Ok(_) => Err(WoojinErrorKind::ParseError),
        Err(k) => Err(k),
    }
}

/// Each piece of an argument list read as a line of its own (every piece is
/// shorter than `bound`, the line it came from).
pub open spec fn piece_stmts(pieces: Seq<Seq<char>>, bound: nat) -> Seq<Result<Stmt, WoojinErrorKind>>
    decreases bound, 0int,
{
    Seq::new(pieces.len(), |i: int|
        if 0 <= i < pieces.len() && pieces[i].len() < bound {
            line_stmt(pieces[i])
        } else {
            Err(WoojinErrorKind::ParseError)
        })
}

/// `if <condition>:`, its bodies still empty.
pub open spec fn if_stmt(t: Seq<char>, bound: nat) -> Result<Stmt, WoojinErrorKind>
    decreases bound, 1int,
{
    match if_condition(t) {
        Some(c) => if c.len() < bound {
            match line_stmt(c) {
                Ok(x) => Ok(Stmt::If(Box::new(x), Seq::empty(), Seq::empty())),
                Err(k) => Err(k),
            }
        } else {
            Err(WoojinErrorKind::ParseError)
        },
        None => Err(WoojinErrorKind::ParseError),
    }
}

/// `print <args>` or `println <args>`: each comma-separated argument read as
/// a line of its own.
pub open spec fn list_stmt(t: Seq<char>, newline: bool, bound: nat) -> Result<Stmt, WoojinErrorKind>
    decreases bound, 1int,
{
    let skip: int = if newline { 8 } else { 6 };
    if !has_at(t, 0, if newline { "println "@ } else { "print "@ }) {
        Err(WoojinErrorKind::Unknown)
    } else {
        match collect(piece_stmts(split_pieces(t.subrange(skip, t.len() as int)), bound)) {
            Ok(xs) => if newline { Ok(Stmt::Println(xs)) } else { Ok(Stmt::Print(xs)) },
            Err(k) => Err(k),
        }
    }
}

/// `roar <expr>`.
pub open spec fn roar_stmt(t: Seq<char>, bound: nat) -> Result<Stmt, WoojinErrorKind>
    decreases bound, 1int,
{
    if !has_at(t, 0, "roar "@) {
        Err(WoojinErrorKind::Unknown)
    } else if 5 <= t.len() && t.len() - 5 < bound {
        roar_value(line_stmt(t.subrange(5, t.len() as int)))
    } else {
        Err(WoojinErrorKind::ParseError)
    }
}

/// `input <prompt>` or `sleep <duration>`.
pub open spec fn wrap_stmt(t: Seq<char>, input: bool, bound: nat) -> Result<Stmt, WoojinErrorKind>
    decreases bound, 1int,
{
    if !has_at(t, 0, if input { "input "@ } else { "sleep "@ }) {
        Err(WoojinErrorKind::Unknown)
    } else if 6 <= t.len() && t.len() - 6 < bound {
        match line_stmt(t.subrange(6, t.len() as int)) {
            Ok(x) => if input { Ok(Stmt::Input(Box::new(x))) } else { Ok(Stmt::Sleep(Box::new(x))) },
            Err(k) => Err(k),
        }
    } else {
        Err(WoojinErrorKind::ParseError)
    }
}

/// `let [mut] name[: type] = value`; no annotation means `Any`.
pub open spec fn let_stmt(t: Seq<char>, bound: nat) -> Result<Stmt, WoojinErrorKind>
    decreases bound, 1int,
{
    match let_parts(t) {
        None => Err(WoojinErrorKind::ParseError),
        Some((name, ty, v, m)) => if v.len() < bound {
            match line_stmt(v) {
                Err(k) => Err(k),
                Ok(x) => if ty.len() == 0 {
                    Ok(Stmt::Let(name, WoojinValueKind::Any, Box::new(x), m))
                } else {
                    match kind_named(ty) {
                        Some(k) => Ok(Stmt::Let(name, k, Box::new(x), m)),
                        None => Err(WoojinErrorKind::InvalidType),
                    }
                },
            }
        } else {
            Err(WoojinErrorKind::ParseError)
        },
    }
}

/// `$name = value`.
pub open spec fn assign_stmt(t: Seq<char>, bound: nat) -> Result<Stmt, WoojinErrorKind>
    decreases bound, 1int,
{
    match assign_parts(t) {
        Some((name, v)) => if v.len() < bound {
            match line_stmt(v) {
                Ok(x) => Ok(Stmt::Assignment(name, Box::new(x))),
                Err(k) => Err(k),
            }
        } else {
            Err(WoojinErrorKind::ParseError)
        },
        None => Err(WoojinErrorKind::ParseError),
    }
}

/// Anything else: an expression; a lone literal is a literal statement.
pub open spec fn expr_stmt(t: Seq<char>) -> Result<Stmt, WoojinErrorKind> {
    match expr_at(t, 0) {
        Some((Tree::Leaf(v), _)) => Ok(Stmt::Value(v)),
        Some((tree, _)) => Ok(Stmt::Calc(tree)),
        None => Err(WoojinErrorKind::UnknownToken),
    }
}

/// The explanation of an unknown-token error: it quotes the offending text.
pub open spec fn unknown_token(t: Seq<char>) -> Seq<char> {
    "Unknown token \""@ + t + "\""@
}

/// A trimmed line that no keyword or sigil claims, so that it is read as an
/// expression.
pub open spec fn falls_to_expr(t: Seq<char>) -> bool {
    &&& t.len() > 0
    &&& !has_at(t, 0, "//"@)
    &&& !has_at(t, 0, "if"@)
    &&& !has_at(t, 0, "else"@)
    &&& !has_at(t, 0, "yee"@)
    &&& !has_at(t, 0, "println"@)
    &&& !has_at(t, 0, "print"@)
    &&& !has_at(t, 0, "roar"@)
    &&& !has_at(t, 0, "input"@)
    &&& !has_at(t, 0, "sleep"@)
    &&& !has_at(t, 0, "let"@)
    &&& assign_parts(t) is None
}

/// The statement one source line stands for. The line is trimmed, then the
/// first of these that applies decides: empty, `//`, `if`, `else`, `yee`,
/// `println`/`print`, `roar`, `input`/`sleep`, `let`, `$name =`, expression.
pub open spec fn line_stmt(s: Seq<char>) -> Result<Stmt, WoojinErrorKind>
    decreases s.len(), 2int,
{
    let t = trimmed(s);
    if t.len() > s.len() {
        Err(WoojinErrorKind::Unknown)
    } else if t.len() == 0 {
        Ok(Stmt::Value(Val::Str(Seq::empty())))
    } else if has_at(t, 0, "//"@) {
        Ok(Stmt::Comment(trimmed(t.subrange(2, t.len() as int))))
    } else if has_at(t, 0, "if"@) {
        if_stmt(t, s.len())
    } else if has_at(t, 0, "else"@) {
        Ok(Stmt::Value(Val::Unit))
    } else if has_at(t, 0, "yee"@) {
        match yee_code(t) {
            Some(n) => Ok(Stmt::Yee(n)),
            None => Err(WoojinErrorKind::ParseError),
        }
    } else if has_at(t, 0, "println"@) || has_at(t, 0, "print"@) {
        list_stmt(t, has_at(t, 0, "println"@), s.len())
    } else if has_at(t, 0, "roar"@) {
        roar_stmt(t, s.len())
    } else if has_at(t, 0, "input"@) || has_at(t, 0, "sleep"@) {
        wrap_stmt(t, has_at(t, 0, "input"@), s.len())
    } else if has_at(t, 0, "let"@) {
        let_stmt(t, s.len())
    } else if assign_parts(t) is Some {
        assign_stmt(t, s.len())
    } else {
        expr_stmt(t)
    }
}

/// A tokenizer result in mathematical form.
pub open spec fn stmt_result(r: Result<Statements, WoojinError>) -> Result<Stmt, WoojinErrorKind> {
    match r {
        Ok(x) => Ok(stmt_of(&x)),
        Err(e) => Err(e.kind),
    }
}

proof fn lemma_collect_ok(rs: Seq<Result<Stmt, WoojinErrorKind>>, xs: Seq<Stmt>)
    requires
        rs.len() == xs.len(),
        forall|i: int| 0 <= i < rs.len() ==> rs[i] == Ok::<Stmt, WoojinErrorKind>(xs[i]),
    ensures
        collect(rs) == Ok::<Seq<Stmt>, WoojinErrorKind>(xs),
    decreases rs.len(),
{
    if rs.len() > 0 {
        assert forall|i: int| 0 <= i < rs.drop_last().len() implies
            rs.drop_last()[i] == Ok::<Stmt, WoojinErrorKind>(xs.drop_last()[i]) by {
            assert(rs[i] == Ok::<Stmt, WoojinErrorKind>(xs[i]));
        }
        lemma_collect_ok(rs.drop_last(), xs.drop_last());
        assert(rs.last() == Ok::<Stmt, WoojinErrorKind>(xs[xs.len() - 1]));
        assert(xs.drop_last().push(xs.last()) =~= xs);
        assert(collect(rs) == Ok::<Seq<Stmt>, WoojinErrorKind>(xs.drop_last().push(xs.last())));
    } else {
        assert(xs =~= Seq::<Stmt>::empty());
    }
}

proof fn lemma_collect_err(rs: Seq<Result<Stmt, WoojinErrorKind>>, i: int)
    requires
        0 <= i < rs.len(),
        forall|j: int| 0 <= j < i ==> rs[j] is Ok,
        rs[i] is Err,
    ensures
        collect(rs) == Err::<Seq<Stmt>, WoojinErrorKind>(rs[i]->Err_0),
    decreases rs.len(),
{
    if i < rs.len() - 1 {
        lemma_collect_err(rs.drop_last(), i);
    } else {
        let t = rs.drop_last();
        let xs = Seq::new(t.len(), |j: int| t[j]->Ok_0);
        lemma_collect_ok(t, xs);
    }
}

proof fn lemma_split_pieces_short(s: Seq<char>, i: int, start: int, quoted: bool, acc: Seq<Seq<char>>)
    requires
        0 <= start <= s.len(),
        0 <= i,
        start <= i || i >= s.len(),
        forall|k: int| 0 <= k < acc.len() ==> (#[trigger] acc[k]).len() <= s.len(),
    ensures
        forall|k: int| 0 <= k < split_from(s, i, start, quoted, acc).len()
            ==> (#[trigger] split_from(s, i, start, quoted, acc)[k]).len() <= s.len(),
    decreases s.len() - i,
{
    if i >= s.len() {
        crate::text::lemma_trimmed_len(s.subrange(start, s.len() as int));
        let a2 = acc.push(trimmed(s.subrange(start, s.len() as int)));
        assert forall|k: int| 0 <= k < a2.len() implies (#[trigger] a2[k]).len() <= s.len() by {
            if k < acc.len() {
                assert(a2[k] == acc[k]);
            }
        }
        assert(split_from(s, i, start, quoted, acc) == a2);
    } else if s[i] == '"' {
        lemma_split_pieces_short(s, i + 1, start, !quoted, acc);
        assert(split_from(s, i, start, quoted, acc) == split_from(s, i + 1, start, !quoted, acc));
    } else if s[i] == ',' && !quoted {
        crate::text::lemma_trimmed_len(s.subrange(start, i));
        let a2 = acc.push(trimmed(s.subrange(start, i)));
        assert forall|k: int| 0 <= k < a2.len() implies (#[trigger] a2[k]).len() <= s.len() by {
            if k < acc.len() {
                assert(a2[k] == acc[k]);
            }
        }
        lemma_split_pieces_short(s, i + 1, i + 1, quoted, a2);
        assert(split_from(s, i, start, quoted, acc) == split_from(s, i + 1, i + 1, quoted, a2));
    } else {
        lemma_split_pieces_short(s, i + 1, start, quoted, acc);
        assert(split_from(s, i, start, quoted, acc) == split_from(s, i + 1, start, quoted, acc));
    }
}

/// Splits an argument list at the commas outside double quotes; each piece
/// is trimmed.
pub fn split_comma(s: &Vec<char>) -> (r: Vec<Vec<char>>)
    ensures
        r@.len() == split_pieces(s@).len(),
        forall|k: int| 0 <= k < r@.len() ==> (#[trigger] r@[k])@ == split_pieces(s@)[k],
        forall|k: int| 0 <= k < r@.len() ==> (#[trigger] r@[k])@.len() <= s@.len(),
{
    let mut out: Vec<Vec<char>> = Vec::new();
    let mut quoted = false;
    let mut start: usize = 0;
    let mut i: usize = 0;
    assert(out@.map_values(|v: Vec<char>| v@) =~= Seq::<Seq<char>>::empty());
    while i < s.len()
        invariant
            start <= i <= s@.len(),
            split_from(s@, i as int, start as int, quoted, out@.map_values(|v: Vec<char>| v@))
                == split_pieces(s@),
        decreases s.len() - i,
    {
        let c = s[i];
        if c == '"' {
            quoted = !quoted;
        } else if c == ',' && !quoted {
            let piece = slice_of(s, start, i);
            let piece = trim(&piece);
            let ghost before = out@.map_values(|v: Vec<char>| v@);
            out.push(piece);
            proof {
                assert(out@.map_values(|v: Vec<char>| v@) =~= before.push(trimmed(s@.subrange(start as int, i as int))));
            }
            start = i + 1;
        }
        i = i + 1;
    }
    let piece = slice_of(s, start, s.len());
    let piece = trim(&piece);
    let ghost before = out@.map_values(|v: Vec<char>| v@);
    out.push(piece);
    proof {
        assert(out@.map_values(|v: Vec<char>| v@) =~= before.push(trimmed(s@.subrange(start as int, s@.len() as int))));
        assert(out@.map_values(|v: Vec<char>| v@) == split_pieces(s@));
        lemma_split_pieces_short(s@, 0, 0, false, Seq::empty());
        assert forall|k: int| 0 <= k < out@.len() implies (#[trigger] out@[k])@ == split_pieces(s@)[k] by {
            assert(out@.map_values(|v: Vec<char>| v@)[k] == out@[k]@);
        }
    }
    out
}

fn colon_exec(t: &Vec<char>, i: usize) -> (r: usize)
    requires
        i <= t@.len(),
    ensures
        r as int == colon_from(t@, i as int),
        i <= r <= t@.len(),
    decreases t@.len() - i,
{
    if i < t.len() && t[i] != ':' { colon_exec(t, i + 1) } else { i }
}

fn value_end_exec(t: &Vec<char>, i: usize) -> (r: usize)
    requires
        i <= t@.len(),
    ensures
        r as int == value_end(t@, i as int),
        i <= r <= t@.len(),
    decreases t@.len() - i,
{
    if i < t.len() && t[i] != ';' && t[i] != '\n' { value_end_exec(t, i + 1) } else { i }
}

/// The condition text of an `if` line.
fn parse_if_condition(t: &Vec<char>) -> (r: Option<Vec<char>>)
    ensures
        match r {
            Some(c) => if_condition(t@) == Some(c@) && c@.len() < t@.len(),
            None => if_condition(t@) is None,
        },
{
    proof { reveal_strlit("if "); }
    if at(t, 0, "if ") {
        let c = colon_exec(t, 3);
        if c < t.len() {
            return Some(slice_of(t, 3, c));
        }
    }
    None
}

/// The exit code of a `yee` line.
pub fn yee(t: &Vec<char>) -> (r: Option<i32>)
    ensures
        r == yee_code(t@),
{
    proof { reveal_strlit("yee "); }
    if !at(t, 0, "yee ") {
        return None;
    }
    let neg = 4 < t.len() && t[4] == '-';
    let d0: usize = if neg { 5 } else { 4 };
    let de = digits_end_exec(t, d0);
    let k: usize = if de < d0 + 10 { de } else { d0 + 10 };
    if k == d0 {
        return None;
    }
    proof { lemma_digits_end_bounds(t@, d0 as int); }
    let mut m: i64 = 0;
    let mut x: usize = d0;
    while x < k
        invariant
            d0 <= x <= k <= de <= t@.len(),
            has_at(t@, 0, "yee "@),
            neg == (4 < t@.len() && t@[4] == '-'),
            d0 == (if neg { 5usize } else { 4usize }),
            de == digits_end(t@, d0 as int),
            k == (if de < d0 + 10 { de } else { (d0 + 10) as usize }),
            forall|y: int| d0 <= y < de ==> is_digit(#[trigger] t@[y]),
            m == digits_value(t@, d0 as int, x as int),
            0 <= m <= 0x8000_0000,
        decreases k - x,
    {
        let d = (t[x] as u32 - '0' as u32) as i64;
        assert(d == t@[x as int] as int - '0' as int);
        m = m * 10 + d;
        assert(m == digits_value(t@, d0 as int, x + 1));
        x = x + 1;
        if m > 0x7fff_ffff {
            proof { lemma_digits_value_grows(t@, d0 as int, x as int, k as int); }
            return None;
        }
    }
    if m > 0x7fff_ffff {
        return None;
    }
    Some(if neg { (-m) as i32 } else { m as i32 })
}

/// The parts of a `let` line.
pub fn parse_variable(t: &Vec<char>) -> (r: Option<(Vec<char>, Vec<char>, Vec<char>, bool)>)
    ensures
        match r {
            Some((n, ty, v, m)) => let_parts(t@) == Some((n@, ty@, v@, m)) && v@.len() < t@.len(),
            None => let_parts(t@) is None,
        },
{
    proof {
        reveal_strlit("let");
        reveal_strlit("mut");
    }
    let n = t.len();
    if !at(t, 0, "let") {
        return None;
    }
    let a = skip_ws(t, 3);
    if a == 3 {
        return None;
    }
    let mutable = at(t, a, "mut") && skip_ws(t, a + 3) > a + 3;
    let b = if mutable { skip_ws(t, a + 3) } else { a };
    let ne = word_end_exec(t, b);
    if ne == b {
        return None;
    }
    let c0 = skip_ws(t, ne);
    let c1 = if c0 < t.len() && t[c0] == ':' { skip_ws(t, c0 + 1) } else { c0 };
    let te = word_end_exec(t, c1);
    let d = skip_ws(t, te);
    if !(d < t.len() && t[d] == '=') {
        return None;
    }
    let v0 = skip_ws(t, d + 1);
    let ve = value_end_exec(t, v0);
    if ve == v0 {
        return None;
    }
    Some((slice_of(t, b, ne), slice_of(t, c1, te), slice_of(t, v0, ve), mutable))
}

/// The parts of a `$name = value` line.
fn parse_assignment(t: &Vec<char>) -> (r: Option<(Vec<char>, Vec<char>)>)
    ensures
        match r {
            Some((n, v)) => assign_parts(t@) == Some((n@, v@)) && v@.len() < t@.len(),
            None => assign_parts(t@) is None,
        },
{
    if t.len() >= 2 && t[0] == '$' && word(t[1]) && !digit(t[1]) {
        let e = word_end_exec(t, 1);
        let j = skip_ws(t, e);
        if j < t.len() && t[j] == '=' {
            return Some((slice_of(t, 1, e), slice_of(t, j + 1, t.len())));
        }
    }
    None
}

fn fail(msg: &str, kind: WoojinErrorKind) -> (r: Result<Statements, WoojinError>)
    ensures
        r is Err && r->Err_0.kind == kind,
{
    Err(WoojinError::new(msg, kind))
}

fn tokenize_if(t: &Vec<char>, bound: usize) -> (r: Result<Statements, WoojinError>)
    requires
        t@.len() <= bound,
    ensures
        stmt_result(r) == if_stmt(t@, bound as nat),
    decreases bound, 1int,
{
    match parse_if_condition(t) {
        Some(c) => {
            let x = tokenize_chars(&c)?;
            let r = Statements::If { condition: Box::new(x), stmt: Vec::new(), else_stmt: Vec::new() };
            proof {
                match stmt_of(&r) {
                    Stmt::If(_, a, b) => {
                        assert(a =~= Seq::<Stmt>::empty());
                        assert(b =~= Seq::<Stmt>::empty());
                    },
                    _ => {},
                }
            }
            Ok(r)
        },
        None => fail("Invalid if statement", WoojinErrorKind::ParseError),
    }
}

fn tokenize_list(t: &Vec<char>, newline: bool, bound: usize) -> (r: Result<Statements, WoojinError>)
    requires
        t@.len() <= bound,
    ensures
        stmt_result(r) == list_stmt(t@, newline, bound as nat),
    decreases bound, 1int,
{
    proof {
        reveal_strlit("println ");
        reveal_strlit("print ");
    }
    let tagged = if newline { at(t, 0, "println ") } else { at(t, 0, "print ") };
    if !tagged {
        return fail("Invalid usage of print", WoojinErrorKind::Unknown);
    }
    let skip: usize = if newline { 8 } else { 6 };
    let rest = slice_of(t, skip, t.len());
    let pieces = split_comma(&rest);
    let ghost ps = split_pieces(rest@);
    let ghost rs = piece_stmts(ps, bound as nat);
    let mut values: Vec<Statements> = Vec::new();
    let mut i: usize = 0;
    while i < pieces.len()
        invariant
            i <= pieces@.len(),
            skip == (if newline { 8usize } else { 6usize }),
            skip <= t@.len(),
            has_at(t@, 0, if newline { "println "@ } else { "print "@ }),
            rest@ == t@.subrange(skip as int, t@.len() as int),
            ps == split_pieces(rest@),
            pieces@.len() == ps.len(),
            rs == piece_stmts(ps, bound as nat),
            rs.len() == ps.len(),
            forall|k: int| 0 <= k < pieces@.len() ==> (#[trigger] pieces@[k])@ == ps[k],
            forall|k: int| 0 <= k < pieces@.len() ==> (#[trigger] pieces@[k])@.len() < bound,
            values@.len() == i,
            forall|k: int| 0 <= k < i ==> rs[k] == Ok::<Stmt, WoojinErrorKind>(stmt_of(&values@[k])),
        decreases pieces@.len() - i,
    {
        assert(pieces@[i as int]@.len() < bound);
        assert(rs[i as int] == line_stmt(ps[i as int]));
        let x = tokenize_chars(&pieces[i]);
        match x {
            Ok(x) => values.push(x),
            Err(e) => {
                proof {
                    assert(rs[i as int] == Err::<Stmt, WoojinErrorKind>(e.kind));
                    lemma_collect_err(rs, i as int);
                }
                return Err(e);
            },
        }
        i = i + 1;
    }
    proof {
        lemma_collect_ok(rs, stmts_of(values@));
    }
    let r = if newline { Statements::Println { values } } else { Statements::Print { values } };
    proof {
        match stmt_of(&r) {
            Stmt::Println(xs) => assert(xs =~= stmts_of(values@)),
            Stmt::Print(xs) => assert(xs =~= stmts_of(values@)),
            _ => {},
        }
    }
    Ok(r)
}

fn tokenize_roar(t: &Vec<char>, bound: usize) -> (r: Result<Statements, WoojinError>)
    requires
        t@.len() <= bound,
    ensures
        stmt_result(r) == roar_stmt(t@, bound as nat),
    decreases bound, 1int,
{
    proof { reveal_strlit("roar "); }
    if !at(t, 0, "roar ") {
        return fail("Invalid usage of roar", WoojinErrorKind::Unknown);
    }
    let a = slice_of(t, 5, t.len());
    let x = tokenize_chars(&a)?;
    match x {
        Statements::Value { value } => Ok(Statements::Roar { value }),
        Statements::Calc(c) => {
            let env = Env::new();
            let v = check_calc(&c, &env)?;
            Ok(Statements::Roar { value: v })
        },
        _ => fail("roar takes a value or an expression", WoojinErrorKind::ParseError),
    }
}

fn tokenize_wrapped(t: &Vec<char>, input: bool, bound: usize) -> (r: Result<Statements, WoojinError>)
    requires
        t@.len() <= bound,
    ensures
        stmt_result(r) == wrap_stmt(t@, input, bound as nat),
    decreases bound, 1int,
{
    proof {
        reveal_strlit("input ");
        reveal_strlit("sleep ");
    }
    let tagged = if input { at(t, 0, "input ") } else { at(t, 0, "sleep ") };
    if !tagged {
        return fail("Invalid usage of input or sleep", WoojinErrorKind::Unknown);
    }
    let a = slice_of(t, 6, t.len());
    let x = tokenize_chars(&a)?;
    Ok(if input {
        Statements::Input { question: Box::new(x) }
    } else {
        Statements::Sleep { value: Box::new(x) }
    })
}

fn tokenize_let(t: &Vec<char>, bound: usize) -> (r: Result<Statements, WoojinError>)
    requires
        t@.len() <= bound,
    ensures
        stmt_result(r) == let_stmt(t@, bound as nat),
    decreases bound, 1int,
{
    match parse_variable(t) {
        None => fail("Invalid let statement", WoojinErrorKind::ParseError),
        Some((name, ty, v, m)) => {
            let x = tokenize_chars(&v)?;
            let kind = if ty.len() == 0 {
                WoojinValueKind::Any
            } else {
                let tys = string_of(&ty, 0, ty.len());
                assert(tys@ =~= ty@);
                WoojinValueKind::from_name(tys.as_str())?
            };
            let n = string_of(&name, 0, name.len());
            assert(n@ =~= name@);
            Ok(Statements::Let { name: n, kind, stmt: Box::new(x), option: VariableOption::new(Some(m), None) })
        },
    }
}

fn tokenize_assign(t: &Vec<char>, bound: usize) -> (r: Result<Statements, WoojinError>)
    requires
        t@.len() <= bound,
    ensures
        stmt_result(r) == assign_stmt(t@, bound as nat),
    decreases bound, 1int,
{
    match parse_assignment(t) {
        Some((name, v)) => {
            let x = tokenize_chars(&v)?;
            let n = string_of(&name, 0, name.len());
            assert(n@ =~= name@);
            Ok(Statements::Assignment { name: n, value: Box::new(x) })
        },
        None => fail("Invalid assignment", WoojinErrorKind::ParseError),
    }
}

fn tokenize_expr(t: &Vec<char>) -> (r: Result<Statements, WoojinError>)
    ensures
        stmt_result(r) == expr_stmt(t@),
        r is Err ==> r->Err_0.details@ == unknown_token(t@),
{
    match parse_calc(t) {
        Some((c, _)) => match c {
            Calc::Value(v) => Ok(Statements::Value { value: v }),
            c => Ok(Statements::Calc(c)),
        },
        None => {
            let mut m = String::from_str("Unknown token \"");
            let text = string_of(t, 0, t.len());
            assert(text@ =~= t@);
            m.append(text.as_str());
            m.append("\"");
            Err(WoojinError::with_details(m, WoojinErrorKind::UnknownToken))
        },
    }
}

/// Reads one source line as a statement.
pub fn tokenize_chars(s: &Vec<char>) -> (r: Result<Statements, WoojinError>)
    ensures
        stmt_result(r) == line_stmt(s@),
        r is Err && falls_to_expr(trimmed(s@)) ==> r->Err_0.details@ == unknown_token(trimmed(s@)),
    decreases s@.len(), 2int,
{
    proof {
        reveal_strlit("//");
        crate::text::lemma_trimmed_len(s@);
    }
    let t = trim(s);
    let bound = s.len();
    if t.len() == 0 {
        return Ok(Statements::Value { value: WoojinValue::String(String::new()) });
    }
    if at(&t, 0, "//") {
        let rest = slice_of(&t, 2, t.len());
        let c = trim(&rest);
        let text = string_of(&c, 0, c.len());
        assert(text@ =~= c@);
        return Ok(Statements::Comment(text));
    }
    if at(&t, 0, "if") {
        return tokenize_if(&t, bound);
    }
    if at(&t, 0, "else") {
        return Ok(Statements::Value { value: WoojinValue::Unit });
    }
    if at(&t, 0, "yee") {
        return match yee(&t) {
            Some(code) => Ok(Statements::Yee { code }),
            None => fail("Invalid usage of yee", WoojinErrorKind::ParseError),
        };
    }
    let newline = at(&t, 0, "println");
    if newline || at(&t, 0, "print") {
        return tokenize_list(&t, newline, bound);
    }
    if at(&t, 0, "roar") {
        return tokenize_roar(&t, bound);
    }
    let input = at(&t, 0, "input");
    if input || at(&t, 0, "sleep") {
        return tokenize_wrapped(&t, input, bound);
    }
    if at(&t, 0, "let") {
        return tokenize_let(&t, bound);
    }
    if parse_assignment(&t).is_some() {
        return tokenize_assign(&t, bound);
    }
    tokenize_expr(&t)
}

/// Reads one source line as a statement.
pub fn tokenize_line(line: &str) -> (r: Result<Statements, WoojinError>)
    ensures
        stmt_result(r) == line_stmt(line@),
        r is Err && falls_to_expr(trimmed(line@)) ==> r->Err_0.details@ == unknown_token(trimmed(line@)),
{
    tokenize_chars(&chars_of(line))
}

} // verus!
