//! Arithmetic expressions: the tree, its precedence-climbing parser and its
//! evaluation. `*` and `/` bind tighter than `+` and `-`, every operator
//! associates to the left, parentheses group, and whitespace between tokens
//! is insignificant.
use vstd::prelude::*;
use crate::error::{WoojinError, WoojinErrorKind};
use crate::text::{digit_char, int_text, is_digit, nat_digits, skip_space, skip_ws};
use crate::types::parse::{digits_end, digits_value, lemma_value_end, parse_value, sign_len, value_at};
use crate::types::{abs, arith_val, int_quotient, resolve, trunc_div, Arith, Val, WoojinValue};
use crate::variable::{Bindings, Env};

verus! {

/// An expression tree; each node owns its two operands.
#[derive(Debug)]
pub enum Calc {
    Value(WoojinValue),
    Add(Box<Calc>, Box<Calc>),
    Sub(Box<Calc>, Box<Calc>),
    Mul(Box<Calc>, Box<Calc>),
    Div(Box<Calc>, Box<Calc>),
}

/// The mathematical form of an expression tree.
pub enum Tree {
    Leaf(Val),
    Node(Arith, Box<Tree>, Box<Tree>),
}

/// The tree an expression stands for.
pub open spec fn tree_of(c: &Calc) -> Tree
    decreases c,
{
    match c {
        Calc::Value(v) => Tree::Leaf(v@),
        Calc::Add(a, b) => Tree::Node(Arith::Add, Box::new(tree_of(a)), Box::new(tree_of(b))),
        Calc::Sub(a, b) => Tree::Node(Arith::Sub, Box::new(tree_of(a)), Box::new(tree_of(b))),
        Calc::Mul(a, b) => Tree::Node(Arith::Mul, Box::new(tree_of(a)), Box::new(tree_of(b))),
        Calc::Div(a, b) => Tree::Node(Arith::Div, Box::new(tree_of(a)), Box::new(tree_of(b))),
    }
}

impl View for Calc {
    type V = Tree;

    open spec fn view(&self) -> Tree {
        tree_of(self)
    }
}

/// `primary := literal | "(" expr ")"`, after any whitespace at `i`.
pub open spec fn primary_at(s: Seq<char>, i: int) -> Option<(Tree, int)>
    decreases s.len() - i, 0int,
{
    let i0 = skip_space(s, i);
    if i < 0 || i > s.len() || i0 < i || i0 > s.len() {
        None
    } else if value_at(s, i0) is Some {
        Some((Tree::Leaf(value_at(s, i0)->Some_0.0), value_at(s, i0)->Some_0.1))
    } else if i0 < s.len() && s[i0] == '(' {
        match expr_at(s, i0 + 1) {
            Some((t, e)) => {
                let e2 = skip_space(s, e);
                if 0 <= e2 < s.len() && s[e2] == ')' { Some((t, e2 + 1)) } else { None }
            },
            None => None,
        }
    } else {
        None
    }
}

pub open spec fn mul_op(c: char) -> Option<Arith> {
    if c == '*' { Some(Arith::Mul) } else if c == '/' { Some(Arith::Div) } else { None }
}

pub open spec fn add_op(c: char) -> Option<Arith> {
    if c == '+' { Some(Arith::Add) } else if c == '-' { Some(Arith::Sub) } else { None }
}

/// Folds `(("*"|"/") primary)*` from `i` onto `acc`, each step making the
/// tree so far the left operand.
pub open spec fn term_rest(s: Seq<char>, i: int, acc: Tree) -> (Tree, int)
    decreases s.len() - i, 0int,
{
    let j = skip_space(s, i);
    if 0 <= i <= j < s.len() && mul_op(s[j]) is Some {
        match primary_at(s, j + 1) {
            Some((t, e)) => if i < e <= s.len() {
                term_rest(s, e, Tree::Node(mul_op(s[j])->Some_0, Box::new(acc), Box::new(t)))
            } else {
                (acc, i)
            },
            None => (acc, i),
        }
    } else {
        (acc, i)
    }
}

/// `term := primary (("*"|"/") primary)*`
pub open spec fn term_at(s: Seq<char>, i: int) -> Option<(Tree, int)>
    decreases s.len() - i, 1int,
{
    match primary_at(s, i) {
        Some((t, e)) => if i < e <= s.len() { Some(term_rest(s, e, t)) } else { None },
        None => None,
    }
}

/// Folds `(("+"|"-") term)*` from `i` onto `acc`.
pub open spec fn expr_rest(s: Seq<char>, i: int, acc: Tree) -> (Tree, int)
    decreases s.len() - i, 1int,
{
    let j = skip_space(s, i);
    if 0 <= i <= j < s.len() && add_op(s[j]) is Some {
        match term_at(s, j + 1) {
            Some((t, e)) => if i < e <= s.len() {
                expr_rest(s, e, Tree::Node(add_op(s[j])->Some_0, Box::new(acc), Box::new(t)))
            } else {
                (acc, i)
            },
            None => (acc, i),
        }
    } else {
        (acc, i)
    }
}

/// `expr := term (("+"|"-") term)*`: the tree and where it ends.
pub open spec fn expr_at(s: Seq<char>, i: int) -> Option<(Tree, int)>
    decreases s.len() - i, 2int,
{
    match term_at(s, i) {
        Some((t, e)) => if i < e <= s.len() { Some(expr_rest(s, e, t)) } else { None },
        None => None,
    }
}

/// The value of an expression tree: leaves are resolved, and each node
/// evaluates its left operand, then its right one, then applies its operator.
pub open spec fn eval_tree(t: Tree, env: Bindings) -> Result<Val, WoojinErrorKind>
    decreases t,
{
    match t {
        Tree::Leaf(v) => match resolve(v, env) {
            Some(x) => Ok(x),
            None => Err(WoojinErrorKind::UndeclaredVariable),
        },
        Tree::Node(op, a, b) => match eval_tree(*a, env) {
            Err(k) => Err(k),
            Ok(x) => match eval_tree(*b, env) {
                Err(k) => Err(k),
                Ok(y) => arith_val(op, x, y),
            },
        },
    }
}

proof fn lemma_nat_digits(p: Seq<char>, n: nat, rest: Seq<char>)
    ensures
        nat_digits(n).len() >= 1,
        forall|k: int| p.len() <= k < p.len() + nat_digits(n).len()
            ==> is_digit(#[trigger] (p + nat_digits(n) + rest)[k]),
        digits_value(p + nat_digits(n) + rest, p.len() as int, (p.len() + nat_digits(n).len()) as int) == n,
    decreases n,
{
    let s = p + nat_digits(n) + rest;
    let d = digit_char(n % 10);
    if n < 10 {
        assert(s[p.len() as int] == d);
        assert(digits_value(s, p.len() as int, p.len() as int) == 0);
    } else {
        let m = n / 10;
        lemma_nat_digits(p, m, seq![d] + rest);
        assert(s =~= p + nat_digits(m) + (seq![d] + rest));
        assert(s[(p.len() + nat_digits(m).len()) as int] == d);
    }
}

proof fn lemma_digits_run(s: Seq<char>, j: int, k: int)
    requires
        0 <= j <= k <= s.len(),
        forall|x: int| j <= x < k ==> is_digit(#[trigger] s[x]),
        k == s.len() || !is_digit(s[k]),
    ensures
        digits_end(s, j) == k,
    decreases k - j,
{
    if j < k {
        lemma_digits_run(s, j + 1, k);
    }
}

/// The decimal text of an `i32`, read back at any position and followed by
/// anything but a digit or a `.`, is that integer.
proof fn lemma_int_text_reads(p: Seq<char>, a: i32, rest: Seq<char>)
    requires
        rest.len() == 0 || (!is_digit(rest[0]) && rest[0] != '.'),
    ensures
        value_at(p + int_text(a as int) + rest, p.len() as int)
            == Some((Val::Int(a), (p.len() + int_text(a as int).len()) as int)),
{
    let s = p + int_text(a as int) + rest;
    let i = p.len() as int;
    if a < 0 {
        let n = (-a) as nat;
        let q = p + seq!['-'];
        assert(s =~= q + nat_digits(n) + rest);
        lemma_nat_digits(q, n, rest);
        assert(sign_len(s, i) == 1);
        lemma_digits_run(s, i + 1, i + 1 + nat_digits(n).len());
    } else {
        let n = a as nat;
        lemma_nat_digits(p, n, rest);
        assert(s[i] == nat_digits(n)[0]);
        assert(sign_len(s, i) == 0);
        lemma_digits_run(s, i, i + nat_digits(n).len());
    }
}

/// A quotient of integers is the one that rounds toward zero (the one pair
/// whose quotient does not fit, `i32::MIN / -1`, wraps around), and division
/// by zero is refused: `a / b` written in decimal parses to the division of
/// the two literals, and evaluates accordingly.
pub proof fn law_division(a: i32, b: i32, env: Bindings)
    ensures
        ({
            let s = int_text(a as int) + seq![' ', '/', ' '] + int_text(b as int);
            &&& expr_at(s, 0) == Some((
                Tree::Node(Arith::Div, Box::new(Tree::Leaf(Val::Int(a))), Box::new(Tree::Leaf(Val::Int(b)))),
                s.len() as int,
            ))
            &&& eval_tree(expr_at(s, 0)->Some_0.0, env) == (if b == 0 {
                Err::<Val, WoojinErrorKind>(WoojinErrorKind::DivisionByZero)
            } else {
                Ok::<Val, WoojinErrorKind>(Val::Int(int_quotient(a, b)))
            })
        }),
        b != 0 && !(a == i32::MIN && b == -1) ==> int_quotient(a, b) == trunc_div(a as int, b as int),
{
    let ta = int_text(a as int);
    let tb = int_text(b as int);
    let s = ta + seq![' ', '/', ' '] + tb;
    let la = ta.len() as int;
    lemma_int_text_reads(Seq::empty(), a, seq![' ', '/', ' '] + tb);
    assert(Seq::<char>::empty() + ta + (seq![' ', '/', ' '] + tb) =~= s);
    lemma_int_text_reads(ta + seq![' ', '/', ' '], b, Seq::empty());
    assert(ta + seq![' ', '/', ' '] + tb + Seq::<char>::empty() =~= s);
    assert(s[la] == ' ' && s[la + 1] == '/' && s[la + 2] == ' ');
    assert(skip_space(s, 0) == 0) by {
        assert(s[0] == ta[0]);
        if a < 0 {
            assert(ta[0] == '-');
        } else {
            lemma_nat_digits(Seq::empty(), a as nat, Seq::empty());
            assert(Seq::<char>::empty() + nat_digits(a as nat) + Seq::<char>::empty() =~= ta);
        }
    }
    assert(skip_space(s, la + 1) == la + 1);
    assert(skip_space(s, la) == la + 1);
    assert(skip_space(s, la + 3) == la + 3) by {
        assert(s[la + 3] == tb[0]);
        if b < 0 {
            assert(tb[0] == '-');
        } else {
            lemma_nat_digits(Seq::empty(), b as nat, Seq::empty());
            assert(Seq::<char>::empty() + nat_digits(b as nat) + Seq::<char>::empty() =~= tb);
        }
    }
    assert(skip_space(s, la + 2) == la + 3);
    let leaf_a = Tree::Leaf(Val::Int(a));
    let leaf_b = Tree::Leaf(Val::Int(b));
    assert(primary_at(s, 0) == Some((leaf_a, la)));
    assert(primary_at(s, la + 2) == Some((leaf_b, s.len() as int)));
    let t = Tree::Node(Arith::Div, Box::new(leaf_a), Box::new(leaf_b));
    assert(skip_space(s, s.len() as int) == s.len());
    assert(term_rest(s, s.len() as int, t) == (t, s.len() as int));
    assert(term_rest(s, la, leaf_a) == (t, s.len() as int));
    assert(term_at(s, 0) == Some((t, s.len() as int)));
    assert(expr_rest(s, s.len() as int, t) == (t, s.len() as int));
    assert(expr_at(s, 0) == Some((t, s.len() as int)));
    assert(eval_tree(leaf_a, env) == Ok::<Val, WoojinErrorKind>(Val::Int(a)));
    assert(eval_tree(leaf_b, env) == Ok::<Val, WoojinErrorKind>(Val::Int(b)));
    if b != 0 && !(a == i32::MIN && b == -1) {
        let q = abs(a as int) / abs(b as int);
        assert(0 <= q <= abs(a as int)) by (nonlinear_arith)
            requires q == abs(a as int) / abs(b as int), abs(b as int) >= 1, abs(a as int) >= 0;
        if q == 0x8000_0000 {
            assert(abs(b as int) == 1) by (nonlinear_arith)
                requires q == abs(a as int) / abs(b as int), abs(b as int) >= 1, q == 0x8000_0000,
                    abs(a as int) <= 0x8000_0000;
        }
    }
}

/// The node for an operator over two trees.
pub fn node(op: Arith, a: Calc, b: Calc) -> (r: Calc)
    ensures
        r@ == Tree::Node(op, Box::new(a@), Box::new(b@)),
{
    match op {
        Arith::Add => Calc::Add(Box::new(a), Box::new(b)),
        Arith::Sub => Calc::Sub(Box::new(a), Box::new(b)),
        Arith::Mul => Calc::Mul(Box::new(a), Box::new(b)),
        Arith::Div => Calc::Div(Box::new(a), Box::new(b)),
    }
}

/// Reads a primary at `i`.
pub fn parse_primary(s: &Vec<char>, i: usize) -> (r: Option<(Calc, usize)>)
    requires
        i <= s@.len(),
    ensures
        match r {
            Some((t, e)) => primary_at(s@, i as int) == Some((t@, e as int)) && i < e <= s@.len(),
            None => primary_at(s@, i as int) is None,
        },
    decreases s@.len() - i, 0int,
{
    let i0 = skip_ws(s, i);
    proof { lemma_value_end(s@, i0 as int); }
    if let Some((v, e)) = parse_value(s, i0) {
        return Some((Calc::Value(v), e));
    }
    if i0 < s.len() && s[i0] == '(' {
        match parse_expr(s, i0 + 1) {
            Some((t, e)) => {
                let e2 = skip_ws(s, e);
                if e2 < s.len() && s[e2] == ')' {
                    Some((t, e2 + 1))
                } else {
                    None
                }
            },
            None => None,
        }
    } else {
        None
    }
}

fn mul_op_exec(c: char) -> (r: Option<Arith>)
    ensures
        r == mul_op(c),
{
    if c == '*' { Some(Arith::Mul) } else if c == '/' { Some(Arith::Div) } else { None }
}

fn add_op_exec(c: char) -> (r: Option<Arith>)
    ensures
        r == add_op(c),
{
    if c == '+' { Some(Arith::Add) } else if c == '-' { Some(Arith::Sub) } else { None }
}

fn parse_term_rest(s: &Vec<char>, i: usize, acc: Calc) -> (r: (Calc, usize))
    requires
        i <= s@.len(),
    ensures
        term_rest(s@, i as int, acc@) == (r.0@, r.1 as int),
        i <= r.1 <= s@.len(),
    decreases s@.len() - i, 0int,
{
    let j = skip_ws(s, i);
    if j < s.len() {
        if let Some(op) = mul_op_exec(s[j]) {
            if let Some((t, e)) = parse_primary(s, j + 1) {
                return parse_term_rest(s, e, node(op, acc, t));
            }
        }
    }
    (acc, i)
}

/// Reads a term at `i`.
pub fn parse_term(s: &Vec<char>, i: usize) -> (r: Option<(Calc, usize)>)
    requires
        i <= s@.len(),
    ensures
        match r {
            Some((t, e)) => term_at(s@, i as int) == Some((t@, e as int)) && i < e <= s@.len(),
            None => term_at(s@, i as int) is None,
        },
    decreases s@.len() - i, 1int,
{
    match parse_primary(s, i) {
        Some((t, e)) => Some(parse_term_rest(s, e, t)),
        None => None,
    }
}

fn parse_expr_rest(s: &Vec<char>, i: usize, acc: Calc) -> (r: (Calc, usize))
    requires
        i <= s@.len(),
    ensures
        expr_rest(s@, i as int, acc@) == (r.0@, r.1 as int),
        i <= r.1 <= s@.len(),
    decreases s@.len() - i, 1int,
{
    let j = skip_ws(s, i);
    if j < s.len() {
        if let Some(op) = add_op_exec(s[j]) {
            if let Some((t, e)) = parse_term(s, j + 1) {
                return parse_expr_rest(s, e, node(op, acc, t));
            }
        }
    }
    (acc, i)
}

/// Reads an expression at `i`: the tree and the position after it.
pub fn parse_expr(s: &Vec<char>, i: usize) -> (r: Option<(Calc, usize)>)
    requires
        i <= s@.len(),
    ensures
        match r {
            Some((t, e)) => expr_at(s@, i as int) == Some((t@, e as int)) && i < e <= s@.len(),
            None => expr_at(s@, i as int) is None,
        },
    decreases s@.len() - i, 2int,
{
    match parse_term(s, i) {
        Some((t, e)) => Some(parse_expr_rest(s, e, t)),
        None => None,
    }
}

/// Reads an expression from the start of `s`.
pub fn parse_calc(s: &Vec<char>) -> (r: Option<(Calc, usize)>)
    ensures
        match r {
            Some((t, e)) => expr_at(s@, 0) == Some((t@, e as int)),
            None => expr_at(s@, 0) is None,
        },
{
    parse_expr(s, 0)
}

/// Evaluates an expression tree.
pub fn check_calc(calc: &Calc, env: &Env) -> (r: Result<WoojinValue, WoojinError>)
    requires
        env.wf(),
    ensures
        match r {
            Ok(v) => eval_tree(calc@, env@) == Ok::<Val, WoojinErrorKind>(v@),
            Err(e) => eval_tree(calc@, env@) == Err::<Val, WoojinErrorKind>(e.kind),
        },
        r is Ok ==> !(r->Ok_0@ is Var),
    decreases calc,
{
    match calc {
        Calc::Value(v) => v.value(env),
        Calc::Add(a, b) => {
            let x = check_calc(a, env)?;
            let y = check_calc(b, env)?;
            x.add(&y, env)
        },
        Calc::Sub(a, b) => {
            let x = check_calc(a, env)?;
            let y = check_calc(b, env)?;
            x.sub(&y, env)
        },
        Calc::Mul(a, b) => {
            let x = check_calc(a, env)?;
            let y = check_calc(b, env)?;
            x.mul(&y, env)
        },
        Calc::Div(a, b) => {
            let x = check_calc(a, env)?;
            let y = check_calc(b, env)?;
            x.div(&y, env)
        },
    }
}

} // verus!
