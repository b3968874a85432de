//! The value model: run-time values, their declared-type tags, rendering and
//! the arithmetic rules over resolved operands.
use vstd::prelude::*;
use vstd::string::StringExecFns;
use crate::error::{WoojinError, WoojinErrorKind};
use crate::text::{int_text, push_int};
use crate::variable::{Env, VarView};

pub mod parse;

verus! {

/// A run-time value. `Var` names a variable and stands for the value bound to
/// it; an `Array` owns its elements.
#[derive(Debug)]
pub enum WoojinValue {
    Bool(bool),
    String(String),
    Int(i32),
    Long(i64),
    Array(Vec<WoojinValue>),
    Var(String),
    Unit,
}

/// The mathematical form of a value: strings become character sequences.
pub enum Val {
    Bool(bool),
    Str(Seq<char>),
    Int(i32),
    Long(i64),
    Array(Seq<Val>),
    Var(Seq<char>),
    Unit,
}

/// The value a `WoojinValue` stands for.
pub open spec fn val_of(v: &WoojinValue) -> Val
    decreases v,
{
    match v {
        WoojinValue::Bool(b) => Val::Bool(*b),
        WoojinValue::String(s) => Val::Str(s@),
        WoojinValue::Int(n) => Val::Int(*n),
        WoojinValue::Long(n) => Val::Long(*n),
        WoojinValue::Array(a) => Val::Array(
            Seq::new(a.len() as nat, |i: int| if 0 <= i < a.len() { val_of(&a[i]) } else { Val::Unit }),
        ),
        WoojinValue::Var(name) => Val::Var(name@),
        WoojinValue::Unit => Val::Unit,
    }
}

/// The values of a list of elements.
pub open spec fn items_of(a: Seq<WoojinValue>) -> Seq<Val> {
    Seq::new(a.len(), |i: int| val_of(&a[i]))
}

proof fn lemma_array_view(v: &WoojinValue)
    requires
        v is Array,
    ensures
        val_of(v) == Val::Array(items_of(v->Array_0@)),
{
    match v {
        WoojinValue::Array(a) => match val_of(v) {
            Val::Array(p) => assert(p =~= items_of(a@)),
            _ => {},
        },
        _ => {},
    }
}

impl View for WoojinValue {
    type V = Val;

    open spec fn view(&self) -> Val {
        val_of(self)
    }
}

/// Whether two values are the same value.
pub fn same_value(a: &WoojinValue, b: &WoojinValue) -> (r: bool)
    ensures
        r == (a@ == b@),
    decreases a,
{
    match (a, b) {
        (WoojinValue::Bool(x), WoojinValue::Bool(y)) => *x == *y,
        (WoojinValue::String(x), WoojinValue::String(y)) => *x == *y,
        (WoojinValue::Int(x), WoojinValue::Int(y)) => *x == *y,
        (WoojinValue::Long(x), WoojinValue::Long(y)) => *x == *y,
        (WoojinValue::Var(x), WoojinValue::Var(y)) => *x == *y,
        (WoojinValue::Unit, WoojinValue::Unit) => true,
        (WoojinValue::Array(x), WoojinValue::Array(y)) => {
            proof {
                lemma_array_view(a);
                lemma_array_view(b);
            }
            if x.len() != y.len() {
                assert(items_of(x@).len() != items_of(y@).len());
                return false;
            }
            let mut i: usize = 0;
            while i < x.len()
                invariant
                    i <= x@.len(),
                    x@.len() == y@.len(),
                    forall|k: int| 0 <= k < i ==> val_of(&x@[k]) == val_of(&y@[k]),
                    *a is Array && a->Array_0 == *x,
                    val_of(a) == Val::Array(items_of(x@)),
                    val_of(b) == Val::Array(items_of(y@)),
                decreases x.len() - i,
            {
                proof {
                    assert(decreases_to!(*a => a->Array_0));
                    assert(decreases_to!(a->Array_0 => a->Array_0@));
                    assert(decreases_to!(a->Array_0@ => a->Array_0@[i as int]));
                    assert(decreases_to!(*a => x@[i as int]));
                }
                if !same_value(&x[i], &y[i]) {
                    assert(items_of(x@)[i as int] != items_of(y@)[i as int]);
                    return false;
                }
                i = i + 1;
            }
            assert(items_of(x@) =~= items_of(y@));
            true
        },
        _ => false,
    }
}

impl PartialEq for WoojinValue {
    fn eq(&self, other: &WoojinValue) -> (r: bool) {
        same_value(self, other)
    }
}

impl vstd::std_specs::cmp::PartialEqSpecImpl for WoojinValue {
    open spec fn obeys_eq_spec() -> bool {
        true
    }

    open spec fn eq_spec(&self, other: &WoojinValue) -> bool {
        self@ == other@
    }
}

/// A declared type: one per value tag, and `Any`, compatible with every value.
#[derive(Debug, Clone, Copy, PartialEq, Eq, Structural)]
pub enum WoojinValueKind {
    Bool,
    String,
    Int,
    Long,
    Float,
    Double,
    Array,
    Unit,
    Any,
}

/// The tag of a value that is not a variable reference.
pub open spec fn kind_of(v: Val) -> WoojinValueKind {
    match v {
        Val::Bool(_) => WoojinValueKind::Bool,
        Val::Str(_) => WoojinValueKind::String,
        Val::Int(_) => WoojinValueKind::Int,
        Val::Long(_) => WoojinValueKind::Long,
        Val::Array(_) => WoojinValueKind::Array,
        Val::Unit => WoojinValueKind::Unit,
        Val::Var(_) => WoojinValueKind::Any,
    }
}

/// A concrete value of the given kind may be stored under it.
pub open spec fn fits(v: Val, k: WoojinValueKind) -> bool {
    k == WoojinValueKind::Any || kind_of(v) == k
}

/// The texts of a list of values.
pub open spec fn texts(items: Seq<Val>) -> Seq<Seq<char>>
    decreases items,
{
    Seq::new(items.len(), |i: int| if 0 <= i < items.len() { text_of(items[i]) } else { Seq::empty() })
}

/// Texts written one after another, separated by `, `.
pub open spec fn join(parts: Seq<Seq<char>>) -> Seq<char>
    decreases parts.len(),
{
    if parts.len() == 0 {
        Seq::empty()
    } else if parts.len() == 1 {
        parts[0]
    } else {
        join(parts.drop_last()) + ", "@ + parts.last()
    }
}

/// The user-visible text of a value: booleans as the two fixed words, numbers
/// in decimal, an array as its elements' texts in brackets, separated by
/// `, `. A variable reference (which only an array can hold once values are
/// resolved) is shown as written, `$name`.
pub open spec fn text_of(v: Val) -> Seq<char>
    decreases v,
{
    match v {
        Val::Bool(b) => if b { "uglyguri"@ } else { "beautifulguri"@ },
        Val::Str(s) => s,
        Val::Int(n) => int_text(n as int),
        Val::Long(n) => int_text(n as int),
        Val::Array(items) => "["@ + join(texts(items)) + "]"@,
        Val::Unit => "()"@,
        Val::Var(name) => seq!['$'] + name,
    }
}

/// Integer division that rounds toward zero.
pub open spec fn trunc_div(a: int, b: int) -> int {
    let q = abs(a) / abs(b);
    if (a < 0) != (b < 0) { -q } else { q }
}

/// The quotient of two `i32`, rounded toward zero; the one quotient that does
/// not fit, `i32::MIN / -1`, wraps around to `i32::MIN`.
pub open spec fn int_quotient(x: i32, y: i32) -> i32 {
    if x == i32::MIN && y == -1 { i32::MIN } else { trunc_div(x as int, y as int) as i32 }
}

pub open spec fn abs(a: int) -> int {
    if a < 0 { -a } else { a }
}

/// `s` written `n` times in a row.
pub open spec fn repeat(s: Seq<char>, n: int) -> Seq<char>
    decreases n,
{
    if n <= 0 { Seq::empty() } else { repeat(s, n - 1) + s }
}

pub open spec fn add_val(a: Val, b: Val) -> Result<Val, WoojinErrorKind> {
    match (a, b) {
        (Val::Int(x), Val::Int(y)) => Ok(Val::Int(x.wrapping_add(y))),
        (Val::Str(x), Val::Str(y)) => Ok(Val::Str(x + y)),
        _ => Err(WoojinErrorKind::CannotAdd),
    }
}

pub open spec fn sub_val(a: Val, b: Val) -> Result<Val, WoojinErrorKind> {
    match (a, b) {
        (Val::Int(x), Val::Int(y)) => Ok(Val::Int(x.wrapping_sub(y))),
        _ => Err(WoojinErrorKind::CannotSubtract),
    }
}

/// A negative repeat count gives the empty string.
pub open spec fn mul_val(a: Val, b: Val) -> Result<Val, WoojinErrorKind> {
    match (a, b) {
        (Val::Int(x), Val::Int(y)) => Ok(Val::Int(x.wrapping_mul(y))),
        (Val::Str(s), Val::Int(n)) => Ok(Val::Str(repeat(s, n as int))),
        (Val::Str(s), Val::Long(n)) => Ok(Val::Str(repeat(s, n as int))),
        _ => Err(WoojinErrorKind::CannotMultiply),
    }
}

/// Division by zero is reported before anything is divided.
pub open spec fn div_val(a: Val, b: Val) -> Result<Val, WoojinErrorKind> {
    match (a, b) {
        (Val::Int(x), Val::Int(y)) => if y == 0 {
            Err(WoojinErrorKind::DivisionByZero)
        } else {
            Ok(Val::Int(int_quotient(x, y)))
        },
        _ => Err(WoojinErrorKind::CannotDivide),
    }
}

/// The result `r` is the outcome `o`: the same value, or an error of the same kind.
pub open spec fn outcome_is(r: Result<WoojinValue, WoojinError>, o: Result<Val, WoojinErrorKind>) -> bool {
    match r {
        Ok(v) => o == Ok::<Val, WoojinErrorKind>(v@),
        Err(e) => o == Err::<Val, WoojinErrorKind>(e.kind),
    }
}

impl WoojinValue {
    /// A copy of the value.
    pub fn duplicate(&self) -> (r: WoojinValue)
        ensures
            r@ == self@,
        decreases self,
    {
        match self {
            WoojinValue::Bool(b) => WoojinValue::Bool(*b),
            WoojinValue::String(s) => WoojinValue::String(s.clone()),
            WoojinValue::Int(n) => WoojinValue::Int(*n),
            WoojinValue::Long(n) => WoojinValue::Long(*n),
            WoojinValue::Array(a) => {
                let mut out: Vec<WoojinValue> = Vec::new();
                let mut i: usize = 0;
                while i < a.len()
                    invariant
                        i <= a@.len(),
                        out@.len() == i,
                        forall|k: int| 0 <= k < i ==> val_of(&out@[k]) == val_of(&a@[k]),
                        *self is Array && self->Array_0 == *a,
                    decreases a.len() - i,
                {
                    proof {
                        assert(decreases_to!(*self => self->Array_0));
                        assert(decreases_to!(self->Array_0 => self->Array_0@));
                        assert(decreases_to!(self->Array_0@ => self->Array_0@[i as int]));
                        assert(decreases_to!(*self => a@[i as int]));
                    }
                    out.push(a[i].duplicate());
                    i = i + 1;
                }
                let r = WoojinValue::Array(out);
                proof {
                    lemma_array_view(&r);
                    lemma_array_view(self);
                    assert(items_of(out@) =~= items_of(a@));
                }
                r
            },
            WoojinValue::Var(s) => WoojinValue::Var(s.clone()),
            WoojinValue::Unit => WoojinValue::Unit,
        }
    }

    /// The tag of a value that is not a variable reference.
    pub fn kind_concrete(&self) -> (r: WoojinValueKind)
        ensures
            r == kind_of(self@),
    {
        match self {
            WoojinValue::Bool(_) => WoojinValueKind::Bool,
            WoojinValue::String(_) => WoojinValueKind::String,
            WoojinValue::Int(_) => WoojinValueKind::Int,
            WoojinValue::Long(_) => WoojinValueKind::Long,
            WoojinValue::Array(_) => WoojinValueKind::Array,
            WoojinValue::Var(_) => WoojinValueKind::Any,
            WoojinValue::Unit => WoojinValueKind::Unit,
        }
    }

    /// Whether a value that is not a variable reference may be stored under `k`.
    pub fn type_eq_concrete(&self, k: WoojinValueKind) -> (r: bool)
        ensures
            r == fits(self@, k),
    {
        k == WoojinValueKind::Any || self.kind_concrete() == k
    }
}

/// A value with a variable reference followed to what the name is bound to.
pub open spec fn resolve(v: Val, env: Map<Seq<char>, VarView>) -> Option<Val> {
    match v {
        Val::Var(n) => if env.contains_key(n) { Some(env[n].value) } else { None },
        _ => Some(v),
    }
}

/// The four arithmetic operators.
#[derive(Debug, Clone, Copy, PartialEq, Eq, Structural)]
pub enum Arith {
    Add,
    Sub,
    Mul,
    Div,
}

pub open spec fn arith_val(op: Arith, a: Val, b: Val) -> Result<Val, WoojinErrorKind> {
    match op {
        Arith::Add => add_val(a, b),
        Arith::Sub => sub_val(a, b),
        Arith::Mul => mul_val(a, b),
        Arith::Div => div_val(a, b),
    }
}

/// The error each operator reports for operands it does not accept.
pub open spec fn refusal(op: Arith) -> WoojinErrorKind {
    match op {
        Arith::Add => WoojinErrorKind::CannotAdd,
        Arith::Sub => WoojinErrorKind::CannotSubtract,
        Arith::Mul => WoojinErrorKind::CannotMultiply,
        Arith::Div => WoojinErrorKind::CannotDivide,
    }
}

/// Operands of different kinds are never coerced into each other: the
/// operator fails with its own refusal. The one mixed pair any operator takes
/// is a string times a count (`Int` or `Long`), which repeats the string.
pub proof fn law_mixed_kinds_refused(op: Arith, a: Val, b: Val)
    requires
        kind_of(a) != kind_of(b),
        !(op == Arith::Mul && a is Str && (b is Int || b is Long)),
    ensures
        arith_val(op, a, b) == Err::<Val, WoojinErrorKind>(refusal(op)),
{
}

/// An operator applied to two operands once both are resolved.
pub open spec fn arith_in(op: Arith, a: Val, b: Val, env: Map<Seq<char>, VarView>) -> Result<Val, WoojinErrorKind> {
    match (resolve(a, env), resolve(b, env)) {
        (Some(x), Some(y)) => arith_val(op, x, y),
        _ => Err(WoojinErrorKind::UndeclaredVariable),
    }
}

impl WoojinValue {
    /// The value itself, or for a variable reference the value bound to the name.
    pub fn value(&self, env: &Env) -> (r: Result<WoojinValue, WoojinError>)
        requires
            env.wf(),
        ensures
            r is Ok <==> resolve(self@, env@) is Some,
            r is Ok ==> Some(r->Ok_0@) == resolve(self@, env@) && !(r->Ok_0@ is Var),
            r is Err ==> r->Err_0.kind == WoojinErrorKind::UndeclaredVariable,
    {
        match self {
            WoojinValue::Var(name) => env.get_var(name.as_str()),
            _ => Ok(self.duplicate()),
        }
    }

    /// The kind of the value, once resolved.
    pub fn kind(&self, env: &Env) -> (r: Result<WoojinValueKind, WoojinError>)
        requires
            env.wf(),
        ensures
            r is Ok <==> resolve(self@, env@) is Some,
            r is Ok ==> r->Ok_0 == kind_of(resolve(self@, env@)->Some_0),
            r is Err ==> r->Err_0.kind == WoojinErrorKind::UndeclaredVariable,
    {
        let v = self.value(env)?;
        Ok(v.kind_concrete())
    }

    /// Whether the value, once resolved, may be stored under `k`.
    pub fn type_eq(&self, k: WoojinValueKind, env: &Env) -> (r: Result<bool, WoojinError>)
        requires
            env.wf(),
        ensures
            r is Ok <==> resolve(self@, env@) is Some,
            r is Ok ==> r->Ok_0 == fits(resolve(self@, env@)->Some_0, k),
            r is Err ==> r->Err_0.kind == WoojinErrorKind::UndeclaredVariable,
    {
        let v = self.value(env)?;
        Ok(v.type_eq_concrete(k))
    }

    /// The user-visible text of the value, once resolved.
    pub fn to_print(&self, env: &Env) -> (r: Result<String, WoojinError>)
        requires
            env.wf(),
        ensures
            r is Ok <==> resolve(self@, env@) is Some,
            r is Ok ==> r->Ok_0@ == text_of(resolve(self@, env@)->Some_0),
            r is Err ==> r->Err_0.kind == WoojinErrorKind::UndeclaredVariable,
    {
        let v = self.value(env)?;
        Ok(v.text())
    }

    /// The user-visible text of the value as it stands (a reference is not followed).
    pub fn text(&self) -> (r: String)
        ensures
            r@ == text_of(self@),
        decreases self,
    {
        match self {
            WoojinValue::Bool(b) => if *b {
                String::from_str("uglyguri")
            } else {
                String::from_str("beautifulguri")
            },
            WoojinValue::String(s) => s.clone(),
            WoojinValue::Int(n) => {
                let mut r = String::new();
                push_int(&mut r, *n as i64);
                r
            },
            WoojinValue::Long(n) => {
                let mut r = String::new();
                push_int(&mut r, *n);
                r
            },
            WoojinValue::Array(a) => {
                let ghost items = a@.map_values(|x: WoojinValue| text_of(val_of(&x)));
                let mut r = String::from_str("[");
                let mut i: usize = 0;
                while i < a.len()
                    invariant
                        i <= a@.len(),
                        items == a@.map_values(|x: WoojinValue| text_of(val_of(&x))),
                        r@ == "["@ + join(items.take(i as int)),
                        *self is Array && self->Array_0 == *a,
                    decreases a.len() - i,
                {
                    proof {
                        assert(decreases_to!(*self => self->Array_0));
                        assert(decreases_to!(self->Array_0 => self->Array_0@));
                        assert(decreases_to!(self->Array_0@ => self->Array_0@[i as int]));
                        assert(decreases_to!(*self => a@[i as int]));
                    }
                    let t = a[i].text();
                    let ghost before = r@;
                    if i > 0 {
                        r.append(", ");
                    }
                    r.append(t.as_str());
                    proof {
                        assert(items.take(i + 1).drop_last() =~= items.take(i as int));
                        if i == 0 {
                            assert(items.take(1) =~= seq![items[0]]);
                            assert(r@ =~= "["@ + join(items.take(i + 1)));
                        } else {
                            assert(r@ =~= "["@ + join(items.take(i + 1)));
                        }
                    }
                    i = i + 1;
                }
                r.append("]");
                proof {
                    assert(items.take(a@.len() as int) =~= items);
                    lemma_array_view(self);
                    assert(texts(items_of(a@)) =~= items);
                }
                r
            },
            WoojinValue::Var(name) => {
                let mut r = String::from_str("$");
                r.append(name.as_str());
                proof { reveal_strlit("$"); }
                assert(r@ =~= seq!['$'] + name@);
                r
            },
            WoojinValue::Unit => String::from_str("()"),
        }
    }

    pub fn add(&self, other: &WoojinValue, env: &Env) -> (r: Result<WoojinValue, WoojinError>)
        requires
            env.wf(),
        ensures
            outcome_is(r, arith_in(Arith::Add, self@, other@, env@)),
    {
        let a = self.value(env)?;
        let b = other.value(env)?;
        match (a, b) {
            (WoojinValue::Int(x), WoojinValue::Int(y)) => Ok(WoojinValue::Int(x.wrapping_add(y))),
            (WoojinValue::String(x), WoojinValue::String(y)) => {
                let mut s = x;
                s.append(y.as_str());
                Ok(WoojinValue::String(s))
            },
            _ => Err(WoojinError::new("The type that can't be added", WoojinErrorKind::CannotAdd)),
        }
    }

    pub fn sub(&self, other: &WoojinValue, env: &Env) -> (r: Result<WoojinValue, WoojinError>)
        requires
            env.wf(),
        ensures
            outcome_is(r, arith_in(Arith::Sub, self@, other@, env@)),
    {
        let a = self.value(env)?;
        let b = other.value(env)?;
        match (a, b) {
            (WoojinValue::Int(x), WoojinValue::Int(y)) => Ok(WoojinValue::Int(x.wrapping_sub(y))),
            _ => Err(WoojinError::new("The type that can't be subtracted", WoojinErrorKind::CannotSubtract)),
        }
    }

    pub fn mul(&self, other: &WoojinValue, env: &Env) -> (r: Result<WoojinValue, WoojinError>)
        requires
            env.wf(),
        ensures
            outcome_is(r, arith_in(Arith::Mul, self@, other@, env@)),
    {
        let a = self.value(env)?;
        let b = other.value(env)?;
        match (a, b) {
            (WoojinValue::Int(x), WoojinValue::Int(y)) => Ok(WoojinValue::Int(x.wrapping_mul(y))),
            (WoojinValue::String(x), WoojinValue::Int(n)) => Ok(WoojinValue::String(repeat_string(&x, n as i64))),
            (WoojinValue::String(x), WoojinValue::Long(n)) => Ok(WoojinValue::String(repeat_string(&x, n))),
            _ => Err(WoojinError::new("The type that can't be multiplied!", WoojinErrorKind::CannotMultiply)),
        }
    }

    pub fn div(&self, other: &WoojinValue, env: &Env) -> (r: Result<WoojinValue, WoojinError>)
        requires
            env.wf(),
        ensures
            outcome_is(r, arith_in(Arith::Div, self@, other@, env@)),
    {
        let a = self.value(env)?;
        let b = other.value(env)?;
        match (a, b) {
            (WoojinValue::Int(x), WoojinValue::Int(y)) => if y == 0 {
                Err(WoojinError::new("It cannot be divided by 0", WoojinErrorKind::DivisionByZero))
            } else {
                Ok(WoojinValue::Int(quotient(x, y)))
            },
            _ => Err(WoojinError::new("an indivisible type!", WoojinErrorKind::CannotDivide)),
        }
    }

    /// One of the four operators, by name.
    pub fn apply(&self, op: Arith, other: &WoojinValue, env: &Env) -> (r: Result<WoojinValue, WoojinError>)
        requires
            env.wf(),
        ensures
            outcome_is(r, arith_in(op, self@, other@, env@)),
    {
        match op {
            Arith::Add => self.add(other, env),
            Arith::Sub => self.sub(other, env),
            Arith::Mul => self.mul(other, env),
            Arith::Div => self.div(other, env),
        }
    }
}

fn quotient(x: i32, y: i32) -> (r: i32)
    requires
        y != 0,
    ensures
        r == int_quotient(x, y),
{
    if x == i32::MIN && y == -1 {
        return i32::MIN;
    }
    let a: i64 = if x < 0 { -(x as i64) } else { x as i64 };
    let b: i64 = if y < 0 { -(y as i64) } else { y as i64 };
    let q: i64 = a / b;
    assert(q == abs(x as int) / abs(y as int));
    assert(0 <= q <= a) by (nonlinear_arith)
        requires q == a / b, a >= 0, b >= 1;
    if (x < 0) != (y < 0) {
        assert(q <= 0x8000_0000);
        (-q) as i32
    } else {
        assert(q <= 0x7fff_ffff) by {
            if q == 0x8000_0000 {
                assert(x == i32::MIN);
                assert(y < 0);
                assert(b == 1) by (nonlinear_arith)
                    requires q == a / b, a == 0x8000_0000, b >= 1, q == 0x8000_0000;
            }
        }
        q as i32
    }
}

/// `s` written `n` times in a row; nothing when `n` is not positive.
fn repeat_string(s: &String, n: i64) -> (r: String)
    ensures
        r@ == repeat(s@, n as int),
{
    let mut r = String::new();
    let mut i: i64 = 0;
    while i < n
        invariant
            0 <= i,
            i <= n || i == 0,
            r@ == repeat(s@, i as int),
        decreases n - i,
    {
        r.append(s.as_str());
        i = i + 1;
    }
    if n <= 0 {
        assert(i == 0);
        assert(repeat(s@, 0) == Seq::<char>::empty());
        assert(repeat(s@, n as int) == Seq::<char>::empty());
    }
    r
}

impl WoojinValueKind {
    /// The kind that a type annotation names.
    pub fn from_name(s: &str) -> (r: Result<WoojinValueKind, WoojinError>)
        ensures
            r is Ok <==> kind_named(s@) is Some,
            r is Ok ==> kind_named(s@) == Some(r->Ok_0),
            r is Err ==> r->Err_0.kind == WoojinErrorKind::InvalidType,
    {
        proof {
            reveal_strlit("bool");
            reveal_strlit("string");
            reveal_strlit("int");
            reveal_strlit("long");
            reveal_strlit("float");
            reveal_strlit("double");
            reveal_strlit("array");
            reveal_strlit("unit");
        }
        let t = String::from_str(s);
        if t == String::from_str("bool") {
            Ok(WoojinValueKind::Bool)
        } else if t == String::from_str("string") {
            Ok(WoojinValueKind::String)
        } else if t == String::from_str("int") {
            Ok(WoojinValueKind::Int)
        } else if t == String::from_str("long") {
            Ok(WoojinValueKind::Long)
        } else if t == String::from_str("float") {
            Ok(WoojinValueKind::Float)
        } else if t == String::from_str("double") {
            Ok(WoojinValueKind::Double)
        } else if t == String::from_str("array") {
            Ok(WoojinValueKind::Array)
        } else if t == String::from_str("unit") {
            Ok(WoojinValueKind::Unit)
        } else {
            let mut m = String::from_str("Invalid type: ");
            m.append(s);
            Err(WoojinError::with_details(m, WoojinErrorKind::InvalidType))
        }
    }

    /// The name of the kind, as written in a type annotation.
    pub fn name(self) -> (r: String)
        ensures
            r@ == name_of(self),
    {
        match self {
            WoojinValueKind::Bool => String::from_str("bool"),
            WoojinValueKind::String => String::from_str("string"),
            WoojinValueKind::Int => String::from_str("int"),
            WoojinValueKind::Long => String::from_str("long"),
            WoojinValueKind::Float => String::from_str("float"),
            WoojinValueKind::Double => String::from_str("double"),
            WoojinValueKind::Array => String::from_str("array"),
            WoojinValueKind::Unit => String::from_str("unit"),
            WoojinValueKind::Any => String::from_str("any"),
        }
    }
}

/// The kind a type annotation names; `any` cannot be written.
pub open spec fn kind_named(s: Seq<char>) -> Option<WoojinValueKind> {
    if s == "bool"@ {
        Some(WoojinValueKind::Bool)
    } else if s == "string"@ {
        Some(WoojinValueKind::String)
    } else if s == "int"@ {
        Some(WoojinValueKind::Int)
    } else if s == "long"@ {
        Some(WoojinValueKind::Long)
    } else if s == "float"@ {
        Some(WoojinValueKind::Float)
    } else if s == "double"@ {
        Some(WoojinValueKind::Double)
    } else if s == "array"@ {
        Some(WoojinValueKind::Array)
    } else if s == "unit"@ {
        Some(WoojinValueKind::Unit)
    } else {
        None
    }
}

pub open spec fn name_of(k: WoojinValueKind) -> Seq<char> {
    match k {
        WoojinValueKind::Bool => "bool"@,
        WoojinValueKind::String => "string"@,
        WoojinValueKind::Int => "int"@,
        WoojinValueKind::Long => "long"@,
        WoojinValueKind::Float => "float"@,
        WoojinValueKind::Double => "double"@,
        WoojinValueKind::Array => "array"@,
        WoojinValueKind::Unit => "unit"@,
        WoojinValueKind::Any => "any"@,
    }
}

} // verus!
