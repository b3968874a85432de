//! The variable environment: one namespace of names bound to a value, the kind
//! fixed when the name was declared, and whether later assignment is allowed.
use vstd::prelude::*;
use vstd::string::StringExecFns;
use crate::error::{WoojinError, WoojinErrorKind};
use crate::types::{fits, kind_of, resolve, Val, WoojinValue, WoojinValueKind};

verus! {

/// What a declared name is bound to.
#[derive(Debug)]
pub struct WoojinVariable {
    pub value: WoojinValue,
    pub kind: WoojinValueKind,
    pub is_mut: bool,
}

/// The mathematical form of a binding.
pub struct VarView {
    pub value: Val,
    pub kind: WoojinValueKind,
    pub is_mut: bool,
}

impl View for WoojinVariable {
    type V = VarView;

    open spec fn view(&self) -> VarView {
        VarView { value: self.value@, kind: self.kind, is_mut: self.is_mut }
    }
}

/// Whether later assignment to a declared name is allowed.
#[derive(Debug, Clone, Copy, PartialEq, Eq, Structural)]
pub struct VariableOption {
    pub is_mut: bool,
}

impl VariableOption {
    /// An absent flag means "not mutable"; the second flag is accepted and ignored.
    pub fn new(is_mut: Option<bool>, is_const: Option<bool>) -> (r: VariableOption)
        ensures
            r.is_mut == (is_mut == Some(true)),
    {
        match is_mut {
            Some(b) => VariableOption { is_mut: b },
            None => VariableOption { is_mut: false },
        }
    }
}

/// A binding as the environment keeps it: its value is concrete (never a
/// variable reference) and its kind is the tag of that value.
pub open spec fn stored_ok(v: VarView) -> bool {
    !(v.value is Var) && v.kind == kind_of(v.value)
}

/// The bindings of an environment, by name.
pub type Bindings = Map<Seq<char>, VarView>;

/// Every binding is stored as an environment stores it.
pub open spec fn bindings_ok(m: Bindings) -> bool {
    forall|k: Seq<char>| m.contains_key(k) ==> stored_ok(#[trigger] m[k])
}

/// Declaring `name`: refused if it is declared already; otherwise bound to the
/// resolved value, with that value's kind.
pub open spec fn declare_spec(m: Bindings, name: Seq<char>, v: Val, is_mut: bool) -> Result<Bindings, WoojinErrorKind> {
    if m.contains_key(name) {
        Err(WoojinErrorKind::VariableAlreadyDeclared)
    } else {
        match resolve(v, m) {
            None => Err(WoojinErrorKind::UndeclaredVariable),
            Some(x) => Ok(m.insert(name, VarView { value: x, kind: kind_of(x), is_mut })),
        }
    }
}

/// Assigning to `name`: it must be declared, mutable, and the resolved value
/// must fit its declared kind; the kind and mutability stay.
pub open spec fn assign_spec(m: Bindings, name: Seq<char>, v: Val) -> Result<Bindings, WoojinErrorKind> {
    if !m.contains_key(name) {
        Err(WoojinErrorKind::UndeclaredVariable)
    } else if !m[name].is_mut {
        Err(WoojinErrorKind::VariableNotMutable)
    } else {
        match resolve(v, m) {
            None => Err(WoojinErrorKind::UndeclaredVariable),
            Some(x) => if fits(x, m[name].kind) {
                Ok(m.insert(name, VarView { value: x, kind: m[name].kind, is_mut: true }))
            } else {
                Err(WoojinErrorKind::TypeMismatch)
            },
        }
    }
}

/// A name declared without `mut` cannot be assigned: whatever value is
/// assigned, the assignment fails with `VariableNotMutable`, and the name
/// stays bound to the value it was declared with.
pub proof fn law_immutable_stays(m: Bindings, name: Seq<char>, v: Val, w: Val)
    requires
        declare_spec(m, name, v, false) is Ok,
    ensures
        assign_spec(declare_spec(m, name, v, false)->Ok_0, name, w)
            == Err::<Bindings, WoojinErrorKind>(WoojinErrorKind::VariableNotMutable),
        declare_spec(m, name, v, false)->Ok_0[name].value == resolve(v, m)->Some_0,
{
}

/// Assigning to a mutable name a value of another kind than the one it was
/// declared with fails with `TypeMismatch`.
pub proof fn law_assign_other_kind(m: Bindings, name: Seq<char>, v: Val, w: Val)
    requires
        bindings_ok(m),
        declare_spec(m, name, v, true) is Ok,
        resolve(w, declare_spec(m, name, v, true)->Ok_0) is Some,
        kind_of(resolve(w, declare_spec(m, name, v, true)->Ok_0)->Some_0) != kind_of(resolve(v, m)->Some_0),
    ensures
        assign_spec(declare_spec(m, name, v, true)->Ok_0, name, w)
            == Err::<Bindings, WoojinErrorKind>(WoojinErrorKind::TypeMismatch),
{
}

/// A name can be declared only once: a second declaration fails with
/// `VariableAlreadyDeclared`, whatever its value and mutability.
pub proof fn law_declare_once(m: Bindings, name: Seq<char>, v: Val, w: Val, a: bool, b: bool)
    requires
        declare_spec(m, name, v, a) is Ok,
    ensures
        declare_spec(declare_spec(m, name, v, a)->Ok_0, name, w, b)
            == Err::<Bindings, WoojinErrorKind>(WoojinErrorKind::VariableAlreadyDeclared),
{
}

/// Bindings listed in order of declaration, folded into a map.
pub open spec fn to_map(s: Seq<(Seq<char>, VarView)>) -> Map<Seq<char>, VarView>
    decreases s.len(),
{
    if s.len() == 0 {
        Map::empty()
    } else {
        to_map(s.drop_last()).insert(s.last().0, s.last().1)
    }
}

/// The environment: the names declared so far and what each is bound to.
pub struct Env {
    vars: Vec<(String, WoojinVariable)>,
}

impl View for Env {
    type V = Map<Seq<char>, VarView>;

    closed spec fn view(&self) -> Map<Seq<char>, VarView> {
        to_map(self.entries())
    }
}

impl Env {
    pub closed spec fn entries(&self) -> Seq<(Seq<char>, VarView)> {
        self.vars@.map_values(|e: (String, WoojinVariable)| (e.0@, e.1@))
    }

    /// Every name occurs once and every binding is stored as described.
    pub closed spec fn wf(&self) -> bool {
        &&& forall|i: int, j: int|
            0 <= i < j < self.vars@.len() ==> #[trigger] self.vars@[i].0@ != #[trigger] self.vars@[j].0@
        &&& forall|i: int| 0 <= i < self.vars@.len() ==> stored_ok(#[trigger] self.vars@[i].1@)
    }

    pub fn new() -> (r: Env)
        ensures
            r.wf(),
            r@ == Map::<Seq<char>, VarView>::empty(),
    {
        let r = Env { vars: Vec::new() };
        assert(r.entries() =~= Seq::empty());
        r
    }

    proof fn lemma_map_dom(s: Seq<(Seq<char>, VarView)>, k: Seq<char>)
        ensures
            to_map(s).contains_key(k) <==> exists|i: int| 0 <= i < s.len() && (#[trigger] s[i]).0 == k,
        decreases s.len(),
    {
        if s.len() > 0 {
            Self::lemma_map_dom(s.drop_last(), k);
            if to_map(s.drop_last()).contains_key(k) {
                let i = choose|i: int| 0 <= i < s.drop_last().len() && (#[trigger] s.drop_last()[i]).0 == k;
                assert(s[i] == s.drop_last()[i]);
            }
            if exists|i: int| 0 <= i < s.len() && (#[trigger] s[i]).0 == k {
                let i = choose|i: int| 0 <= i < s.len() && (#[trigger] s[i]).0 == k;
                if i < s.len() - 1 {
                    assert(s.drop_last()[i] == s[i]);
                }
            }
        }
    }

    proof fn lemma_map_at(s: Seq<(Seq<char>, VarView)>, i: int)
        requires
            0 <= i < s.len(),
            forall|a: int, b: int| 0 <= a < b < s.len() ==> #[trigger] s[a].0 != #[trigger] s[b].0,
        ensures
            to_map(s).contains_key(s[i].0),
            to_map(s)[s[i].0] == s[i].1,
        decreases s.len(),
    {
        if i < s.len() - 1 {
            let t = s.drop_last();
            assert forall|a: int, b: int| 0 <= a < b < t.len() implies #[trigger] t[a].0 != #[trigger] t[b].0 by {
                assert(t[a] == s[a] && t[b] == s[b]);
            }
            Self::lemma_map_at(t, i);
            assert(t[i] == s[i]);
            assert(s[i].0 != s[s.len() - 1].0);
        }
    }

    proof fn lemma_map_update(s: Seq<(Seq<char>, VarView)>, i: int, v: VarView)
        requires
            0 <= i < s.len(),
            forall|a: int, b: int| 0 <= a < b < s.len() ==> #[trigger] s[a].0 != #[trigger] s[b].0,
        ensures
            to_map(s.update(i, (s[i].0, v))) == to_map(s).insert(s[i].0, v),
        decreases s.len(),
    {
        let u = s.update(i, (s[i].0, v));
        if i == s.len() - 1 {
            assert(u.drop_last() =~= s.drop_last());
        } else {
            let t = s.drop_last();
            assert forall|a: int, b: int| 0 <= a < b < t.len() implies #[trigger] t[a].0 != #[trigger] t[b].0 by {
                assert(t[a] == s[a] && t[b] == s[b]);
            }
            Self::lemma_map_update(t, i, v);
            assert(u.drop_last() =~= t.update(i, (t[i].0, v)));
            assert(s[i].0 != s[s.len() - 1].0);
            assert(to_map(u) =~= to_map(s).insert(s[i].0, v));
        }
    }

    /// The position of `name`, if it is declared.
    fn find(&self, name: &String) -> (r: Option<usize>)
        ensures
            r is Some ==> r->Some_0 < self.vars@.len() && self.vars@[r->Some_0 as int].0@ == name@,
            r is None ==> forall|i: int| 0 <= i < self.vars@.len() ==> self.vars@[i].0@ != name@,
    {
        let mut i: usize = 0;
        while i < self.vars.len()
            invariant
                i <= self.vars@.len(),
                forall|j: int| 0 <= j < i ==> self.vars@[j].0@ != name@,
            decreases self.vars.len() - i,
        {
            if self.vars[i].0 == *name {
                return Some(i);
            }
            i = i + 1;
        }
        None
    }

    proof fn lemma_find(&self, name: Seq<char>, r: Option<usize>)
        requires
            self.wf(),
            r is Some ==> r->Some_0 < self.vars@.len() && self.vars@[r->Some_0 as int].0@ == name,
            r is None ==> forall|i: int| 0 <= i < self.vars@.len() ==> self.vars@[i].0@ != name,
        ensures
            self@.contains_key(name) == (r is Some),
            r is Some ==> self@[name] == self.vars@[r->Some_0 as int].1@,
            self@.contains_key(name) ==> stored_ok(self@[name]),
    {
        let s = self.entries();
        assert forall|a: int, b: int| 0 <= a < b < s.len() implies #[trigger] s[a].0 != #[trigger] s[b].0 by {
            assert(self.vars@[a].0@ != self.vars@[b].0@);
        }
        Self::lemma_map_dom(s, name);
        if r is Some {
            Self::lemma_map_at(s, r->Some_0 as int);
        } else {
            assert(!exists|i: int| 0 <= i < s.len() && (#[trigger] s[i]).0 == name);
        }
    }

    /// Whether `name` is declared.
    pub fn contains(&self, name: &str) -> (r: bool)
        requires
            self.wf(),
        ensures
            r == self@.contains_key(name@),
    {
        let key = String::from_str(name);
        let i = self.find(&key);
        proof { self.lemma_find(name@, i); }
        i.is_some()
    }

    /// The value bound to `name`.
    pub fn get_var(&self, name: &str) -> (r: Result<WoojinValue, WoojinError>)
        requires
            self.wf(),
        ensures
            r is Ok <==> self@.contains_key(name@),
            r is Ok ==> r->Ok_0@ == self@[name@].value && !(r->Ok_0@ is Var),
            r is Err ==> r->Err_0.kind == WoojinErrorKind::UndeclaredVariable,
    {
        let key = String::from_str(name);
        let i = self.find(&key);
        proof { self.lemma_find(name@, i); }
        match i {
            Some(i) => Ok(self.vars[i].1.value.duplicate()),
            None => {
                let mut m = String::from_str("Variable ");
                m.append(name);
                m.append(" is not declared");
                Err(WoojinError::with_details(m, WoojinErrorKind::UndeclaredVariable))
            },
        }
    }

    /// Binds a new name to a concrete value, with the value's own kind.
    pub fn dec_var(&mut self, name: &str, value: &WoojinValue, is_mut: bool) -> (r: Result<(), WoojinError>)
        requires
            old(self).wf(),
        ensures
            final(self).wf(),
            r is Ok <==> declare_spec(old(self)@, name@, value@, is_mut) is Ok,
            r is Ok ==> final(self)@ == declare_spec(old(self)@, name@, value@, is_mut)->Ok_0,
            r is Err ==> final(self)@ == old(self)@
                && declare_spec(old(self)@, name@, value@, is_mut) == Err::<Bindings, WoojinErrorKind>(r->Err_0.kind),
    {
        let key = String::from_str(name);
        let i = self.find(&key);
        proof { self.lemma_find(name@, i); }
        if i.is_some() {
            let mut m = String::from_str("Variable ");
            m.append(name);
            m.append(" is already declared");
            return Err(WoojinError::with_details(m, WoojinErrorKind::VariableAlreadyDeclared));
        }
        let value = value.value(self)?;
        let var = WoojinVariable { value: value.duplicate(), kind: value.kind_concrete(), is_mut };
        let ghost before = self.vars@;
        self.vars.push((key, var));
        proof {
            assert(self.entries() =~= old(self).entries().push((name@, var@)));
            assert(self.entries().drop_last() =~= old(self).entries());
            assert forall|a: int, b: int| 0 <= a < b < self.vars@.len() implies
                #[trigger] self.vars@[a].0@ != #[trigger] self.vars@[b].0@ by {
                if b == self.vars@.len() - 1 {
                    assert(self.vars@[a] == before[a]);
                } else {
                    assert(self.vars@[a] == before[a] && self.vars@[b] == before[b]);
                }
            }
            assert forall|a: int| 0 <= a < self.vars@.len() implies stored_ok(#[trigger] self.vars@[a].1@) by {
                if a < self.vars@.len() - 1 {
                    assert(self.vars@[a] == before[a]);
                }
            }
        }
        Ok(())
    }

    /// Replaces the value bound to `name`; the kind and mutability stay.
    pub fn change_var(&mut self, name: &str, value: &WoojinValue) -> (r: Result<(), WoojinError>)
        requires
            old(self).wf(),
        ensures
            final(self).wf(),
            r is Ok <==> assign_spec(old(self)@, name@, value@) is Ok,
            r is Ok ==> final(self)@ == assign_spec(old(self)@, name@, value@)->Ok_0,
            r is Err ==> final(self)@ == old(self)@
                && assign_spec(old(self)@, name@, value@) == Err::<Bindings, WoojinErrorKind>(r->Err_0.kind),
    {
        let key = String::from_str(name);
        let i = self.find(&key);
        proof { self.lemma_find(name@, i); }
        let i = match i {
            Some(i) => i,
            None => {
                let mut m = String::from_str("Variable ");
                m.append(name);
                m.append(" is not declared");
                return Err(WoojinError::with_details(m, WoojinErrorKind::UndeclaredVariable));
            },
        };
        if !self.vars[i].1.is_mut {
            let mut m = String::from_str("Variable ");
            m.append(name);
            m.append(" is not mutable");
            return Err(WoojinError::with_details(m, WoojinErrorKind::VariableNotMutable));
        }
        let kind = self.vars[i].1.kind;
        let value = value.value(self)?;
        if !value.type_eq_concrete(kind) {
            let mut m = String::from_str("Variable ");
            m.append(name);
            m.append(" is not ");
            m.append(value.kind_concrete().name().as_str());
            return Err(WoojinError::with_details(m, WoojinErrorKind::TypeMismatch));
        }
        let var = WoojinVariable { value: value.duplicate(), kind, is_mut: true };
        let ghost before = self.vars@;
        let ghost k = self.vars@[i as int].0;
        self.vars.set(i, (key, var));
        proof {
            assert(before[i as int].1@.kind == kind);
            assert(self.entries() =~= old(self).entries().update(i as int, (name@, var@)));
            let s = old(self).entries();
            assert forall|a: int, b: int| 0 <= a < b < s.len() implies #[trigger] s[a].0 != #[trigger] s[b].0 by {
                assert(before[a].0@ != before[b].0@);
            }
            Self::lemma_map_update(s, i as int, var@);
            assert forall|a: int, b: int| 0 <= a < b < self.vars@.len() implies
                #[trigger] self.vars@[a].0@ != #[trigger] self.vars@[b].0@ by {
                assert(before[a].0@ != before[b].0@);
            }
            assert forall|a: int| 0 <= a < self.vars@.len() implies stored_ok(#[trigger] self.vars@[a].1@) by {
                if a != i {
                    assert(self.vars@[a] == before[a]);
                }
            }
        }
        Ok(())
    }
}

} // verus!
