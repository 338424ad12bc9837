//! Values, and the environment that binds names to them.
use vstd::prelude::*;
use crate::LangError;
use crate::number::Number;
use crate::text::text_eq;

verus! {

/// The three kinds of value.
#[derive(Clone, Copy, Debug, PartialEq, Eq, Structural)]
pub enum Kind {
    Str,
    Num,
    Bool,
}

/// A value of the language.
#[derive(Debug)]
pub enum Value {
    Str(Vec<char>),
    Num(Number),
    Bool(bool),
}

/// The mathematical form of a value.
pub enum SValue {
    Str(Seq<char>),
    Num(Number),
    Bool(bool),
}

impl View for Value {
    type V = SValue;

    open spec fn view(&self) -> SValue {
        match self {
            Value::Str(s) => SValue::Str(s@),
            Value::Num(x) => SValue::Num(*x),
            Value::Bool(b) => SValue::Bool(*b),
        }
    }
}

pub open spec fn kind_of(v: SValue) -> Kind {
    match v {
        SValue::Str(_) => Kind::Str,
        SValue::Num(_) => Kind::Num,
        SValue::Bool(_) => Kind::Bool,
    }
}

pub fn copy_text(v: &Vec<char>) -> (r: Vec<char>)
    ensures
        r@ == v@,
{
    let r = v.clone();
    assert(r@ =~= v@);
    r
}

impl Value {
    pub fn kind(&self) -> (k: Kind)
        ensures
            k == kind_of(self@),
    {
        match self {
            Value::Str(_) => Kind::Str,
            Value::Num(_) => Kind::Num,
            Value::Bool(_) => Kind::Bool,
        }
    }

    pub fn copy(&self) -> (r: Value)
        ensures
            r@ == self@,
    {
        match self {
            Value::Str(s) => Value::Str(copy_text(s)),
            Value::Num(x) => Value::Num(*x),
            Value::Bool(b) => Value::Bool(*b),
        }
    }
}

/// A name bound to a value; `constant` where it may not be bound again.
#[derive(Debug)]
pub struct Binding {
    pub name: Vec<char>,
    pub value: Value,
    pub constant: bool,
}

/// What one binding holds: name, value, and whether it is constant.
pub type Entry = (Seq<char>, SValue, bool);

impl View for Binding {
    type V = Entry;

    open spec fn view(&self) -> Entry {
        (self.name@, self.value@, self.constant)
    }
}

/// The position of the binding of `name` at or after `i`.
pub open spec fn find_from(env: Seq<Entry>, name: Seq<char>, i: int) -> Option<int>
    decreases env.len() - i,
{
    if i < 0 || i >= env.len() {
        None
    } else if env[i].0 == name {
        Some(i)
    } else {
        find_from(env, name, i + 1)
    }
}

proof fn lemma_find_from_first(env: Seq<Entry>, name: Seq<char>, i: int)
    requires
        0 <= i,
    ensures
        match find_from(env, name, i) {
            Some(k) => i <= k < env.len() && env[k].0 == name && forall|j: int|
                i <= j < k ==> #[trigger] env[j].0 != name,
            None => forall|j: int| i <= j < env.len() ==> #[trigger] env[j].0 != name,
        },
    decreases env.len() - i,
{
    if i < env.len() && env[i].0 != name {
        lemma_find_from_first(env, name, i + 1);
    }
}

proof fn lemma_find_from_at(env: Seq<Entry>, name: Seq<char>, i: int, k: int)
    requires
        0 <= i <= k < env.len(),
        env[k].0 == name,
        forall|j: int| i <= j < k ==> #[trigger] env[j].0 != name,
    ensures
        find_from(env, name, i) == Some(k),
    decreases k - i,
{
    if i < k {
        lemma_find_from_at(env, name, i + 1, k);
    }
}

/// After `name` is bound to `v`, looking `name` up finds `v`.
pub proof fn lemma_lookup_set(env: Seq<Entry>, name: Seq<char>, v: SValue, constant: bool)
    ensures
        lookup(set(env, name, v, constant), name) == Some((v, constant)),
{
    lemma_find_from_first(env, name, 0);
    let e2 = set(env, name, v, constant);
    match find_from(env, name, 0) {
        Some(k) => {
            assert forall|j: int| 0 <= j < k implies #[trigger] e2[j].0 != name by {
                assert(e2[j] == env[j]);
            }
            lemma_find_from_at(e2, name, 0, k);
        },
        None => {
            assert forall|j: int| 0 <= j < env.len() implies #[trigger] e2[j].0 != name by {
                assert(e2[j] == env[j]);
            }
            lemma_find_from_at(e2, name, 0, env.len() as int);
        },
    }
}

/// The value bound to `name`, and whether it is constant.
pub open spec fn lookup(env: Seq<Entry>, name: Seq<char>) -> Option<(SValue, bool)> {
    match find_from(env, name, 0) {
        Some(k) => Some((env[k].1, env[k].2)),
        None => None,
    }
}

/// `env` with `name` bound to `v`, in place of any earlier binding.
pub open spec fn set(env: Seq<Entry>, name: Seq<char>, v: SValue, constant: bool) -> Seq<Entry> {
    match find_from(env, name, 0) {
        Some(k) => env.update(k, (name, v, constant)),
        None => env.push((name, v, constant)),
    }
}

/// The rules of declaration. A constant is never bound again; a name keeps
/// its kind; a `const` may not reuse a name that is bound already.
pub open spec fn declare(env: Seq<Entry>, constant: bool, name: Seq<char>, v: SValue) -> Result<
    Seq<Entry>,
    LangError,
> {
    match lookup(env, name) {
        None => Ok(set(env, name, v, constant)),
        Some((old, was_constant)) => {
            if was_constant {
                Err(LangError::ConstReassignError)
            } else if kind_of(old) != kind_of(v) {
                Err(LangError::TypeConflictError)
            } else if constant {
                Err(LangError::ConstReassignError)
            } else {
                Ok(set(env, name, v, false))
            }
        },
    }
}

/// Once `name` is declared constant, every later declaration of `name`,
/// of any kind and by `let` or `const`, fails as a reassignment of a constant.
pub proof fn lemma_constant_is_final(
    env: Seq<Entry>,
    name: Seq<char>,
    v: SValue,
    constant: bool,
    w: SValue,
)
    requires
        declare(env, true, name, v) is Ok,
    ensures
        declare(declare(env, true, name, v)->Ok_0, constant, name, w) == Err::<
            Seq<Entry>,
            LangError,
        >(LangError::ConstReassignError),
{
    lemma_lookup_set(env, name, v, true);
}

/// A name keeps its kind: once `let` has bound it to a value of one kind, a
/// declaration with a value of another kind fails as a type conflict.
pub proof fn lemma_kind_is_kept(
    env: Seq<Entry>,
    name: Seq<char>,
    v: SValue,
    constant: bool,
    w: SValue,
)
    requires
        declare(env, false, name, v) is Ok,
        kind_of(v) != kind_of(w),
    ensures
        declare(declare(env, false, name, v)->Ok_0, constant, name, w) == Err::<
            Seq<Entry>,
            LangError,
        >(LangError::TypeConflictError),
{
    lemma_lookup_set(env, name, v, false);
}

/// A successful declaration binds the name to the declared value.
pub proof fn lemma_declared_value_is_bound(
    env: Seq<Entry>,
    constant: bool,
    name: Seq<char>,
    v: SValue,
)
    requires
        declare(env, constant, name, v) is Ok,
    ensures
        lookup(declare(env, constant, name, v)->Ok_0, name) matches Some((x, _)) && x == v,
{
    lemma_lookup_set(env, name, v, constant);
    lemma_lookup_set(env, name, v, false);
}

/// The variables of a scope.
#[derive(Debug)]
pub struct Env {
    bindings: Vec<Binding>,
}

impl View for Env {
    type V = Seq<Entry>;

    closed spec fn view(&self) -> Seq<Entry> {
        self.bindings@.map_values(|b: Binding| b@)
    }
}

impl Env {
    proof fn lemma_view(&self)
        ensures
            self@.len() == self.bindings@.len(),
            forall|i: int| 0 <= i < self@.len() ==> #[trigger] self@[i] == self.bindings@[i]@,
    {
    }

    /// An environment with nothing bound.
    pub fn new() -> (r: Env)
        ensures
            r@ == Seq::<Entry>::empty(),
    {
        let r = Env { bindings: Vec::new() };
        assert(r@ =~= Seq::<Entry>::empty());
        r
    }

    /// A copy of this environment, for a block to change.
    pub fn duplicate(&self) -> (r: Env)
        ensures
            r@ == self@,
    {
        proof {
            self.lemma_view();
        }
        let mut out: Vec<Binding> = Vec::new();
        let mut i: usize = 0;
        while i < self.bindings.len()
            invariant
                i <= self.bindings@.len(),
                self@.len() == self.bindings@.len(),
                out@.len() == i,
                forall|j: int| 0 <= j < i ==> #[trigger] out@[j]@ == self@[j],
            decreases self.bindings@.len() - i,
        {
            let b = &self.bindings[i];
            assert(self@[i as int] == b@);
            out.push(Binding { name: copy_text(&b.name), value: b.value.copy(), constant: b.constant });
            i = i + 1;
        }
        let r = Env { bindings: out };
        proof {
            r.lemma_view();
        }
        assert(r@ =~= self@);
        r
    }

    /// The number of bindings.
    pub fn len(&self) -> (r: usize)
        ensures
            r == self@.len(),
    {
        proof {
            self.lemma_view();
        }
        self.bindings.len()
    }

    /// The name and value of the `i`-th binding.
    pub fn entry(&self, i: usize) -> (r: (&Vec<char>, &Value))
        requires
            i < self@.len(),
        ensures
            r.0@ == self@[i as int].0,
            r.1@ == self@[i as int].1,
    {
        proof {
            self.lemma_view();
        }
        let b = &self.bindings[i];
        (&b.name, &b.value)
    }

    /// The position of the binding of `name`.
    pub fn find(&self, name: &Vec<char>) -> (r: Option<usize>)
        ensures
            match r {
                Some(k) => find_from(self@, name@, 0) == Some(k as int) && k < self@.len(),
                None => find_from(self@, name@, 0) is None,
            },
    {
        proof {
            self.lemma_view();
        }
        let mut i: usize = 0;
        while i < self.bindings.len()
            invariant
                i <= self.bindings@.len(),
                self@.len() == self.bindings@.len(),
                forall|i: int| 0 <= i < self@.len() ==> #[trigger] self@[i] == self.bindings@[i]@,
                find_from(self@, name@, 0) == find_from(self@, name@, i as int),
            decreases self.bindings@.len() - i,
        {
            if text_eq(&self.bindings[i].name, name) {
                assert(self@[i as int].0 == name@);
                return Some(i);
            }
            i = i + 1;
        }
        None
    }

    /// The value bound to `name`, if any.
    pub fn get(&self, name: &Vec<char>) -> (r: Option<&Value>)
        ensures
            match r {
                Some(v) => lookup(self@, name@) matches Some(p) && p.0 == v@,
                None => lookup(self@, name@) is None,
            },
    {
        proof {
            self.lemma_view();
        }
        match self.find(name) {
            Some(k) => Some(&self.bindings[k].value),
            None => None,
        }
    }

    fn set(&mut self, name: Vec<char>, v: Value, constant: bool)
        ensures
            final(self)@ == set(old(self)@, name@, v@, constant),
    {
        let ghost name_view = name@;
        proof {
            old(self).lemma_view();
        }
        match self.find(&name) {
            Some(k) => {
                self.bindings.set(k, Binding { name, value: v, constant });
                proof {
                    final(self).lemma_view();
                }
                assert(final(self)@ =~= set(old(self)@, name_view, v@, constant));
            },
            None => {
                self.bindings.push(Binding { name, value: v, constant });
                proof {
                    final(self).lemma_view();
                }
                assert(final(self)@ =~= set(old(self)@, name_view, v@, constant));
            },
        }
    }

    /// Binds `name` to `v` where the rules of declaration allow it.
    pub fn declare(&mut self, constant: bool, name: Vec<char>, v: Value) -> (r: Result<
        (),
        LangError,
    >)
        ensures
            match declare(old(self)@, constant, name@, v@) {
                Ok(e) => r is Ok && final(self)@ == e,
                Err(err) => r == Err::<(), LangError>(err) && final(self)@ == old(self)@,
            },
    {
        match self.find(&name) {
            None => {
                self.set(name, v, constant);
                Ok(())
            },
            Some(k) => {
                proof {
                    self.lemma_view();
                }
                let b = &self.bindings[k];
                assert(self@[k as int] == b@);
                if b.constant {
                    Err(LangError::ConstReassignError)
                } else if b.value.kind() != v.kind() {
                    Err(LangError::TypeConflictError)
                } else if constant {
                    Err(LangError::ConstReassignError)
                } else {
                    self.set(name, v, false);
                    Ok(())
                }
            },
        }
    }
}

} // verus!
