//! Lox values and the environment that binds names to them.
use vstd::prelude::*;
use crate::runtime_error::{ErrV, RuntimeError};
use crate::syntax_trees::{FunV, Function};
use crate::text::{str_eq, SmartString};

verus! {

/// A Lox value.
#[derive(Debug)]
pub enum LoxObject {
    /// A number, by its IEEE-754 bits.
    Float(u64),
    String(SmartString),
    Bool(bool),
    Nil,
    /// A function declared in the global scope.
    Function(Function),
    /// A function declared in a nested scope, with the environment as it
    /// stood where it was declared.
    Closure { declaration: Function, env: Environment },
}

/// A name bound to a value, or to nothing yet.
#[derive(Debug)]
pub struct Binding {
    name: SmartString,
    value: Option<LoxObject>,
}

/// The variables in scope: the global scope, and the nested scopes from the
/// outermost to the innermost. Each scope is a list of bindings searched by
/// name and read as a map from names to values (`env_view`): a name is a
/// string, and the specifications of the standard hash maps state what their
/// operations do only for keys such as integers, whose equality and hash
/// Verus knows.
#[derive(Debug)]
pub struct Environment {
    global: Vec<Binding>,
    scopes: Vec<Vec<Binding>>,
}

/// What a value is.
pub enum ValV {
    Float(u64),
    String(Seq<char>),
    Bool(bool),
    Nil,
    Function(FunV),
    Closure(FunV, EnvV),
}

/// A scope: each name bound in it, to a value or to nothing yet.
pub type ScopeV = Map<Seq<char>, Option<ValV>>;

/// What an environment is: the global scope and the nested scopes, the
/// innermost last.
pub struct EnvV {
    pub global: ScopeV,
    pub scopes: Seq<ScopeV>,
}

/// What a value is.
pub open spec fn val_view(o: LoxObject) -> ValV
    decreases o,
{
    match o {
        LoxObject::Float(x) => ValV::Float(x),
        LoxObject::String(s) => ValV::String(s@),
        LoxObject::Bool(b) => ValV::Bool(b),
        LoxObject::Nil => ValV::Nil,
        LoxObject::Function(f) => ValV::Function(f@),
        LoxObject::Closure { declaration, env } => ValV::Closure(declaration@, env_view(env)),
    }
}

/// What an optional value is.
pub open spec fn opt_val_view(o: Option<LoxObject>) -> Option<ValV>
    decreases o,
{
    match o {
        Some(x) => Some(val_view(x)),
        None => None,
    }
}

/// The scope that a sequence of bindings makes: where a name is bound more
/// than once, the first binding counts.
pub closed spec fn bindings_view(b: Seq<Binding>) -> ScopeV
    decreases b,
{
    if b.len() == 0 {
        Map::empty()
    } else {
        let rest = bindings_view(b.drop_last());
        let last = b.last();
        if rest.contains_key(last.name@) {
            rest
        } else {
            rest.insert(last.name@, opt_val_view(last.value))
        }
    }
}

/// The scopes that a sequence of binding vectors makes.
pub closed spec fn scopes_view(s: Seq<Vec<Binding>>) -> Seq<ScopeV>
    decreases s,
{
    if s.len() == 0 {
        Seq::empty()
    } else {
        scopes_view(s.drop_last()).push(bindings_view(s.last()@))
    }
}

/// What an environment is.
pub closed spec fn env_view(e: Environment) -> EnvV
    decreases e,
{
    EnvV { global: bindings_view(e.global@), scopes: scopes_view(e.scopes@) }
}

impl View for LoxObject {
    type V = ValV;

    open spec fn view(&self) -> ValV {
        val_view(*self)
    }
}

impl View for Environment {
    type V = EnvV;

    open spec fn view(&self) -> EnvV {
        env_view(*self)
    }
}

// ---------------------------------------------------------------------------
// What the environment operations do.

/// The value bound to `k` in the innermost of the scopes that binds it.
pub open spec fn scopes_lookup(scopes: Seq<ScopeV>, k: Seq<char>) -> Option<Option<ValV>>
    decreases scopes.len(),
{
    if scopes.len() == 0 {
        None
    } else if scopes.last().contains_key(k) {
        Some(scopes.last()[k])
    } else {
        scopes_lookup(scopes.drop_last(), k)
    }
}

/// Reading a variable: the innermost nested scope that binds it, else the
/// global scope; `Undefined` where none does.
pub open spec fn env_get(e: EnvV, k: Seq<char>) -> Result<Option<ValV>, ErrV> {
    match scopes_lookup(e.scopes, k) {
        Some(v) => Ok(v),
        None => env_get_global(e, k),
    }
}

/// Reading a variable of the global scope.
pub open spec fn env_get_global(e: EnvV, k: Seq<char>) -> Result<Option<ValV>, ErrV> {
    if e.global.contains_key(k) {
        Ok(e.global[k])
    } else {
        Err(ErrV::Undefined(k))
    }
}

/// Defining a variable: in the innermost scope, the global one where no
/// scope is nested.
pub open spec fn env_define(e: EnvV, k: Seq<char>, v: Option<ValV>) -> EnvV {
    if e.scopes.len() == 0 {
        EnvV { global: e.global.insert(k, v), ..e }
    } else {
        EnvV { scopes: e.scopes.update(e.scopes.len() - 1, e.scopes.last().insert(k, v)), ..e }
    }
}

/// Assigning to a variable of the nested scopes: the innermost that binds it
/// is updated; nothing where none does.
pub open spec fn scopes_assign(scopes: Seq<ScopeV>, k: Seq<char>, v: ValV) -> Option<Seq<ScopeV>>
    decreases scopes.len(),
{
    if scopes.len() == 0 {
        None
    } else if scopes.last().contains_key(k) {
        Some(scopes.update(scopes.len() - 1, scopes.last().insert(k, Some(v))))
    } else {
        match scopes_assign(scopes.drop_last(), k, v) {
            Some(s) => Some(s.push(scopes.last())),
            None => None,
        }
    }
}

/// Assigning to a variable. Where scopes are nested, only they are searched:
/// a variable that none of them binds is `Undefined`, and nothing changes.
/// Where none is, the global scope takes the value, and the assignment is
/// `Undefined` where the variable was not bound before (it is bound after).
pub open spec fn env_assign(e: EnvV, k: Seq<char>, v: ValV) -> (EnvV, Result<(), ErrV>) {
    if e.scopes.len() == 0 {
        (
            EnvV { global: e.global.insert(k, Some(v)), ..e },
            if e.global.contains_key(k) {
                Ok(())
            } else {
                Err(ErrV::Undefined(k))
            },
        )
    } else {
        match scopes_assign(e.scopes, k, v) {
            Some(s) => (EnvV { scopes: s, ..e }, Ok(())),
            None => (e, Err(ErrV::Undefined(k))),
        }
    }
}

/// A new innermost scope, empty.
pub open spec fn env_add_scope(e: EnvV) -> EnvV {
    EnvV { scopes: e.scopes.push(Map::empty()), ..e }
}

/// The innermost scope left; nothing changes where no scope is nested.
pub open spec fn env_remove_scope(e: EnvV) -> EnvV {
    if e.scopes.len() == 0 {
        e
    } else {
        EnvV { scopes: e.scopes.drop_last(), ..e }
    }
}

/// The empty environment: an empty global scope and no nested one.
pub open spec fn env_empty() -> EnvV {
    EnvV { global: Map::empty(), scopes: Seq::empty() }
}

/// What a Lox value counts as in a condition: `false` and `nil` are false,
/// every other value is true.
pub open spec fn truthy(v: ValV) -> bool {
    !(v matches ValV::Bool(false)) && !(v matches ValV::Nil)
}

// ---------------------------------------------------------------------------
// Facts about the views.

proof fn lemma_bindings_first(b: Seq<Binding>, k: Seq<char>, i: int)
    requires
        0 <= i < b.len(),
        b[i].name@ == k,
        forall|j: int| 0 <= j < i ==> (#[trigger] b[j]).name@ != k,
    ensures
        bindings_view(b).contains_key(k),
        bindings_view(b)[k] == opt_val_view(b[i].value),
    decreases b.len(),
{
    if i < b.len() - 1 {
        lemma_bindings_first(b.drop_last(), k, i);
    } else {
        lemma_bindings_absent(b.drop_last(), k);
    }
}

proof fn lemma_bindings_absent(b: Seq<Binding>, k: Seq<char>)
    requires
        forall|j: int| 0 <= j < b.len() ==> (#[trigger] b[j]).name@ != k,
    ensures
        !bindings_view(b).contains_key(k),
    decreases b.len(),
{
    if b.len() > 0 {
        lemma_bindings_absent(b.drop_last(), k);
    }
}

proof fn lemma_bindings_update(b: Seq<Binding>, k: Seq<char>, i: int, nb: Binding)
    requires
        0 <= i < b.len(),
        b[i].name@ == k,
        nb.name@ == k,
        forall|j: int| 0 <= j < i ==> (#[trigger] b[j]).name@ != k,
    ensures
        bindings_view(b.update(i, nb)) == bindings_view(b).insert(k, opt_val_view(nb.value)),
    decreases b.len(),
{
    let u = b.update(i, nb);
    if i < b.len() - 1 {
        assert(u.drop_last() =~= b.drop_last().update(i, nb));
        lemma_bindings_update(b.drop_last(), k, i, nb);
        lemma_bindings_first(b.drop_last(), k, i);
        lemma_bindings_first(u.drop_last(), k, i);
        assert(bindings_view(u) =~= bindings_view(b).insert(k, opt_val_view(nb.value)));
    } else {
        assert(u.drop_last() =~= b.drop_last());
        lemma_bindings_absent(b.drop_last(), k);
        assert(bindings_view(u) =~= bindings_view(b).insert(k, opt_val_view(nb.value)));
    }
}

proof fn lemma_bindings_push(b: Seq<Binding>, k: Seq<char>, nb: Binding)
    requires
        nb.name@ == k,
        forall|j: int| 0 <= j < b.len() ==> (#[trigger] b[j]).name@ != k,
    ensures
        bindings_view(b.push(nb)) == bindings_view(b).insert(k, opt_val_view(nb.value)),
{
    assert(b.push(nb).drop_last() =~= b);
    lemma_bindings_absent(b, k);
}

proof fn lemma_scopes_view(s: Seq<Vec<Binding>>)
    ensures
        scopes_view(s).len() == s.len(),
        forall|i: int| 0 <= i < s.len() ==> #[trigger] scopes_view(s)[i] == bindings_view(s[i]@),
    decreases s.len(),
{
    if s.len() > 0 {
        lemma_scopes_view(s.drop_last());
    }
}

proof fn lemma_scopes_view_update(s: Seq<Vec<Binding>>, i: int, b: Vec<Binding>)
    requires
        0 <= i < s.len(),
    ensures
        scopes_view(s.update(i, b)) == scopes_view(s).update(i, bindings_view(b@)),
{
    lemma_scopes_view(s);
    lemma_scopes_view(s.update(i, b));
    assert(scopes_view(s.update(i, b)) =~= scopes_view(s).update(i, bindings_view(b@)));
}

proof fn lemma_scopes_view_push(s: Seq<Vec<Binding>>, b: Vec<Binding>)
    ensures
        scopes_view(s.push(b)) == scopes_view(s).push(bindings_view(b@)),
{
    assert(s.push(b).drop_last() =~= s);
}

proof fn lemma_scopes_view_drop_last(s: Seq<Vec<Binding>>)
    requires
        s.len() > 0,
    ensures
        scopes_view(s.drop_last()) == scopes_view(s).drop_last(),
{
}

proof fn lemma_lookup_below(s: Seq<ScopeV>, k: Seq<char>, i: int)
    requires
        0 <= i <= s.len(),
        forall|j: int| i <= j < s.len() ==> !(#[trigger] s[j]).contains_key(k),
    ensures
        scopes_lookup(s, k) == scopes_lookup(s.take(i), k),
    decreases s.len(),
{
    if i < s.len() {
        lemma_lookup_below(s.drop_last(), k, i);
        assert(s.drop_last().take(i) =~= s.take(i));
    } else {
        assert(s.take(i) =~= s);
    }
}

proof fn lemma_assign_at(s: Seq<ScopeV>, k: Seq<char>, v: ValV, i: int)
    requires
        0 <= i < s.len(),
        s[i].contains_key(k),
        forall|j: int| i < j < s.len() ==> !(#[trigger] s[j]).contains_key(k),
    ensures
        scopes_assign(s, k, v) == Some(s.update(i, s[i].insert(k, Some(v)))),
    decreases s.len(),
{
    if i < s.len() - 1 {
        lemma_assign_at(s.drop_last(), k, v, i);
        assert(s.drop_last().update(i, s[i].insert(k, Some(v))).push(s.last()) =~= s.update(
            i,
            s[i].insert(k, Some(v)),
        ));
    }
}

proof fn lemma_assign_none(s: Seq<ScopeV>, k: Seq<char>, v: ValV)
    requires
        forall|j: int| 0 <= j < s.len() ==> !(#[trigger] s[j]).contains_key(k),
    ensures
        scopes_assign(s, k, v) is None,
        scopes_lookup(s, k) is None,
    decreases s.len(),
{
    if s.len() > 0 {
        lemma_assign_none(s.drop_last(), k, v);
    }
}

// ---------------------------------------------------------------------------
// Copies.

impl LoxObject {
    /// A copy of the value.
    pub fn copy(&self) -> (r: LoxObject)
        ensures
            r@ == self@,
        decreases self,
    {
        match self {
            LoxObject::Float(x) => LoxObject::Float(*x),
            LoxObject::String(s) => LoxObject::String(s.copy()),
            LoxObject::Bool(b) => LoxObject::Bool(*b),
            LoxObject::Nil => LoxObject::Nil,
            LoxObject::Function(f) => LoxObject::Function(f.copy()),
            LoxObject::Closure { declaration, env } => LoxObject::Closure {
                declaration: declaration.copy(),
                env: env.copy(),
            },
        }
    }
}

/// A copy of an optional value.
pub fn copy_opt_value(o: &Option<LoxObject>) -> (r: Option<LoxObject>)
    ensures
        opt_val_view(r) == opt_val_view(*o),
    decreases o,
{
    match o {
        Some(x) => Some(x.copy()),
        None => None,
    }
}

fn copy_bindings(v: &Vec<Binding>) -> (r: Vec<Binding>)
    ensures
        bindings_view(r@) == bindings_view(v@),
    decreases v,
{
    let mut r: Vec<Binding> = Vec::new();
    let mut i: usize = 0;
    while i < v.len()
        invariant
            i <= v.len(),
            r@.len() == i,
            forall|j: int|
                0 <= j < i ==> (#[trigger] r@[j]).name@ == v@[j].name@ && opt_val_view(r@[j].value)
                    == opt_val_view(v@[j].value),
        decreases v.len() - i,
    {
        let value = copy_opt_value(&v[i].value);
        r.push(Binding { name: v[i].name.copy(), value });
        i = i + 1;
    }
    proof {
        lemma_bindings_same(r@, v@);
    }
    r
}

proof fn lemma_bindings_same(a: Seq<Binding>, b: Seq<Binding>)
    requires
        a.len() == b.len(),
        forall|j: int|
            0 <= j < a.len() ==> (#[trigger] a[j]).name@ == b[j].name@ && opt_val_view(a[j].value)
                == opt_val_view(b[j].value),
    ensures
        bindings_view(a) == bindings_view(b),
    decreases a.len(),
{
    if a.len() > 0 {
        lemma_bindings_same(a.drop_last(), b.drop_last());
    }
}

impl Environment {
    /// A copy of the environment.
    pub fn copy(&self) -> (r: Environment)
        ensures
            r@ == self@,
        decreases self,
    {
        let global = copy_bindings(&self.global);
        let mut scopes: Vec<Vec<Binding>> = Vec::new();
        let mut i: usize = 0;
        while i < self.scopes.len()
            invariant
                i <= self.scopes.len(),
                scopes@.len() == i,
                forall|j: int|
                    0 <= j < i ==> bindings_view((#[trigger] scopes@[j])@) == bindings_view(
                        self.scopes@[j]@,
                    ),
            decreases self.scopes.len() - i,
        {
            scopes.push(copy_bindings(&self.scopes[i]));
            i = i + 1;
        }
        proof {
            lemma_scopes_view(scopes@);
            lemma_scopes_view(self.scopes@);
            assert(scopes_view(scopes@) =~= scopes_view(self.scopes@));
        }
        Environment { global, scopes }
    }
}

// ---------------------------------------------------------------------------
// The environment operations.

/// What a read of a variable gives.
pub open spec fn opt_result_view(r: Result<Option<LoxObject>, RuntimeError>) -> Result<
    Option<ValV>,
    ErrV,
> {
    match r {
        Ok(v) => Ok(opt_val_view(v)),
        Err(e) => Err(e@),
    }
}

/// What an assignment gives.
pub open spec fn unit_result_view(r: Result<(), RuntimeError>) -> Result<(), ErrV> {
    match r {
        Ok(()) => Ok(()),
        Err(e) => Err(e@),
    }
}

/// The first binding of `key` in `b`.
fn find(b: &Vec<Binding>, key: &str) -> (r: Option<usize>)
    ensures
        match r {
            Some(i) => i < b@.len() && b@[i as int].name@ == key@ && forall|j: int|
                0 <= j < i ==> (#[trigger] b@[j]).name@ != key@,
            None => forall|j: int| 0 <= j < b@.len() ==> (#[trigger] b@[j]).name@ != key@,
        },
{
    let mut i: usize = 0;
    while i < b.len()
        invariant
            i <= b.len(),
            forall|j: int| 0 <= j < i ==> (#[trigger] b@[j]).name@ != key@,
        decreases b.len() - i,
    {
        if str_eq(b[i].name.as_str(), key) {
            return Some(i);
        }
        i = i + 1;
    }
    None
}

/// A copy of what `key` is bound to in `b`, if it is bound.
fn lookup(b: &Vec<Binding>, key: &str) -> (r: Option<Option<LoxObject>>)
    ensures
        match r {
            Some(v) => bindings_view(b@).contains_key(key@) && bindings_view(b@)[key@]
                == opt_val_view(v),
            None => !bindings_view(b@).contains_key(key@),
        },
{
    match find(b, key) {
        Some(i) => {
            proof {
                lemma_bindings_first(b@, key@, i as int);
            }
            Some(copy_opt_value(&b[i].value))
        },
        None => {
            proof {
                lemma_bindings_absent(b@, key@);
            }
            None
        },
    }
}

/// Binds `key` to `value` in `b`, in place of a binding it had.
fn define_in(b: &mut Vec<Binding>, key: &str, value: Option<LoxObject>)
    ensures
        bindings_view(final(b)@) == bindings_view(old(b)@).insert(key@, opt_val_view(value)),
{
    match find(b, key) {
        Some(i) => {
            let name = b[i].name.copy();
            let nb = Binding { name, value };
            proof {
                lemma_bindings_update(b@, key@, i as int, nb);
            }
            b.set(i, nb);
        },
        None => {
            let nb = Binding { name: SmartString::from(key), value };
            proof {
                lemma_bindings_push(b@, key@, nb);
            }
            b.push(nb);
        },
    }
}

impl Environment {
    /// An environment with an empty global scope and no nested one.
    pub fn new() -> (r: Environment)
        ensures
            r@ == env_empty(),
    {
        let r = Environment { global: Vec::new(), scopes: Vec::new() };
        assert(r@.global =~= Map::empty());
        r
    }

    /// Whether no scope is nested in the global one.
    pub fn global(&self) -> (r: bool)
        ensures
            r == (self@.scopes.len() == 0),
    {
        proof {
            lemma_scopes_view(self.scopes@);
        }
        self.scopes.len() == 0
    }

    /// A copy of what a variable is bound to: in the innermost nested scope
    /// that binds it, else in the global scope.
    pub fn get(&self, key: &str) -> (r: Result<Option<LoxObject>, RuntimeError>)
        ensures
            opt_result_view(r) == env_get(self@, key@),
    {
        let ghost s = scopes_view(self.scopes@);
        proof {
            lemma_scopes_view(self.scopes@);
        }
        let mut i: usize = self.scopes.len();
        while i > 0
            invariant
                i <= self.scopes@.len(),
                s == scopes_view(self.scopes@),
                s.len() == self.scopes@.len(),
                forall|j: int| 0 <= j < s.len() ==> #[trigger] s[j] == bindings_view(self.scopes@[j]@),
                forall|j: int| i <= j < s.len() ==> !(#[trigger] s[j]).contains_key(key@),
            decreases i,
        {
            i = i - 1;
            match lookup(&self.scopes[i], key) {
                Some(v) => {
                    proof {
                        lemma_lookup_below(s, key@, i + 1);
                        assert(s.take(i + 1).drop_last() =~= s.take(i as int));
                    }
                    return Ok(v);
                },
                None => {},
            }
        }
        proof {
            lemma_lookup_below(s, key@, 0);
        }
        self.get_global(key)
    }

    /// A copy of what a variable of the global scope is bound to.
    pub fn get_global(&self, key: &str) -> (r: Result<Option<LoxObject>, RuntimeError>)
        ensures
            opt_result_view(r) == env_get_global(self@, key@),
    {
        match lookup(&self.global, key) {
            Some(v) => Ok(v),
            None => Err(RuntimeError::Undefined(SmartString::from(key))),
        }
    }

    /// Binds a variable in the innermost scope, the global one where no scope
    /// is nested; a binding of the same name there is replaced.
    pub fn define(&mut self, key: &str, value: Option<LoxObject>)
        ensures
            final(self)@ == env_define(old(self)@, key@, opt_val_view(value)),
    {
        proof {
            lemma_scopes_view(self.scopes@);
        }
        let n = self.scopes.len();
        if n == 0 {
            define_in(&mut self.global, key, value);
        } else {
            let mut last = self.scopes.pop().unwrap();
            define_in(&mut last, key, value);
            let ghost before = self.scopes@;
            self.scopes.push(last);
            proof {
                lemma_scopes_view_push(before, last);
                lemma_scopes_view_drop_last(old(self).scopes@);
                assert(before =~= old(self).scopes@.drop_last());
                assert(scopes_view(self.scopes@) =~= old(self)@.scopes.update(
                    old(self)@.scopes.len() - 1,
                    old(self)@.scopes.last().insert(key@, opt_val_view(value)),
                ));
            }
        }
    }

    /// Assigns to a variable (see `env_assign` for which scopes are searched).
    pub fn assign(&mut self, key: &str, value: LoxObject) -> (r: Result<(), RuntimeError>)
        ensures
            (final(self)@, unit_result_view(r)) == env_assign(old(self)@, key@, value@),
    {
        let ghost s = scopes_view(self.scopes@);
        proof {
            lemma_scopes_view(self.scopes@);
        }
        let n = self.scopes.len();
        if n == 0 {
            let had = match find(&self.global, key) {
                Some(i) => {
                    proof {
                        lemma_bindings_first(self.global@, key@, i as int);
                    }
                    true
                },
                None => {
                    proof {
                        lemma_bindings_absent(self.global@, key@);
                    }
                    false
                },
            };
            define_in(&mut self.global, key, Some(value));
            if had {
                Ok(())
            } else {
                Err(RuntimeError::Undefined(SmartString::from(key)))
            }
        } else {
            let mut i: usize = n;
            while i > 0
                invariant
                    i <= n,
                    n == self.scopes@.len(),
                    self == old(self),
                    s == scopes_view(self.scopes@),
                    s.len() == n,
                    forall|j: int| 0 <= j < n ==> #[trigger] s[j] == bindings_view(self.scopes@[j]@),
                    forall|j: int| i <= j < n ==> !(#[trigger] s[j]).contains_key(key@),
                decreases i,
            {
                i = i - 1;
                if lookup(&self.scopes[i], key).is_some() {
                    let mut scope = self.scopes.remove(i);
                    define_in(&mut scope, key, Some(value));
                    let ghost rest = self.scopes@;
                    self.scopes.insert(i, scope);
                    proof {
                        assert(self.scopes@ =~= old(self).scopes@.update(i as int, scope));
                        lemma_scopes_view_update(old(self).scopes@, i as int, scope);
                        lemma_assign_at(s, key@, value@, i as int);
                    }
                    return Ok(());
                }
            }
            proof {
                lemma_assign_none(s, key@, value@);
            }
            Err(RuntimeError::Undefined(SmartString::from(key)))
        }
    }

    /// Nests a new, empty scope.
    pub fn add_scope(&mut self)
        ensures
            final(self)@ == env_add_scope(old(self)@),
    {
        let ghost before = self.scopes@;
        let v: Vec<Binding> = Vec::new();
        proof {
            lemma_scopes_view_push(before, v);
            assert(bindings_view(v@) =~= Map::empty());
        }
        self.scopes.push(v);
    }

    /// Leaves the innermost scope.
    pub fn remove_scope(&mut self)
        requires
            old(self)@.scopes.len() > 0,
        ensures
            final(self)@ == env_remove_scope(old(self)@),
    {
        proof {
            lemma_scopes_view(self.scopes@);
            lemma_scopes_view_drop_last(self.scopes@);
        }
        self.scopes.pop();
        proof {
            assert(self.scopes@ =~= old(self).scopes@.drop_last());
        }
    }

    /// Leaves the innermost scope, where one is nested.
    pub fn leave_scope(&mut self)
        ensures
            final(self)@ == env_remove_scope(old(self)@),
    {
        proof {
            lemma_scopes_view(self.scopes@);
        }
        if self.scopes.len() > 0 {
            self.remove_scope();
        }
    }

    /// The environment that a closure declared here keeps: a copy.
    pub fn as_closure(&self) -> (r: Environment)
        ensures
            r@ == self@,
    {
        self.copy()
    }
}

// ---------------------------------------------------------------------------
// Laws of the environment.

/// Reading a variable right after defining it gives the value it was
/// defined with.
pub proof fn law_get_after_define(e: EnvV, k: Seq<char>, v: Option<ValV>)
    ensures
        env_get(env_define(e, k, v), k) == Ok::<Option<ValV>, ErrV>(v),
{
}

/// Defining a variable leaves what every other name reads as it was.
pub proof fn law_define_keeps_others(e: EnvV, k: Seq<char>, other: Seq<char>, v: Option<ValV>)
    requires
        k != other,
    ensures
        env_get(env_define(e, k, v), other) == env_get(e, other),
{
    let d = env_define(e, k, v);
    if e.scopes.len() > 0 {
        assert(d.scopes.drop_last() =~= e.scopes.drop_last());
    }
}

/// A new scope hides nothing: every name reads as it did.
pub proof fn law_add_scope_hides_nothing(e: EnvV, k: Seq<char>)
    ensures
        env_get(env_add_scope(e), k) == env_get(e, k),
{
    assert(env_add_scope(e).scopes.drop_last() =~= e.scopes);
}

/// Leaving a scope undoes entering it, whatever was defined in it
/// meanwhile.
pub proof fn law_scope_is_undone(e: EnvV, k: Seq<char>, v: Option<ValV>)
    ensures
        env_remove_scope(env_add_scope(e)) == e,
        env_remove_scope(env_define(env_add_scope(e), k, v)) == e,
{
    assert(env_remove_scope(env_add_scope(e)).scopes =~= e.scopes);
    assert(env_remove_scope(env_define(env_add_scope(e), k, v)).scopes =~= e.scopes);
}

proof fn lemma_assign_reads_back(s: Seq<ScopeV>, k: Seq<char>, v: ValV)
    requires
        scopes_assign(s, k, v) is Some,
    ensures
        scopes_lookup(scopes_assign(s, k, v)->0, k) == Some(Some(v)),
    decreases s.len(),
{
    let s2 = scopes_assign(s, k, v)->0;
    if s.last().contains_key(k) {
        assert(s2.last() == s.last().insert(k, Some(v)));
    } else {
        lemma_assign_reads_back(s.drop_last(), k, v);
        let t = scopes_assign(s.drop_last(), k, v)->0;
        assert(s2.drop_last() =~= t);
    }
}

/// An assignment succeeds exactly when the variable is bound where the
/// assignment searches: in a nested scope where one is nested, else in the
/// global scope.
pub proof fn law_assign_succeeds_when_bound(e: EnvV, k: Seq<char>, v: ValV)
    ensures
        (env_assign(e, k, v).1 is Ok) == (if e.scopes.len() == 0 {
            e.global.contains_key(k)
        } else {
            scopes_lookup(e.scopes, k) is Some
        }),
{
    if e.scopes.len() > 0 {
        lemma_assign_found(e.scopes, k, v);
    }
}

proof fn lemma_assign_found(s: Seq<ScopeV>, k: Seq<char>, v: ValV)
    ensures
        (scopes_assign(s, k, v) is Some) == (scopes_lookup(s, k) is Some),
    decreases s.len(),
{
    if s.len() > 0 && !s.last().contains_key(k) {
        lemma_assign_found(s.drop_last(), k, v);
    }
}

/// Reading a variable right after assigning to it gives the value assigned.
pub proof fn law_get_after_assign(e: EnvV, k: Seq<char>, v: ValV)
    requires
        env_assign(e, k, v).1 is Ok,
    ensures
        env_get(env_assign(e, k, v).0, k) == Ok::<Option<ValV>, ErrV>(Some(v)),
{
    if e.scopes.len() > 0 {
        lemma_assign_reads_back(e.scopes, k, v);
    }
}

/// A failed assignment in a nested scope changes nothing.
pub proof fn law_failed_assign_keeps_scopes(e: EnvV, k: Seq<char>, v: ValV)
    requires
        e.scopes.len() > 0,
        env_assign(e, k, v).1 is Err,
    ensures
        env_assign(e, k, v).0 == e,
{
}


/// A step that a program takes on its environment: a definition, or an
/// assignment.
pub enum EnvStep {
    Define(Seq<char>, Option<ValV>),
    Assign(Seq<char>, ValV),
}

/// The environment once the steps are taken, in order.
pub open spec fn take_steps(e: EnvV, steps: Seq<EnvStep>) -> EnvV
    decreases steps.len(),
{
    if steps.len() == 0 {
        e
    } else {
        let p = take_steps(e, steps.drop_last());
        match steps.last() {
            EnvStep::Define(k, v) => env_define(p, k, v),
            EnvStep::Assign(k, v) => env_assign(p, k, v).0,
        }
    }
}

/// Whether a step defines the name.
pub open spec fn defines_name(step: EnvStep, k: Seq<char>) -> bool {
    step matches EnvStep::Define(n, _) && n == k
}

/// Whether one of the steps defines the name.
pub open spec fn defines(steps: Seq<EnvStep>, k: Seq<char>) -> bool {
    exists|i: int| 0 <= i < steps.len() && #[trigger] defines_name(steps[i], k)
}

/// The steps, taken in a scope entered before them, that reach past it: the
/// assignments to names that the scope has not defined by then.
pub open spec fn outer_steps(steps: Seq<EnvStep>) -> Seq<EnvStep>
    decreases steps.len(),
{
    if steps.len() == 0 {
        Seq::empty()
    } else {
        let p = outer_steps(steps.drop_last());
        match steps.last() {
            EnvStep::Define(_, _) => p,
            EnvStep::Assign(k, v) => if defines(steps.drop_last(), k) {
                p
            } else {
                p.push(EnvStep::Assign(k, v))
            },
        }
    }
}

proof fn lemma_scopes_assign_len(s: Seq<ScopeV>, k: Seq<char>, v: ValV)
    requires
        scopes_assign(s, k, v) is Some,
    ensures
        scopes_assign(s, k, v)->0.len() == s.len(),
    decreases s.len(),
{
    if !s.last().contains_key(k) {
        lemma_scopes_assign_len(s.drop_last(), k, v);
    }
}

proof fn lemma_steps_in_scope(e: EnvV, steps: Seq<EnvStep>)
    requires
        e.scopes.len() > 0,
    ensures
        take_steps(env_add_scope(e), steps).global == e.global,
        take_steps(e, outer_steps(steps)).global == e.global,
        take_steps(e, outer_steps(steps)).scopes.len() == e.scopes.len(),
        take_steps(env_add_scope(e), steps).scopes == take_steps(
            e,
            outer_steps(steps),
        ).scopes.push(take_steps(env_add_scope(e), steps).scopes.last()),
        forall|k: Seq<char>|
            #![trigger take_steps(env_add_scope(e), steps).scopes.last().contains_key(k)]
            take_steps(env_add_scope(e), steps).scopes.last().contains_key(k) <==> defines(
                steps,
                k,
            ),
    decreases steps.len(),
{
    let x = take_steps(env_add_scope(e), steps);
    if steps.len() == 0 {
        assert(env_add_scope(e).scopes =~= e.scopes.push(Map::empty()));
        assert(outer_steps(steps) =~= Seq::<EnvStep>::empty());
        assert forall|k: Seq<char>| x.scopes.last().contains_key(k) <==> defines(steps, k) by {
            assert(x.scopes.last() == Map::<Seq<char>, Option<ValV>>::empty());
        }
    } else {
        let pre = steps.drop_last();
        let last = steps.len() - 1;
        lemma_steps_in_scope(e, pre);
        let xp = take_steps(env_add_scope(e), pre);
        let yp = take_steps(e, outer_steps(pre));
        let inner = xp.scopes.last();
        assert(xp.scopes.drop_last() =~= yp.scopes);
        assert(steps[last] == steps.last());
        assert forall|n: Seq<char>| defines(steps, n) <==> (defines(pre, n) || defines_name(steps[last], n)) by {
            if defines(pre, n) {
                let i = choose|i: int| 0 <= i < pre.len() && #[trigger] defines_name(pre[i], n);
                assert(steps[i] == pre[i]);
            }
            if defines(steps, n) && !defines_name(steps[last], n) {
                let i = choose|i: int| 0 <= i < steps.len() && #[trigger] defines_name(steps[i], n);
                assert(pre[i] == steps[i]);
            }
        }
        match steps.last() {
            EnvStep::Define(k, v) => {
                assert(x.scopes =~= yp.scopes.push(inner.insert(k, v)));
                assert forall|n: Seq<char>| x.scopes.last().contains_key(n) <==> defines(steps, n) by {
                    assert(x.scopes.last() == inner.insert(k, v));
                    assert(inner.contains_key(n) <==> defines(pre, n));
                }
            },
            EnvStep::Assign(k, v) => {
                if defines(pre, k) {
                    assert(inner.contains_key(k));
                    assert(x.scopes =~= yp.scopes.push(inner.insert(k, Some(v))));
                    assert forall|n: Seq<char>| x.scopes.last().contains_key(n) <==> defines(steps, n) by {
                        assert(x.scopes.last() == inner.insert(k, Some(v)));
                        assert(inner.contains_key(n) <==> defines(pre, n));
                    }
                } else {
                    assert(!inner.contains_key(k));
                    assert(outer_steps(steps) == outer_steps(pre).push(EnvStep::Assign(k, v)));
                    assert(outer_steps(steps).drop_last() =~= outer_steps(pre));
                    match scopes_assign(yp.scopes, k, v) {
                        Some(t) => {
                            lemma_scopes_assign_len(yp.scopes, k, v);
                            assert(x.scopes =~= t.push(inner));
                        },
                        None => {},
                    }
                    assert forall|n: Seq<char>| x.scopes.last().contains_key(n) <==> defines(steps, n) by {
                        assert(x.scopes.last() == inner);
                        assert(inner.contains_key(n) <==> defines(pre, n));
                    }
                }
            },
        }
    }
}

/// Leaving a scope undoes entering it, whatever the steps taken in it
/// meanwhile: every name reads as it did before the scope was entered,
/// except those that the steps assigned without defining them in the scope
/// first, which hold what was last assigned to them. (Where no scope is
/// nested, an assignment made in a new scope reaches no global variable.)
pub proof fn law_scope_keeps_outer_names(e: EnvV, steps: Seq<EnvStep>)
    requires
        e.scopes.len() > 0,
    ensures
        env_remove_scope(take_steps(env_add_scope(e), steps)) == take_steps(e, outer_steps(steps)),
{
    lemma_steps_in_scope(e, steps);
    let x = take_steps(env_add_scope(e), steps);
    assert(env_remove_scope(x).scopes =~= take_steps(e, outer_steps(steps)).scopes);
}

/// Assigning inside a new scope and leaving it is assigning outside it,
/// where a scope was nested already.
pub proof fn law_assign_through_scope(e: EnvV, k: Seq<char>, v: ValV)
    requires
        e.scopes.len() > 0,
    ensures
        env_remove_scope(env_assign(env_add_scope(e), k, v).0) == env_assign(e, k, v).0,
{
    let steps = seq![EnvStep::Assign(k, v)];
    let none = Seq::<EnvStep>::empty();
    assert(steps.drop_last() =~= none);
    assert(steps.last() == EnvStep::Assign(k, v));
    assert(!defines(none, k));
    assert(outer_steps(none) == none);
    assert(outer_steps(steps) =~= seq![EnvStep::Assign(k, v)]);
    assert(outer_steps(steps).drop_last() =~= none);
    assert(outer_steps(steps) == steps);
    assert(take_steps(e, none) == e);
    assert(take_steps(env_add_scope(e), none) == env_add_scope(e));
    assert(take_steps(e, steps) == env_assign(e, k, v).0);
    assert(take_steps(env_add_scope(e), steps) == env_assign(env_add_scope(e), k, v).0);
    law_scope_keeps_outer_names(e, steps);
}

} // verus!
