//! The chain of lexical scopes that the evaluator runs against.
//!
//! Blocks open and close scopes in strict nesting, so the chain is kept as a
//! stack: the global scope first, the innermost scope last. Each scope binds
//! names to a value or to the marker of a declared but uninitialized variable.
use vstd::prelude::*;
use crate::error::{ErrorModel, RuntimeError, RuntimeErrorKind};
use crate::value::{Value, ValueModel};

verus! {

/// The model of a scope: each bound name maps to its value, or to `None`
/// while it is uninitialized.
pub type ScopeModel = Map<Seq<char>, Option<ValueModel>>;

/// The model of a scope chain, outermost first.
pub type EnvModel = Seq<ScopeModel>;

pub open spec fn option_model(v: Option<Value>) -> Option<ValueModel> {
    match v {
        Some(x) => Some(x@),
        None => None,
    }
}

struct Binding {
    name: String,
    value: Option<Value>,
}

struct Scope {
    bindings: Vec<Binding>,
}

/// The map that a list of bindings stands for; a later binding of a name
/// wins over an earlier one.
spec fn bindings_map(b: Seq<Binding>) -> ScopeModel
    decreases b.len(),
{
    if b.len() == 0 {
        Map::empty()
    } else {
        bindings_map(b.drop_last()).insert(b.last().name@, option_model(b.last().value))
    }
}

/// A chain of scopes; it always holds the global scope.
pub struct EvalState {
    scopes: Vec<Scope>,
}

/// The value bound to `name` in the nearest scope that binds it: `None` if
/// no scope does, `Some(None)` if that binding is uninitialized.
pub open spec fn env_lookup(env: EnvModel, name: Seq<char>) -> Option<Option<ValueModel>>
    decreases env.len(),
{
    if env.len() == 0 {
        None
    } else if env.last().contains_key(name) {
        Some(env.last()[name])
    } else {
        env_lookup(env.drop_last(), name)
    }
}

/// The chain after `name` is set to `v` in the nearest scope that binds it;
/// `None` if no scope does.
pub open spec fn env_assign(env: EnvModel, name: Seq<char>, v: ValueModel) -> Option<EnvModel>
    decreases env.len(),
{
    if env.len() == 0 {
        None
    } else if env.last().contains_key(name) {
        Some(env.drop_last().push(env.last().insert(name, Some(v))))
    } else {
        match env_assign(env.drop_last(), name, v) {
            Some(e) => Some(e.push(env.last())),
            None => None,
        }
    }
}

/// The chain after `name` is bound to `v` in the innermost scope.
pub open spec fn env_declare(env: EnvModel, name: Seq<char>, v: Option<ValueModel>) -> EnvModel {
    env.drop_last().push(env.last().insert(name, v))
}

proof fn lemma_bindings_map_update(b: Seq<Binding>, i: int, v: Option<Value>)
    requires
        0 <= i < b.len(),
        forall|j: int| i < j < b.len() ==> b[j].name@ != b[i].name@,
    ensures
        bindings_map(b.update(i, Binding { name: b[i].name, value: v })) == bindings_map(b).insert(
            b[i].name@,
            option_model(v),
        ),
    decreases b.len(),
{
    let nb = b.update(i, Binding { name: b[i].name, value: v });
    if i == b.len() - 1 {
        assert(nb.drop_last() =~= b.drop_last());
        assert(bindings_map(nb) =~= bindings_map(b).insert(b[i].name@, option_model(v)));
    } else {
        lemma_bindings_map_update(b.drop_last(), i, v);
        assert(nb.drop_last() =~= b.drop_last().update(i, Binding { name: b[i].name, value: v }));
        assert(bindings_map(nb) =~= bindings_map(b).insert(b[i].name@, option_model(v)));
    }
}

proof fn lemma_lookup_nearest(env: EnvModel, name: Seq<char>, i: int)
    requires
        0 <= i <= env.len(),
        forall|j: int| i <= j < env.len() ==> !(#[trigger] env[j]).contains_key(name),
    ensures
        env_lookup(env, name) == env_lookup(env.take(i), name),
    decreases env.len() - i,
{
    if i < env.len() {
        lemma_lookup_nearest(env.drop_last(), name, i);
        assert(env.drop_last().take(i) =~= env.take(i));
    } else {
        assert(env.take(i) =~= env);
    }
}

pub proof fn lemma_assign_keeps_depth(env: EnvModel, name: Seq<char>, v: ValueModel)
    ensures
        env_assign(env, name, v) is Some ==> env_assign(env, name, v)->Some_0.len() == env.len(),
    decreases env.len(),
{
    if env.len() > 0 {
        lemma_assign_keeps_depth(env.drop_last(), name, v);
    }
}

proof fn lemma_assign_nearest(env: EnvModel, name: Seq<char>, v: ValueModel, i: int)
    requires
        0 <= i <= env.len(),
        forall|j: int| i <= j < env.len() ==> !(#[trigger] env[j]).contains_key(name),
    ensures
        env_assign(env.take(i), name, v) is None ==> env_assign(env, name, v) is None,
        env_assign(env.take(i), name, v) is Some ==> env_assign(env, name, v) == Some(
            env_assign(env.take(i), name, v)->Some_0 + env.skip(i),
        ),
    decreases env.len() - i,
{
    if i < env.len() {
        lemma_assign_nearest(env.drop_last(), name, v, i);
        assert(env.drop_last().take(i) =~= env.take(i));
        if env_assign(env.take(i), name, v) is Some {
            let e = env_assign(env.take(i), name, v)->Some_0;
            assert((e + env.drop_last().skip(i)).push(env.last()) =~= e + env.skip(i));
        }
    } else {
        assert(env.take(i) =~= env);
        if env_assign(env.take(i), name, v) is Some {
            let e = env_assign(env.take(i), name, v)->Some_0;
            assert(e + env.skip(i) =~= e);
        }
    }
}

impl View for EvalState {
    type V = EnvModel;

    closed spec fn view(&self) -> EnvModel {
        self.scopes@.map_values(|s: Scope| bindings_map(s.bindings@))
    }
}

impl Default for EvalState {
    fn default() -> (r: EvalState)
        ensures
            r.wf(),
            r@ == seq![ScopeModel::empty()],
    {
        EvalState::new()
    }
}

impl EvalState {
    /// A chain of scopes holds the global scope.
    pub open spec fn wf(&self) -> bool {
        self@.len() >= 1
    }

    /// A chain with an empty global scope.
    pub fn new() -> (r: EvalState)
        ensures
            r.wf(),
            r@ == seq![ScopeModel::empty()],
    {
        let mut scopes: Vec<Scope> = Vec::new();
        scopes.push(Scope { bindings: Vec::new() });
        let r = EvalState { scopes };
        proof {
            assert(r@ =~= seq![ScopeModel::empty()]);
        }
        r
    }

    /// The chain of `parent` with a new empty innermost scope.
    pub fn new_from_parent(parent: EvalState) -> (r: EvalState)
        requires
            parent.wf(),
        ensures
            r.wf(),
            r@ == parent@.push(ScopeModel::empty()),
    {
        let mut r = parent;
        r.push_scope();
        r
    }

    /// Opens a new empty innermost scope.
    pub fn push_scope(&mut self)
        requires
            old(self).wf(),
        ensures
            final(self).wf(),
            final(self)@ == old(self)@.push(ScopeModel::empty()),
    {
        self.scopes.push(Scope { bindings: Vec::new() });
        proof {
            assert(self@ =~= old(self)@.push(ScopeModel::empty()));
        }
    }

    /// Closes the innermost scope; the global scope stays.
    pub fn pop_scope(&mut self)
        requires
            old(self).wf(),
            old(self)@.len() > 1,
        ensures
            final(self).wf(),
            final(self)@ == old(self)@.drop_last(),
    {
        self.scopes.pop();
        proof {
            assert(self@ =~= old(self)@.drop_last());
        }
    }

    /// The number of scopes in the chain.
    pub fn depth(&self) -> (r: usize)
        ensures
            r == self@.len(),
    {
        self.scopes.len()
    }

    /// Binds `name` in the innermost scope, replacing a binding of the same
    /// name there; an outer binding is shadowed.
    pub fn declare(&mut self, name: &String, value: Option<Value>)
        requires
            old(self).wf(),
        ensures
            final(self).wf(),
            final(self)@ == env_declare(old(self)@, name@, option_model(value)),
    {
        let last = self.scopes.len() - 1;
        let ghost v = option_model(value);
        let mut scope = Scope { bindings: Vec::new() };
        std::mem::swap(&mut scope, &mut self.scopes[last]);
        let ghost b0 = scope.bindings@;
        let mut i: usize = 0;
        let mut found: Option<usize> = None;
        while i < scope.bindings.len()
            invariant
                i <= scope.bindings@.len(),
                scope.bindings@ == b0,
                match found {
                    Some(k) => k < i && scope.bindings@[k as int].name@ == name@ && forall|j: int|
                        k < j < i ==> scope.bindings@[j].name@ != name@,
                    None => forall|j: int| 0 <= j < i ==> scope.bindings@[j].name@ != name@,
                },
            decreases scope.bindings@.len() - i,
        {
            if scope.bindings[i].name.eq(name) {
                found = Some(i);
            }
            i = i + 1;
        }
        match found {
            Some(k) => {
                let n = scope.bindings[k].name.clone();
                proof {
                    lemma_bindings_map_update(b0, k as int, value);
                    assert(b0.update(k as int, Binding { name: b0[k as int].name, value }) =~=
                        b0.update(k as int, Binding { name: n, value }));
                }
                scope.bindings.set(k, Binding { name: n, value });
            },
            None => {
                let b = Binding { name: name.clone(), value };
                scope.bindings.push(b);
                proof {
                    assert(scope.bindings@.drop_last() =~= b0);
                }
            },
        }
        std::mem::swap(&mut scope, &mut self.scopes[last]);
        proof {
            assert(self@ =~= env_declare(old(self)@, name@, v));
        }
    }

    /// Whether scope `i` binds `key`.
    fn scope_binds(&self, i: usize, key: &String) -> (r: Option<usize>)
        requires
            i < self.scopes@.len(),
        ensures
            match r {
                Some(k) => k < self.scopes@[i as int].bindings@.len()
                    && self@[i as int].contains_key(key@)
                    && self@[i as int][key@] == option_model(self.scopes@[i as int].bindings@[k as int].value)
                    && self.scopes@[i as int].bindings@[k as int].name@ == key@
                    && forall|j: int| k < j < self.scopes@[i as int].bindings@.len()
                        ==> self.scopes@[i as int].bindings@[j].name@ != key@,
                None => !self@[i as int].contains_key(key@),
            },
    {
        let b = &self.scopes[i].bindings;
        let mut j: usize = 0;
        let mut found: Option<usize> = None;
        while j < b.len()
            invariant
                j <= b@.len(),
                b@ == self.scopes@[i as int].bindings@,
                match found {
                    Some(k) => k < j && b@[k as int].name@ == key@ && forall|m: int|
                        k < m < j ==> b@[m].name@ != key@,
                    None => forall|m: int| 0 <= m < j ==> b@[m].name@ != key@,
                },
                bindings_map(b@.take(j as int)).contains_key(key@) == (found is Some),
                found is Some ==> bindings_map(b@.take(j as int))[key@] == option_model(
                    b@[found->Some_0 as int].value,
                ),
            decreases b@.len() - j,
        {
            proof {
                assert(b@.take(j + 1).drop_last() =~= b@.take(j as int));
            }
            if b[j].name.eq(key) {
                found = Some(j);
            }
            j = j + 1;
        }
        proof {
            assert(b@.take(j as int) =~= b@);
        }
        found
    }

    /// The value of `key` in the nearest scope that binds it.
    pub fn lookup(&self, key: &str) -> (r: Result<Value, RuntimeError>)
        requires
            self.wf(),
        ensures
            match env_lookup(self@, key@) {
                Some(Some(v)) => r is Ok && r->Ok_0@ == v,
                Some(None) => r is Err && r->Err_0@ == ErrorModel::UninitializedVariable(key@),
                None => r is Err && r->Err_0@ == ErrorModel::UnknownVariable(key@),
            },
    {
        let name = key.to_owned();
        let mut i: usize = self.scopes.len();
        while i > 0
            invariant
                i <= self@.len(),
                self@.len() == self.scopes@.len(),
                name@ == key@,
                forall|j: int| i <= j < self@.len() ==> !(#[trigger] self@[j]).contains_key(key@),
            decreases i,
        {
            match self.scope_binds(i - 1, &name) {
                Some(k) => {
                    proof {
                        lemma_lookup_nearest(self@, key@, i as int);
                        assert(self@.take(i as int).last() == self@[i - 1]);
                    }
                    return match &self.scopes[i - 1].bindings[k].value {
                        Some(v) => Ok(v.duplicate()),
                        None => Err(RuntimeError::new(RuntimeErrorKind::UninitializedVariable(name))),
                    };
                },
                None => {},
            }
            i = i - 1;
        }
        proof {
            lemma_lookup_nearest(self@, key@, 0);
        }
        Err(RuntimeError::new(RuntimeErrorKind::UnknownVariable(name)))
    }

    /// Sets `key` to `value` in the nearest scope that binds it; assignment
    /// never creates a binding.
    pub fn assign(&mut self, key: &str, value: &Value) -> (r: Result<Value, RuntimeError>)
        requires
            old(self).wf(),
        ensures
            final(self).wf(),
            match env_assign(old(self)@, key@, value@) {
                Some(e) => r is Ok && r->Ok_0@ == value@ && final(self)@ == e,
                None => r is Err && r->Err_0@ == ErrorModel::UnknownAssignmentTarget(key@)
                    && final(self)@ == old(self)@,
            },
    {
        let name = key.to_owned();
        let mut i: usize = self.scopes.len();
        while i > 0
            invariant
                i <= self@.len(),
                self@.len() == self.scopes@.len(),
                self.wf(),
                *self == *old(self),
                name@ == key@,
                forall|j: int| i <= j < self@.len() ==> !(#[trigger] self@[j]).contains_key(key@),
            decreases i,
        {
            match self.scope_binds(i - 1, &name) {
                Some(k) => {
                    let ghost env0 = self@;
                    let ghost b0 = self.scopes@[i - 1].bindings@;
                    let mut scope = Scope { bindings: Vec::new() };
                    std::mem::swap(&mut scope, &mut self.scopes[i - 1]);
                    let n = scope.bindings[k].name.clone();
                    let stored = value.duplicate();
                    proof {
                        lemma_bindings_map_update(b0, k as int, Some(stored));
                        assert(b0.update(k as int, Binding { name: b0[k as int].name, value: Some(stored) })
                            =~= b0.update(k as int, Binding { name: n, value: Some(stored) }));
                    }
                    scope.bindings.set(k, Binding { name: n, value: Some(stored) });
                    let ghost new_map = bindings_map(scope.bindings@);
                    std::mem::swap(&mut scope, &mut self.scopes[i - 1]);
                    proof {
                        assert(new_map == env0[i - 1].insert(key@, Some(value@)));
                        assert(self.scopes@.len() == env0.len());
                        assert forall|j: int| 0 <= j < env0.len() implies #[trigger] self@[j] == env0.update(
                            i - 1,
                            new_map,
                        )[j] by {
                            if j != i - 1 {
                                assert(self.scopes@[j] == old(self).scopes@[j]);
                            }
                        }
                        lemma_assign_nearest(env0, key@, value@, i as int);
                        let x = env0[i - 1].insert(key@, Some(value@));
                        assert(env0.take(i as int).last() == env0[i - 1]);
                        assert(env0.take(i as int).drop_last().push(x) + env0.skip(i as int)
                            =~= env0.update(i - 1, x));
                        assert(self@ =~= env0.update(i - 1, x));
                    }
                    return Ok(value.duplicate());
                },
                None => {},
            }
            i = i - 1;
        }
        proof {
            lemma_assign_nearest(self@, key@, value@, 0);
        }
        Err(RuntimeError::new(RuntimeErrorKind::UnknownAssignmentTarget(name)))
    }
}

} // verus!
