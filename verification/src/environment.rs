//! The scope chain: a stack of scopes, each a mapping from names to values.
//!
//! A chain is modelled as a sequence of maps, outermost first; the last map is
//! the innermost, current scope.

use vstd::prelude::*;
use vstd::hash_map::StringHashMap;
use crate::value::RuntimeError;

verus! {

/// The model of a scope chain: one map per scope, outermost first.
pub type Scopes<T> = Seq<Map<Seq<char>, T>>;

/// The index of the innermost scope of `scopes` that binds `name`.
pub open spec fn innermost<T>(scopes: Scopes<T>, name: Seq<char>) -> Option<int>
    decreases scopes.len(),
{
    if scopes.len() == 0 {
        None
    } else if scopes.last().contains_key(name) {
        Some(scopes.len() - 1)
    } else {
        innermost(scopes.drop_last(), name)
    }
}

/// The number of scopes between the innermost scope and the one that binds
/// `name`: 0 for the innermost scope itself.
pub open spec fn hops<T>(scopes: Scopes<T>, name: Seq<char>) -> Option<int> {
    match innermost(scopes, name) {
        Some(i) => Some(scopes.len() - 1 - i),
        None => None,
    }
}

/// What `name` is bound to, looking from the innermost scope outward.
pub open spec fn lookup<T>(scopes: Scopes<T>, name: Seq<char>) -> Option<T> {
    match innermost(scopes, name) {
        Some(i) => Some(scopes[i][name]),
        None => None,
    }
}

/// What `name` is bound to in the scope `depth` hops out from the innermost.
pub open spec fn lookup_at<T>(scopes: Scopes<T>, depth: usize, name: Seq<char>) -> Option<T> {
    if depth < scopes.len() && scopes[scopes.len() - 1 - depth].contains_key(name) {
        Some(scopes[scopes.len() - 1 - depth][name])
    } else {
        None
    }
}

/// `scopes` with `name` bound to `value` in scope `i`.
pub open spec fn bind<T>(scopes: Scopes<T>, i: int, name: Seq<char>, value: T) -> Scopes<T> {
    scopes.update(i, scopes[i].insert(name, value))
}

/// `scopes` after a definition in the innermost scope; no scope, no change.
pub open spec fn defined<T>(scopes: Scopes<T>, name: Seq<char>, value: T) -> Scopes<T> {
    if scopes.len() == 0 {
        scopes
    } else {
        bind(scopes, scopes.len() - 1, name, value)
    }
}

/// The scope that the pairs `globals` define one after the other: a later
/// pair replaces an earlier one of the same name.
pub open spec fn scope_of<T>(globals: Seq<(String, T)>) -> Map<Seq<char>, T>
    decreases globals.len(),
{
    if globals.len() == 0 {
        Map::empty()
    } else {
        scope_of(globals.drop_last()).insert(globals.last().0@, globals.last().1)
    }
}

/// The innermost binding of `name` is where [`innermost`] says: in that
/// scope, and in none further in.
pub proof fn lemma_innermost<T>(scopes: Scopes<T>, name: Seq<char>)
    ensures
        match innermost(scopes, name) {
            Some(i) => 0 <= i < scopes.len() && scopes[i].contains_key(name) && forall|j: int|
                i < j < scopes.len() ==> !(#[trigger] scopes[j]).contains_key(name),
            None => forall|j: int|
                0 <= j < scopes.len() ==> !(#[trigger] scopes[j]).contains_key(name),
        },
    decreases scopes.len(),
{
    if scopes.len() > 0 && !scopes.last().contains_key(name) {
        lemma_innermost(scopes.drop_last(), name);
        assert forall|j: int| 0 <= j < scopes.len() - 1 implies scopes[j]
            == scopes.drop_last()[j] by {}
    }
}

/// A lookup does not depend on how deeply the looking code is nested: under
/// any further scopes `inner` that do not bind `name`, the name is found in
/// the same scope, bound to the same value, and exactly `inner.len()` hops
/// further away.
pub proof fn lemma_lookup_under_nesting<T>(outer: Scopes<T>, inner: Scopes<T>, name: Seq<char>)
    requires
        forall|j: int| 0 <= j < inner.len() ==> !(#[trigger] inner[j]).contains_key(name),
    ensures
        innermost(outer + inner, name) == innermost(outer, name),
        lookup(outer + inner, name) == lookup(outer, name),
        hops(outer, name) is Some ==> hops(outer + inner, name) == Some(
            hops(outer, name)->0 + inner.len(),
        ),
        hops(outer, name) is None ==> hops(outer + inner, name) is None,
    decreases inner.len(),
{
    lemma_innermost(outer, name);
    if inner.len() == 0 {
        assert(outer + inner =~= outer);
    } else {
        let all = outer + inner;
        assert(all.last() == inner.last());
        assert(all.drop_last() =~= outer + inner.drop_last());
        lemma_lookup_under_nesting(outer, inner.drop_last(), name);
        match innermost(outer, name) {
            Some(i) => {
                assert(all[i] == outer[i]);
            },
            None => {},
        }
    }
}

/// Whether two chains have the same number of scopes and bind the same
/// names in each.
pub open spec fn same_names<A, B>(a: Scopes<A>, b: Scopes<B>) -> bool {
    &&& a.len() == b.len()
    &&& forall|i: int, name: Seq<char>|
        0 <= i < a.len() ==> (#[trigger] a[i].contains_key(name) <==> b[i].contains_key(name))
}

/// Chains that bind the same names find every name in the same scope.
pub proof fn lemma_same_names_same_scope<A, B>(a: Scopes<A>, b: Scopes<B>, name: Seq<char>)
    requires
        same_names(a, b),
    ensures
        innermost(a, name) == innermost(b, name),
    decreases a.len(),
{
    if a.len() > 0 {
        assert(a.last().contains_key(name) <==> b.last().contains_key(name)) by {
            assert(a[a.len() - 1].contains_key(name) <==> b[a.len() - 1].contains_key(name));
        }
        if !a.last().contains_key(name) {
            assert forall|i: int, other: Seq<char>| 0 <= i < a.drop_last().len() implies (
            #[trigger] a.drop_last()[i].contains_key(other) <==> b.drop_last()[i].contains_key(
                other,
            )) by {
                assert(a[i].contains_key(other) <==> b[i].contains_key(other));
            }
            lemma_same_names_same_scope(a.drop_last(), b.drop_last(), name);
        }
    }
}

/// A name is looked for in the inner scopes of a chain before the outer
/// ones: where an inner scope binds it, the chain finds it there, and where
/// none does, the chain finds what the outer scopes alone find.
pub proof fn lemma_lookup_inner_first<T>(outer: Scopes<T>, inner: Scopes<T>, name: Seq<char>)
    ensures
        match innermost(inner, name) {
            Some(i) => innermost(outer + inner, name) == Some(outer.len() + i),
            None => innermost(outer + inner, name) == innermost(outer, name),
        },
    decreases inner.len(),
{
    let all = outer + inner;
    if inner.len() == 0 {
        assert(all =~= outer);
    } else {
        assert(all.last() == inner.last());
        assert(all.drop_last() =~= outer + inner.drop_last());
        lemma_lookup_inner_first(outer, inner.drop_last(), name);
    }
}

/// A depth found beforehand is the right one wherever the chain has the
/// shape it was found for. Let `statics` be a chain that binds the same names
/// as the innermost scopes `inner` of a chain. Where `statics` finds `name`
/// at some depth, a lookup at that depth in the whole chain finds what a
/// search from the innermost scope outward finds. Where `statics` does not
/// find it, the search finds what the outer scopes alone hold.
pub proof fn theorem_resolved_depth_is_right<A, T>(
    statics: Scopes<A>,
    outer: Scopes<T>,
    inner: Scopes<T>,
    name: Seq<char>,
)
    requires
        same_names(statics, inner),
        outer.len() + inner.len() <= usize::MAX,
    ensures
        match hops(statics, name) {
            Some(depth) => 0 <= depth < inner.len() && lookup(outer + inner, name) is Some
                && lookup_at(outer + inner, depth as usize, name) == lookup(outer + inner, name),
            None => lookup(outer + inner, name) == lookup(outer, name),
        },
{
    lemma_same_names_same_scope(statics, inner, name);
    lemma_lookup_inner_first(outer, inner, name);
    lemma_innermost(inner, name);
    lemma_innermost(outer, name);
    let all = outer + inner;
    match innermost(inner, name) {
        Some(i) => {
            assert(all[outer.len() + i] == inner[i]);
        },
        None => {
            match innermost(outer, name) {
                Some(j) => {
                    assert(all[j] == outer[j]);
                },
                None => {},
            }
        },
    }
}

/// One scope: a mapping from names to values.
#[verifier::reject_recursive_types(T)]
pub struct Environment<T> {
    values: StringHashMap<T>,
}

impl<T> View for Environment<T> {
    type V = Map<Seq<char>, T>;

    closed spec fn view(&self) -> Map<Seq<char>, T> {
        self.values@
    }
}

impl<T> Default for Environment<T> {
    /// The empty scope.
    fn default() -> (env: Self)
        ensures
            env@ == Map::<Seq<char>, T>::empty(),
    {
        Environment { values: StringHashMap::new() }
    }
}

impl<T> Environment<T> {
    /// Binds `name` to `value`, replacing an earlier binding of `name`.
    pub fn define(&mut self, name: &str, value: T)
        ensures
            final(self)@ == old(self)@.insert(name@, value),
    {
        self.values.insert(name.to_owned(), value);
    }

    /// Rebinds `name` if this scope binds it; otherwise fails and changes
    /// nothing.
    pub fn assign(&mut self, name: &str, value: T) -> (r: Result<(), RuntimeError>)
        ensures
            old(self)@.contains_key(name@) ==> r is Ok && final(self)@ == old(self)@.insert(
                name@,
                value,
            ),
            !old(self)@.contains_key(name@) ==> r == Err::<(), RuntimeError>(
                RuntimeError::UndefinedVariable,
            ) && final(self)@ == old(self)@,
    {
        if self.values.contains_key(name) {
            self.values.insert(name.to_owned(), value);
            Ok(())
        } else {
            Err(RuntimeError::UndefinedVariable)
        }
    }

    /// What `name` is bound to in this scope.
    pub fn get(&self, name: &str) -> (r: Result<&T, RuntimeError>)
        ensures
            match r {
                Ok(value) => self@.contains_key(name@) && *value == self@[name@],
                Err(error) => !self@.contains_key(name@) && error
                    == RuntimeError::UndefinedVariable,
            },
    {
        match self.values.get(name) {
            Some(value) => Ok(value),
            None => Err(RuntimeError::UndefinedVariable),
        }
    }

    /// Whether this scope binds `name`.
    pub fn contains(&self, name: &str) -> (r: bool)
        ensures
            r == self@.contains_key(name@),
    {
        self.values.contains_key(name)
    }
}

/// A scope chain: a stack of scopes whose top is the innermost, current
/// scope.
#[verifier::reject_recursive_types(T)]
pub struct EnvStack<T> {
    envs: Vec<Environment<T>>,
}

impl<T> View for EnvStack<T> {
    type V = Scopes<T>;

    closed spec fn view(&self) -> Scopes<T> {
        Seq::new(self.envs@.len(), |i: int| self.envs@[i]@)
    }
}

impl<T> Default for EnvStack<T> {
    /// The chain without any scope.
    fn default() -> (stack: Self)
        ensures
            stack@ == Scopes::<T>::empty(),
    {
        let stack = EnvStack { envs: Vec::new() };
        assert(stack@ =~= Scopes::<T>::empty());
        stack
    }
}

impl<T> EnvStack<T> {
    /// A chain of one scope, the global scope, which binds each name of
    /// `globals` to a clone of its value; of two pairs with one name the later
    /// counts.
    pub fn with_globals(globals: &Vec<(String, T)>) -> (stack: Self) where T: Clone
        ensures
            stack@.len() == 1,
            stack@[0].dom() == scope_of(globals@).dom(),
            forall|name: Seq<char>| #[trigger]
                stack@[0].contains_key(name) ==> cloned(scope_of(globals@)[name], stack@[0][name]),
    {
        let mut env_stack = EnvStack::<T>::default();
        env_stack.push_default();
        let mut i: usize = 0;
        proof {
            assert(globals@.take(0) =~= Seq::empty());
            assert(env_stack@[0].dom() =~= scope_of(globals@.take(0)).dom());
        }
        while i < globals.len()
            invariant
                i <= globals.len(),
                env_stack@.len() == 1,
                env_stack@[0].dom() == scope_of(globals@.take(i as int)).dom(),
                forall|name: Seq<char>| #[trigger]
                    env_stack@[0].contains_key(name) ==> cloned(
                        scope_of(globals@.take(i as int))[name],
                        env_stack@[0][name],
                    ),
            decreases globals.len() - i,
        {
            let value = globals[i].1.clone();
            env_stack.define(globals[i].0.as_str(), value);
            proof {
                let next = globals@.take(i + 1);
                assert(next.drop_last() =~= globals@.take(i as int));
                assert(next.last() == globals@[i as int]);
                assert(env_stack@[0].dom() =~= scope_of(next).dom());
            }
            i = i + 1;
        }
        proof {
            assert(globals@.take(globals@.len() as int) =~= globals@);
        }
        env_stack
    }

    /// The number of scopes.
    pub fn len(&self) -> (n: usize)
        ensures
            n == self@.len(),
    {
        self.envs.len()
    }

    /// Enters a new, empty scope.
    pub fn push_default(&mut self)
        ensures
            final(self)@ == old(self)@.push(Map::empty()),
    {
        self.envs.push(Environment::default());
        assert(self@ =~= old(self)@.push(Map::empty()));
    }

    /// Enters the scope `env`.
    pub fn push(&mut self, env: Environment<T>)
        ensures
            final(self)@ == old(self)@.push(env@),
    {
        self.envs.push(env);
        assert(self@ =~= old(self)@.push(env@));
    }

    /// Leaves the innermost scope; fails on a chain without scopes.
    pub fn pop(&mut self) -> (r: Result<(), RuntimeError>)
        ensures
            old(self)@.len() > 0 ==> r is Ok && final(self)@ == old(self)@.drop_last(),
            old(self)@.len() == 0 ==> r == Err::<(), RuntimeError>(RuntimeError::ScopeUnderflow)
                && final(self)@ == old(self)@,
    {
        match self.envs.pop() {
            Some(_) => {
                assert(self@ =~= old(self)@.drop_last());
                Ok(())
            },
            None => {
                assert(self@ =~= old(self)@);
                Err(RuntimeError::ScopeUnderflow)
            },
        }
    }

    /// Binds `name` to `value` in the innermost scope, shadowing any outer
    /// binding. On a chain without scopes nothing happens.
    pub fn define(&mut self, name: &str, value: T)
        ensures
            final(self)@ == defined(old(self)@, name@, value),
    {
        let n = self.envs.len();
        if n > 0 {
            let env = &mut self.envs[n - 1];
            env.define(name, value);
            assert(self@ =~= defined(old(self)@, name@, value));
        }
    }

    /// The index of the innermost scope that binds `name`.
    fn find(&self, name: &str) -> (r: Option<usize>)
        ensures
            match r {
                Some(i) => innermost(self@, name@) == Some(i as int) && i < self@.len()
                    && self@[i as int].contains_key(name@),
                None => innermost(self@, name@) is None,
            },
    {
        let mut i = self.envs.len();
        proof {
            assert(self@.take(i as int) =~= self@);
            lemma_innermost(self@, name@);
        }
        while i > 0
            invariant
                i <= self.envs.len(),
                innermost(self@, name@) == innermost(self@.take(i as int), name@),
            decreases i,
        {
            i = i - 1;
            proof {
                assert(self@.take(i + 1).last() == self.envs@[i as int]@);
                assert(self@.take(i + 1).drop_last() =~= self@.take(i as int));
            }
            if self.envs[i].contains(name) {
                return Some(i);
            }
        }
        None
    }

    /// Rebinds `name` in the innermost scope that binds it; fails, and
    /// changes nothing, where no scope binds it.
    pub fn assign(&mut self, name: &str, value: T) -> (r: Result<(), RuntimeError>)
        ensures
            match innermost(old(self)@, name@) {
                Some(i) => r is Ok && final(self)@ == bind(old(self)@, i, name@, value),
                None => r == Err::<(), RuntimeError>(RuntimeError::UndefinedVariable)
                    && final(self)@ == old(self)@,
            },
    {
        match self.find(name) {
            Some(i) => {
                let env = &mut self.envs[i];
                env.define(name, value);
                assert(self@ =~= bind(old(self)@, i as int, name@, value));
                Ok(())
            },
            None => Err(RuntimeError::UndefinedVariable),
        }
    }

    /// What `name` is bound to in the innermost scope that binds it; fails
    /// where no scope binds it.
    pub fn get(&self, name: &str) -> (r: Result<&T, RuntimeError>)
        ensures
            match r {
                Ok(value) => lookup(self@, name@) == Some(*value),
                Err(error) => lookup(self@, name@) is None && error
                    == RuntimeError::UndefinedVariable,
            },
    {
        match self.find(name) {
            Some(i) => self.envs[i].get(name),
            None => Err(RuntimeError::UndefinedVariable),
        }
    }

    /// How many scopes out from the innermost the binding of `name` is, or
    /// `None` where no scope binds it.
    pub fn resolve_depth(&self, name: &str) -> (r: Option<usize>)
        ensures
            match r {
                Some(depth) => hops(self@, name@) == Some(depth as int),
                None => hops(self@, name@) is None,
            },
    {
        match self.find(name) {
            Some(i) => Some(self.envs.len() - 1 - i),
            None => None,
        }
    }

    /// What `name` is bound to in the scope `depth` hops out from the
    /// innermost; fails where there is no such scope or it does not bind
    /// `name`.
    pub fn get_at(&self, depth: usize, name: &str) -> (r: Result<&T, RuntimeError>)
        ensures
            match r {
                Ok(value) => lookup_at(self@, depth, name@) == Some(*value),
                Err(error) => lookup_at(self@, depth, name@) is None && error
                    == RuntimeError::UndefinedVariable,
            },
    {
        let n = self.envs.len();
        if depth < n {
            self.envs[n - 1 - depth].get(name)
        } else {
            Err(RuntimeError::UndefinedVariable)
        }
    }

    /// Rebinds `name` in the scope `depth` hops out from the innermost;
    /// fails, and changes nothing, where there is no such scope or it does not
    /// bind `name`.
    pub fn assign_at(&mut self, depth: usize, name: &str, value: T) -> (r: Result<
        (),
        RuntimeError,
    >)
        ensures
            lookup_at(old(self)@, depth, name@) is Some ==> r is Ok && final(self)@ == bind(
                old(self)@,
                old(self)@.len() - 1 - depth,
                name@,
                value,
            ),
            lookup_at(old(self)@, depth, name@) is None ==> r == Err::<(), RuntimeError>(
                RuntimeError::UndefinedVariable,
            ) && final(self)@ == old(self)@,
    {
        let n = self.envs.len();
        if depth < n {
            if self.envs[n - 1 - depth].contains(name) {
                let env = &mut self.envs[n - 1 - depth];
                env.define(name, value);
                assert(self@ =~= bind(old(self)@, n - 1 - depth, name@, value));
                Ok(())
            } else {
                Err(RuntimeError::UndefinedVariable)
            }
        } else {
            Err(RuntimeError::UndefinedVariable)
        }
    }

    /// Takes the scopes from index `at` on out of the chain and returns them
    /// as a chain of their own. Where the chain has fewer than `at` scopes,
    /// all stay and the chain returned is empty.
    pub fn split_off(&mut self, at: usize) -> (rest: EnvStack<T>)
        ensures
            at <= old(self)@.len() ==> final(self)@ == old(self)@.take(at as int) && rest@ == old(
                self,
            )@.skip(at as int),
            at > old(self)@.len() ==> final(self)@ == old(self)@ && rest@ == Scopes::<T>::empty(),
    {
        if at <= self.envs.len() {
            let rest = EnvStack { envs: self.envs.split_off(at) };
            assert(self@ =~= old(self)@.take(at as int));
            assert(rest@ =~= old(self)@.skip(at as int));
            rest
        } else {
            EnvStack::default()
        }
    }

    /// Puts the scopes of `other` on top of the chain, in their order.
    pub fn append(&mut self, other: EnvStack<T>)
        ensures
            final(self)@ == old(self)@ + other@,
    {
        let mut other = other;
        let ghost moved = other@;
        self.envs.append(&mut other.envs);
        assert(self@ =~= old(self)@ + moved);
    }
}

} // verus!
