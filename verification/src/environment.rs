//! Environments: the scopes in which names are bound to values.
//!
//! The scopes of a program live together in one [`Environment`] and are
//! known by their numbers. Each but the outermost has a parent, made
//! before it. A name is looked up in a scope and then, where the scope
//! does not bind it, in its parent and so on outwards, so that an inner
//! binding shadows an outer one.

use crate::error::{logic_error, SchemeError};
use crate::number::RealNumber;
use crate::value::Value;
use vstd::hash_map::StringHashMap;
use vstd::prelude::*;
use vstd::string::*;

verus! {

/// One scope: the names it binds itself, and the scope around it.
#[verifier::reject_recursive_types(R)]
pub struct Scope<R: RealNumber> {
    parent: Option<usize>,
    bindings: StringHashMap<Value<R>>,
}

/// The scopes of a program.
#[verifier::reject_recursive_types(R)]
pub struct Environment<R: RealNumber> {
    scopes: Vec<Scope<R>>,
}

/// The mathematical content of a [`Scope`].
pub struct ScopeView<R: RealNumber> {
    pub parent: Option<int>,
    pub bindings: Map<Seq<char>, Value<R>>,
}

/// The scope that binds `name` for an expression in `scope`: `scope`
/// itself, or else the nearest scope around it that binds the name.
pub open spec fn binding_scope<R: RealNumber>(
    scopes: Seq<ScopeView<R>>,
    scope: int,
    name: Seq<char>,
) -> Option<int>
    decreases scope,
{
    if scope < 0 || scope >= scopes.len() {
        None
    } else if scopes[scope].bindings.contains_key(name) {
        Some(scope)
    } else {
        match scopes[scope].parent {
            Some(parent) => if 0 <= parent < scope {
                binding_scope(scopes, parent, name)
            } else {
                None
            },
            None => None,
        }
    }
}

/// `scopes` with `name` bound to `value` in the scope `scope`.
pub open spec fn bound<R: RealNumber>(
    scopes: Seq<ScopeView<R>>,
    scope: int,
    name: Seq<char>,
    value: Value<R>,
) -> Seq<ScopeView<R>> {
    scopes.update(
        scope,
        ScopeView {
            parent: scopes[scope].parent,
            bindings: scopes[scope].bindings.insert(name, value),
        },
    )
}

/// The error for a name that no scope binds.
pub open spec fn unbound(name: Seq<char>) -> crate::error::ErrorView {
    logic_error("unbound variable: "@ + name)
}

impl<R: RealNumber> View for Scope<R> {
    type V = ScopeView<R>;

    closed spec fn view(&self) -> ScopeView<R> {
        ScopeView {
            parent: match self.parent {
                Some(parent) => Some(parent as int),
                None => None,
            },
            bindings: self.bindings@,
        }
    }
}

impl<R: RealNumber> View for Environment<R> {
    type V = Seq<ScopeView<R>>;

    closed spec fn view(&self) -> Seq<ScopeView<R>> {
        Seq::new(self.scopes@.len(), |i: int| self.scopes@[i]@)
    }
}

/// Whether every scope but the outermost lies inside one made before it.
pub open spec fn nested<R: RealNumber>(scopes: Seq<ScopeView<R>>) -> bool {
    scopes.len() > 0 && scopes[0].parent is None && forall|i: int|
        0 < i < scopes.len() ==> ((#[trigger] scopes[i]).parent matches Some(parent) && 0 <= parent
            < i)
}

fn unbound_error(name: &str) -> (error: SchemeError)
    ensures
        error@ == unbound(name@),
{
    let mut message = String::from_str("unbound variable: ");
    message.append(name);
    SchemeError::logic(message)
}

impl<R: RealNumber> Environment<R> {
    /// An environment with the outermost scope, number zero, which binds
    /// nothing yet.
    pub fn new() -> (environment: Environment<R>)
        ensures
            environment@ == seq![ScopeView::<R> { parent: None, bindings: Map::empty() }],
            nested(environment@),
    {
        let mut scopes: Vec<Scope<R>> = Vec::new();
        scopes.push(Scope { parent: None, bindings: StringHashMap::new() });
        let environment = Environment { scopes };
        assert(environment@ =~= seq![ScopeView::<R> { parent: None, bindings: Map::empty() }]);
        environment
    }

    /// The number of scopes.
    pub fn len(&self) -> (count: usize)
        ensures
            count == self@.len(),
    {
        self.scopes.len()
    }

    /// Makes a scope inside `parent` that binds nothing yet, and gives its
    /// number.
    pub fn child(&mut self, parent: usize) -> (scope: usize)
        requires
            nested(old(self)@),
            parent < old(self)@.len(),
        ensures
            scope == old(self)@.len(),
            final(self)@ == old(self)@.push(
                ScopeView { parent: Some(parent as int), bindings: Map::empty() },
            ),
            nested(final(self)@),
    {
        let scope = self.scopes.len();
        self.scopes.push(Scope { parent: Some(parent), bindings: StringHashMap::new() });
        assert(self@ =~= old(self)@.push(
            ScopeView { parent: Some(parent as int), bindings: Map::empty() },
        ));
        scope
    }

    /// Binds `name` to `value` in the scope `scope` itself, in the place
    /// of what the scope bound it to before.
    pub fn define(&mut self, scope: usize, name: String, value: Value<R>)
        requires
            nested(old(self)@),
            scope < old(self)@.len(),
        ensures
            final(self)@ == bound(old(self)@, scope as int, name@, value),
            nested(final(self)@),
    {
        let mut changed = self.scopes.remove(scope);
        changed.bindings.insert(name, value);
        self.scopes.insert(scope, changed);
        assert(self@ =~= bound(old(self)@, scope as int, name@, value));
    }

    /// The number of the scope that binds `name` for `scope`, if any.
    fn find(&self, scope: usize, name: &str) -> (found: Option<usize>)
        requires
            nested(self@),
            scope < self@.len(),
        ensures
            binding_scope(self@, scope as int, name@) == (match found {
                Some(at) => Some(at as int),
                None => None,
            }),
            found matches Some(at) ==> at <= scope && self@[at as int].bindings.contains_key(
                name@,
            ),
    {
        let mut at: usize = scope;
        loop
            invariant
                nested(self@),
                at <= scope < self@.len(),
                binding_scope(self@, scope as int, name@) == binding_scope(
                    self@,
                    at as int,
                    name@,
                ),
            decreases at,
        {
            assert(self@[at as int] == self.scopes@[at as int]@);
            if self.scopes[at].bindings.contains_key(name) {
                return Some(at);
            }
            match self.scopes[at].parent {
                Some(parent) => {
                    at = parent;
                },
                None => {
                    return None;
                },
            }
        }
    }

    /// The value that `name` is bound to for an expression in `scope`:
    /// that of the nearest binding outwards. A name that no scope around
    /// binds is an error.
    pub fn get(&self, scope: usize, name: &str) -> (value: Result<&Value<R>, SchemeError>)
        requires
            nested(self@),
            scope < self@.len(),
        ensures
            match binding_scope(self@, scope as int, name@) {
                Some(at) => value matches Ok(found) && *found == self@[at].bindings[name@],
                None => value matches Err(error) && error@ == unbound(name@),
            },
    {
        match self.find(scope, name) {
            Some(at) => {
                assert(self@[at as int] == self.scopes@[at as int]@);
                match self.scopes[at].bindings.get(name) {
                    Some(value) => Ok(value),
                    None => Err(unbound_error(name)),
                }
            },
            None => Err(unbound_error(name)),
        }
    }

    /// Binds `name` to `value` where it is bound for an expression in
    /// `scope`: in the nearest scope outwards that binds it. A name that
    /// no scope around binds is an error, and nothing changes.
    pub fn set(&mut self, scope: usize, name: String, value: Value<R>) -> (done: Result<
        (),
        SchemeError,
    >)
        requires
            nested(old(self)@),
            scope < old(self)@.len(),
        ensures
            match binding_scope(old(self)@, scope as int, name@) {
                Some(at) => done is Ok && final(self)@ == bound(old(self)@, at, name@, value),
                None => done matches Err(error) && error@ == unbound(name@) && final(self)@ == old(
                    self,
                )@,
            },
            nested(final(self)@),
    {
        match self.find(scope, name.as_str()) {
            Some(at) => {
                self.define(at, name, value);
                Ok(())
            },
            None => Err(unbound_error(name.as_str())),
        }
    }
}

/// A binding made in a scope is what the scope then gives for the name,
/// whatever the scopes around it bind; and for any other name, and in
/// any scope that is not inside, all is as before.
pub proof fn lemma_inner_binding_shadows<R: RealNumber>(
    scopes: Seq<ScopeView<R>>,
    scope: int,
    name: Seq<char>,
    value: Value<R>,
    other: Seq<char>,
)
    requires
        nested(scopes),
        0 <= scope < scopes.len(),
    ensures
        binding_scope(bound(scopes, scope, name, value), scope, name) == Some(scope),
        bound(scopes, scope, name, value)[scope].bindings[name] == value,
        other != name ==> binding_scope(bound(scopes, scope, name, value), scope, other)
            == binding_scope(scopes, scope, other),
        forall|outer: int|
            0 <= outer < scope ==> #[trigger] binding_scope(
                bound(scopes, scope, name, value),
                outer,
                name,
            ) == binding_scope(scopes, outer, name),
{
    let after = bound(scopes, scope, name, value);
    if other != name {
        lemma_other_names_keep(scopes, scope, name, value, other, scope);
    }
    assert forall|outer: int| 0 <= outer < scope implies #[trigger] binding_scope(
        after,
        outer,
        name,
    ) == binding_scope(scopes, outer, name) by {
        lemma_outer_scopes_keep(scopes, scope, name, value, outer);
    }
}

proof fn lemma_other_names_keep<R: RealNumber>(
    scopes: Seq<ScopeView<R>>,
    scope: int,
    name: Seq<char>,
    value: Value<R>,
    other: Seq<char>,
    from: int,
)
    requires
        nested(scopes),
        0 <= scope < scopes.len(),
        0 <= from < scopes.len(),
        other != name,
    ensures
        binding_scope(bound(scopes, scope, name, value), from, other) == binding_scope(
            scopes,
            from,
            other,
        ),
    decreases from,
{
    let after = bound(scopes, scope, name, value);
    assert(after[from].parent == scopes[from].parent);
    assert(after[from].bindings.contains_key(other) == scopes[from].bindings.contains_key(other));
    if !scopes[from].bindings.contains_key(other) {
        match scopes[from].parent {
            Some(parent) => {
                lemma_other_names_keep(scopes, scope, name, value, other, parent);
            },
            None => {},
        }
    }
}

proof fn lemma_outer_scopes_keep<R: RealNumber>(
    scopes: Seq<ScopeView<R>>,
    scope: int,
    name: Seq<char>,
    value: Value<R>,
    outer: int,
)
    requires
        nested(scopes),
        0 <= outer < scope < scopes.len(),
    ensures
        binding_scope(bound(scopes, scope, name, value), outer, name) == binding_scope(
            scopes,
            outer,
            name,
        ),
    decreases outer,
{
    let after = bound(scopes, scope, name, value);
    assert(after[outer] == scopes[outer]);
    if !scopes[outer].bindings.contains_key(name) {
        match scopes[outer].parent {
            Some(parent) => {
                lemma_outer_scopes_keep(scopes, scope, name, value, parent);
            },
            None => {},
        }
    }
}

} // verus!
