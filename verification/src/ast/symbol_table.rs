use vstd::prelude::*;

use crate::ast::symbol::Symbol;

verus! {

/// What one scope holds, looked up from the newest entry backwards: a later
/// insert of the same name shadows an earlier one, so a scope behaves as a
/// mapping in which later inserts overwrite.
pub open spec fn scope_get(scope: Seq<(String, Symbol)>, name: Seq<char>) -> Option<Symbol>
    decreases scope.len(),
{
    if scope.len() == 0 {
        None
    } else if scope.last().0@ == name {
        Some(scope.last().1)
    } else {
        scope_get(scope.drop_last(), name)
    }
}

/// Name lookup over the whole stack: innermost scope first, outward to the
/// global scope, returning the first match.
pub open spec fn env_get(env: Seq<Seq<(String, Symbol)>>, name: Seq<char>) -> Option<Symbol>
    decreases env.len(),
{
    if env.len() == 0 {
        None
    } else {
        match scope_get(env.last(), name) {
            Some(v) => Some(v),
            None => env_get(env.drop_last(), name),
        }
    }
}

/// Insertion into the innermost scope only: the other scopes are untouched.
pub open spec fn env_insert(
    env: Seq<Seq<(String, Symbol)>>,
    name: String,
    value: Symbol,
) -> Seq<Seq<(String, Symbol)>> {
    if env.len() == 0 {
        env
    } else {
        env.update(env.len() - 1, env.last().push((name, value)))
    }
}

/// Binding a name and then looking it up, with no scope change in between,
/// resolves to the bound value; every other name resolves as before.
pub proof fn lemma_insert_then_get(env: Seq<Seq<(String, Symbol)>>, name: String, value: Symbol)
    requires
        env.len() >= 1,
    ensures
        env_get(env_insert(env, name, value), name@) == Some(value),
        forall|other: Seq<char>|
            other != name@ ==> env_get(env_insert(env, name, value), other) == env_get(env, other),
{
    let pushed = env.last().push((name, value));
    let env2 = env_insert(env, name, value);
    assert(env2.last() == pushed);
    assert(env2.drop_last() =~= env.drop_last());
    assert(pushed.last() == (name, value));
    assert(scope_get(pushed, name@) == Some(value));
    assert(env_get(env2, name@) == Some(value));
    assert forall|other: Seq<char>| other != name@ implies env_get(env2, other) == env_get(
        env,
        other,
    ) by {
        assert(pushed.drop_last() =~= env.last());
        assert(scope_get(pushed, other) == scope_get(env.last(), other));
    }
}

/// The environment: an ordered stack of scopes, each a run of name-to-value
/// bindings. The stack always holds at least one scope, the global scope,
/// created at construction and never popped.
pub struct SymbolTable {
    scopes: Vec<Vec<(String, Symbol)>>,
}

impl View for SymbolTable {
    type V = Seq<Seq<(String, Symbol)>>;

    closed spec fn view(&self) -> Seq<Seq<(String, Symbol)>> {
        self.scopes@.map_values(|s: Vec<(String, Symbol)>| s@)
    }
}

impl SymbolTable {
    /// A fresh environment holding only the empty global scope.
    pub fn new() -> (t: SymbolTable)
        ensures
            t@ == seq![Seq::<(String, Symbol)>::empty()],
    {
        let mut scopes: Vec<Vec<(String, Symbol)>> = Vec::new();
        scopes.push(Vec::new());
        let t = SymbolTable { scopes };
        proof {
            assert(t@ =~= seq![Seq::<(String, Symbol)>::empty()]);
        }
        t
    }

    /// Pushes a new empty scope. The label is diagnostic only and carries no
    /// semantics.
    pub fn push_scope(&mut self, _label: &str)
        ensures
            final(self)@ == old(self)@.push(Seq::<(String, Symbol)>::empty()),
    {
        self.scopes.push(Vec::new());
        proof {
            assert(self@ =~= old(self)@.push(Seq::<(String, Symbol)>::empty()));
        }
    }

    /// Removes the innermost scope. The global scope is never removed:
    /// callers pair each pop with an earlier push.
    pub fn pop_scope(&mut self)
        requires
            old(self)@.len() >= 2,
        ensures
            final(self)@ == old(self)@.drop_last(),
    {
        let _dropped = self.scopes.pop();
        proof {
            assert(self@ =~= old(self)@.drop_last());
        }
    }

    /// Inserts or overwrites `name` in the innermost scope only.
    pub fn insert(&mut self, name: String, value: Symbol)
        requires
            old(self)@.len() >= 1,
        ensures
            final(self)@ == env_insert(old(self)@, name, value),
    {
        let mut scope = self.scopes.pop().unwrap();
        scope.push((name, value));
        self.scopes.push(scope);
        proof {
            assert(self@ =~= env_insert(old(self)@, name, value));
        }
    }

    /// Searches the scopes from the innermost outward and hands back a copy
    /// of the first binding of `name`, or `None` when no scope binds it.
    pub fn get(&self, name: &String) -> (r: Option<Symbol>)
        ensures
            r == env_get(self@, name@),
    {
        let ghost env = self@;
        proof {
            assert(env.take(self.scopes.len() as int) =~= env);
        }
        let mut i = self.scopes.len();
        while i > 0
            invariant
                i <= self.scopes.len(),
                env == self@,
                env_get(env, name@) == env_get(env.take(i as int), name@),
            decreases i,
        {
            i = i - 1;
            let scope = &self.scopes[i];
            let ghost sc = scope@;
            proof {
                assert(env.take(i as int + 1).last() == env[i as int]);
                assert(env[i as int] == sc);
                assert(env.take(i as int + 1).drop_last() =~= env.take(i as int));
                assert(sc.take(scope.len() as int) =~= sc);
            }
            let mut j = scope.len();
            while j > 0
                invariant
                    j <= scope.len(),
                    sc == scope@,
                    i < self.scopes.len(),
                    env == self@,
                    env[i as int] == sc,
                    env.take(i as int + 1).last() == sc,
                    env.take(i as int + 1).drop_last() =~= env.take(i as int),
                    env_get(env, name@) == env_get(env.take(i as int + 1), name@),
                    scope_get(sc, name@) == scope_get(sc.take(j as int), name@),
                decreases j,
            {
                j = j - 1;
                proof {
                    assert(sc.take(j as int + 1).len() == j + 1);
                    assert(sc.take(j as int + 1).last() == sc[j as int]);
                    assert(sc.take(j as int + 1).drop_last() =~= sc.take(j as int));
                }
                if scope[j].0.eq(name) {
                    proof {
                        assert(scope_get(sc.take(j as int + 1), name@) == Some(sc[j as int].1));
                        assert(env_get(env.take(i as int + 1), name@) == Some(sc[j as int].1));
                    }
                    return Some(scope[j].1.duplicate());
                }
            }
            proof {
                assert(sc.take(0) =~= Seq::<(String, Symbol)>::empty());
                assert(scope_get(sc, name@) is None);
            }
        }
        proof {
            assert(env.take(0) =~= Seq::<Seq<(String, Symbol)>>::empty());
        }
        None
    }
}

} // verus!
