//! The environment: a mapping from names to values with a parent link for
//! lexical lookup. The whole chain lives in one arena of scope records
//! addressed by index; a function value captures a scope by its index, so a
//! record outlives the block or call that created it whenever a closure still
//! points at it.

use vstd::prelude::*;
use crate::ast::{ObjectView, object_view};
use crate::errors::RuntimeError;
use crate::token::{Object, chars_eq};

verus! {

/// One scope record: its own bindings and the index of the enclosing scope,
/// if any.
pub struct Scope {
    pub bindings: Vec<(Vec<char>, Object)>,
    pub parent: Option<usize>,
}

/// The arena of scope records. Index 0 is the global scope.
pub struct Environment {
    pub scopes: Vec<Scope>,
}

/// The mathematical shadow of one scope record.
pub struct ScopeView {
    pub bindings: Map<Seq<char>, ObjectView>,
    pub parent: Option<int>,
}

/// The mathematical shadow of the arena.
pub struct EnvironmentView {
    pub scopes: Seq<ScopeView>,
}

/// The mapping a list of bindings stands for; a later pair for the same name
/// overwrites an earlier one.
pub open spec fn assoc_map(s: Seq<(Vec<char>, Object)>) -> Map<Seq<char>, ObjectView>
    decreases s,
{
    if s.len() == 0 {
        Map::empty()
    } else {
        assoc_map(s.subrange(0, s.len() - 1)).insert(s[s.len() - 1].0@, object_view(s[s.len() - 1].1))
    }
}

impl View for Scope {
    type V = ScopeView;

    open spec fn view(&self) -> ScopeView {
        ScopeView {
            bindings: assoc_map(self.bindings@),
            parent: match self.parent {
                Option::Some(p) => Option::Some(p as int),
                Option::None => Option::None,
            },
        }
    }
}

impl View for Environment {
    type V = EnvironmentView;

    open spec fn view(&self) -> EnvironmentView {
        EnvironmentView { scopes: self.scopes@.map_values(|sc: Scope| sc@) }
    }
}

/// Whether a value makes sense against an arena of `n` scope records: a
/// function value must capture an existing record.
pub open spec fn obj_wf(o: ObjectView, n: int) -> bool {
    match o {
        ObjectView::Function(_, _, e) => 0 <= e < n,
        _ => true,
    }
}

/// Well-formedness of the arena: every parent link points at an earlier
/// record, and every stored value makes sense against the arena.
pub open spec fn env_wf(env: EnvironmentView) -> bool {
    forall|i: int|
        0 <= i < env.scopes.len() ==> {
            &&& (#[trigger] env.scopes[i]).parent matches Option::Some(p) ==> 0 <= p < i
            &&& forall|name: Seq<char>|
                env.scopes[i].bindings.contains_key(name) ==> obj_wf(
                    #[trigger] env.scopes[i].bindings[name],
                    env.scopes.len() as int,
                )
        }
}

/// The scope record that resolves a name: the first record on the chain from
/// `s` outward whose bindings contain the name, if any.
pub open spec fn resolve(env: EnvironmentView, s: int, name: Seq<char>) -> Option<int>
    decreases s,
{
    if 0 <= s < env.scopes.len() {
        if env.scopes[s].bindings.contains_key(name) {
            Option::Some(s)
        } else {
            match env.scopes[s].parent {
                Option::Some(p) => if 0 <= p < s {
                    resolve(env, p, name)
                } else {
                    Option::None
                },
                Option::None => Option::None,
            }
        }
    } else {
        Option::None
    }
}

/// The value a name denotes, read through the chain from `s` outward; the
/// first binding found wins (shadowing).
pub open spec fn lookup(env: EnvironmentView, s: int, name: Seq<char>) -> Option<ObjectView> {
    match resolve(env, s, name) {
        Option::Some(i) => Option::Some(env.scopes[i].bindings[name]),
        Option::None => Option::None,
    }
}

/// Distinctness of the keys of a binding list; the arena keeps it so that a
/// positional search agrees with the mapping.
pub open spec fn distinct_keys(s: Seq<(Vec<char>, Object)>) -> bool {
    forall|i: int, j: int| 0 <= i < j < s.len() ==> (#[trigger] s[i]).0@ != (#[trigger] s[j]).0@
}

/// A name is in the mapping of a binding list exactly when some pair carries
/// it.
pub proof fn lemma_assoc_contains(s: Seq<(Vec<char>, Object)>, name: Seq<char>)
    ensures
        assoc_map(s).contains_key(name) <==> exists|i: int|
            0 <= i < s.len() && (#[trigger] s[i]).0@ == name,
    decreases s,
{
    if s.len() > 0 {
        lemma_assoc_contains(s.subrange(0, s.len() - 1), name);
        if assoc_map(s).contains_key(name) {
            if s[s.len() - 1].0@ == name {
                assert(0 <= s.len() - 1 < s.len() && s[s.len() - 1].0@ == name);
            } else {
                let i = choose|i: int|
                    0 <= i < s.len() - 1 && (#[trigger] s.subrange(0, s.len() - 1)[i]).0@ == name;
                assert(s[i] == s.subrange(0, s.len() - 1)[i]);
            }
        }
        if exists|i: int| 0 <= i < s.len() && (#[trigger] s[i]).0@ == name {
            let i = choose|i: int| 0 <= i < s.len() && (#[trigger] s[i]).0@ == name;
            if i < s.len() - 1 {
                assert(s.subrange(0, s.len() - 1)[i] == s[i]);
            }
        }
    }
}

/// With distinct keys, the pair that carries a name gives its value in the
/// mapping.
pub proof fn lemma_assoc_get(s: Seq<(Vec<char>, Object)>, i: int)
    requires
        distinct_keys(s),
        0 <= i < s.len(),
    ensures
        assoc_map(s).contains_key(s[i].0@),
        assoc_map(s)[s[i].0@] == object_view(s[i].1),
    decreases s,
{
    lemma_assoc_contains(s, s[i].0@);
    if i < s.len() - 1 {
        assert(s.subrange(0, s.len() - 1)[i] == s[i]);
        assert(distinct_keys(s.subrange(0, s.len() - 1))) by {
            assert(forall|a: int, b: int|
                0 <= a < b < s.len() - 1 ==> (#[trigger] s.subrange(0, s.len() - 1)[a]).0@ == s[a].0@
                    && (#[trigger] s.subrange(0, s.len() - 1)[b]).0@ == s[b].0@);
        }
        lemma_assoc_get(s.subrange(0, s.len() - 1), i);
        assert(s[s.len() - 1].0@ != s[i].0@);
    }
}

/// Overwriting the pair that carries a name updates the mapping at that name
/// alone.
pub proof fn lemma_assoc_update(s: Seq<(Vec<char>, Object)>, i: int, p: (Vec<char>, Object))
    requires
        distinct_keys(s),
        0 <= i < s.len(),
        p.0@ == s[i].0@,
    ensures
        assoc_map(s.update(i, p)) == assoc_map(s).insert(p.0@, object_view(p.1)),
        distinct_keys(s.update(i, p)),
    decreases s,
{
    let t = s.update(i, p);
    assert(forall|a: int| 0 <= a < s.len() && a != i ==> #[trigger] t[a] == s[a]);
    if i == s.len() - 1 {
        assert(t.subrange(0, t.len() - 1) =~= s.subrange(0, s.len() - 1));
        assert(assoc_map(t) == assoc_map(s.subrange(0, s.len() - 1)).insert(
            p.0@,
            object_view(p.1),
        ));
        assert(assoc_map(s.subrange(0, s.len() - 1)).insert(p.0@, object_view(p.1))
            =~= assoc_map(s).insert(p.0@, object_view(p.1)));
    } else {
        assert(distinct_keys(s.subrange(0, s.len() - 1))) by {
            assert(forall|a: int, b: int|
                0 <= a < b < s.len() - 1 ==> (#[trigger] s.subrange(0, s.len() - 1)[a]).0@ == s[a].0@
                    && (#[trigger] s.subrange(0, s.len() - 1)[b]).0@ == s[b].0@);
        }
        assert(t.subrange(0, t.len() - 1) =~= s.subrange(0, s.len() - 1).update(i, p));
        lemma_assoc_update(s.subrange(0, s.len() - 1), i, p);
        assert(t[t.len() - 1] == s[s.len() - 1]);
        assert(s[s.len() - 1].0@ != p.0@);
        assert(assoc_map(t) =~= assoc_map(s).insert(p.0@, object_view(p.1)));
    }
}

/// Appending a pair for a fresh name extends the mapping at that name alone.
pub proof fn lemma_assoc_push(s: Seq<(Vec<char>, Object)>, p: (Vec<char>, Object))
    ensures
        assoc_map(s.push(p)) == assoc_map(s).insert(p.0@, object_view(p.1)),
{
    assert(s.push(p).subrange(0, s.push(p).len() - 1) =~= s);
}

impl Environment {
    /// Representation invariant: each record's binding list has distinct
    /// keys, and the shadow arena is well formed.
    pub open spec fn inv(&self) -> bool {
        &&& forall|i: int|
            0 <= i < self.scopes@.len() ==> distinct_keys((#[trigger] self.scopes@[i]).bindings@)
        &&& env_wf(self@)
    }

    /// A fresh arena holding only the empty global scope.
    pub fn new() -> (env: Environment)
        ensures
            env.inv(),
            env@.scopes.len() == 1,
            env@.scopes[0].bindings == Map::<Seq<char>, ObjectView>::empty(),
            env@.scopes[0].parent is None,
    {
        let mut scopes: Vec<Scope> = Vec::new();
        scopes.push(Scope { bindings: Vec::new(), parent: Option::None });
        let env = Environment { scopes };
        proof {
            assert(env@.scopes =~= seq![
                ScopeView {
                    bindings: Map::<Seq<char>, ObjectView>::empty(),
                    parent: Option::None,
                },
            ]);
        }
        env
    }

    /// Opens one new child scope under `parent` and returns its index.
    pub fn new_scope(&mut self, parent: usize) -> (idx: usize)
        requires
            old(self).inv(),
            parent < old(self).scopes@.len(),
        ensures
            final(self).inv(),
            idx == old(self)@.scopes.len(),
            final(self)@.scopes == old(self)@.scopes.push(
                ScopeView {
                    bindings: Map::<Seq<char>, ObjectView>::empty(),
                    parent: Option::Some(parent as int),
                },
            ),
    {
        let idx = self.scopes.len();
        self.scopes.push(Scope { bindings: Vec::new(), parent: Option::Some(parent) });
        proof {
            assert(self@.scopes =~= old(self)@.scopes.push(
                ScopeView {
                    bindings: Map::<Seq<char>, ObjectView>::empty(),
                    parent: Option::Some(parent as int),
                },
            ));
            assert forall|i: int, name: Seq<char>|
                #![trigger self@.scopes[i].bindings.contains_key(name)]
                0 <= i < self@.scopes.len() && self@.scopes[i].bindings.contains_key(
                    name,
                ) implies obj_wf(self@.scopes[i].bindings[name], self@.scopes.len() as int) by {
                if i < old(self)@.scopes.len() {
                    assert(old(self)@.scopes[i].bindings.contains_key(name));
                }
            }
        }
        idx
    }

    /// Inserts or overwrites a binding in scope `s` itself.
    pub fn define(&mut self, s: usize, name: Vec<char>, value: Object)
        requires
            old(self).inv(),
            s < old(self).scopes@.len(),
            obj_wf(value@, old(self).scopes@.len() as int),
        ensures
            final(self).inv(),
            final(self)@.scopes == old(self)@.scopes.update(
                s as int,
                ScopeView {
                    bindings: old(self)@.scopes[s as int].bindings.insert(name@, value@),
                    parent: old(self)@.scopes[s as int].parent,
                },
            ),
    {
        let ghost old_env = self@;
        let found = Self::find_in(&self.scopes[s].bindings, &name);
        match found {
            Option::Some(i) => {
                let sc = &mut self.scopes[s];
                proof {
                    lemma_assoc_update(sc.bindings@, i as int, (name, value));
                }
                sc.bindings[i] = (name, value);
            },
            Option::None => {
                let sc = &mut self.scopes[s];
                proof {
                    lemma_assoc_push(sc.bindings@, (name, value));
                    lemma_assoc_contains(sc.bindings@, name@);
                }
                sc.bindings.push((name, value));
                proof {
                    assert(distinct_keys(sc.bindings@)) by {
                        assert(forall|a: int|
                            0 <= a < sc.bindings@.len() - 1 ==> (#[trigger] sc.bindings@[a]).0@
                                != name@);
                    }
                }
            },
        }
        proof {
            assert(self@.scopes =~= old_env.scopes.update(
                s as int,
                ScopeView {
                    bindings: old_env.scopes[s as int].bindings.insert(name@, value@),
                    parent: old_env.scopes[s as int].parent,
                },
            ));
            assert forall|i: int, nm: Seq<char>|
                #![trigger self@.scopes[i].bindings.contains_key(nm)]
                0 <= i < self@.scopes.len() && self@.scopes[i].bindings.contains_key(
                    nm,
                ) implies obj_wf(self@.scopes[i].bindings[nm], self@.scopes.len() as int) by {
                if i != s as int || nm != name@ {
                    assert(old_env.scopes[i].bindings.contains_key(nm));
                    assert(self@.scopes[i].bindings[nm] == old_env.scopes[i].bindings[nm]);
                }
            }
        }
    }

    /// Finds the position of a name in one binding list.
    fn find_in(b: &Vec<(Vec<char>, Object)>, name: &Vec<char>) -> (r: Option<usize>)
        requires
            distinct_keys(b@),
        ensures
            match r {
                Option::Some(i) => {
                    &&& i < b@.len()
                    &&& b@[i as int].0@ == name@
                    &&& assoc_map(b@).contains_key(name@)
                    &&& assoc_map(b@)[name@] == object_view(b@[i as int].1)
                },
                Option::None => !assoc_map(b@).contains_key(name@),
            },
    {
        let n = b.len();
        let mut i: usize = 0;
        while i < n
            invariant
                distinct_keys(b@),
                n == b@.len(),
                0 <= i <= n,
                forall|j: int| 0 <= j < i ==> (#[trigger] b@[j]).0@ != name@,
            decreases n - i,
        {
            if chars_eq(&b[i].0, name) {
                proof {
                    lemma_assoc_get(b@, i as int);
                }
                return Option::Some(i);
            }
            i += 1;
        }
        proof {
            lemma_assoc_contains(b@, name@);
        }
        Option::None
    }

    /// Walks the chain from `s` outward and overwrites the nearest binding of
    /// the name; fails, changing nothing, exactly when no scope on the chain
    /// binds it.
    pub fn assign(&mut self, s: usize, name: &Vec<char>, value: Object, line: usize) -> (r: Result<
        (),
        RuntimeError,
    >)
        requires
            old(self).inv(),
            s < old(self).scopes@.len(),
            obj_wf(value@, old(self).scopes@.len() as int),
        ensures
            final(self).inv(),
            match r {
                Result::Ok(()) => {
                    &&& resolve(old(self)@, s as int, name@) matches Option::Some(t)
                    &&& 0 <= t < old(self)@.scopes.len()
                    &&& final(self)@.scopes == old(self)@.scopes.update(
                        t,
                        ScopeView {
                            bindings: old(self)@.scopes[t].bindings.insert(name@, value@),
                            parent: old(self)@.scopes[t].parent,
                        },
                    )
                },
                Result::Err(e) => {
                    &&& e == (RuntimeError::UndefinedVariable { line })
                    &&& resolve(old(self)@, s as int, name@) is None
                    &&& final(self)@ == old(self)@
                },
            },
    {
        let mut cur = s;
        loop
            invariant
                self.inv(),
                self@ == old(self)@,
                cur < self.scopes@.len(),
                obj_wf(value@, self.scopes@.len() as int),
                resolve(self@, s as int, name@) == resolve(self@, cur as int, name@),
            decreases cur,
        {
            let found = Self::find_in(&self.scopes[cur].bindings, name);
            match found {
                Option::Some(_) => {
                    let ghost t = cur as int;
                    proof {
                        assert(resolve(self@, cur as int, name@) == Option::Some(t));
                    }
                    let nm = crate::token::clone_chars(name);
                    self.define(cur, nm, value);
                    return Result::Ok(());
                },
                Option::None => {
                    proof {
                        assert(!self@.scopes[cur as int].bindings.contains_key(name@));
                    }
                    match self.scopes[cur].parent {
                        Option::Some(p) => {
                            proof {
                                assert(self@.scopes[cur as int].parent == Option::Some(p as int));
                                assert(0 <= p < cur);
                            }
                            cur = p;
                        },
                        Option::None => {
                            proof {
                                assert(self@.scopes[cur as int].parent is None);
                                assert(resolve(self@, cur as int, name@) is None);
                            }
                            return Result::Err(RuntimeError::UndefinedVariable { line });
                        },
                    }
                },
            }
        }
    }

    /// Walks the chain from `s` outward and returns the value of the nearest
    /// binding of the name; fails exactly when no scope on the chain binds
    /// it.
    pub fn retrieve(&self, s: usize, name: &Vec<char>, line: usize) -> (r: Result<
        Object,
        RuntimeError,
    >)
        requires
            self.inv(),
            s < self.scopes@.len(),
        ensures
            match r {
                Result::Ok(o) => {
                    &&& lookup(self@, s as int, name@) == Option::Some(o@)
                    &&& obj_wf(o@, self.scopes@.len() as int)
                },
                Result::Err(e) => {
                    &&& e == (RuntimeError::UndefinedVariable { line })
                    &&& lookup(self@, s as int, name@) is None
                },
            },
    {
        let mut cur = s;
        loop
            invariant
                self.inv(),
                cur < self.scopes@.len(),
                resolve(self@, s as int, name@) == resolve(self@, cur as int, name@),
            decreases cur,
        {
            let found = Self::find_in(&self.scopes[cur].bindings, name);
            match found {
                Option::Some(i) => {
                    proof {
                        assert(resolve(self@, cur as int, name@) == Option::Some(cur as int));
                    }
                    let o = crate::ast::clone_object(&self.scopes[cur].bindings[i].1);
                    return Result::Ok(o);
                },
                Option::None => {
                    proof {
                        assert(!self@.scopes[cur as int].bindings.contains_key(name@));
                    }
                    match self.scopes[cur].parent {
                        Option::Some(p) => {
                            proof {
                                assert(self@.scopes[cur as int].parent == Option::Some(p as int));
                                assert(0 <= p < cur);
                            }
                            cur = p;
                        },
                        Option::None => {
                            proof {
                                assert(self@.scopes[cur as int].parent is None);
                            }
                            return Result::Err(RuntimeError::UndefinedVariable { line });
                        },
                    }
                },
            }
        }
    }
}

} // verus!
