use crate::object::{copied, valid, Object};
use vstd::prelude::*;

verus! {

/// One lexical scope: names bound to values, and the scope it is nested
/// in, named by its index among the evaluator's environments.
///
/// The bindings are pairs of a name and a value, each name at most once.
/// `get` and `set` work on this scope alone; a lookup that follows the
/// chain of enclosing scopes is `Evaluator::lookup`.
pub struct Environment {
    store: Vec<(String, Object)>,
    outer: Option<usize>,
}

impl Environment {
    /// The bindings of this scope, each name at most once.
    pub closed spec fn bindings(&self) -> Seq<(String, Object)> {
        self.store@
    }

    /// The enclosing scope, if any.
    pub closed spec fn outer_link(&self) -> Option<usize> {
        self.outer
    }

    pub open spec fn wf(&self) -> bool {
        forall|i: int, j: int|
            0 <= i < j < self.bindings().len() ==> #[trigger] self.bindings()[i].0@
                != #[trigger] self.bindings()[j].0@
    }

    pub open spec fn binds(&self, name: Seq<char>) -> bool {
        exists|i: int| 0 <= i < self.bindings().len() && #[trigger] self.bindings()[i].0@ == name
    }

    /// The value bound to `name` in this scope alone.
    pub open spec fn lookup(&self, name: Seq<char>) -> Option<Object> {
        if self.binds(name) {
            Some(
                self.bindings()[choose|i: int|
                    0 <= i < self.bindings().len() && #[trigger] self.bindings()[i].0@
                        == name].1,
            )
        } else {
            None
        }
    }

    /// Every bound value is valid for `n` scopes.
    pub open spec fn values_valid(&self, n: int) -> bool {
        forall|j: int| 0 <= j < self.bindings().len() ==> valid(#[trigger] self.bindings()[j].1, n)
    }

    pub proof fn lemma_lookup_valid(&self, name: Seq<char>, n: int)
        requires
            self.values_valid(n),
        ensures
            self.lookup(name) matches Some(v) ==> valid(v, n),
    {
        if self.binds(name) {
            let c = choose|c: int|
                0 <= c < self.bindings().len() && #[trigger] self.bindings()[c].0@ == name;
            assert(valid(self.bindings()[c].1, n));
        }
    }

    proof fn lemma_lookup_at(&self, i: int)
        requires
            self.wf(),
            0 <= i < self.bindings().len(),
        ensures
            self.lookup(self.bindings()[i].0@) == Some(self.bindings()[i].1),
    {
        let name = self.bindings()[i].0@;
        assert(self.binds(name));
        let c = choose|c: int|
            0 <= c < self.bindings().len() && #[trigger] self.bindings()[c].0@ == name;
        if c < i {
            assert(self.bindings()[c].0@ != self.bindings()[i].0@);
        } else if c > i {
            assert(self.bindings()[i].0@ != self.bindings()[c].0@);
        }
    }

    /// An outermost scope with no bindings.
    pub fn new() -> (r: Self)
        ensures
            r.wf(),
            r.bindings().len() == 0,
            forall|n: int| #[trigger] r.values_valid(n),
            r.outer_link() is None,
    {
        Environment { store: Vec::new(), outer: None }
    }

    /// An empty scope nested in the scope `outer`.
    pub fn new_enclosed(outer: usize) -> (r: Self)
        ensures
            r.wf(),
            r.bindings().len() == 0,
            forall|n: int| #[trigger] r.values_valid(n),
            r.outer_link() == Some(outer),
    {
        Environment { store: Vec::new(), outer: Some(outer) }
    }

    pub fn outer(&self) -> (r: Option<usize>)
        ensures
            r == self.outer_link(),
    {
        self.outer
    }

    /// A copy of the value bound to `name` in this scope.
    pub fn get(&self, name: &str) -> (r: Option<Object>)
        requires
            self.wf(),
        ensures
            match self.lookup(name@) {
                Some(v) => r matches Some(o) && copied(v, o),
                None => r is None,
            },
    {
        let key = name.to_owned();
        let mut i: usize = 0;
        while i < self.store.len()
            invariant
                self.wf(),
                key@ == name@,
                i <= self.store@.len(),
                forall|j: int| 0 <= j < i ==> #[trigger] self.store@[j].0@ != name@,
            decreases self.store@.len() - i,
        {
            if crate::text::same_text(self.store[i].0.as_str(), key.as_str()) {
                proof {
                    self.lemma_lookup_at(i as int);
                }
                return Some(self.store[i].1.duplicate());
            }
            i = i + 1;
        }
        None
    }

    /// Binds `name` to `value` in this scope, replacing any binding of it here.
    pub fn set(&mut self, name: String, value: Object)
        requires
            old(self).wf(),
        ensures
            final(self).wf(),
            final(self).outer_link() == old(self).outer_link(),
            forall|n: int|
                old(self).values_valid(n) && valid(value, n) ==> #[trigger] final(self).values_valid(n),
            forall|k: Seq<char>| #[trigger]
                final(self).lookup(k) == if k == name@ {
                    Some(value)
                } else {
                    old(self).lookup(k)
                },
    {
        let ghost old_env = *self;
        let ghost key = name@;
        let mut i: usize = 0;
        let n = self.store.len();
        while i < n
            invariant
                *self == old_env,
                old_env == *old(self),
                old_env.wf(),
                key == name@,
                n == self.store@.len(),
                i <= n,
                forall|j: int| 0 <= j < i ==> #[trigger] self.store@[j].0@ != key,
            decreases n - i,
        {
            if crate::text::same_text(self.store[i].0.as_str(), name.as_str()) {
                self.store.set(i, (name, value));
                proof {
                    assert(self.wf()) by {
                        assert forall|a: int, b: int|
                            0 <= a < b < self.bindings().len() implies #[trigger] self.bindings()[a].0@
                            != #[trigger] self.bindings()[b].0@ by {
                            assert(old_env.bindings()[a].0@ != old_env.bindings()[b].0@);
                        }
                    }
                    self.lemma_lookup_at(i as int);
                    assert forall|m: int|
                        old_env.values_valid(m) && valid(value, m) implies #[trigger] self.values_valid(
                        m,
                    ) by {
                        assert forall|j: int| 0 <= j < self.bindings().len() implies valid(
                            #[trigger] self.bindings()[j].1,
                            m,
                        ) by {
                            if j != i {
                                assert(self.bindings()[j] == old_env.bindings()[j]);
                            }
                        }
                    }
                    assert forall|k: Seq<char>| #[trigger]
                        self.lookup(k) == if k == key {
                            Some(value)
                        } else {
                            old_env.lookup(k)
                        } by {
                        if k != key {
                            if self.binds(k) {
                                let c = choose|c: int|
                                    0 <= c < self.bindings().len() && #[trigger] self.bindings()[c].0@
                                        == k;
                                self.lemma_lookup_at(c);
                                old_env.lemma_lookup_at(c);
                            } else {
                                assert(!old_env.binds(k)) by {
                                    if old_env.binds(k) {
                                        let c = choose|c: int|
                                            0 <= c < old_env.bindings().len()
                                                && #[trigger] old_env.bindings()[c].0@ == k;
                                        assert(self.bindings()[c].0@ == k);
                                    }
                                }
                            }
                        }
                    }
                }
                return;
            }
            i = i + 1;
        }
        self.store.push((name, value));
        proof {
            assert(self.wf()) by {
                assert forall|a: int, b: int|
                    0 <= a < b < self.bindings().len() implies #[trigger] self.bindings()[a].0@
                    != #[trigger] self.bindings()[b].0@ by {
                    if b < n {
                        assert(old_env.bindings()[a].0@ != old_env.bindings()[b].0@);
                    } else {
                        assert(old_env.bindings()[a].0@ != key);
                    }
                }
            }
            self.lemma_lookup_at(n as int);
            assert forall|m: int|
                old_env.values_valid(m) && valid(value, m) implies #[trigger] self.values_valid(m) by {
                assert forall|j: int| 0 <= j < self.bindings().len() implies valid(
                    #[trigger] self.bindings()[j].1,
                    m,
                ) by {
                    if j < n {
                        assert(self.bindings()[j] == old_env.bindings()[j]);
                    }
                }
            }
            assert forall|k: Seq<char>| #[trigger]
                self.lookup(k) == if k == key {
                    Some(value)
                } else {
                    old_env.lookup(k)
                } by {
                if k != key {
                    if self.binds(k) {
                        let c = choose|c: int|
                            0 <= c < self.bindings().len() && #[trigger] self.bindings()[c].0@ == k;
                        self.lemma_lookup_at(c);
                        old_env.lemma_lookup_at(c);
                    } else {
                        assert(!old_env.binds(k)) by {
                            if old_env.binds(k) {
                                let c = choose|c: int|
                                    0 <= c < old_env.bindings().len()
                                        && #[trigger] old_env.bindings()[c].0@ == k;
                                assert(self.bindings()[c].0@ == k);
                            }
                        }
                    }
                }
            }
        }
    }
}

} // verus!
