//! Scope frames and the environment chain.

use vstd::prelude::*;
use crate::builtin::{init_builtins, with_builtins};
use crate::value::{Lval, Value};

verus! {

/// One scope frame: bindings from names to values. A later entry for a
/// name overrides an earlier one.
#[derive(Debug)]
pub struct Lookup {
    pub entries: Vec<(String, Lval)>,
}

/// The mapping that a sequence of bindings denotes.
pub open spec fn frame_of(s: Seq<(String, Lval)>) -> Map<Seq<char>, Value>
    decreases s,
{
    if s.len() == 0 {
        Map::empty()
    } else {
        frame_of(s.drop_last()).insert(s.last().0@, s.last().1.model())
    }
}

/// Two binding sequences with the same names and the same value models
/// denote the same mapping.
pub proof fn lemma_frame_of_eq(a: Seq<(String, Lval)>, b: Seq<(String, Lval)>)
    requires
        a.len() == b.len(),
        forall|i: int| 0 <= i < a.len() ==> #[trigger] a[i].0@ == b[i].0@ && a[i].1@ == b[i].1@,
    ensures
        frame_of(a) == frame_of(b),
    decreases a.len(),
{
    if a.len() > 0 {
        lemma_frame_of_eq(a.drop_last(), b.drop_last());
    }
}

impl Lookup {
    /// A copy of this frame, denoting the same mapping.
    pub fn copy(&self) -> (r: Lookup)
        ensures
            frame_of(r.entries@) == frame_of(self.entries@),
        decreases self,
    {
        let mut entries: Vec<(String, Lval)> = Vec::new();
        let mut i: usize = 0;
        while i < self.entries.len()
            invariant
                i <= self.entries@.len(),
                entries@.len() == i,
                forall|j: int| 0 <= j < i ==> #[trigger] entries@[j].0@ == self.entries@[j].0@
                    && entries@[j].1@ == self.entries@[j].1@,
            decreases self.entries@.len() - i,
        {
            proof {
                vstd::std_specs::vec::axiom_vec_index_decreases(self.entries, i as int);
            }
            let entry = &self.entries[i];
            entries.push((entry.0.clone(), entry.1.copy()));
            i = i + 1;
        }
        proof {
            lemma_frame_of_eq(entries@, self.entries@);
        }
        Lookup { entries }
    }
}

/// Where a name is bound in a binding sequence, its value in the mapping
/// is that of its last entry; where it is not, the mapping lacks it.
pub proof fn lemma_frame_of_last(s: Seq<(String, Lval)>, k: Seq<char>)
    ensures
        frame_of(s).contains_key(k) <==> exists|i: int| 0 <= i < s.len() && #[trigger] s[i].0@ == k,
        forall|i: int|
            0 <= i < s.len() && #[trigger] s[i].0@ == k && (forall|j: int| i < j < s.len() ==> s[j].0@ != k)
            ==> frame_of(s)[k] == s[i].1@,
    decreases s.len(),
{
    if s.len() > 0 {
        lemma_frame_of_last(s.drop_last(), k);
        let n = s.len() - 1;
        if s[n].0@ != k {
            assert forall|i: int| 0 <= i < n && #[trigger] s[i].0@ == k implies s.drop_last()[i].0@ == k by {}
            assert forall|i: int| 0 <= i < n && #[trigger] s.drop_last()[i].0@ == k implies s[i].0@ == k by {}
        }
    }
}

/// Replacing the value of the last entry of a name sets that name in the
/// mapping.
pub proof fn lemma_frame_of_update(s: Seq<(String, Lval)>, i: int, e: (String, Lval))
    requires
        0 <= i < s.len(),
        s[i].0@ == e.0@,
        forall|j: int| i < j < s.len() ==> s[j].0@ != e.0@,
    ensures
        frame_of(s.update(i, e)) == frame_of(s).insert(e.0@, e.1@),
    decreases s.len(),
{
    let t = s.update(i, e);
    if i == s.len() - 1 {
        assert(t.drop_last() =~= s.drop_last());
        assert(frame_of(s).insert(e.0@, e.1@) =~= frame_of(s.drop_last()).insert(e.0@, e.1@));
    } else {
        lemma_frame_of_update(s.drop_last(), i, e);
        assert(t.drop_last() =~= s.drop_last().update(i, e));
        assert(frame_of(t) =~= frame_of(s).insert(e.0@, e.1@));
    }
}

impl View for Lookup {
    type V = Map<Seq<char>, Value>;

    open spec fn view(&self) -> Map<Seq<char>, Value> {
        frame_of(self.entries@)
    }
}

impl Lookup {
    /// An empty frame.
    pub fn new() -> (r: Lookup)
        ensures
            r@ == Map::<Seq<char>, Value>::empty(),
    {
        Lookup { entries: Vec::new() }
    }

    /// The index of the last entry for `key`, if any.
    fn position(&self, key: &String) -> (r: Option<usize>)
        ensures
            match r {
                Some(i) => i < self.entries@.len() && self.entries@[i as int].0@ == key@ && (forall|j: int|
                    i < j < self.entries@.len() ==> self.entries@[j].0@ != key@),
                None => forall|j: int| 0 <= j < self.entries@.len() ==> self.entries@[j].0@ != key@,
            },
    {
        let mut i: usize = self.entries.len();
        while i > 0
            invariant
                i <= self.entries@.len(),
                forall|j: int| i <= j < self.entries@.len() ==> self.entries@[j].0@ != key@,
            decreases i,
        {
            if self.entries[i - 1].0 == *key {
                return Some(i - 1);
            }
            i = i - 1;
        }
        None
    }

    /// Binds `key` to `value` in this frame, replacing an earlier binding.
    pub fn insert(&mut self, key: String, value: Lval)
        ensures
            final(self)@ == old(self)@.insert(key@, value@),
    {
        let ghost k = key@;
        let ghost v = value@;
        match self.position(&key) {
            Some(i) => {
                proof {
                    lemma_frame_of_update(self.entries@, i as int, (key, value));
                }
                self.entries.set(i, (key, value));
            },
            None => {
                self.entries.push((key, value));
                proof {
                    assert(self.entries@.drop_last() =~= old(self).entries@);
                }
            },
        }
    }

    /// The value bound to `key` in this frame.
    pub fn get(&self, key: &String) -> (r: Option<Lval>)
        ensures
            r is Some <==> self@.contains_key(key@),
            r is Some ==> r->0@ == self@[key@],
    {
        proof {
            lemma_frame_of_last(self.entries@, key@);
        }
        match self.position(key) {
            Some(i) => Some(self.entries[i].1.copy()),
            None => None,
        }
    }
}

/// The value bound to `key` in the innermost frame of `e` that binds it.
pub open spec fn env_get(e: Seq<Map<Seq<char>, Value>>, key: Seq<char>) -> Option<Value>
    decreases e.len(),
{
    if e.len() == 0 {
        None
    } else if e.last().contains_key(key) {
        Some(e.last()[key])
    } else {
        env_get(e.drop_last(), key)
    }
}

/// `e` with `key` bound to `v` in its innermost frame; `e` if it has none.
pub open spec fn bind_inner(e: Seq<Map<Seq<char>, Value>>, key: Seq<char>, v: Value) -> Seq<
    Map<Seq<char>, Value>,
> {
    if e.len() == 0 {
        e
    } else {
        e.update(e.len() - 1, e.last().insert(key, v))
    }
}

/// `e` with `key` bound to `v` in its outermost frame; `e` if it has none.
pub open spec fn bind_outer(e: Seq<Map<Seq<char>, Value>>, key: Seq<char>, v: Value) -> Seq<
    Map<Seq<char>, Value>,
> {
    if e.len() == 0 {
        e
    } else {
        e.update(0, e[0].insert(key, v))
    }
}

/// `e` without its innermost frame; `e` if it has none.
pub open spec fn drop_inner(e: Seq<Map<Seq<char>, Value>>) -> Seq<Map<Seq<char>, Value>> {
    if e.len() == 0 {
        e
    } else {
        e.drop_last()
    }
}

/// A chain of scope frames. The first frame is the outermost (global) one,
/// the last the innermost.
#[derive(Debug)]
pub struct Lenv {
    pub frames: Vec<Lookup>,
}

impl View for Lenv {
    type V = Seq<Map<Seq<char>, Value>>;

    open spec fn view(&self) -> Seq<Map<Seq<char>, Value>> {
        self.frames@.map_values(|f: Lookup| f@)
    }
}

impl Lenv {
    /// A chain with no frame.
    pub fn new() -> (r: Lenv)
        ensures
            r@ == Seq::<Map<Seq<char>, Value>>::empty(),
    {
        Lenv { frames: Vec::new() }
    }

    /// Makes `lookup` the innermost frame.
    pub fn push(&mut self, lookup: Lookup)
        ensures
            final(self)@ == old(self)@.push(lookup@),
    {
        self.frames.push(lookup);
        proof {
            assert(self@ =~= old(self)@.push(lookup@));
        }
    }

    /// Removes and returns the innermost frame, if there is one.
    pub fn pop(&mut self) -> (r: Option<Lookup>)
        ensures
            final(self)@ == drop_inner(old(self)@),
            old(self)@.len() == 0 <==> r is None,
            r is Some ==> r->0@ == old(self)@.last(),
    {
        let r = self.frames.pop();
        proof {
            assert(self@ =~= drop_inner(old(self)@));
        }
        r
    }

    /// The innermost frame, if there is one.
    pub fn peek(&self) -> (r: Option<&Lookup>)
        ensures
            self@.len() == 0 <==> r is None,
            r is Some ==> r->0@ == self@.last() && *r->0 == self.frames@.last(),
    {
        if self.frames.len() == 0 {
            None
        } else {
            Some(&self.frames[self.frames.len() - 1])
        }
    }

    /// The innermost frame, to change in place, if there is one.
    pub fn peek_mut(&mut self) -> (r: Option<&mut Lookup>)
        ensures
            old(self).frames@.len() == 0 ==> r is None && final(self).frames@ == old(self).frames@,
            old(self).frames@.len() > 0 ==> (r matches Some(f) && *f == old(self).frames@.last()
                && final(self).frames@ == old(self).frames@.update(
                old(self).frames@.len() - 1,
                *final(f),
            )),
    {
        let n = self.frames.len();
        if n == 0 {
            None
        } else {
            Some(&mut self.frames[n - 1])
        }
    }

    /// Walks the frames from the innermost to the outermost.
    pub fn iter(&self) -> (r: Iter<'_>)
        ensures
            r.env == self,
            r.next == self@.len(),
    {
        Iter { env: self, next: self.frames.len() }
    }

    /// Binds `key` to `lval` in the innermost frame; does nothing where
    /// there is no frame.
    pub fn insert(&mut self, key: &str, lval: Lval)
        ensures
            final(self)@ == bind_inner(old(self)@, key@, lval@),
    {
        let name = key.to_string();
        self.insert_name(name, lval);
    }

    /// Binds `key` to `lval` in the innermost frame; does nothing where
    /// there is no frame.
    pub fn insert_name(&mut self, key: String, lval: Lval)
        ensures
            final(self)@ == bind_inner(old(self)@, key@, lval@),
    {
        let n = self.frames.len();
        if n > 0 {
            self.frames[n - 1].insert(key, lval);
            proof {
                assert(self@ =~= bind_inner(old(self)@, key@, lval@));
            }
        }
    }

    /// Binds `key` to `lval` in the outermost frame; does nothing where
    /// there is no frame.
    pub fn insert_last(&mut self, key: &str, lval: Lval)
        ensures
            final(self)@ == bind_outer(old(self)@, key@, lval@),
    {
        let name = key.to_string();
        self.insert_global(name, lval);
    }

    /// Binds `key` to `lval` in the outermost frame; does nothing where
    /// there is no frame.
    pub fn insert_global(&mut self, key: String, lval: Lval)
        ensures
            final(self)@ == bind_outer(old(self)@, key@, lval@),
    {
        if self.frames.len() > 0 {
            self.frames[0].insert(key, lval);
            proof {
                assert(self@ =~= bind_outer(old(self)@, key@, lval@));
            }
        }
    }

    /// The value bound to `key` in the innermost frame that binds it.
    pub fn get(&self, key: &str) -> (r: Option<Lval>)
        ensures
            r is Some <==> env_get(self@, key@) is Some,
            r is Some ==> r->0@ == env_get(self@, key@)->0,
    {
        let name = key.to_string();
        self.get_name(&name)
    }

    /// The value bound to `key` in the innermost frame that binds it.
    pub fn get_name(&self, key: &String) -> (r: Option<Lval>)
        ensures
            r is Some <==> env_get(self@, key@) is Some,
            r is Some ==> r->0@ == env_get(self@, key@)->0,
    {
        let mut i: usize = self.frames.len();
        proof {
            assert(self@.take(i as int) =~= self@);
        }
        while i > 0
            invariant
                i <= self@.len(),
                env_get(self@, key@) == env_get(self@.take(i as int), key@),
            decreases i,
        {
            let found = self.frames[i - 1].get(key);
            proof {
                assert(self@.take(i as int).drop_last() =~= self@.take(i - 1));
            }
            if found.is_some() {
                return found;
            }
            i = i - 1;
        }
        proof {
            assert(self@.take(0) =~= Seq::<Map<Seq<char>, Value>>::empty());
        }
        None
    }
}

/// A walk over the frames of a chain, from the innermost outwards.
pub struct Iter<'a> {
    pub env: &'a Lenv,
    pub next: usize,
}

impl<'a> Iter<'a> {
    /// The next frame outwards, if any is left.
    pub fn next(&mut self) -> (r: Option<&'a Lookup>)
        requires
            old(self).next <= old(self).env@.len(),
        ensures
            final(self).env == old(self).env,
            old(self).next == 0 ==> r is None && final(self).next == 0,
            old(self).next > 0 ==> r is Some && final(self).next == old(self).next - 1
                && r->0@ == old(self).env@[old(self).next - 1],
    {
        if self.next == 0 {
            None
        } else {
            self.next = self.next - 1;
            Some(&self.env.frames[self.next])
        }
    }
}

/// A chain of one global frame holding the builtin registry.
pub fn init_env() -> (r: Lenv)
    ensures
        r@ == with_builtins(seq![Map::<Seq<char>, Value>::empty()]),
{
    let mut env = Lenv::new();
    env.push(Lookup::new());
    proof {
        assert(env@ =~= seq![Map::<Seq<char>, Value>::empty()]);
    }
    init_builtins(&mut env);
    env
}

impl Lenv {
    /// A copy of this chain, frame by frame.
    pub fn copy(&self) -> (r: Lenv)
        ensures
            r@ == self@,
    {
        let mut frames: Vec<Lookup> = Vec::new();
        let mut i: usize = 0;
        while i < self.frames.len()
            invariant
                i <= self.frames@.len(),
                frames@.len() == i,
                forall|j: int| 0 <= j < i ==> #[trigger] frames@[j]@ == self.frames@[j]@,
            decreases self.frames@.len() - i,
        {
            frames.push(self.frames[i].copy());
            i = i + 1;
        }
        let r = Lenv { frames };
        assert(r@ =~= self@);
        r
    }
}

impl Clone for Lenv {
    fn clone(&self) -> Lenv {
        self.copy()
    }
}

impl Clone for Lookup {
    fn clone(&self) -> Lookup {
        self.copy()
    }
}

} // verus!
