//! The variable context of an evaluation: names bound to expressions.
use vstd::prelude::*;
use crate::expr::{clone_exact, Expr, Name, Term};

verus! {

broadcast use vstd::std_specs::vec::group_vec_axioms;

/// The model of a context: its bindings in the order they were first made.
pub type Bindings<T, U> = Seq<(Seq<char>, Term<T, U>)>;

/// The position of the first binding of `k`, or -1 when `k` is unbound.
pub open spec fn key_index<T, U>(s: Bindings<T, U>, k: Seq<char>) -> int
    decreases s.len(),
{
    if s.len() == 0 {
        -1
    } else if s[0].0 == k {
        0
    } else {
        let r = key_index(s.drop_first(), k);
        if r < 0 {
            -1
        } else {
            r + 1
        }
    }
}

/// The expression bound to `k`, if any.
pub open spec fn lookup<T, U>(s: Bindings<T, U>, k: Seq<char>) -> Option<Term<T, U>> {
    let i = key_index(s, k);
    if i >= 0 {
        Some(s[i].1)
    } else {
        None
    }
}

/// The bindings with `k` bound to `v`: an existing binding of `k` is replaced in place,
/// otherwise the binding is added at the end.
pub open spec fn bind<T, U>(s: Bindings<T, U>, k: Seq<char>, v: Term<T, U>) -> Bindings<T, U> {
    let i = key_index(s, k);
    if i >= 0 {
        s.update(i, (k, v))
    } else {
        s.push((k, v))
    }
}

/// The bindings with each pair bound in turn.
pub open spec fn bind_pairs<T, U>(s: Bindings<T, U>, pairs: Seq<(Seq<char>, Term<T, U>)>) -> Bindings<T, U>
    decreases pairs.len(),
{
    if pairs.len() == 0 {
        s
    } else {
        bind(bind_pairs(s, pairs.drop_last()), pairs.last().0, pairs.last().1)
    }
}

/// No name is bound twice.
pub open spec fn keys_distinct<T, U>(s: Bindings<T, U>) -> bool {
    forall|i: int, j: int| 0 <= i < j < s.len() ==> s[i].0 != s[j].0
}

/// `key_index` finds the first binding of a name.
pub proof fn lemma_key_index<T, U>(s: Bindings<T, U>, k: Seq<char>)
    ensures
        -1 <= key_index(s, k) < s.len(),
        key_index(s, k) >= 0 ==> s[key_index(s, k)].0 == k,
        forall|j: int| 0 <= j < s.len() && (key_index(s, k) < 0 || j < key_index(s, k)) ==> s[j].0 != k,
    decreases s.len(),
{
    if s.len() > 0 {
        lemma_key_index(s.drop_first(), k);
        assert forall|j: int| 0 <= j < s.len() && (key_index(s, k) < 0 || j < key_index(s, k)) implies s[j].0 != k by {
            if j > 0 {
                assert(s.drop_first()[j - 1] == s[j]);
            }
        }
    }
}

/// A binding at a position before which the name does not occur is the first one.
pub proof fn lemma_key_index_at<T, U>(s: Bindings<T, U>, k: Seq<char>, i: int)
    requires
        0 <= i < s.len(),
        s[i].0 == k,
        forall|j: int| 0 <= j < i ==> s[j].0 != k,
    ensures
        key_index(s, k) == i,
{
    lemma_key_index(s, k);
}

/// A name that occurs nowhere has no binding.
pub proof fn lemma_key_index_absent<T, U>(s: Bindings<T, U>, k: Seq<char>)
    requires
        forall|j: int| 0 <= j < s.len() ==> s[j].0 != k,
    ensures
        key_index(s, k) == -1,
{
    lemma_key_index(s, k);
}

/// Reading a name right after binding it gives the bound expression.
pub proof fn lemma_lookup_bind_same<T, U>(s: Bindings<T, U>, k: Seq<char>, v: Term<T, U>)
    ensures
        lookup(bind(s, k, v), k) == Some(v),
{
    lemma_key_index(s, k);
    let b = bind(s, k, v);
    if key_index(s, k) >= 0 {
        lemma_key_index_at(b, k, key_index(s, k));
    } else {
        lemma_key_index_at(b, k, s.len() as int);
    }
}

/// Binding a name leaves the bindings of all other names as they were.
pub proof fn lemma_lookup_bind_other<T, U>(s: Bindings<T, U>, k: Seq<char>, v: Term<T, U>, k2: Seq<char>)
    requires
        k2 != k,
    ensures
        lookup(bind(s, k, v), k2) == lookup(s, k2),
{
    lemma_key_index(s, k);
    lemma_key_index(s, k2);
    let b = bind(s, k, v);
    if key_index(s, k2) >= 0 {
        lemma_key_index_at(b, k2, key_index(s, k2));
    } else {
        lemma_key_index_absent(b, k2);
    }
}

/// Binding keeps every name bound at most once.
pub proof fn lemma_bind_keys_distinct<T, U>(s: Bindings<T, U>, k: Seq<char>, v: Term<T, U>)
    requires
        keys_distinct(s),
    ensures
        keys_distinct(bind(s, k, v)),
{
    lemma_key_index(s, k);
}

/// Names bound to expressions, each name at most once, in the order of their first binding.
pub struct Context<T, U> {
    entries: Vec<(Name, Expr<T, U>)>,
}

pub open spec fn bindings_of<T, U>(s: Seq<(Name, Expr<T, U>)>) -> Bindings<T, U> {
    s.map_values(|e: (Name, Expr<T, U>)| (e.0@, e.1@))
}

impl<T, U> View for Context<T, U> {
    type V = Bindings<T, U>;

    closed spec fn view(&self) -> Bindings<T, U> {
        bindings_of(self.entries@)
    }
}

impl<T, U> Context<T, U> {
    #[verifier::type_invariant]
    closed spec fn well_formed(self) -> bool {
        keys_distinct(bindings_of(self.entries@))
    }

    /// The empty context.
    pub fn new() -> (r: Self)
        ensures
            r@ == Seq::<(Seq<char>, Term<T, U>)>::empty(),
    {
        let r = Context { entries: Vec::new() };
        assert(bindings_of(r.entries@) =~= Seq::<(Seq<char>, Term<T, U>)>::empty());
        r
    }

    /// The number of bindings.
    pub fn len(&self) -> (r: usize)
        ensures
            r == self@.len(),
            keys_distinct(self@),
    {
        proof {
            use_type_invariant(self);
        }
        self.entries.len()
    }

    /// The name and expression of the binding at position `i`.
    pub fn entry(&self, i: usize) -> (r: (&Name, &Expr<T, U>))
        requires
            i < self@.len(),
        ensures
            r.0@ == self@[i as int].0,
            r.1@ == self@[i as int].1,
    {
        let e = &self.entries[i];
        (&e.0, &e.1)
    }

    fn find(&self, k: &Name) -> (r: Option<usize>)
        ensures
            match r {
                Some(i) => key_index(self@, k@) == i as int && i < self.entries@.len(),
                None => key_index(self@, k@) == -1,
            },
    {
        let n = self.entries.len();
        let mut i: usize = 0;
        while i < n
            invariant
                n == self.entries@.len(),
                0 <= i <= n,
                forall|j: int| 0 <= j < i ==> self@[j].0 != k@,
            decreases n - i,
        {
            if self.entries[i].0 == *k {
                proof {
                    lemma_key_index_at(self@, k@, i as int);
                }
                return Some(i);
            }
            i = i + 1;
        }
        proof {
            lemma_key_index_absent(self@, k@);
        }
        None
    }

    /// The expression bound to `k`, if any.
    pub fn get(&self, k: &Name) -> (r: Option<&Expr<T, U>>)
        ensures
            match r {
                Some(e) => lookup(self@, k@) == Some(e@),
                None => lookup(self@, k@) is None,
            },
    {
        match self.find(k) {
            Some(i) => Some(&self.entries[i].1),
            None => None,
        }
    }

    /// Binds `k` to `v`, replacing an earlier binding of `k`.
    pub fn insert(&mut self, k: Name, v: Expr<T, U>)
        ensures
            final(self)@ == bind(old(self)@, k@, v@),
    {
        proof {
            use_type_invariant(&*self);
            lemma_bind_keys_distinct(self@, k@, v@);
        }
        let ghost kv = k@;
        let ghost vv = v@;
        match self.find(&k) {
            Some(i) => {
                let mut entries: Vec<(Name, Expr<T, U>)> = Vec::new();
                std::mem::swap(&mut entries, &mut self.entries);
                entries.set(i, (k, v));
                assert(bindings_of(entries@) =~= bind(old(self)@, kv, vv));
                self.entries = entries;
            },
            None => {
                let mut entries: Vec<(Name, Expr<T, U>)> = Vec::new();
                std::mem::swap(&mut entries, &mut self.entries);
                entries.push((k, v));
                assert(bindings_of(entries@) =~= bind(old(self)@, kv, vv));
                self.entries = entries;
            },
        }
    }
}

impl<T: Clone, U: Clone> Clone for Context<T, U> {
    fn clone(&self) -> (r: Self)
        ensures
            clone_exact::<T>() && clone_exact::<U>() ==> r@ == self@,
    {
        proof {
            use_type_invariant(self);
        }
        let mut entries: Vec<(Name, Expr<T, U>)> = Vec::new();
        let n = self.entries.len();
        let mut i: usize = 0;
        while i < n
            invariant
                n == self.entries@.len(),
                0 <= i <= n,
                entries@.len() == i,
                forall|j: int| 0 <= j < i ==> #[trigger] entries@[j].0@ == self.entries@[j].0@,
                clone_exact::<T>() && clone_exact::<U>() ==> forall|j: int| 0 <= j < i ==> #[trigger] entries@[j].1@ == self.entries@[j].1@,
            decreases n - i,
        {
            let k = self.entries[i].0.clone();
            let v = self.entries[i].1.clone();
            entries.push((k, v));
            i = i + 1;
        }
        proof {
            let b = bindings_of(entries@);
            let o = bindings_of(self.entries@);
            assert forall|i: int, j: int| 0 <= i < j < b.len() implies b[i].0 != b[j].0 by {
                assert(b[i].0 == o[i].0);
                assert(b[j].0 == o[j].0);
            }
            if clone_exact::<T>() && clone_exact::<U>() {
                assert(bindings_of(entries@) =~= bindings_of(self.entries@));
            }
        }
        Context { entries }
    }
}

} // verus!
