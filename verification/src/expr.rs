//! Expression terms of BAML expression functions.
use std::sync::Arc;
use vstd::prelude::*;
use crate::value::{BamlValueWithMeta, ValueModel};
use crate::semantics::{same_state, same_states, lemma_same_states};

verus! {

broadcast use vstd::std_specs::vec::group_vec_axioms;

/// A name of a variable, a parameter or a function.
pub type Name = String;

/// A BAML expression term.
/// `T` is the type of the term's metadata, `U` that of the metadata of atom values.
pub enum Expr<T, U> {
    Atom(BamlValueWithMeta<U>, T),
    LLMFunction(Name, Vec<Name>, T),
    Var(Name, T),
    Lambda(Vec<Name>, Arc<Expr<T, U>>, T),
    App(Arc<Expr<T, U>>, Arc<Expr<T, U>>, T),
    /// `let name = expr in body`
    Let(Name, Arc<Expr<T, U>>, Arc<Expr<T, U>>, T),
    ArgsTuple(Vec<Expr<T, U>>, T),
}

/// The mathematical model of an [`Expr`]: names as character sequences and
/// vectors as sequences.
pub enum Term<T, U> {
    Atom(ValueModel, U, T),
    LLMFunction(Seq<char>, Seq<Seq<char>>, T),
    Var(Seq<char>, T),
    Lambda(Seq<Seq<char>>, Box<Term<T, U>>, T),
    App(Box<Term<T, U>>, Box<Term<T, U>>, T),
    Let(Seq<char>, Box<Term<T, U>>, Box<Term<T, U>>, T),
    ArgsTuple(Seq<Term<T, U>>, T),
}

/// The models of a vector of names.
pub open spec fn names_model(s: Seq<String>) -> Seq<Seq<char>> {
    s.map_values(|n: String| n@)
}

pub open spec fn terms_of<T, U>(s: Seq<Expr<T, U>>) -> Seq<Term<T, U>>
    decreases s,
{
    if s.len() == 0 {
        seq![]
    } else {
        seq![term_of(s[0])] + terms_of(s.drop_first())
    }
}

pub open spec fn term_of<T, U>(e: Expr<T, U>) -> Term<T, U>
    decreases e,
{
    match e {
        Expr::Atom(v, m) => Term::Atom(v.value@, v.meta, m),
        Expr::LLMFunction(n, params, m) => Term::LLMFunction(n@, names_model(params@), m),
        Expr::Var(n, m) => Term::Var(n@, m),
        Expr::Lambda(params, body, m) => Term::Lambda(names_model(params@), Box::new(term_of(*body)), m),
        Expr::App(f, x, m) => Term::App(Box::new(term_of(*f)), Box::new(term_of(*x)), m),
        Expr::Let(n, v, b, m) => Term::Let(n@, Box::new(term_of(*v)), Box::new(term_of(*b)), m),
        Expr::ArgsTuple(args, m) => Term::ArgsTuple(terms_of(args@), m),
    }
}

impl<T, U> View for Expr<T, U> {
    type V = Term<T, U>;

    open spec fn view(&self) -> Term<T, U> {
        term_of(*self)
    }
}

/// The models of a sequence of expressions, element by element.
pub proof fn lemma_terms_of<T, U>(s: Seq<Expr<T, U>>)
    ensures
        terms_of(s).len() == s.len(),
        forall|i: int| 0 <= i < s.len() ==> #[trigger] terms_of(s)[i] == term_of(s[i]),
    decreases s.len(),
{
    if s.len() > 0 {
        lemma_terms_of(s.drop_first());
        assert forall|i: int| 0 <= i < s.len() implies #[trigger] terms_of(s)[i] == term_of(s[i]) by {
            if i > 0 {
                assert(s.drop_first()[i - 1] == s[i]);
            }
        }
    }
}

/// The metadata of a term.
pub open spec fn term_meta<T, U>(t: Term<T, U>) -> T {
    match t {
        Term::Atom(_, _, m) => m,
        Term::LLMFunction(_, _, m) => m,
        Term::Var(_, m) => m,
        Term::Lambda(_, _, m) => m,
        Term::App(_, _, m) => m,
        Term::Let(_, _, _, m) => m,
        Term::ArgsTuple(_, m) => m,
    }
}

/// Whether cloning a value of `X` always gives a value equal to it, as it does for integers,
/// `()` and any `Copy` type whose clone is a copy. The evaluator clones metadata and states its
/// results for such metadata.
pub open spec fn clone_exact<X: Clone>() -> bool {
    forall|a: X, b: X| #[trigger] call_ensures(X::clone, (&a,), b) ==> a == b
}

/// `Arc::clone` from std: a new handle on the same allocation.
#[verifier::external_body]
pub(crate) fn share<X>(a: &Arc<X>) -> (r: Arc<X>)
    ensures
        r == *a,
{
    Arc::clone(a)
}

pub(crate) fn clone_exprs<T: Clone, U: Clone>(items: &Vec<Expr<T, U>>) -> (r: Vec<Expr<T, U>>)
    ensures
        clone_exact::<T>() && clone_exact::<U>() ==> terms_of(r@) == terms_of(items@),
    decreases items, 0nat,
{
    proof {
        lemma_terms_of(items@);
    }
    let mut r: Vec<Expr<T, U>> = Vec::new();
    let n = items.len();
    let mut i: usize = 0;
    while i < n
        invariant
            n == items@.len(),
            0 <= i <= n,
            r@.len() == i,
            clone_exact::<T>() && clone_exact::<U>() ==> forall|j: int| 0 <= j < i ==> #[trigger] term_of(r@[j]) == term_of(items@[j]),
        decreases n - i,
    {
        proof {
            assert(decreases_to!(items => items@[i as int]));
        }
        let c = items[i].clone();
        r.push(c);
        i = i + 1;
    }
    proof {
        lemma_terms_of(r@);
        if clone_exact::<T>() && clone_exact::<U>() {
            assert(terms_of(r@) =~= terms_of(items@));
        }
    }
    r
}

impl<T: Clone, U: Clone> Clone for Expr<T, U> {
    fn clone(&self) -> (r: Self)
        ensures
            cloned(term_meta(self@), term_meta(r@)),
            clone_exact::<T>() && clone_exact::<U>() ==> r@ == self@,
        decreases self, 1nat,
    {
        match self {
            Expr::Atom(v, m) => Expr::Atom(v.clone(), m.clone()),
            Expr::LLMFunction(n, params, m) => {
                let ps = params.clone();
                assert(names_model(ps@) =~= names_model(params@));
                Expr::LLMFunction(n.clone(), ps, m.clone())
            },
            Expr::Var(n, m) => Expr::Var(n.clone(), m.clone()),
            Expr::Lambda(params, body, m) => {
                let ps = params.clone();
                assert(names_model(ps@) =~= names_model(params@));
                Expr::Lambda(ps, share(body), m.clone())
            },
            Expr::App(f, x, m) => Expr::App(share(f), share(x), m.clone()),
            Expr::Let(n, v, b, m) => Expr::Let(n.clone(), share(v), share(b), m.clone()),
            Expr::ArgsTuple(args, m) => Expr::ArgsTuple(clone_exprs(args), m.clone()),
        }
    }
}

fn names_equal(a: &Vec<Name>, b: &Vec<Name>) -> (r: bool)
    ensures
        r == (names_model(a@) == names_model(b@)),
{
    let n = a.len();
    if n != b.len() {
        assert(names_model(a@).len() != names_model(b@).len());
        return false;
    }
    let mut i: usize = 0;
    while i < n
        invariant
            n == a@.len(),
            n == b@.len(),
            0 <= i <= n,
            forall|j: int| 0 <= j < i ==> #[trigger] a@[j]@ == b@[j]@,
        decreases n - i,
    {
        if a[i] != b[i] {
            assert(names_model(a@)[i as int] != names_model(b@)[i as int]);
            return false;
        }
        i = i + 1;
    }
    assert(names_model(a@) =~= names_model(b@));
    true
}

fn exprs_same_state<T, U>(s1: &Vec<Expr<T, U>>, s2: &Vec<Expr<T, U>>) -> (r: bool)
    ensures
        r == same_states(terms_of(s1@), terms_of(s2@)),
    decreases s1, 0nat,
{
    proof {
        lemma_terms_of(s1@);
        lemma_terms_of(s2@);
        lemma_same_states(terms_of(s1@), terms_of(s2@));
    }
    let n = s1.len();
    if n != s2.len() {
        return false;
    }
    let mut i: usize = 0;
    while i < n
        invariant
            n == s1@.len(),
            n == s2@.len(),
            0 <= i <= n,
            terms_of(s1@).len() == n,
            terms_of(s2@).len() == n,
            forall|j: int| 0 <= j < n ==> #[trigger] terms_of(s1@)[j] == term_of(s1@[j]),
            forall|j: int| 0 <= j < n ==> #[trigger] terms_of(s2@)[j] == term_of(s2@[j]),
            same_states(terms_of(s1@), terms_of(s2@)) <==> (forall|j: int|
                0 <= j < n ==> #[trigger] same_state(terms_of(s1@)[j], terms_of(s2@)[j])),
            forall|j: int| 0 <= j < i ==> #[trigger] same_state(terms_of(s1@)[j], terms_of(s2@)[j]),
        decreases n - i,
    {
        proof {
            assert(decreases_to!(s1 => s1@[i as int]));
        }
        if !s1[i].temporary_same_state(&s2[i]) {
            assert(!same_state(terms_of(s1@)[i as int], terms_of(s2@)[i as int]));
            return false;
        }
        i = i + 1;
    }
    true
}

impl<T, U> Expr<T, U> {
    /// Whether two terms are equal once their metadata is set aside.
    pub fn temporary_same_state(&self, other: &Expr<T, U>) -> (r: bool)
        ensures
            r == same_state(self@, other@),
        decreases self, 1nat,
    {
        match (self, other) {
            (Expr::Atom(a1, _), Expr::Atom(a2, _)) => a1.value.equals(&a2.value),
            (Expr::LLMFunction(n1, p1, _), Expr::LLMFunction(n2, p2, _)) => *n1 == *n2 && names_equal(p1, p2),
            (Expr::Var(n1, _), Expr::Var(n2, _)) => *n1 == *n2,
            (Expr::Lambda(p1, b1, _), Expr::Lambda(p2, b2, _)) => {
                names_equal(p1, p2) && (**b1).temporary_same_state(&**b2)
            },
            (Expr::App(f1, x1, _), Expr::App(f2, x2, _)) => {
                (**f1).temporary_same_state(&**f2) && (**x1).temporary_same_state(&**x2)
            },
            (Expr::Let(n1, v1, b1, _), Expr::Let(n2, v2, b2, _)) => {
                *n1 == *n2 && (**v1).temporary_same_state(&**v2) && (**b1).temporary_same_state(&**b2)
            },
            (Expr::ArgsTuple(s1, _), Expr::ArgsTuple(s2, _)) => exprs_same_state(s1, s2),
            _ => false,
        }
    }

    /// The term's metadata.
    pub fn meta(&self) -> (r: &T)
        ensures
            *r == term_meta(self@),
    {
        match self {
            Expr::Atom(_, meta) => meta,
            Expr::LLMFunction(_, _, meta) => meta,
            Expr::Var(_, meta) => meta,
            Expr::Lambda(_, _, meta) => meta,
            Expr::App(_, _, meta) => meta,
            Expr::ArgsTuple(_, meta) => meta,
            Expr::Let(_, _, _, meta) => meta,
        }
    }

    /// The term's metadata, taking the term.
    pub fn into_meta(self) -> (r: T)
        ensures
            r == term_meta(self@),
    {
        match self {
            Expr::Atom(_, meta) => meta,
            Expr::LLMFunction(_, _, meta) => meta,
            Expr::Var(_, meta) => meta,
            Expr::Lambda(_, _, meta) => meta,
            Expr::App(_, _, meta) => meta,
            Expr::ArgsTuple(_, meta) => meta,
            Expr::Let(_, _, _, meta) => meta,
        }
    }

    /// The value of an atom; `None` for any other term.
    pub fn as_atom(&self) -> (r: Option<&BamlValueWithMeta<U>>)
        ensures
            r is Some <==> self@ is Atom,
            r matches Some(a) ==> self@ == Term::<T, U>::Atom(a.value@, a.meta, term_meta(self@)),
    {
        match self {
            Expr::Atom(atom, _) => Some(atom),
            _ => None,
        }
    }
}

} // verus!
