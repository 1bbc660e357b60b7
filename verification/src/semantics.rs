//! The meaning of evaluation, over the models of expressions and contexts.
//!
//! Evaluation may call LLM functions. Their replies are a sequence of values that the caller
//! supplies in advance; evaluation reads them in order from a position, and when it needs one
//! more reply than the sequence holds it stops and reports the call it needs. Evaluation need
//! not terminate (a variable may be bound to a term that mentions it), so the step and value
//! functions take fuel: `None` means that the fuel ran out.
use vstd::prelude::*;
use crate::context::{bind, lookup, Bindings};
use crate::expr::Term;
use crate::value::ValueModel;

verus! {

/// The most steps that evaluation to a value takes.
pub const MAX_STEPS: u64 = 1000;

/// The model of an evaluation error.
pub enum ErrorModel<T, U> {
    VariableNotFound(Seq<char>),
    BareLlmFunction(Seq<char>),
    BareArgsTuple,
    WrongNumberOfArguments(nat, nat),
    NotAFunction(Term<T, U>),
    NoProgress,
    MaxStepsReached,
    LlmCallPending(Seq<char>, Seq<(Seq<char>, ValueModel)>),
}

/// Replaces the variables of a term by what the context binds them to, ignoring captures: the
/// parameters of a lambda are replaced in its body like any other variable. The body of a
/// `let` is substituted in the context extended by the substituted bound value. Every other
/// node keeps its kind, names and metadata. The first unbound variable, from left to right,
/// is an error.
pub open spec fn subst_term<T, U>(ctx: Bindings<T, U>, t: Term<T, U>) -> Result<Term<T, U>, ErrorModel<T, U>>
    decreases t,
{
    match t {
        Term::Var(n, _) => match lookup(ctx, n) {
            Some(v) => Ok(v),
            None => Err(ErrorModel::VariableNotFound(n)),
        },
        Term::Atom(..) => Ok(t),
        Term::LLMFunction(..) => Ok(t),
        Term::Lambda(ps, body, m) => match subst_term(ctx, *body) {
            Err(e) => Err(e),
            Ok(b2) => Ok(Term::Lambda(ps, Box::new(b2), m)),
        },
        Term::App(f, x, m) => match subst_term(ctx, *f) {
            Err(e) => Err(e),
            Ok(f2) => match subst_term(ctx, *x) {
                Err(e) => Err(e),
                Ok(x2) => Ok(Term::App(Box::new(f2), Box::new(x2), m)),
            },
        },
        Term::ArgsTuple(args, m) => match subst_terms(ctx, args) {
            Err(e) => Err(e),
            Ok(args2) => Ok(Term::ArgsTuple(args2, m)),
        },
        Term::Let(n, v, b, m) => match subst_term(ctx, *v) {
            Err(e) => Err(e),
            Ok(v2) => match subst_term(bind(ctx, n, v2), *b) {
                Err(e) => Err(e),
                Ok(b2) => Ok(Term::Let(n, Box::new(v2), Box::new(b2), m)),
            },
        },
    }
}

/// Substitutes each term in turn; the first error stops it.
pub open spec fn subst_terms<T, U>(ctx: Bindings<T, U>, s: Seq<Term<T, U>>) -> Result<Seq<Term<T, U>>, ErrorModel<T, U>>
    decreases s,
{
    if s.len() == 0 {
        Ok(seq![])
    } else {
        match subst_terms(ctx, s.drop_last()) {
            Err(e) => Err(e),
            Ok(prefix) => match subst_term(ctx, s.last()) {
                Err(e) => Err(e),
                Ok(t) => Ok(prefix.push(t)),
            },
        }
    }
}

/// Once a prefix of the terms fails to substitute, so do all of them, with the same error.
pub proof fn lemma_subst_terms_err_prefix<T, U>(ctx: Bindings<T, U>, s: Seq<Term<T, U>>, m: int)
    requires
        0 <= m <= s.len(),
        subst_terms(ctx, s.take(m)) is Err,
    ensures
        subst_terms(ctx, s) == subst_terms(ctx, s.take(m)),
    decreases s.len() - m,
{
    if m < s.len() {
        assert(s.take(m + 1).drop_last() =~= s.take(m));
        lemma_subst_terms_err_prefix(ctx, s, m + 1);
    } else {
        assert(s.take(m) =~= s);
    }
}

/// Binds each name to the term at the same position, in order.
pub open spec fn bind_all<T, U>(ctx: Bindings<T, U>, names: Seq<Seq<char>>, terms: Seq<Term<T, U>>) -> Bindings<T, U>
    decreases names.len(),
{
    if names.len() == 0 {
        ctx
    } else {
        bind(
            bind_all(ctx, names.drop_last(), terms),
            names.last(),
            terms[names.len() - 1],
        )
    }
}

/// The arguments of an LLM call: each parameter name with the value at its position, as far
/// as both lists reach.
pub open spec fn call_args(names: Seq<Seq<char>>, values: Seq<ValueModel>) -> Seq<(Seq<char>, ValueModel)> {
    let n = if names.len() <= values.len() { names.len() } else { values.len() };
    Seq::new(n, |i: int| (names[i], values[i]))
}

/// The metadata that `U::default()` gives.
pub open spec fn default_meta<U: Default>() -> U {
    choose|r: U| call_ensures(U::default, (), r)
}

/// Whether `U::default()` always gives the same value, as it does for integers, `bool` and `()`.
/// The value of an LLM reply gets that metadata.
pub open spec fn default_exact<U: Default>() -> bool {
    forall|r: U| #[trigger] call_ensures(U::default, (), r) ==> r == default_meta::<U>()
}

/// Whether every term is an atom.
pub open spec fn all_atoms<T, U>(s: Seq<Term<T, U>>) -> bool {
    forall|i: int| 0 <= i < s.len() ==> #[trigger] s[i] is Atom
}

/// The values of atoms.
pub open spec fn atom_values<T, U>(s: Seq<Term<T, U>>) -> Seq<ValueModel> {
    s.map_values(|t: Term<T, U>| t->Atom_0)
}

/// Whether two terms are equal once their metadata is set aside.
pub open spec fn same_state<T, U>(a: Term<T, U>, b: Term<T, U>) -> bool
    decreases a,
{
    match (a, b) {
        (Term::Atom(v1, _, _), Term::Atom(v2, _, _)) => v1 == v2,
        (Term::LLMFunction(n1, p1, _), Term::LLMFunction(n2, p2, _)) => n1 == n2 && p1 == p2,
        (Term::Var(n1, _), Term::Var(n2, _)) => n1 == n2,
        (Term::Lambda(p1, b1, _), Term::Lambda(p2, b2, _)) => p1 == p2 && same_state(*b1, *b2),
        (Term::App(f1, x1, _), Term::App(f2, x2, _)) => same_state(*f1, *f2) && same_state(*x1, *x2),
        (Term::Let(n1, v1, b1, _), Term::Let(n2, v2, b2, _)) => n1 == n2 && same_state(*v1, *v2)
            && same_state(*b1, *b2),
        (Term::ArgsTuple(s1, _), Term::ArgsTuple(s2, _)) => same_states(s1, s2),
        _ => false,
    }
}

/// Whether two sequences of terms have the same length and pairwise the same state.
pub open spec fn same_states<T, U>(s1: Seq<Term<T, U>>, s2: Seq<Term<T, U>>) -> bool
    decreases s1,
{
    if s1.len() != s2.len() {
        false
    } else if s1.len() == 0 {
        true
    } else {
        same_states(s1.drop_last(), s2.drop_last()) && same_state(s1.last(), s2.last())
    }
}

/// Two sequences have the same state exactly when they have the same length and the same
/// state position by position.
pub proof fn lemma_same_states<T, U>(s1: Seq<Term<T, U>>, s2: Seq<Term<T, U>>)
    ensures
        same_states(s1, s2) <==> (s1.len() == s2.len() && forall|i: int|
            0 <= i < s1.len() ==> #[trigger] same_state(s1[i], s2[i])),
    decreases s1.len(),
{
    if s1.len() == s2.len() && s1.len() > 0 {
        lemma_same_states(s1.drop_last(), s2.drop_last());
        assert(s1.last() == s1[s1.len() - 1]);
        assert(s2.last() == s2[s2.len() - 1]);
        if forall|i: int| 0 <= i < s1.len() ==> #[trigger] same_state(s1[i], s2[i]) {
            assert forall|i: int| 0 <= i < s1.drop_last().len() implies #[trigger] same_state(
                s1.drop_last()[i],
                s2.drop_last()[i],
            ) by {
                assert(same_state(s1[i], s2[i]));
            }
            assert(same_state(s1[s1.len() - 1], s2[s2.len() - 1]));
        }
        if same_states(s1, s2) {
            assert forall|i: int| 0 <= i < s1.len() implies #[trigger] same_state(s1[i], s2[i]) by {
                if i < s1.len() - 1 {
                    assert(same_state(s1.drop_last()[i], s2.drop_last()[i]));
                }
            }
        }
    }
}

/// One evaluation step: the beta reduction of an application, the substitution of a `let`'s
/// body with its name bound to its (unevaluated) value, or a variable's binding. `None`: the
/// step does not return, because the fuel ran out (an application of a lambda to something
/// other than an argument tuple substitutes and applies it again without end) or because an
/// LLM function was applied to arguments that are not all atoms, on which the step panics.
pub open spec fn step_spec<T, U: Default>(
    fuel: nat,
    ctx: Bindings<T, U>,
    t: Term<T, U>,
    replies: Seq<ValueModel>,
    pos: nat,
) -> Option<(Result<Term<T, U>, ErrorModel<T, U>>, nat)>
    decreases fuel, 0nat, 0nat,
{
    if fuel == 0 {
        None
    } else {
        match t {
            Term::Var(n, _) => match lookup(ctx, n) {
                Some(v) => Some((Ok(v), pos)),
                None => Some((Err(ErrorModel::VariableNotFound(n)), pos)),
            },
            Term::Let(n, v, b, _) => Some((subst_term(bind(ctx, n, *v), *b), pos)),
            Term::Atom(..) => Some((Ok(t), pos)),
            Term::Lambda(..) => Some((Ok(t), pos)),
            Term::App(f, x, m) => match subst_term(ctx, *f) {
                Err(e) => Some((Err(e), pos)),
                Ok(f2) => step_app_spec((fuel - 1) as nat, ctx, f2, *x, m, replies, pos),
            },
            Term::LLMFunction(n, _, _) => Some((Err(ErrorModel::BareLlmFunction(n)), pos)),
            Term::ArgsTuple(..) => Some((Err(ErrorModel::BareArgsTuple), pos)),
        }
    }
}

/// One step of an application of `f` to `x`, whose result has metadata `m`.
pub open spec fn step_app_spec<T, U: Default>(
    fuel: nat,
    ctx: Bindings<T, U>,
    f: Term<T, U>,
    x: Term<T, U>,
    m: T,
    replies: Seq<ValueModel>,
    pos: nat,
) -> Option<(Result<Term<T, U>, ErrorModel<T, U>>, nat)>
    decreases fuel, 0nat, 0nat,
{
    if fuel == 0 {
        None
    } else {
        match (f, x) {
            (Term::Lambda(params, body, _), Term::ArgsTuple(args, _)) => {
                if params.len() != args.len() {
                    Some((Err(ErrorModel::WrongNumberOfArguments(params.len(), args.len())), pos))
                } else {
                    Some((subst_term(bind_all(ctx, params, args), *body), pos))
                }
            },
            (Term::LLMFunction(name, arg_names, _), Term::ArgsTuple(args, _)) => {
                if !all_atoms(args) {
                    None
                } else if pos < replies.len() {
                    Some((Ok(Term::Atom(replies[pos as int], default_meta::<U>(), m)), pos + 1))
                } else {
                    Some((Err(ErrorModel::LlmCallPending(name, call_args(arg_names, atom_values(args)))), pos))
                }
            },
            (Term::Lambda(..), _) => match subst_term(ctx, f) {
                Err(e) => Some((Err(e), pos)),
                Ok(f2) => step_app_spec((fuel - 1) as nat, ctx, f2, x, m, replies, pos),
            },
            _ => Some((Err(ErrorModel::NotAFunction(f)), pos)),
        }
    }
}

/// Evaluation of a term to a value: at most [`MAX_STEPS`] steps, and a step that gives back
/// the term that evaluation started from (up to metadata) is an error.
pub open spec fn eval_spec<T, U: Default>(
    fuel: nat,
    ctx: Bindings<T, U>,
    t: Term<T, U>,
    replies: Seq<ValueModel>,
    pos: nat,
) -> Option<(Result<(ValueModel, U), ErrorModel<T, U>>, nat)>
    decreases fuel, 2nat, 0nat,
{
    eval_loop(fuel, ctx, t, t, MAX_STEPS as nat, replies, pos)
}

/// The rest of an evaluation that started from `orig`, is at `cur` and may take `k` more steps.
pub open spec fn eval_loop<T, U: Default>(
    fuel: nat,
    ctx: Bindings<T, U>,
    orig: Term<T, U>,
    cur: Term<T, U>,
    k: nat,
    replies: Seq<ValueModel>,
    pos: nat,
) -> Option<(Result<(ValueModel, U), ErrorModel<T, U>>, nat)>
    decreases fuel, 1nat, k,
{
    if k == 0 {
        Some((Err(ErrorModel::MaxStepsReached), pos))
    } else {
        match cur {
            Term::Atom(v, vm, _) => Some((Ok((v, vm)), pos)),
            _ => match step_spec(fuel, ctx, cur, replies, pos) {
                None => None,
                Some((Err(e), p)) => Some((Err(e), p)),
                Some((Ok(next), p)) => if same_state(next, orig) {
                    Some((Err(ErrorModel::NoProgress), p))
                } else {
                    eval_loop(fuel, ctx, orig, next, (k - 1) as nat, replies, p)
                },
            },
        }
    }
}

} // verus!
