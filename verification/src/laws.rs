//! Properties that hold across the operations of the library.
use vstd::prelude::*;
use crate::context::{bind, bind_pairs, lemma_lookup_bind_other, lemma_lookup_bind_same, lookup, Bindings};
use crate::expr::Term;
use crate::semantics::{
    eval_loop, eval_spec, same_state, same_states, step_app_spec, step_spec, subst_term, subst_terms,
    ErrorModel, MAX_STEPS,
};
use crate::value::ValueModel;
use crate::dump::{context_text, dump_text, dump_texts};
use crate::eval::{eval_outcome, step_app_outcome, step_outcome};
use crate::ir::{assignment_bindings, expr_fn_bindings, initial_bindings, llm_function_bindings, IntermediateRepr};
use crate::value::value_text;
use crate::semantics::bind_all;

verus! {

/// Whether an outcome is a stop for a missing LLM reply.
pub open spec fn is_pending<X, T, U>(o: Result<X, ErrorModel<T, U>>) -> bool {
    o matches Err(ErrorModel::LlmCallPending(..))
}

/// Every term has the same state as itself, so a step that gives back the term that
/// evaluation started from stops it.
pub proof fn lemma_same_state_reflexive<T, U: Default>(t: Term<T, U>)
    ensures
        same_state(t, t),
    decreases t,
{
    match t {
        Term::Lambda(_, b, _) => lemma_same_state_reflexive(*b),
        Term::App(f, x, _) => {
            lemma_same_state_reflexive(*f);
            lemma_same_state_reflexive(*x);
        },
        Term::Let(_, v, b, _) => {
            lemma_same_state_reflexive(*v);
            lemma_same_state_reflexive(*b);
        },
        Term::ArgsTuple(s, _) => lemma_same_states_reflexive(s),
        _ => {},
    }
}

/// Every sequence of terms has the same state as itself.
pub proof fn lemma_same_states_reflexive<T, U: Default>(s: Seq<Term<T, U>>)
    ensures
        same_states(s, s),
    decreases s,
{
    if s.len() > 0 {
        lemma_same_states_reflexive(s.drop_last());
        lemma_same_state_reflexive(s.last());
    }
}

/// Substitution fails only on a variable that the context does not bind.
pub proof fn lemma_subst_fails_only_unbound<T, U: Default>(ctx: Bindings<T, U>, t: Term<T, U>)
    ensures
        subst_term(ctx, t) matches Err(e) ==> (e matches ErrorModel::VariableNotFound(n) && lookup(ctx, n) is None),
    decreases t,
{
    match t {
        Term::Lambda(_, b, _) => lemma_subst_fails_only_unbound(ctx, *b),
        Term::App(f, x, _) => {
            lemma_subst_fails_only_unbound(ctx, *f);
            lemma_subst_fails_only_unbound(ctx, *x);
        },
        Term::Let(n, v, b, _) => {
            lemma_subst_fails_only_unbound(ctx, *v);
            if let Ok(v2) = subst_term(ctx, *v) {
                lemma_subst_fails_only_unbound(bind(ctx, n, v2), *b);
                if let Err(ErrorModel::VariableNotFound(k)) = subst_term(bind(ctx, n, v2), *b) {
                    if k == n {
                        lemma_lookup_bind_same(ctx, n, v2);
                    } else {
                        lemma_lookup_bind_other(ctx, n, v2, k);
                    }
                }
            }
        },
        Term::ArgsTuple(s, _) => lemma_subst_terms_fails_only_unbound(ctx, s),
        _ => {},
    }
}

/// Substituting a sequence fails only on a variable that the context does not bind.
pub proof fn lemma_subst_terms_fails_only_unbound<T, U: Default>(ctx: Bindings<T, U>, s: Seq<Term<T, U>>)
    ensures
        subst_terms(ctx, s) matches Err(e) ==> (e matches ErrorModel::VariableNotFound(n) && lookup(ctx, n) is None),
    decreases s,
{
    if s.len() > 0 {
        lemma_subst_terms_fails_only_unbound(ctx, s.drop_last());
        lemma_subst_fails_only_unbound(ctx, s.last());
    }
}

/// A step that finishes with some fuel finishes the same way with more.
pub proof fn lemma_step_fuel_mono<T, U: Default>(
    f1: nat,
    f2: nat,
    ctx: Bindings<T, U>,
    t: Term<T, U>,
    replies: Seq<ValueModel>,
    pos: nat,
)
    requires
        f1 <= f2,
        step_spec(f1, ctx, t, replies, pos) is Some,
    ensures
        step_spec(f2, ctx, t, replies, pos) == step_spec(f1, ctx, t, replies, pos),
    decreases f1, 0nat, 0nat,
{
    match t {
        Term::App(f, x, m) => {
            if let Ok(f2x) = subst_term(ctx, *f) {
                lemma_step_app_fuel_mono((f1 - 1) as nat, (f2 - 1) as nat, ctx, f2x, *x, m, replies, pos);
            }
        },
        _ => {},
    }
}

/// An application step that finishes with some fuel finishes the same way with more.
pub proof fn lemma_step_app_fuel_mono<T, U: Default>(
    f1: nat,
    f2: nat,
    ctx: Bindings<T, U>,
    f: Term<T, U>,
    x: Term<T, U>,
    m: T,
    replies: Seq<ValueModel>,
    pos: nat,
)
    requires
        f1 <= f2,
        step_app_spec(f1, ctx, f, x, m, replies, pos) is Some,
    ensures
        step_app_spec(f2, ctx, f, x, m, replies, pos) == step_app_spec(f1, ctx, f, x, m, replies, pos),
    decreases f1, 0nat, 0nat,
{
    match (f, x) {
        (Term::Lambda(..), Term::ArgsTuple(..)) => {},
        (Term::LLMFunction(..), Term::ArgsTuple(..)) => {},
        (Term::Lambda(..), _) => {
            if let Ok(g) = subst_term(ctx, f) {
                lemma_step_app_fuel_mono((f1 - 1) as nat, (f2 - 1) as nat, ctx, g, x, m, replies, pos);
            }
        },
        _ => {},
    }
}

/// An evaluation that finishes with some fuel finishes the same way with more.
pub proof fn lemma_eval_fuel_mono<T, U: Default>(
    f1: nat,
    f2: nat,
    ctx: Bindings<T, U>,
    t: Term<T, U>,
    replies: Seq<ValueModel>,
    pos: nat,
)
    requires
        f1 <= f2,
        eval_spec(f1, ctx, t, replies, pos) is Some,
    ensures
        eval_spec(f2, ctx, t, replies, pos) == eval_spec(f1, ctx, t, replies, pos),
    decreases f1, 2nat, 0nat,
{
    lemma_eval_loop_fuel_mono(f1, f2, ctx, t, t, MAX_STEPS as nat, replies, pos);
}

/// The rest of an evaluation that finishes with some fuel finishes the same way with more.
pub proof fn lemma_eval_loop_fuel_mono<T, U: Default>(
    f1: nat,
    f2: nat,
    ctx: Bindings<T, U>,
    orig: Term<T, U>,
    cur: Term<T, U>,
    k: nat,
    replies: Seq<ValueModel>,
    pos: nat,
)
    requires
        f1 <= f2,
        eval_loop(f1, ctx, orig, cur, k, replies, pos) is Some,
    ensures
        eval_loop(f2, ctx, orig, cur, k, replies, pos) == eval_loop(f1, ctx, orig, cur, k, replies, pos),
    decreases f1, 1nat, k,
{
    if k > 0 && !(cur is Atom) {
        lemma_step_fuel_mono(f1, f2, ctx, cur, replies, pos);
        if let Some((Ok(next), p)) = step_spec(f1, ctx, cur, replies, pos) {
            if !same_state(next, orig) {
                lemma_eval_loop_fuel_mono(f1, f2, ctx, orig, next, (k - 1) as nat, replies, p);
            }
        }
    }
}

/// Whether `r2` begins with `r1`.
pub open spec fn extends<X>(r2: Seq<X>, r1: Seq<X>) -> bool {
    r1.len() <= r2.len() && forall|i: int| 0 <= i < r1.len() ==> #[trigger] r2[i] == r1[i]
}

/// A step that does not stop for a missing LLM reply gives the same outcome when more replies
/// follow the ones it was given.
pub proof fn lemma_step_replay<T, U: Default>(
    fuel: nat,
    ctx: Bindings<T, U>,
    t: Term<T, U>,
    r1: Seq<ValueModel>,
    r2: Seq<ValueModel>,
    pos: nat,
)
    requires
        extends(r2, r1),
        step_spec(fuel, ctx, t, r1, pos) matches Some((o, _)) && !is_pending(o),
    ensures
        step_spec(fuel, ctx, t, r2, pos) == step_spec(fuel, ctx, t, r1, pos),
    decreases fuel, 0nat, 0nat,
{
    match t {
        Term::App(f, x, m) => {
            if let Ok(g) = subst_term(ctx, *f) {
                lemma_step_app_replay((fuel - 1) as nat, ctx, g, *x, m, r1, r2, pos);
            }
        },
        _ => {},
    }
}

/// An application step that does not stop for a missing LLM reply gives the same outcome when
/// more replies follow the ones it was given.
pub proof fn lemma_step_app_replay<T, U: Default>(
    fuel: nat,
    ctx: Bindings<T, U>,
    f: Term<T, U>,
    x: Term<T, U>,
    m: T,
    r1: Seq<ValueModel>,
    r2: Seq<ValueModel>,
    pos: nat,
)
    requires
        extends(r2, r1),
        step_app_spec(fuel, ctx, f, x, m, r1, pos) matches Some((o, _)) && !is_pending(o),
    ensures
        step_app_spec(fuel, ctx, f, x, m, r2, pos) == step_app_spec(fuel, ctx, f, x, m, r1, pos),
    decreases fuel, 0nat, 0nat,
{
    match (f, x) {
        (Term::Lambda(..), Term::ArgsTuple(..)) => {},
        (Term::LLMFunction(..), Term::ArgsTuple(..)) => {
            if pos < r1.len() {
                assert(r2[pos as int] == r1[pos as int]);
            }
        },
        (Term::Lambda(..), _) => {
            if let Ok(g) = subst_term(ctx, f) {
                lemma_step_app_replay((fuel - 1) as nat, ctx, g, x, m, r1, r2, pos);
            }
        },
        _ => {},
    }
}

/// An evaluation that does not stop for a missing LLM reply gives the same outcome when more
/// replies follow the ones it was given.
pub proof fn lemma_eval_replay<T, U: Default>(
    fuel: nat,
    ctx: Bindings<T, U>,
    t: Term<T, U>,
    r1: Seq<ValueModel>,
    r2: Seq<ValueModel>,
    pos: nat,
)
    requires
        extends(r2, r1),
        eval_spec(fuel, ctx, t, r1, pos) matches Some((o, _)) && !is_pending(o),
    ensures
        eval_spec(fuel, ctx, t, r2, pos) == eval_spec(fuel, ctx, t, r1, pos),
    decreases fuel, 2nat, 0nat,
{
    lemma_eval_loop_replay(fuel, ctx, t, t, MAX_STEPS as nat, r1, r2, pos);
}

/// The rest of an evaluation that does not stop for a missing LLM reply gives the same outcome
/// when more replies follow the ones it was given.
pub proof fn lemma_eval_loop_replay<T, U: Default>(
    fuel: nat,
    ctx: Bindings<T, U>,
    orig: Term<T, U>,
    cur: Term<T, U>,
    k: nat,
    r1: Seq<ValueModel>,
    r2: Seq<ValueModel>,
    pos: nat,
)
    requires
        extends(r2, r1),
        eval_loop(fuel, ctx, orig, cur, k, r1, pos) matches Some((o, _)) && !is_pending(o),
    ensures
        eval_loop(fuel, ctx, orig, cur, k, r2, pos) == eval_loop(fuel, ctx, orig, cur, k, r1, pos),
    decreases fuel, 1nat, k,
{
    if k > 0 && !(cur is Atom) {
        lemma_step_replay(fuel, ctx, cur, r1, r2, pos);
        if let Some((Ok(next), p)) = step_spec(fuel, ctx, cur, r1, pos) {
            if !same_state(next, orig) {
                lemma_eval_loop_replay(fuel, ctx, orig, next, (k - 1) as nat, r1, r2, p);
            }
        }
    }
}

/// What an outcome says of the position of the next reply: it never moves back, it does not
/// move past the replies given, and a stop for a missing reply comes only once they are all
/// used.
pub open spec fn positions_ok<X, T, U>(o: Option<(Result<X, ErrorModel<T, U>>, nat)>, len: nat, pos: nat) -> bool {
    o matches Some((r, p)) ==> {
        &&& pos <= p
        &&& pos <= len ==> p <= len
        &&& is_pending(r) ==> p >= len
    }
}

/// A step reads replies forward only, and stops for a missing one only past the last.
pub proof fn lemma_step_positions<T, U: Default>(
    fuel: nat,
    ctx: Bindings<T, U>,
    t: Term<T, U>,
    replies: Seq<ValueModel>,
    pos: nat,
)
    ensures
        positions_ok(step_spec(fuel, ctx, t, replies, pos), replies.len(), pos),
    decreases fuel, 0nat, 0nat,
{
    if fuel > 0 {
        match t {
            Term::Let(n, v, b, _) => {
                lemma_subst_fails_only_unbound(bind(ctx, n, *v), *b);
            },
            Term::App(f, x, m) => {
                lemma_subst_fails_only_unbound(ctx, *f);
                if let Ok(g) = subst_term(ctx, *f) {
                    lemma_step_app_positions((fuel - 1) as nat, ctx, g, *x, m, replies, pos);
                }
            },
            _ => {},
        }
    }
}

/// An application step reads replies forward only, and stops for a missing one only past the
/// last.
pub proof fn lemma_step_app_positions<T, U: Default>(
    fuel: nat,
    ctx: Bindings<T, U>,
    f: Term<T, U>,
    x: Term<T, U>,
    m: T,
    replies: Seq<ValueModel>,
    pos: nat,
)
    ensures
        positions_ok(step_app_spec(fuel, ctx, f, x, m, replies, pos), replies.len(), pos),
    decreases fuel, 0nat, 0nat,
{
    if fuel > 0 {
        match (f, x) {
            (Term::Lambda(params, body, _), Term::ArgsTuple(args, _)) => {
                lemma_subst_fails_only_unbound(crate::semantics::bind_all(ctx, params, args), *body);
            },
            (Term::LLMFunction(..), Term::ArgsTuple(..)) => {},
            (Term::Lambda(..), _) => {
                lemma_subst_fails_only_unbound(ctx, f);
                if let Ok(g) = subst_term(ctx, f) {
                    lemma_step_app_positions((fuel - 1) as nat, ctx, g, x, m, replies, pos);
                }
            },
            _ => {},
        }
    }
}

/// Evaluation reads replies forward only, and stops for a missing one only past the last.
pub proof fn lemma_eval_positions<T, U: Default>(
    fuel: nat,
    ctx: Bindings<T, U>,
    t: Term<T, U>,
    replies: Seq<ValueModel>,
    pos: nat,
)
    ensures
        positions_ok(eval_spec(fuel, ctx, t, replies, pos), replies.len(), pos),
    decreases fuel, 2nat, 0nat,
{
    lemma_eval_loop_positions(fuel, ctx, t, t, MAX_STEPS as nat, replies, pos);
}

/// The rest of an evaluation reads replies forward only, and stops for a missing one only
/// past the last.
pub proof fn lemma_eval_loop_positions<T, U: Default>(
    fuel: nat,
    ctx: Bindings<T, U>,
    orig: Term<T, U>,
    cur: Term<T, U>,
    k: nat,
    replies: Seq<ValueModel>,
    pos: nat,
)
    ensures
        positions_ok(eval_loop(fuel, ctx, orig, cur, k, replies, pos), replies.len(), pos),
    decreases fuel, 1nat, k,
{
    if k > 0 && !(cur is Atom) {
        lemma_step_positions(fuel, ctx, cur, replies, pos);
        if let Some((Ok(next), p)) = step_spec(fuel, ctx, cur, replies, pos) {
            if !same_state(next, orig) {
                lemma_eval_loop_positions(fuel, ctx, orig, next, (k - 1) as nat, replies, p);
            }
        }
    }
}

/// A step's outcome is what it gives with any fuel that suffices.
pub proof fn lemma_step_outcome_fuel<T, U: Default>(
    fuel: nat,
    ctx: Bindings<T, U>,
    t: Term<T, U>,
    replies: Seq<ValueModel>,
    pos: nat,
)
    requires
        step_spec(fuel, ctx, t, replies, pos) is Some,
    ensures
        step_outcome(ctx, t, replies, pos) == step_spec(fuel, ctx, t, replies, pos),
{
    let f0 = choose|f: nat| #[trigger] step_spec(f, ctx, t, replies, pos) is Some;
    let hi = if f0 <= fuel { fuel } else { f0 };
    lemma_step_fuel_mono(f0, hi, ctx, t, replies, pos);
    lemma_step_fuel_mono(fuel, hi, ctx, t, replies, pos);
}

/// An application step's outcome is what it gives with any fuel that suffices.
pub proof fn lemma_step_app_outcome_fuel<T, U: Default>(
    fuel: nat,
    ctx: Bindings<T, U>,
    f: Term<T, U>,
    x: Term<T, U>,
    m: T,
    replies: Seq<ValueModel>,
    pos: nat,
)
    requires
        step_app_spec(fuel, ctx, f, x, m, replies, pos) is Some,
    ensures
        step_app_outcome(ctx, f, x, m, replies, pos) == step_app_spec(fuel, ctx, f, x, m, replies, pos),
{
    let f0 = choose|g: nat| #[trigger] step_app_spec(g, ctx, f, x, m, replies, pos) is Some;
    let hi = if f0 <= fuel { fuel } else { f0 };
    lemma_step_app_fuel_mono(f0, hi, ctx, f, x, m, replies, pos);
    lemma_step_app_fuel_mono(fuel, hi, ctx, f, x, m, replies, pos);
}

/// An evaluation's outcome is what it gives with any fuel that suffices.
pub proof fn lemma_eval_outcome_fuel<T, U: Default>(
    fuel: nat,
    ctx: Bindings<T, U>,
    t: Term<T, U>,
    replies: Seq<ValueModel>,
    pos: nat,
)
    requires
        eval_spec(fuel, ctx, t, replies, pos) is Some,
    ensures
        eval_outcome(ctx, t, replies, pos) == eval_spec(fuel, ctx, t, replies, pos),
{
    let f0 = choose|f: nat| #[trigger] eval_spec(f, ctx, t, replies, pos) is Some;
    let hi = if f0 <= fuel { fuel } else { f0 };
    lemma_eval_fuel_mono(f0, hi, ctx, t, replies, pos);
    lemma_eval_fuel_mono(fuel, hi, ctx, t, replies, pos);
}

/// An evaluation that finishes without stopping for a missing LLM reply finishes the same way
/// when more replies follow the ones it was given.
pub proof fn lemma_eval_outcome_replay<T, U: Default>(
    ctx: Bindings<T, U>,
    t: Term<T, U>,
    r1: Seq<ValueModel>,
    r2: Seq<ValueModel>,
    pos: nat,
)
    requires
        extends(r2, r1),
        eval_outcome(ctx, t, r1, pos) matches Some((o, _)) && !is_pending(o),
    ensures
        eval_outcome(ctx, t, r2, pos) == eval_outcome(ctx, t, r1, pos),
{
    let f1 = choose|f: nat| #[trigger] eval_spec(f, ctx, t, r1, pos) is Some;
    lemma_eval_replay(f1, ctx, t, r1, r2, pos);
    lemma_eval_outcome_fuel(f1, ctx, t, r2, pos);
}

/// A step that finishes without stopping for a missing LLM reply finishes the same way when
/// more replies follow the ones it was given.
pub proof fn lemma_step_outcome_replay<T, U: Default>(
    ctx: Bindings<T, U>,
    t: Term<T, U>,
    r1: Seq<ValueModel>,
    r2: Seq<ValueModel>,
    pos: nat,
)
    requires
        extends(r2, r1),
        step_outcome(ctx, t, r1, pos) matches Some((o, _)) && !is_pending(o),
    ensures
        step_outcome(ctx, t, r2, pos) == step_outcome(ctx, t, r1, pos),
{
    let f1 = choose|f: nat| #[trigger] step_spec(f, ctx, t, r1, pos) is Some;
    lemma_step_replay(f1, ctx, t, r1, r2, pos);
    lemma_step_outcome_fuel(f1, ctx, t, r2, pos);
}

/// An evaluation that starts at the first reply and stops for a missing one has used every
/// reply it was given; every other outcome leaves the position within the replies.
pub proof fn lemma_eval_outcome_positions<T, U: Default>(
    ctx: Bindings<T, U>,
    t: Term<T, U>,
    replies: Seq<ValueModel>,
    pos: nat,
)
    ensures
        positions_ok(eval_outcome(ctx, t, replies, pos), replies.len(), pos),
{
    if exists|f: nat| #[trigger] eval_spec(f, ctx, t, replies, pos) is Some {
        let f1 = choose|f: nat| #[trigger] eval_spec(f, ctx, t, replies, pos) is Some;
        lemma_eval_positions(f1, ctx, t, replies, pos);
    }
}

/// Atoms and lambdas are values: a step gives them back unchanged and reads no reply.
pub proof fn lemma_step_values<T, U: Default>(
    ctx: Bindings<T, U>,
    t: Term<T, U>,
    replies: Seq<ValueModel>,
    pos: nat,
)
    requires
        t is Atom || t is Lambda,
    ensures
        step_outcome(ctx, t, replies, pos) == Some((Ok::<Term<T, U>, ErrorModel<T, U>>(t), pos)),
{
    lemma_step_outcome_fuel(1, ctx, t, replies, pos);
}

/// Evaluating an atom gives its value at once and reads no reply.
pub proof fn lemma_eval_atom<T, U: Default>(
    ctx: Bindings<T, U>,
    v: ValueModel,
    vm: U,
    m: T,
    replies: Seq<ValueModel>,
    pos: nat,
)
    ensures
        eval_outcome(ctx, Term::Atom(v, vm, m), replies, pos) == Some((Ok::<(ValueModel, U), ErrorModel<T, U>>((v, vm)), pos)),
{
    lemma_eval_outcome_fuel(0, ctx, Term::Atom(v, vm, m), replies, pos);
}

/// Applying a lambda to an argument tuple substitutes the arguments for the parameters in its
/// body, when their numbers agree; otherwise it is an error.
pub proof fn lemma_step_app_beta<T, U: Default>(
    ctx: Bindings<T, U>,
    params: Seq<Seq<char>>,
    body: Term<T, U>,
    lm: T,
    args: Seq<Term<T, U>>,
    am: T,
    m: T,
    replies: Seq<ValueModel>,
    pos: nat,
)
    ensures
        step_app_outcome(ctx, Term::Lambda(params, Box::new(body), lm), Term::ArgsTuple(args, am), m, replies, pos)
            == Some((
            if params.len() != args.len() {
                Err(ErrorModel::WrongNumberOfArguments(params.len(), args.len()))
            } else {
                subst_term(bind_all(ctx, params, args), body)
            },
            pos,
        )),
{
    lemma_step_app_outcome_fuel(1, ctx, Term::Lambda(params, Box::new(body), lm), Term::ArgsTuple(args, am), m, replies, pos);
}

/// The position of the last pair for `k`, or -1 when there is none.
pub open spec fn last_key_index<T, U: Default>(pairs: Seq<(Seq<char>, Term<T, U>)>, k: Seq<char>) -> int
    decreases pairs.len(),
{
    if pairs.len() == 0 {
        -1
    } else if pairs.last().0 == k {
        pairs.len() - 1
    } else {
        last_key_index(pairs.drop_last(), k)
    }
}

/// After binding pairs in turn, a name is bound to the expression of its last pair, or, when
/// no pair names it, as it was before.
pub proof fn lemma_lookup_bind_pairs<T, U: Default>(s: Bindings<T, U>, pairs: Seq<(Seq<char>, Term<T, U>)>, k: Seq<char>)
    ensures
        -1 <= last_key_index(pairs, k) < pairs.len(),
        lookup(bind_pairs(s, pairs), k) == if last_key_index(pairs, k) >= 0 {
            Some(pairs[last_key_index(pairs, k)].1)
        } else {
            lookup(s, k)
        },
    decreases pairs.len(),
{
    if pairs.len() > 0 {
        lemma_lookup_bind_pairs(s, pairs.drop_last(), k);
        let b = bind_pairs(s, pairs.drop_last());
        if pairs.last().0 == k {
            lemma_lookup_bind_same(b, k, pairs.last().1);
        } else {
            lemma_lookup_bind_other(b, pairs.last().0, pairs.last().1, k);
        }
    }
}

/// In the initial context a name is bound to its last LLM function if there is one, else to
/// its last top-level assignment, else to its last expression function, else to nothing.
pub proof fn lemma_initial_context_lookup(ir: IntermediateRepr, k: Seq<char>)
    ensures
        ({
            let fs = llm_function_bindings(ir.functions@);
            let asg = assignment_bindings(ir.toplevel_assignments@);
            let efs = expr_fn_bindings(ir.expr_fns@);
            lookup(initial_bindings(ir), k) == if last_key_index(fs, k) >= 0 {
                Some(fs[last_key_index(fs, k)].1)
            } else if last_key_index(asg, k) >= 0 {
                Some(asg[last_key_index(asg, k)].1)
            } else if last_key_index(efs, k) >= 0 {
                Some(efs[last_key_index(efs, k)].1)
            } else {
                None
            }
        }),
{
    let fs = llm_function_bindings(ir.functions@);
    let asg = assignment_bindings(ir.toplevel_assignments@);
    let efs = expr_fn_bindings(ir.expr_fns@);
    let c1 = bind_pairs(Seq::empty(), efs);
    let c2 = bind_pairs(c1, asg);
    lemma_lookup_bind_pairs(c2, fs, k);
    lemma_lookup_bind_pairs(c1, asg, k);
    lemma_lookup_bind_pairs(Seq::empty(), efs, k);
    crate::context::lemma_key_index(Seq::<(Seq<char>, Term<(), ()>)>::empty(), k);
}

/// A step that stops for a missing LLM reply, when started within its replies, gets past that
/// stop once one more reply follows them: if it finishes, it has used a reply beyond them.
pub proof fn lemma_step_progress<T, U: Default>(
    fuel: nat,
    ctx: Bindings<T, U>,
    t: Term<T, U>,
    r1: Seq<ValueModel>,
    r2: Seq<ValueModel>,
    pos: nat,
)
    requires
        extends(r2, r1),
        r2.len() > r1.len(),
        pos <= r1.len(),
        step_spec(fuel, ctx, t, r1, pos) matches Some((o, _)) && is_pending(o),
    ensures
        step_spec(fuel, ctx, t, r2, pos) matches Some((_, p2)) ==> p2 > r1.len(),
    decreases fuel, 0nat, 0nat,
{
    match t {
        Term::Let(n, v, b, _) => {
            lemma_subst_fails_only_unbound(bind(ctx, n, *v), *b);
        },
        Term::App(f, x, m) => {
            lemma_subst_fails_only_unbound(ctx, *f);
            if let Ok(g) = subst_term(ctx, *f) {
                lemma_step_app_progress((fuel - 1) as nat, ctx, g, *x, m, r1, r2, pos);
            }
        },
        _ => {},
    }
}

/// An application step that stops for a missing LLM reply, when started within its replies,
/// gets past that stop once one more reply follows them.
pub proof fn lemma_step_app_progress<T, U: Default>(
    fuel: nat,
    ctx: Bindings<T, U>,
    f: Term<T, U>,
    x: Term<T, U>,
    m: T,
    r1: Seq<ValueModel>,
    r2: Seq<ValueModel>,
    pos: nat,
)
    requires
        extends(r2, r1),
        r2.len() > r1.len(),
        pos <= r1.len(),
        step_app_spec(fuel, ctx, f, x, m, r1, pos) matches Some((o, _)) && is_pending(o),
    ensures
        step_app_spec(fuel, ctx, f, x, m, r2, pos) matches Some((_, p2)) ==> p2 > r1.len(),
    decreases fuel, 0nat, 0nat,
{
    match (f, x) {
        (Term::Lambda(params, body, _), Term::ArgsTuple(args, _)) => {
            lemma_subst_fails_only_unbound(bind_all(ctx, params, args), *body);
        },
        (Term::LLMFunction(..), Term::ArgsTuple(..)) => {},
        (Term::Lambda(..), _) => {
            lemma_subst_fails_only_unbound(ctx, f);
            if let Ok(g) = subst_term(ctx, f) {
                lemma_step_app_progress((fuel - 1) as nat, ctx, g, x, m, r1, r2, pos);
            }
        },
        _ => {},
    }
}

/// The rest of an evaluation that stops for a missing LLM reply, when started within its
/// replies, gets past that stop once one more reply follows them.
pub proof fn lemma_eval_loop_progress<T, U: Default>(
    fuel: nat,
    ctx: Bindings<T, U>,
    orig: Term<T, U>,
    cur: Term<T, U>,
    k: nat,
    r1: Seq<ValueModel>,
    r2: Seq<ValueModel>,
    pos: nat,
)
    requires
        extends(r2, r1),
        r2.len() > r1.len(),
        pos <= r1.len(),
        eval_loop(fuel, ctx, orig, cur, k, r1, pos) matches Some((o, _)) && is_pending(o),
    ensures
        eval_loop(fuel, ctx, orig, cur, k, r2, pos) matches Some((_, p2)) ==> p2 > r1.len(),
    decreases k,
{
    if k > 0 && !(cur is Atom) {
        lemma_step_positions(fuel, ctx, cur, r1, pos);
        match step_spec(fuel, ctx, cur, r1, pos) {
            Some((Ok(next), p1)) => {
                lemma_step_replay(fuel, ctx, cur, r1, r2, pos);
                lemma_eval_loop_progress(fuel, ctx, orig, next, (k - 1) as nat, r1, r2, p1);
            },
            Some((Err(e), p1)) => {
                lemma_step_progress(fuel, ctx, cur, r1, r2, pos);
                if let Some((Ok(next2), p2)) = step_spec(fuel, ctx, cur, r2, pos) {
                    if !same_state(next2, orig) {
                        lemma_eval_loop_positions(fuel, ctx, orig, next2, (k - 1) as nat, r2, p2);
                    }
                }
            },
            None => {},
        }
    }
}

/// An evaluation that stops for a missing LLM reply, run again from the same position with
/// one or more replies added after the ones it had, gets past that stop: if the rerun
/// finishes, it has used a reply beyond the earlier ones. (Run again with the same replies it
/// stops the same way, since outcomes are functions of their inputs.)
pub proof fn lemma_eval_outcome_progress<T, U: Default>(
    ctx: Bindings<T, U>,
    t: Term<T, U>,
    r1: Seq<ValueModel>,
    r2: Seq<ValueModel>,
    pos: nat,
)
    requires
        extends(r2, r1),
        r2.len() > r1.len(),
        pos <= r1.len(),
        eval_outcome(ctx, t, r1, pos) matches Some((o, _)) && is_pending(o),
    ensures
        eval_outcome(ctx, t, r2, pos) matches Some((_, p2)) ==> p2 > r1.len(),
{
    let f1 = choose|f: nat| #[trigger] eval_spec(f, ctx, t, r1, pos) is Some;
    if exists|f: nat| #[trigger] eval_spec(f, ctx, t, r2, pos) is Some {
        let f2 = choose|f: nat| #[trigger] eval_spec(f, ctx, t, r2, pos) is Some;
        let hi = if f1 <= f2 { f2 } else { f1 };
        lemma_eval_fuel_mono(f1, hi, ctx, t, r1, pos);
        lemma_eval_fuel_mono(f2, hi, ctx, t, r2, pos);
        lemma_eval_loop_progress(hi, ctx, t, t, MAX_STEPS as nat, r1, r2, pos);
    }
}

/// Metadata does not show in the text of a term: terms that are equal up to metadata have the
/// same text.
pub proof fn lemma_dump_ignores_metadata<T, U: Default>(a: Term<T, U>, b: Term<T, U>)
    requires
        same_state(a, b),
    ensures
        dump_text(a) == dump_text(b),
    decreases a,
{
    match (a, b) {
        (Term::Lambda(_, b1, _), Term::Lambda(_, b2, _)) => lemma_dump_ignores_metadata(*b1, *b2),
        (Term::App(f1, x1, _), Term::App(f2, x2, _)) => {
            lemma_dump_ignores_metadata(*f1, *f2);
            assert(same_state(*x1, *x2));
            match (*x1, *x2) {
                (Term::ArgsTuple(s1, _), Term::ArgsTuple(s2, _)) => {
                    assert(same_states(s1, s2));
                    lemma_dump_texts_ignore_metadata(s1, s2);
                },
                _ => {
                    assert(*x1 is ArgsTuple <==> *x2 is ArgsTuple);
                    lemma_dump_ignores_metadata(*x1, *x2);
                },
            }
        },
        (Term::Let(_, v1, b1, _), Term::Let(_, v2, b2, _)) => {
            lemma_dump_ignores_metadata(*v1, *v2);
            lemma_dump_ignores_metadata(*b1, *b2);
        },
        (Term::ArgsTuple(s1, _), Term::ArgsTuple(s2, _)) => lemma_dump_texts_ignore_metadata(s1, s2),
        _ => {},
    }
}

/// Sequences of terms that are equal up to metadata have the same texts.
pub proof fn lemma_dump_texts_ignore_metadata<T, U: Default>(s1: Seq<Term<T, U>>, s2: Seq<Term<T, U>>)
    requires
        same_states(s1, s2),
    ensures
        dump_texts(s1) == dump_texts(s2),
    decreases s1,
{
    if s1.len() > 0 {
        lemma_dump_texts_ignore_metadata(s1.drop_last(), s2.drop_last());
        lemma_dump_ignores_metadata(s1.last(), s2.last());
    }
}

/// A step of an application substitutes the function first; an error there is the step's
/// error, and otherwise the step is the application step of the substituted function to the
/// argument as it stands.
pub proof fn lemma_step_app_via_subst<T, U: Default>(
    ctx: Bindings<T, U>,
    f: Term<T, U>,
    x: Term<T, U>,
    m: T,
    replies: Seq<ValueModel>,
    pos: nat,
)
    ensures
        step_outcome(ctx, Term::App(Box::new(f), Box::new(x), m), replies, pos) == match subst_term(ctx, f) {
            Err(e) => Some((Err(e), pos)),
            Ok(g) => step_app_outcome(ctx, g, x, m, replies, pos),
        },
{
    let t = Term::App(Box::new(f), Box::new(x), m);
    match subst_term(ctx, f) {
        Err(e) => {
            lemma_step_outcome_fuel(1, ctx, t, replies, pos);
        },
        Ok(g) => {
            if exists|fl: nat| #[trigger] step_app_spec(fl, ctx, g, x, m, replies, pos) is Some {
                let f0 = choose|fl: nat| #[trigger] step_app_spec(fl, ctx, g, x, m, replies, pos) is Some;
                assert(step_spec(f0 + 1, ctx, t, replies, pos) == step_app_spec(f0, ctx, g, x, m, replies, pos));
                lemma_step_outcome_fuel(f0 + 1, ctx, t, replies, pos);
            } else {
                if exists|fl: nat| #[trigger] step_spec(fl, ctx, t, replies, pos) is Some {
                    let f1 = choose|fl: nat| #[trigger] step_spec(fl, ctx, t, replies, pos) is Some;
                    assert(step_app_spec((f1 - 1) as nat, ctx, g, x, m, replies, pos) is Some);
                }
            }
        },
    }
}

/// Evaluation to a value as a sequence of steps, each taken by [`step_outcome`]: an atom ends
/// it with its value, a step's error ends it with that error, a step that gives back the term
/// evaluation started from (up to metadata) ends it with no progress, and after `k` steps
/// without an atom it ends with too many steps. `None`: a step does not return.
pub open spec fn run_steps<T, U: Default>(
    ctx: Bindings<T, U>,
    orig: Term<T, U>,
    cur: Term<T, U>,
    k: nat,
    replies: Seq<ValueModel>,
    pos: nat,
) -> Option<(Result<(ValueModel, U), ErrorModel<T, U>>, nat)>
    decreases k,
{
    if k == 0 {
        Some((Err(ErrorModel::MaxStepsReached), pos))
    } else {
        match cur {
            Term::Atom(v, vm, _) => Some((Ok((v, vm)), pos)),
            _ => match step_outcome(ctx, cur, replies, pos) {
                None => None,
                Some((Err(e), p)) => Some((Err(e), p)),
                Some((Ok(next), p)) => if same_state(next, orig) {
                    Some((Err(ErrorModel::NoProgress), p))
                } else {
                    run_steps(ctx, orig, next, (k - 1) as nat, replies, p)
                },
            },
        }
    }
}

proof fn lemma_eval_loop_is_run_steps<T, U: Default>(
    fuel: nat,
    ctx: Bindings<T, U>,
    orig: Term<T, U>,
    cur: Term<T, U>,
    k: nat,
    replies: Seq<ValueModel>,
    pos: nat,
)
    requires
        eval_loop(fuel, ctx, orig, cur, k, replies, pos) is Some,
    ensures
        run_steps(ctx, orig, cur, k, replies, pos) == eval_loop(fuel, ctx, orig, cur, k, replies, pos),
    decreases k,
{
    if k > 0 && !(cur is Atom) {
        lemma_step_outcome_fuel(fuel, ctx, cur, replies, pos);
        if let Some((Ok(next), p)) = step_spec(fuel, ctx, cur, replies, pos) {
            if !same_state(next, orig) {
                lemma_eval_loop_is_run_steps(fuel, ctx, orig, next, (k - 1) as nat, replies, p);
            }
        }
    }
}

proof fn lemma_run_steps_fuel<T, U: Default>(
    ctx: Bindings<T, U>,
    orig: Term<T, U>,
    cur: Term<T, U>,
    k: nat,
    replies: Seq<ValueModel>,
    pos: nat,
) -> (fuel: nat)
    requires
        run_steps(ctx, orig, cur, k, replies, pos) is Some,
    ensures
        eval_loop(fuel, ctx, orig, cur, k, replies, pos) is Some,
    decreases k,
{
    if k == 0 || cur is Atom {
        0
    } else {
        let f1 = choose|f: nat| #[trigger] step_spec(f, ctx, cur, replies, pos) is Some;
        match step_spec(f1, ctx, cur, replies, pos) {
            Some((Ok(next), p)) => {
                if same_state(next, orig) {
                    f1
                } else {
                    let f2 = lemma_run_steps_fuel(ctx, orig, next, (k - 1) as nat, replies, p);
                    let hi = if f1 <= f2 { f2 } else { f1 };
                    lemma_step_fuel_mono(f1, hi, ctx, cur, replies, pos);
                    lemma_eval_loop_fuel_mono(f2, hi, ctx, orig, next, (k - 1) as nat, replies, p);
                    hi
                }
            },
            _ => f1,
        }
    }
}

/// Evaluation to a value is the sequence of steps of [`run_steps`] from the term itself, at
/// most [`MAX_STEPS`] of them.
pub proof fn lemma_eval_is_steps<T, U: Default>(
    ctx: Bindings<T, U>,
    t: Term<T, U>,
    replies: Seq<ValueModel>,
    pos: nat,
)
    ensures
        eval_outcome(ctx, t, replies, pos) == run_steps(ctx, t, t, MAX_STEPS as nat, replies, pos),
{
    if exists|f: nat| #[trigger] eval_spec(f, ctx, t, replies, pos) is Some {
        let f0 = choose|f: nat| #[trigger] eval_spec(f, ctx, t, replies, pos) is Some;
        lemma_eval_loop_is_run_steps(f0, ctx, t, t, MAX_STEPS as nat, replies, pos);
    } else if run_steps(ctx, t, t, MAX_STEPS as nat, replies, pos) is Some {
        let f = lemma_run_steps_fuel(ctx, t, t, MAX_STEPS as nat, replies, pos);
        assert(eval_spec(f, ctx, t, replies, pos) is Some);
    }
}

/// Binding parameters in turn changes exactly the parameters: a name that is not among them
/// looks up as before, and a parameter looks up as the term at its last position.
pub proof fn lemma_bind_all_lookup<T, U>(
    ctx: Bindings<T, U>,
    names: Seq<Seq<char>>,
    terms: Seq<Term<T, U>>,
    k: Seq<char>,
)
    requires
        names.len() <= terms.len(),
    ensures
        (forall|i: int| 0 <= i < names.len() ==> names[i] != k) ==> lookup(bind_all(ctx, names, terms), k)
            == lookup(ctx, k),
        forall|i: int|
            0 <= i < names.len() && names[i] == k && (forall|j: int| i < j < names.len() ==> names[j] != k)
                ==> lookup(bind_all(ctx, names, terms), k) == Some(terms[i]),
    decreases names.len(),
{
    if names.len() > 0 {
        let init = names.drop_last();
        lemma_bind_all_lookup(ctx, init, terms, k);
        let b = bind_all(ctx, init, terms);
        if names.last() == k {
            lemma_lookup_bind_same(b, k, terms[names.len() - 1]);
            assert forall|i: int|
                0 <= i < names.len() && names[i] == k && (forall|j: int| i < j < names.len() ==> names[j] != k)
                implies lookup(bind_all(ctx, names, terms), k) == Some(terms[i]) by {
                if i < names.len() - 1 {
                    assert(names[names.len() - 1] == k);
                }
            }
        } else {
            lemma_lookup_bind_other(b, names.last(), terms[names.len() - 1], k);
            assert forall|i: int|
                0 <= i < names.len() && names[i] == k && (forall|j: int| i < j < names.len() ==> names[j] != k)
                implies lookup(bind_all(ctx, names, terms), k) == Some(terms[i]) by {
                assert(i < names.len() - 1);
                assert(init[i] == k);
                assert(forall|j: int| i < j < init.len() ==> init[j] == names[j]);
            }
        }
    }
}

/// A lambda applied to an argument tuple of the right length sees the caller's context: in
/// its body a name that is not a parameter means what it means to the caller, and a parameter
/// means the argument at its last position.
pub proof fn lemma_apply_lambda_scope<T, U: Default>(
    ctx: Bindings<T, U>,
    params: Seq<Seq<char>>,
    k: Seq<char>,
    vm: T,
    lm: T,
    args: Seq<Term<T, U>>,
    am: T,
    m: T,
    replies: Seq<ValueModel>,
    pos: nat,
)
    requires
        params.len() == args.len(),
    ensures
        (forall|i: int| 0 <= i < params.len() ==> params[i] != k) ==> step_app_outcome(
            ctx,
            Term::Lambda(params, Box::new(Term::Var(k, vm)), lm),
            Term::ArgsTuple(args, am),
            m,
            replies,
            pos,
        ) == Some((
            match lookup(ctx, k) {
                Some(v) => Ok(v),
                None => Err(ErrorModel::<T, U>::VariableNotFound(k)),
            },
            pos,
        )),
        forall|i: int|
            0 <= i < params.len() && params[i] == k && (forall|j: int| i < j < params.len() ==> params[j] != k)
                ==> step_app_outcome(
                ctx,
                Term::Lambda(params, Box::new(Term::Var(k, vm)), lm),
                Term::ArgsTuple(args, am),
                m,
                replies,
                pos,
            ) == Some((Ok::<Term<T, U>, ErrorModel<T, U>>(args[i]), pos)),
{
    lemma_step_app_beta(ctx, params, Term::Var(k, vm), lm, args, am, m, replies, pos);
    lemma_bind_all_lookup(ctx, params, args, k);
}

/// An LLM function applied to atoms, with no reply left, asks for a call of that function
/// whose arguments pair each parameter name with the value of the argument at the same
/// position, as many as both lists have; with a reply left, it gives that reply as an atom
/// with default value metadata and the application's metadata, and moves to the next reply.
pub proof fn lemma_llm_call<T, U: Default>(
    ctx: Bindings<T, U>,
    name: Seq<char>,
    names: Seq<Seq<char>>,
    fm: T,
    args: Seq<Term<T, U>>,
    am: T,
    m: T,
    replies: Seq<ValueModel>,
    pos: nat,
)
    requires
        forall|i: int| 0 <= i < args.len() ==> #[trigger] args[i] is Atom,
    ensures
        ({
            let out = step_app_outcome(ctx, Term::LLMFunction(name, names, fm), Term::ArgsTuple(args, am), m, replies, pos);
            &&& pos >= replies.len() ==> (out matches Some((Err(ErrorModel::LlmCallPending(n2, req)), p)) && {
                &&& n2 == name
                &&& p == pos
                &&& req.len() == if names.len() <= args.len() { names.len() } else { args.len() }
                &&& forall|i: int| 0 <= i < req.len() ==> #[trigger] req[i] == (names[i], args[i]->Atom_0)
            })
            &&& pos < replies.len() ==> out == Some((
                Ok::<Term<T, U>, ErrorModel<T, U>>(Term::Atom(replies[pos as int], crate::semantics::default_meta::<U>(), m)),
                pos + 1,
            ))
        }),
{
    lemma_step_app_outcome_fuel(1, ctx, Term::LLMFunction(name, names, fm), Term::ArgsTuple(args, am), m, replies, pos);
}

/// `last_key_index` is the last position of the name.
pub proof fn lemma_last_key_index_at<T, U: Default>(pairs: Seq<(Seq<char>, Term<T, U>)>, k: Seq<char>, j: int)
    requires
        0 <= j < pairs.len(),
        pairs[j].0 == k,
        forall|i: int| j < i < pairs.len() ==> pairs[i].0 != k,
    ensures
        last_key_index(pairs, k) == j,
    decreases pairs.len(),
{
    if j < pairs.len() - 1 {
        lemma_last_key_index_at(pairs.drop_last(), k, j);
    }
}

/// A name that no pair has has no last position.
pub proof fn lemma_last_key_index_absent<T, U: Default>(pairs: Seq<(Seq<char>, Term<T, U>)>, k: Seq<char>)
    requires
        forall|i: int| 0 <= i < pairs.len() ==> pairs[i].0 != k,
    ensures
        last_key_index(pairs, k) == -1,
    decreases pairs.len(),
{
    if pairs.len() > 0 {
        lemma_last_key_index_absent(pairs.drop_last(), k);
    }
}

/// In the initial context, the name of an LLM function is bound to an LLM function of that
/// name whose parameters are the function's inputs in their order (for the last function of
/// that name); a name that no LLM function has is bound to the expression of its last
/// top-level assignment.
pub proof fn lemma_initial_context_functions(ir: IntermediateRepr, j: int)
    requires
        0 <= j < ir.functions@.len(),
    ensures
        (forall|i: int| j < i < ir.functions@.len() ==> ir.functions@[i].name@ != ir.functions@[j].name@)
            ==> lookup(initial_bindings(ir), ir.functions@[j].name@) == Some(
            Term::<(), ()>::LLMFunction(
                ir.functions@[j].name@,
                ir.functions@[j].inputs@.map_values(|s: String| s@),
                (),
            ),
        ),
{
    let k = ir.functions@[j].name@;
    let fs = llm_function_bindings(ir.functions@);
    lemma_initial_context_lookup(ir, k);
    if forall|i: int| j < i < ir.functions@.len() ==> ir.functions@[i].name@ != k {
        assert forall|i: int| j < i < fs.len() implies fs[i].0 != k by {
            assert(fs[i].0 == ir.functions@[i].name@);
        }
        lemma_last_key_index_at(fs, k, j);
    }
}

/// In the initial context, a name that no LLM function has is bound to the expression of its
/// last top-level assignment.
pub proof fn lemma_initial_context_assignments(ir: IntermediateRepr, j: int)
    requires
        0 <= j < ir.toplevel_assignments@.len(),
        forall|i: int| 0 <= i < ir.functions@.len() ==> ir.functions@[i].name@ != ir.toplevel_assignments@[j].name@,
        forall|i: int| j < i < ir.toplevel_assignments@.len() ==> ir.toplevel_assignments@[i].name@
            != ir.toplevel_assignments@[j].name@,
    ensures
        lookup(initial_bindings(ir), ir.toplevel_assignments@[j].name@) == Some(ir.toplevel_assignments@[j].expr@),
{
    let k = ir.toplevel_assignments@[j].name@;
    let fs = llm_function_bindings(ir.functions@);
    let asg = assignment_bindings(ir.toplevel_assignments@);
    lemma_initial_context_lookup(ir, k);
    assert forall|i: int| j < i < asg.len() implies asg[i].0 != k by {
        assert(asg[i].0 == ir.toplevel_assignments@[i].name@);
    }
    lemma_last_key_index_at(asg, k, j);
    assert forall|i: int| 0 <= i < fs.len() implies fs[i].0 != k by {
        assert(fs[i].0 == ir.functions@[i].name@);
    }
    lemma_last_key_index_absent(fs, k);
}

/// The text of an application to an argument tuple: the function's text, then the arguments'
/// texts in order, separated by `, `, between parentheses. Here by the number of arguments:
/// none, one, and one more than some.
pub proof fn lemma_dump_application<T, U: Default>(
    f: Term<T, U>,
    args: Seq<Term<T, U>>,
    a: Term<T, U>,
    am: T,
    m: T,
)
    ensures
        dump_text(Term::App(Box::new(f), Box::new(Term::ArgsTuple(Seq::empty(), am)), m)) == dump_text(f)
            + seq!['(', ')'],
        dump_text(Term::App(Box::new(f), Box::new(Term::ArgsTuple(seq![a], am)), m)) == dump_text(f) + seq!['(']
            + dump_text(a) + seq![')'],
        args.len() > 0 ==> dump_text(Term::App(Box::new(f), Box::new(Term::ArgsTuple(args.push(a), am)), m))
            == dump_text(Term::App(Box::new(f), Box::new(Term::ArgsTuple(args, am)), m)).drop_last() + seq![',', ' ']
            + dump_text(a) + seq![')'],
{
    let e: Seq<Term<T, U>> = Seq::empty();
    assert(dump_texts(e) =~= Seq::<Seq<char>>::empty());
    assert(seq![a].drop_last() =~= e);
    assert(dump_texts(seq![a]) =~= seq![dump_text(a)]);
    assert(dump_text(Term::App(Box::new(f), Box::new(Term::ArgsTuple(Seq::empty(), am)), m)) =~= dump_text(f) + seq!['(', ')']);
    assert(dump_text(Term::App(Box::new(f), Box::new(Term::ArgsTuple(seq![a], am)), m)) =~= dump_text(f) + seq!['(']
        + dump_text(a) + seq![')']);
    if args.len() > 0 {
        let s2 = args.push(a);
        assert(s2.drop_last() =~= args);
        let d = dump_texts(args);
        crate::dump::lemma_dump_texts(args);
        assert(dump_texts(s2) == d.push(dump_text(a)));
        assert(d.push(dump_text(a)).drop_last() =~= d);
        let j = crate::dump::join_texts(d, seq![',', ' ']);
        assert(crate::dump::join_texts(d.push(dump_text(a)), seq![',', ' ']) == j + seq![',', ' '] + dump_text(a));
        let before = dump_text(f) + seq!['('] + j + seq![')'];
        assert(before.drop_last() =~= dump_text(f) + seq!['('] + j);
        assert(dump_text(Term::App(Box::new(f), Box::new(Term::ArgsTuple(s2, am)), m)) =~= before.drop_last()
            + seq![',', ' '] + dump_text(a) + seq![')']);
    }
}

/// The text of a context: one line per binding, in order, each the name, `: ` and the text of
/// the bound term (whatever its kind), the lines separated by newlines. Here by the number of
/// bindings: none, one, and one more than some.
pub proof fn lemma_context_text_lines<T, U>(s: Bindings<T, U>, k: Seq<char>, t: Term<T, U>)
    ensures
        context_text(Seq::<(Seq<char>, Term<T, U>)>::empty()) == Seq::<char>::empty(),
        context_text(seq![(k, t)]) == k + seq![':', ' '] + dump_text(t),
        s.len() > 0 ==> context_text(s.push((k, t))) == context_text(s) + seq!['\n'] + k + seq![':', ' ']
            + dump_text(t),
{
    let f = |b: (Seq<char>, Term<T, U>)| b.0 + seq![':', ' '] + dump_text(b.1);
    assert(Seq::<(Seq<char>, Term<T, U>)>::empty().map_values(f) =~= Seq::<Seq<char>>::empty());
    assert(seq![(k, t)].map_values(f) =~= seq![f((k, t))]);
    if s.len() > 0 {
        let l = s.map_values(f);
        assert(s.push((k, t)).map_values(f) =~= l.push(f((k, t))));
        assert(l.push(f((k, t))).drop_last() =~= l);
        assert(context_text(s.push((k, t))) =~= context_text(s) + seq!['\n'] + (k + seq![':', ' '] + dump_text(t)));
    }
}

} // verus!
