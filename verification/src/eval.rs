//! Evaluation of expressions: substitution, single steps and evaluation to a value.
use std::sync::Arc;
use vstd::prelude::*;
use crate::context::{Bindings, Context};
use crate::expr::{clone_exact, lemma_terms_of, names_model, term_of, terms_of, Expr, Name, Term};
use crate::semantics::{
    all_atoms, atom_values, default_exact, bind_all, call_args, eval_loop, eval_spec, lemma_subst_terms_err_prefix, step_app_spec, step_spec, subst_term, subst_terms,
    ErrorModel, MAX_STEPS,
};
use crate::value::{BamlValue, BamlValueWithMeta, ValueModel};

verus! {

broadcast use vstd::std_specs::vec::group_vec_axioms;

/// The environment of an evaluation.
pub struct EvalEnv<T, U> {
    pub context: Context<T, U>,
}

/// An LLM function call that evaluation needs the reply to.
pub struct LlmRequest {
    pub function: Name,
    /// Each parameter name with the value of the argument at its position.
    pub args: Vec<(Name, BamlValue)>,
}

/// Why evaluation stopped without a result.
pub enum EvalError<T, U> {
    VariableNotFound(Name),
    /// An LLM function stood where a value was needed.
    BareLlmFunction(Name),
    /// An argument tuple stood where a value was needed.
    BareArgsTuple,
    /// The numbers of parameters and of arguments of an application differ.
    WrongNumberOfArguments(usize, usize),
    NotAFunction(Expr<T, U>),
    /// A step gave back the expression that evaluation started from.
    NoProgress,
    MaxStepsReached,
    /// Evaluation needs the reply to an LLM call beyond the replies it was given.
    LlmCallPending(LlmRequest),
}

/// The replies to the LLM calls of an evaluation, in the order of the calls, and the position
/// of the next one to use. A reply is the value the call gave; evaluation gives it the
/// metadata `U::default()`, whatever metadata it had.
pub struct LlmResponses {
    pub responses: Vec<BamlValue>,
    pub next: usize,
}

pub open spec fn pairs_model(s: Seq<(Name, BamlValue)>) -> Seq<(Seq<char>, ValueModel)> {
    s.map_values(|p: (Name, BamlValue)| (p.0@, p.1@))
}

impl<T, U> View for EvalError<T, U> {
    type V = ErrorModel<T, U>;

    open spec fn view(&self) -> ErrorModel<T, U> {
        match self {
            EvalError::VariableNotFound(n) => ErrorModel::VariableNotFound(n@),
            EvalError::BareLlmFunction(n) => ErrorModel::BareLlmFunction(n@),
            EvalError::BareArgsTuple => ErrorModel::BareArgsTuple,
            EvalError::WrongNumberOfArguments(p, a) => ErrorModel::WrongNumberOfArguments(*p as nat, *a as nat),
            EvalError::NotAFunction(f) => ErrorModel::NotAFunction(f@),
            EvalError::NoProgress => ErrorModel::NoProgress,
            EvalError::MaxStepsReached => ErrorModel::MaxStepsReached,
            EvalError::LlmCallPending(req) => ErrorModel::LlmCallPending(req.function@, pairs_model(req.args@)),
        }
    }
}

/// The model of the replies.
pub open spec fn replies_model(r: LlmResponses) -> Seq<ValueModel> {
    r.responses@.map_values(|v: BamlValue| v@)
}

/// The model of an evaluation result.
pub open spec fn result_model<T, U>(r: Result<Expr<T, U>, EvalError<T, U>>) -> Result<Term<T, U>, ErrorModel<T, U>> {
    match r {
        Ok(e) => Ok(e@),
        Err(e) => Err(e@),
    }
}

pub open spec fn results_model<T, U>(r: Result<Vec<Expr<T, U>>, EvalError<T, U>>) -> Result<Seq<Term<T, U>>, ErrorModel<T, U>> {
    match r {
        Ok(v) => Ok(terms_of(v@)),
        Err(e) => Err(e@),
    }
}

fn subst_args<T: Clone, U: Clone>(env: &EvalEnv<T, U>, args: &Vec<Expr<T, U>>) -> (r: Result<Vec<Expr<T, U>>, EvalError<T, U>>)
    ensures
        clone_exact::<T>() && clone_exact::<U>() ==> results_model(r) == subst_terms(env.context@, terms_of(args@)),
    decreases args, 0nat,
{
    let ghost ctx = env.context@;
    let ghost ts = terms_of(args@);
    proof {
        lemma_terms_of(args@);
    }
    let mut out: Vec<Expr<T, U>> = Vec::new();
    let n = args.len();
    let mut i: usize = 0;
    proof {
        assert(ts.take(0) =~= Seq::<Term<T, U>>::empty());
        lemma_terms_of(out@);
        assert(terms_of(out@) =~= Seq::<Term<T, U>>::empty());
    }
    while i < n
        invariant
            n == args@.len(),
            0 <= i <= n,
            out@.len() == i,
            ctx == env.context@,
            ts == terms_of(args@),
            ts.len() == n,
            forall|j: int| 0 <= j < n ==> #[trigger] ts[j] == term_of(args@[j]),
            clone_exact::<T>() && clone_exact::<U>() ==> subst_terms(ctx, ts.take(i as int)) == Ok::<
                Seq<Term<T, U>>,
                ErrorModel<T, U>,
            >(terms_of(out@)),
        decreases n - i,
    {
        proof {
            assert(decreases_to!(args => args@[i as int]));
            assert(ts.take(i + 1).drop_last() =~= ts.take(i as int));
            assert(ts.take(i + 1).last() == ts[i as int]);
        }
        match subst(env, &args[i]) {
            Ok(e) => {
                let ghost before = out@;
                out.push(e);
                proof {
                    lemma_terms_of(before);
                    lemma_terms_of(out@);
                    assert(terms_of(out@) =~= terms_of(before).push(term_of(out@[i as int])));
                }
            },
            Err(e) => {
                proof {
                    if clone_exact::<T>() && clone_exact::<U>() {
                        lemma_subst_terms_err_prefix(ctx, ts, i + 1);
                    }
                }
                return Err(e);
            },
        }
        i = i + 1;
    }
    proof {
        assert(ts.take(n as int) =~= ts);
    }
    Ok(out)
}

/// Replaces the variables of `expr` by what the context binds them to (see [`subst_term`]);
/// the result is stated for metadata whose clone gives an equal value.
pub fn subst<T: Clone, U: Clone>(env: &EvalEnv<T, U>, expr: &Expr<T, U>) -> (r: Result<Expr<T, U>, EvalError<T, U>>)
    ensures
        clone_exact::<T>() && clone_exact::<U>() ==> result_model(r) == subst_term(env.context@, expr@),
    decreases expr, 1nat,
{
    match expr {
        Expr::Var(var_name, _) => match env.context.get(var_name) {
            Some(val) => Ok(val.clone()),
            None => Err(EvalError::VariableNotFound(var_name.clone())),
        },
        Expr::Atom(_, _) => Ok(expr.clone()),
        Expr::Lambda(params, body, meta) => {
            let new_body = match subst(env, &**body) {
                Ok(v) => v,
                Err(e) => return Err(e),
            };
            let ps = params.clone();
            assert(names_model(ps@) =~= names_model(params@));
            Ok(Expr::Lambda(ps, Arc::new(new_body), meta.clone()))
        },
        Expr::App(f, x, meta) => {
            let f2 = match subst(env, &**f) {
                Ok(v) => v,
                Err(e) => return Err(e),
            };
            let x2 = match subst(env, &**x) {
                Ok(v) => v,
                Err(e) => return Err(e),
            };
            Ok(Expr::App(Arc::new(f2), Arc::new(x2), meta.clone()))
        },
        Expr::ArgsTuple(args, meta) => match subst_args(env, args) {
            Ok(new_args) => Ok(Expr::ArgsTuple(new_args, meta.clone())),
            Err(e) => Err(e),
        },
        Expr::LLMFunction(_, _, _) => Ok(expr.clone()),
        Expr::Let(name, value, body, meta) => {
            let mut new_ctx = env.context.clone();
            let new_value = match subst(env, &**value) {
                Ok(v) => v,
                Err(e) => return Err(e),
            };
            new_ctx.insert(name.clone(), new_value.clone());
            let new_env = EvalEnv { context: new_ctx };
            let new_body = match subst(&new_env, &**body) {
                Ok(v) => v,
                Err(e) => return Err(e),
            };
            Ok(Expr::Let(name.clone(), Arc::new(new_value), Arc::new(new_body), meta.clone()))
        },
    }
}

fn bind_params<T: Clone, U: Clone>(ctx: &Context<T, U>, params: &Vec<Name>, args: &Vec<Expr<T, U>>) -> (r: Context<T, U>)
    requires
        clone_exact::<T>(),
        clone_exact::<U>(),
        params@.len() == args@.len(),
    ensures
        r@ == bind_all(ctx@, names_model(params@), terms_of(args@)),
{
    let ghost names = names_model(params@);
    let ghost ts = terms_of(args@);
    proof {
        lemma_terms_of(args@);
        assert(names.take(0) =~= Seq::<Seq<char>>::empty());
    }
    let mut new_ctx = ctx.clone();
    let n = params.len();
    let mut i: usize = 0;
    while i < n
        invariant
            clone_exact::<T>(),
            clone_exact::<U>(),
            n == params@.len(),
            n == args@.len(),
            0 <= i <= n,
            names == names_model(params@),
            ts == terms_of(args@),
            ts.len() == n,
            forall|j: int| 0 <= j < n ==> #[trigger] ts[j] == term_of(args@[j]),
            new_ctx@ == bind_all(ctx@, names.take(i as int), ts),
        decreases n - i,
    {
        new_ctx.insert(params[i].clone(), args[i].clone());
        proof {
            assert(names.take(i + 1).drop_last() =~= names.take(i as int));
            assert(names.take(i + 1).last() == names[i as int]);
        }
        i = i + 1;
    }
    proof {
        assert(names.take(n as int) =~= names);
    }
    new_ctx
}

fn call_request<T, U>(function: &Name, arg_names: &Vec<Name>, args: &Vec<Expr<T, U>>) -> (r: LlmRequest)
    requires
        all_atoms(terms_of(args@)),
    ensures
        r.function@ == function@,
        pairs_model(r.args@) == call_args(names_model(arg_names@), atom_values(terms_of(args@))),
{
    proof {
        lemma_terms_of(args@);
    }
    let n = if arg_names.len() <= args.len() { arg_names.len() } else { args.len() };
    let mut pairs: Vec<(Name, BamlValue)> = Vec::new();
    let mut i: usize = 0;
    while i < n
        invariant
            n <= arg_names@.len(),
            n <= args@.len(),
            0 <= i <= n,
            pairs@.len() == i,
            terms_of(args@).len() == args@.len(),
            forall|j: int| 0 <= j < args@.len() ==> #[trigger] terms_of(args@)[j] == term_of(args@[j]),
            all_atoms(terms_of(args@)),
            forall|j: int| 0 <= j < i ==> #[trigger] pairs@[j].0@ == arg_names@[j]@ && pairs@[j].1@
                == atom_values(terms_of(args@))[j],
        decreases n - i,
    {
        assert(terms_of(args@)[i as int] is Atom);
        let atom = args[i].as_atom().unwrap();
        pairs.push((arg_names[i].clone(), atom.value.clone()));
        i = i + 1;
    }
    proof {
        assert(pairs_model(pairs@) =~= call_args(names_model(arg_names@), atom_values(terms_of(args@))));
    }
    LlmRequest { function: function.clone(), args: pairs }
}

fn step_app_fuel<T: Clone, U: Clone + Default>(
    Ghost(fuel): Ghost<nat>,
    env: &EvalEnv<T, U>,
    f: &Expr<T, U>,
    x: &Expr<T, U>,
    meta: &T,
    llm: &mut LlmResponses,
) -> (r: Result<Expr<T, U>, EvalError<T, U>>)
    requires
        default_exact::<U>(),
        clone_exact::<T>(),
        clone_exact::<U>(),
        step_app_spec(fuel, env.context@, f@, x@, *meta, replies_model(*old(llm)), old(llm).next as nat) is Some,
    ensures
        (result_model(r), final(llm).next as nat) == step_app_spec(fuel, env.context@, f@, x@, *meta, replies_model(*old(llm)), old(llm).next as nat)->Some_0,
        final(llm).responses == old(llm).responses,
    decreases fuel,
{
    match (f, x) {
        (Expr::Lambda(params, body, _), Expr::ArgsTuple(args, _)) => {
            proof {
                lemma_terms_of(args@);
            }
            if params.len() != args.len() {
                return Err(EvalError::WrongNumberOfArguments(params.len(), args.len()));
            }
            let new_env = EvalEnv { context: bind_params(&env.context, params, args) };
            subst(&new_env, &**body)
        },
        (Expr::LLMFunction(fn_name, arg_names, _), Expr::ArgsTuple(args, _)) => {
            if llm.next < llm.responses.len() {
                let val = BamlValueWithMeta { value: llm.responses[llm.next].clone(), meta: U::default() };
                llm.next = llm.next + 1;
                Ok(Expr::Atom(val, meta.clone()))
            } else {
                Err(EvalError::LlmCallPending(call_request(fn_name, arg_names, args)))
            }
        },
        (Expr::Lambda(_, _, _), _) => {
            let new_f = match subst(env, f) {
                Ok(v) => v,
                Err(e) => return Err(e),
            };
            step_app_fuel(Ghost((fuel - 1) as nat), env, &new_f, x, meta, llm)
        },
        _ => Err(EvalError::NotAFunction(f.clone())),
    }
}

fn step_fuel<T: Clone, U: Clone + Default>(
    Ghost(fuel): Ghost<nat>,
    env: &EvalEnv<T, U>,
    expr: &Expr<T, U>,
    llm: &mut LlmResponses,
) -> (r: Result<Expr<T, U>, EvalError<T, U>>)
    requires
        default_exact::<U>(),
        clone_exact::<T>(),
        clone_exact::<U>(),
        step_spec(fuel, env.context@, expr@, replies_model(*old(llm)), old(llm).next as nat) is Some,
    ensures
        (result_model(r), final(llm).next as nat) == step_spec(fuel, env.context@, expr@, replies_model(*old(llm)), old(llm).next as nat)->Some_0,
        final(llm).responses == old(llm).responses,
    decreases fuel, 0nat,
{
    match expr {
        Expr::Var(var_name, _) => match env.context.get(var_name) {
            Some(val) => Ok(val.clone()),
            None => Err(EvalError::VariableNotFound(var_name.clone())),
        },
        Expr::Let(name, val, body, _) => {
            let mut new_context = env.context.clone();
            new_context.insert(name.clone(), (**val).clone());
            let new_env = EvalEnv { context: new_context };
            subst(&new_env, &**body)
        },
        Expr::Atom(_, _) => Ok(expr.clone()),
        Expr::Lambda(_, _, _) => Ok(expr.clone()),
        Expr::App(f, x, meta) => {
            let new_f = match subst(env, &**f) {
                Ok(v) => v,
                Err(e) => return Err(e),
            };
            step_app_fuel(Ghost((fuel - 1) as nat), env, &new_f, &**x, meta, llm)
        },
        Expr::LLMFunction(fn_name, _, _) => Err(EvalError::BareLlmFunction(fn_name.clone())),
        Expr::ArgsTuple(_, _) => Err(EvalError::BareArgsTuple),
    }
}

fn eval_fuel<T: Clone, U: Clone + Default>(
    Ghost(fuel): Ghost<nat>,
    env: &EvalEnv<T, U>,
    expr: &Expr<T, U>,
    llm: &mut LlmResponses,
) -> (r: Result<BamlValueWithMeta<U>, EvalError<T, U>>)
    requires
        default_exact::<U>(),
        clone_exact::<T>(),
        clone_exact::<U>(),
        eval_spec(fuel, env.context@, expr@, replies_model(*old(llm)), old(llm).next as nat) is Some,
    ensures
        (match r {
            Ok(v) => Ok(v@),
            Err(e) => Err(e@),
        }, final(llm).next as nat) == eval_spec(fuel, env.context@, expr@, replies_model(*old(llm)), old(llm).next as nat)->Some_0,
        final(llm).responses == old(llm).responses,
    decreases fuel, 1nat,
{
    let ghost ctx = env.context@;
    let ghost replies = replies_model(*llm);
    let ghost target = eval_spec(fuel, ctx, expr@, replies, llm.next as nat);
    let mut current = expr.clone();
    let mut steps: u64 = 0;
    while steps < MAX_STEPS
        invariant
            default_exact::<U>(),
            clone_exact::<T>(),
            clone_exact::<U>(),
            ctx == env.context@,
            replies == replies_model(*llm),
            llm.responses == old(llm).responses,
            target == eval_spec(fuel, ctx, expr@, replies_model(*old(llm)), old(llm).next as nat),
            target is Some,
            steps <= MAX_STEPS,
            eval_loop(fuel, ctx, expr@, current@, (MAX_STEPS - steps) as nat, replies, llm.next as nat) == target,
        decreases MAX_STEPS - steps,
    {
        if let Expr::Atom(value, _) = &current {
            return Ok(value.clone());
        }
        let new_expr = match step_fuel(Ghost(fuel), env, &current, llm) {
            Ok(v) => v,
            Err(e) => return Err(e),
        };
        if new_expr.temporary_same_state(expr) {
            return Err(EvalError::NoProgress);
        }
        current = new_expr;
        steps = steps + 1;
    }
    Err(EvalError::MaxStepsReached)
}

/// The outcome of a step that terminates: the step with any fuel that suffices.
pub open spec fn step_outcome<T, U: Default>(
    ctx: Bindings<T, U>,
    t: Term<T, U>,
    replies: Seq<ValueModel>,
    pos: nat,
) -> Option<(Result<Term<T, U>, ErrorModel<T, U>>, nat)> {
    if exists|fuel: nat| #[trigger] step_spec(fuel, ctx, t, replies, pos) is Some {
        step_spec(choose|fuel: nat| #[trigger] step_spec(fuel, ctx, t, replies, pos) is Some, ctx, t, replies, pos)
    } else {
        None
    }
}

/// The outcome of an application step that terminates.
pub open spec fn step_app_outcome<T, U: Default>(
    ctx: Bindings<T, U>,
    f: Term<T, U>,
    x: Term<T, U>,
    m: T,
    replies: Seq<ValueModel>,
    pos: nat,
) -> Option<(Result<Term<T, U>, ErrorModel<T, U>>, nat)> {
    if exists|fuel: nat| #[trigger] step_app_spec(fuel, ctx, f, x, m, replies, pos) is Some {
        step_app_spec(choose|fuel: nat| #[trigger] step_app_spec(fuel, ctx, f, x, m, replies, pos) is Some, ctx, f, x, m, replies, pos)
    } else {
        None
    }
}

/// The outcome of an evaluation to a value that terminates.
pub open spec fn eval_outcome<T, U: Default>(
    ctx: Bindings<T, U>,
    t: Term<T, U>,
    replies: Seq<ValueModel>,
    pos: nat,
) -> Option<(Result<(ValueModel, U), ErrorModel<T, U>>, nat)> {
    if exists|fuel: nat| #[trigger] eval_spec(fuel, ctx, t, replies, pos) is Some {
        eval_spec(choose|fuel: nat| #[trigger] eval_spec(fuel, ctx, t, replies, pos) is Some, ctx, t, replies, pos)
    } else {
        None
    }
}

/// Performs a single execution step: it only performs beta reduction (and the substitution of
/// a `let`'s body with its name bound to its value). Replies to LLM calls come from `llm`,
/// from position `llm.next` on; when the step needs one more, it fails with
/// [`EvalError::LlmCallPending`]. The step must return: it does not when a lambda is applied
/// to something other than an argument tuple, and it panics when an LLM function is applied to
/// arguments that are not all atoms. Metadata must clone to equal values.
pub fn step<T: Clone, U: Clone + Default>(env: &EvalEnv<T, U>, expr: &Expr<T, U>, llm: &mut LlmResponses) -> (r: Result<Expr<T, U>, EvalError<T, U>>)
    requires
        default_exact::<U>(),
        clone_exact::<T>(),
        clone_exact::<U>(),
        step_outcome(env.context@, expr@, replies_model(*old(llm)), old(llm).next as nat) is Some,
    ensures
        (result_model(r), final(llm).next as nat) == step_outcome(env.context@, expr@, replies_model(*old(llm)), old(llm).next as nat)->Some_0,
        final(llm).responses == old(llm).responses,
{
    let ghost fuel = choose|fuel: nat| #[trigger] step_spec(fuel, env.context@, expr@, replies_model(*llm), llm.next as nat) is Some;
    step_fuel(Ghost(fuel), env, expr, llm)
}

/// Applies `f` to `x` for one step; the result has metadata `meta`. A lambda applied to an
/// argument tuple binds its parameters to the arguments in its body; an LLM function applied to
/// one of atoms takes the next reply, with value metadata `U::default()`. The step must return
/// (see [`step`]).
pub fn step_app<T: Clone, U: Clone + Default>(
    env: &EvalEnv<T, U>,
    f: &Expr<T, U>,
    x: &Expr<T, U>,
    meta: &T,
    llm: &mut LlmResponses,
) -> (r: Result<Expr<T, U>, EvalError<T, U>>)
    requires
        default_exact::<U>(),
        clone_exact::<T>(),
        clone_exact::<U>(),
        step_app_outcome(env.context@, f@, x@, *meta, replies_model(*old(llm)), old(llm).next as nat) is Some,
    ensures
        (result_model(r), final(llm).next as nat) == step_app_outcome(env.context@, f@, x@, *meta, replies_model(*old(llm)), old(llm).next as nat)->Some_0,
        final(llm).responses == old(llm).responses,
{
    let ghost fuel = choose|fuel: nat| #[trigger] step_app_spec(fuel, env.context@, f@, x@, *meta, replies_model(*llm), llm.next as nat) is Some;
    step_app_fuel(Ghost(fuel), env, f, x, meta, llm)
}

/// Fully evaluates an expression to a value, in at most [`MAX_STEPS`] steps; a step that
/// gives back `expr` (up to metadata) is an error. The evaluation must terminate (see
/// [`step`]); the result is never `Ok(None)`.
pub fn eval_to_value<T: Clone, U: Clone + Default>(
    env: &EvalEnv<T, U>,
    expr: &Expr<T, U>,
    llm: &mut LlmResponses,
) -> (r: Result<Option<BamlValueWithMeta<U>>, EvalError<T, U>>)
    requires
        default_exact::<U>(),
        clone_exact::<T>(),
        clone_exact::<U>(),
        eval_outcome(env.context@, expr@, replies_model(*old(llm)), old(llm).next as nat) is Some,
    ensures
        (match r {
            Ok(Some(v)) => Ok(v@),
            Ok(None) => Err(ErrorModel::NoProgress),
            Err(e) => Err(e@),
        }, final(llm).next as nat) == eval_outcome(env.context@, expr@, replies_model(*old(llm)), old(llm).next as nat)->Some_0,
        r matches Ok(v) ==> v is Some,
        final(llm).responses == old(llm).responses,
{
    let ghost fuel = choose|fuel: nat| #[trigger] eval_spec(fuel, env.context@, expr@, replies_model(*llm), llm.next as nat) is Some;
    match eval_fuel(Ghost(fuel), env, expr, llm) {
        Ok(v) => Ok(Some(v)),
        Err(e) => Err(e),
    }
}

} // verus!
