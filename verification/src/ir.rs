//! The declarations of a BAML program that evaluation starts from.
use vstd::prelude::*;
use crate::context::{bind_pairs, Bindings, Context};
use crate::expr::{names_model, Expr, Name, Term};

verus! {

broadcast use vstd::std_specs::vec::group_vec_axioms;

/// An expression function: a name and the expression it stands for.
pub struct ExprFn {
    pub name: Name,
    pub body: Expr<(), ()>,
}

/// A top-level `let`: a name and its expression.
pub struct TopLevelAssignment {
    pub name: Name,
    pub expr: Expr<(), ()>,
}

/// An LLM function: a name and the names of its inputs, in order.
pub struct LlmFunction {
    pub name: Name,
    pub inputs: Vec<Name>,
}

/// The parts of a program's intermediate representation that give the initial context.
pub struct IntermediateRepr {
    pub expr_fns: Vec<ExprFn>,
    pub toplevel_assignments: Vec<TopLevelAssignment>,
    pub functions: Vec<LlmFunction>,
}

pub open spec fn expr_fn_bindings(s: Seq<ExprFn>) -> Bindings<(), ()> {
    s.map_values(|f: ExprFn| (f.name@, f.body@))
}

pub open spec fn assignment_bindings(s: Seq<TopLevelAssignment>) -> Bindings<(), ()> {
    s.map_values(|a: TopLevelAssignment| (a.name@, a.expr@))
}

/// The term an LLM function is bound to.
pub open spec fn llm_function_term(f: LlmFunction) -> Term<(), ()> {
    Term::LLMFunction(f.name@, names_model(f.inputs@), ())
}

pub open spec fn llm_function_bindings(s: Seq<LlmFunction>) -> Bindings<(), ()> {
    s.map_values(|f: LlmFunction| (f.name@, llm_function_term(f)))
}

/// The initial context: the expression functions, then the top-level assignments, then the
/// LLM functions, each bound in turn, so that a later one of the same name replaces an
/// earlier one.
pub open spec fn initial_bindings(ir: IntermediateRepr) -> Bindings<(), ()> {
    bind_pairs(
        bind_pairs(
            bind_pairs(Seq::empty(), expr_fn_bindings(ir.expr_fns@)),
            assignment_bindings(ir.toplevel_assignments@),
        ),
        llm_function_bindings(ir.functions@),
    )
}

/// Creates a context from the expression functions, top-level assignments and LLM functions
/// of the intermediate representation.
pub fn initial_context(ir: &IntermediateRepr) -> (r: Context<(), ()>)
    ensures
        r@ == initial_bindings(*ir),
{
    let mut ctx: Context<(), ()> = Context::new();
    let ghost p1 = expr_fn_bindings(ir.expr_fns@);
    let ghost p2 = assignment_bindings(ir.toplevel_assignments@);
    let ghost p3 = llm_function_bindings(ir.functions@);
    let ghost c1 = bind_pairs(Seq::empty(), p1);
    let ghost c2 = bind_pairs(c1, p2);

    let n1 = ir.expr_fns.len();
    let mut i: usize = 0;
    assert(p1.take(0) =~= Seq::<(Seq<char>, Term<(), ()>)>::empty());
    while i < n1
        invariant
            n1 == ir.expr_fns@.len(),
            p1 == expr_fn_bindings(ir.expr_fns@),
            0 <= i <= n1,
            ctx@ == bind_pairs(Seq::empty(), p1.take(i as int)),
        decreases n1 - i,
    {
        let f = &ir.expr_fns[i];
        ctx.insert(f.name.clone(), f.body.clone());
        assert(p1.take(i + 1).drop_last() =~= p1.take(i as int));
        i = i + 1;
    }
    assert(p1.take(n1 as int) =~= p1);

    let n2 = ir.toplevel_assignments.len();
    let mut i: usize = 0;
    assert(p2.take(0) =~= Seq::<(Seq<char>, Term<(), ()>)>::empty());
    while i < n2
        invariant
            n2 == ir.toplevel_assignments@.len(),
            p2 == assignment_bindings(ir.toplevel_assignments@),
            0 <= i <= n2,
            ctx@ == bind_pairs(c1, p2.take(i as int)),
        decreases n2 - i,
    {
        let a = &ir.toplevel_assignments[i];
        ctx.insert(a.name.clone(), a.expr.clone());
        assert(p2.take(i + 1).drop_last() =~= p2.take(i as int));
        i = i + 1;
    }
    assert(p2.take(n2 as int) =~= p2);

    let n3 = ir.functions.len();
    let mut i: usize = 0;
    assert(p3.take(0) =~= Seq::<(Seq<char>, Term<(), ()>)>::empty());
    while i < n3
        invariant
            n3 == ir.functions@.len(),
            p3 == llm_function_bindings(ir.functions@),
            0 <= i <= n3,
            ctx@ == bind_pairs(c2, p3.take(i as int)),
        decreases n3 - i,
    {
        let f = &ir.functions[i];
        let params = f.inputs.clone();
        assert(names_model(params@) =~= names_model(f.inputs@));
        ctx.insert(f.name.clone(), Expr::LLMFunction(f.name.clone(), params, ()));
        assert(p3.take(i + 1).drop_last() =~= p3.take(i as int));
        i = i + 1;
    }
    assert(p3.take(n3 as int) =~= p3);
    ctx
}

} // verus!
