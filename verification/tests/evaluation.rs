use std::sync::Arc;

use baml_expr::context::Context;
use baml_expr::eval::{eval_to_value, step, step_app, subst, EvalEnv, EvalError, LlmResponses};
use baml_expr::expr::Expr;
use baml_expr::ir::{initial_context, ExprFn, IntermediateRepr, LlmFunction, TopLevelAssignment};
use baml_expr::value::{BamlValue, BamlValueWithMeta};

type E = Expr<u32, ()>;

fn atom(i: i64) -> E {
    Expr::Atom(BamlValueWithMeta { value: BamlValue::Int(i), meta: () }, 0)
}

fn var(n: &str) -> E {
    Expr::Var(n.to_string(), 0)
}

fn names(ns: &[&str]) -> Vec<String> {
    ns.iter().map(|s| s.to_string()).collect()
}

fn env_of(bindings: Vec<(&str, E)>) -> EvalEnv<u32, ()> {
    let mut ctx = Context::new();
    for (k, v) in bindings {
        ctx.insert(k.to_string(), v);
    }
    EvalEnv { context: ctx }
}

fn no_replies() -> LlmResponses {
    LlmResponses { responses: vec![], next: 0 }
}

fn replies(vs: &[i64]) -> LlmResponses {
    LlmResponses { responses: vs.iter().map(|v| BamlValue::Int(*v)).collect(), next: 0 }
}

fn int_of(v: &Option<BamlValueWithMeta<()>>) -> i64 {
    match v {
        Some(BamlValueWithMeta { value: BamlValue::Int(i), .. }) => *i,
        _ => panic!("not an integer"),
    }
}

#[test]
fn subst_replaces_bound_variables() {
    let env = env_of(vec![("x", atom(1))]);
    let app: E = Expr::App(Arc::new(var("f")), Arc::new(Expr::ArgsTuple(vec![var("x"), atom(2)], 0)), 0);
    let env2 = env_of(vec![("x", atom(1)), ("f", var("g"))]);
    assert_eq!(subst(&env2, &app).ok().unwrap().dump_str(), "g(1, 2)");
    match subst(&env, &var("y")) {
        Err(EvalError::VariableNotFound(n)) => assert_eq!(n, "y"),
        _ => panic!("expected an unbound variable"),
    }
    match subst(&env, &app) {
        Err(EvalError::VariableNotFound(n)) => assert_eq!(n, "f"),
        _ => panic!("expected an unbound variable"),
    }
}

#[test]
fn subst_keeps_lambda_and_binds_let() {
    let env = env_of(vec![("x", atom(1))]);
    let lam: E = Expr::Lambda(names(&["a"]), Arc::new(var("x")), 7);
    let s = subst(&env, &lam).ok().unwrap();
    assert_eq!(s.dump_str(), "\\[\"a\"] -> 1");
    assert_eq!(*s.meta(), 7);
    // Captures are ignored: a parameter that the context binds is replaced too.
    let shadow: E = Expr::Lambda(names(&["x"]), Arc::new(var("x")), 0);
    assert_eq!(subst(&env, &shadow).ok().unwrap().dump_str(), "\\[\"x\"] -> 1");
    let l: E = Expr::Let("y".to_string(), Arc::new(var("x")), Arc::new(var("y")), 0);
    assert_eq!(subst(&env, &l).ok().unwrap().dump_str(), "Let y = 1 in\n1");
    let f: E = Expr::LLMFunction("F".to_string(), names(&["a"]), 0);
    assert_eq!(subst(&env, &f).ok().unwrap().dump_str(), "F");
}

#[test]
fn step_on_values_and_errors() {
    let env = env_of(vec![("x", atom(7))]);
    let mut llm = no_replies();
    assert_eq!(step(&env, &atom(3), &mut llm).ok().unwrap().dump_str(), "3");
    let lam: E = Expr::Lambda(names(&["a"]), Arc::new(var("a")), 0);
    assert_eq!(step(&env, &lam, &mut llm).ok().unwrap().dump_str(), "\\[\"a\"] -> a");
    assert_eq!(step(&env, &var("x"), &mut llm).ok().unwrap().dump_str(), "7");
    match step(&env, &var("nope"), &mut llm) {
        Err(EvalError::VariableNotFound(n)) => assert_eq!(n, "nope"),
        _ => panic!("expected an unbound variable"),
    }
    match step(&env, &Expr::LLMFunction("F".to_string(), vec![], 0), &mut llm) {
        Err(EvalError::BareLlmFunction(n)) => assert_eq!(n, "F"),
        _ => panic!("expected a bare LLM function"),
    }
    match step(&env, &Expr::ArgsTuple(vec![], 0), &mut llm) {
        Err(EvalError::BareArgsTuple) => {},
        _ => panic!("expected a bare argument tuple"),
    }
    assert_eq!(llm.next, 0);
}

#[test]
fn step_applies_lambda() {
    let env = env_of(vec![]);
    let mut llm = no_replies();
    let lam: E = Expr::Lambda(names(&["a", "b"]), Arc::new(Expr::ArgsTuple(vec![var("b"), var("a")], 0)), 0);
    let args: E = Expr::ArgsTuple(vec![atom(1), atom(2)], 0);
    let r = step_app(&env, &lam, &args, &0, &mut llm).ok().unwrap();
    assert_eq!(r.dump_str(), "ArgsTuple([\"2\", \"1\"])");
    match step_app(&env, &lam, &Expr::ArgsTuple(vec![atom(1)], 0), &0, &mut llm) {
        Err(EvalError::WrongNumberOfArguments(p, a)) => assert_eq!((p, a), (2, 1)),
        _ => panic!("expected an arity error"),
    }
    // A step substitutes the function first, and substitution replaces the lambda's
    // variables, which are unbound here (captures are ignored).
    let app: E = Expr::App(Arc::new(lam), Arc::new(args), 0);
    match step(&env, &app, &mut llm) {
        Err(EvalError::VariableNotFound(n)) => assert_eq!(n, "b"),
        _ => panic!("expected an unbound variable"),
    }
}

#[test]
fn step_app_not_a_function() {
    let env = env_of(vec![]);
    let mut llm = no_replies();
    match step_app(&env, &atom(1), &Expr::ArgsTuple(vec![], 0), &0, &mut llm) {
        Err(EvalError::NotAFunction(f)) => assert_eq!(f.dump_str(), "1"),
        _ => panic!("expected not a function"),
    }
    let f: E = Expr::LLMFunction("F".to_string(), vec![], 0);
    match step_app(&env, &f, &var("x"), &0, &mut llm) {
        Err(EvalError::NotAFunction(g)) => assert_eq!(g.dump_str(), "F"),
        _ => panic!("expected not a function"),
    }
}

#[test]
fn step_app_lambda_to_non_tuple_fails_on_unbound() {
    // A lambda applied to something other than a tuple is substituted first; here its body
    // mentions an unbound name.
    let env = env_of(vec![]);
    let mut llm = no_replies();
    let lam: E = Expr::Lambda(vec![], Arc::new(var("g")), 0);
    match step_app(&env, &lam, &var("z"), &3, &mut llm) {
        Err(EvalError::VariableNotFound(n)) => assert_eq!(n, "g"),
        _ => panic!("expected an unbound variable"),
    }
}

#[test]
fn step_app_llm_reply_carries_metadata() {
    let env = env_of(vec![]);
    let f: E = Expr::LLMFunction("G".to_string(), names(&["p"]), 0);
    let mut llm = replies(&[5, 6]);
    let r = step_app(&env, &f, &Expr::ArgsTuple(vec![atom(1)], 0), &3, &mut llm).ok().unwrap();
    assert_eq!(r.dump_str(), "5");
    assert_eq!(*r.meta(), 3);
    assert_eq!(llm.next, 1);
    let r = step_app(&env, &f, &Expr::ArgsTuple(vec![atom(1)], 0), &4, &mut llm).ok().unwrap();
    assert_eq!(r.dump_str(), "6");
    assert_eq!(llm.next, 2);
}

#[test]
fn llm_call_pending_then_answered() {
    let env = env_of(vec![]);
    let f: E = Expr::LLMFunction("Double".to_string(), names(&["my_inp", "extra"]), 0);
    let app: E = Expr::App(Arc::new(f), Arc::new(Expr::ArgsTuple(vec![atom(21)], 0)), 0);
    let mut llm = no_replies();
    match eval_to_value(&env, &app, &mut llm) {
        Err(EvalError::LlmCallPending(req)) => {
            assert_eq!(req.function, "Double");
            assert_eq!(req.args.len(), 1);
            assert_eq!(req.args[0].0, "my_inp");
            assert!(req.args[0].1.equals(&BamlValue::Int(21)));
        },
        _ => panic!("expected a pending LLM call"),
    }
    assert_eq!(llm.next, 0);
    let mut llm = replies(&[42]);
    let v = eval_to_value(&env, &app, &mut llm).ok().unwrap();
    assert_eq!(int_of(&v), 42);
    assert_eq!(llm.next, 1);
    // More replies than needed change nothing.
    let mut llm = replies(&[42, 99]);
    let v = eval_to_value(&env, &app, &mut llm).ok().unwrap();
    assert_eq!(int_of(&v), 42);
    assert_eq!(llm.next, 1);
}

#[test]
fn eval_let_binds_value() {
    let env = env_of(vec![]);
    let mut llm = no_replies();
    let l: E = Expr::Let("x".to_string(), Arc::new(atom(1)), Arc::new(var("x")), 5);
    let v = eval_to_value(&env, &l, &mut llm).ok().unwrap();
    assert_eq!(int_of(&v), 1);
    // One step substitutes the body with the name bound to the value.
    let r = step(&env, &l, &mut llm).ok().unwrap();
    assert_eq!(r.dump_str(), "1");
    assert_eq!(*r.meta(), 0);
}

#[test]
fn step_let_is_a_single_substitution() {
    let env = env_of(vec![]);
    let mut llm = no_replies();
    let lam: E = Expr::Lambda(vec![], Arc::new(atom(1)), 0);
    let l: E = Expr::Let("x".to_string(), Arc::new(lam), Arc::new(var("x")), 0);
    assert_eq!(step(&env, &l, &mut llm).ok().unwrap().dump_str(), "\\[] -> 1");
    // The bound value is not substituted before it is bound.
    let l2: E = Expr::Let("x".to_string(), Arc::new(var("y")), Arc::new(var("x")), 0);
    assert_eq!(step(&env, &l2, &mut llm).ok().unwrap().dump_str(), "y");
    match step(&env, &Expr::Let("x".to_string(), Arc::new(atom(1)), Arc::new(var("q")), 0), &mut llm) {
        Err(EvalError::VariableNotFound(n)) => assert_eq!(n, "q"),
        _ => panic!("expected an unbound variable"),
    }
}

#[test]
fn eval_atom_is_immediate() {
    let env = env_of(vec![]);
    let mut llm = no_replies();
    assert_eq!(int_of(&eval_to_value(&env, &atom(8), &mut llm).ok().unwrap()), 8);
}

#[test]
fn eval_no_progress() {
    let env = env_of(vec![("x", var("x"))]);
    let mut llm = no_replies();
    assert!(matches!(eval_to_value(&env, &var("x"), &mut llm), Err(EvalError::NoProgress)));
    let lam: E = Expr::Lambda(vec![], Arc::new(atom(1)), 0);
    assert!(matches!(eval_to_value(&env, &lam, &mut llm), Err(EvalError::NoProgress)));
}

#[test]
fn eval_max_steps() {
    let env = env_of(vec![("c", var("a")), ("a", var("b")), ("b", var("a"))]);
    let mut llm = no_replies();
    assert!(matches!(eval_to_value(&env, &var("c"), &mut llm), Err(EvalError::MaxStepsReached)));
}

#[test]
fn eval_through_variables_and_lambda() {
    let id: E = Expr::Lambda(names(&["x"]), Arc::new(var("x")), 0);
    let env = env_of(vec![("id", id), ("v", atom(4))]);
    let app: E = Expr::App(Arc::new(var("id")), Arc::new(Expr::ArgsTuple(vec![var("v")], 0)), 0);
    let mut llm = no_replies();
    // The argument tuple is not substituted before the call: the body becomes `v`, then 4.
    assert_eq!(int_of(&eval_to_value(&env, &app, &mut llm).ok().unwrap()), 4);
}

#[test]
fn initial_context_later_kinds_win() {
    let ir = IntermediateRepr {
        expr_fns: vec![
            ExprFn { name: "f".to_string(), body: Expr::Var("a".to_string(), ()) },
            ExprFn { name: "g".to_string(), body: Expr::Var("b".to_string(), ()) },
        ],
        toplevel_assignments: vec![
            TopLevelAssignment { name: "f".to_string(), expr: Expr::Var("c".to_string(), ()) },
            TopLevelAssignment { name: "h".to_string(), expr: Expr::Var("d".to_string(), ()) },
        ],
        functions: vec![LlmFunction { name: "g".to_string(), inputs: vec!["x".to_string()] }],
    };
    let ctx = initial_context(&ir);
    let env = EvalEnv { context: ctx };
    assert_eq!(env.dump_ctx(), "f: c\ng: g\nh: d");
    match env.context.get(&"g".to_string()) {
        Some(Expr::LLMFunction(n, ps, ())) => {
            assert_eq!(n, "g");
            assert_eq!(ps, &vec!["x".to_string()]);
        },
        _ => panic!("expected an LLM function"),
    }
}

#[test]
fn llm_call_in_let_body() {
    let env = env_of(vec![]);
    let g: E = Expr::LLMFunction("G".to_string(), names(&["m"]), 0);
    let body: E = Expr::App(Arc::new(g), Arc::new(Expr::ArgsTuple(vec![var("x")], 0)), 0);
    let l: E = Expr::Let("x".to_string(), Arc::new(atom(8)), Arc::new(body), 0);
    let mut llm = no_replies();
    match eval_to_value(&env, &l, &mut llm) {
        Err(EvalError::LlmCallPending(req)) => {
            assert_eq!(req.function, "G");
            assert_eq!(req.args[0].0, "m");
            assert!(req.args[0].1.equals(&BamlValue::Int(8)));
        },
        _ => panic!("expected a pending LLM call"),
    }
    let mut llm = replies(&[3]);
    assert_eq!(int_of(&eval_to_value(&env, &l, &mut llm).ok().unwrap()), 3);
    assert_eq!(llm.next, 1);
}

#[test]
fn llm_reply_gets_default_value_metadata() {
    let env: EvalEnv<u32, u8> = EvalEnv { context: Context::new() };
    let f: Expr<u32, u8> = Expr::LLMFunction("G".to_string(), names(&["p"]), 0);
    let arg: Expr<u32, u8> = Expr::Atom(BamlValueWithMeta { value: BamlValue::Int(1), meta: 9 }, 0);
    let mut llm = replies(&[5]);
    let r = step_app(&env, &f, &Expr::ArgsTuple(vec![arg], 0), &4, &mut llm).ok().unwrap();
    let a = r.as_atom().unwrap();
    assert_eq!(a.meta, 0);
    assert!(a.value.equals(&BamlValue::Int(5)));
    assert_eq!(*r.meta(), 4);
}
