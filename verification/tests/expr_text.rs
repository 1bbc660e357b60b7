use std::sync::Arc;

use baml_expr::context::Context;
use baml_expr::dump::{render_args_tuple, render_lambda};
use baml_expr::eval::EvalEnv;
use baml_expr::expr::Expr;
use baml_expr::value::{BamlValue, BamlValueWithMeta};

type E = Expr<u32, ()>;

fn atom(v: BamlValue, m: u32) -> E {
    Expr::Atom(BamlValueWithMeta { value: v, meta: () }, m)
}

fn var(n: &str, m: u32) -> E {
    Expr::Var(n.to_string(), m)
}

#[test]
fn meta_of_each_variant() {
    let exprs: Vec<E> = vec![
        atom(BamlValue::Null, 1),
        Expr::LLMFunction("f".to_string(), vec!["a".to_string()], 2),
        var("x", 3),
        Expr::Lambda(vec![], Arc::new(var("x", 0)), 4),
        Expr::App(Arc::new(var("f", 0)), Arc::new(var("x", 0)), 5),
        Expr::Let("x".to_string(), Arc::new(var("y", 0)), Arc::new(var("x", 0)), 6),
        Expr::ArgsTuple(vec![], 7),
    ];
    for (i, e) in exprs.into_iter().enumerate() {
        assert_eq!(*e.meta(), i as u32 + 1);
        assert_eq!(e.into_meta(), i as u32 + 1);
    }
}

#[test]
fn as_atom_only_for_atoms() {
    let a = atom(BamlValue::Int(3), 0);
    let got = a.as_atom().unwrap();
    assert!(got.value.equals(&BamlValue::Int(3)));
    assert!(var("x", 0).as_atom().is_none());
    assert!(Expr::<u32, ()>::ArgsTuple(vec![], 0).as_atom().is_none());
}

#[test]
fn value_text_scalars() {
    assert_eq!(BamlValue::Int(42).to_string(), "42");
    assert_eq!(BamlValue::Int(0).to_string(), "0");
    assert_eq!(BamlValue::Int(-7).to_string(), "-7");
    assert_eq!(BamlValue::Int(i64::MIN).to_string(), "-9223372036854775808");
    assert_eq!(BamlValue::Int(i64::MAX).to_string(), "9223372036854775807");
    assert_eq!(BamlValue::Bool(true).to_string(), "true");
    assert_eq!(BamlValue::Bool(false).to_string(), "false");
    assert_eq!(BamlValue::Null.to_string(), "null");
    assert_eq!(BamlValue::String("hi".to_string()).to_string(), "\"hi\"");
    assert_eq!(BamlValue::Enum("Color".to_string(), "Red".to_string()).to_string(), "\"Red\"");
}

#[test]
fn value_text_escapes() {
    assert_eq!(BamlValue::String("a\"b\\c".to_string()).to_string(), "\"a\\\"b\\\\c\"");
    assert_eq!(BamlValue::String("l1\nl2\tx\r".to_string()).to_string(), "\"l1\\nl2\\tx\\r\"");
    assert_eq!(BamlValue::String("\u{8}\u{c}".to_string()).to_string(), "\"\\b\\f\"");
    assert_eq!(BamlValue::String("\u{1}\u{1f}".to_string()).to_string(), "\"\\u0001\\u001f\"");
    assert_eq!(BamlValue::String("é\u{7f}".to_string()).to_string(), "\"é\u{7f}\"");
}

#[test]
fn value_text_containers() {
    let list = BamlValue::List(vec![BamlValue::Int(1), BamlValue::Bool(true), BamlValue::Null]);
    assert_eq!(list.to_string(), "[1,true,null]");
    assert_eq!(BamlValue::List(vec![]).to_string(), "[]");
    let dict = BamlValue::Dict(vec![
        ("k".to_string(), BamlValue::String("v".to_string())),
        ("n".to_string(), BamlValue::List(vec![BamlValue::Int(2)])),
    ]);
    assert_eq!(dict.to_string(), "{\"k\":\"v\",\"n\":[2]}");
    let class = BamlValue::Class("P".to_string(), vec![("x".to_string(), BamlValue::Int(1))]);
    assert_eq!(class.to_string(), "{\"x\":1}");
    assert_eq!(BamlValue::Class("P".to_string(), vec![]).to_string(), "{}");
}

#[test]
fn value_equality_and_clone() {
    let v = BamlValue::Dict(vec![("a".to_string(), BamlValue::List(vec![BamlValue::Int(1)]))]);
    let c = v.clone();
    assert!(v.equals(&c));
    assert!(!v.equals(&BamlValue::Dict(vec![])));
    assert!(!BamlValue::Int(1).equals(&BamlValue::Bool(true)));
    assert!(!BamlValue::Enum("A".to_string(), "x".to_string()).equals(&BamlValue::Enum("B".to_string(), "x".to_string())));
    let wm = BamlValueWithMeta { value: BamlValue::Int(5), meta: 9u8 };
    let wc = wm.clone();
    assert_eq!(wc.meta, 9);
    assert!(wc.value().equals(&BamlValue::Int(5)));
}

#[test]
fn dump_names_and_atoms() {
    assert_eq!(var("x", 0).dump_str(), "x");
    assert_eq!(Expr::<u32, ()>::LLMFunction("Double".to_string(), vec!["n".to_string()], 0).dump_str(), "Double");
    assert_eq!(atom(BamlValue::Int(42), 0).dump_str(), "42");
    assert_eq!(atom(BamlValue::String("s".to_string()), 0).dump_str(), "\"s\"");
}

#[test]
fn dump_lambda_uses_debug_list() {
    let l: E = Expr::Lambda(vec!["x".to_string(), "y\"".to_string()], Arc::new(var("x", 0)), 0);
    assert_eq!(l.dump_str(), "\\[\"x\", \"y\\\"\"] -> x");
    let empty: E = Expr::Lambda(vec![], Arc::new(atom(BamlValue::Int(1), 0)), 0);
    assert_eq!(empty.dump_str(), "\\[] -> 1");
}

#[test]
fn dump_application() {
    let app: E = Expr::App(
        Arc::new(var("f", 0)),
        Arc::new(Expr::ArgsTuple(vec![var("a", 0), atom(BamlValue::Int(1), 0)], 0)),
        0,
    );
    assert_eq!(app.dump_str(), "f(a, 1)");
    let unit: E = Expr::App(Arc::new(var("g", 0)), Arc::new(Expr::ArgsTuple(vec![], 0)), 0);
    assert_eq!(unit.dump_str(), "g()");
    let odd: E = Expr::App(Arc::new(var("f", 0)), Arc::new(var("a", 0)), 0);
    assert_eq!(odd.dump_str(), "f((NON_ARGS_TUPLE a))");
}

#[test]
fn dump_let_and_tuple() {
    let l: E = Expr::Let("x".to_string(), Arc::new(atom(BamlValue::Int(1), 0)), Arc::new(var("x", 0)), 0);
    assert_eq!(l.dump_str(), "Let x = 1 in\nx");
    let t: E = Expr::ArgsTuple(vec![var("a", 0), atom(BamlValue::String("q".to_string()), 0)], 0);
    assert_eq!(t.dump_str(), "ArgsTuple([\"a\", \"\\\"q\\\"\"])");
}

#[test]
fn render_pieces() {
    assert_eq!(render_lambda("[P]", "B"), "\\[P] -> B");
    assert_eq!(render_args_tuple("L"), "ArgsTuple(L)");
}

#[test]
fn same_state_ignores_metadata() {
    let a: E = Expr::App(Arc::new(var("f", 1)), Arc::new(Expr::ArgsTuple(vec![var("x", 2)], 3)), 4);
    let b: E = Expr::App(Arc::new(var("f", 9)), Arc::new(Expr::ArgsTuple(vec![var("x", 8)], 7)), 6);
    assert!(a.temporary_same_state(&b));
    let c: E = Expr::App(Arc::new(var("f", 1)), Arc::new(Expr::ArgsTuple(vec![var("y", 2)], 3)), 4);
    assert!(!a.temporary_same_state(&c));
    let d: E = Expr::App(Arc::new(var("f", 1)), Arc::new(Expr::ArgsTuple(vec![], 3)), 4);
    assert!(!a.temporary_same_state(&d));
    assert!(atom(BamlValue::Int(1), 0).temporary_same_state(&atom(BamlValue::Int(1), 5)));
    assert!(!atom(BamlValue::Int(1), 0).temporary_same_state(&var("x", 0)));
    assert!(a.temporary_same_state(&a.clone()));
}

#[test]
fn context_insert_replaces_in_place() {
    let mut ctx: Context<u32, ()> = Context::new();
    ctx.insert("x".to_string(), atom(BamlValue::Int(1), 0));
    ctx.insert("y".to_string(), atom(BamlValue::Int(2), 0));
    ctx.insert("x".to_string(), atom(BamlValue::Int(3), 0));
    assert_eq!(ctx.len(), 2);
    assert_eq!(ctx.get(&"x".to_string()).unwrap().dump_str(), "3");
    assert_eq!(ctx.get(&"y".to_string()).unwrap().dump_str(), "2");
    assert!(ctx.get(&"z".to_string()).is_none());
    let (k, _) = ctx.entry(0);
    assert_eq!(k, "x");
    let env = EvalEnv { context: ctx.clone() };
    assert_eq!(env.dump_ctx(), "x: 3\ny: 2");
}

#[test]
fn dump_ctx_empty() {
    let env: EvalEnv<u32, ()> = EvalEnv { context: Context::new() };
    assert_eq!(env.dump_ctx(), "");
}

#[test]
fn dump_ignores_metadata() {
    let a: E = Expr::Let("x".to_string(), Arc::new(atom(BamlValue::Int(1), 1)), Arc::new(var("x", 2)), 3);
    let b: E = Expr::Let("x".to_string(), Arc::new(atom(BamlValue::Int(1), 7)), Arc::new(var("x", 8)), 9);
    assert!(a.temporary_same_state(&b));
    assert_eq!(a.dump_str(), b.dump_str());
}
