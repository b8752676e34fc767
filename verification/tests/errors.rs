use minilang::ast::{Expr, FnDef, Stmt};
use minilang::env::Env as Store;
use minilang::interpreter::env::Env;
use minilang::interpreter::{State, Value};
use minilang::value::Value as StoreValue;

const FUEL: u64 = u64::MAX;

fn fresh() -> State {
    State { env: Env::new(), out: Vec::new() }
}

fn ident(n: &str) -> Expr {
    Expr::Ident(n.to_string())
}

fn ints(xs: &[i64]) -> Expr {
    Expr::VecLit(xs.iter().map(|x| Expr::Int(*x)).collect())
}

fn with_vec(name: &str, xs: &[i64]) -> State {
    let mut st = fresh();
    st.exec_stmt(&Vec::new(), &Stmt::Let { name: name.to_string(), expr: ints(xs) }, FUEL).unwrap();
    st
}

fn env_text(st: &State) -> String {
    format!("{:?}", st.env)
}

fn vec_of(st: &State, name: &str) -> Vec<i64> {
    match st.peek_var(&name.to_string()).unwrap() {
        Value::Vec(xs) => xs
            .iter()
            .map(|v| match v {
                Value::Int(n) => *n,
                other => panic!("not an integer: {:?}", other),
            })
            .collect(),
        other => panic!("not a vector: {:?}", other),
    }
}

fn message<T>(r: Result<T, minilang::error::LangError>) -> String {
    match r {
        Ok(_) => panic!("expected an error"),
        Err(e) => e.to_message(),
    }
}

#[test]
fn index_out_of_bounds_takes_no_borrow() {
    let mut st = with_vec("xs", &[5, 6, 7]);
    st.env.push_temp_frame();
    let before = env_text(&st);
    let e = Expr::Index { base: Box::new(ident("xs")), index: Box::new(Expr::Int(3)) };
    assert_eq!(message(st.eval_index(&Vec::new(), &e, FUEL)), "Runtime error: Index out of bounds: 3 (len 3)");
    assert_eq!(env_text(&st), before);
    let ok = Expr::Index { base: Box::new(ident("xs")), index: Box::new(Expr::Int(0)) };
    let r = st.eval_index(&Vec::new(), &ok, FUEL).unwrap();
    match st.resolve_value_for_read(&r).unwrap() {
        Value::Int(n) => assert_eq!(n, 5),
        other => panic!("{:?}", other),
    }
    assert_ne!(env_text(&st), before);
}

#[test]
fn if_with_a_non_bool_condition_runs_no_branch() {
    let mut st = fresh();
    let s = Stmt::If {
        cond: Expr::Int(1),
        then_body: vec![Stmt::Print { expr: Expr::Int(2) }],
        else_body: vec![Stmt::Print { expr: Expr::Int(3) }],
    };
    let before = env_text(&st);
    assert_eq!(message(st.exec_stmt(&Vec::new(), &s, FUEL)), "Runtime error: if condition must be Bool (true/false)");
    assert!(st.out.is_empty());
    assert_eq!(env_text(&st), before);
}

#[test]
fn refused_set_keeps_the_vector() {
    let mut st = with_vec("xs", &[10, 20, 30]);
    st.env.push_temp_frame();
    let shared = vec![Expr::Index { base: Box::new(ident("xs")), index: Box::new(Expr::Int(1)) }, Expr::Int(99)];
    assert_eq!(
        message(st.builtin_set(&Vec::new(), &shared, FUEL)),
        "Runtime error: set requires a mutable element reference"
    );
    assert_eq!(vec_of(&st, "xs"), vec![10, 20, 30]);

    let mut st = with_vec("xs", &[10, 20, 30]);
    st.env.push_temp_frame();
    let far = vec![
        Expr::Index {
            base: Box::new(Expr::Borrow { mut_: true, expr: Box::new(ident("xs")) }),
            index: Box::new(Expr::Int(5)),
        },
        Expr::Int(1),
    ];
    assert_eq!(message(st.builtin_set(&Vec::new(), &far, FUEL)), "Runtime error: Index out of bounds: 5 (len 3)");
    assert_eq!(vec_of(&st, "xs"), vec![10, 20, 30]);
}

#[test]
fn call_errors_change_nothing() {
    let add = FnDef {
        name: "add".to_string(),
        params: vec!["a".to_string(), "b".to_string()],
        body: vec![Stmt::Return(Expr::Add { left: Box::new(ident("a")), right: Box::new(ident("b")) })],
    };
    let fns = vec![add];
    let mut st = with_vec("xs", &[1]);
    let before = env_text(&st);
    assert_eq!(
        message(st.call_user_fn(&fns, &"add".to_string(), &vec![ident("xs")], FUEL)),
        "Runtime error: Function add expects 2 args, got 1"
    );
    assert_eq!(env_text(&st), before);
    assert_eq!(message(st.call_user_fn(&fns, &"foo".to_string(), &vec![], FUEL)), "Runtime error: Unknown function: foo");
    assert_eq!(env_text(&st), before);
    assert!(st.out.is_empty());
}

#[test]
fn refused_move_and_assignment_change_nothing() {
    let mut st = with_vec("xs", &[1, 2]);
    let borrow = Stmt::Let { name: "r".to_string(), expr: Expr::Borrow { mut_: false, expr: Box::new(ident("xs")) } };
    st.exec_stmt(&Vec::new(), &borrow, FUEL).unwrap();
    let before = env_text(&st);
    assert_eq!(message(st.read_var_move(&"xs".to_string())), "Runtime error: Cannot move 'xs': it is borrowed");
    assert_eq!(env_text(&st), before);
    assert_eq!(
        message(st.env.assign(&"xs".to_string(), Value::Int(0))),
        "Runtime error: Cannot assign 'xs': it is borrowed"
    );
    assert_eq!(env_text(&st), before);
    assert_eq!(vec_of(&st, "xs"), vec![1, 2]);
}

#[test]
fn store_refusals_change_nothing() {
    let mut e = Store::new();
    e.define("xs".to_string(), StoreValue::Vec(vec![StoreValue::Int(10), StoreValue::Int(20)]));
    let before = format!("{:?}", e);
    assert_eq!(message(e.set_vec_elem("xs", 5, StoreValue::Int(0))), "Runtime error: Index out of bounds: 5 (len 2)");
    assert_eq!(format!("{:?}", e), before);
    e.borrow_local("xs", minilang::value::Mutability::Imm).unwrap();
    let before = format!("{:?}", e);
    assert_eq!(message(e.assign("xs", StoreValue::Int(1))), "Runtime error: Cannot assign: it is borrowed");
    assert_eq!(format!("{:?}", e), before);
}
