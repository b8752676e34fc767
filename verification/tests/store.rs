use minilang::env::Env;
use minilang::value::{Mutability, RefTarget, Value};

fn msg<T: std::fmt::Debug>(r: Result<T, minilang::error::LangError>) -> String {
    r.err().expect("an error").to_message()
}

fn as_int(v: &Value) -> i64 {
    match v {
        Value::Int(n) => *n,
        other => panic!("not an integer: {:?}", other),
    }
}

#[test]
fn value_helpers() {
    assert!(Value::Int(1).is_copy());
    assert!(Value::Bool(true).is_copy());
    assert!(!Value::Str("a".to_string()).is_copy());
    assert!(!Value::Vec(vec![]).is_copy());
    assert_eq!(Value::Int(7).as_num().unwrap(), 7);
    assert_eq!(msg(Value::Unit.as_num()), "Runtime error: Expected number");
    assert_eq!(Value::Bool(false).truthy().unwrap(), false);
    assert_eq!(msg(Value::Int(1).truthy()), "Runtime error: Condition must be bool");
    assert_eq!(Value::Int(3).to_index_usize("index").unwrap(), 3);
    assert_eq!(msg(Value::Int(-3).to_index_usize("index")), "Runtime error: index must be >= 0");
    assert_eq!(msg(Value::Bool(true).to_index_usize("index")), "Runtime error: Expected number");
}

#[test]
fn define_and_load() {
    let mut e = Env::new();
    e.define("x".to_string(), Value::Int(1));
    assert_eq!(as_int(&e.load_peek("x").unwrap()), 1);
    assert_eq!(as_int(&e.load_move("x").unwrap()), 1);
    assert_eq!(as_int(&e.load_move("x").unwrap()), 1);
    e.define("v".to_string(), Value::Vec(vec![Value::Int(2)]));
    assert!(matches!(e.load_move("v").unwrap(), Value::Vec(_)));
    assert_eq!(msg(e.load_move("v")), "Runtime error: Use after move");
    assert_eq!(msg(e.load_peek("nope")), "Runtime error: Unknown variable: nope");
}

#[test]
fn scopes_shadow_and_end() {
    let mut e = Env::new();
    e.define("x".to_string(), Value::Int(1));
    e.enter_scope();
    e.define("x".to_string(), Value::Int(2));
    assert_eq!(as_int(&e.load_peek("x").unwrap()), 2);
    e.exit_scope().unwrap();
    assert_eq!(as_int(&e.load_peek("x").unwrap()), 1);
    e.exit_scope().unwrap();
    assert_eq!(msg(e.exit_scope()), "Runtime error: Internal: scope_log underflow");
}

#[test]
fn env_borrow_rules() {
    let mut e = Env::new();
    e.define("x".to_string(), Value::Int(5));
    e.enter_scope();
    let r = e.borrow_local("x", Mutability::Imm).unwrap();
    assert!(matches!(r, Value::Ref(RefTarget::Local(ref n), Mutability::Imm) if n == "x"));
    assert!(e.borrow_local("x", Mutability::Imm).is_ok());
    assert_eq!(msg(e.borrow_local("x", Mutability::Mut)), "Runtime error: Cannot mut-borrow: already borrowed");
    assert_eq!(msg(e.assign("x", Value::Int(6))), "Runtime error: Cannot assign: it is borrowed");
    assert_eq!(as_int(&e.resolve_ref_for_read(&r).unwrap()), 5);
    e.exit_scope().unwrap();
    assert!(e.assign("x", Value::Int(6)).is_ok());
    assert!(e.borrow_local("x", Mutability::Mut).is_ok());
    assert_eq!(msg(e.borrow_local("x", Mutability::Imm)), "Runtime error: Cannot immut-borrow: mut-borrowed");
    assert_eq!(msg(e.assign("y", Value::Int(1))), "Runtime error: Unknown variable: y");
}

#[test]
fn temporary_borrows() {
    let mut e = Env::new();
    e.define("x".to_string(), Value::Int(5));
    e.temp_enter();
    assert!(e.borrow_local("x", Mutability::Mut).is_ok());
    e.temp_exit_release().unwrap();
    assert!(e.assign("x", Value::Int(7)).is_ok());
    assert_eq!(msg(e.temp_exit_release()), "Runtime error: Temp underflow");
}

#[test]
fn moved_values_cannot_be_borrowed() {
    let mut e = Env::new();
    e.define("v".to_string(), Value::Vec(vec![]));
    let _ = e.load_move("v").unwrap();
    assert_eq!(msg(e.borrow_local("v", Mutability::Imm)), "Runtime error: Cannot borrow: value was moved");
}

#[test]
fn vector_elements() {
    let mut e = Env::new();
    e.define("xs".to_string(), Value::Vec(vec![Value::Int(10), Value::Int(20)]));
    e.push_vec_elem("xs", Value::Int(30)).unwrap();
    e.set_vec_elem("xs", 0, Value::Int(11)).unwrap();
    match e.load_peek("xs").unwrap() {
        Value::Vec(v) => assert_eq!(v.iter().map(as_int).collect::<Vec<_>>(), vec![11, 20, 30]),
        other => panic!("{:?}", other),
    }
    assert_eq!(msg(e.set_vec_elem("xs", 9, Value::Int(0))), "Runtime error: Index out of bounds: 9 (len 3)");
    e.enter_scope();
    let r = e.borrow_index("xs", Mutability::Imm, 1, Mutability::Imm).unwrap();
    assert_eq!(as_int(&e.resolve_ref_for_read(&r).unwrap()), 20);
    assert_eq!(msg(e.push_vec_elem("xs", Value::Int(1))), "Runtime error: Cannot push: vector is immut-borrowed");
    let far = Value::Ref(RefTarget::VecElem { base: "xs".to_string(), index: 8 }, Mutability::Imm);
    assert_eq!(msg(e.resolve_ref_for_read(&far)), "Runtime error: Index out of bounds: 8");
    // The element reference is logged beside the borrow of its base, so ending the
    // scope gives back one borrow more than it took.
    assert_eq!(msg(e.exit_scope()), "Runtime error: Internal: immut borrow underflow");
    e.define("n".to_string(), Value::Int(1));
    assert_eq!(msg(e.push_vec_elem("n", Value::Int(1))), "Runtime error: push target must be a vector");
    assert_eq!(msg(e.set_vec_elem("n", 0, Value::Int(1))), "Runtime error: set target must be a vector");
    let nr = Value::Ref(RefTarget::VecElem { base: "n".to_string(), index: 0 }, Mutability::Imm);
    assert_eq!(msg(e.resolve_ref_for_read(&nr)), "Runtime error: Index base is not a vector");
}
