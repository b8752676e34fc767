use minilang::interpreter::Interpreter;
use minilang::parser::parse_source;

/// Parses and runs `src`; gives the printed lines and the error text, if any.
fn run(src: &str) -> (Vec<String>, Option<String>) {
    let prog = match parse_source(src) {
        Ok(p) => p,
        Err(e) => return (Vec::new(), Some(e.to_message())),
    };
    let mut it = Interpreter::new();
    let r = it.run(prog);
    (it.output().clone(), r.err().map(|e| e.to_message()))
}

fn lines(src: &str) -> Vec<String> {
    let (out, err) = run(src);
    assert_eq!(err, None, "unexpected error for {:?}", src);
    out
}

fn failure(src: &str) -> String {
    let (_, err) = run(src);
    err.expect("an error")
}

#[test]
fn variables_and_assignment() {
    assert_eq!(lines("let x = 10;\nx = x + 5;\nprint x; // 15\n"), vec!["15"]);
}

#[test]
fn strings_print_with_quotes() {
    assert_eq!(lines("print \"hello\";"), vec!["\"hello\""]);
    assert_eq!(lines("print \"line1\\nline2\";"), vec!["\"line1\\nline2\""]);
    assert_eq!(lines("print \"tab\\tq\\\"b\\\\\";"), vec!["\"tab\\tq\\\"b\\\\\""]);
}

#[test]
fn arithmetic() {
    let src = "let a = 7;\nlet b = 3;\nprint a + b;\nprint a * b;\nprint a % b;\nprint -a;\nprint a - b;\nprint a / b;";
    assert_eq!(lines(src), vec!["10", "21", "1", "-7", "4", "2"]);
}

#[test]
fn division_rounds_toward_zero() {
    assert_eq!(lines("print -7 / 2; print -7 % 2; print 7 / -2; print 7 % -2;"), vec!["-3", "-1", "-3", "1"]);
}

#[test]
fn division_by_zero_is_an_error() {
    assert_eq!(failure("print 1 / 0;"), "Runtime error: Division by zero");
    assert_eq!(failure("print 1 % 0;"), "Runtime error: Modulo by zero");
}

#[test]
fn output_before_an_error_stays() {
    let (out, err) = run("print 1; print 2 / 0; print 3;");
    assert_eq!(out, vec!["1"]);
    assert_eq!(err, Some("Runtime error: Division by zero".to_string()));
}

#[test]
fn arithmetic_type_errors() {
    assert_eq!(failure("print 1 + true;"), "Runtime error: Only Int + Int is supported");
    assert_eq!(failure("print \"a\" - 1;"), "Runtime error: Only Int - Int is supported");
    assert_eq!(failure("print [1] * 2;"), "Runtime error: Only Int * Int is supported");
    assert_eq!(failure("print 1 / \"x\";"), "Runtime error: Only Int / Int is supported");
    assert_eq!(failure("print true % 2;"), "Runtime error: Only Int % Int is supported");
    assert_eq!(failure("print -true;"), "Runtime error: Unary '-' expects Int");
    assert_eq!(failure("print 1 < true;"), "Runtime error: Comparison expects Int values");
}

#[test]
fn comparisons() {
    let src = "let x = 10;\nprint x >= 5;\nprint x == 7;\nprint x != 7;\nprint x < 10;\nprint x <= 10;\nprint x > 9;";
    assert_eq!(lines(src), vec!["true", "false", "true", "false", "true", "true"]);
}

#[test]
fn equality_of_strings_and_bools() {
    assert_eq!(lines("print \"ab\" == \"ab\"; print true == false; print [1] == [1];"), vec!["true", "false", "false"]);
}

#[test]
fn if_else() {
    let src = "let n = 9;\nif n % 2 == 0 {\n    print \"even\";\n} else {\n    print \"odd\";\n}";
    assert_eq!(lines(src), vec!["\"odd\""]);
}

#[test]
fn if_condition_must_be_bool() {
    assert_eq!(failure("if 1 { print 2; }"), "Runtime error: if condition must be Bool (true/false)");
}

#[test]
fn for_over_vector() {
    assert_eq!(lines("for x in [10, 20, 30] {\n    print x;\n}"), vec!["10", "20", "30"]);
}

#[test]
fn for_needs_a_vector() {
    assert_eq!(failure("for x in 3 { print x; }"), "Runtime error: for expects a vector value (moved)");
}

#[test]
fn functions_and_return() {
    assert_eq!(lines("fn add(a, b) {\n    return a + b;\n}\n\nprint add(2, 3); // 5"), vec!["5"]);
}

#[test]
fn function_without_return_gives_unit() {
    assert_eq!(lines("fn f() { let x = 1; }\nprint f();"), vec!["()"]);
}

#[test]
fn functions_may_be_called_before_their_definition() {
    assert_eq!(lines("print twice(4);\nfn twice(n) { return n * 2; }"), vec!["8"]);
}

#[test]
fn recursion_fib() {
    let src = "fn fib(n) {\n    if n <= 1 {\n        return n;\n    } else {\n        return fib(n - 1) + fib(n - 2);\n    }\n}\n\nprint fib(10); // 55";
    assert_eq!(lines(src), vec!["55"]);
}

#[test]
fn call_errors() {
    assert_eq!(failure("print g(1);"), "Runtime error: Unknown function: g");
    assert_eq!(failure("fn f(a) { return a; }\nprint f(1, 2);"), "Runtime error: Function f expects 1 args, got 2");
    assert_eq!(failure("fn f() { return 1; }\nfn f() { return 2; }\nprint 3;"), "Runtime error: Duplicate function: f");
    assert_eq!(failure("return 1;"), "Runtime error: return is only allowed inside functions");
}

#[test]
fn duplicate_function_runs_nothing() {
    let (out, err) = run("print 1;\nfn f() { return 1; }\nfn f() { return 2; }");
    assert!(out.is_empty());
    assert_eq!(err, Some("Runtime error: Duplicate function: f".to_string()));
}

#[test]
fn vector_indexing() {
    assert_eq!(lines("let xs = [5, 6, 7];\nprint xs[0]; // 5\nprint xs[2];"), vec!["5", "7"]);
}

#[test]
fn index_errors() {
    assert_eq!(failure("let xs = [1];\nprint xs[3];"), "Runtime error: Index out of bounds: 3 (len 1)");
    assert_eq!(failure("let xs = [1];\nprint xs[-1];"), "Runtime error: Index must be a non-negative Int");
}

#[test]
fn builtin_len() {
    assert_eq!(lines("print len(\"abc\");     // 3\nprint len([1,2,3,4]);  // 4"), vec!["3", "4"]);
    assert_eq!(failure("print len(1);"), "Runtime error: len() expects string or vector");
    assert_eq!(failure("print len(1, 2);"), "Runtime error: len(x) expects 1 argument");
}

#[test]
fn builtin_push() {
    assert_eq!(lines("let xs = [1, 2];\npush(&mut xs, 3);\nprint xs; // [1, 2, 3]"), vec!["[1, 2, 3]"]);
    assert_eq!(lines("let xs = [1];\npush(&mut xs, 5);\nprint len(&xs);"), vec!["2"]);
}

#[test]
fn builtin_push_errors() {
    assert_eq!(failure("let xs = [1];\npush(&xs, 2);"), "Runtime error: push requires &mut vec");
    assert_eq!(failure("let xs = [1];\npush(xs, 2);"), "Runtime error: push first argument must be &mut vec variable");
    assert_eq!(failure("let n = 1;\npush(&mut n, 2);"), "Runtime error: push target must be a vector");
    assert_eq!(failure("push(1);"), "Runtime error: push(&mut vec, value) expects 2 arguments");
}

#[test]
fn builtin_set() {
    assert_eq!(lines("let xs = [10, 20, 30];\nset(&mut xs[1], 99);\nprint xs; // [10, 99, 30]"), vec!["[10, 99, 30]"]);
}

#[test]
fn builtin_set_errors() {
    assert_eq!(failure("let xs = [1];\nset(&xs[0], 2);"), "Runtime error: set requires a mutable element reference");
    assert_eq!(failure("let xs = [1];\nset(&mut (&xs)[0], 2);"), "Runtime error: Need &mut base to take mutable element reference");
    assert_eq!(failure("let xs = [1];\nset(&mut xs[5], 2);"), "Runtime error: Index out of bounds: 5 (len 1)");
    assert_eq!(failure("let xs = [1, 2];\nset(&mut (&mut xs)[0], 7);"), "Runtime error: Cannot mut-borrow 'xs': it is already borrowed");
    assert_eq!(lines("let xs = [1, 2];\nset((&mut xs)[0], 7);\nprint xs;"), vec!["[7, 2]"]);
    assert_eq!(failure("let xs = [1];\nset(&mut xs, 2);"), "Runtime error: set first argument must be &mut (xs[i])");
    assert_eq!(failure("set(1);"), "Runtime error: set(&mut elem_ref, value) expects 2 arguments");
}

#[test]
fn builtin_range() {
    assert_eq!(lines("for i in range(5) {      // 0,1,2,3,4\n    print i;\n}"), vec!["0", "1", "2", "3", "4"]);
    assert_eq!(lines("for i in range(2, 6) {   // 2,3,4,5\n    print i;\n}"), vec!["2", "3", "4", "5"]);
    assert_eq!(lines("print range(3, 1);"), vec!["[]"]);
    assert_eq!(failure("print range();"), "Runtime error: range(end) or range(start, end) expects 1 or 2 arguments");
    assert_eq!(failure("print range(true);"), "Runtime error: range() expects Int arguments");
}

#[test]
fn primes_up_to_50() {
    let src = "fn is_prime(n) {\n    if n < 2 {\n        return false;\n    }\n\n    for i in range(2, n) {\n        if n % i == 0 {\n            return false;\n        }\n    }\n\n    return true;\n}\n\nfor x in range(2, 51) {\n    if is_prime(x) {\n        print x;\n    }\n}";
    let want: Vec<String> = [2, 3, 5, 7, 11, 13, 17, 19, 23, 29, 31, 37, 41, 43, 47].iter().map(|n| n.to_string()).collect();
    assert_eq!(lines(src), want);
}

#[test]
fn printing_values() {
    assert_eq!(lines("print [1, [true, \"s\"], []];"), vec!["[1, [true, \"s\"], []]"]);
    assert_eq!(lines("let x = 4; let r = &x; print r;"), vec!["4"]);
}

#[test]
fn blocks_scope_their_variables() {
    assert_eq!(failure("if true { let y = 1; }\nprint y;"), "Runtime error: Unknown variable: y");
    assert_eq!(lines("let y = 1;\nif true { let y = 2; print y; }\nprint y;"), vec!["2", "1"]);
}

#[test]
fn moves_and_copies() {
    assert_eq!(failure("let v = [1];\nlet w = v;\nprint v;"), "Runtime error: Use after move: v");
    assert_eq!(lines("let n = 1;\nlet m = n;\nprint n;\nprint m;"), vec!["1", "1"]);
    assert_eq!(failure("let s = \"a\";\nlet t = s;\nprint s;"), "Runtime error: Use after move: s");
}

#[test]
fn borrow_rules() {
    assert_eq!(failure("let x = [1];\nlet r = &x;\nx = [2];"), "Runtime error: Cannot assign 'x': it is borrowed");
    assert_eq!(failure("let x = [1];\nlet r = &x;\nlet m = &mut x;"), "Runtime error: Cannot mut-borrow 'x': it is already borrowed");
    assert_eq!(failure("let x = [1];\nlet m = &mut x;\nlet r = &x;"), "Runtime error: Cannot immut-borrow 'x': it is mut-borrowed");
    assert_eq!(failure("let x = [1];\nlet r = &x;\nlet y = x;"), "Runtime error: Cannot move 'x': it is borrowed");
    assert_eq!(failure("let x = [1];\nlet y = x;\nlet r = &x;"), "Runtime error: Cannot borrow 'x': value was moved");
}

#[test]
fn temporary_borrows_end_with_the_statement() {
    assert_eq!(lines("let xs = [1, 2];\npush(&mut xs, 3);\npush(&mut xs, 4);\nprint len(&xs);\nxs = [0];\nprint xs;"), vec!["4", "[0]"]);
}

#[test]
fn borrows_end_with_the_block() {
    assert_eq!(lines("let x = [1];\nif true { let r = &mut x; }\nx = [2];\nprint x;"), vec!["[2]"]);
}

#[test]
fn unknown_variable() {
    assert_eq!(failure("print z;"), "Runtime error: Unknown variable: z");
    assert_eq!(failure("z = 1;"), "Runtime error: Unknown variable: z");
}

#[test]
fn integer_overflow_is_a_runtime_error() {
    let min = "let m = 0 - 9223372036854775807 - 1;\n";
    assert_eq!(lines(&format!("{}print m;", min)), vec!["-9223372036854775808"]);
    assert_eq!(failure("print 9223372036854775807 + 1;"), "Runtime error: Integer overflow");
    assert_eq!(failure(&format!("{}print m - 1;", min)), "Runtime error: Integer overflow");
    assert_eq!(failure("print 9223372036854775807 * 2;"), "Runtime error: Integer overflow");
    assert_eq!(failure(&format!("{}print m / -1;", min)), "Runtime error: Integer overflow");
    assert_eq!(failure(&format!("{}print m % -1;", min)), "Runtime error: Integer overflow");
    assert_eq!(failure(&format!("{}print -m;", min)), "Runtime error: Integer overflow");
    assert_eq!(lines(&format!("{}print m / 1;\nprint m % 2;", min)), vec!["-9223372036854775808", "0"]);
}
