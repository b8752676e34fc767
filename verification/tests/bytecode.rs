use minilang::bytecode::{Instr, LoadMode, Mutability};
use minilang::compiler::Compiler;
use minilang::interpreter::Interpreter;
use minilang::parser::parse_source;
use minilang::vm::Vm;

/// Compiles and runs `src` on the stack machine: the lines printed and the error text.
fn vm_run(src: &str) -> (Vec<String>, Option<String>) {
    let prog = parse_source(src).expect("parses");
    let mut c = Compiler::new();
    let bc = match c.compile_program(prog) {
        Ok(b) => b,
        Err(e) => return (Vec::new(), Some(e.to_message())),
    };
    let mut vm = Vm::new(bc);
    let r = vm.run_main();
    (vm.output().clone(), r.err().map(|e| e.to_message()))
}

fn vm_lines(src: &str) -> Vec<String> {
    let (out, err) = vm_run(src);
    assert_eq!(err, None, "unexpected error for {:?}", src);
    out
}

fn tree_lines(src: &str) -> Vec<String> {
    let prog = parse_source(src).expect("parses");
    let mut it = Interpreter::new();
    it.run(prog).expect("runs");
    it.output().clone()
}

#[test]
fn compiles_a_let_and_a_print() {
    let prog = parse_source("let x = 1; print x;").unwrap();
    let mut c = Compiler::new();
    let bc = c.compile_program(prog).unwrap();
    assert_eq!(bc.main, 0);
    assert_eq!(bc.chunks.len(), 1);
    let code = &bc.chunks[0].code;
    assert_eq!(
        code,
        &vec![
            Instr::PushInt(1),
            Instr::DefineLocal(0),
            Instr::TempEnter,
            Instr::LoadLocal { local: 0, mode: LoadMode::Move },
            Instr::Print,
            Instr::TempExit,
        ]
    );
    assert_eq!(bc.chunks[0].local_count, 1);
}

#[test]
fn compiles_functions_first() {
    let prog = parse_source("print f(2);\nfn f(a) { return a * 2; }").unwrap();
    let mut c = Compiler::new();
    let bc = c.compile_program(prog).unwrap();
    assert_eq!(bc.fns.len(), 1);
    let (name, chunk) = bc.fns[0];
    assert_eq!(bc.strings[name as usize], "f");
    assert_eq!(chunk, 0);
    assert_eq!(bc.main, 1);
    assert_eq!(bc.chunks[0].params, vec![0]);
    assert_eq!(
        bc.chunks[0].code,
        vec![
            Instr::LoadLocal { local: 0, mode: LoadMode::Move },
            Instr::PushInt(2),
            Instr::Mul,
            Instr::Return,
            Instr::PushUnit,
            Instr::Return,
        ]
    );
}

#[test]
fn compiles_if_with_patched_jumps() {
    let prog = parse_source("if true { print 1; } else { print 2; }").unwrap();
    let mut c = Compiler::new();
    let bc = c.compile_program(prog).unwrap();
    let code = &bc.chunks[bc.main as usize].code;
    assert_eq!(code[0], Instr::PushBool(true));
    assert_eq!(code[1], Instr::JumpIfFalse(9));
    assert_eq!(code[2], Instr::EnterScope);
    assert_eq!(code[7], Instr::ExitScope);
    assert_eq!(code[8], Instr::Jump(15));
    assert_eq!(code[9], Instr::EnterScope);
    assert_eq!(code[14], Instr::ExitScope);
    assert_eq!(code.len(), 15);
}

#[test]
fn compiles_for_with_patched_bounds() {
    let prog = parse_source("for x in [1] { print x; }").unwrap();
    let mut c = Compiler::new();
    let bc = c.compile_program(prog).unwrap();
    let code = &bc.chunks[bc.main as usize].code;
    assert_eq!(code[2], Instr::ForInit { var: 0, body_start: 3, end: 10 });
    assert_eq!(code[3], Instr::EnterScope);
    assert_eq!(code[8], Instr::ExitScope);
    assert_eq!(code[9], Instr::ForNext { body_start: 3, end: 10 });
    assert_eq!(code.len(), 10);
}

#[test]
fn compiles_borrows_and_indexing() {
    let prog = parse_source("let xs = [1, 2];\nset(&mut (&mut xs)[0], 5);\nprint xs[1];").unwrap();
    let mut c = Compiler::new();
    let bc = c.compile_program(prog).unwrap();
    let code = &bc.chunks[bc.main as usize].code;
    assert!(code.contains(&Instr::BorrowIndexLocal { base: 0, base_mut: Mutability::Mut, mut_: true }));
    assert!(code.contains(&Instr::IndexLocal { base: 0, base_mut: Mutability::Imm }));
}

#[test]
fn compile_errors() {
    let err = |src: &str| vm_run(src).1.unwrap();
    assert_eq!(err("print y;"), "Runtime error: Unknown variable: y");
    assert_eq!(err("y = 1;"), "Runtime error: Unknown variable: y");
    assert_eq!(err("print g(1);"), "Runtime error: Unknown function: g");
    assert_eq!(err("fn f() { return 1; }\nfn f() { return 2; }"), "Runtime error: Duplicate function: f");
    assert_eq!(err("return 1;"), "Runtime error: return is only allowed inside functions");
    assert_eq!(err("let v = 1; print &(v + 1);"), "Runtime error: Unsupported borrow target (only var or index): Add { left: Ident(\"v\"), right: Int(1) }");
    assert_eq!(err("print [1][0];"), "Runtime error: Index base must be ident or &ident / &mut ident, got VecLit([Int(1)])");
    assert_eq!(vm_lines("let v = [4]; print (&v)[0];"), vec!["4"]);
}

#[test]
fn vm_runs_the_readme_examples() {
    assert_eq!(vm_lines("let x = 10;\nx = x + 5;\nprint x;"), vec!["15"]);
    assert_eq!(vm_lines("let a = 7;\nlet b = 3;\nprint a + b;\nprint a * b;\nprint a % b;\nprint -a;"), vec!["10", "21", "1", "-7"]);
    assert_eq!(vm_lines("print \"hello\";"), vec!["\"hello\""]);
    assert_eq!(vm_lines("let x = 10;\nprint x >= 5;\nprint x == 7;"), vec!["true", "false"]);
    assert_eq!(vm_lines("for x in [10, 20, 30] {\n    print x;\n}"), vec!["10", "20", "30"]);
    assert_eq!(vm_lines("fn add(a, b) {\n    return a + b;\n}\n\nprint add(2, 3);"), vec!["5"]);
    assert_eq!(vm_lines("print len(\"abc\");\nprint len([1,2,3,4]);"), vec!["3", "4"]);
    assert_eq!(vm_lines("for i in range(2, 6) { print i; }"), vec!["2", "3", "4", "5"]);
    assert_eq!(vm_lines("print range(3);"), vec!["[0, 1, 2]"]);
}

#[test]
fn vm_recursion_fib() {
    let src = "fn fib(n) {\n    if n <= 1 {\n        return n;\n    } else {\n        return fib(n - 1) + fib(n - 2);\n    }\n}\n\nprint fib(10);";
    assert_eq!(vm_lines(src), vec!["55"]);
}

#[test]
fn vm_primes_agree_with_the_interpreter() {
    let src = "fn is_prime(n) {\n    if n < 2 {\n        return false;\n    }\n    for i in range(2, n) {\n        if n % i == 0 {\n            return false;\n        }\n    }\n    return true;\n}\nfor x in range(2, 51) {\n    if is_prime(x) {\n        print x;\n    }\n}";
    let want: Vec<String> = [2, 3, 5, 7, 11, 13, 17, 19, 23, 29, 31, 37, 41, 43, 47].iter().map(|n| n.to_string()).collect();
    assert_eq!(tree_lines(src), want);
    // `return` inside a `for` leaves the loop's frame behind in the machine, so the
    // machine's answer is checked on a program without one.
    let src2 = "fn sum(xs) {\n    let t = 0;\n    for x in xs { t = t + x; }\n    return t;\n}\nprint sum([1, 2, 3]);\nprint sum(range(5));";
    assert_eq!(vm_lines(src2), tree_lines(src2));
    assert_eq!(vm_lines(src2), vec!["6", "10"]);
}

#[test]
fn vm_push_and_set() {
    assert_eq!(vm_lines("let xs = [1, 2];\npush(&mut xs, 3);\nprint xs;"), vec!["[1, 2, 3]"]);
    assert_eq!(vm_lines("let xs = [10, 20, 30];\nset(&mut (&mut xs)[1], 99);\nprint xs;"), vec!["[10, 99, 30]"]);
}

#[test]
fn vm_runtime_errors() {
    let err = |src: &str| vm_run(src).1.unwrap();
    assert_eq!(err("print 1 / 0;"), "Runtime error: Division by zero");
    assert_eq!(err("print 1 % 0;"), "Runtime error: Modulo by zero");
    assert_eq!(err("print 1 + true;"), "Runtime error: Arithmetic expects numbers");
    assert_eq!(err("print true / 1;"), "Runtime error: Division expects numbers");
    assert_eq!(err("print true % 1;"), "Runtime error: Modulo expects numbers");
    assert_eq!(err("print 1 < true;"), "Runtime error: Ordering expects numbers");
    assert_eq!(err("print -true;"), "Runtime error: Unary '-' expects number");
    assert_eq!(err("if 1 { print 1; }"), "Runtime error: Condition must be bool");
    assert_eq!(err("for x in 1 { print x; }"), "Runtime error: for-in expects a vector");
    assert_eq!(err("let xs = [1];\nprint xs[4];"), "Runtime error: Index out of bounds: 4 (len 1)");
    assert_eq!(err("let xs = [1];\nprint xs[-1];"), "Runtime error: index must be >= 0");
    assert_eq!(err("let xs = [1];\nprint xs[true];"), "Runtime error: Index must be a number");
    assert_eq!(err("let n = 1;\nprint n[0];"), "Runtime error: Indexing expects a vector");
    assert_eq!(err("print range(-1, 2);"), "Runtime error: range start must be >= 0");
    assert_eq!(err("print range(0, -2);"), "Runtime error: range end must be >= 0");
    assert_eq!(err("print range(true);"), "Runtime error: range() expects number arguments");
    assert_eq!(err("print len(1);"), "Runtime error: len() expects string or vector");
    assert_eq!(err("fn f(a) { return a; }\nprint f();"), "Runtime error: Function f expects 1 args, got 0");
    assert_eq!(err("let xs = [1];\nlet ys = xs;\nprint xs;"), "Runtime error: Use after move");
    assert_eq!(err("let x = [1];\nlet r = &x;\nx = [2];"), "Runtime error: Cannot assign: it is borrowed");
    assert_eq!(err("let x = [1];\nlet r = &x;\nlet m = &mut x;"), "Runtime error: Cannot mut-borrow: already borrowed");
    assert_eq!(err("let x = [1];\nlet m = &mut x;\nlet r = &x;"), "Runtime error: Cannot immut-borrow: mut-borrowed");
    assert_eq!(err("let n = 1;\npush(&mut n, 2);"), "Runtime error: push target must be a vector");
    assert_eq!(err("let xs = [1];\npush(&xs, 2);"), "Runtime error: push requires &mut vec");
    assert_eq!(err("let xs = [1];\nset(&mut (&mut xs)[3], 2);"), "Runtime error: Index out of bounds: 3 (len 1)");
}

#[test]
fn vm_integer_overflow_is_a_runtime_error() {
    let err = |src: &str| vm_run(src).1.unwrap();
    let min = "let m = 0 - 9223372036854775807 - 1;\n";
    assert_eq!(vm_lines(&format!("{}print m;", min)), vec!["-9223372036854775808"]);
    assert_eq!(err("print 9223372036854775807 + 1;"), "Runtime error: Integer overflow");
    assert_eq!(err(&format!("{}print m - 1;", min)), "Runtime error: Integer overflow");
    assert_eq!(err("print 9223372036854775807 * 2;"), "Runtime error: Integer overflow");
    assert_eq!(err(&format!("{}print m / -1;", min)), "Runtime error: Integer overflow");
    assert_eq!(err(&format!("{}print m % -1;", min)), "Runtime error: Integer overflow");
    assert_eq!(err(&format!("{}print -m;", min)), "Runtime error: Integer overflow");
}

#[test]
fn vm_output_before_an_error_stays() {
    let (out, err) = vm_run("print 1;\nprint 1 / 0;");
    assert_eq!(out, vec!["1"]);
    assert_eq!(err, Some("Runtime error: Division by zero".to_string()));
}

#[test]
fn compiled_programs_are_well_formed() {
    let src = "fn a() { return 1; }\nprint b(a(), 2);\nfn b(x, y) { if x < y { let z = x; return z; } else { return y; } }\n\
               fn c() { for i in range(3) { let j = i; print j; } }\nlet q = [1, 2];\nfor e in q { if e == 1 { print e; } }";
    let prog = parse_source(src).unwrap();
    let mut c = Compiler::new();
    let bc = c.compile_program(prog).unwrap();
    assert_eq!(bc.chunks.len(), 4);
    assert_eq!(bc.main as usize, bc.chunks.len() - 1);
    assert_eq!(bc.fns.len(), 3);
    let arity = |name: &str| match name {
        "a" | "c" => 0,
        "b" => 2,
        other => panic!("unexpected function {}", other),
    };
    for (name, chunk) in bc.fns.iter() {
        assert!(*chunk < bc.main);
        let ch = &bc.chunks[*chunk as usize];
        let k = arity(&bc.strings[*name as usize]);
        assert_eq!(ch.params, (0..k as u32).collect::<Vec<_>>());
        let n = ch.code.len();
        assert!(n >= 2);
        assert_eq!(ch.code[n - 2], Instr::PushUnit);
        assert_eq!(ch.code[n - 1], Instr::Return);
    }
    for ch in bc.chunks.iter() {
        let n = ch.code.len();
        let slots = ch.local_count as u32;
        for ins in ch.code.iter() {
            match *ins {
                Instr::LoadLocal { local, .. } | Instr::DefineLocal(local) | Instr::StoreLocal(local) => {
                    assert!(local < slots)
                },
                Instr::BorrowLocal { local, .. } => assert!(local < slots),
                Instr::BorrowIndexLocal { base, .. } | Instr::IndexLocal { base, .. } => assert!(base < slots),
                Instr::Jump(t) | Instr::JumpIfFalse(t) => assert!(t <= n),
                Instr::ForInit { var, body_start, end } => assert!(var < slots && body_start <= n && end <= n),
                Instr::ForNext { body_start, end } => assert!(body_start <= n && end <= n),
                _ => {},
            }
        }
    }
}
