use minilang::ast::{Expr, Item, Stmt};
use minilang::lexer::Lexer;
use minilang::parser::{parse_source, Parser};
use minilang::token::Token;

fn tokens(src: &str) -> Result<Vec<String>, String> {
    let mut lx = Lexer::new(src);
    let mut out = Vec::new();
    loop {
        match lx.next_token() {
            Ok(Token::Eof) => return Ok(out),
            Ok(t) => out.push(t.debug_string()),
            Err(e) => return Err(e.to_message()),
        }
    }
}

#[test]
fn lexes_operators_and_punctuation() {
    let got = tokens("( ) [ ] { } , ; & + - * / % = == != < <= > >=").unwrap();
    let want = [
        "LParen", "RParen", "LBracket", "RBracket", "LBrace", "RBrace", "Comma", "Semi", "Amp", "Plus",
        "Minus", "Star", "Slash", "Percent", "Eq", "EqEq", "NotEq", "Lt", "Le", "Gt", "Ge",
    ];
    assert_eq!(got, want);
}

#[test]
fn lexes_keywords_identifiers_and_literals() {
    let got = tokens("let print fn for in return mut if else true false x_1 _y 42 \"hi\"").unwrap();
    let want = [
        "Let", "Print", "Fn", "For", "In", "Return", "Mut", "If", "Else", "True", "False",
        "Ident(\"x_1\")", "Ident(\"_y\")", "Int(42)", "Str(\"hi\")",
    ];
    assert_eq!(got, want);
}

#[test]
fn skips_whitespace_and_comments() {
    assert_eq!(tokens("  // a comment\n\t x // tail\r\n").unwrap(), vec!["Ident(\"x\")"]);
    assert_eq!(tokens("").unwrap(), Vec::<String>::new());
    assert_eq!(tokens("// only").unwrap(), Vec::<String>::new());
}

#[test]
fn lexes_string_escapes() {
    let mut lx = Lexer::new("\"a\\nb\\t\\\"\\\\\"");
    match lx.next_token().unwrap() {
        Token::Str(s) => assert_eq!(s, "a\nb\t\"\\"),
        other => panic!("unexpected {:?}", other),
    }
}

#[test]
fn lexer_peek_and_bump() {
    let mut lx = Lexer::new("ab");
    assert_eq!(lx.peek(), Some(b'a'));
    assert_eq!(lx.bump(), Some(b'a'));
    assert_eq!(lx.peek(), Some(b'b'));
    assert_eq!(lx.bump(), Some(b'b'));
    assert_eq!(lx.bump(), None);
    assert_eq!(lx.peek(), None);
    let mut ws = Lexer::new("  // c\n  z");
    ws.skip_ws_and_comments();
    assert_eq!(ws.peek(), Some(b'z'));
}

#[test]
fn skipping_blanks_twice_stops_where_once_does() {
    let mut lx = Lexer::new(" // a\n\t// b\n  x y");
    lx.skip_ws_and_comments();
    assert_eq!(lx.peek(), Some(b'x'));
    lx.skip_ws_and_comments();
    assert_eq!(lx.peek(), Some(b'x'));
    assert_eq!(lx.bump(), Some(b'x'));
}

#[test]
fn lexer_errors() {
    assert_eq!(tokens("!x").unwrap_err(), "Lex error: Unexpected '!': did you mean '!='?");
    assert_eq!(tokens("@").unwrap_err(), "Lex error: Unexpected char: @");
    assert_eq!(tokens("\"abc").unwrap_err(), "Lex error: Unclosed string literal");
    assert_eq!(tokens("\"abc\\").unwrap_err(), "Lex error: Unclosed escape");
    assert_eq!(tokens("\"a\\qb\"").unwrap_err(), "Lex error: Unknown escape: \\q");
    assert_eq!(tokens("99999999999999999999").unwrap_err(), "Lex error: number too large to fit in target type");
    assert_eq!(tokens("9223372036854775807").unwrap(), vec!["Int(9223372036854775807)"]);
}

#[test]
fn parses_statements() {
    let p = parse_source("let x = 1; x = 2; print x; f(); return 3;").unwrap();
    assert_eq!(p.items.len(), 5);
    assert!(matches!(&p.items[0], Item::Stmt(Stmt::Let { name, expr: Expr::Int(1) }) if name == "x"));
    assert!(matches!(&p.items[1], Item::Stmt(Stmt::Assign { name, expr: Expr::Int(2) }) if name == "x"));
    assert!(matches!(&p.items[2], Item::Stmt(Stmt::Print { expr: Expr::Ident(n) }) if n == "x"));
    assert!(matches!(&p.items[3], Item::Stmt(Stmt::ExprStmt { expr: Expr::Call { callee, args } }) if callee == "f" && args.is_empty()));
    assert!(matches!(&p.items[4], Item::Stmt(Stmt::Return(Expr::Int(3)))));
}

#[test]
fn parses_functions() {
    let p = parse_source("fn add(a, b) { return a + b; }").unwrap();
    match &p.items[0] {
        Item::Fn(f) => {
            assert_eq!(f.name, "add");
            assert_eq!(f.params, vec!["a".to_string(), "b".to_string()]);
            assert_eq!(f.body.len(), 1);
        },
        _ => panic!("expected a function"),
    }
}

#[test]
fn precedence_of_operators() {
    let p = parse_source("print 1 + 2 * 3 == 7;").unwrap();
    match &p.items[0] {
        Item::Stmt(Stmt::Print { expr: Expr::Eq { left, right } }) => {
            assert!(matches!(**right, Expr::Int(7)));
            match &**left {
                Expr::Add { left: a, right: m } => {
                    assert!(matches!(**a, Expr::Int(1)));
                    assert!(matches!(**m, Expr::Mul { .. }));
                },
                other => panic!("unexpected {:?}", other),
            }
        },
        other => panic!("unexpected {:?}", other),
    }
}

#[test]
fn parses_borrows_and_indexing() {
    let p = parse_source("set(&mut xs[1], 9);").unwrap();
    match &p.items[0] {
        Item::Stmt(Stmt::ExprStmt { expr: Expr::Call { args, .. } }) => {
            assert!(matches!(&args[0], Expr::Borrow { mut_: true, expr } if matches!(**expr, Expr::Index { .. })));
        },
        other => panic!("unexpected {:?}", other),
    }
}

#[test]
fn parse_errors() {
    assert_eq!(parse_source("let x = 1").unwrap_err().to_message(), "Parse error: Expected Semi, got Eof");
    assert_eq!(parse_source("let 1 = 2;").unwrap_err().to_message(), "Parse error: Expected identifier, got Int(1)");
    assert_eq!(parse_source("print ;").unwrap_err().to_message(), "Parse error: Unexpected token in expr: Semi");
    assert_eq!(parse_source("if true { print 1;").unwrap_err().to_message(), "Parse error: Unclosed block");
    assert_eq!(parse_source("print 3(1);").unwrap_err().to_message(), "Parse error: Call target must be identifier");
    assert!(parse_source("print @;").unwrap_err().to_message().starts_with("Lex error"));
}

#[test]
fn parser_new_reads_first_token() {
    assert!(Parser::new("let").is_ok());
    assert_eq!(Parser::new("!").err().map(|e| e.to_message()), Some("Lex error: Unexpected '!': did you mean '!='?".to_string()));
    let mut p = Parser::new("print 1;").unwrap();
    let prog = p.parse_program().unwrap();
    assert_eq!(prog.items.len(), 1);
}

#[test]
fn statement_after_an_identifier_parses_like_an_expression() {
    let stmt = parse_source("xs[0] * 2 + f(1) < 3 == true;").unwrap();
    let print = parse_source("print xs[0] * 2 + f(1) < 3 == true;").unwrap();
    let e1 = match &stmt.items[0] {
        Item::Stmt(Stmt::ExprStmt { expr }) => expr.debug_string(),
        _ => panic!("expected an expression statement"),
    };
    let e2 = match &print.items[0] {
        Item::Stmt(Stmt::Print { expr }) => expr.debug_string(),
        _ => panic!("expected a print statement"),
    };
    assert_eq!(e1, e2);
    assert!(e1.starts_with("Eq"));
}

#[test]
fn parse_stmt_after_an_identifier_is_parse_expr_then_semi() {
    for src in ["xs[0] * 2 + f(1) < 3 == true;", "f(a, b);", "x;", "y + (1 - 2) * 3 != z;"] {
        let mut p1 = Parser::new(src).unwrap();
        let s = p1.parse_stmt().unwrap();
        let mut p2 = Parser::new(src).unwrap();
        let e = p2.parse_expr().unwrap();
        assert_eq!(p2.current().debug_string(), "Semi");
        match s {
            Stmt::ExprStmt { expr } => assert_eq!(expr.debug_string(), e.debug_string()),
            other => panic!("expected an expression statement, got {:?}", other),
        }
    }
    for src in ["x + ;", "f(1"] {
        let mut p1 = Parser::new(src).unwrap();
        let mut p2 = Parser::new(src).unwrap();
        let e1 = p1.parse_stmt().err().map(|e| e.to_message());
        let e2 = p2.parse_expr().err().map(|e| e.to_message());
        assert!(e1.is_some());
        assert_eq!(e1, e2);
    }
}
