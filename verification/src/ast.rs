use vstd::prelude::*;
use vstd::string::StringExecFns;

use crate::text::{debug_str, int_decimal, int_to_string, str_debug};

verus! {

/// A whole program: function definitions and top-level statements, in order.
#[derive(Debug)]
pub struct Program {
    pub items: Vec<Item>,
}

#[derive(Debug)]
pub enum Item {
    Stmt(Stmt),
    Fn(FnDef),
}

#[derive(Debug)]
pub struct FnDef {
    pub name: String,
    pub params: Vec<String>,
    pub body: Vec<Stmt>,
}

#[derive(Debug)]
pub enum Stmt {
    Let { name: String, expr: Expr },
    Assign { name: String, expr: Expr },
    Print { expr: Expr },
    If { cond: Expr, then_body: Vec<Stmt>, else_body: Vec<Stmt> },
    For { var: String, iter: Expr, body: Vec<Stmt> },
    Return(Expr),
    ExprStmt { expr: Expr },
}

#[derive(Debug)]
pub enum Expr {
    Int(i64),
    Bool(bool),
    Str(String),
    VecLit(Vec<Expr>),
    Ident(String),
    // Borrowing / indexing: &x, &mut x, &xs[i], &mut xs[i]; xs[i], (&mut xs)[i]
    Borrow { mut_: bool, expr: Box<Expr> },
    Index { base: Box<Expr>, index: Box<Expr> },
    // Arithmetic
    Add { left: Box<Expr>, right: Box<Expr> },
    Sub { left: Box<Expr>, right: Box<Expr> },
    Mul { left: Box<Expr>, right: Box<Expr> },
    Div { left: Box<Expr>, right: Box<Expr> },
    Mod { left: Box<Expr>, right: Box<Expr> },
    Neg { expr: Box<Expr> },
    // Comparisons
    Eq { left: Box<Expr>, right: Box<Expr> },
    Ne { left: Box<Expr>, right: Box<Expr> },
    Lt { left: Box<Expr>, right: Box<Expr> },
    Le { left: Box<Expr>, right: Box<Expr> },
    Gt { left: Box<Expr>, right: Box<Expr> },
    Ge { left: Box<Expr>, right: Box<Expr> },
    // Calls
    Call { callee: String, args: Vec<Expr> },
}

// ---------------------------------------------------------------------------
// The mathematical model of the syntax tree.
// ---------------------------------------------------------------------------

pub enum SpecExpr {
    Int(i64),
    Bool(bool),
    Str(Seq<char>),
    VecLit(Seq<SpecExpr>),
    Ident(Seq<char>),
    Borrow { mut_: bool, expr: Box<SpecExpr> },
    Index { base: Box<SpecExpr>, index: Box<SpecExpr> },
    Add { left: Box<SpecExpr>, right: Box<SpecExpr> },
    Sub { left: Box<SpecExpr>, right: Box<SpecExpr> },
    Mul { left: Box<SpecExpr>, right: Box<SpecExpr> },
    Div { left: Box<SpecExpr>, right: Box<SpecExpr> },
    Mod { left: Box<SpecExpr>, right: Box<SpecExpr> },
    Neg { expr: Box<SpecExpr> },
    Eq { left: Box<SpecExpr>, right: Box<SpecExpr> },
    Ne { left: Box<SpecExpr>, right: Box<SpecExpr> },
    Lt { left: Box<SpecExpr>, right: Box<SpecExpr> },
    Le { left: Box<SpecExpr>, right: Box<SpecExpr> },
    Gt { left: Box<SpecExpr>, right: Box<SpecExpr> },
    Ge { left: Box<SpecExpr>, right: Box<SpecExpr> },
    Call { callee: Seq<char>, args: Seq<SpecExpr> },
}

pub enum SpecStmt {
    Let { name: Seq<char>, expr: SpecExpr },
    Assign { name: Seq<char>, expr: SpecExpr },
    Print { expr: SpecExpr },
    If { cond: SpecExpr, then_body: Seq<SpecStmt>, else_body: Seq<SpecStmt> },
    For { var: Seq<char>, iter: SpecExpr, body: Seq<SpecStmt> },
    Return(SpecExpr),
    ExprStmt { expr: SpecExpr },
}

pub struct SpecFnDef {
    pub name: Seq<char>,
    pub params: Seq<Seq<char>>,
    pub body: Seq<SpecStmt>,
}

pub enum SpecItem {
    Stmt(SpecStmt),
    Fn(SpecFnDef),
}

pub open spec fn bx(e: SpecExpr) -> Box<SpecExpr> {
    Box::new(e)
}

pub open spec fn expr_view(e: Expr) -> SpecExpr
    decreases e,
{
    match e {
        Expr::Int(n) => SpecExpr::Int(n),
        Expr::Bool(b) => SpecExpr::Bool(b),
        Expr::Str(s) => SpecExpr::Str(s@),
        Expr::VecLit(xs) => SpecExpr::VecLit(exprs_view(xs@)),
        Expr::Ident(s) => SpecExpr::Ident(s@),
        Expr::Borrow { mut_, expr } => SpecExpr::Borrow { mut_, expr: bx(expr_view(*expr)) },
        Expr::Index { base, index } => SpecExpr::Index {
            base: bx(expr_view(*base)),
            index: bx(expr_view(*index)),
        },
        Expr::Add { left, right } => SpecExpr::Add {
            left: bx(expr_view(*left)),
            right: bx(expr_view(*right)),
        },
        Expr::Sub { left, right } => SpecExpr::Sub {
            left: bx(expr_view(*left)),
            right: bx(expr_view(*right)),
        },
        Expr::Mul { left, right } => SpecExpr::Mul {
            left: bx(expr_view(*left)),
            right: bx(expr_view(*right)),
        },
        Expr::Div { left, right } => SpecExpr::Div {
            left: bx(expr_view(*left)),
            right: bx(expr_view(*right)),
        },
        Expr::Mod { left, right } => SpecExpr::Mod {
            left: bx(expr_view(*left)),
            right: bx(expr_view(*right)),
        },
        Expr::Neg { expr } => SpecExpr::Neg { expr: bx(expr_view(*expr)) },
        Expr::Eq { left, right } => SpecExpr::Eq {
            left: bx(expr_view(*left)),
            right: bx(expr_view(*right)),
        },
        Expr::Ne { left, right } => SpecExpr::Ne {
            left: bx(expr_view(*left)),
            right: bx(expr_view(*right)),
        },
        Expr::Lt { left, right } => SpecExpr::Lt {
            left: bx(expr_view(*left)),
            right: bx(expr_view(*right)),
        },
        Expr::Le { left, right } => SpecExpr::Le {
            left: bx(expr_view(*left)),
            right: bx(expr_view(*right)),
        },
        Expr::Gt { left, right } => SpecExpr::Gt {
            left: bx(expr_view(*left)),
            right: bx(expr_view(*right)),
        },
        Expr::Ge { left, right } => SpecExpr::Ge {
            left: bx(expr_view(*left)),
            right: bx(expr_view(*right)),
        },
        Expr::Call { callee, args } => SpecExpr::Call { callee: callee@, args: exprs_view(args@) },
    }
}

pub open spec fn exprs_view(s: Seq<Expr>) -> Seq<SpecExpr>
    decreases s,
{
    Seq::new(s.len(), |i: int| if 0 <= i < s.len() { expr_view(s[i]) } else { SpecExpr::Int(0) })
}

impl View for Expr {
    type V = SpecExpr;

    open spec fn view(&self) -> SpecExpr {
        expr_view(*self)
    }
}

pub open spec fn stmt_view(st: Stmt) -> SpecStmt
    decreases st,
{
    match st {
        Stmt::Let { name, expr } => SpecStmt::Let { name: name@, expr: expr@ },
        Stmt::Assign { name, expr } => SpecStmt::Assign { name: name@, expr: expr@ },
        Stmt::Print { expr } => SpecStmt::Print { expr: expr@ },
        Stmt::If { cond, then_body, else_body } => SpecStmt::If {
            cond: cond@,
            then_body: stmts_view(then_body@),
            else_body: stmts_view(else_body@),
        },
        Stmt::For { var, iter, body } => SpecStmt::For {
            var: var@,
            iter: iter@,
            body: stmts_view(body@),
        },
        Stmt::Return(e) => SpecStmt::Return(e@),
        Stmt::ExprStmt { expr } => SpecStmt::ExprStmt { expr: expr@ },
    }
}

pub open spec fn stmts_view(s: Seq<Stmt>) -> Seq<SpecStmt>
    decreases s,
{
    Seq::new(
        s.len(),
        |i: int|
            if 0 <= i < s.len() {
                stmt_view(s[i])
            } else {
                SpecStmt::Return(SpecExpr::Int(0))
            },
    )
}

impl View for Stmt {
    type V = SpecStmt;

    open spec fn view(&self) -> SpecStmt {
        stmt_view(*self)
    }
}

/// The names of a list of strings.
pub open spec fn strings_view(s: Seq<String>) -> Seq<Seq<char>> {
    Seq::new(s.len(), |i: int| s[i]@)
}

impl View for FnDef {
    type V = SpecFnDef;

    open spec fn view(&self) -> SpecFnDef {
        SpecFnDef {
            name: self.name@,
            params: strings_view(self.params@),
            body: stmts_view(self.body@),
        }
    }
}

impl View for Item {
    type V = SpecItem;

    open spec fn view(&self) -> SpecItem {
        match self {
            Item::Stmt(s) => SpecItem::Stmt(s@),
            Item::Fn(f) => SpecItem::Fn(f@),
        }
    }
}

pub open spec fn items_view(s: Seq<Item>) -> Seq<SpecItem> {
    Seq::new(s.len(), |i: int| s[i]@)
}

impl View for Program {
    type V = Seq<SpecItem>;

    open spec fn view(&self) -> Seq<SpecItem> {
        items_view(self.items@)
    }
}

pub proof fn lemma_exprs_push(s: Seq<Expr>, x: Expr)
    ensures
        exprs_view(s.push(x)) == exprs_view(s).push(x@),
        exprs_view(Seq::<Expr>::empty()) == Seq::<SpecExpr>::empty(),
{
    assert(exprs_view(s.push(x)) =~= exprs_view(s).push(x@));
    assert(exprs_view(Seq::<Expr>::empty()) =~= Seq::<SpecExpr>::empty());
}

pub proof fn lemma_stmts_push(s: Seq<Stmt>, x: Stmt)
    ensures
        stmts_view(s.push(x)) == stmts_view(s).push(x@),
        stmts_view(Seq::<Stmt>::empty()) == Seq::<SpecStmt>::empty(),
{
    assert(stmts_view(s.push(x)) =~= stmts_view(s).push(x@));
    assert(stmts_view(Seq::<Stmt>::empty()) =~= Seq::<SpecStmt>::empty());
}

pub proof fn lemma_strings_push(s: Seq<String>, x: String)
    ensures
        strings_view(s.push(x)) == strings_view(s).push(x@),
        strings_view(Seq::<String>::empty()) == Seq::<Seq<char>>::empty(),
{
    assert(strings_view(s.push(x)) =~= strings_view(s).push(x@));
    assert(strings_view(Seq::<String>::empty()) =~= Seq::<Seq<char>>::empty());
}

pub proof fn lemma_items_push(s: Seq<Item>, x: Item)
    ensures
        items_view(s.push(x)) == items_view(s).push(x@),
        items_view(Seq::<Item>::empty()) == Seq::<SpecItem>::empty(),
{
    assert(items_view(s.push(x)) =~= items_view(s).push(x@));
    assert(items_view(Seq::<Item>::empty()) =~= Seq::<SpecItem>::empty());
}

// ---------------------------------------------------------------------------
// Sizes of syntax trees, which bound the depth of their evaluation.
// ---------------------------------------------------------------------------

pub open spec fn esize(e: SpecExpr) -> nat
    decreases e,
{
    match e {
        SpecExpr::VecLit(items) => 10 + esizes(items),
        SpecExpr::Borrow { expr, .. } => 10 + esize(*expr),
        SpecExpr::Neg { expr } => 10 + esize(*expr),
        SpecExpr::Index { base, index } => 10 + esize(*base) + esize(*index),
        SpecExpr::Add { left, right } => 10 + esize(*left) + esize(*right),
        SpecExpr::Sub { left, right } => 10 + esize(*left) + esize(*right),
        SpecExpr::Mul { left, right } => 10 + esize(*left) + esize(*right),
        SpecExpr::Div { left, right } => 10 + esize(*left) + esize(*right),
        SpecExpr::Mod { left, right } => 10 + esize(*left) + esize(*right),
        SpecExpr::Eq { left, right } => 10 + esize(*left) + esize(*right),
        SpecExpr::Ne { left, right } => 10 + esize(*left) + esize(*right),
        SpecExpr::Lt { left, right } => 10 + esize(*left) + esize(*right),
        SpecExpr::Le { left, right } => 10 + esize(*left) + esize(*right),
        SpecExpr::Gt { left, right } => 10 + esize(*left) + esize(*right),
        SpecExpr::Ge { left, right } => 10 + esize(*left) + esize(*right),
        SpecExpr::Call { args, .. } => 10 + esizes(args),
        _ => 1,
    }
}

pub open spec fn esizes(s: Seq<SpecExpr>) -> nat
    decreases s,
{
    if s.len() == 0 {
        0
    } else {
        proof {
            assert(decreases_to!(s => s.subrange(0, s.len() - 1)));
        }
        esizes(s.subrange(0, s.len() - 1)) + esize(s[s.len() - 1])
    }
}

pub proof fn lemma_esizes(s: Seq<SpecExpr>, i: int)
    requires
        0 <= i < s.len(),
    ensures
        esize(s[i]) <= esizes(s),
    decreases s.len(),
{
    if i < s.len() - 1 {
        lemma_esizes(s.subrange(0, s.len() - 1), i);
    }
}

pub open spec fn ssize(st: SpecStmt) -> nat
    decreases st,
{
    match st {
        SpecStmt::Let { expr, .. } => 10 + esize(expr),
        SpecStmt::Assign { expr, .. } => 10 + esize(expr),
        SpecStmt::Print { expr } => 10 + esize(expr),
        SpecStmt::If { cond, then_body, else_body } => 10 + esize(cond) + ssizes(then_body) + ssizes(
            else_body,
        ),
        SpecStmt::For { iter, body, .. } => 10 + esize(iter) + ssizes(body),
        SpecStmt::Return(e) => 10 + esize(e),
        SpecStmt::ExprStmt { expr } => 10 + esize(expr),
    }
}

pub open spec fn ssizes(s: Seq<SpecStmt>) -> nat
    decreases s,
{
    if s.len() == 0 {
        0
    } else {
        proof {
            assert(decreases_to!(s => s.subrange(0, s.len() - 1)));
        }
        ssizes(s.subrange(0, s.len() - 1)) + ssize(s[s.len() - 1])
    }
}

pub proof fn lemma_ssizes(s: Seq<SpecStmt>, i: int)
    requires
        0 <= i < s.len(),
    ensures
        ssize(s[i]) <= ssizes(s),
    decreases s.len(),
{
    if i < s.len() - 1 {
        lemma_ssizes(s.subrange(0, s.len() - 1), i);
    }
}

// ---------------------------------------------------------------------------
// The `{:?}` form of an expression, as error messages show it.
// ---------------------------------------------------------------------------

/// `Name { left: a, right: b }`.
pub open spec fn pair_debug(name: Seq<char>, a: Seq<char>, b: Seq<char>) -> Seq<char> {
    name + " { left: "@ + a + ", right: "@ + b + " }"@
}

/// The `{:?}` form of an expression: variants as written in [`Expr`], fields by
/// name, strings quoted and escaped.
pub open spec fn expr_debug(e: SpecExpr) -> Seq<char>
    decreases esize(e), 0int,
{
    match e {
        SpecExpr::Int(n) => "Int("@ + int_decimal(n as int) + ")"@,
        SpecExpr::Bool(b) => "Bool("@ + (if b { "true"@ } else { "false"@ }) + ")"@,
        SpecExpr::Str(s) => "Str("@ + debug_str(s) + ")"@,
        SpecExpr::VecLit(items) => "VecLit(["@ + exprs_debug(items, 0) + "])"@,
        SpecExpr::Ident(s) => "Ident("@ + debug_str(s) + ")"@,
        SpecExpr::Borrow { mut_, expr } => "Borrow { mut_: "@ + (if mut_ { "true"@ } else { "false"@ })
            + ", expr: "@ + expr_debug(*expr) + " }"@,
        SpecExpr::Index { base, index } => "Index { base: "@ + expr_debug(*base) + ", index: "@
            + expr_debug(*index) + " }"@,
        SpecExpr::Add { left, right } => pair_debug("Add"@, expr_debug(*left), expr_debug(*right)),
        SpecExpr::Sub { left, right } => pair_debug("Sub"@, expr_debug(*left), expr_debug(*right)),
        SpecExpr::Mul { left, right } => pair_debug("Mul"@, expr_debug(*left), expr_debug(*right)),
        SpecExpr::Div { left, right } => pair_debug("Div"@, expr_debug(*left), expr_debug(*right)),
        SpecExpr::Mod { left, right } => pair_debug("Mod"@, expr_debug(*left), expr_debug(*right)),
        SpecExpr::Neg { expr } => "Neg { expr: "@ + expr_debug(*expr) + " }"@,
        SpecExpr::Eq { left, right } => pair_debug("Eq"@, expr_debug(*left), expr_debug(*right)),
        SpecExpr::Ne { left, right } => pair_debug("Ne"@, expr_debug(*left), expr_debug(*right)),
        SpecExpr::Lt { left, right } => pair_debug("Lt"@, expr_debug(*left), expr_debug(*right)),
        SpecExpr::Le { left, right } => pair_debug("Le"@, expr_debug(*left), expr_debug(*right)),
        SpecExpr::Gt { left, right } => pair_debug("Gt"@, expr_debug(*left), expr_debug(*right)),
        SpecExpr::Ge { left, right } => pair_debug("Ge"@, expr_debug(*left), expr_debug(*right)),
        SpecExpr::Call { callee, args } => "Call { callee: "@ + debug_str(callee) + ", args: ["@
            + exprs_debug(args, 0) + "] }"@,
    }
}

/// The `{:?}` forms of `es` from `i` on, joined by `, `.
pub open spec fn exprs_debug(es: Seq<SpecExpr>, i: int) -> Seq<char>
    decreases esizes(es) + 1, es.len() - i,
{
    if i < 0 || i >= es.len() {
        Seq::empty()
    } else {
        proof {
            lemma_esizes(es, i);
        }
        let rest = exprs_debug(es, i + 1);
        if i + 1 < es.len() {
            expr_debug(es[i]) + ", "@ + rest
        } else {
            expr_debug(es[i])
        }
    }
}

fn bool_text(b: bool) -> (r: &'static str)
    ensures
        r@ == (if b { "true"@ } else { "false"@ }),
{
    if b { "true" } else { "false" }
}

fn pair_text(name: &str, a: String, b: String) -> (r: String)
    ensures
        r@ == pair_debug(name@, a@, b@),
{
    String::from_str(name).concat(" { left: ").concat(a.as_str()).concat(", right: ").concat(b.as_str()).concat(
        " }",
    )
}

impl Expr {
    /// The `{:?}` form of the expression.
    pub fn debug_string(&self) -> (r: String)
        ensures
            r@ == expr_debug(self@),
        decreases esize(self@), 0int,
    {
        match self {
            Expr::Int(n) => String::from_str("Int(").concat(int_to_string(*n).as_str()).concat(")"),
            Expr::Bool(b) => String::from_str("Bool(").concat(bool_text(*b)).concat(")"),
            Expr::Str(s) => String::from_str("Str(").concat(str_debug(s.as_str()).as_str()).concat(")"),
            Expr::VecLit(items) => String::from_str("VecLit([").concat(exprs_debug_string(items, 0).as_str()).concat(
                "])",
            ),
            Expr::Ident(s) => String::from_str("Ident(").concat(str_debug(s.as_str()).as_str()).concat(")"),
            Expr::Borrow { mut_, expr } => String::from_str("Borrow { mut_: ").concat(bool_text(*mut_)).concat(
                ", expr: ",
            ).concat(expr.debug_string().as_str()).concat(" }"),
            Expr::Index { base, index } => String::from_str("Index { base: ").concat(
                base.debug_string().as_str(),
            ).concat(", index: ").concat(index.debug_string().as_str()).concat(" }"),
            Expr::Add { left, right } => pair_text("Add", left.debug_string(), right.debug_string()),
            Expr::Sub { left, right } => pair_text("Sub", left.debug_string(), right.debug_string()),
            Expr::Mul { left, right } => pair_text("Mul", left.debug_string(), right.debug_string()),
            Expr::Div { left, right } => pair_text("Div", left.debug_string(), right.debug_string()),
            Expr::Mod { left, right } => pair_text("Mod", left.debug_string(), right.debug_string()),
            Expr::Neg { expr } => String::from_str("Neg { expr: ").concat(expr.debug_string().as_str()).concat(" }"),
            Expr::Eq { left, right } => pair_text("Eq", left.debug_string(), right.debug_string()),
            Expr::Ne { left, right } => pair_text("Ne", left.debug_string(), right.debug_string()),
            Expr::Lt { left, right } => pair_text("Lt", left.debug_string(), right.debug_string()),
            Expr::Le { left, right } => pair_text("Le", left.debug_string(), right.debug_string()),
            Expr::Gt { left, right } => pair_text("Gt", left.debug_string(), right.debug_string()),
            Expr::Ge { left, right } => pair_text("Ge", left.debug_string(), right.debug_string()),
            Expr::Call { callee, args } => String::from_str("Call { callee: ").concat(
                str_debug(callee.as_str()).as_str(),
            ).concat(", args: [").concat(exprs_debug_string(args, 0).as_str()).concat("] }"),
        }
    }
}

/// The `{:?}` forms of `es` from `i` on, joined by `, `.
pub fn exprs_debug_string(es: &Vec<Expr>, i: usize) -> (r: String)
    ensures
        r@ == exprs_debug(exprs_view(es@), i as int),
    decreases esizes(exprs_view(es@)) + 1, es@.len() - i,
{
    if i >= es.len() {
        return String::new();
    }
    proof {
        lemma_esizes(exprs_view(es@), i as int);
    }
    assert(exprs_view(es@)[i as int] == es@[i as int]@);
    let first = es[i].debug_string();
    if i + 1 < es.len() {
        let rest = exprs_debug_string(es, i + 1);
        first.concat(", ").concat(rest.as_str())
    } else {
        first
    }
}

} // verus!
