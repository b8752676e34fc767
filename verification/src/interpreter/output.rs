use vstd::prelude::*;

use crate::ast::{esize, esizes, lemma_esizes, lemma_ssizes, ssize, ssizes, SpecExpr, SpecFnDef, SpecItem, SpecStmt};
use crate::interpreter::env::{define_all, s_define, s_pop_scope, s_push_scope, s_push_temp};
use crate::interpreter::{
    base_as_var_or_ref, builtin_len, builtin_push, builtin_range, builtin_set, call, call_user_fn, eval,
    eval_binary, eval_borrow, eval_index, eval_list, eval_two, exec_block, exec_seq, exec_stmt, fn_find, for_iter,
    lvalue_target, mutability, print_step, register_fns, run_call, run_program, run_top, top_stmts, with_env,
    Mutability, SControl, SRes, SState, SValue,
};

verus! {

/// `b` begins with the lines of `a`.
pub open spec fn kept(b: Seq<Seq<char>>, a: Seq<Seq<char>>) -> bool {
    a.len() <= b.len() && forall|i: int| 0 <= i < a.len() ==> #[trigger] b[i] == a[i]
}

/// The lines printed when a step ends, whether it succeeded or failed.
pub open spec fn out_after<T>(r: SRes<T>) -> Seq<Seq<char>> {
    match r {
        Ok((_, s)) => s.out,
        Err((_, s)) => s.out,
    }
}

/// The step `r`, taken from `st`, kept every line printed before it.
pub open spec fn grows<T>(st: SState, r: SRes<T>) -> bool {
    kept(out_after(r), st.out)
}

proof fn lemma_eval(f: nat, fns: Seq<SpecFnDef>, st: SState, e: SpecExpr)
    ensures
        grows(st, eval(f, fns, st, e)),
    decreases f, esize(e), 5int,
{
    match e {
        SpecExpr::Int(_) | SpecExpr::Bool(_) | SpecExpr::Str(_) | SpecExpr::Ident(_) => {},
        SpecExpr::VecLit(items) => lemma_eval_list(f, fns, st, items, 0, Seq::empty()),
        SpecExpr::Neg { expr } => lemma_eval(f, fns, st, *expr),
        SpecExpr::Call { callee, args } => lemma_call(f, fns, st, callee, args),
        SpecExpr::Index { .. } => lemma_eval_index(f, fns, st, e),
        SpecExpr::Borrow { mut_, expr } => lemma_eval_borrow(f, fns, st, mut_, *expr),
        _ => lemma_eval_binary(f, fns, st, e),
    }
}

proof fn lemma_eval_binary(f: nat, fns: Seq<SpecFnDef>, st: SState, e: SpecExpr)
    ensures
        grows(st, eval_binary(f, fns, st, e)),
    decreases f, esize(e), 4int,
{
    match e {
        SpecExpr::Add { left, right }
        | SpecExpr::Sub { left, right }
        | SpecExpr::Mul { left, right }
        | SpecExpr::Div { left, right }
        | SpecExpr::Mod { left, right }
        | SpecExpr::Eq { left, right }
        | SpecExpr::Ne { left, right }
        | SpecExpr::Lt { left, right }
        | SpecExpr::Le { left, right }
        | SpecExpr::Gt { left, right }
        | SpecExpr::Ge { left, right } => {
            lemma_eval(f, fns, st, *left);
            if let Ok((_, st1)) = eval(f, fns, st, *left) {
                lemma_eval(f, fns, st1, *right);
            }
        },
        _ => {},
    }
}

proof fn lemma_eval_list(
    f: nat,
    fns: Seq<SpecFnDef>,
    st: SState,
    items: Seq<SpecExpr>,
    i: int,
    acc: Seq<SValue>,
)
    ensures
        grows(st, eval_list(f, fns, st, items, i, acc)),
    decreases f, esizes(items) + 1, items.len() - i,
{
    if 0 <= i < items.len() {
        lemma_esizes(items, i);
        lemma_eval(f, fns, st, items[i]);
        if let Ok((v, st2)) = eval(f, fns, st, items[i]) {
            lemma_eval_list(f, fns, st2, items, i + 1, acc.push(v));
        }
    }
}

proof fn lemma_eval_borrow(f: nat, fns: Seq<SpecFnDef>, st: SState, mut_: bool, inner: SpecExpr)
    ensures
        grows(st, eval_borrow(f, fns, st, mut_, inner)),
    decreases f, esize(inner), 3int,
{
    lemma_lvalue_target(f, fns, st, inner, mutability(mut_));
}

proof fn lemma_lvalue_target(f: nat, fns: Seq<SpecFnDef>, st: SState, e: SpecExpr, want: Mutability)
    ensures
        grows(st, lvalue_target(f, fns, st, e, want)),
    decreases f, esize(e), 2int,
{
    if let SpecExpr::Index { base, index } = e {
        lemma_base(f, fns, st, *base);
        if let Ok((_, st2)) = base_as_var_or_ref(f, fns, st, *base) {
            lemma_eval(f, fns, st2, *index);
        }
    }
}

proof fn lemma_base(f: nat, fns: Seq<SpecFnDef>, st: SState, base: SpecExpr)
    ensures
        grows(st, base_as_var_or_ref(f, fns, st, base)),
    decreases f, esize(base), 4int,
{
    if let SpecExpr::Borrow { mut_, expr } = base {
        lemma_eval_borrow(f, fns, st, mut_, *expr);
    }
}

proof fn lemma_eval_index(f: nat, fns: Seq<SpecFnDef>, st: SState, e: SpecExpr)
    ensures
        grows(st, eval_index(f, fns, st, e)),
    decreases f, esize(e), 4int,
{
    if let SpecExpr::Index { base, index } = e {
        lemma_base(f, fns, st, *base);
        if let Ok((_, st2)) = base_as_var_or_ref(f, fns, st, *base) {
            lemma_eval(f, fns, st2, *index);
        }
    }
}

proof fn lemma_call(f: nat, fns: Seq<SpecFnDef>, st: SState, callee: Seq<char>, args: Seq<SpecExpr>)
    ensures
        grows(st, call(f, fns, st, callee, args)),
    decreases f, esizes(args) + 4, 0int,
{
    if callee == "len"@ {
        lemma_builtin_len(f, fns, st, args);
    } else if callee == "push"@ {
        lemma_builtin_push(f, fns, st, args);
    } else if callee == "set"@ {
        lemma_builtin_set(f, fns, st, args);
    } else if callee == "range"@ {
        lemma_builtin_range(f, fns, st, args);
    } else {
        lemma_call_user_fn(f, fns, st, callee, args);
    }
}

proof fn lemma_builtin_len(f: nat, fns: Seq<SpecFnDef>, st: SState, args: Seq<SpecExpr>)
    ensures
        grows(st, builtin_len(f, fns, st, args)),
    decreases f, esizes(args) + 3, 0int,
{
    if args.len() == 1 {
        lemma_esizes(args, 0);
        lemma_eval(f, fns, st, args[0]);
    }
}

proof fn lemma_eval_two(f: nat, fns: Seq<SpecFnDef>, st: SState, args: Seq<SpecExpr>)
    ensures
        grows(st, eval_two(f, fns, st, args)),
    decreases f, esizes(args) + 2, 0int,
{
    if args.len() == 2 {
        lemma_esizes(args, 0);
        lemma_esizes(args, 1);
        lemma_eval(f, fns, st, args[0]);
        if let Ok((_, st1)) = eval(f, fns, st, args[0]) {
            lemma_eval(f, fns, st1, args[1]);
        }
    }
}

proof fn lemma_builtin_push(f: nat, fns: Seq<SpecFnDef>, st: SState, args: Seq<SpecExpr>)
    ensures
        grows(st, builtin_push(f, fns, st, args)),
    decreases f, esizes(args) + 3, 0int,
{
    if args.len() == 2 {
        lemma_eval_two(f, fns, st, args);
    }
}

proof fn lemma_builtin_set(f: nat, fns: Seq<SpecFnDef>, st: SState, args: Seq<SpecExpr>)
    ensures
        grows(st, builtin_set(f, fns, st, args)),
    decreases f, esizes(args) + 3, 0int,
{
    if args.len() == 2 {
        lemma_eval_two(f, fns, st, args);
    }
}

proof fn lemma_builtin_range(f: nat, fns: Seq<SpecFnDef>, st: SState, args: Seq<SpecExpr>)
    ensures
        grows(st, builtin_range(f, fns, st, args)),
    decreases f, esizes(args) + 3, 0int,
{
    if args.len() == 1 {
        lemma_esizes(args, 0);
        lemma_eval(f, fns, st, args[0]);
    } else if args.len() == 2 {
        lemma_eval_two(f, fns, st, args);
    }
}

proof fn lemma_call_user_fn(f: nat, fns: Seq<SpecFnDef>, st: SState, callee: Seq<char>, args: Seq<SpecExpr>)
    ensures
        grows(st, call_user_fn(f, fns, st, callee, args)),
    decreases f, esizes(args) + 3, 0int,
{
    lemma_eval_list(f, fns, st, args, 0, Seq::empty());
    if let Ok((vals, st2)) = eval_list(f, fns, st, args, 0, Seq::empty()) {
        if let Some(k) = fn_find(fns, callee, 0) {
            lemma_run_call(f, fns, st2, fns[k], vals);
        }
    }
}

proof fn lemma_run_call(
    f: nat,
    fns: Seq<SpecFnDef>,
    st: SState,
    fd: SpecFnDef,
    vals: Seq<SValue>,
)
    ensures
        grows(st, run_call(f, fns, st, fd, vals)),
    decreases f, 0int, 0int,
{
    if f > 0 {
        let e3 = define_all(
            s_push_scope(st.env),
            fd.params,
            vals,
            0,
        );
        lemma_exec_seq((f - 1) as nat, fns, with_env(st, e3), fd.body, 0);
    }
}

proof fn lemma_exec_seq(f: nat, fns: Seq<SpecFnDef>, st: SState, stmts: Seq<SpecStmt>, i: int)
    ensures
        grows(st, exec_seq(f, fns, st, stmts, i)),
    decreases f, ssizes(stmts) + 1, stmts.len() - i,
{
    if 0 <= i < stmts.len() {
        lemma_ssizes(stmts, i);
        lemma_exec_stmt(f, fns, st, stmts[i]);
        if let Ok((SControl::Normal, st2)) = exec_stmt(f, fns, st, stmts[i]) {
            lemma_exec_seq(f, fns, st2, stmts, i + 1);
        }
    }
}

proof fn lemma_exec_block(f: nat, fns: Seq<SpecFnDef>, st: SState, body: Seq<SpecStmt>)
    ensures
        grows(st, exec_block(f, fns, st, body)),
    decreases f, ssizes(body) + 1, body.len() + 1,
{
    lemma_exec_seq(
        f,
        fns,
        with_env(st, s_push_scope(st.env)),
        body,
        0,
    );
}

proof fn lemma_for_iter(
    f: nat,
    fns: Seq<SpecFnDef>,
    st: SState,
    var: Seq<char>,
    body: Seq<SpecStmt>,
    elems: Seq<SValue>,
    k: int,
)
    ensures
        grows(st, for_iter(f, fns, st, var, body, elems, k)),
    decreases f, ssizes(body) + 1, body.len() + 2 + elems.len() - k,
{
    if 0 <= k < elems.len() {
        let st1 = with_env(
            st,
            s_define(s_push_scope(st.env), var, elems[k]),
        );
        lemma_exec_seq(f, fns, st1, body, 0);
        if let Ok((SControl::Normal, st2)) = exec_seq(f, fns, st1, body, 0) {
            if let Ok(e3) = s_pop_scope(st2.env) {
                lemma_for_iter(f, fns, with_env(st2, e3), var, body, elems, k + 1);
            }
        }
    }
}

proof fn lemma_print_step(f: nat, fns: Seq<SpecFnDef>, st: SState, expr: SpecExpr)
    ensures
        grows(st, print_step(f, fns, st, expr)),
    decreases f, esize(expr) + 1, 6int,
{
    lemma_eval(f, fns, st, expr);
}

proof fn lemma_exec_stmt(f: nat, fns: Seq<SpecFnDef>, st: SState, s: SpecStmt)
    ensures
        grows(st, exec_stmt(f, fns, st, s)),
    decreases f, ssize(s), 0int,
{
    match s {
        SpecStmt::Let { expr, .. } | SpecStmt::Assign { expr, .. } | SpecStmt::Return(expr) => {
            lemma_eval(f, fns, st, expr);
        },
        SpecStmt::Print { expr } => {
            let st1 = with_env(st, s_push_temp(st.env));
            lemma_print_step(f, fns, st1, expr);
        },
        SpecStmt::ExprStmt { expr } => {
            let st1 = with_env(st, s_push_temp(st.env));
            lemma_eval(f, fns, st1, expr);
        },
        SpecStmt::If { cond, then_body, else_body } => {
            lemma_eval(f, fns, st, cond);
            if let Ok((_, st2)) = eval(f, fns, st, cond) {
                lemma_exec_block(f, fns, st2, then_body);
                lemma_exec_block(f, fns, st2, else_body);
            }
        },
        SpecStmt::For { var, iter, body } => {
            lemma_eval(f, fns, st, iter);
            if let Ok((SValue::Vec(xs), st2)) = eval(f, fns, st, iter) {
                lemma_for_iter(f, fns, st2, var, body, xs, 0);
            }
        },
    }
}

proof fn lemma_run_top(fns: Seq<SpecFnDef>, st: SState, stmts: Seq<SpecStmt>, i: int)
    ensures
        grows(st, run_top(fns, st, stmts, i)),
    decreases stmts.len() - i,
{
    if 0 <= i < stmts.len() {
        lemma_exec_stmt(u64::MAX as nat, fns, st, stmts[i]);
        if let Ok((SControl::Normal, st2)) = exec_stmt(u64::MAX as nat, fns, st, stmts[i]) {
            lemma_run_top(fns, st2, stmts, i + 1);
        }
    }
}

/// Once printed, a line stays printed: a statement, and a whole program, leave
/// an output that begins with the lines printed before them, whether they
/// succeed or stop at an error.
pub proof fn law_output_only_grows(fns: Seq<SpecFnDef>, st: SState, s: SpecStmt, items: Seq<SpecItem>)
    ensures
        kept(out_after(exec_stmt(u64::MAX as nat, fns, st, s)), st.out),
        kept(out_after(run_program(fns, st, items)), st.out),
{
    lemma_exec_stmt(u64::MAX as nat, fns, st, s);
    let reg = register_fns(fns, items, 0);
    if reg.1 is None {
        lemma_run_top(reg.0, st, top_stmts(items, 0), 0);
    }
}

} // verus!
