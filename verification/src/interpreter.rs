pub mod env;
pub mod output;

use vstd::prelude::*;
use vstd::utf8::encode_utf8;

use crate::ast::{esize, esizes, lemma_esizes, lemma_ssizes, ssize, ssizes, SpecExpr, SpecFnDef, SpecItem, SpecStmt};
use crate::ast::{bx, exprs_view, items_view, lemma_stmts_push, stmts_view, strings_view, Expr, FnDef, Item, Program, Stmt};
use crate::error::{LangError, SpecError};
use crate::interpreter::env::Env;
use crate::text::{cat2, cat3, int_to_string, push_char, str_debug};
use vstd::string::StringExecFns;
use crate::interpreter::env::{
    borrows_exclusive, define_all, env_find, env_ok, lemma_assign_found, lemma_find_in_range, lemma_find_same_names, lemma_define_found, env_put, env_slot, lemma_put_put, ref_var, rt, s_acquire, s_assign, s_define, s_pop_scope,
    s_pop_scope_err_env, s_pop_temp, s_pop_temp_err_env, s_push_scope, s_push_temp, s_replace_last, scope_view, SEnv, SSlot, unknown_var,
};
use crate::text::{debug_str, int_decimal, nat_decimal};

verus! {

/// A value of the tree-walking interpreter.
#[derive(Debug)]
pub enum Value {
    Int(i64),
    Bool(bool),
    Str(String),
    Vec(Vec<Value>),
    Unit,
    Ref(RefTarget, Mutability),
}

/// What a reference points at: a variable, or an element of a vector variable.
#[derive(Debug)]
pub enum RefTarget {
    Var(String),
    VecElem { var: String, index: usize },
}

#[derive(Debug, Clone, Copy, PartialEq, Eq, Structural)]
pub enum Mutability {
    Imm,
    Mut,
}

/// The model of a [`Value`].
pub enum SValue {
    Int(i64),
    Bool(bool),
    Str(Seq<char>),
    Vec(Seq<SValue>),
    Unit,
    Ref(SRef, Mutability),
}

/// The model of a [`RefTarget`].
pub enum SRef {
    Var(Seq<char>),
    VecElem { var: Seq<char>, index: usize },
}

impl View for RefTarget {
    type V = SRef;

    open spec fn view(&self) -> SRef {
        match self {
            RefTarget::Var(v) => SRef::Var(v@),
            RefTarget::VecElem { var, index } => SRef::VecElem { var: var@, index: *index },
        }
    }
}

pub open spec fn value_view(v: Value) -> SValue
    decreases v,
{
    match v {
        Value::Int(n) => SValue::Int(n),
        Value::Bool(b) => SValue::Bool(b),
        Value::Str(s) => SValue::Str(s@),
        Value::Vec(xs) => SValue::Vec(values_view(xs@)),
        Value::Unit => SValue::Unit,
        Value::Ref(t, m) => SValue::Ref(t@, m),
    }
}

pub open spec fn values_view(s: Seq<Value>) -> Seq<SValue>
    decreases s,
{
    Seq::new(s.len(), |i: int| if 0 <= i < s.len() { value_view(s[i]) } else { SValue::Unit })
}

pub open spec fn opt_view(v: Option<Value>) -> Option<SValue> {
    match v {
        Some(x) => Some(x@),
        None => None,
    }
}

impl View for Value {
    type V = SValue;

    open spec fn view(&self) -> SValue {
        value_view(*self)
    }
}

pub proof fn lemma_values_push(s: Seq<Value>, x: Value)
    ensures
        values_view(s.push(x)) == values_view(s).push(x@),
        values_view(Seq::<Value>::empty()) == Seq::<SValue>::empty(),
{
    assert(values_view(s.push(x)) =~= values_view(s).push(x@));
    assert(values_view(Seq::<Value>::empty()) =~= Seq::<SValue>::empty());
}

pub proof fn lemma_values_update(s: Seq<Value>, i: int, x: Value)
    requires
        0 <= i < s.len(),
    ensures
        values_view(s.update(i, x)) == values_view(s).update(i, x@),
{
    assert(values_view(s.update(i, x)) =~= values_view(s).update(i, x@));
}

impl RefTarget {
    pub fn copy(&self) -> (r: RefTarget)
        ensures
            r@ == self@,
    {
        match self {
            RefTarget::Var(v) => RefTarget::Var(v.clone()),
            RefTarget::VecElem { var, index } => RefTarget::VecElem { var: var.clone(), index: *index },
        }
    }
}

impl Value {
    /// Whether the value is copied, not moved, when a variable is read.
    pub fn is_copy(&self) -> (r: bool)
        ensures
            r == (self@ is Int || self@ is Bool),
    {
        match self {
            Value::Int(_) | Value::Bool(_) => true,
            _ => false,
        }
    }

    /// A copy of the value, vectors copied element by element.
    pub fn deep_clone(&self) -> (r: Value)
        ensures
            r@ == self@,
        decreases self,
    {
        match self {
            Value::Int(n) => Value::Int(*n),
            Value::Bool(b) => Value::Bool(*b),
            Value::Str(s) => Value::Str(s.clone()),
            Value::Unit => Value::Unit,
            Value::Ref(t, m) => Value::Ref(t.copy(), *m),
            Value::Vec(xs) => {
                let mut out: Vec<Value> = Vec::new();
                let mut i: usize = 0;
                proof {
                    lemma_values_push(Seq::empty(), Value::Unit);
                }
                while i < xs.len()
                    invariant
                        i <= xs.len(),
                        *self == Value::Vec(*xs),
                        values_view(out@) == values_view(xs@).subrange(0, i as int),
                    decreases xs.len() - i,
                {
                    proof {
                        let v = *self;
                        assert(v matches Value::Vec(ys) && ys == *xs);
                        assert(decreases_to!(v => v->Vec_0));
                        vstd::std_specs::vec::axiom_vec_index_decreases(*xs, i as int);
                        assert(decreases_to!(*self => xs@[i as int]));
                    }
                    let c = xs[i].deep_clone();
                    proof {
                        lemma_values_push(out@, c);
                        assert(values_view(xs@).subrange(0, i + 1) =~= values_view(xs@).subrange(
                            0,
                            i as int,
                        ).push(c@));
                    }
                    out.push(c);
                    i += 1;
                }
                proof {
                    assert(values_view(xs@).subrange(0, xs.len() as int) =~= values_view(xs@));
                }
                Value::Vec(out)
            },
        }
    }
}

// ---------------------------------------------------------------------------
// The semantics of the language, as a definitional interpreter.
//
// Each function takes the functions of the program, the state (environment and
// the lines printed so far), and gives either a result with the new state, or an
// error with the state it leaves: the steps taken before the error keep their
// effects. Evaluation that calls a user function
// spends one unit of `f`, and formatting a value for `print` spends one unit of
// `g` for each nested vector; both start at `u64::MAX`.
// ---------------------------------------------------------------------------

pub struct SState {
    pub env: SEnv,
    pub out: Seq<Seq<char>>,
}

pub type SRes<T> = Result<(T, SState), (SpecError, SState)>;

pub enum SControl {
    Normal,
    Return(SValue),
}

/// A runtime error, met at state `st` (which the error leaves as it is).
pub open spec fn fail<T>(st: SState, m: Seq<char>) -> SRes<T> {
    Err((SpecError::Runtime(m), st))
}

/// An error met at state `st`, which it leaves as it is.
pub open spec fn fail_with<T>(st: SState, e: SpecError) -> SRes<T> {
    Err((e, st))
}

pub open spec fn with_env(st: SState, e: SEnv) -> SState {
    SState { env: e, out: st.out }
}

/// The position of the function named `name`.
pub open spec fn fn_find(fns: Seq<SpecFnDef>, name: Seq<char>, i: int) -> Option<int>
    decreases fns.len() - i,
{
    if i < 0 || i >= fns.len() {
        None
    } else if fns[i].name == name {
        Some(i)
    } else {
        fn_find(fns, name, i + 1)
    }
}

/// The value of a variable, without moving it.
pub open spec fn peek_var(e: SEnv, name: Seq<char>) -> Result<SValue, SpecError> {
    match env_find(e, name) {
        None => rt(unknown_var(name)),
        Some(at) => match env_slot(e, at).value {
            None => rt("Use after move: "@ + name),
            Some(v) => Ok(v),
        },
    }
}

/// Reads a variable: an integer or a boolean is copied, any other value is moved
/// out; a borrowed variable cannot be read so.
pub open spec fn read_var_move(e: SEnv, name: Seq<char>) -> Result<(SValue, SEnv), SpecError> {
    match env_find(e, name) {
        None => rt(unknown_var(name)),
        Some(at) => {
            let sl = env_slot(e, at);
            if sl.immut > 0 || sl.mut_ {
                rt("Cannot move '"@ + name + "': it is borrowed"@)
            } else {
                match sl.value {
                    None => rt("Use after move: "@ + name),
                    Some(v) => if v is Int || v is Bool {
                        Ok((v, e))
                    } else {
                        Ok((v, env_put(e, at, SSlot { value: None, ..sl })))
                    },
                }
            }
        },
    }
}

/// A read gives back what a write wrote: after `let name = v`, and after an
/// assignment `name = v` that is not refused, the variable reads as `v`.
pub proof fn law_read_after_write(e: SEnv, name: Seq<char>, v: SValue)
    requires
        env_ok(e),
    ensures
        peek_var(s_define(e, name, v), name) == Ok::<SValue, SpecError>(v),
        s_assign(e, name, v) matches Ok(e2) ==> peek_var(e2, name) == Ok::<SValue, SpecError>(v),
{
    lemma_define_found(e, name, v);
    lemma_assign_found(e, name, v);
}

/// A borrowed variable cannot be moved out (nor read by value).
pub proof fn law_no_move_while_borrowed(e: SEnv, name: Seq<char>)
    requires
        env_find(e, name) is Some,
        env_slot(e, env_find(e, name)->0).immut > 0 || env_slot(e, env_find(e, name)->0).mut_,
    ensures
        read_var_move(e, name) is Err,
{
}

pub open spec fn out_of_bounds(i: int, n: int) -> Seq<char> {
    "Index out of bounds: "@ + int_decimal(i) + " (len "@ + int_decimal(n) + ")"@
}

/// What a reference points at, now.
pub open spec fn deref_read(e: SEnv, t: SRef) -> Result<SValue, SpecError> {
    match t {
        SRef::Var(v) => peek_var(e, v),
        SRef::VecElem { var, index } => match peek_var(e, var) {
            Err(x) => Err(x),
            Ok(SValue::Vec(xs)) => if index < xs.len() {
                Ok(xs[index as int])
            } else {
                rt(out_of_bounds(index as int, xs.len() as int))
            },
            Ok(_) => rt("Element reference base is not a vector"@),
        },
    }
}

/// A value to read: a reference stands for what it points at.
pub open spec fn resolve(e: SEnv, v: SValue) -> Result<SValue, SpecError> {
    match v {
        SValue::Ref(t, _) => deref_read(e, t),
        _ => Ok(v),
    }
}

/// `==` on values: integers, booleans and strings by content; anything else differs.
pub open spec fn value_eq(a: SValue, b: SValue) -> bool {
    match (a, b) {
        (SValue::Int(x), SValue::Int(y)) => x == y,
        (SValue::Bool(x), SValue::Bool(y)) => x == y,
        (SValue::Str(x), SValue::Str(y)) => x == y,
        _ => false,
    }
}

/// Division and remainder by zero are runtime errors, whatever the dividend.
pub proof fn law_division_by_zero(x: i64, l: SpecExpr, r: SpecExpr)
    ensures
        binop_value(SpecExpr::Div { left: bx(l), right: bx(r) }, SValue::Int(x), SValue::Int(0))
            == Err::<SValue, Seq<char>>("Division by zero"@),
        binop_value(SpecExpr::Mod { left: bx(l), right: bx(r) }, SValue::Int(x), SValue::Int(0))
            == Err::<SValue, Seq<char>>("Modulo by zero"@),
{
}

/// `e` is a binary operator whose operands are the integer literals `x` and `y`.
pub open spec fn on_literals(e: SpecExpr, x: i64, y: i64) -> bool {
    match e {
        SpecExpr::Add { left, right }
        | SpecExpr::Sub { left, right }
        | SpecExpr::Mul { left, right }
        | SpecExpr::Div { left, right }
        | SpecExpr::Mod { left, right }
        | SpecExpr::Eq { left, right }
        | SpecExpr::Ne { left, right }
        | SpecExpr::Lt { left, right }
        | SpecExpr::Le { left, right }
        | SpecExpr::Gt { left, right }
        | SpecExpr::Ge { left, right } => *left == SpecExpr::Int(x) && *right == SpecExpr::Int(y),
        _ => false,
    }
}

proof fn lemma_eval_on_literals(f: nat, fns: Seq<SpecFnDef>, st: SState, e: SpecExpr, x: i64, y: i64)
    requires
        on_literals(e, x, y),
    ensures
        eval(f, fns, st, e) == (match binop_value(e, SValue::Int(x), SValue::Int(y)) {
            Ok(v) => gives(v, st),
            Err(m) => fail(st, m),
        }),
{
    assert(eval(f, fns, st, SpecExpr::Int(x)) == gives(SValue::Int(x), st));
    assert(eval(f, fns, st, SpecExpr::Int(y)) == gives(SValue::Int(y), st));
    assert(eval(f, fns, st, e) == eval_binary(f, fns, st, e));
}

/// A value, with the state left as it was.
pub open spec fn gives(v: SValue, st: SState) -> SRes<SValue> {
    Ok((v, st))
}

/// The operators on integers mean what they mean on integers: `x op y` on two
/// integer literals compares by the integer order (`<` and `>` strict, `<=` and
/// `>=` not), tests equality, and computes the exact sum, difference, product,
/// quotient and remainder where they fit in 64 bits; the state is left as it was.
pub proof fn law_integer_operators(f: nat, fns: Seq<SpecFnDef>, st: SState, x: i64, y: i64)
    ensures
        ({
            let a = bx(SpecExpr::Int(x));
            let b = bx(SpecExpr::Int(y));
            &&& eval(f, fns, st, SpecExpr::Lt { left: a, right: b }) == gives(SValue::Bool(x < y), st)
            &&& eval(f, fns, st, SpecExpr::Le { left: a, right: b }) == gives(SValue::Bool(x <= y), st)
            &&& eval(f, fns, st, SpecExpr::Gt { left: a, right: b }) == gives(SValue::Bool(x > y), st)
            &&& eval(f, fns, st, SpecExpr::Ge { left: a, right: b }) == gives(SValue::Bool(x >= y), st)
            &&& eval(f, fns, st, SpecExpr::Eq { left: a, right: b }) == gives(SValue::Bool(x == y), st)
            &&& eval(f, fns, st, SpecExpr::Ne { left: a, right: b }) == gives(SValue::Bool(x != y), st)
            &&& i64::MIN <= x + y <= i64::MAX ==> eval(f, fns, st, SpecExpr::Add { left: a, right: b }) == gives(
                SValue::Int((x + y) as i64),
                st,
            )
            &&& i64::MIN <= x - y <= i64::MAX ==> eval(f, fns, st, SpecExpr::Sub { left: a, right: b }) == gives(
                SValue::Int((x - y) as i64),
                st,
            )
            &&& i64::MIN <= x * y <= i64::MAX ==> eval(f, fns, st, SpecExpr::Mul { left: a, right: b }) == gives(
                SValue::Int((x * y) as i64),
                st,
            )
            &&& (y != 0 && !(x == i64::MIN && y == -1)) ==> eval(f, fns, st, SpecExpr::Div { left: a, right: b })
                == gives(SValue::Int(div_trunc(x, y)), st)
            &&& (y != 0 && !(x == i64::MIN && y == -1)) ==> eval(f, fns, st, SpecExpr::Mod { left: a, right: b })
                == gives(SValue::Int(rem_trunc(x, y)), st)
        }),
{
    let a = bx(SpecExpr::Int(x));
    let b = bx(SpecExpr::Int(y));
    lemma_eval_on_literals(f, fns, st, SpecExpr::Lt { left: a, right: b }, x, y);
    lemma_eval_on_literals(f, fns, st, SpecExpr::Le { left: a, right: b }, x, y);
    lemma_eval_on_literals(f, fns, st, SpecExpr::Gt { left: a, right: b }, x, y);
    lemma_eval_on_literals(f, fns, st, SpecExpr::Ge { left: a, right: b }, x, y);
    lemma_eval_on_literals(f, fns, st, SpecExpr::Eq { left: a, right: b }, x, y);
    lemma_eval_on_literals(f, fns, st, SpecExpr::Ne { left: a, right: b }, x, y);
    lemma_eval_on_literals(f, fns, st, SpecExpr::Add { left: a, right: b }, x, y);
    lemma_eval_on_literals(f, fns, st, SpecExpr::Sub { left: a, right: b }, x, y);
    lemma_eval_on_literals(f, fns, st, SpecExpr::Mul { left: a, right: b }, x, y);
    lemma_eval_on_literals(f, fns, st, SpecExpr::Div { left: a, right: b }, x, y);
    lemma_eval_on_literals(f, fns, st, SpecExpr::Mod { left: a, right: b }, x, y);
}

/// Negating an integer gives its opposite, and an `if` on a boolean runs the
/// `then` block when it is `true` and the `else` block when it is `false`.
pub proof fn law_negation_and_if(
    f: nat,
    fns: Seq<SpecFnDef>,
    st: SState,
    x: i64,
    b: bool,
    t: Seq<SpecStmt>,
    el: Seq<SpecStmt>,
)
    ensures
        x != i64::MIN ==> eval(f, fns, st, SpecExpr::Neg { expr: bx(SpecExpr::Int(x)) }) == gives(
            SValue::Int((-x) as i64),
            st,
        ),
        exec_stmt(f, fns, st, SpecStmt::If { cond: SpecExpr::Bool(true), then_body: t, else_body: el }) == exec_block(
            f,
            fns,
            st,
            t,
        ),
        exec_stmt(f, fns, st, SpecStmt::If { cond: SpecExpr::Bool(false), then_body: t, else_body: el })
            == exec_block(f, fns, st, el),
{
    assert(eval(f, fns, st, SpecExpr::Int(x)) == gives(SValue::Int(x), st));
    assert(eval(f, fns, st, SpecExpr::Bool(b)) == gives(SValue::Bool(b), st));
    assert(eval(f, fns, st, SpecExpr::Bool(true)) == gives(SValue::Bool(true), st));
    assert(eval(f, fns, st, SpecExpr::Bool(false)) == gives(SValue::Bool(false), st));
}

/// `range(a, b)` on two integers gives the vector of the integers from `a` up to
/// but not including `b` (see `law_range`), and `range(b)` those from `0`; the
/// state is left as it was.
pub proof fn law_range_calls(f: nat, fns: Seq<SpecFnDef>, st: SState, a: i64, b: i64)
    ensures
        eval(f, fns, st, SpecExpr::Call { callee: "range"@, args: seq![SpecExpr::Int(a), SpecExpr::Int(b)] })
            == gives(SValue::Vec(int_range(a, b)), st),
        eval(f, fns, st, SpecExpr::Call { callee: "range"@, args: seq![SpecExpr::Int(b)] }) == gives(
            SValue::Vec(int_range(0, b)),
            st,
        ),
{
    lemma_call_range(f, fns, st, seq![SpecExpr::Int(a), SpecExpr::Int(b)]);
    lemma_call_range(f, fns, st, seq![SpecExpr::Int(b)]);
    lemma_range_args(f, fns, st, a, b);
}

proof fn lemma_call_range(f: nat, fns: Seq<SpecFnDef>, st: SState, args: Seq<SpecExpr>)
    ensures
        eval(f, fns, st, SpecExpr::Call { callee: "range"@, args }) == builtin_range(f, fns, st, args),
{
    reveal_strlit("range");
    reveal_strlit("len");
    reveal_strlit("push");
    reveal_strlit("set");
    assert("range"@[0] != "len"@[0]);
    assert("range"@[0] != "push"@[0]);
    assert("range"@[0] != "set"@[0]);
    assert(eval(f, fns, st, SpecExpr::Call { callee: "range"@, args }) == call(f, fns, st, "range"@, args));
}

proof fn lemma_range_args(f: nat, fns: Seq<SpecFnDef>, st: SState, a: i64, b: i64)
    ensures
        builtin_range(f, fns, st, seq![SpecExpr::Int(a), SpecExpr::Int(b)]) == gives(SValue::Vec(int_range(a, b)), st),
        builtin_range(f, fns, st, seq![SpecExpr::Int(b)]) == gives(SValue::Vec(int_range(0, b)), st),
{
    let two = seq![SpecExpr::Int(a), SpecExpr::Int(b)];
    let one = seq![SpecExpr::Int(b)];
    assert(eval(f, fns, st, SpecExpr::Int(a)) == gives(SValue::Int(a), st));
    assert(eval(f, fns, st, SpecExpr::Int(b)) == gives(SValue::Int(b), st));
    assert(two[0] == SpecExpr::Int(a) && two[1] == SpecExpr::Int(b));
    assert(one[0] == SpecExpr::Int(b));
    assert(eval_two(f, fns, st, two) == Ok::<((SValue, SValue), SState), (SpecError, SState)>(
        ((SValue::Int(a), SValue::Int(b)), st),
    ));
}

/// `print` of an integer or boolean literal adds exactly one line after the lines
/// printed before, its decimal text or `true` / `false`, and changes nothing else.
pub proof fn law_print_adds_a_line(f: nat, fns: Seq<SpecFnDef>, st: SState, n: i64, b: bool)
    ensures
        exec_stmt(f, fns, st, SpecStmt::Print { expr: SpecExpr::Int(n) }) == Ok::<(SControl, SState), (SpecError, SState)>(
            (SControl::Normal, SState { env: st.env, out: st.out.push(int_decimal(n as int)) }),
        ),
        exec_stmt(f, fns, st, SpecStmt::Print { expr: SpecExpr::Bool(b) }) == Ok::<(SControl, SState), (SpecError, SState)>(
            (SControl::Normal, SState { env: st.env, out: st.out.push(if b { "true"@ } else { "false"@ }) }),
        ),
{
    let e1 = s_push_temp(st.env);
    let st1 = with_env(st, e1);
    assert(eval(f, fns, st1, SpecExpr::Int(n)) == gives(SValue::Int(n), st1));
    assert(eval(f, fns, st1, SpecExpr::Bool(b)) == gives(SValue::Bool(b), st1));
    assert(e1.temp.last() =~= Seq::<(SRef, Mutability)>::empty());
    assert(SEnv { temp: e1.temp.drop_last(), ..e1 } == st.env) by {
        assert(e1.temp.drop_last() =~= st.env.temp);
    }
    assert(s_pop_temp(e1) == Ok::<SEnv, SpecError>(st.env));
}

/// `len` of a string literal is the number of its bytes in UTF-8 (not of its
/// characters); the state is left as it was.
pub proof fn law_len_of_strings(f: nat, fns: Seq<SpecFnDef>, st: SState, t: Seq<char>)
    requires
        encode_utf8(t).len() <= i64::MAX,
        encode_utf8(t).len() <= usize::MAX,
    ensures
        eval(f, fns, st, SpecExpr::Call { callee: "len"@, args: seq![SpecExpr::Str(t)] }) == gives(
            SValue::Int(encode_utf8(t).len() as i64),
            st,
        ),
{
    assert(eval(f, fns, st, SpecExpr::Str(t)) == gives(SValue::Str(t), st));
    assert(seq![SpecExpr::Str(t)][0] == SpecExpr::Str(t));
    assert(eval(f, fns, st, SpecExpr::Call { callee: "len"@, args: seq![SpecExpr::Str(t)] }) == call(
        f,
        fns,
        st,
        "len"@,
        seq![SpecExpr::Str(t)],
    ));
}

/// `push` appends: through a mutable reference to a variable holding the vector
/// `xs`, it leaves the variable holding `xs` with `v` added at the end, prints
/// nothing and gives `()`. `set` replaces: through a mutable reference to element
/// `i` of that vector, it leaves it holding `xs` with element `i` replaced by `v`
/// when `i` is in range, and is an error otherwise.
pub proof fn law_push_and_set(st: SState, var: Seq<char>, xs: Seq<SValue>, v: SValue, i: usize)
    requires
        peek_var(st.env, var) == Ok::<SValue, SpecError>(SValue::Vec(xs)),
    ensures
        push_into(st, SValue::Ref(SRef::Var(var), Mutability::Mut), v) matches Ok((r, st2)) && r == SValue::Unit
            && st2.out == st.out && peek_var(st2.env, var) == Ok::<SValue, SpecError>(SValue::Vec(xs.push(v))),
        i < xs.len() ==> (set_into(st, SValue::Ref(SRef::VecElem { var, index: i }, Mutability::Mut), v) matches Ok(
            (r, st2),
        ) && r == SValue::Unit && st2.out == st.out && peek_var(st2.env, var) == Ok::<SValue, SpecError>(
            SValue::Vec(xs.update(i as int, v)),
        )),
        i >= xs.len() ==> set_into(st, SValue::Ref(SRef::VecElem { var, index: i }, Mutability::Mut), v) is Err,
{
    lemma_find_in_range(st.env, var);
    let at = env_find(st.env, var)->0;
    let sl = env_slot(st.env, at);
    lemma_find_same_names(st.env, at, SSlot { value: Some(SValue::Vec(xs.push(v))), ..sl }, var);
    lemma_find_same_names(st.env, at, SSlot { value: Some(SValue::Vec(xs.update(i as int, v))), ..sl }, var);
    lemma_put_put(st.env, at, sl, SSlot { value: Some(SValue::Vec(xs.push(v))), ..sl });
    lemma_put_put(st.env, at, sl, SSlot { value: Some(SValue::Vec(xs.update(i as int, v))), ..sl });
}

/// Integer arithmetic never wraps: a sum, difference or product outside 64 bits,
/// `i64::MIN / -1` and `i64::MIN % -1` are runtime errors.
pub proof fn law_overflow_is_an_error(x: i64, y: i64, l: SpecExpr, r: SpecExpr)
    ensures
        binop_value(SpecExpr::Add { left: bx(l), right: bx(r) }, SValue::Int(x), SValue::Int(y)) == (if i64::MIN
            <= x + y <= i64::MAX {
            Ok::<SValue, Seq<char>>(SValue::Int((x + y) as i64))
        } else {
            Err::<SValue, Seq<char>>("Integer overflow"@)
        }),
        binop_value(SpecExpr::Sub { left: bx(l), right: bx(r) }, SValue::Int(x), SValue::Int(y)) == (if i64::MIN
            <= x - y <= i64::MAX {
            Ok::<SValue, Seq<char>>(SValue::Int((x - y) as i64))
        } else {
            Err::<SValue, Seq<char>>("Integer overflow"@)
        }),
        binop_value(SpecExpr::Mul { left: bx(l), right: bx(r) }, SValue::Int(x), SValue::Int(y)) == (if i64::MIN
            <= x * y <= i64::MAX {
            Ok::<SValue, Seq<char>>(SValue::Int((x * y) as i64))
        } else {
            Err::<SValue, Seq<char>>("Integer overflow"@)
        }),
        binop_value(SpecExpr::Div { left: bx(l), right: bx(r) }, SValue::Int(i64::MIN), SValue::Int(-1i64))
            == Err::<SValue, Seq<char>>("Integer overflow"@),
        binop_value(SpecExpr::Mod { left: bx(l), right: bx(r) }, SValue::Int(i64::MIN), SValue::Int(-1i64))
            == Err::<SValue, Seq<char>>("Integer overflow"@),
{
}

/// `print` shows integers in decimal, booleans as `true` / `false`, strings quoted
/// (as `{:?}` does), unit as `()`, and vectors as their elements between brackets.
pub proof fn law_print_format(g: nat, e: SEnv, n: i64, b: bool, s: Seq<char>, xs: Seq<SValue>)
    requires
        g > 0,
    ensures
        format_value(g, e, SValue::Int(n)) == Ok::<Seq<char>, SpecError>(int_decimal(n as int)),
        format_value(g, e, SValue::Bool(b)) == Ok::<Seq<char>, SpecError>(if b { "true"@ } else { "false"@ }),
        format_value(g, e, SValue::Str(s)) == Ok::<Seq<char>, SpecError>(debug_str(s)),
        format_value(g, e, SValue::Unit) == Ok::<Seq<char>, SpecError>("()"@),
        format_value(g, e, SValue::Vec(xs)) matches Ok(t) ==> (exists|inner: Seq<char>| t == "["@ + inner + "]"@),
{
    if let Ok(t) = format_value(g, e, SValue::Vec(xs)) {
        if let Ok(inner) = format_elems((g - 1) as nat, e, xs, 0, Seq::empty()) {
            assert(t == "["@ + inner + "]"@);
        }
    }
}

/// `==` holds only between equal integers, booleans or strings; it holds of each
/// of those with itself, and never of vectors, unit or references.
pub proof fn law_equality(a: SValue, b: SValue)
    ensures
        value_eq(a, b) ==> a == b && (a is Int || a is Bool || a is Str),
        (a is Int || a is Bool || a is Str) ==> value_eq(a, a),
        value_eq(a, b) == value_eq(b, a),
{
}

/// Integer division that rounds toward zero, in 64 bits (meant for a divisor
/// other than zero, and not for `i64::MIN / -1`, which overflows).
pub open spec fn div_trunc(x: i64, y: i64) -> i64 {
    let q = abs(x as int) / abs(y as int);
    if (x < 0) != (y < 0) {
        (-q) as i64
    } else {
        q as i64
    }
}

/// The remainder that goes with [`div_trunc`]: it has the sign of `x`.
pub open spec fn rem_trunc(x: i64, y: i64) -> i64 {
    let r = abs(x as int) % abs(y as int);
    if x < 0 {
        (-r) as i64
    } else {
        r as i64
    }
}

/// Division rounds toward zero and the remainder makes up the difference: for a
/// divisor other than zero (and but for `i64::MIN / -1`, which overflows),
/// `(x / y) * y + x % y == x`, the remainder is smaller than the divisor and has
/// the sign of `x`.
pub proof fn law_division(x: i64, y: i64)
    requires
        y != 0,
        !(x == i64::MIN && y == -1),
    ensures
        div_trunc(x, y) * y + rem_trunc(x, y) == x,
        abs(rem_trunc(x, y) as int) < abs(y as int),
        rem_trunc(x, y) == 0 || ((rem_trunc(x, y) < 0) == (x < 0)),
        abs(div_trunc(x, y) * y) <= abs(x as int),
{
    let ax = abs(x as int);
    let ay = abs(y as int);
    let q = ax / ay;
    let r = ax % ay;
    vstd::arithmetic::div_mod::lemma_fundamental_div_mod(ax, ay);
    vstd::arithmetic::div_mod::lemma_mod_pos_bound(ax, ay);
    vstd::arithmetic::div_mod::lemma_div_basics_4(ax, ay);
    assert(ax == ay * q + r);
    assert(0 <= q * ay <= ax) by (nonlinear_arith)
        requires
            ax == ay * q + r,
            0 <= r,
            0 <= q,
            0 < ay,
    ;
    assert(q <= ax) by (nonlinear_arith)
        requires
            q * ay <= ax,
            0 <= q,
            1 <= ay,
    ;
    if ay >= 2 {
        assert(2 * q <= ax) by (nonlinear_arith)
            requires
                q * ay <= ax,
                0 <= q,
                2 <= ay,
        ;
    }
    let d = div_trunc(x, y) as int;
    let m = rem_trunc(x, y) as int;
    if x >= 0 && y > 0 {
        assert(d == q && m == r && y == ay && x == ax);
        assert(d * y == q * ay) by (nonlinear_arith)
            requires
                d == q,
                y == ay,
        ;
    } else if x >= 0 && y < 0 {
        assert(d == -q && m == r && y == -ay && x == ax);
        assert(d * y == q * ay) by (nonlinear_arith)
            requires
                d == -q,
                y == -ay,
        ;
    } else if x < 0 && y > 0 {
        assert(d == -q && m == -r && y == ay && x == -ax);
        assert(d * y == -(q * ay)) by (nonlinear_arith)
            requires
                d == -q,
                y == ay,
        ;
    } else {
        assert(d == q && m == -r && y == -ay && x == -ax);
        assert(d * y == -(q * ay)) by (nonlinear_arith)
            requires
                d == q,
                y == -ay,
        ;
    }
}

pub open spec fn abs(x: int) -> int {
    if x < 0 {
        -x
    } else {
        x
    }
}

/// The runtime error for an integer result that does not fit in 64 bits.
pub open spec fn overflow_msg() -> Seq<char> {
    "Integer overflow"@
}

/// An integer result: the value if it fits in 64 bits, else the overflow error.
pub open spec fn int_or_overflow(v: int) -> Result<SValue, Seq<char>> {
    if i64::MIN <= v <= i64::MAX {
        Ok(SValue::Int(v as i64))
    } else {
        Err(overflow_msg())
    }
}

/// A binary operator on two values that have been read: the value, or an error message.
pub open spec fn binop_value(e: SpecExpr, a: SValue, b: SValue) -> Result<SValue, Seq<char>> {
    match e {
        SpecExpr::Add { .. } => match (a, b) {
            (SValue::Int(x), SValue::Int(y)) => int_or_overflow(x + y),
            _ => Err("Only Int + Int is supported"@),
        },
        SpecExpr::Sub { .. } => match (a, b) {
            (SValue::Int(x), SValue::Int(y)) => int_or_overflow(x - y),
            _ => Err("Only Int - Int is supported"@),
        },
        SpecExpr::Mul { .. } => match (a, b) {
            (SValue::Int(x), SValue::Int(y)) => int_or_overflow(x * y),
            _ => Err("Only Int * Int is supported"@),
        },
        SpecExpr::Div { .. } => match (a, b) {
            (SValue::Int(x), SValue::Int(y)) => if y == 0 {
                Err("Division by zero"@)
            } else if x == i64::MIN && y == -1 {
                Err(overflow_msg())
            } else {
                Ok(SValue::Int(div_trunc(x, y)))
            },
            _ => Err("Only Int / Int is supported"@),
        },
        SpecExpr::Mod { .. } => match (a, b) {
            (SValue::Int(x), SValue::Int(y)) => if y == 0 {
                Err("Modulo by zero"@)
            } else if x == i64::MIN && y == -1 {
                Err(overflow_msg())
            } else {
                Ok(SValue::Int(rem_trunc(x, y)))
            },
            _ => Err("Only Int % Int is supported"@),
        },
        SpecExpr::Eq { .. } => Ok(SValue::Bool(value_eq(a, b))),
        SpecExpr::Ne { .. } => Ok(SValue::Bool(!value_eq(a, b))),
        _ => match (a, b) {
            (SValue::Int(x), SValue::Int(y)) => Ok(
                SValue::Bool(
                    match e {
                        SpecExpr::Lt { .. } => x < y,
                        SpecExpr::Le { .. } => x <= y,
                        SpecExpr::Gt { .. } => x > y,
                        _ => x >= y,
                    },
                ),
            ),
            _ => Err("Comparison expects Int values"@),
        },
    }
}

pub open spec fn is_binary(e: SpecExpr) -> bool {
    e is Add || e is Sub || e is Mul || e is Div || e is Mod || e is Eq || e is Ne || e is Lt
        || e is Le || e is Gt || e is Ge
}

/// A non-negative integer index, or the error for any other value.
pub open spec fn as_index(v: SValue) -> Result<usize, SpecError> {
    match v {
        SValue::Int(n) => if n >= 0 {
            Ok(n as usize)
        } else {
            rt("Index must be a non-negative Int"@)
        },
        _ => rt("Index must be a non-negative Int"@),
    }
}

/// Checks that `var` holds a vector with an element at `idx`.
pub open spec fn check_elem(e: SEnv, var: Seq<char>, idx: usize) -> Result<(), SpecError> {
    match peek_var(e, var) {
        Err(x) => Err(x),
        Ok(SValue::Vec(xs)) => if idx >= xs.len() {
            rt(out_of_bounds(idx as int, xs.len() as int))
        } else {
            Ok(())
        },
        Ok(_) => rt("Index base must be a vector variable"@),
    }
}

pub open spec fn mutability(m: bool) -> Mutability {
    if m {
        Mutability::Mut
    } else {
        Mutability::Imm
    }
}

/// Evaluates an expression.
pub open spec fn eval(f: nat, fns: Seq<SpecFnDef>, st: SState, e: SpecExpr) -> SRes<SValue>
    decreases f, esize(e), 5int,
{
    match e {
        SpecExpr::Int(n) => Ok((SValue::Int(n), st)),
        SpecExpr::Bool(b) => Ok((SValue::Bool(b), st)),
        SpecExpr::Str(s) => Ok((SValue::Str(s), st)),
        SpecExpr::VecLit(items) => match eval_list(f, fns, st, items, 0, Seq::empty()) {
            Err(x) => Err(x),
            Ok((vs, st2)) => Ok((SValue::Vec(vs), st2)),
        },
        SpecExpr::Ident(name) => match read_var_move(st.env, name) {
            Err(x) => fail_with(st, x),
            Ok((v, e2)) => Ok((v, with_env(st, e2))),
        },
        SpecExpr::Neg { expr } => match eval(f, fns, st, *expr) {
            Err(x) => Err(x),
            Ok((v, st2)) => match resolve(st2.env, v) {
                Err(x) => fail_with(st2, x),
                Ok(SValue::Int(n)) => if n == i64::MIN {
                    fail(st2, overflow_msg())
                } else {
                    Ok((SValue::Int((-n) as i64), st2))
                },
                Ok(_) => fail(st2, "Unary '-' expects Int"@),
            },
        },
        SpecExpr::Call { callee, args } => call(f, fns, st, callee, args),
        SpecExpr::Index { .. } => eval_index(f, fns, st, e),
        SpecExpr::Borrow { mut_, expr } => eval_borrow(f, fns, st, mut_, *expr),
        _ => eval_binary(f, fns, st, e),
    }
}

/// A binary operator: both operands are evaluated, left first, then read.
pub open spec fn eval_binary(f: nat, fns: Seq<SpecFnDef>, st: SState, e: SpecExpr) -> SRes<SValue>
    decreases f, esize(e), 4int,
{
    match e {
        SpecExpr::Add { left, right }
        | SpecExpr::Sub { left, right }
        | SpecExpr::Mul { left, right }
        | SpecExpr::Div { left, right }
        | SpecExpr::Mod { left, right }
        | SpecExpr::Eq { left, right }
        | SpecExpr::Ne { left, right }
        | SpecExpr::Lt { left, right }
        | SpecExpr::Le { left, right }
        | SpecExpr::Gt { left, right }
        | SpecExpr::Ge { left, right } => match eval(f, fns, st, *left) {
            Err(x) => Err(x),
            Ok((a0, st1)) => match eval(f, fns, st1, *right) {
                Err(x) => Err(x),
                Ok((b0, st2)) => match resolve(st2.env, a0) {
                    Err(x) => fail_with(st2, x),
                    Ok(a) => match resolve(st2.env, b0) {
                        Err(x) => fail_with(st2, x),
                        Ok(b) => match binop_value(e, a, b) {
                            Err(m) => fail(st2, m),
                            Ok(v) => Ok((v, st2)),
                        },
                    },
                },
            },
        },
        _ => fail(st, Seq::empty()),
    }
}

/// Evaluates the expressions of `items` from `i` on, left to right, after those in `acc`.
pub open spec fn eval_list(
    f: nat,
    fns: Seq<SpecFnDef>,
    st: SState,
    items: Seq<SpecExpr>,
    i: int,
    acc: Seq<SValue>,
) -> SRes<Seq<SValue>>
    decreases f, esizes(items) + 1, items.len() - i,
{
    if i < 0 || i >= items.len() {
        Ok((acc, st))
    } else {
        proof {
            lemma_esizes(items, i);
        }
        match eval(f, fns, st, items[i]) {
            Err(x) => Err(x),
            Ok((v, st2)) => eval_list(f, fns, st2, items, i + 1, acc.push(v)),
        }
    }
}

/// `&inner` or `&mut inner`.
pub open spec fn eval_borrow(f: nat, fns: Seq<SpecFnDef>, st: SState, mut_: bool, inner: SpecExpr) -> SRes<SValue>
    decreases f, esize(inner), 3int,
{
    let want = mutability(mut_);
    match lvalue_target(f, fns, st, inner, want) {
        Err(x) => Err(x),
        Ok((t, st2)) => match s_acquire(st2.env, ref_var(t), want) {
            Err(x) => fail_with(st2, x),
            Ok(e3) => {
                let e4 = if t is VecElem {
                    s_replace_last(e3, t, want)
                } else {
                    e3
                };
                Ok((SValue::Ref(t, want), with_env(st2, e4)))
            },
        },
    }
}

/// What a borrow of `e` points at: a variable, or an element `xs[i]`. A mutable
/// element reference needs a base that is a variable or a mutable borrow of one.
pub open spec fn lvalue_target(f: nat, fns: Seq<SpecFnDef>, st: SState, e: SpecExpr, want: Mutability) -> SRes<SRef>
    decreases f, esize(e), 2int,
{
    match e {
        SpecExpr::Ident(name) => Ok((SRef::Var(name), st)),
        SpecExpr::Index { base, index } => match base_as_var_or_ref(f, fns, st, *base) {
            Err(x) => Err(x),
            Ok(((var, base_mut), st2)) => if want == Mutability::Mut && base_mut != Mutability::Mut
                && !(*base is Ident) {
                fail(st2, "Need &mut base to take mutable element reference"@)
            } else {
                match eval(f, fns, st2, *index) {
                    Err(x) => Err(x),
                    Ok((iv, st3)) => match as_index(iv) {
                        Err(x) => fail_with(st3, x),
                        Ok(idx) => match check_elem(st3.env, var, idx) {
                            Err(x) => fail_with(st3, x),
                            Ok(_) => Ok((SRef::VecElem { var, index: idx }, st3)),
                        },
                    },
                }
            },
        },
        _ => fail(st, "Borrow target must be a variable or index (xs[i])"@),
    }
}

/// The base of an index: a variable (taken as not borrowed), or `&var` / `&mut var`
/// (which borrows it).
pub open spec fn base_as_var_or_ref(f: nat, fns: Seq<SpecFnDef>, st: SState, base: SpecExpr) -> SRes<(Seq<char>, Mutability)>
    decreases f, esize(base), 4int,
{
    match base {
        SpecExpr::Ident(name) => Ok(((name, Mutability::Imm), st)),
        SpecExpr::Borrow { mut_, expr } => match eval_borrow(f, fns, st, mut_, *expr) {
            Err(x) => Err(x),
            Ok((SValue::Ref(SRef::Var(var), m), st2)) => Ok(((var, m), st2)),
            Ok((_, st2)) => fail(st2, "Index base borrow must be &var or &mut var"@),
        },
        _ => fail(st, "Index base must be a variable (xs) or a borrow (&xs / &mut xs)"@),
    }
}

/// `base[index]`: a reference to the element; a shared one borrows the vector.
pub open spec fn eval_index(f: nat, fns: Seq<SpecFnDef>, st: SState, e: SpecExpr) -> SRes<SValue>
    decreases f, esize(e), 4int,
{
    match e {
        SpecExpr::Index { base, index } => match base_as_var_or_ref(f, fns, st, *base) {
            Err(x) => Err(x),
            Ok(((var, base_mut), st2)) => match eval(f, fns, st2, *index) {
                Err(x) => Err(x),
                Ok((iv, st3)) => match as_index(iv) {
                    Err(x) => fail_with(st3, x),
                    Ok(idx) => match check_elem(st3.env, var, idx) {
                        Err(x) => fail_with(st3, x),
                        Ok(_) => {
                            let t = SRef::VecElem { var, index: idx };
                            if base_mut == Mutability::Mut {
                                Ok((SValue::Ref(t, Mutability::Mut), st3))
                            } else {
                                match s_acquire(st3.env, var, Mutability::Imm) {
                                    Err(x) => fail_with(st3, x),
                                    Ok(e4) => Ok(
                                        (
                                            SValue::Ref(t, Mutability::Imm),
                                            with_env(st3, s_replace_last(e4, t, Mutability::Imm)),
                                        ),
                                    ),
                                }
                            }
                        },
                    },
                },
            },
        },
        _ => fail(st, Seq::empty()),
    }
}

/// A call: one of the built-in functions `len`, `push`, `set`, `range`, or a user function.
pub open spec fn call(f: nat, fns: Seq<SpecFnDef>, st: SState, callee: Seq<char>, args: Seq<SpecExpr>) -> SRes<SValue>
    decreases f, esizes(args) + 4, 0int,
{
    if callee == "len"@ {
        builtin_len(f, fns, st, args)
    } else if callee == "push"@ {
        builtin_push(f, fns, st, args)
    } else if callee == "set"@ {
        builtin_set(f, fns, st, args)
    } else if callee == "range"@ {
        builtin_range(f, fns, st, args)
    } else {
        call_user_fn(f, fns, st, callee, args)
    }
}

/// `len(x)`: the number of bytes of a string (in UTF-8), or of elements of a vector.
pub open spec fn builtin_len(f: nat, fns: Seq<SpecFnDef>, st: SState, args: Seq<SpecExpr>) -> SRes<SValue>
    decreases f, esizes(args) + 3, 0int,
{
    if args.len() != 1 {
        fail(st, "len(x) expects 1 argument"@)
    } else {
        proof {
            lemma_esizes(args, 0);
        }
        match eval(f, fns, st, args[0]) {
            Err(x) => Err(x),
            Ok((v0, st2)) => match resolve(st2.env, v0) {
                Err(x) => fail_with(st2, x),
                Ok(SValue::Str(s)) => Ok((SValue::Int((encode_utf8(s).len() as usize) as i64), st2)),
                Ok(SValue::Vec(xs)) => Ok((SValue::Int(xs.len() as i64), st2)),
                Ok(_) => fail(st2, "len() expects string or vector"@),
            },
        }
    }
}

/// Evaluates two arguments, the first then the second.
pub open spec fn eval_two(f: nat, fns: Seq<SpecFnDef>, st: SState, args: Seq<SpecExpr>) -> SRes<(SValue, SValue)>
    decreases f, esizes(args) + 2, 0int,
{
    if args.len() != 2 {
        fail(st, Seq::empty())
    } else {
        proof {
            lemma_esizes(args, 0);
            lemma_esizes(args, 1);
        }
        match eval(f, fns, st, args[0]) {
            Err(x) => Err(x),
            Ok((a, st1)) => match eval(f, fns, st1, args[1]) {
                Err(x) => Err(x),
                Ok((b, st2)) => Ok(((a, b), st2)),
            },
        }
    }
}

/// The vector held by `var`, for `push` and `set`.
pub open spec fn vec_of(e: SEnv, var: Seq<char>, what: Seq<char>) -> Result<((int, int), Seq<SValue>), SpecError> {
    match env_find(e, var) {
        None => rt(unknown_var(var)),
        Some(at) => match env_slot(e, at).value {
            None => rt("Use after move: "@ + var),
            Some(SValue::Vec(xs)) => Ok((at, xs)),
            Some(_) => rt(what),
        },
    }
}

pub open spec fn put_value(e: SEnv, at: (int, int), v: SValue) -> SEnv {
    env_put(e, at, SSlot { value: Some(v), ..env_slot(e, at) })
}

/// `push(&mut xs, v)`: appends `v` to the vector variable `xs`.
pub open spec fn builtin_push(f: nat, fns: Seq<SpecFnDef>, st: SState, args: Seq<SpecExpr>) -> SRes<SValue>
    decreases f, esizes(args) + 3, 0int,
{
    if args.len() != 2 {
        fail(st, "push(&mut vec, value) expects 2 arguments"@)
    } else {
        match eval_two(f, fns, st, args) {
            Err(x) => Err(x),
            Ok(((r, v), st2)) => push_into(st2, r, v),
        }
    }
}

/// The rest of `push` once its arguments are evaluated.
pub open spec fn push_into(st: SState, r: SValue, v: SValue) -> SRes<SValue> {
    match r {
        SValue::Ref(SRef::Var(var), m) => if m != Mutability::Mut {
            fail(st, "push requires &mut vec"@)
        } else {
            match vec_of(st.env, var, "push target must be a vector"@) {
                Err(x) => fail_with(st, x),
                Ok((at, xs)) => Ok((SValue::Unit, with_env(st, put_value(st.env, at, SValue::Vec(xs.push(v)))))),
            }
        },
        _ => fail(st, "push first argument must be &mut vec variable"@),
    }
}

/// `set(&mut xs[i], v)`: replaces the element.
pub open spec fn builtin_set(f: nat, fns: Seq<SpecFnDef>, st: SState, args: Seq<SpecExpr>) -> SRes<SValue>
    decreases f, esizes(args) + 3, 0int,
{
    if args.len() != 2 {
        fail(st, "set(&mut elem_ref, value) expects 2 arguments"@)
    } else {
        match eval_two(f, fns, st, args) {
            Err(x) => Err(x),
            Ok(((r, v), st2)) => set_into(st2, r, v),
        }
    }
}

/// The rest of `set` once its arguments are evaluated.
pub open spec fn set_into(st: SState, r: SValue, v: SValue) -> SRes<SValue> {
    match r {
        SValue::Ref(SRef::VecElem { var, index }, m) => if m != Mutability::Mut {
            fail(st, "set requires a mutable element reference"@)
        } else {
            match vec_of(st.env, var, "set target base must be a vector"@) {
                Err(x) => fail_with(st, x),
                Ok((at, xs)) => if index >= xs.len() {
                    fail(st, out_of_bounds(index as int, xs.len() as int))
                } else {
                    Ok((SValue::Unit, with_env(st, put_value(st.env, at, SValue::Vec(xs.update(index as int, v))))))
                },
            }
        },
        _ => fail(st, "set first argument must be &mut (xs[i])"@),
    }
}

/// The integers from `s` up to but not including `e`.
pub open spec fn int_range(s: i64, e: i64) -> Seq<SValue> {
    Seq::new(if s < e { (e - s) as nat } else { 0 }, |k: int| SValue::Int((s + k) as i64))
}

/// An `if` whose condition is not a boolean, and a `for` over what is not a
/// vector, are runtime errors.
pub proof fn law_conditions_and_loops_checked(
    f: nat,
    fns: Seq<SpecFnDef>,
    st: SState,
    c: SpecExpr,
    t: Seq<SpecStmt>,
    el: Seq<SpecStmt>,
    var: Seq<char>,
)
    ensures
        (eval(f, fns, st, c) matches Ok((v, st2)) && resolve(st2.env, v) matches Ok(x) && !(x is Bool)) ==> exec_stmt(
            f,
            fns,
            st,
            SpecStmt::If { cond: c, then_body: t, else_body: el },
        ) is Err,
        (eval(f, fns, st, c) matches Ok((v, _)) && !(v is Vec)) ==> exec_stmt(
            f,
            fns,
            st,
            SpecStmt::For { var, iter: c, body: t },
        ) is Err,
{
}

/// `range(s, e)` holds the integers `s, s + 1, ..` below `e`, in order, as
/// `start..end` does; it is empty when `e <= s`.
pub proof fn law_range(s: i64, e: i64)
    ensures
        int_range(s, e).len() == (if s < e { e - s } else { 0 }),
        forall|k: int| 0 <= k < int_range(s, e).len() ==> #[trigger] int_range(s, e)[k] == SValue::Int((s + k) as i64)
            && s <= s + k < e,
{
}

/// `range(end)` or `range(start, end)`.
pub open spec fn builtin_range(f: nat, fns: Seq<SpecFnDef>, st: SState, args: Seq<SpecExpr>) -> SRes<SValue>
    decreases f, esizes(args) + 3, 0int,
{
    if !(args.len() == 1 || args.len() == 2) {
        fail(st, "range(end) or range(start, end) expects 1 or 2 arguments"@)
    } else {
        proof {
            lemma_esizes(args, 0);
        }
        let bounds = if args.len() == 1 {
            match eval(f, fns, st, args[0]) {
                Err(x) => Err(x),
                Ok((b, st2)) => Ok(((SValue::Int(0), b), st2)),
            }
        } else {
            eval_two(f, fns, st, args)
        };
        match bounds {
            Err(x) => Err(x),
            Ok(((a0, b0), st2)) => range_of(st2, a0, b0),
        }
    }
}

/// The rest of `range` once its bounds are evaluated.
pub open spec fn range_of(st: SState, a0: SValue, b0: SValue) -> SRes<SValue> {
    match resolve(st.env, a0) {
        Err(x) => fail_with(st, x),
        Ok(a) => match resolve(st.env, b0) {
            Err(x) => fail_with(st, x),
            Ok(b) => match (a, b) {
                (SValue::Int(s), SValue::Int(e)) => Ok((SValue::Vec(int_range(s, e)), st)),
                _ => fail(st, "range() expects Int arguments"@),
            },
        },
    }
}


/// A call of a user function: the arguments are evaluated in the caller's scope,
/// then bound as parameters in a new scope, where the body runs until a `return`.
pub open spec fn call_user_fn(f: nat, fns: Seq<SpecFnDef>, st: SState, callee: Seq<char>, args: Seq<SpecExpr>) -> SRes<SValue>
    decreases f, esizes(args) + 3, 0int,
{
    match fn_find(fns, callee, 0) {
        None => fail(st, "Unknown function: "@ + callee),
        Some(k) => {
            let fd = fns[k];
            if fd.params.len() != args.len() {
                fail(
                    st,
                    "Function "@ + callee + " expects "@ + nat_decimal(fd.params.len()) + " args, got "@
                        + nat_decimal(args.len()),
                )
            } else {
                match eval_list(f, fns, st, args, 0, Seq::empty()) {
                    Err(x) => Err(x),
                    Ok((vals, st2)) => run_call(f, fns, st2, fd, vals),
                }
            }
        },
    }
}

/// The body of a call, once its arguments are evaluated: one level of `f` is spent.
pub open spec fn run_call(f: nat, fns: Seq<SpecFnDef>, st: SState, fd: SpecFnDef, vals: Seq<SValue>) -> SRes<SValue>
    decreases f, 0int, 0int,
{
    if f == 0 {
        fail(st, "Call depth limit reached"@)
    } else {
        let e3 = define_all(s_push_scope(st.env), fd.params, vals, 0);
        match exec_seq((f - 1) as nat, fns, with_env(st, e3), fd.body, 0) {
            Err(x) => Err(x),
            Ok((c, st4)) => match s_pop_scope(st4.env) {
                Err(x) => fail_with(with_env(st4, s_pop_scope_err_env(st4.env)), x),
                Ok(e5) => Ok(
                    (
                        match c {
                            SControl::Return(v) => v,
                            SControl::Normal => SValue::Unit,
                        },
                        with_env(st4, e5),
                    ),
                ),
            },
        }
    }
}

/// Runs the statements of `stmts` from `i` on, until one returns.
pub open spec fn exec_seq(f: nat, fns: Seq<SpecFnDef>, st: SState, stmts: Seq<SpecStmt>, i: int) -> SRes<SControl>
    decreases f, ssizes(stmts) + 1, stmts.len() - i,
{
    if i < 0 || i >= stmts.len() {
        Ok((SControl::Normal, st))
    } else {
        proof {
            lemma_ssizes(stmts, i);
        }
        match exec_stmt(f, fns, st, stmts[i]) {
            Err(x) => Err(x),
            Ok((SControl::Return(v), st2)) => Ok((SControl::Return(v), st2)),
            Ok((SControl::Normal, st2)) => exec_seq(f, fns, st2, stmts, i + 1),
        }
    }
}

/// A block: its statements run in a new scope.
pub open spec fn exec_block(f: nat, fns: Seq<SpecFnDef>, st: SState, body: Seq<SpecStmt>) -> SRes<SControl>
    decreases f, ssizes(body) + 1, body.len() + 1,
{
    match exec_seq(f, fns, with_env(st, s_push_scope(st.env)), body, 0) {
        Err(x) => Err(x),
        Ok((c, st2)) => match s_pop_scope(st2.env) {
            Err(x) => fail_with(with_env(st2, s_pop_scope_err_env(st2.env)), x),
            Ok(e3) => Ok((c, with_env(st2, e3))),
        },
    }
}

/// The iterations of a `for` loop from the `k`-th element on; each runs the body
/// in a new scope where the loop variable holds the element.
pub open spec fn for_iter(
    f: nat,
    fns: Seq<SpecFnDef>,
    st: SState,
    var: Seq<char>,
    body: Seq<SpecStmt>,
    elems: Seq<SValue>,
    k: int,
) -> SRes<SControl>
    decreases f, ssizes(body) + 1, body.len() + 2 + elems.len() - k,
{
    if k < 0 || k >= elems.len() {
        Ok((SControl::Normal, st))
    } else {
        let e1 = s_define(s_push_scope(st.env), var, elems[k]);
        match exec_seq(f, fns, with_env(st, e1), body, 0) {
            Err(x) => Err(x),
            Ok((c, st2)) => match s_pop_scope(st2.env) {
                Err(x) => fail_with(with_env(st2, s_pop_scope_err_env(st2.env)), x),
                Ok(e3) => match c {
                    SControl::Return(v) => Ok((SControl::Return(v), with_env(st2, e3))),
                    SControl::Normal => for_iter(f, fns, with_env(st2, e3), var, body, elems, k + 1),
                },
            },
        }
    }
}

/// A statement whose temporary borrows are given back at its end (`print` and
/// expression statements): they are given back whatever the step `r` gave, and
/// the statement's own error comes first.
pub open spec fn with_temp(r: SRes<()>) -> SRes<SControl> {
    match r {
        Err((x, st2)) => Err((x, with_env(st2, after_temp(st2.env)))),
        Ok((_, st2)) => match s_pop_temp(st2.env) {
            Err(x) => fail_with(with_env(st2, s_pop_temp_err_env(st2.env)), x),
            Ok(e3) => Ok((SControl::Normal, with_env(st2, e3))),
        },
    }
}

/// The environment once a statement's temporary borrows are given back, as far
/// as they can be.
pub open spec fn after_temp(e: SEnv) -> SEnv {
    match s_pop_temp(e) {
        Ok(e3) => e3,
        Err(_) => s_pop_temp_err_env(e),
    }
}

/// The line that `print` writes for a value.
pub open spec fn print_step(f: nat, fns: Seq<SpecFnDef>, st: SState, expr: SpecExpr) -> SRes<()>
    decreases f, esize(expr) + 1, 6int,
{
    match eval(f, fns, st, expr) {
        Err(x) => Err(x),
        Ok((v, st2)) => match format_value(u64::MAX as nat, st2.env, v) {
            Err(x) => fail_with(st2, x),
            Ok(line) => Ok(((), SState { env: st2.env, out: st2.out.push(line) })),
        },
    }
}

/// Runs a statement.
pub open spec fn exec_stmt(f: nat, fns: Seq<SpecFnDef>, st: SState, s: SpecStmt) -> SRes<SControl>
    decreases f, ssize(s), 0int,
{
    match s {
        SpecStmt::Let { name, expr } => match eval(f, fns, st, expr) {
            Err(x) => Err(x),
            Ok((v, st2)) => Ok((SControl::Normal, with_env(st2, s_define(st2.env, name, v)))),
        },
        SpecStmt::Assign { name, expr } => match eval(f, fns, st, expr) {
            Err(x) => Err(x),
            Ok((v, st2)) => match s_assign(st2.env, name, v) {
                Err(x) => fail_with(st2, x),
                Ok(e3) => Ok((SControl::Normal, with_env(st2, e3))),
            },
        },
        SpecStmt::Print { expr } => {
            let st1 = with_env(st, s_push_temp(st.env));
            let r = print_step(f, fns, st1, expr);
            with_temp(r)
        },
        SpecStmt::ExprStmt { expr } => {
            let st1 = with_env(st, s_push_temp(st.env));
            let r = match eval(f, fns, st1, expr) {
                Err(x) => Err(x),
                Ok((_, st2)) => Ok(((), st2)),
            };
            with_temp(r)
        },
        SpecStmt::Return(e) => match eval(f, fns, st, e) {
            Err(x) => Err(x),
            Ok((v, st2)) => Ok((SControl::Return(v), st2)),
        },
        SpecStmt::If { cond, then_body, else_body } => match eval(f, fns, st, cond) {
            Err(x) => Err(x),
            Ok((c0, st2)) => match resolve(st2.env, c0) {
                Err(x) => fail_with(st2, x),
                Ok(SValue::Bool(b)) => if b {
                    exec_block(f, fns, st2, then_body)
                } else {
                    exec_block(f, fns, st2, else_body)
                },
                Ok(_) => fail(st2, "if condition must be Bool (true/false)"@),
            },
        },
        SpecStmt::For { var, iter, body } => match eval(f, fns, st, iter) {
            Err(x) => Err(x),
            Ok((SValue::Vec(xs), st2)) => for_iter(f, fns, st2, var, body, xs, 0),
            Ok((_, st2)) => fail(st2, "for expects a vector value (moved)"@),
        },
    }
}

// ---------------------------------------------------------------------------
// Printing.
// ---------------------------------------------------------------------------

/// The text that `print` writes for a value: integers in decimal, booleans as
/// `true` / `false`, strings quoted and escaped, vectors as `[a, b, c]`, unit as
/// `()`; a reference stands for what it points at.
pub open spec fn format_value(g: nat, e: SEnv, v: SValue) -> Result<Seq<char>, SpecError>
    decreases g, 1int, 0int,
{
    if g == 0 {
        rt("Nesting limit reached"@)
    } else {
        match resolve(e, v) {
            Err(x) => Err(x),
            Ok(SValue::Int(n)) => Ok(int_decimal(n as int)),
            Ok(SValue::Bool(b)) => Ok(if b { "true"@ } else { "false"@ }),
            Ok(SValue::Str(s)) => Ok(debug_str(s)),
            Ok(SValue::Vec(xs)) => match format_elems((g - 1) as nat, e, xs, 0, Seq::empty()) {
                Err(x) => Err(x),
                Ok(inner) => Ok("["@ + inner + "]"@),
            },
            Ok(SValue::Unit) => Ok("()"@),
            Ok(SValue::Ref(_, _)) => rt("internal error: entered unreachable code: resolved above"@),
        }
    }
}

/// The elements of a vector from `i` on, joined by `, ` after the text `acc`.
pub open spec fn format_elems(g: nat, e: SEnv, xs: Seq<SValue>, i: int, acc: Seq<char>) -> Result<Seq<char>, SpecError>
    decreases g, 2int, xs.len() - i,
{
    if i < 0 || i >= xs.len() {
        Ok(acc)
    } else {
        match format_value(g, e, xs[i]) {
            Err(x) => Err(x),
            Ok(item) => format_elems(
                g,
                e,
                xs,
                i + 1,
                if i == 0 { acc + item } else { acc + ", "@ + item },
            ),
        }
    }
}

// ---------------------------------------------------------------------------
// A whole program.
// ---------------------------------------------------------------------------

/// Registers the functions of `items` from `i` on after `fns`, in order. The
/// second part is the name of the first function whose name was already taken,
/// where registration stopped.
pub open spec fn register_fns(fns: Seq<SpecFnDef>, items: Seq<SpecItem>, i: int) -> (Seq<SpecFnDef>, Option<Seq<char>>)
    decreases items.len() - i,
{
    if i < 0 || i >= items.len() {
        (fns, None)
    } else {
        match items[i] {
            SpecItem::Fn(fd) => if fn_find(fns, fd.name, 0) is Some {
                (fns, Some(fd.name))
            } else {
                register_fns(fns.push(fd), items, i + 1)
            },
            SpecItem::Stmt(_) => register_fns(fns, items, i + 1),
        }
    }
}

/// The top-level statements of `items` from `i` on, in order.
pub open spec fn top_stmts(items: Seq<SpecItem>, i: int) -> Seq<SpecStmt>
    decreases items.len() - i,
{
    if i < 0 || i >= items.len() {
        Seq::empty()
    } else {
        match items[i] {
            SpecItem::Fn(_) => top_stmts(items, i + 1),
            SpecItem::Stmt(s) => seq![s] + top_stmts(items, i + 1),
        }
    }
}

/// Runs top-level statements from `i` on; a `return` there is an error.
pub open spec fn run_top(fns: Seq<SpecFnDef>, st: SState, stmts: Seq<SpecStmt>, i: int) -> SRes<()>
    decreases stmts.len() - i,
{
    if i < 0 || i >= stmts.len() {
        Ok(((), st))
    } else {
        match exec_stmt(u64::MAX as nat, fns, st, stmts[i]) {
            Err(x) => Err(x),
            Ok((SControl::Return(_), st2)) => fail(st2, "return is only allowed inside functions"@),
            Ok((SControl::Normal, st2)) => run_top(fns, st2, stmts, i + 1),
        }
    }
}

/// A whole program: every function is registered first, then the top-level
/// statements run in order.
pub open spec fn run_program(fns: Seq<SpecFnDef>, st: SState, items: Seq<SpecItem>) -> SRes<()> {
    match register_fns(fns, items, 0).1 {
        Some(name) => fail(st, "Duplicate function: "@ + name),
        None => run_top(register_fns(fns, items, 0).0, st, top_stmts(items, 0), 0),
    }
}

} // verus!

verus! {

// ---------------------------------------------------------------------------
// The interpreter.
// ---------------------------------------------------------------------------

impl View for Mutability {
    type V = Mutability;

    open spec fn view(&self) -> Mutability {
        *self
    }
}

/// How a statement ended: normally, or by `return` with a value.
pub enum Control {
    Normal,
    Return(Value),
}

impl View for Control {
    type V = SControl;

    open spec fn view(&self) -> SControl {
        match self {
            Control::Normal => SControl::Normal,
            Control::Return(v) => SControl::Return(v@),
        }
    }
}

pub open spec fn fns_view(s: Seq<FnDef>) -> Seq<SpecFnDef> {
    Seq::new(s.len(), |i: int| s[i]@)
}

/// The running state: the environment and the lines printed so far.
pub struct State {
    pub env: Env,
    pub out: Vec<String>,
}

impl View for State {
    type V = SState;

    open spec fn view(&self) -> SState {
        SState { env: self.env@, out: strings_view(self.out@) }
    }
}

/// Whether an answer of the interpreter is the one that the semantics gives.
pub open spec fn ran<T: View>(r: Result<T, LangError>, after: SState, g: SRes<T::V>) -> bool {
    match g {
        Ok((v, st)) => r matches Ok(x) && x@ == v && after == st,
        Err((e, st)) => r matches Err(x) && x@ == e && after == st,
    }
}

/// The error for an expression of a form that the caller does not handle.
pub fn no_such_form() -> (e: LangError)
    ensures
        e@ == SpecError::Runtime(Seq::empty()),
{
    LangError::Runtime(String::new())
}

pub fn runtime_error(msg: &str) -> (e: LangError)
    ensures
        e@ == SpecError::Runtime(msg@),
{
    LangError::Runtime(String::from_str(msg))
}

/// `x / y` rounding toward zero.
pub fn div_trunc_exec(x: i64, y: i64) -> (r: i64)
    requires
        y != 0,
        !(x == i64::MIN && y == -1),
    ensures
        r == div_trunc(x, y),
{
    let ax: u64 = if x < 0 { (0i128 - x as i128) as u64 } else { x as u64 };
    let ay: u64 = if y < 0 { (0i128 - y as i128) as u64 } else { y as u64 };
    let q: u64 = ax / ay;
    if (x < 0) != (y < 0) {
        (0i128 - q as i128) as i64
    } else {
        q as i64
    }
}

/// The remainder of [`div_trunc_exec`]; it has the sign of `x`.
pub fn rem_trunc_exec(x: i64, y: i64) -> (r: i64)
    requires
        y != 0,
    ensures
        r == rem_trunc(x, y),
{
    let ax: u64 = if x < 0 { (0i128 - x as i128) as u64 } else { x as u64 };
    let ay: u64 = if y < 0 { (0i128 - y as i128) as u64 } else { y as u64 };
    let m: u64 = ax % ay;
    if x < 0 {
        (0i128 - m as i128) as i64
    } else {
        m as i64
    }
}

pub fn value_eq_exec(a: &Value, b: &Value) -> (r: bool)
    ensures
        r == value_eq(a@, b@),
{
    match (a, b) {
        (Value::Int(x), Value::Int(y)) => *x == *y,
        (Value::Bool(x), Value::Bool(y)) => *x == *y,
        (Value::Str(x), Value::Str(y)) => x.eq(y),
        _ => false,
    }
}

/// The runtime error for an integer result that does not fit in 64 bits.
pub fn overflow_error() -> (e: LangError)
    ensures
        e@ == SpecError::Runtime(overflow_msg()),
{
    runtime_error("Integer overflow")
}

/// A binary operator on two values that have been read.
pub fn apply_binop(e: &Expr, a: Value, b: Value) -> (r: Result<Value, LangError>)
    requires
        is_binary(e@),
    ensures
        match binop_value(e@, a@, b@) {
            Ok(v) => r matches Ok(x) && x@ == v,
            Err(m) => r matches Err(x) && x@ == SpecError::Runtime(m),
        },
{
    match e {
        Expr::Add { .. } => match (a, b) {
            (Value::Int(x), Value::Int(y)) => match x.checked_add(y) {
                Some(v) => Ok(Value::Int(v)),
                None => Err(overflow_error()),
            },
            _ => Err(runtime_error("Only Int + Int is supported")),
        },
        Expr::Sub { .. } => match (a, b) {
            (Value::Int(x), Value::Int(y)) => match x.checked_sub(y) {
                Some(v) => Ok(Value::Int(v)),
                None => Err(overflow_error()),
            },
            _ => Err(runtime_error("Only Int - Int is supported")),
        },
        Expr::Mul { .. } => match (a, b) {
            (Value::Int(x), Value::Int(y)) => match x.checked_mul(y) {
                Some(v) => Ok(Value::Int(v)),
                None => Err(overflow_error()),
            },
            _ => Err(runtime_error("Only Int * Int is supported")),
        },
        Expr::Div { .. } => match (a, b) {
            (Value::Int(x), Value::Int(y)) => if y == 0 {
                Err(runtime_error("Division by zero"))
            } else if x == i64::MIN && y == -1 {
                Err(overflow_error())
            } else {
                Ok(Value::Int(div_trunc_exec(x, y)))
            },
            _ => Err(runtime_error("Only Int / Int is supported")),
        },
        Expr::Mod { .. } => match (a, b) {
            (Value::Int(x), Value::Int(y)) => if y == 0 {
                Err(runtime_error("Modulo by zero"))
            } else if x == i64::MIN && y == -1 {
                Err(overflow_error())
            } else {
                Ok(Value::Int(rem_trunc_exec(x, y)))
            },
            _ => Err(runtime_error("Only Int % Int is supported")),
        },
        Expr::Eq { .. } => Ok(Value::Bool(value_eq_exec(&a, &b))),
        Expr::Ne { .. } => Ok(Value::Bool(!value_eq_exec(&a, &b))),
        _ => match (a, b) {
            (Value::Int(x), Value::Int(y)) => Ok(
                Value::Bool(
                    match e {
                        Expr::Lt { .. } => x < y,
                        Expr::Le { .. } => x <= y,
                        Expr::Gt { .. } => x > y,
                        _ => x >= y,
                    },
                ),
            ),
            _ => Err(runtime_error("Comparison expects Int values")),
        },
    }
}

/// The index a value stands for, if it is a non-negative integer.
pub fn as_index_exec(v: &Value) -> (r: Result<usize, LangError>)
    ensures
        match as_index(v@) {
            Ok(i) => r == Ok::<usize, LangError>(i),
            Err(x) => r matches Err(y) && y@ == x,
        },
{
    match v {
        Value::Int(n) => if *n >= 0 {
            Ok(*n as usize)
        } else {
            Err(runtime_error("Index must be a non-negative Int"))
        },
        _ => Err(runtime_error("Index must be a non-negative Int")),
    }
}

pub fn out_of_bounds_exec(i: usize, n: usize) -> (r: String)
    ensures
        r@ == out_of_bounds(i as int, n as int),
{
    let a = cat2("Index out of bounds: ", usize_to_string(i).as_str());
    a.concat(" (len ").concat(usize_to_string(n).as_str()).concat(")")
}

/// The error for a call with the wrong number of arguments.
pub fn arity_error(callee: &String, expected: usize, got: usize) -> (e: LangError)
    ensures
        e@ == SpecError::Runtime(
            "Function "@ + callee@ + " expects "@ + nat_decimal(expected as nat) + " args, got "@
                + nat_decimal(got as nat),
        ),
{
    let msg = cat3("Function ", callee.as_str(), " expects ").concat(
        usize_to_string(expected).as_str(),
    ).concat(" args, got ").concat(usize_to_string(got).as_str());
    LangError::Runtime(msg)
}

/// The decimal notation of a `usize`.
pub fn usize_to_string(n: usize) -> (r: String)
    ensures
        r@ == int_decimal(n as int),
        r@ == nat_decimal(n as nat),
{
    let mut s = String::new();
    crate::text::push_nat_decimal(&mut s, n as u64);
    proof {
        assert(s@ =~= nat_decimal(n as nat));
    }
    s
}

impl State {
    pub open spec fn ok(&self) -> bool {
        self.env.ok()
    }

    /// The value of a variable, without moving it.
    pub fn peek_var(&self, name: &String) -> (r: Result<Value, LangError>)
        ensures
            match peek_var(self.env@, name@) {
                Ok(v) => r matches Ok(x) && x@ == v,
                Err(e) => r matches Err(x) && x@ == e,
            },
    {
        let at = match self.env.lookup(name) {
            Some(at) => at,
            None => return Err(LangError::Runtime(cat2("Unknown variable: ", name.as_str()))),
        };
        match &self.env.slot(at).value {
            Some(v) => Ok(v.deep_clone()),
            None => Err(LangError::Runtime(cat2("Use after move: ", name.as_str()))),
        }
    }

    /// Reads a variable: copies an integer or a boolean, moves out any other value.
    pub fn read_var_move(&mut self, name: &String) -> (r: Result<Value, LangError>)
        requires
            old(self).ok(),
        ensures
            final(self).ok(),
            final(self).env.same_shape(&old(self).env),
            final(self).out == old(self).out,
            match read_var_move(old(self).env@, name@) {
                Ok((v, e)) => r matches Ok(x) && x@ == v && final(self).env@ == e,
                Err(e) => r matches Err(x) && x@ == e && final(self)@ == old(self)@,
            },
    {
        let at = match self.env.lookup(name) {
            Some(at) => at,
            None => return Err(LangError::Runtime(cat2("Unknown variable: ", name.as_str()))),
        };
        let sl = self.env.slot(at);
        if sl.borrows.immut > 0 || sl.borrows.mut_ {
            return Err(LangError::Runtime(cat3("Cannot move '", name.as_str(), "': it is borrowed")));
        }
        match &sl.value {
            None => Err(LangError::Runtime(cat2("Use after move: ", name.as_str()))),
            Some(v) => {
                if v.is_copy() {
                    Ok(v.deep_clone())
                } else {
                    let taken = self.env.take_value(at);
                    match taken {
                        Some(x) => Ok(x),
                        None => Err(runtime_error("Use after move")),
                    }
                }
            },
        }
    }

    /// What a reference points at.
    pub fn deref_read(&self, t: &RefTarget) -> (r: Result<Value, LangError>)
        ensures
            match deref_read(self.env@, t@) {
                Ok(v) => r matches Ok(x) && x@ == v,
                Err(e) => r matches Err(x) && x@ == e,
            },
    {
        match t {
            RefTarget::Var(var) => self.peek_var(var),
            RefTarget::VecElem { var, index } => {
                let base = self.peek_var(var)?;
                match base {
                    Value::Vec(xs) => {
                        if *index < xs.len() {
                            Ok(xs[*index].deep_clone())
                        } else {
                            Err(LangError::Runtime(out_of_bounds_exec(*index, xs.len())))
                        }
                    },
                    _ => Err(runtime_error("Element reference base is not a vector")),
                }
            },
        }
    }

    /// A value to read: a reference stands for what it points at.
    pub fn resolve_value_for_read(&self, v: &Value) -> (r: Result<Value, LangError>)
        ensures
            match resolve(self.env@, v@) {
                Ok(x) => r matches Ok(y) && y@ == x,
                Err(e) => r matches Err(y) && y@ == e,
            },
    {
        match v {
            Value::Ref(t, _) => self.deref_read(t),
            other => Ok(other.deep_clone()),
        }
    }
}

} // verus!

verus! {

impl State {
    /// Evaluates an expression.
    pub fn eval_expr(&mut self, fns: &Vec<FnDef>, e: &Expr, f: u64) -> (r: Result<Value, LangError>)
        requires
            old(self).ok(),
        ensures
            final(self).ok(),
            final(self).env.temp_borrow_log@.len() == old(self).env.temp_borrow_log@.len(),
            final(self).env.borrow_log@.len() >= old(self).env.borrow_log@.len(),
            final(self).env.scopes@.len() >= old(self).env.scopes@.len(),
            r is Ok ==> final(self).env.same_shape(&old(self).env),
            ran(r, final(self)@, eval(f as nat, fns_view(fns@), old(self)@, e@)),
        decreases f, esize(e@), 5int,
    {
        match e {
            Expr::Int(n) => Ok(Value::Int(*n)),
            Expr::Bool(b) => Ok(Value::Bool(*b)),
            Expr::Str(s) => Ok(Value::Str(s.clone())),
            Expr::VecLit(items) => {
                let vs = self.eval_list(fns, items, f)?;
                Ok(Value::Vec(vs))
            },
            Expr::Ident(name) => self.read_var_move(name),
            Expr::Neg { expr } => {
                let tmp = self.eval_expr(fns, &**expr, f)?;
                let v = self.resolve_value_for_read(&tmp)?;
                match v {
                    Value::Int(n) => if n == i64::MIN {
                        Err(overflow_error())
                    } else {
                        Ok(Value::Int(-n))
                    },
                    _ => Err(runtime_error("Unary '-' expects Int")),
                }
            },
            Expr::Call { callee, args } => self.call(fns, callee, args, f),
            Expr::Index { .. } => self.eval_index(fns, e, f),
            Expr::Borrow { mut_, expr } => self.eval_borrow(fns, *mut_, &**expr, f),
            _ => self.eval_binary(fns, e, f),
        }
    }

    /// A binary operator: both operands are evaluated, left first, then read.
    pub fn eval_binary(&mut self, fns: &Vec<FnDef>, e: &Expr, f: u64) -> (r: Result<Value, LangError>)
        requires
            old(self).ok(),
        ensures
            final(self).ok(),
            final(self).env.temp_borrow_log@.len() == old(self).env.temp_borrow_log@.len(),
            final(self).env.borrow_log@.len() >= old(self).env.borrow_log@.len(),
            final(self).env.scopes@.len() >= old(self).env.scopes@.len(),
            r is Ok ==> final(self).env.same_shape(&old(self).env),
            ran(r, final(self)@, eval_binary(f as nat, fns_view(fns@), old(self)@, e@)),
        decreases f, esize(e@), 4int,
    {
        match e {
            Expr::Add { left, right }
            | Expr::Sub { left, right }
            | Expr::Mul { left, right }
            | Expr::Div { left, right }
            | Expr::Mod { left, right }
            | Expr::Eq { left, right }
            | Expr::Ne { left, right }
            | Expr::Lt { left, right }
            | Expr::Le { left, right }
            | Expr::Gt { left, right }
            | Expr::Ge { left, right } => {
                let a_tmp = self.eval_expr(fns, &**left, f)?;
                let b_tmp = self.eval_expr(fns, &**right, f)?;
                let a = self.resolve_value_for_read(&a_tmp)?;
                let b = self.resolve_value_for_read(&b_tmp)?;
                apply_binop(e, a, b)
            },
            _ => Err(no_such_form()),
        }
    }

    /// Evaluates expressions left to right.
    pub fn eval_list(&mut self, fns: &Vec<FnDef>, items: &Vec<Expr>, f: u64) -> (r: Result<Vec<Value>, LangError>)
        requires
            old(self).ok(),
        ensures
            final(self).ok(),
            final(self).env.temp_borrow_log@.len() == old(self).env.temp_borrow_log@.len(),
            final(self).env.borrow_log@.len() >= old(self).env.borrow_log@.len(),
            final(self).env.scopes@.len() >= old(self).env.scopes@.len(),
            r is Ok ==> final(self).env.same_shape(&old(self).env),
            match eval_list(f as nat, fns_view(fns@), old(self)@, exprs_view(items@), 0, Seq::empty()) {
                Ok((vs, st)) => r matches Ok(x) && values_view(x@) == vs && final(self)@ == st,
                Err((e, st)) => r matches Err(x) && x@ == e && final(self)@ == st,
            },
        decreases f, esizes(exprs_view(items@)) + 1, items@.len() + 1,
    {
        let ghost its = exprs_view(items@);
        let ghost goal = eval_list(f as nat, fns_view(fns@), self@, its, 0, Seq::empty());
        let mut out: Vec<Value> = Vec::new();
        proof {
            lemma_values_push(Seq::empty(), Value::Unit);
        }
        let mut i: usize = 0;
        while i < items.len()
            invariant
                self.ok(),
                i <= items@.len(),
                its == exprs_view(items@),
                eval_list(f as nat, fns_view(fns@), self@, its, i as int, values_view(out@)) == goal,
                goal == eval_list(f as nat, fns_view(fns@), old(self)@, exprs_view(items@), 0, Seq::empty()),
                self.env.temp_borrow_log@.len() == old(self).env.temp_borrow_log@.len(),
                self.env.same_shape(&old(self).env),
            decreases items@.len() - i,
        {
            proof {
                lemma_esizes(its, i as int);
            }
            let v = self.eval_expr(fns, &items[i], f)?;
            proof {
                lemma_values_push(out@, v);
            }
            out.push(v);
            i += 1;
        }
        Ok(out)
    }

    /// `&inner` or `&mut inner`.
    pub fn eval_borrow(&mut self, fns: &Vec<FnDef>, mut_: bool, inner: &Expr, f: u64) -> (r: Result<Value, LangError>)
        requires
            old(self).ok(),
        ensures
            final(self).ok(),
            final(self).env.temp_borrow_log@.len() == old(self).env.temp_borrow_log@.len(),
            final(self).env.borrow_log@.len() >= old(self).env.borrow_log@.len(),
            final(self).env.scopes@.len() >= old(self).env.scopes@.len(),
            r is Ok ==> final(self).env.same_shape(&old(self).env),
            ran(r, final(self)@, eval_borrow(f as nat, fns_view(fns@), old(self)@, mut_, inner@)),
        decreases f, esize(inner@), 3int,
    {
        let want = if mut_ { Mutability::Mut } else { Mutability::Imm };
        let target = self.lvalue_target(fns, inner, want, f)?;
        let owning_var = match &target {
            RefTarget::Var(v) => v.clone(),
            RefTarget::VecElem { var, .. } => var.clone(),
        };
        self.env.acquire_borrow(&owning_var, want)?;
        if let RefTarget::VecElem { .. } = &target {
            self.env.replace_last_record_with(target.copy(), want);
        }
        Ok(Value::Ref(target, want))
    }

    /// What a borrow of `e` points at: a variable, or an element `xs[i]`.
    pub fn lvalue_target(&mut self, fns: &Vec<FnDef>, e: &Expr, want: Mutability, f: u64) -> (r: Result<RefTarget, LangError>)
        requires
            old(self).ok(),
        ensures
            final(self).ok(),
            final(self).env.temp_borrow_log@.len() == old(self).env.temp_borrow_log@.len(),
            final(self).env.borrow_log@.len() >= old(self).env.borrow_log@.len(),
            final(self).env.scopes@.len() >= old(self).env.scopes@.len(),
            r is Ok ==> final(self).env.same_shape(&old(self).env),
            ran(r, final(self)@, lvalue_target(f as nat, fns_view(fns@), old(self)@, e@, want)),
        decreases f, esize(e@), 2int,
    {
        match e {
            Expr::Ident(name) => Ok(RefTarget::Var(name.clone())),
            Expr::Index { base, index } => {
                let plain = matches!(**base, Expr::Ident(_));
                let (var, base_mut) = self.base_as_var_or_ref(fns, &**base, f)?;
                if want == Mutability::Mut && base_mut != Mutability::Mut && !plain {
                    return Err(runtime_error("Need &mut base to take mutable element reference"));
                }
                let idx_v = self.eval_expr(fns, &**index, f)?;
                let idx = as_index_exec(&idx_v)?;
                self.check_elem(&var, idx)?;
                Ok(RefTarget::VecElem { var, index: idx })
            },
            _ => Err(runtime_error("Borrow target must be a variable or index (xs[i])")),
        }
    }

    /// Checks that `var` holds a vector with an element at `idx`.
    pub fn check_elem(&self, var: &String, idx: usize) -> (r: Result<(), LangError>)
        ensures
            match check_elem(self.env@, var@, idx) {
                Ok(_) => r is Ok,
                Err(x) => r matches Err(y) && y@ == x,
            },
    {
        let vec_val = self.peek_var(var)?;
        match vec_val {
            Value::Vec(xs) => {
                if idx >= xs.len() {
                    return Err(LangError::Runtime(out_of_bounds_exec(idx, xs.len())));
                }
                Ok(())
            },
            _ => Err(runtime_error("Index base must be a vector variable")),
        }
    }

    /// The base of an index: a variable, or `&var` / `&mut var` (which borrows it).
    pub fn base_as_var_or_ref(&mut self, fns: &Vec<FnDef>, base: &Expr, f: u64) -> (r: Result<(String, Mutability), LangError>)
        requires
            old(self).ok(),
        ensures
            final(self).ok(),
            final(self).env.temp_borrow_log@.len() == old(self).env.temp_borrow_log@.len(),
            final(self).env.borrow_log@.len() >= old(self).env.borrow_log@.len(),
            final(self).env.scopes@.len() >= old(self).env.scopes@.len(),
            r is Ok ==> final(self).env.same_shape(&old(self).env),
            ran(r, final(self)@, base_as_var_or_ref(f as nat, fns_view(fns@), old(self)@, base@)),
        decreases f, esize(base@), 4int,
    {
        match base {
            Expr::Ident(name) => Ok((name.clone(), Mutability::Imm)),
            Expr::Borrow { mut_, expr } => {
                let v = self.eval_borrow(fns, *mut_, &**expr, f)?;
                match v {
                    Value::Ref(RefTarget::Var(var), m) => Ok((var, m)),
                    _ => Err(runtime_error("Index base borrow must be &var or &mut var")),
                }
            },
            _ => Err(runtime_error("Index base must be a variable (xs) or a borrow (&xs / &mut xs)")),
        }
    }

    /// `base[index]`: a reference to the element; a shared one borrows the vector.
    pub fn eval_index(&mut self, fns: &Vec<FnDef>, e: &Expr, f: u64) -> (r: Result<Value, LangError>)
        requires
            old(self).ok(),
        ensures
            final(self).ok(),
            final(self).env.temp_borrow_log@.len() == old(self).env.temp_borrow_log@.len(),
            final(self).env.borrow_log@.len() >= old(self).env.borrow_log@.len(),
            final(self).env.scopes@.len() >= old(self).env.scopes@.len(),
            r is Ok ==> final(self).env.same_shape(&old(self).env),
            ran(r, final(self)@, eval_index(f as nat, fns_view(fns@), old(self)@, e@)),
        decreases f, esize(e@), 4int,
    {
        match e {
            Expr::Index { base, index } => {
                let (var, base_mut) = self.base_as_var_or_ref(fns, &**base, f)?;
                let idx_v = self.eval_expr(fns, &**index, f)?;
                let idx = as_index_exec(&idx_v)?;
                self.check_elem(&var, idx)?;
                if base_mut == Mutability::Mut {
                    Ok(Value::Ref(RefTarget::VecElem { var, index: idx }, Mutability::Mut))
                } else {
                    self.env.acquire_borrow(&var, Mutability::Imm)?;
                    self.env.replace_last_record_with(
                        RefTarget::VecElem { var: var.clone(), index: idx },
                        Mutability::Imm,
                    );
                    Ok(Value::Ref(RefTarget::VecElem { var, index: idx }, Mutability::Imm))
                }
            },
            _ => Err(no_such_form()),
        }
    }

    /// A call: a built-in function (`len`, `push`, `set`, `range`) or a user function.
    pub fn call(&mut self, fns: &Vec<FnDef>, callee: &String, args: &Vec<Expr>, f: u64) -> (r: Result<Value, LangError>)
        requires
            old(self).ok(),
        ensures
            final(self).ok(),
            final(self).env.temp_borrow_log@.len() == old(self).env.temp_borrow_log@.len(),
            final(self).env.borrow_log@.len() >= old(self).env.borrow_log@.len(),
            final(self).env.scopes@.len() >= old(self).env.scopes@.len(),
            r is Ok ==> final(self).env.same_shape(&old(self).env),
            ran(r, final(self)@, call(f as nat, fns_view(fns@), old(self)@, callee@, exprs_view(args@))),
        decreases f, esizes(exprs_view(args@)) + 4, 0int,
    {
        if callee.eq(&String::from_str("len")) {
            self.builtin_len(fns, args, f)
        } else if callee.eq(&String::from_str("push")) {
            self.builtin_push(fns, args, f)
        } else if callee.eq(&String::from_str("set")) {
            self.builtin_set(fns, args, f)
        } else if callee.eq(&String::from_str("range")) {
            self.builtin_range(fns, args, f)
        } else {
            self.call_user_fn(fns, callee, args, f)
        }
    }

    /// `len(x)`.
    pub fn builtin_len(&mut self, fns: &Vec<FnDef>, args: &Vec<Expr>, f: u64) -> (r: Result<Value, LangError>)
        requires
            old(self).ok(),
        ensures
            final(self).ok(),
            final(self).env.temp_borrow_log@.len() == old(self).env.temp_borrow_log@.len(),
            final(self).env.borrow_log@.len() >= old(self).env.borrow_log@.len(),
            final(self).env.scopes@.len() >= old(self).env.scopes@.len(),
            r is Ok ==> final(self).env.same_shape(&old(self).env),
            ran(r, final(self)@, builtin_len(f as nat, fns_view(fns@), old(self)@, exprs_view(args@))),
        decreases f, esizes(exprs_view(args@)) + 3, 0int,
    {
        if args.len() != 1 {
            return Err(runtime_error("len(x) expects 1 argument"));
        }
        proof {
            lemma_esizes(exprs_view(args@), 0);
        }
        let tmp = self.eval_expr(fns, &args[0], f)?;
        let v = self.resolve_value_for_read(&tmp)?;
        match v {
            Value::Str(s) => Ok(Value::Int(s.as_str().len() as i64)),
            Value::Vec(xs) => Ok(Value::Int(xs.len() as i64)),
            _ => Err(runtime_error("len() expects string or vector")),
        }
    }

    /// Evaluates the two arguments, the first then the second.
    pub fn eval_two(&mut self, fns: &Vec<FnDef>, args: &Vec<Expr>, f: u64) -> (r: Result<(Value, Value), LangError>)
        requires
            old(self).ok(),
            args@.len() == 2,
        ensures
            final(self).ok(),
            final(self).env.temp_borrow_log@.len() == old(self).env.temp_borrow_log@.len(),
            final(self).env.borrow_log@.len() >= old(self).env.borrow_log@.len(),
            final(self).env.scopes@.len() >= old(self).env.scopes@.len(),
            r is Ok ==> final(self).env.same_shape(&old(self).env),
            ran(r, final(self)@, eval_two(f as nat, fns_view(fns@), old(self)@, exprs_view(args@))),
        decreases f, esizes(exprs_view(args@)) + 2, 0int,
    {
        proof {
            lemma_esizes(exprs_view(args@), 0);
            lemma_esizes(exprs_view(args@), 1);
        }
        let a = self.eval_expr(fns, &args[0], f)?;
        let b = self.eval_expr(fns, &args[1], f)?;
        Ok((a, b))
    }

    /// Takes out the vector that `var` holds (for `push` and `set`, which put it back).
    pub fn take_vec(&mut self, var: &String, what: &str) -> (r: Result<((usize, usize), Vec<Value>), LangError>)
        requires
            old(self).ok(),
        ensures
            final(self).ok(),
            final(self).env.same_shape(&old(self).env),
            final(self).out == old(self).out,
            match vec_of(old(self).env@, var@, what@) {
                Ok((at, xs)) => r matches Ok((p, v)) && p.0 as int == at.0 && p.1 as int == at.1
                    && values_view(v@) == xs && final(self).env.has(p) && old(self).env.has(p) && final(self).env@
                    == env_put(old(self).env@, at, SSlot { value: None, ..env_slot(old(self).env@, at) }),
                Err(x) => r matches Err(y) && y@ == x && final(self)@ == old(self)@,
            },
    {
        let at = match self.env.lookup(var) {
            Some(at) => at,
            None => return Err(LangError::Runtime(cat2("Unknown variable: ", var.as_str()))),
        };
        let ghost e0 = self.env@;
        let ghost sat = (at.0 as int, at.1 as int);
        let cur = self.env.take_value(at);
        proof {
            lemma_put_put(e0, sat, SSlot { value: None, ..env_slot(e0, sat) }, env_slot(e0, sat));
        }
        match cur {
            None => {
                proof {
                    assert(SSlot { value: None, ..env_slot(e0, sat) } == env_slot(e0, sat));
                }
                Err(LangError::Runtime(cat2("Use after move: ", var.as_str())))
            },
            Some(Value::Vec(xs)) => Ok((at, xs)),
            Some(other) => {
                self.env.set_value(at, Some(other));
                proof {
                    assert(SSlot { value: opt_view(Some(other)), ..env_slot(self.env@, sat) } == env_slot(e0, sat)) by {
                        lemma_put_put(e0, sat, SSlot { value: None, ..env_slot(e0, sat) }, env_slot(e0, sat));
                    }
                }
                Err(runtime_error(what))
            },
        }
    }

    /// `push(&mut xs, v)`.
    pub fn builtin_push(&mut self, fns: &Vec<FnDef>, args: &Vec<Expr>, f: u64) -> (r: Result<Value, LangError>)
        requires
            old(self).ok(),
        ensures
            final(self).ok(),
            final(self).env.temp_borrow_log@.len() == old(self).env.temp_borrow_log@.len(),
            final(self).env.borrow_log@.len() >= old(self).env.borrow_log@.len(),
            final(self).env.scopes@.len() >= old(self).env.scopes@.len(),
            r is Ok ==> final(self).env.same_shape(&old(self).env),
            ran(r, final(self)@, builtin_push(f as nat, fns_view(fns@), old(self)@, exprs_view(args@))),
        decreases f, esizes(exprs_view(args@)) + 3, 0int,
    {
        if args.len() != 2 {
            return Err(runtime_error("push(&mut vec, value) expects 2 arguments"));
        }
        let (r, v) = self.eval_two(fns, args, f)?;
        self.push_into(r, v)
    }

    /// The rest of `push` once its arguments are evaluated.
    pub fn push_into(&mut self, r: Value, v: Value) -> (res: Result<Value, LangError>)
        requires
            old(self).ok(),
        ensures
            final(self).ok(),
            final(self).env.same_shape(&old(self).env),
            ran(res, final(self)@, push_into(old(self)@, r@, v@)),
    {
        let (var, m) = match r {
            Value::Ref(RefTarget::Var(var), m) => (var, m),
            _ => return Err(runtime_error("push first argument must be &mut vec variable")),
        };
        if m != Mutability::Mut {
            return Err(runtime_error("push requires &mut vec"));
        }
        let ghost e0 = self.env@;
        let (at, mut xs) = self.take_vec(&var, "push target must be a vector")?;
        proof {
            lemma_values_push(xs@, v);
        }
        xs.push(v);
        self.env.set_value(at, Some(Value::Vec(xs)));
        proof {
            let sat = (at.0 as int, at.1 as int);
            assert(e0.scopes[sat.0] == scope_view(old(self).env.scopes@[sat.0]@));
            lemma_put_put(e0, sat, SSlot { value: None, ..env_slot(e0, sat) }, SSlot { value: Some(SValue::Vec(values_view(xs@))), ..env_slot(e0, sat) });
        }
        Ok(Value::Unit)
    }

    /// `set(&mut xs[i], v)`.
    pub fn builtin_set(&mut self, fns: &Vec<FnDef>, args: &Vec<Expr>, f: u64) -> (r: Result<Value, LangError>)
        requires
            old(self).ok(),
        ensures
            final(self).ok(),
            final(self).env.temp_borrow_log@.len() == old(self).env.temp_borrow_log@.len(),
            final(self).env.borrow_log@.len() >= old(self).env.borrow_log@.len(),
            final(self).env.scopes@.len() >= old(self).env.scopes@.len(),
            r is Ok ==> final(self).env.same_shape(&old(self).env),
            ran(r, final(self)@, builtin_set(f as nat, fns_view(fns@), old(self)@, exprs_view(args@))),
        decreases f, esizes(exprs_view(args@)) + 3, 0int,
    {
        if args.len() != 2 {
            return Err(runtime_error("set(&mut elem_ref, value) expects 2 arguments"));
        }
        let (r, v) = self.eval_two(fns, args, f)?;
        self.set_into(r, v)
    }

    /// The rest of `set` once its arguments are evaluated.
    pub fn set_into(&mut self, r: Value, v: Value) -> (res: Result<Value, LangError>)
        requires
            old(self).ok(),
        ensures
            final(self).ok(),
            final(self).env.same_shape(&old(self).env),
            ran(res, final(self)@, set_into(old(self)@, r@, v@)),
    {
        let (var, idx, m) = match r {
            Value::Ref(RefTarget::VecElem { var, index }, m) => (var, index, m),
            _ => return Err(runtime_error("set first argument must be &mut (xs[i])")),
        };
        if m != Mutability::Mut {
            return Err(runtime_error("set requires a mutable element reference"));
        }
        let ghost e0 = self.env@;
        let (at, mut xs) = self.take_vec(&var, "set target base must be a vector")?;
        if idx >= xs.len() {
            let msg = out_of_bounds_exec(idx, xs.len());
            self.env.set_value(at, Some(Value::Vec(xs)));
            proof {
                let sat = (at.0 as int, at.1 as int);
                assert(e0.scopes[sat.0] == scope_view(old(self).env.scopes@[sat.0]@));
                lemma_put_put(e0, sat, SSlot { value: None, ..env_slot(e0, sat) }, env_slot(e0, sat));
                assert(SSlot { value: Some(SValue::Vec(values_view(xs@))), ..env_slot(e0, sat) } == env_slot(e0, sat));
            }
            return Err(LangError::Runtime(msg));
        }
        proof {
            lemma_values_update(xs@, idx as int, v);
        }
        xs.set(idx, v);
        self.env.set_value(at, Some(Value::Vec(xs)));
        proof {
            let sat = (at.0 as int, at.1 as int);
            assert(e0.scopes[sat.0] == scope_view(old(self).env.scopes@[sat.0]@));
            lemma_put_put(e0, sat, SSlot { value: None, ..env_slot(e0, sat) }, SSlot { value: Some(SValue::Vec(values_view(xs@))), ..env_slot(e0, sat) });
        }
        Ok(Value::Unit)
    }

    /// `range(end)` or `range(start, end)`.
    pub fn builtin_range(&mut self, fns: &Vec<FnDef>, args: &Vec<Expr>, f: u64) -> (r: Result<Value, LangError>)
        requires
            old(self).ok(),
        ensures
            final(self).ok(),
            final(self).env.temp_borrow_log@.len() == old(self).env.temp_borrow_log@.len(),
            final(self).env.borrow_log@.len() >= old(self).env.borrow_log@.len(),
            final(self).env.scopes@.len() >= old(self).env.scopes@.len(),
            r is Ok ==> final(self).env.same_shape(&old(self).env),
            ran(r, final(self)@, builtin_range(f as nat, fns_view(fns@), old(self)@, exprs_view(args@))),
        decreases f, esizes(exprs_view(args@)) + 3, 0int,
    {
        if !(args.len() == 1 || args.len() == 2) {
            return Err(runtime_error("range(end) or range(start, end) expects 1 or 2 arguments"));
        }
        proof {
            lemma_esizes(exprs_view(args@), 0);
        }
        let (start_tmp, end_tmp) = if args.len() == 1 {
            let b = self.eval_expr(fns, &args[0], f)?;
            (Value::Int(0), b)
        } else {
            self.eval_two(fns, args, f)?
        };
        self.range_of(&start_tmp, &end_tmp)
    }

    /// The rest of `range` once its bounds are evaluated.
    pub fn range_of(&self, start_tmp: &Value, end_tmp: &Value) -> (res: Result<Value, LangError>)
        ensures
            ran(res, self@, range_of(self@, start_tmp@, end_tmp@)),
    {
        let start_v = self.resolve_value_for_read(start_tmp)?;
        let end_v = self.resolve_value_for_read(end_tmp)?;
        let (start, end) = match (start_v, end_v) {
            (Value::Int(a), Value::Int(b)) => (a, b),
            _ => return Err(runtime_error("range() expects Int arguments")),
        };
        let mut out: Vec<Value> = Vec::new();
        let mut i = start;
        proof {
            lemma_values_push(Seq::empty(), Value::Unit);
        }
        while i < end
            invariant
                start <= i,
                i == start || i <= end,
                values_view(out@) =~= Seq::new((i - start) as nat, |k: int| SValue::Int((start + k) as i64)),
            decreases end - i,
        {
            proof {
                lemma_values_push(out@, Value::Int(i));
            }
            out.push(Value::Int(i));
            i += 1;
        }
        proof {
            assert(values_view(out@) =~= int_range(start, end));
        }
        Ok(Value::Vec(out))
    }

    /// A call of a user function.
    pub fn call_user_fn(&mut self, fns: &Vec<FnDef>, callee: &String, args: &Vec<Expr>, f: u64) -> (r: Result<Value, LangError>)
        requires
            old(self).ok(),
        ensures
            final(self).ok(),
            final(self).env.temp_borrow_log@.len() == old(self).env.temp_borrow_log@.len(),
            final(self).env.borrow_log@.len() >= old(self).env.borrow_log@.len(),
            final(self).env.scopes@.len() >= old(self).env.scopes@.len(),
            r is Ok ==> final(self).env.same_shape(&old(self).env),
            ran(r, final(self)@, call_user_fn(f as nat, fns_view(fns@), old(self)@, callee@, exprs_view(args@))),
        decreases f, esizes(exprs_view(args@)) + 3, 0int,
    {
        let k = match find_fn(fns, callee) {
            Some(k) => k,
            None => return Err(LangError::Runtime(cat2("Unknown function: ", callee.as_str()))),
        };
        let fd = &fns[k];
        assert(fn_find(fns_view(fns@), callee@, 0) == Some(k as int));
        assert(fns_view(fns@)[k as int] == fd@);
        assert(fd@.params.len() == fd.params@.len());
        if fd.params.len() != args.len() {
            return Err(arity_error(callee, fd.params.len(), args.len()));
        }
        let arg_vals = self.eval_list(fns, args, f)?;
        self.run_call(fns, fd, arg_vals, f)
    }

    /// The body of a call, once its arguments are evaluated.
    pub fn run_call(&mut self, fns: &Vec<FnDef>, fd: &FnDef, arg_vals: Vec<Value>, f: u64) -> (r: Result<Value, LangError>)
        requires
            old(self).ok(),
        ensures
            final(self).ok(),
            final(self).env.temp_borrow_log@.len() == old(self).env.temp_borrow_log@.len(),
            final(self).env.borrow_log@.len() >= old(self).env.borrow_log@.len(),
            final(self).env.scopes@.len() >= old(self).env.scopes@.len(),
            r is Ok ==> final(self).env.same_shape(&old(self).env),
            ran(r, final(self)@, run_call(f as nat, fns_view(fns@), old(self)@, fd@, values_view(arg_vals@))),
        decreases f, 0int, 0int,
    {
        if f == 0 {
            return Err(runtime_error("Call depth limit reached"));
        }
        self.env.push_scope();
        self.env.bind_params(&fd.params, &arg_vals);
        let c = self.exec_seq(fns, &fd.body, f - 1)?;
        self.env.pop_scope()?;
        match c {
            Control::Return(v) => Ok(v),
            Control::Normal => Ok(Value::Unit),
        }
    }

    /// Runs statements in order until one returns.
    pub fn exec_seq(&mut self, fns: &Vec<FnDef>, stmts: &Vec<Stmt>, f: u64) -> (r: Result<Control, LangError>)
        requires
            old(self).ok(),
        ensures
            final(self).ok(),
            final(self).env.temp_borrow_log@.len() == old(self).env.temp_borrow_log@.len(),
            final(self).env.borrow_log@.len() >= old(self).env.borrow_log@.len(),
            final(self).env.scopes@.len() >= old(self).env.scopes@.len(),
            r is Ok ==> final(self).env.same_shape(&old(self).env),
            ran(r, final(self)@, exec_seq(f as nat, fns_view(fns@), old(self)@, stmts_view(stmts@), 0)),
        decreases f, ssizes(stmts_view(stmts@)) + 1, stmts@.len() + 1,
    {
        let ghost sv = stmts_view(stmts@);
        let ghost goal = exec_seq(f as nat, fns_view(fns@), self@, sv, 0);
        let mut i: usize = 0;
        while i < stmts.len()
            invariant
                self.ok(),
                i <= stmts@.len(),
                sv == stmts_view(stmts@),
                exec_seq(f as nat, fns_view(fns@), self@, sv, i as int) == goal,
                goal == exec_seq(f as nat, fns_view(fns@), old(self)@, stmts_view(stmts@), 0),
                self.env.temp_borrow_log@.len() == old(self).env.temp_borrow_log@.len(),
                self.env.same_shape(&old(self).env),
            decreases stmts@.len() - i,
        {
            proof {
                lemma_ssizes(sv, i as int);
            }
            let c = self.exec_stmt(fns, &stmts[i], f)?;
            if let Control::Return(_) = c {
                return Ok(c);
            }
            i += 1;
        }
        Ok(Control::Normal)
    }

    /// A block: its statements run in a new scope.
    pub fn exec_block(&mut self, fns: &Vec<FnDef>, body: &Vec<Stmt>, f: u64) -> (r: Result<Control, LangError>)
        requires
            old(self).ok(),
        ensures
            final(self).ok(),
            final(self).env.temp_borrow_log@.len() == old(self).env.temp_borrow_log@.len(),
            final(self).env.borrow_log@.len() >= old(self).env.borrow_log@.len(),
            final(self).env.scopes@.len() >= old(self).env.scopes@.len(),
            r is Ok ==> final(self).env.same_shape(&old(self).env),
            ran(r, final(self)@, exec_block(f as nat, fns_view(fns@), old(self)@, stmts_view(body@))),
        decreases f, ssizes(stmts_view(body@)) + 1, body@.len() + 2,
    {
        self.env.push_scope();
        let c = self.exec_seq(fns, body, f)?;
        self.env.pop_scope()?;
        Ok(c)
    }

    /// The iterations of a `for` loop over `elems`.
    pub fn for_iter(&mut self, fns: &Vec<FnDef>, var: &String, body: &Vec<Stmt>, elems: Vec<Value>, f: u64) -> (r: Result<Control, LangError>)
        requires
            old(self).ok(),
        ensures
            final(self).ok(),
            final(self).env.temp_borrow_log@.len() == old(self).env.temp_borrow_log@.len(),
            final(self).env.borrow_log@.len() >= old(self).env.borrow_log@.len(),
            final(self).env.scopes@.len() >= old(self).env.scopes@.len(),
            r is Ok ==> final(self).env.same_shape(&old(self).env),
            ran(r, final(self)@, for_iter(f as nat, fns_view(fns@), old(self)@, var@, stmts_view(body@), values_view(elems@), 0)),
        decreases f, ssizes(stmts_view(body@)) + 1, body@.len() + 3 + elems@.len(),
    {
        let ghost bv = stmts_view(body@);
        let ghost ev = values_view(elems@);
        let ghost goal = for_iter(f as nat, fns_view(fns@), self@, var@, bv, ev, 0);
        let mut k: usize = 0;
        while k < elems.len()
            invariant
                self.ok(),
                k <= elems@.len(),
                bv == stmts_view(body@),
                ev == values_view(elems@),
                for_iter(f as nat, fns_view(fns@), self@, var@, bv, ev, k as int) == goal,
                goal == for_iter(f as nat, fns_view(fns@), old(self)@, var@, stmts_view(body@), values_view(elems@), 0),
                self.env.temp_borrow_log@.len() == old(self).env.temp_borrow_log@.len(),
                self.env.same_shape(&old(self).env),
            decreases elems@.len() - k,
        {
            self.env.push_scope();
            self.env.define(var.clone(), elems[k].deep_clone());
            let c = self.exec_seq(fns, body, f)?;
            self.env.pop_scope()?;
            if let Control::Return(_) = c {
                return Ok(c);
            }
            k += 1;
        }
        Ok(Control::Normal)
    }

    /// The line that `print` writes.
    pub fn print_step(&mut self, fns: &Vec<FnDef>, expr: &Expr, f: u64) -> (r: Result<(), LangError>)
        requires
            old(self).ok(),
        ensures
            final(self).ok(),
            final(self).env.temp_borrow_log@.len() == old(self).env.temp_borrow_log@.len(),
            final(self).env.borrow_log@.len() >= old(self).env.borrow_log@.len(),
            final(self).env.scopes@.len() >= old(self).env.scopes@.len(),
            r is Ok ==> final(self).env.same_shape(&old(self).env),
            ran(r, final(self)@, print_step(f as nat, fns_view(fns@), old(self)@, expr@)),
        decreases f, esize(expr@) + 1, 6int,
    {
        let v = self.eval_expr(fns, expr, f)?;
        let line = self.format_value(&v, u64::MAX)?;
        let ghost o = self.out@;
        proof {
            crate::ast::lemma_strings_push(o, line);
        }
        self.out.push(line);
        Ok(())
    }

    /// Runs a statement.
    pub fn exec_stmt(&mut self, fns: &Vec<FnDef>, s: &Stmt, f: u64) -> (r: Result<Control, LangError>)
        requires
            old(self).ok(),
        ensures
            final(self).ok(),
            final(self).env.temp_borrow_log@.len() == old(self).env.temp_borrow_log@.len(),
            final(self).env.borrow_log@.len() >= old(self).env.borrow_log@.len(),
            final(self).env.scopes@.len() >= old(self).env.scopes@.len(),
            r is Ok ==> final(self).env.same_shape(&old(self).env),
            ran(r, final(self)@, exec_stmt(f as nat, fns_view(fns@), old(self)@, s@)),
        decreases f, ssize(s@), 1int,
    {
        match s {
            Stmt::Let { name, expr } => {
                let v = self.eval_expr(fns, expr, f)?;
                self.env.define(name.clone(), v);
                Ok(Control::Normal)
            },
            Stmt::Assign { name, expr } => {
                let v = self.eval_expr(fns, expr, f)?;
                self.env.assign(name, v)?;
                Ok(Control::Normal)
            },
            Stmt::Print { expr } => self.exec_print(fns, expr, f),
            Stmt::ExprStmt { expr } => self.exec_expr_stmt(fns, expr, f),
            Stmt::Return(e) => {
                let v = self.eval_expr(fns, e, f)?;
                Ok(Control::Return(v))
            },
            Stmt::If { cond, then_body, else_body } => self.exec_if(fns, cond, then_body, else_body, f),
            Stmt::For { var, iter, body } => self.exec_for(fns, var, iter, body, f),
        }
    }

    /// `print(e);`, with the borrows taken while evaluating `e` given back at its end.
    pub fn exec_print(&mut self, fns: &Vec<FnDef>, expr: &Expr, f: u64) -> (r: Result<Control, LangError>)
        requires
            old(self).ok(),
        ensures
            final(self).ok(),
            final(self).env.temp_borrow_log@.len() == old(self).env.temp_borrow_log@.len(),
            final(self).env.borrow_log@.len() >= old(self).env.borrow_log@.len(),
            final(self).env.scopes@.len() >= old(self).env.scopes@.len(),
            r is Ok ==> final(self).env.same_shape(&old(self).env),
            ran(r, final(self)@, exec_stmt(f as nat, fns_view(fns@), old(self)@, SpecStmt::Print { expr: expr@ })),
        decreases f, esize(expr@) + 2, 0int,
    {
        self.env.push_temp_frame();
        let res = self.print_step(fns, expr, f);
        let pop_res = self.env.pop_temp_frame_release();
        res?;
        pop_res?;
        Ok(Control::Normal)
    }

    /// `e;`, with the borrows taken while evaluating `e` given back at its end.
    pub fn exec_expr_stmt(&mut self, fns: &Vec<FnDef>, expr: &Expr, f: u64) -> (r: Result<Control, LangError>)
        requires
            old(self).ok(),
        ensures
            final(self).ok(),
            final(self).env.temp_borrow_log@.len() == old(self).env.temp_borrow_log@.len(),
            final(self).env.borrow_log@.len() >= old(self).env.borrow_log@.len(),
            final(self).env.scopes@.len() >= old(self).env.scopes@.len(),
            r is Ok ==> final(self).env.same_shape(&old(self).env),
            ran(r, final(self)@, exec_stmt(f as nat, fns_view(fns@), old(self)@, SpecStmt::ExprStmt { expr: expr@ })),
        decreases f, esize(expr@) + 2, 0int,
    {
        self.env.push_temp_frame();
        let res = self.eval_expr(fns, expr, f);
        let pop_res = self.env.pop_temp_frame_release();
        res?;
        pop_res?;
        Ok(Control::Normal)
    }

    /// `if cond { .. } else { .. }`.
    pub fn exec_if(
        &mut self,
        fns: &Vec<FnDef>,
        cond: &Expr,
        then_body: &Vec<Stmt>,
        else_body: &Vec<Stmt>,
        f: u64,
    ) -> (r: Result<Control, LangError>)
        requires
            old(self).ok(),
        ensures
            final(self).ok(),
            final(self).env.temp_borrow_log@.len() == old(self).env.temp_borrow_log@.len(),
            final(self).env.borrow_log@.len() >= old(self).env.borrow_log@.len(),
            final(self).env.scopes@.len() >= old(self).env.scopes@.len(),
            r is Ok ==> final(self).env.same_shape(&old(self).env),
            ran(
                r,
                final(self)@,
                exec_stmt(
                    f as nat,
                    fns_view(fns@),
                    old(self)@,
                    SpecStmt::If {
                        cond: cond@,
                        then_body: stmts_view(then_body@),
                        else_body: stmts_view(else_body@),
                    },
                ),
            ),
        decreases f, esize(cond@) + ssizes(stmts_view(then_body@)) + ssizes(stmts_view(else_body@)) + 2, 0int,
    {
        let cond_v = self.eval_expr(fns, cond, f)?;
        let cond_r = self.resolve_value_for_read(&cond_v)?;
        let b = match cond_r {
            Value::Bool(x) => x,
            _ => return Err(runtime_error("if condition must be Bool (true/false)")),
        };
        if b {
            self.exec_block(fns, then_body, f)
        } else {
            self.exec_block(fns, else_body, f)
        }
    }

    /// `for var in iter { .. }`.
    pub fn exec_for(&mut self, fns: &Vec<FnDef>, var: &String, iter: &Expr, body: &Vec<Stmt>, f: u64) -> (r: Result<Control, LangError>)
        requires
            old(self).ok(),
        ensures
            final(self).ok(),
            final(self).env.temp_borrow_log@.len() == old(self).env.temp_borrow_log@.len(),
            final(self).env.borrow_log@.len() >= old(self).env.borrow_log@.len(),
            final(self).env.scopes@.len() >= old(self).env.scopes@.len(),
            r is Ok ==> final(self).env.same_shape(&old(self).env),
            ran(
                r,
                final(self)@,
                exec_stmt(
                    f as nat,
                    fns_view(fns@),
                    old(self)@,
                    SpecStmt::For { var: var@, iter: iter@, body: stmts_view(body@) },
                ),
            ),
        decreases f, esize(iter@) + ssizes(stmts_view(body@)) + 2, 0int,
    {
        let v = self.eval_expr(fns, iter, f)?;
        let elems = match v {
            Value::Vec(xs) => xs,
            _ => return Err(runtime_error("for expects a vector value (moved)")),
        };
        self.for_iter(fns, var, body, elems, f)
    }

    /// The text that `print` writes for a value.
    pub fn format_value(&self, v: &Value, g: u64) -> (r: Result<String, LangError>)
        ensures
            match format_value(g as nat, self.env@, v@) {
                Ok(t) => r matches Ok(x) && x@ == t,
                Err(e) => r matches Err(x) && x@ == e,
            },
        decreases g, 1int, 0int,
    {
        if g == 0 {
            return Err(runtime_error("Nesting limit reached"));
        }
        let resolved = self.resolve_value_for_read(v)?;
        match resolved {
            Value::Int(n) => Ok(int_to_string(n)),
            Value::Bool(b) => Ok(if b { String::from_str("true") } else { String::from_str("false") }),
            Value::Str(s) => Ok(str_debug(s.as_str())),
            Value::Vec(xs) => {
                let inner = self.format_elems(&xs, g - 1)?;
                Ok(cat3("[", inner.as_str(), "]"))
            },
            Value::Unit => Ok(String::from_str("()")),
            Value::Ref(_, _) => Err(runtime_error("internal error: entered unreachable code: resolved above")),
        }
    }

    /// The elements of a vector, formatted and joined by `, `.
    pub fn format_elems(&self, xs: &Vec<Value>, g: u64) -> (r: Result<String, LangError>)
        ensures
            match format_elems(g as nat, self.env@, values_view(xs@), 0, Seq::empty()) {
                Ok(t) => r matches Ok(x) && x@ == t,
                Err(e) => r matches Err(x) && x@ == e,
            },
        decreases g, 2int, 0int,
    {
        let ghost xv = values_view(xs@);
        let ghost goal = format_elems(g as nat, self.env@, xv, 0, Seq::empty());
        let mut acc = String::new();
        let mut i: usize = 0;
        while i < xs.len()
            invariant
                i <= xs@.len(),
                xv == values_view(xs@),
                format_elems(g as nat, self.env@, xv, i as int, acc@) == goal,
                goal == format_elems(g as nat, self.env@, values_view(xs@), 0, Seq::empty()),
            decreases xs@.len() - i,
        {
            assert(xv[i as int] == xs@[i as int]@);
            let item = match self.format_value(&xs[i], g) {
                Ok(t) => t,
                Err(x) => {
                    assert(format_elems(g as nat, self.env@, xv, i as int, acc@) == Err::<Seq<char>, SpecError>(x@));
                    return Err(x);
                },
            };
            if i == 0 {
                acc = acc.concat(item.as_str());
            } else {
                acc = acc.concat(", ").concat(item.as_str());
            }
            i += 1;
        }
        Ok(acc)
    }
}

/// The position of the function named `name`.
pub fn find_fn(fns: &Vec<FnDef>, name: &String) -> (r: Option<usize>)
    ensures
        match r {
            Some(k) => k < fns@.len() && fn_find(fns_view(fns@), name@, 0) == Some(k as int),
            None => fn_find(fns_view(fns@), name@, 0) is None,
        },
{
    let ghost fv = fns_view(fns@);
    let mut i: usize = 0;
    while i < fns.len()
        invariant
            i <= fns@.len(),
            fv == fns_view(fns@),
            fn_find(fv, name@, 0) == fn_find(fv, name@, i as int),
        decreases fns@.len() - i,
    {
        if fns[i].name.eq(name) {
            assert(fv[i as int].name == name@);
            return Some(i);
        }
        i += 1;
    }
    None
}


/// A tree-walking interpreter: the functions it knows and the running state,
/// whose output lines it keeps in order.
pub struct Interpreter {
    state: State,
    fns: Vec<FnDef>,
}

impl Interpreter {
    /// The functions registered so far, in order.
    pub closed spec fn functions(&self) -> Seq<SpecFnDef> {
        fns_view(self.fns@)
    }

    /// The environment and the lines printed so far.
    pub closed spec fn state(&self) -> SState {
        self.state@
    }

    pub closed spec fn wf(&self) -> bool {
        self.state.ok()
    }

    /// An interpreter with no function, one empty global scope and no output.
    pub fn new() -> (r: Interpreter)
        ensures
            r.wf(),
            r.functions() == Seq::<SpecFnDef>::empty(),
            r.state() == (SState {
                env: s_push_scope(SEnv { scopes: Seq::empty(), log: Seq::empty(), temp: Seq::empty() }),
                out: Seq::empty(),
            }),
    {
        let r = Interpreter { state: State { env: Env::new(), out: Vec::new() }, fns: Vec::new() };
        proof {
            assert(strings_view(r.state.out@) =~= Seq::<Seq<char>>::empty());
            assert(fns_view(r.fns@) =~= Seq::<SpecFnDef>::empty());
        }
        r
    }

    /// The lines printed so far, in order.
    pub fn output(&self) -> (r: &Vec<String>)
        ensures
            strings_view(r@) == self.state().out,
    {
        &self.state.out
    }

    /// Runs a program: its functions are registered first (a name taken twice is an
    /// error, and nothing runs), then its top-level statements run in order.
    pub fn run(&mut self, p: Program) -> (r: Result<(), LangError>)
        requires
            old(self).wf(),
        ensures
            final(self).wf(),
            borrows_exclusive(final(self).state().env),
            final(self).functions() == register_fns(old(self).functions(), p@, 0).0,
            ran(r, final(self).state(), run_program(old(self).functions(), old(self).state(), p@)),
    {
        let ghost iv = p@;
        let stmts = match register_and_split(&mut self.fns, p.items) {
            Ok(stmts) => stmts,
            Err(name) => {
                return Err(LangError::Runtime(cat2("Duplicate function: ", name.as_str())));
            },
        };
        self.state.run_top(&self.fns, &stmts)
    }
}

/// Registers the functions of `items` after `fns`, in order, and gives back the
/// top-level statements in order; a function whose name is taken stops it, and its
/// name is the error.
pub fn register_and_split(fns: &mut Vec<FnDef>, items: Vec<Item>) -> (r: Result<Vec<Stmt>, String>)
    ensures
        fns_view(final(fns)@) == register_fns(fns_view(old(fns)@), items_view(items@), 0).0,
        match register_fns(fns_view(old(fns)@), items_view(items@), 0).1 {
            Some(name) => r matches Err(n) && n@ == name,
            None => r matches Ok(v) && stmts_view(v@) == top_stmts(items_view(items@), 0),
        },
{
    let ghost iv = items_view(items@);
    let ghost reg = register_fns(fns_view(fns@), iv, 0);
    let mut rest = items;
    let mut stmts: Vec<Stmt> = Vec::new();
    let ghost mut k: int = 0;
    proof {
        assert(stmts_view(stmts@) =~= Seq::<SpecStmt>::empty());
        assert(Seq::<SpecStmt>::empty() + top_stmts(iv, 0) =~= top_stmts(iv, 0));
        assert(items_view(rest@) =~= iv.subrange(0, iv.len() as int));
    }
    while rest.len() > 0
        invariant
            0 <= k <= iv.len(),
            items_view(rest@) == iv.subrange(k, iv.len() as int),
            iv == items_view(items@),
            reg == register_fns(fns_view(old(fns)@), iv, 0),
            register_fns(fns_view(fns@), iv, k) == reg,
            stmts_view(stmts@) + top_stmts(iv, k) == top_stmts(iv, 0),
        decreases rest@.len(),
    {
        assert(items_view(rest@)[0] == rest@[0]@);
        let ghost before = rest@;
        assert(items_view(before).len() == before.len());
        assert(iv.subrange(k, iv.len() as int).len() == iv.len() - k);
        assert(k < iv.len());
        let it = rest.remove(0);
        proof {
            assert(rest@ =~= before.subrange(1, before.len() as int));
            assert forall|j: int| 0 <= j < rest@.len() implies items_view(rest@)[j] == iv[k + 1 + j] by {
                assert(items_view(before)[j + 1] == iv.subrange(k, iv.len() as int)[j + 1]);
            }
            assert(items_view(rest@) =~= iv.subrange(k + 1, iv.len() as int));
        }
        match it {
            Item::Fn(fd) => {
                match find_fn(fns, &fd.name) {
                    Some(_) => {
                        return Err(fd.name);
                    },
                    None => {
                        proof {
                            lemma_fns_push(fns@, fd);
                        }
                        fns.push(fd);
                    },
                }
            },
            Item::Stmt(st) => {
                proof {
                    lemma_stmts_push(stmts@, st);
                    assert(stmts_view(stmts@.push(st)) + top_stmts(iv, k + 1) =~= stmts_view(stmts@)
                        + top_stmts(iv, k));
                }
                stmts.push(st);
            },
        }
        proof {
            k = k + 1;
        }
    }
    proof {
        assert(top_stmts(iv, k) =~= Seq::<SpecStmt>::empty());
        assert(stmts_view(stmts@) =~= top_stmts(iv, 0));
    }
    Ok(stmts)
}

impl State {
    /// Runs top-level statements in order; a `return` among them is an error.
    pub fn run_top(&mut self, fns: &Vec<FnDef>, stmts: &Vec<Stmt>) -> (r: Result<(), LangError>)
        requires
            old(self).ok(),
        ensures
            final(self).ok(),
            ran(r, final(self)@, run_top(fns_view(fns@), old(self)@, stmts_view(stmts@), 0)),
    {
        let ghost sv = stmts_view(stmts@);
        let ghost goal = run_top(fns_view(fns@), self@, sv, 0);
        let mut i: usize = 0;
        while i < stmts.len()
            invariant
                self.ok(),
                i <= stmts@.len(),
                sv == stmts_view(stmts@),
                run_top(fns_view(fns@), self@, sv, i as int) == goal,
                goal == run_top(fns_view(fns@), old(self)@, stmts_view(stmts@), 0),
            decreases stmts@.len() - i,
        {
            assert(sv[i as int] == stmts@[i as int]@);
            let c = self.exec_stmt(fns, &stmts[i], u64::MAX)?;
            if let Control::Return(_) = c {
                return Err(runtime_error("return is only allowed inside functions"));
            }
            i += 1;
        }
        Ok(())
    }
}

pub proof fn lemma_fns_push(s: Seq<FnDef>, x: FnDef)
    ensures
        fns_view(s.push(x)) == fns_view(s).push(x@),
{
    assert(fns_view(s.push(x)) =~= fns_view(s).push(x@));
}

} // verus!
