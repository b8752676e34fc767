use vstd::prelude::*;
use vstd::string::StringExecFns;
use vstd::utf8::encode_utf8;

use crate::ast::{lemma_strings_push, strings_view};
use crate::bytecode::{chunks_view, fn_chunk, find_fn_chunk, BytecodeProgram, ChunkId, Instr, LoadMode, LocalId, Mutability, SBytecode, StrId};
use crate::error::{LangError, SpecError};
use crate::interpreter::{div_trunc, div_trunc_exec, overflow_error, overflow_msg, rem_trunc, rem_trunc_exec, usize_to_string};
use crate::interpreter::env::rt;
use crate::text::{cat2, cat3, debug_str, int_decimal, int_to_string, nat_decimal, str_debug};

verus! {

// ---------------------------------------------------------------------------
// The model of the machine.
// ---------------------------------------------------------------------------

/// The model of a value of the machine.
pub enum VValue {
    Int(i64),
    Bool(bool),
    Str(Seq<char>),
    Vec(Seq<VValue>),
    Unit,
    Ref(VRef, Mutability),
}

/// What a reference of the machine points at: a local, or an element of the
/// vector in a local.
#[derive(Debug, Clone, Copy, PartialEq, Eq, Structural)]
pub enum RefTarget {
    Local(LocalId),
    VecElem { local: LocalId, index: usize },
}

pub type VRef = RefTarget;

pub struct VSlot {
    pub value: Option<VValue>,
    pub immut: usize,
    pub mut_: bool,
}

pub type VLog = Seq<(VRef, Mutability)>;

/// The locals of a frame with their borrows, and the logs of borrows to give back
/// at the end of each scope and of each statement.
pub struct VEnv {
    pub locals: Seq<VSlot>,
    pub scope_log: Seq<VLog>,
    pub temp_log: Seq<VLog>,
}

pub struct VFrame {
    pub chunk: ChunkId,
    pub ip: usize,
    pub stack_base: usize,
    pub env: VEnv,
}

pub struct VLoop {
    pub var: LocalId,
    pub elems: Seq<VValue>,
    pub idx: usize,
    pub body_start: usize,
    pub end: usize,
}

/// The machine: its program, the running frame's environment, the value stack,
/// the frames of the callers, the running `for` loops and the lines printed.
pub struct VState {
    pub bc: SBytecode,
    pub env: VEnv,
    pub stack: Seq<VValue>,
    pub callstack: Seq<VFrame>,
    pub loops: Seq<VLoop>,
    pub out: Seq<Seq<char>>,
}

/// What a step of the machine leaves: the state and where it goes on, or the
/// state when the program has ended, or the error that stopped it.
pub enum VStep {
    Next(VState, ChunkId, usize),
    Halt(VState),
    Fail(SpecError),
}

pub open spec fn bad_local() -> SpecError {
    SpecError::Runtime("Internal: bad local id"@)
}

pub open spec fn fresh_vslot() -> VSlot {
    VSlot { value: None, immut: 0, mut_: false }
}

/// An environment with `n` empty locals and one scope.
pub open spec fn env_with(n: nat) -> VEnv {
    VEnv { locals: Seq::new(n, |i: int| fresh_vslot()), scope_log: seq![Seq::empty()], temp_log: Seq::empty() }
}

pub open spec fn put_slot(e: VEnv, l: LocalId, s: VSlot) -> VEnv {
    VEnv { locals: e.locals.update(l as int, s), ..e }
}

/// Logs a borrow: in the innermost statement log if there is one, else in the
/// innermost scope's log.
pub open spec fn v_record(e: VEnv, t: VRef, m: Mutability) -> VEnv {
    if e.temp_log.len() > 0 {
        VEnv { temp_log: e.temp_log.update(e.temp_log.len() - 1, e.temp_log.last().push((t, m))), ..e }
    } else if e.scope_log.len() > 0 {
        VEnv { scope_log: e.scope_log.update(e.scope_log.len() - 1, e.scope_log.last().push((t, m))), ..e }
    } else {
        e
    }
}

/// `let`: the local gets the value and loses its borrows.
pub open spec fn v_define(e: VEnv, l: LocalId, v: VValue) -> Result<VEnv, SpecError> {
    if l as int >= e.locals.len() {
        Err(bad_local())
    } else {
        Ok(put_slot(e, l, VSlot { value: Some(v), immut: 0, mut_: false }))
    }
}

/// `x = v`: refused while the local is borrowed.
pub open spec fn v_store(e: VEnv, l: LocalId, v: VValue) -> Result<VEnv, SpecError> {
    if l as int >= e.locals.len() {
        Err(bad_local())
    } else {
        let s = e.locals[l as int];
        if s.immut > 0 || s.mut_ {
            rt("Cannot assign: it is borrowed"@)
        } else {
            Ok(put_slot(e, l, VSlot { value: Some(v), ..s }))
        }
    }
}

/// Reads a local: a copy of an integer or a boolean, else the value moved out
/// (or, with `Peek`, a copy).
pub open spec fn v_load(e: VEnv, l: LocalId, mode: LoadMode) -> Result<(VValue, VEnv), SpecError> {
    if l as int >= e.locals.len() {
        Err(bad_local())
    } else {
        let s = e.locals[l as int];
        match s.value {
            None => rt("Use after move"@),
            Some(v) => if mode == LoadMode::Peek || v is Int || v is Bool {
                Ok((v, e))
            } else {
                Ok((v, put_slot(e, l, VSlot { value: None, ..s })))
            },
        }
    }
}

/// Borrows a local: shared borrows may stand together, a mutable one stands alone.
pub open spec fn v_acquire(e: VEnv, l: LocalId, m: Mutability) -> Result<VEnv, SpecError> {
    if l as int >= e.locals.len() {
        Err(bad_local())
    } else {
        let s = e.locals[l as int];
        if s.value is None {
            rt("Cannot borrow: value was moved"@)
        } else {
            match m {
                Mutability::Imm => if s.mut_ {
                    rt("Cannot immut-borrow: mut-borrowed"@)
                } else if s.immut == usize::MAX {
                    rt("Too many borrows"@)
                } else {
                    Ok(v_record(put_slot(e, l, VSlot { immut: (s.immut + 1) as usize, ..s }), RefTarget::Local(l), m))
                },
                Mutability::Mut => if s.mut_ || s.immut > 0 {
                    rt("Cannot mut-borrow: already borrowed"@)
                } else {
                    Ok(v_record(put_slot(e, l, VSlot { mut_: true, ..s }), RefTarget::Local(l), m))
                },
            }
        }
    }
}

pub open spec fn ref_local(t: VRef) -> LocalId {
    match t {
        RefTarget::Local(l) => l,
        RefTarget::VecElem { local, .. } => local,
    }
}

/// Gives back one borrow.
pub open spec fn v_release(e: VEnv, t: VRef, m: Mutability) -> Result<VEnv, SpecError> {
    let l = ref_local(t);
    if l as int >= e.locals.len() {
        Err(bad_local())
    } else {
        let s = e.locals[l as int];
        match m {
            Mutability::Imm => if s.immut == 0 {
                rt("Internal: immut borrow underflow"@)
            } else {
                Ok(put_slot(e, l, VSlot { immut: (s.immut - 1) as usize, ..s }))
            },
            Mutability::Mut => if !s.mut_ {
                rt("Internal: mut borrow underflow"@)
            } else {
                Ok(put_slot(e, l, VSlot { mut_: false, ..s }))
            },
        }
    }
}

/// Gives back the first `n` borrows of `log`, the last logged first.
pub open spec fn v_release_all(e: VEnv, log: VLog, n: int) -> Result<VEnv, SpecError>
    decreases n,
{
    if n <= 0 || n > log.len() {
        Ok(e)
    } else {
        match v_release(e, log[n - 1].0, log[n - 1].1) {
            Err(x) => Err(x),
            Ok(e2) => v_release_all(e2, log, n - 1),
        }
    }
}

/// Ends the innermost scope: gives back its borrows.
pub open spec fn v_exit_scope(e: VEnv) -> Result<VEnv, SpecError> {
    if e.scope_log.len() == 0 {
        rt("Internal: scope underflow"@)
    } else {
        let log = e.scope_log.last();
        v_release_all(VEnv { scope_log: e.scope_log.drop_last(), ..e }, log, log.len() as int)
    }
}

/// Ends a statement's temporary borrows: gives them back.
pub open spec fn v_temp_exit(e: VEnv) -> Result<VEnv, SpecError> {
    if e.temp_log.len() == 0 {
        rt("Internal: temp scope underflow"@)
    } else {
        let log = e.temp_log.last();
        v_release_all(VEnv { temp_log: e.temp_log.drop_last(), ..e }, log, log.len() as int)
    }
}

/// Ends every scope but the outermost, innermost first (at `return`).
pub open spec fn v_unwind(e: VEnv, fuel: nat) -> Result<VEnv, SpecError>
    decreases fuel,
{
    if e.scope_log.len() <= 1 || fuel == 0 {
        Ok(e)
    } else {
        match v_exit_scope(e) {
            Err(x) => Err(x),
            Ok(e2) => v_unwind(e2, (fuel - 1) as nat),
        }
    }
}

/// What a value reads as: a reference stands for what it points at.
pub open spec fn v_resolve(e: VEnv, v: VValue) -> Result<VValue, SpecError> {
    match v {
        VValue::Ref(RefTarget::Local(l), _) => if l as int >= e.locals.len() {
            Err(bad_local())
        } else {
            match e.locals[l as int].value {
                None => rt("Use after move"@),
                Some(x) => Ok(x),
            }
        },
        VValue::Ref(RefTarget::VecElem { local, index }, _) => if local as int >= e.locals.len() {
            Err(bad_local())
        } else {
            match e.locals[local as int].value {
                None => rt("Use after move"@),
                Some(VValue::Vec(xs)) => if index >= xs.len() {
                    rt("Index out of bounds: "@ + nat_decimal(index as nat))
                } else {
                    Ok(xs[index as int])
                },
                Some(_) => rt("Internal: VecElem base not vec"@),
            }
        },
        _ => Ok(v),
    }
}

/// The text that `print` writes for a value.
pub open spec fn v_format(g: nat, e: VEnv, v: VValue) -> Result<Seq<char>, SpecError>
    decreases g, 1int, 0int,
{
    if g == 0 {
        rt("Nesting limit reached"@)
    } else {
        match v {
            VValue::Int(n) => Ok(int_decimal(n as int)),
            VValue::Bool(b) => Ok(if b { "true"@ } else { "false"@ }),
            VValue::Str(s) => Ok(debug_str(s)),
            VValue::Vec(xs) => match v_format_elems((g - 1) as nat, e, xs, 0, Seq::empty()) {
                Err(x) => Err(x),
                Ok(inner) => Ok("["@ + inner + "]"@),
            },
            VValue::Unit => Ok("()"@),
            VValue::Ref(_, _) => match v_resolve(e, v) {
                Err(x) => Err(x),
                Ok(r) => v_format((g - 1) as nat, e, r),
            },
        }
    }
}

/// The elements of a vector from `i` on, joined by `, ` after the text `acc`.
pub open spec fn v_format_elems(g: nat, e: VEnv, xs: Seq<VValue>, i: int, acc: Seq<char>) -> Result<Seq<char>, SpecError>
    decreases g, 2int, xs.len() - i,
{
    if i < 0 || i >= xs.len() {
        Ok(acc)
    } else {
        match v_format(g, e, xs[i]) {
            Err(x) => Err(x),
            Ok(item) => v_format_elems(g, e, xs, i + 1, if i == 0 { acc + item } else { acc + ", "@ + item }),
        }
    }
}

/// A read gives back what a write wrote: after `DefineLocal`, and after a
/// `StoreLocal` that is not refused, the local reads as the value stored.
pub proof fn law_read_after_write(e: VEnv, l: LocalId, v: VValue)
    ensures
        v_define(e, l, v) matches Ok(e2) ==> v_load(e2, l, LoadMode::Peek) matches Ok((x, e3)) && x == v && e3
            == e2,
        v_store(e, l, v) matches Ok(e2) ==> v_load(e2, l, LoadMode::Peek) matches Ok((x, e3)) && x == v && e3
            == e2,
{
}

/// A local cannot be assigned, nor borrowed mutably, while it is borrowed; it
/// cannot be borrowed shared while it is borrowed mutably.
pub proof fn law_borrows_refused_while_borrowed(e: VEnv, l: LocalId, v: VValue)
    requires
        (l as int) < e.locals.len(),
    ensures
        ({
            let s = e.locals[l as int];
            &&& (s.immut > 0 || s.mut_) ==> v_store(e, l, v) is Err
            &&& (s.immut > 0 || s.mut_) ==> v_acquire(e, l, Mutability::Mut) is Err
            &&& s.mut_ ==> v_acquire(e, l, Mutability::Imm) is Err
        }),
{
}

/// Borrowing a local and giving the borrow back leaves every local as it was.
pub proof fn law_release_undoes_borrow(e: VEnv, l: LocalId, m: Mutability)
    ensures
        v_acquire(e, l, m) matches Ok(e2) ==> (v_release(e2, RefTarget::Local(l), m) matches Ok(e3) && e3.locals
            == e.locals),
{
    if let Ok(e2) = v_acquire(e, l, m) {
        let s = e.locals[l as int];
        let e3 = match v_release(e2, RefTarget::Local(l), m) {
            Ok(x) => x,
            Err(_) => e2,
        };
        assert(e3.locals =~= e.locals);
    }
}

/// On the machine as in the interpreter, division and remainder by zero are
/// runtime errors, whatever the dividend, and division rounds toward zero.
pub proof fn law_division_by_zero(x: i64, y: i64)
    ensures
        v_arith(Instr::Div, VValue::Int(x), VValue::Int(0)) == rt::<VValue>("Division by zero"@),
        v_arith(Instr::Mod, VValue::Int(x), VValue::Int(0)) == rt::<VValue>("Modulo by zero"@),
        y != 0 && !(x == i64::MIN && y == -1) ==> v_arith(Instr::Div, VValue::Int(x), VValue::Int(y))
            == Ok::<VValue, SpecError>(VValue::Int(div_trunc(x, y))),
        y != 0 && !(x == i64::MIN && y == -1) ==> v_arith(Instr::Mod, VValue::Int(x), VValue::Int(y))
            == Ok::<VValue, SpecError>(VValue::Int(rem_trunc(x, y))),
{
}

/// The machine's operators on two integers on top of the stack replace them with
/// the integer answer: comparisons by the integer order (`<` and `>` strict,
/// `<=` and `>=` not), equality tests, and the exact sum, difference and product
/// where they fit in 64 bits.
pub proof fn law_integer_instructions(m: VState, s: Seq<VValue>, chunk: ChunkId, ip: usize, x: i64, y: i64)
    requires
        m.stack == s.push(VValue::Int(x)).push(VValue::Int(y)),
    ensures
        v_exec(m, chunk, ip, Instr::Lt) == VStep::Next(with_stack(m, s.push(VValue::Bool(x < y))), chunk, ip),
        v_exec(m, chunk, ip, Instr::Le) == VStep::Next(with_stack(m, s.push(VValue::Bool(x <= y))), chunk, ip),
        v_exec(m, chunk, ip, Instr::Gt) == VStep::Next(with_stack(m, s.push(VValue::Bool(x > y))), chunk, ip),
        v_exec(m, chunk, ip, Instr::Ge) == VStep::Next(with_stack(m, s.push(VValue::Bool(x >= y))), chunk, ip),
        v_exec(m, chunk, ip, Instr::Eq) == VStep::Next(with_stack(m, s.push(VValue::Bool(x == y))), chunk, ip),
        v_exec(m, chunk, ip, Instr::Ne) == VStep::Next(with_stack(m, s.push(VValue::Bool(x != y))), chunk, ip),
        i64::MIN <= x + y <= i64::MAX ==> v_exec(m, chunk, ip, Instr::Add) == VStep::Next(
            with_stack(m, s.push(VValue::Int((x + y) as i64))),
            chunk,
            ip,
        ),
        i64::MIN <= x - y <= i64::MAX ==> v_exec(m, chunk, ip, Instr::Sub) == VStep::Next(
            with_stack(m, s.push(VValue::Int((x - y) as i64))),
            chunk,
            ip,
        ),
        i64::MIN <= x * y <= i64::MAX ==> v_exec(m, chunk, ip, Instr::Mul) == VStep::Next(
            with_stack(m, s.push(VValue::Int((x * y) as i64))),
            chunk,
            ip,
        ),
{
    let n = m.stack.len();
    assert(m.stack.subrange(0, n - 2) =~= s);
    assert(m.stack[n - 2] == VValue::Int(x));
    assert(m.stack[n - 1] == VValue::Int(y));
}

/// `Neg` replaces an integer on top of the stack with its opposite; `Jump` goes
/// to its target; `JumpIfFalse` pops a boolean and goes on with the next
/// instruction when it is `true`, to its target when it is `false`.
pub proof fn law_negation_and_jumps(m: VState, s: Seq<VValue>, chunk: ChunkId, ip: usize, x: i64, b: bool, to: usize)
    ensures
        (m.stack == s.push(VValue::Int(x)) && x != i64::MIN) ==> v_exec(m, chunk, ip, Instr::Neg) == VStep::Next(
            with_stack(m, s.push(VValue::Int((-x) as i64))),
            chunk,
            ip,
        ),
        v_exec(m, chunk, ip, Instr::Jump(to)) == VStep::Next(m, chunk, to),
        m.stack == s.push(VValue::Bool(true)) ==> v_exec(m, chunk, ip, Instr::JumpIfFalse(to)) == VStep::Next(
            with_stack(m, s),
            chunk,
            ip,
        ),
        m.stack == s.push(VValue::Bool(false)) ==> v_exec(m, chunk, ip, Instr::JumpIfFalse(to)) == VStep::Next(
            with_stack(m, s),
            chunk,
            to,
        ),
{
    if m.stack.len() > 0 {
        assert(m.stack.drop_last() =~= m.stack.subrange(0, m.stack.len() - 1));
        if m.stack == s.push(VValue::Int(x)) || m.stack == s.push(VValue::Bool(b)) || m.stack == s.push(VValue::Bool(true))
            || m.stack == s.push(VValue::Bool(false)) {
            assert(m.stack.drop_last() =~= s);
        }
    }
}

/// `Print` pops a value and adds one line after the lines printed: an integer in
/// decimal, a boolean as `true` or `false`, a string quoted; `VecMake(n)`
/// replaces the top `n` values with the vector of them, deepest first.
pub proof fn law_print_and_vec_make(m: VState, s: Seq<VValue>, xs: Seq<VValue>, chunk: ChunkId, ip: usize, v: VValue, n: i64, b: bool, t: Seq<char>)
    ensures
        (m.stack == s.push(v) && (v == VValue::Int(n) || v == VValue::Bool(b) || v == VValue::Str(t))) ==> v_exec(
            m,
            chunk,
            ip,
            Instr::Print,
        ) == VStep::Next(
            VState {
                stack: s,
                out: m.out.push(
                    match v {
                        VValue::Int(k) => int_decimal(k as int),
                        VValue::Bool(c) => if c {
                            "true"@
                        } else {
                            "false"@
                        },
                        _ => debug_str(t),
                    },
                ),
                ..m
            },
            chunk,
            ip,
        ),
        (m.stack == s + xs && xs.len() <= u32::MAX) ==> v_exec(m, chunk, ip, Instr::VecMake(xs.len() as u32))
            == VStep::Next(with_stack(m, s.push(VValue::Vec(xs))), chunk, ip),
{
    if m.stack == s.push(v) {
        assert(m.stack.drop_last() =~= s);
    }
    if m.stack == s + xs && xs.len() <= u32::MAX {
        let start = m.stack.len() - xs.len();
        assert(m.stack.subrange(0, start) =~= s);
        assert(m.stack.subrange(start, m.stack.len() as int) =~= xs);
    }
}

/// `len` on the machine counts the bytes of a string in UTF-8 and the elements of a
/// vector, and pushes that number.
pub proof fn law_len_call(m: VState, chunk: ChunkId, ip: usize, t: Seq<char>, xs: Seq<VValue>)
    ensures
        (encode_utf8(t).len() <= i64::MAX && encode_utf8(t).len() <= usize::MAX) ==> v_call_len(m, chunk, ip, seq![VValue::Str(t)]) == VStep::Next(
            push_val(m, VValue::Int(encode_utf8(t).len() as i64)),
            chunk,
            ip,
        ),
        xs.len() <= i64::MAX ==> v_call_len(m, chunk, ip, seq![VValue::Vec(xs)]) == VStep::Next(
            push_val(m, VValue::Int(xs.len() as i64)),
            chunk,
            ip,
        ),
{
    assert(seq![VValue::Str(t)][0] == VValue::Str(t));
    assert(seq![VValue::Vec(xs)][0] == VValue::Vec(xs));
}

/// Integer arithmetic never wraps: a sum, difference or product outside 64 bits,
/// `i64::MIN / -1` and `i64::MIN % -1` are runtime errors, as is negating `i64::MIN`.
pub proof fn law_overflow_is_an_error(x: i64, y: i64, m: VState, chunk: ChunkId, ip: usize)
    requires
        m.stack.len() > 0,
        m.stack.last() == VValue::Int(i64::MIN),
    ensures
        v_arith(Instr::Add, VValue::Int(x), VValue::Int(y)) == (if i64::MIN <= x + y <= i64::MAX {
            Ok::<VValue, SpecError>(VValue::Int((x + y) as i64))
        } else {
            rt::<VValue>("Integer overflow"@)
        }),
        v_arith(Instr::Sub, VValue::Int(x), VValue::Int(y)) == (if i64::MIN <= x - y <= i64::MAX {
            Ok::<VValue, SpecError>(VValue::Int((x - y) as i64))
        } else {
            rt::<VValue>("Integer overflow"@)
        }),
        v_arith(Instr::Mul, VValue::Int(x), VValue::Int(y)) == (if i64::MIN <= x * y <= i64::MAX {
            Ok::<VValue, SpecError>(VValue::Int((x * y) as i64))
        } else {
            rt::<VValue>("Integer overflow"@)
        }),
        v_arith(Instr::Div, VValue::Int(i64::MIN), VValue::Int(-1i64)) == rt::<VValue>("Integer overflow"@),
        v_arith(Instr::Mod, VValue::Int(i64::MIN), VValue::Int(-1i64)) == rt::<VValue>("Integer overflow"@),
        v_exec(m, chunk, ip, Instr::Neg) == VStep::Fail(SpecError::Runtime("Integer overflow"@)),
{
}

// ---------------------------------------------------------------------------
// One step of the machine.
// ---------------------------------------------------------------------------

pub open spec fn with_stack(m: VState, st: Seq<VValue>) -> VState {
    VState { stack: st, ..m }
}

pub open spec fn with_env(m: VState, e: VEnv) -> VState {
    VState { env: e, ..m }
}

pub open spec fn push_val(m: VState, v: VValue) -> VState {
    with_stack(m, m.stack.push(v))
}

pub open spec fn underflow() -> SpecError {
    SpecError::Runtime("Stack underflow"@)
}

/// The top two values, the deeper one first, and the state without them.
pub open spec fn pop2(m: VState) -> Option<(VValue, VValue, VState)> {
    if m.stack.len() < 2 {
        None
    } else {
        let n = m.stack.len();
        Some((m.stack[n - 2], m.stack[n - 1], with_stack(m, m.stack.subrange(0, n - 2))))
    }
}

/// An integer read as an index or a bound: it may not be negative.
pub open spec fn to_index(x: i64, what: Seq<char>) -> Result<usize, SpecError> {
    if x < 0 {
        Err(SpecError::Runtime(what + " must be >= 0"@))
    } else {
        Ok(x as usize)
    }
}

pub open spec fn out_of_bounds(i: usize, n: nat) -> SpecError {
    SpecError::Runtime("Index out of bounds: "@ + nat_decimal(i as nat) + " (len "@ + nat_decimal(n) + ")"@)
}

/// An integer result: the value if it fits in 64 bits, else the overflow error.
pub open spec fn v_int_or_overflow(v: int) -> Result<VValue, SpecError> {
    if i64::MIN <= v <= i64::MAX {
        Ok(VValue::Int(v as i64))
    } else {
        rt(overflow_msg())
    }
}

/// The instruction's arithmetic on two integers, or the error for other values.
pub open spec fn v_arith(ins: Instr, a: VValue, b: VValue) -> Result<VValue, SpecError> {
    match (a, b) {
        (VValue::Int(x), VValue::Int(y)) => match ins {
            Instr::Add => v_int_or_overflow(x + y),
            Instr::Sub => v_int_or_overflow(x - y),
            Instr::Mul => v_int_or_overflow(x * y),
            Instr::Div => if y == 0 {
                rt("Division by zero"@)
            } else if x == i64::MIN && y == -1 {
                rt(overflow_msg())
            } else {
                Ok(VValue::Int(div_trunc(x, y)))
            },
            Instr::Mod => if y == 0 {
                rt("Modulo by zero"@)
            } else if x == i64::MIN && y == -1 {
                rt(overflow_msg())
            } else {
                Ok(VValue::Int(rem_trunc(x, y)))
            },
            Instr::Lt => Ok(VValue::Bool(x < y)),
            Instr::Le => Ok(VValue::Bool(x <= y)),
            Instr::Gt => Ok(VValue::Bool(x > y)),
            _ => Ok(VValue::Bool(x >= y)),
        },
        _ => match ins {
            Instr::Div => rt("Division expects numbers"@),
            Instr::Mod => rt("Modulo expects numbers"@),
            Instr::Lt | Instr::Le | Instr::Gt | Instr::Ge => rt("Ordering expects numbers"@),
            _ => rt("Arithmetic expects numbers"@),
        },
    }
}

pub open spec fn is_arith(ins: Instr) -> bool {
    ins is Add || ins is Sub || ins is Mul || ins is Div || ins is Mod || ins is Lt || ins is Le || ins is Gt
        || ins is Ge
}

/// Pops an index: a reference is read through, the integer may not be negative.
pub open spec fn pop_index(m: VState) -> Result<(usize, VState), SpecError> {
    if m.stack.len() == 0 {
        Err(underflow())
    } else {
        let m1 = with_stack(m, m.stack.drop_last());
        match v_resolve(m1.env, m.stack.last()) {
            Err(x) => Err(x),
            Ok(VValue::Int(x)) => match to_index(x, "index"@) {
                Err(e) => Err(e),
                Ok(i) => Ok((i, m1)),
            },
            Ok(_) => rt("Index must be a number"@),
        }
    }
}

/// Back to the caller with `v` on its stack; the program ends when there is none.
pub open spec fn return_to_caller(m: VState, v: VValue) -> VStep {
    if m.callstack.len() == 0 {
        VStep::Halt(m)
    } else {
        let f = m.callstack.last();
        let kept = if f.stack_base < m.stack.len() { m.stack.subrange(0, f.stack_base as int) } else { m.stack };
        VStep::Next(
            VState { env: f.env, stack: kept.push(v), callstack: m.callstack.drop_last(), ..m },
            f.chunk,
            f.ip,
        )
    }
}

/// Binds the parameters to the arguments, in order.
pub open spec fn v_bind(e: VEnv, params: Seq<LocalId>, args: Seq<VValue>, i: int) -> Result<VEnv, SpecError>
    decreases params.len() - i,
{
    if i < 0 || i >= params.len() || i >= args.len() {
        Ok(e)
    } else {
        match v_define(e, params[i], args[i]) {
            Err(x) => Err(x),
            Ok(e2) => v_bind(e2, params, args, i + 1),
        }
    }
}

/// The integers from `s` up to but not including `e`.
pub open spec fn int_range(s: i64, e: i64) -> Seq<VValue> {
    Seq::new(if s < e { (e - s) as nat } else { 0 }, |k: int| VValue::Int((s + k) as i64))
}

/// `len(x)`: the length of a string (in bytes) or of a vector.
pub open spec fn v_call_len(m: VState, chunk: ChunkId, ip: usize, args: Seq<VValue>) -> VStep {
    if args.len() != 1 {
        VStep::Fail(SpecError::Runtime("len(x) expects 1 argument"@))
    } else {
        match v_resolve(m.env, args[0]) {
            Err(x) => VStep::Fail(x),
            Ok(VValue::Str(s)) => VStep::Next(push_val(m, VValue::Int((encode_utf8(s).len() as usize) as i64)), chunk, ip),
            Ok(VValue::Vec(xs)) => VStep::Next(push_val(m, VValue::Int(xs.len() as i64)), chunk, ip),
            Ok(_) => VStep::Fail(SpecError::Runtime("len() expects string or vector"@)),
        }
    }
}

/// `push(&mut xs, v)`: appends to the vector in a local.
pub open spec fn v_call_push(m: VState, chunk: ChunkId, ip: usize, args: Seq<VValue>) -> VStep {
    if args.len() != 2 {
        VStep::Fail(SpecError::Runtime("push(&mut vec, value) expects 2 arguments"@))
    } else {
        match args[0] {
            VValue::Ref(RefTarget::Local(l), rm) => if rm != Mutability::Mut {
                VStep::Fail(SpecError::Runtime("push requires &mut vec"@))
            } else if l as int >= m.env.locals.len() {
                VStep::Fail(bad_local())
            } else {
                let s = m.env.locals[l as int];
                match s.value {
                    None => VStep::Fail(SpecError::Runtime("Use after move"@)),
                    Some(VValue::Vec(xs)) => VStep::Next(
                        push_val(
                            with_env(m, put_slot(m.env, l, VSlot { value: Some(VValue::Vec(xs.push(args[1]))), ..s })),
                            VValue::Unit,
                        ),
                        chunk,
                        ip,
                    ),
                    Some(_) => VStep::Fail(SpecError::Runtime("push target must be a vector"@)),
                }
            },
            _ => VStep::Fail(SpecError::Runtime("push first argument must be &mut vec variable"@)),
        }
    }
}

/// `set(&mut xs[i], v)`: replaces an element of the vector in a local.
pub open spec fn v_call_set(m: VState, chunk: ChunkId, ip: usize, args: Seq<VValue>) -> VStep {
    if args.len() != 2 {
        VStep::Fail(SpecError::Runtime("set(&mut elem_ref, value) expects 2 arguments"@))
    } else {
        match args[0] {
            VValue::Ref(RefTarget::VecElem { local: l, index }, rm) => if rm != Mutability::Mut {
                VStep::Fail(SpecError::Runtime("set requires a mutable element reference"@))
            } else if l as int >= m.env.locals.len() {
                VStep::Fail(bad_local())
            } else {
                let s = m.env.locals[l as int];
                match s.value {
                    None => VStep::Fail(SpecError::Runtime("Use after move"@)),
                    Some(VValue::Vec(xs)) => if index >= xs.len() {
                        VStep::Fail(out_of_bounds(index, xs.len()))
                    } else {
                        VStep::Next(
                            push_val(
                                with_env(
                                    m,
                                    put_slot(m.env, l, VSlot { value: Some(VValue::Vec(xs.update(index as int, args[1]))), ..s }),
                                ),
                                VValue::Unit,
                            ),
                            chunk,
                            ip,
                        )
                    },
                    Some(_) => VStep::Fail(SpecError::Runtime("set target base must be a vector"@)),
                }
            },
            _ => VStep::Fail(SpecError::Runtime("set first argument must be &mut (xs[i])"@)),
        }
    }
}

/// `range(end)` or `range(start, end)`, with bounds that are not negative.
pub open spec fn v_call_range(m: VState, chunk: ChunkId, ip: usize, args: Seq<VValue>) -> VStep {
    if !(args.len() == 1 || args.len() == 2) {
        VStep::Fail(SpecError::Runtime("range(end) or range(start, end) expects 1 or 2 arguments"@))
    } else {
        let (a0, b0) = if args.len() == 1 { (VValue::Int(0), args[0]) } else { (args[0], args[1]) };
        match v_resolve(m.env, a0) {
            Err(x) => VStep::Fail(x),
            Ok(a) => match v_resolve(m.env, b0) {
                Err(x) => VStep::Fail(x),
                Ok(b) => match (a, b) {
                    (VValue::Int(x), VValue::Int(y)) => match to_index(x, "range start"@) {
                        Err(e) => VStep::Fail(e),
                        Ok(s) => match to_index(y, "range end"@) {
                            Err(e) => VStep::Fail(e),
                            Ok(t) => VStep::Next(push_val(m, VValue::Vec(int_range(s as i64, t as i64))), chunk, ip),
                        },
                    },
                    _ => VStep::Fail(SpecError::Runtime("range() expects number arguments"@)),
                },
            },
        }
    }
}

/// A call of a function of the program: the caller's frame is saved, and the
/// callee starts with its parameters bound in fresh locals.
pub open spec fn v_call_user(m: VState, chunk: ChunkId, ip: usize, callee: StrId, name: Seq<char>, args: Seq<VValue>) -> VStep {
    match fn_chunk(m.bc.fns, callee, 0) {
        None => VStep::Fail(SpecError::Runtime("Unknown function: "@ + name)),
        Some(fc) => if fc as int >= m.bc.chunks.len() {
            VStep::Fail(SpecError::Runtime("Internal: bad chunk id"@))
        } else {
            let ch = m.bc.chunks[fc as int];
            if ch.params.len() != args.len() {
                VStep::Fail(
                    SpecError::Runtime(
                        "Function "@ + name + " expects "@ + nat_decimal(ch.params.len()) + " args, got "@
                            + nat_decimal(args.len()),
                    ),
                )
            } else {
                let frame = VFrame { chunk, ip, stack_base: m.stack.len() as usize, env: m.env };
                match v_bind(env_with(ch.local_count as nat), ch.params, args, 0) {
                    Err(x) => VStep::Fail(x),
                    Ok(e2) => VStep::Next(VState { env: e2, callstack: m.callstack.push(frame), ..m }, fc, 0),
                }
            }
        },
    }
}

/// A call of a built-in function or of a function of the program, with its
/// arguments taken off the stack; `ip` is where the caller goes on.
pub open spec fn v_call(m: VState, chunk: ChunkId, ip: usize, callee: StrId, args: Seq<VValue>) -> VStep {
    if callee as int >= m.bc.strings.len() {
        VStep::Fail(SpecError::Runtime("Internal: bad string id"@))
    } else {
        let name = m.bc.strings[callee as int];
        if name == "len"@ {
            v_call_len(m, chunk, ip, args)
        } else if name == "push"@ {
            v_call_push(m, chunk, ip, args)
        } else if name == "set"@ {
            v_call_set(m, chunk, ip, args)
        } else if name == "range"@ {
            v_call_range(m, chunk, ip, args)
        } else {
            v_call_user(m, chunk, ip, callee, name, args)
        }
    }
}

/// Runs one instruction; `ip` already points past it.
pub open spec fn v_exec(m: VState, chunk: ChunkId, ip: usize, ins: Instr) -> VStep {
    match ins {
        Instr::PushInt(n) => VStep::Next(push_val(m, VValue::Int(n)), chunk, ip),
        Instr::PushBool(b) => VStep::Next(push_val(m, VValue::Bool(b)), chunk, ip),
        Instr::PushStr(id) => if id as int >= m.bc.strings.len() {
            VStep::Fail(SpecError::Runtime("Internal: bad string id"@))
        } else {
            VStep::Next(push_val(m, VValue::Str(m.bc.strings[id as int])), chunk, ip)
        },
        Instr::PushUnit => VStep::Next(push_val(m, VValue::Unit), chunk, ip),
        Instr::VecMake(n) => if m.stack.len() < n {
            VStep::Fail(SpecError::Runtime("Stack underflow in VecMake"@))
        } else {
            let start = m.stack.len() - n;
            VStep::Next(
                with_stack(m, m.stack.subrange(0, start).push(VValue::Vec(m.stack.subrange(start, m.stack.len() as int)))),
                chunk,
                ip,
            )
        },
        Instr::LoadLocal { local, mode } => match v_load(m.env, local, mode) {
            Err(x) => VStep::Fail(x),
            Ok((v, e2)) => VStep::Next(push_val(with_env(m, e2), v), chunk, ip),
        },
        Instr::DefineLocal(l) => if m.stack.len() == 0 {
            VStep::Fail(underflow())
        } else {
            match v_define(m.env, l, m.stack.last()) {
                Err(x) => VStep::Fail(x),
                Ok(e2) => VStep::Next(with_env(with_stack(m, m.stack.drop_last()), e2), chunk, ip),
            }
        },
        Instr::StoreLocal(l) => if m.stack.len() == 0 {
            VStep::Fail(underflow())
        } else {
            match v_store(m.env, l, m.stack.last()) {
                Err(x) => VStep::Fail(x),
                Ok(e2) => VStep::Next(with_env(with_stack(m, m.stack.drop_last()), e2), chunk, ip),
            }
        },
        Instr::Neg => if m.stack.len() == 0 {
            VStep::Fail(underflow())
        } else {
            match m.stack.last() {
                VValue::Int(x) => if x == i64::MIN {
                    VStep::Fail(SpecError::Runtime(overflow_msg()))
                } else {
                    VStep::Next(with_stack(m, m.stack.drop_last().push(VValue::Int((-x) as i64))), chunk, ip)
                },
                _ => VStep::Fail(SpecError::Runtime("Unary '-' expects number"@)),
            }
        },
        Instr::Eq | Instr::Ne => match pop2(m) {
            None => VStep::Fail(underflow()),
            Some((a, b, m1)) => VStep::Next(push_val(m1, VValue::Bool(if ins is Eq { a == b } else { a != b })), chunk, ip),
        },
        Instr::Add | Instr::Sub | Instr::Mul | Instr::Div | Instr::Mod | Instr::Lt | Instr::Le | Instr::Gt | Instr::Ge => match pop2(m) {
            None => VStep::Fail(underflow()),
            Some((a, b, m1)) => match v_arith(ins, a, b) {
                Err(x) => VStep::Fail(x),
                Ok(v) => VStep::Next(push_val(m1, v), chunk, ip),
            },
        },
        Instr::BorrowLocal { local, mut_ } => {
            let rm = if mut_ { Mutability::Mut } else { Mutability::Imm };
            match v_acquire(m.env, local, rm) {
                Err(x) => VStep::Fail(x),
                Ok(e2) => VStep::Next(push_val(with_env(m, e2), VValue::Ref(RefTarget::Local(local), rm)), chunk, ip),
            }
        },
        Instr::IndexLocal { base, base_mut: _ } => match pop_index(m) {
            Err(x) => VStep::Fail(x),
            Ok((idx, m1)) => if base as int >= m1.env.locals.len() {
                VStep::Fail(bad_local())
            } else {
                match m1.env.locals[base as int].value {
                    None => VStep::Fail(SpecError::Runtime("Use after move"@)),
                    Some(VValue::Vec(xs)) => if idx >= xs.len() {
                        VStep::Fail(out_of_bounds(idx, xs.len()))
                    } else {
                        VStep::Next(push_val(m1, xs[idx as int]), chunk, ip)
                    },
                    Some(_) => VStep::Fail(SpecError::Runtime("Indexing expects a vector"@)),
                }
            },
        },
        Instr::BorrowIndexLocal { base, base_mut, mut_ } => match pop_index(m) {
            Err(x) => VStep::Fail(x),
            Ok((idx, m1)) => match v_acquire(m1.env, base, base_mut) {
                Err(x) => VStep::Fail(x),
                Ok(e2) => VStep::Next(
                    push_val(
                        with_env(m1, e2),
                        VValue::Ref(
                            RefTarget::VecElem { local: base, index: idx },
                            if mut_ { Mutability::Mut } else { Mutability::Imm },
                        ),
                    ),
                    chunk,
                    ip,
                ),
            },
        },
        Instr::Call { callee, argc } => if m.stack.len() < argc {
            VStep::Fail(SpecError::Runtime("Stack underflow in Call"@))
        } else {
            let start = m.stack.len() - argc;
            v_call(with_stack(m, m.stack.subrange(0, start)), chunk, ip, callee, m.stack.subrange(start, m.stack.len() as int))
        },
        Instr::Return => if m.stack.len() == 0 {
            VStep::Fail(underflow())
        } else {
            match v_unwind(m.env, m.env.scope_log.len()) {
                Err(x) => VStep::Fail(x),
                Ok(e2) => return_to_caller(with_env(with_stack(m, m.stack.drop_last()), e2), m.stack.last()),
            }
        },
        Instr::Print => if m.stack.len() == 0 {
            VStep::Fail(underflow())
        } else {
            let m1 = with_stack(m, m.stack.drop_last());
            match v_format(u64::MAX as nat, m1.env, m.stack.last()) {
                Err(x) => VStep::Fail(x),
                Ok(line) => VStep::Next(VState { out: m1.out.push(line), ..m1 }, chunk, ip),
            }
        },
        Instr::Pop => if m.stack.len() == 0 {
            VStep::Fail(underflow())
        } else {
            VStep::Next(with_stack(m, m.stack.drop_last()), chunk, ip)
        },
        Instr::EnterScope => VStep::Next(
            with_env(m, VEnv { scope_log: m.env.scope_log.push(Seq::empty()), ..m.env }),
            chunk,
            ip,
        ),
        Instr::ExitScope => match v_exit_scope(m.env) {
            Err(x) => VStep::Fail(x),
            Ok(e2) => VStep::Next(with_env(m, e2), chunk, ip),
        },
        Instr::TempEnter => VStep::Next(
            with_env(m, VEnv { temp_log: m.env.temp_log.push(Seq::empty()), ..m.env }),
            chunk,
            ip,
        ),
        Instr::TempExit => match v_temp_exit(m.env) {
            Err(x) => VStep::Fail(x),
            Ok(e2) => VStep::Next(with_env(m, e2), chunk, ip),
        },
        Instr::Jump(to) => VStep::Next(m, chunk, to),
        Instr::JumpIfFalse(to) => if m.stack.len() == 0 {
            VStep::Fail(underflow())
        } else {
            match m.stack.last() {
                VValue::Bool(b) => VStep::Next(with_stack(m, m.stack.drop_last()), chunk, if b { ip } else { to }),
                _ => VStep::Fail(SpecError::Runtime("Condition must be bool"@)),
            }
        },
        Instr::ForInit { var, body_start, end } => if m.stack.len() == 0 {
            VStep::Fail(underflow())
        } else {
            let m1 = with_stack(m, m.stack.drop_last());
            match v_resolve(m1.env, m.stack.last()) {
                Err(x) => VStep::Fail(x),
                Ok(VValue::Vec(elems)) => if elems.len() == 0 {
                    VStep::Next(m1, chunk, end)
                } else {
                    match v_define(m1.env, var, elems[0]) {
                        Err(x) => VStep::Fail(x),
                        Ok(e2) => VStep::Next(
                            VState {
                                env: e2,
                                loops: m1.loops.push(VLoop { var, elems, idx: 0, body_start, end }),
                                ..m1
                            },
                            chunk,
                            body_start,
                        ),
                    }
                },
                Ok(_) => VStep::Fail(SpecError::Runtime("for-in expects a vector"@)),
            }
        },
        Instr::ForNext { body_start, end } => if m.loops.len() == 0 {
            VStep::Fail(SpecError::Runtime("Internal: ForNext without loop"@))
        } else {
            let top = m.loops.last();
            if top.idx + 1 >= top.elems.len() {
                VStep::Next(VState { loops: m.loops.drop_last(), ..m }, chunk, end)
            } else {
                let next = (top.idx + 1) as usize;
                match v_define(m.env, top.var, top.elems[next as int]) {
                    Err(x) => VStep::Fail(x),
                    Ok(e2) => VStep::Next(
                        VState { env: e2, loops: m.loops.update(m.loops.len() - 1, VLoop { idx: next, ..top }), ..m },
                        chunk,
                        body_start,
                    ),
                }
            }
        },
    }
}

/// One step: the instruction at `ip` of the chunk `chunk`, or past the end of the
/// chunk an implicit `return ()`.
pub open spec fn v_step(m: VState, chunk: ChunkId, ip: usize) -> VStep {
    if chunk as int >= m.bc.chunks.len() {
        VStep::Fail(SpecError::Runtime("Internal: bad chunk id"@))
    } else {
        let code = m.bc.chunks[chunk as int].code;
        if ip >= code.len() {
            return_to_caller(m, VValue::Unit)
        } else {
            v_exec(m, chunk, (ip + 1) as usize, code[ip as int])
        }
    }
}

/// Runs at most `fuel` steps: the lines printed, and the final state or the error.
pub open spec fn v_run(m: VState, chunk: ChunkId, ip: usize, fuel: nat) -> (Seq<Seq<char>>, Result<VState, SpecError>)
    decreases fuel,
{
    if fuel == 0 {
        (m.out, Err(SpecError::Runtime("Step limit reached"@)))
    } else {
        match v_step(m, chunk, ip) {
            VStep::Next(m2, c2, ip2) => v_run(m2, c2, ip2, (fuel - 1) as nat),
            VStep::Halt(m2) => (m2.out, Ok(m2)),
            VStep::Fail(e) => (m.out, Err(e)),
        }
    }
}

} // verus!

verus! {

// ---------------------------------------------------------------------------
// Values, slots and environments of the machine.
// ---------------------------------------------------------------------------

/// A value of the stack machine.
#[derive(Debug)]
pub enum Value {
    Int(i64),
    Bool(bool),
    Str(String),
    Vec(Vec<Value>),
    Unit,
    Ref(RefTarget, Mutability),
}

pub open spec fn vvalue_view(v: Value) -> VValue
    decreases v,
{
    match v {
        Value::Int(n) => VValue::Int(n),
        Value::Bool(b) => VValue::Bool(b),
        Value::Str(s) => VValue::Str(s@),
        Value::Vec(xs) => VValue::Vec(vvalues_view(xs@)),
        Value::Unit => VValue::Unit,
        Value::Ref(t, m) => VValue::Ref(t, m),
    }
}

pub open spec fn vvalues_view(s: Seq<Value>) -> Seq<VValue>
    decreases s,
{
    Seq::new(s.len(), |i: int| if 0 <= i < s.len() { vvalue_view(s[i]) } else { VValue::Unit })
}

impl View for Value {
    type V = VValue;

    open spec fn view(&self) -> VValue {
        vvalue_view(*self)
    }
}

pub proof fn lemma_vvalues_push(s: Seq<Value>, x: Value)
    ensures
        vvalues_view(s.push(x)) == vvalues_view(s).push(x@),
        vvalues_view(Seq::<Value>::empty()) == Seq::<VValue>::empty(),
{
    assert(vvalues_view(s.push(x)) =~= vvalues_view(s).push(x@));
    assert(vvalues_view(Seq::<Value>::empty()) =~= Seq::<VValue>::empty());
}

impl Value {
    /// Whether the value is copied, not moved, when a local is read.
    pub fn is_copy(&self) -> (r: bool)
        ensures
            r == (self@ is Int || self@ is Bool),
    {
        match self {
            Value::Int(_) | Value::Bool(_) => true,
            _ => false,
        }
    }

    /// A copy of the value, vectors copied element by element.
    pub fn deep_clone(&self) -> (r: Value)
        ensures
            r@ == self@,
        decreases self,
    {
        match self {
            Value::Int(n) => Value::Int(*n),
            Value::Bool(b) => Value::Bool(*b),
            Value::Str(s) => Value::Str(s.clone()),
            Value::Unit => Value::Unit,
            Value::Ref(t, m) => Value::Ref(*t, *m),
            Value::Vec(xs) => {
                let mut out: Vec<Value> = Vec::new();
                let mut i: usize = 0;
                proof {
                    lemma_vvalues_push(Seq::empty(), Value::Unit);
                }
                while i < xs.len()
                    invariant
                        i <= xs.len(),
                        *self == Value::Vec(*xs),
                        vvalues_view(out@) == vvalues_view(xs@).subrange(0, i as int),
                    decreases xs.len() - i,
                {
                    proof {
                        let v = *self;
                        assert(v matches Value::Vec(ys) && ys == *xs);
                        assert(decreases_to!(v => v->Vec_0));
                        vstd::std_specs::vec::axiom_vec_index_decreases(*xs, i as int);
                        assert(decreases_to!(*self => xs@[i as int]));
                    }
                    let c = xs[i].deep_clone();
                    proof {
                        lemma_vvalues_push(out@, c);
                        assert(vvalues_view(xs@).subrange(0, i + 1) =~= vvalues_view(xs@).subrange(
                            0,
                            i as int,
                        ).push(c@));
                    }
                    out.push(c);
                    i += 1;
                }
                proof {
                    assert(vvalues_view(xs@).subrange(0, xs.len() as int) =~= vvalues_view(xs@));
                }
                Value::Vec(out)
            },
        }
    }

    /// Whether two values are equal: the same variant with equal contents.
    pub fn equals(&self, other: &Value) -> (r: bool)
        ensures
            r == (self@ == other@),
        decreases self,
    {
        match (self, other) {
            (Value::Int(a), Value::Int(b)) => *a == *b,
            (Value::Bool(a), Value::Bool(b)) => *a == *b,
            (Value::Str(a), Value::Str(b)) => a.eq(b),
            (Value::Unit, Value::Unit) => true,
            (Value::Ref(t1, m1), Value::Ref(t2, m2)) => *t1 == *t2 && *m1 == *m2,
            (Value::Vec(xs), Value::Vec(ys)) => {
                assert(self@ == VValue::Vec(vvalues_view(xs@)));
                assert(other@ == VValue::Vec(vvalues_view(ys@)));
                if xs.len() != ys.len() {
                    proof {
                        assert(vvalues_view(xs@).len() != vvalues_view(ys@).len());
                    }
                    return false;
                }
                let mut i: usize = 0;
                while i < xs.len()
                    invariant
                        i <= xs.len(),
                        xs.len() == ys.len(),
                        *self == Value::Vec(*xs),
                        self@ == VValue::Vec(vvalues_view(xs@)),
                        other@ == VValue::Vec(vvalues_view(ys@)),
                        forall|k: int| 0 <= k < i ==> vvalues_view(xs@)[k] == vvalues_view(ys@)[k],
                    decreases xs.len() - i,
                {
                    proof {
                        let v = *self;
                        assert(v matches Value::Vec(zs) && zs == *xs);
                        assert(decreases_to!(v => v->Vec_0));
                        vstd::std_specs::vec::axiom_vec_index_decreases(*xs, i as int);
                        assert(decreases_to!(*self => xs@[i as int]));
                    }
                    if !xs[i].equals(&ys[i]) {
                        proof {
                            assert(vvalues_view(xs@)[i as int] != vvalues_view(ys@)[i as int]);
                        }
                        return false;
                    }
                    i += 1;
                }
                proof {
                    assert(vvalues_view(xs@) =~= vvalues_view(ys@));
                }
                true
            },
            _ => false,
        }
    }
}

#[derive(Debug)]
struct BorrowState {
    immut: usize,
    mut_: bool,
}

#[derive(Debug)]
struct Slot {
    value: Option<Value>,
    borrows: BorrowState,
}

pub open spec fn vopt_view(v: Option<Value>) -> Option<VValue> {
    match v {
        Some(x) => Some(x@),
        None => None,
    }
}

impl View for Slot {
    type V = VSlot;

    closed spec fn view(&self) -> VSlot {
        VSlot { value: vopt_view(self.value), immut: self.borrows.immut, mut_: self.borrows.mut_ }
    }
}

/// The locals of a frame, and the logs of borrows to give back.
#[derive(Debug)]
struct Env {
    locals: Vec<Slot>,
    scope_log: Vec<Vec<(RefTarget, Mutability)>>,
    temp_log: Vec<Vec<(RefTarget, Mutability)>>,
}

pub open spec fn logs_of(s: Seq<Vec<(RefTarget, Mutability)>>) -> Seq<VLog> {
    Seq::new(s.len(), |i: int| s[i]@)
}

impl View for Env {
    type V = VEnv;

    closed spec fn view(&self) -> VEnv {
        VEnv {
            locals: Seq::new(self.locals@.len(), |i: int| self.locals@[i]@),
            scope_log: logs_of(self.scope_log@),
            temp_log: logs_of(self.temp_log@),
        }
    }
}

} // verus!

verus! {

impl Env {
    /// An environment with `n` empty locals and one scope.
    fn with_local_count(n: usize) -> (e: Env)
        ensures
            e@ == env_with(n as nat),
    {
        let mut locals: Vec<Slot> = Vec::new();
        let mut i: usize = 0;
        while i < n
            invariant
                i <= n,
                locals@.len() == i,
                forall|k: int| 0 <= k < i ==> (#[trigger] locals@[k])@ == fresh_vslot(),
            decreases n - i,
        {
            locals.push(Slot { value: None, borrows: BorrowState { immut: 0, mut_: false } });
            i += 1;
        }
        let mut scope_log: Vec<Vec<(RefTarget, Mutability)>> = Vec::new();
        scope_log.push(Vec::new());
        let e = Env { locals, scope_log, temp_log: Vec::new() };
        proof {
            assert(e@.locals =~= env_with(n as nat).locals);
            assert(e@.scope_log =~= env_with(n as nat).scope_log);
            assert(e@.temp_log =~= env_with(n as nat).temp_log);
        }
        e
    }

    /// Replaces the slot of the local `l`.
    fn put(&mut self, l: LocalId, value: Option<Value>, immut: usize, mut_: bool)
        requires
            (l as int) < old(self)@.locals.len(),
        ensures
            final(self)@ == put_slot(old(self)@, l, VSlot { value: vopt_view(value), immut, mut_ }),
    {
        let ghost e = self@;
        let ghost s = VSlot { value: vopt_view(value), immut, mut_ };
        self.locals.set(l as usize, Slot { value, borrows: BorrowState { immut, mut_ } });
        proof {
            assert(self@.locals =~= e.locals.update(l as int, s));
            assert(self@.scope_log =~= e.scope_log);
            assert(self@.temp_log =~= e.temp_log);
        }
    }

    /// Logs a borrow.
    fn record(&mut self, t: RefTarget, m: Mutability)
        ensures
            final(self)@ == v_record(old(self)@, t, m),
    {
        let ghost e = self@;
        let n = self.temp_log.len();
        if n > 0 {
            self.temp_log[n - 1].push((t, m));
            proof {
                assert(self@.temp_log =~= v_record(e, t, m).temp_log);
                assert(self@.locals =~= e.locals);
                assert(self@.scope_log =~= e.scope_log);
            }
        } else {
            let k = self.scope_log.len();
            if k > 0 {
                self.scope_log[k - 1].push((t, m));
                proof {
                    assert(self@.scope_log =~= v_record(e, t, m).scope_log);
                    assert(self@.locals =~= e.locals);
                    assert(self@.temp_log =~= e.temp_log);
                }
            }
        }
    }

    /// `let`: the local gets the value and loses its borrows.
    fn define(&mut self, l: LocalId, v: Value) -> (r: Result<(), LangError>)
        ensures
            match v_define(old(self)@, l, v@) {
                Ok(e) => r is Ok && final(self)@ == e,
                Err(x) => r matches Err(y) && y@ == x,
            },
    {
        if l as usize >= self.locals.len() {
            return Err(LangError::Runtime(String::from_str("Internal: bad local id")));
        }
        self.put(l, Some(v), 0, false);
        Ok(())
    }

    /// `x = v`: refused while the local is borrowed.
    fn store(&mut self, l: LocalId, v: Value) -> (r: Result<(), LangError>)
        ensures
            match v_store(old(self)@, l, v@) {
                Ok(e) => r is Ok && final(self)@ == e,
                Err(x) => r matches Err(y) && y@ == x,
            },
    {
        if l as usize >= self.locals.len() {
            return Err(LangError::Runtime(String::from_str("Internal: bad local id")));
        }
        let (immut, mut_) = (self.locals[l as usize].borrows.immut, self.locals[l as usize].borrows.mut_);
        if immut > 0 || mut_ {
            return Err(LangError::Runtime(String::from_str("Cannot assign: it is borrowed")));
        }
        self.put(l, Some(v), immut, mut_);
        Ok(())
    }

    /// Reads a local: copies an integer or a boolean, else moves the value out
    /// (or, with `Peek`, copies it).
    fn load(&mut self, l: LocalId, mode: LoadMode) -> (r: Result<Value, LangError>)
        ensures
            match v_load(old(self)@, l, mode) {
                Ok((v, e)) => r matches Ok(x) && x@ == v && final(self)@ == e,
                Err(x) => r matches Err(y) && y@ == x,
            },
    {
        if l as usize >= self.locals.len() {
            return Err(LangError::Runtime(String::from_str("Internal: bad local id")));
        }
        let (immut, mut_) = (self.locals[l as usize].borrows.immut, self.locals[l as usize].borrows.mut_);
        match &self.locals[l as usize].value {
            None => Err(LangError::Runtime(String::from_str("Use after move"))),
            Some(v) => {
                if mode == LoadMode::Peek || v.is_copy() {
                    Ok(v.deep_clone())
                } else {
                    let ghost e = self@;
                    let mut taken = Slot { value: None, borrows: BorrowState { immut, mut_ } };
                    std::mem::swap(&mut taken, &mut self.locals[l as usize]);
                    proof {
                        assert(self@.locals =~= e.locals.update(l as int, VSlot { value: None, ..e.locals[l as int] }));
                        assert(self@.scope_log =~= e.scope_log);
                        assert(self@.temp_log =~= e.temp_log);
                    }
                    match taken.value {
                        Some(x) => Ok(x),
                        None => Err(LangError::Runtime(String::from_str("Use after move"))),
                    }
                }
            },
        }
    }

    /// Borrows a local: shared borrows may stand together, a mutable one stands alone.
    fn acquire(&mut self, l: LocalId, m: Mutability) -> (r: Result<(), LangError>)
        ensures
            match v_acquire(old(self)@, l, m) {
                Ok(e) => r is Ok && final(self)@ == e,
                Err(x) => r matches Err(y) && y@ == x,
            },
    {
        if l as usize >= self.locals.len() {
            return Err(LangError::Runtime(String::from_str("Internal: bad local id")));
        }
        if self.locals[l as usize].value.is_none() {
            return Err(LangError::Runtime(String::from_str("Cannot borrow: value was moved")));
        }
        let (immut, mut_) = (self.locals[l as usize].borrows.immut, self.locals[l as usize].borrows.mut_);
        match m {
            Mutability::Imm => {
                if mut_ {
                    return Err(LangError::Runtime(String::from_str("Cannot immut-borrow: mut-borrowed")));
                }
                if immut == usize::MAX {
                    return Err(LangError::Runtime(String::from_str("Too many borrows")));
                }
                let ghost e = self@;
                self.locals[l as usize].borrows.immut = immut + 1;
                proof {
                    assert(self@.locals =~= e.locals.update(
                        l as int,
                        VSlot { immut: (immut + 1) as usize, ..e.locals[l as int] },
                    ));
                    assert(self@.scope_log =~= e.scope_log);
                    assert(self@.temp_log =~= e.temp_log);
                }
            },
            Mutability::Mut => {
                if mut_ || immut > 0 {
                    return Err(LangError::Runtime(String::from_str("Cannot mut-borrow: already borrowed")));
                }
                let ghost e = self@;
                self.locals[l as usize].borrows.mut_ = true;
                proof {
                    assert(self@.locals =~= e.locals.update(l as int, VSlot { mut_: true, ..e.locals[l as int] }));
                    assert(self@.scope_log =~= e.scope_log);
                    assert(self@.temp_log =~= e.temp_log);
                }
            },
        }
        self.record(RefTarget::Local(l), m);
        Ok(())
    }
}

} // verus!

verus! {

impl Env {
    /// Gives back one borrow.
    fn release(&mut self, t: RefTarget, m: Mutability) -> (r: Result<(), LangError>)
        ensures
            match v_release(old(self)@, t, m) {
                Ok(e) => r is Ok && final(self)@ == e,
                Err(x) => r matches Err(y) && y@ == x,
            },
    {
        let l = match t {
            RefTarget::Local(l) => l,
            RefTarget::VecElem { local, .. } => local,
        };
        if l as usize >= self.locals.len() {
            return Err(LangError::Runtime(String::from_str("Internal: bad local id")));
        }
        let (immut, mut_) = (self.locals[l as usize].borrows.immut, self.locals[l as usize].borrows.mut_);
        let ghost e = self@;
        match m {
            Mutability::Imm => {
                if immut == 0 {
                    return Err(LangError::Runtime(String::from_str("Internal: immut borrow underflow")));
                }
                self.locals[l as usize].borrows.immut = immut - 1;
                proof {
                    assert(self@.locals =~= e.locals.update(
                        l as int,
                        VSlot { immut: (immut - 1) as usize, ..e.locals[l as int] },
                    ));
                }
            },
            Mutability::Mut => {
                if !mut_ {
                    return Err(LangError::Runtime(String::from_str("Internal: mut borrow underflow")));
                }
                self.locals[l as usize].borrows.mut_ = false;
                proof {
                    assert(self@.locals =~= e.locals.update(l as int, VSlot { mut_: false, ..e.locals[l as int] }));
                }
            },
        }
        proof {
            assert(self@.scope_log =~= e.scope_log);
            assert(self@.temp_log =~= e.temp_log);
        }
        Ok(())
    }

    /// Gives back the borrows of `log`, the last logged first.
    fn release_all(&mut self, log: &Vec<(RefTarget, Mutability)>) -> (r: Result<(), LangError>)
        ensures
            match v_release_all(old(self)@, log@, log@.len() as int) {
                Ok(e) => r is Ok && final(self)@ == e,
                Err(x) => r matches Err(y) && y@ == x,
            },
    {
        let ghost goal = v_release_all(self@, log@, log@.len() as int);
        let mut n = log.len();
        while n > 0
            invariant
                n <= log@.len(),
                v_release_all(self@, log@, n as int) == goal,
                goal == v_release_all(old(self)@, log@, log@.len() as int),
            decreases n,
        {
            let (t, m) = log[n - 1];
            self.release(t, m)?;
            n -= 1;
        }
        Ok(())
    }

    /// Ends the innermost scope: gives back its borrows.
    fn exit_scope(&mut self) -> (r: Result<(), LangError>)
        ensures
            match v_exit_scope(old(self)@) {
                Ok(e) => r is Ok && final(self)@ == e,
                Err(x) => r matches Err(y) && y@ == x,
            },
    {
        let ghost e = self@;
        let log = match self.scope_log.pop() {
            Some(log) => log,
            None => {
                return Err(LangError::Runtime(String::from_str("Internal: scope underflow")));
            },
        };
        proof {
            assert(self@.scope_log =~= e.scope_log.drop_last());
            assert(self@.locals =~= e.locals);
            assert(self@.temp_log =~= e.temp_log);
        }
        self.release_all(&log)
    }

    /// Ends a statement's temporary borrows: gives them back.
    fn temp_exit(&mut self) -> (r: Result<(), LangError>)
        ensures
            match v_temp_exit(old(self)@) {
                Ok(e) => r is Ok && final(self)@ == e,
                Err(x) => r matches Err(y) && y@ == x,
            },
    {
        let ghost e = self@;
        let log = match self.temp_log.pop() {
            Some(log) => log,
            None => {
                return Err(LangError::Runtime(String::from_str("Internal: temp scope underflow")));
            },
        };
        proof {
            assert(self@.temp_log =~= e.temp_log.drop_last());
            assert(self@.locals =~= e.locals);
            assert(self@.scope_log =~= e.scope_log);
        }
        self.release_all(&log)
    }

    fn enter_scope(&mut self)
        ensures
            final(self)@ == (VEnv { scope_log: old(self)@.scope_log.push(Seq::empty()), ..old(self)@ }),
    {
        let ghost e = self@;
        self.scope_log.push(Vec::new());
        proof {
            assert(self@.scope_log =~= e.scope_log.push(Seq::empty()));
            assert(self@.locals =~= e.locals);
            assert(self@.temp_log =~= e.temp_log);
        }
    }

    fn temp_enter(&mut self)
        ensures
            final(self)@ == (VEnv { temp_log: old(self)@.temp_log.push(Seq::empty()), ..old(self)@ }),
    {
        let ghost e = self@;
        self.temp_log.push(Vec::new());
        proof {
            assert(self@.temp_log =~= e.temp_log.push(Seq::empty()));
            assert(self@.locals =~= e.locals);
            assert(self@.scope_log =~= e.scope_log);
        }
    }

    /// Ends every scope but the outermost, innermost first.
    fn unwind(&mut self) -> (r: Result<(), LangError>)
        ensures
            match v_unwind(old(self)@, old(self)@.scope_log.len()) {
                Ok(e) => r is Ok && final(self)@ == e,
                Err(x) => r matches Err(y) && y@ == x,
            },
    {
        let ghost goal = v_unwind(self@, self@.scope_log.len());
        while self.scope_log.len() > 1
            invariant
                v_unwind(self@, self@.scope_log.len()) == goal,
                goal == v_unwind(old(self)@, old(self)@.scope_log.len()),
            decreases self.scope_log@.len(),
        {
            assert(self@.scope_log.len() == self.scope_log@.len());
            let ghost before = self@;
            self.exit_scope()?;
            proof {
                lemma_exit_scope_shrinks(before);
                lemma_unwind_fuel(self@, (before.scope_log.len() - 1) as nat);
            }
        }
        assert(self@.scope_log.len() == self.scope_log@.len());
        Ok(())
    }

    /// What a value reads as: a reference stands for what it points at.
    fn resolve(&self, v: &Value) -> (r: Result<Value, LangError>)
        ensures
            match v_resolve(self@, v@) {
                Ok(x) => r matches Ok(y) && y@ == x,
                Err(x) => r matches Err(y) && y@ == x,
            },
    {
        match v {
            Value::Ref(RefTarget::Local(l), _) => {
                if *l as usize >= self.locals.len() {
                    return Err(LangError::Runtime(String::from_str("Internal: bad local id")));
                }
                match &self.locals[*l as usize].value {
                    None => Err(LangError::Runtime(String::from_str("Use after move"))),
                    Some(x) => Ok(x.deep_clone()),
                }
            },
            Value::Ref(RefTarget::VecElem { local, index }, _) => {
                if *local as usize >= self.locals.len() {
                    return Err(LangError::Runtime(String::from_str("Internal: bad local id")));
                }
                match &self.locals[*local as usize].value {
                    None => Err(LangError::Runtime(String::from_str("Use after move"))),
                    Some(Value::Vec(xs)) => {
                        if *index >= xs.len() {
                            return Err(LangError::Runtime(cat2("Index out of bounds: ", usize_to_string(*index).as_str())));
                        }
                        assert(vvalues_view(xs@)[*index as int] == xs@[*index as int]@);
                        Ok(xs[*index].deep_clone())
                    },
                    Some(_) => Err(LangError::Runtime(String::from_str("Internal: VecElem base not vec"))),
                }
            },
            other => Ok(other.deep_clone()),
        }
    }
}

/// Ending a scope leaves one scope log fewer.
proof fn lemma_exit_scope_shrinks(e: VEnv)
    ensures
        v_exit_scope(e) matches Ok(e2) ==> e2.scope_log.len() == e.scope_log.len() - 1,
{
    if e.scope_log.len() > 0 {
        let log = e.scope_log.last();
        lemma_release_all_keeps_logs(VEnv { scope_log: e.scope_log.drop_last(), ..e }, log, log.len() as int);
    }
}

proof fn lemma_release_all_keeps_logs(e: VEnv, log: VLog, n: int)
    ensures
        v_release_all(e, log, n) matches Ok(e2) ==> e2.scope_log == e.scope_log && e2.temp_log == e.temp_log
            && e2.locals.len() == e.locals.len(),
    decreases n,
{
    if 0 < n <= log.len() {
        if let Ok(e1) = v_release(e, log[n - 1].0, log[n - 1].1) {
            lemma_release_all_keeps_logs(e1, log, n - 1);
        }
    }
}

/// Any fuel at least the number of scopes unwinds them all.
proof fn lemma_unwind_fuel(e: VEnv, fuel: nat)
    requires
        fuel >= e.scope_log.len(),
    ensures
        v_unwind(e, fuel) == v_unwind(e, e.scope_log.len()),
    decreases e.scope_log.len(),
{
    if e.scope_log.len() > 1 && fuel > 0 {
        lemma_exit_scope_shrinks(e);
        if let Ok(e2) = v_exit_scope(e) {
            lemma_unwind_fuel(e2, (fuel - 1) as nat);
            lemma_unwind_fuel(e2, (e.scope_log.len() - 1) as nat);
        }
    }
}

} // verus!

verus! {

#[derive(Debug)]
struct CallFrame {
    chunk: ChunkId,
    ip: usize,
    stack_base: usize,
    env: Env,
}

impl View for CallFrame {
    type V = VFrame;

    closed spec fn view(&self) -> VFrame {
        VFrame { chunk: self.chunk, ip: self.ip, stack_base: self.stack_base, env: self.env@ }
    }
}

#[derive(Debug)]
struct LoopFrame {
    var: LocalId,
    elems: Vec<Value>,
    idx: usize,
    body_start: usize,
    end: usize,
}

impl View for LoopFrame {
    type V = VLoop;

    closed spec fn view(&self) -> VLoop {
        VLoop {
            var: self.var,
            elems: vvalues_view(self.elems@),
            idx: self.idx,
            body_start: self.body_start,
            end: self.end,
        }
    }
}

/// The stack machine that runs a compiled program; the lines it prints are kept
/// in order.
pub struct Vm {
    bc: BytecodeProgram,
    env: Env,
    stack: Vec<Value>,
    callstack: Vec<CallFrame>,
    loops: Vec<LoopFrame>,
    out: Vec<String>,
}

impl View for Vm {
    type V = VState;

    closed spec fn view(&self) -> VState {
        VState {
            bc: self.bc@,
            env: self.env@,
            stack: vvalues_view(self.stack@),
            callstack: Seq::new(self.callstack@.len(), |i: int| self.callstack@[i]@),
            loops: Seq::new(self.loops@.len(), |i: int| self.loops@[i]@),
            out: strings_view(self.out@),
        }
    }
}

/// A fresh machine for a program: the top level's locals, one scope, nothing on
/// the stack and nothing printed.
pub open spec fn vm_start(bc: SBytecode) -> VState {
    VState {
        bc,
        env: env_with(bc.chunks[bc.main as int].local_count as nat),
        stack: Seq::empty(),
        callstack: Seq::empty(),
        loops: Seq::empty(),
        out: Seq::empty(),
    }
}

impl Vm {
    /// A machine for the program `bc`, ready to run its top level.
    pub fn new(bc: BytecodeProgram) -> (vm: Self)
        requires
            (bc.main as int) < bc@.chunks.len(),
        ensures
            vm@ == vm_start(bc@),
    {
        assert(bc@.chunks[bc.main as int] == bc.chunks@[bc.main as int]@);
        let main_locals = bc.chunks[bc.main as usize].local_count;
        let vm = Vm {
            bc,
            env: Env::with_local_count(main_locals),
            stack: Vec::new(),
            callstack: Vec::new(),
            loops: Vec::new(),
            out: Vec::new(),
        };
        proof {
            assert(vm@.stack =~= Seq::empty());
            assert(vm@.callstack =~= Seq::empty());
            assert(vm@.loops =~= Seq::empty());
            assert(vm@.out =~= Seq::empty());
        }
        vm
    }

    /// The machine's state.
    pub closed spec fn state(&self) -> VState {
        self@
    }

    /// The lines printed so far, in order.
    pub fn output(&self) -> (r: &Vec<String>)
        ensures
            strings_view(r@) == self@.out,
    {
        &self.out
    }

    /// The text that `print` writes for a value.
    fn format(&self, v: &Value, g: u64) -> (r: Result<String, LangError>)
        ensures
            match v_format(g as nat, self@.env, v@) {
                Ok(t) => r matches Ok(x) && x@ == t,
                Err(e) => r matches Err(x) && x@ == e,
            },
        decreases g, 1int, 0int,
    {
        if g == 0 {
            return Err(LangError::Runtime(String::from_str("Nesting limit reached")));
        }
        match v {
            Value::Int(n) => Ok(int_to_string(*n)),
            Value::Bool(b) => Ok(if *b { String::from_str("true") } else { String::from_str("false") }),
            Value::Str(s) => Ok(str_debug(s.as_str())),
            Value::Vec(xs) => {
                let inner = self.format_elems(xs, g - 1)?;
                Ok(cat3("[", inner.as_str(), "]"))
            },
            Value::Unit => Ok(String::from_str("()")),
            Value::Ref(_, _) => {
                let r = self.env.resolve(v)?;
                self.format(&r, g - 1)
            },
        }
    }

    /// The elements of a vector, formatted and joined by `, `.
    fn format_elems(&self, xs: &Vec<Value>, g: u64) -> (r: Result<String, LangError>)
        ensures
            match v_format_elems(g as nat, self@.env, vvalues_view(xs@), 0, Seq::empty()) {
                Ok(t) => r matches Ok(x) && x@ == t,
                Err(e) => r matches Err(x) && x@ == e,
            },
        decreases g, 2int, 0int,
    {
        let ghost xv = vvalues_view(xs@);
        let ghost goal = v_format_elems(g as nat, self@.env, xv, 0, Seq::empty());
        let mut acc = String::new();
        let mut i: usize = 0;
        while i < xs.len()
            invariant
                i <= xs@.len(),
                xv == vvalues_view(xs@),
                v_format_elems(g as nat, self@.env, xv, i as int, acc@) == goal,
                goal == v_format_elems(g as nat, self@.env, vvalues_view(xs@), 0, Seq::empty()),
            decreases xs@.len() - i,
        {
            assert(xv[i as int] == xs@[i as int]@);
            let item = match self.format(&xs[i], g) {
                Ok(t) => t,
                Err(x) => {
                    assert(v_format_elems(g as nat, self@.env, xv, i as int, acc@) == Err::<Seq<char>, SpecError>(x@));
                    return Err(x);
                },
            };
            if i == 0 {
                acc = acc.concat(item.as_str());
            } else {
                acc = acc.concat(", ").concat(item.as_str());
            }
            i += 1;
        }
        Ok(acc)
    }
}

} // verus!

verus! {

/// Whether the machine answered a step as the model says: the state it goes on
/// from and where, or the end, or the error (with nothing more printed).
pub open spec fn took(s: VStep, m: VState, after: VState, r: Result<Option<(ChunkId, usize)>, LangError>) -> bool {
    match s {
        VStep::Next(m2, c2, i2) => r matches Ok(Some(p)) && p == (c2, i2) && after == m2,
        VStep::Halt(m2) => r matches Ok(None) && after == m2,
        VStep::Fail(e) => r matches Err(x) && x@ == e && after.out == m.out,
    }
}

pub proof fn lemma_vvalues_subrange(s: Seq<Value>, a: int, b: int)
    requires
        0 <= a <= b <= s.len(),
    ensures
        vvalues_view(s.subrange(a, b)) == vvalues_view(s).subrange(a, b),
        vvalues_view(s.drop_last()) == vvalues_view(s).drop_last() || s.len() == 0,
{
    assert(vvalues_view(s.subrange(a, b)) =~= vvalues_view(s).subrange(a, b));
    if s.len() > 0 {
        assert(vvalues_view(s.drop_last()) =~= vvalues_view(s).drop_last());
    }
}

/// An integer read as an index or a bound: it may not be negative.
fn to_index_exec(x: i64, what: &str) -> (r: Result<usize, LangError>)
    ensures
        match to_index(x, what@) {
            Ok(i) => r == Ok::<usize, LangError>(i),
            Err(e) => r matches Err(y) && y@ == e,
        },
{
    if x < 0 {
        return Err(LangError::Runtime(cat2(what, " must be >= 0")));
    }
    Ok(x as usize)
}

impl Vm {
    /// Pushes a value on the stack.
    fn push(&mut self, v: Value)
        ensures
            final(self)@ == push_val(old(self)@, v@),
    {
        proof {
            lemma_vvalues_push(self.stack@, v);
        }
        self.stack.push(v);
    }

    /// Pops the top of the stack.
    fn pop1(&mut self) -> (r: Result<Value, LangError>)
        ensures
            match r {
                Ok(x) => old(self)@.stack.len() > 0 && x@ == old(self)@.stack.last() && final(self)@ == with_stack(
                    old(self)@,
                    old(self)@.stack.drop_last(),
                ),
                Err(e) => old(self)@.stack.len() == 0 && e@ == underflow() && final(self)@ == old(self)@,
            },
    {
        proof {
            lemma_vvalues_subrange(self.stack@, 0, 0);
        }
        match self.stack.pop() {
            Some(v) => Ok(v),
            None => Err(LangError::Runtime(String::from_str("Stack underflow"))),
        }
    }

    /// The top two values, the deeper first.
    fn pop2(&mut self) -> (r: Result<(Value, Value), LangError>)
        ensures
            match pop2(old(self)@) {
                Some((a, b, m1)) => r matches Ok(p) && p.0@ == a && p.1@ == b && final(self)@ == m1,
                None => r matches Err(e) && e@ == underflow() && final(self)@.out == old(self)@.out,
            },
    {
        let ghost m = self@;
        let b = self.pop1()?;
        let a = self.pop1()?;
        proof {
            assert(m.stack.drop_last().drop_last() =~= m.stack.subrange(0, m.stack.len() - 2));
        }
        Ok((a, b))
    }

    /// Pops an index: a reference is read through; it may not be negative.
    fn pop_index(&mut self) -> (r: Result<usize, LangError>)
        ensures
            match pop_index(old(self)@) {
                Ok((i, m1)) => r == Ok::<usize, LangError>(i) && final(self)@ == m1,
                Err(e) => r matches Err(x) && x@ == e && final(self)@.out == old(self)@.out,
            },
    {
        let v = self.pop1()?;
        let v = self.env.resolve(&v)?;
        match v {
            Value::Int(x) => {
                to_index_exec(x, "index")
            },
            _ => Err(LangError::Runtime(String::from_str("Index must be a number"))),
        }
    }

    /// Instructions that only push a constant, move the stack, or jump.
    fn exec_simple(&mut self, chunk: ChunkId, ip: usize, ins: Instr) -> (r: Result<Option<(ChunkId, usize)>, LangError>)
        requires
            ins is PushInt || ins is PushBool || ins is PushStr || ins is PushUnit || ins is VecMake || ins is Pop
                || ins is Jump || ins is JumpIfFalse || ins is Neg,
        ensures
            took(v_exec(old(self)@, chunk, ip, ins), old(self)@, final(self)@, r),
    {
        match ins {
            Instr::PushInt(n) => self.push(Value::Int(n)),
            Instr::PushBool(b) => self.push(Value::Bool(b)),
            Instr::PushStr(id) => {
                if id as usize >= self.bc.strings.len() {
                    return Err(LangError::Runtime(String::from_str("Internal: bad string id")));
                }
                assert(self@.bc.strings[id as int] == self.bc.strings@[id as int]@);
                let s = self.bc.strings[id as usize].clone();
                self.push(Value::Str(s));
            },
            Instr::PushUnit => self.push(Value::Unit),
            Instr::VecMake(n) => {
                let n = n as usize;
                if self.stack.len() < n {
                    return Err(LangError::Runtime(String::from_str("Stack underflow in VecMake")));
                }
                let start = self.stack.len() - n;
                proof {
                    lemma_vvalues_subrange(self.stack@, 0, start as int);
                    lemma_vvalues_subrange(self.stack@, start as int, self.stack@.len() as int);
                }
                let xs = self.stack.split_off(start);
                self.push(Value::Vec(xs));
            },
            Instr::Pop => {
                self.pop1()?;
            },
            Instr::Jump(to) => {
                return Ok(Some((chunk, to)));
            },
            Instr::JumpIfFalse(to) => {
                let v = self.pop1()?;
                match v {
                    Value::Bool(b) => {
                        return Ok(Some((chunk, if b { ip } else { to })));
                    },
                    _ => {
                        return Err(LangError::Runtime(String::from_str("Condition must be bool")));
                    },
                }
            },
            _ => {
                let v = self.pop1()?;
                match v {
                    Value::Int(x) => {
                        if x == i64::MIN {
                            return Err(overflow_error());
                        }
                        self.push(Value::Int(-x));
                    },
                    _ => {
                        return Err(LangError::Runtime(String::from_str("Unary '-' expects number")));
                    },
                }
            },
        }
        Ok(Some((chunk, ip)))
    }
}

} // verus!

verus! {

impl Vm {
    /// Instructions on locals, borrows and scopes.
    fn exec_locals(&mut self, chunk: ChunkId, ip: usize, ins: Instr) -> (r: Result<Option<(ChunkId, usize)>, LangError>)
        requires
            ins is LoadLocal || ins is DefineLocal || ins is StoreLocal || ins is BorrowLocal || ins is EnterScope
                || ins is ExitScope || ins is TempEnter || ins is TempExit,
        ensures
            took(v_exec(old(self)@, chunk, ip, ins), old(self)@, final(self)@, r),
    {
        match ins {
            Instr::LoadLocal { local, mode } => {
                let v = self.env.load(local, mode)?;
                self.push(v);
            },
            Instr::DefineLocal(l) => {
                let v = self.pop1()?;
                self.env.define(l, v)?;
            },
            Instr::StoreLocal(l) => {
                let v = self.pop1()?;
                self.env.store(l, v)?;
            },
            Instr::BorrowLocal { local, mut_ } => {
                let m = if mut_ { Mutability::Mut } else { Mutability::Imm };
                self.env.acquire(local, m)?;
                self.push(Value::Ref(RefTarget::Local(local), m));
            },
            Instr::EnterScope => self.env.enter_scope(),
            Instr::ExitScope => {
                self.env.exit_scope()?;
            },
            Instr::TempEnter => self.env.temp_enter(),
            _ => {
                self.env.temp_exit()?;
            },
        }
        Ok(Some((chunk, ip)))
    }

    /// `xs[i]` and `&xs[i]`: the index is on the stack.
    fn exec_index(&mut self, chunk: ChunkId, ip: usize, ins: Instr) -> (r: Result<Option<(ChunkId, usize)>, LangError>)
        requires
            ins is IndexLocal || ins is BorrowIndexLocal,
        ensures
            took(v_exec(old(self)@, chunk, ip, ins), old(self)@, final(self)@, r),
    {
        match ins {
            Instr::IndexLocal { base, base_mut: _ } => {
                let idx = self.pop_index()?;
                if base as usize >= self.env.locals.len() {
                    return Err(LangError::Runtime(String::from_str("Internal: bad local id")));
                }
                let item = match &self.env.locals[base as usize].value {
                    None => {
                        return Err(LangError::Runtime(String::from_str("Use after move")));
                    },
                    Some(Value::Vec(xs)) => {
                        if idx >= xs.len() {
                            return Err(
                                LangError::Runtime(
                                    cat2("Index out of bounds: ", usize_to_string(idx).as_str()).concat(
                                        " (len ",
                                    ).concat(usize_to_string(xs.len()).as_str()).concat(")"),
                                ),
                            );
                        }
                        assert(vvalues_view(xs@)[idx as int] == xs@[idx as int]@);
                        xs[idx].deep_clone()
                    },
                    Some(_) => {
                        return Err(LangError::Runtime(String::from_str("Indexing expects a vector")));
                    },
                };
                self.push(item);
            },
            Instr::BorrowIndexLocal { base, base_mut, mut_ } => {
                let idx = self.pop_index()?;
                self.env.acquire(base, base_mut)?;
                let m = if mut_ { Mutability::Mut } else { Mutability::Imm };
                self.push(Value::Ref(RefTarget::VecElem { local: base, index: idx }, m));
            },
            _ => {},
        }
        Ok(Some((chunk, ip)))
    }

    /// The binary operators.
    fn exec_binary(&mut self, chunk: ChunkId, ip: usize, ins: Instr) -> (r: Result<Option<(ChunkId, usize)>, LangError>)
        requires
            ins is Eq || ins is Ne || is_arith(ins),
        ensures
            took(v_exec(old(self)@, chunk, ip, ins), old(self)@, final(self)@, r),
    {
        let (a, b) = self.pop2()?;
        let v = match ins {
            Instr::Eq => Value::Bool(a.equals(&b)),
            Instr::Ne => Value::Bool(!a.equals(&b)),
            _ => arith(ins, a, b)?,
        };
        self.push(v);
        Ok(Some((chunk, ip)))
    }
}

/// The instruction's arithmetic on two integers, or the error for other values.
fn arith(ins: Instr, a: Value, b: Value) -> (r: Result<Value, LangError>)
    requires
        is_arith(ins),
    ensures
        match v_arith(ins, a@, b@) {
            Ok(v) => r matches Ok(x) && x@ == v,
            Err(e) => r matches Err(x) && x@ == e,
        },
{
    match (a, b) {
        (Value::Int(x), Value::Int(y)) => match ins {
            Instr::Add => match x.checked_add(y) {
                Some(v) => Ok(Value::Int(v)),
                None => Err(overflow_error()),
            },
            Instr::Sub => match x.checked_sub(y) {
                Some(v) => Ok(Value::Int(v)),
                None => Err(overflow_error()),
            },
            Instr::Mul => match x.checked_mul(y) {
                Some(v) => Ok(Value::Int(v)),
                None => Err(overflow_error()),
            },
            Instr::Div => if y == 0 {
                Err(LangError::Runtime(String::from_str("Division by zero")))
            } else if x == i64::MIN && y == -1 {
                Err(overflow_error())
            } else {
                Ok(Value::Int(div_trunc_exec(x, y)))
            },
            Instr::Mod => if y == 0 {
                Err(LangError::Runtime(String::from_str("Modulo by zero")))
            } else if x == i64::MIN && y == -1 {
                Err(overflow_error())
            } else {
                Ok(Value::Int(rem_trunc_exec(x, y)))
            },
            Instr::Lt => Ok(Value::Bool(x < y)),
            Instr::Le => Ok(Value::Bool(x <= y)),
            Instr::Gt => Ok(Value::Bool(x > y)),
            _ => Ok(Value::Bool(x >= y)),
        },
        _ => match ins {
            Instr::Div => Err(LangError::Runtime(String::from_str("Division expects numbers"))),
            Instr::Mod => Err(LangError::Runtime(String::from_str("Modulo expects numbers"))),
            Instr::Lt | Instr::Le | Instr::Gt | Instr::Ge => Err(
                LangError::Runtime(String::from_str("Ordering expects numbers")),
            ),
            _ => Err(LangError::Runtime(String::from_str("Arithmetic expects numbers"))),
        },
    }
}

} // verus!

verus! {

impl Env {
    /// Binds the parameters to the arguments, in order.
    fn bind(&mut self, params: &Vec<LocalId>, args: &Vec<Value>) -> (r: Result<(), LangError>)
        ensures
            match v_bind(old(self)@, params@, vvalues_view(args@), 0) {
                Ok(e) => r is Ok && final(self)@ == e,
                Err(x) => r matches Err(y) && y@ == x,
            },
    {
        let ghost av = vvalues_view(args@);
        let ghost goal = v_bind(self@, params@, av, 0);
        let mut i: usize = 0;
        while i < params.len() && i < args.len()
            invariant
                i <= params@.len(),
                i <= args@.len(),
                av == vvalues_view(args@),
                v_bind(self@, params@, av, i as int) == goal,
                goal == v_bind(old(self)@, params@, vvalues_view(args@), 0),
            decreases params@.len() - i,
        {
            assert(av[i as int] == args@[i as int]@);
            self.define(params[i], args[i].deep_clone())?;
            i += 1;
        }
        Ok(())
    }
}

impl Vm {
    /// Back to the caller with `v` on its stack; the program ends when there is none.
    fn return_to_caller(&mut self, v: Value) -> (r: Result<Option<(ChunkId, usize)>, LangError>)
        ensures
            took(return_to_caller(old(self)@, v@), old(self)@, final(self)@, r),
    {
        let ghost m = self@;
        match self.callstack.pop() {
            None => {
                proof {
                    assert(self@.callstack =~= m.callstack);
                }
                Ok(None)
            },
            Some(frame) => {
                proof {
                    assert(self@.callstack =~= m.callstack.drop_last());
                    assert(frame@ == m.callstack.last());
                    lemma_vvalues_subrange(self.stack@, 0, 0);
                    if frame.stack_base < self.stack@.len() {
                        lemma_vvalues_subrange(self.stack@, 0, frame.stack_base as int);
                    }
                }
                let ghost f = m.callstack.last();
                let ghost kept = if f.stack_base < m.stack.len() {
                    m.stack.subrange(0, f.stack_base as int)
                } else {
                    m.stack
                };
                self.env = frame.env;
                self.stack.truncate(frame.stack_base);
                proof {
                    assert(vvalues_view(self.stack@) =~= kept);
                    assert(self@.env == f.env);
                    assert(self@.callstack == m.callstack.drop_last());
                    assert(self@.bc == m.bc);
                    assert(self@.loops == m.loops);
                    assert(self@.out == m.out);
                }
                self.push(v);
                Ok(Some((frame.chunk, frame.ip)))
            },
        }
    }

    /// `print`: the value's text becomes the next line of output.
    fn exec_print(&mut self, chunk: ChunkId, ip: usize) -> (r: Result<Option<(ChunkId, usize)>, LangError>)
        ensures
            took(v_exec(old(self)@, chunk, ip, Instr::Print), old(self)@, final(self)@, r),
    {
        let v = self.pop1()?;
        let line = self.format(&v, u64::MAX)?;
        proof {
            lemma_strings_push(self.out@, line);
        }
        self.out.push(line);
        Ok(Some((chunk, ip)))
    }

    /// `return`: the scopes of the frame end, and the value goes to the caller.
    fn exec_return(&mut self, chunk: ChunkId, ip: usize) -> (r: Result<Option<(ChunkId, usize)>, LangError>)
        ensures
            took(v_exec(old(self)@, chunk, ip, Instr::Return), old(self)@, final(self)@, r),
    {
        let ret = self.pop1()?;
        self.env.unwind()?;
        self.return_to_caller(ret)
    }

    /// The start of a `for` loop: the vector of its elements is on the stack.
    fn exec_for_init(&mut self, chunk: ChunkId, ip: usize, var: LocalId, body_start: usize, end: usize) -> (r: Result<
        Option<(ChunkId, usize)>,
        LangError,
    >)
        ensures
            took(
                v_exec(old(self)@, chunk, ip, Instr::ForInit { var, body_start, end }),
                old(self)@,
                final(self)@,
                r,
            ),
    {
        let it = self.pop1()?;
        let it = self.env.resolve(&it)?;
        match it {
            Value::Vec(elems) => {
                if elems.len() == 0 {
                    return Ok(Some((chunk, end)));
                }
                assert(vvalues_view(elems@)[0] == elems@[0]@);
                let first = elems[0].deep_clone();
                self.env.define(var, first)?;
                let ghost m = self@;
                let frame = LoopFrame { var, elems, idx: 0, body_start, end };
                self.loops.push(frame);
                proof {
                    assert(self@.loops =~= m.loops.push(frame@));
                }
                Ok(Some((chunk, body_start)))
            },
            _ => Err(LangError::Runtime(String::from_str("for-in expects a vector"))),
        }
    }

    /// The end of a `for` loop's body: the next element, or out of the loop.
    fn exec_for_next(&mut self, chunk: ChunkId, ip: usize, body_start: usize, end: usize) -> (r: Result<
        Option<(ChunkId, usize)>,
        LangError,
    >)
        ensures
            took(v_exec(old(self)@, chunk, ip, Instr::ForNext { body_start, end }), old(self)@, final(self)@, r),
    {
        let ghost m = self@;
        let n = self.loops.len();
        if n == 0 {
            return Err(LangError::Runtime(String::from_str("Internal: ForNext without loop")));
        }
        assert(m.loops.last() == self.loops@[n - 1]@);
        let len = self.loops[n - 1].elems.len();
        let idx = self.loops[n - 1].idx;
        if idx >= len || idx + 1 >= len {
            self.loops.pop();
            proof {
                assert(self@.loops =~= m.loops.drop_last());
            }
            return Ok(Some((chunk, end)));
        }
        let next = idx + 1;
        assert(vvalues_view(self.loops@[n - 1].elems@)[next as int] == self.loops@[n - 1].elems@[next as int]@);
        let v = self.loops[n - 1].elems[next].deep_clone();
        let var = self.loops[n - 1].var;
        self.env.define(var, v)?;
        let ghost m2 = self@;
        self.loops[n - 1].idx = next;
        proof {
            assert(self@.loops =~= m2.loops.update(n - 1, VLoop { idx: next, ..m2.loops[n - 1] }));
        }
        Ok(Some((chunk, body_start)))
    }
}

} // verus!

verus! {

impl Vm {
    /// `Call`: the arguments are taken off the stack.
    fn exec_call(&mut self, chunk: ChunkId, ip: usize, callee: StrId, argc: u32) -> (r: Result<
        Option<(ChunkId, usize)>,
        LangError,
    >)
        ensures
            took(v_exec(old(self)@, chunk, ip, Instr::Call { callee, argc }), old(self)@, final(self)@, r),
    {
        let argc = argc as usize;
        if self.stack.len() < argc {
            return Err(LangError::Runtime(String::from_str("Stack underflow in Call")));
        }
        let start = self.stack.len() - argc;
        proof {
            lemma_vvalues_subrange(self.stack@, 0, start as int);
            lemma_vvalues_subrange(self.stack@, start as int, self.stack@.len() as int);
        }
        let args = self.stack.split_off(start);
        self.call(chunk, ip, callee, args)
    }

    /// A call of a built-in function or of a function of the program.
    fn call(&mut self, chunk: ChunkId, ip: usize, callee: StrId, args: Vec<Value>) -> (r: Result<
        Option<(ChunkId, usize)>,
        LangError,
    >)
        ensures
            took(v_call(old(self)@, chunk, ip, callee, vvalues_view(args@)), old(self)@, final(self)@, r),
    {
        if callee as usize >= self.bc.strings.len() {
            return Err(LangError::Runtime(String::from_str("Internal: bad string id")));
        }
        assert(self@.bc.strings[callee as int] == self.bc.strings@[callee as int]@);
        let name = self.bc.strings[callee as usize].clone();
        if name.eq(&String::from_str("len")) {
            self.call_len(chunk, ip, &args)
        } else if name.eq(&String::from_str("push")) {
            self.call_push(chunk, ip, &args)
        } else if name.eq(&String::from_str("set")) {
            self.call_set(chunk, ip, &args)
        } else if name.eq(&String::from_str("range")) {
            self.call_range(chunk, ip, &args)
        } else {
            self.call_user(chunk, ip, callee, &name, args)
        }
    }

    /// `len(x)`.
    fn call_len(&mut self, chunk: ChunkId, ip: usize, args: &Vec<Value>) -> (r: Result<Option<(ChunkId, usize)>, LangError>)
        ensures
            took(v_call_len(old(self)@, chunk, ip, vvalues_view(args@)), old(self)@, final(self)@, r),
    {
        if args.len() != 1 {
            return Err(LangError::Runtime(String::from_str("len(x) expects 1 argument")));
        }
        assert(vvalues_view(args@)[0] == args@[0]@);
        let v = self.env.resolve(&args[0])?;
        match v {
            Value::Str(s) => self.push(Value::Int(s.as_str().len() as i64)),
            Value::Vec(xs) => {
                assert(vvalues_view(xs@).len() == xs@.len());
                self.push(Value::Int(xs.len() as i64));
            },
            _ => {
                return Err(LangError::Runtime(String::from_str("len() expects string or vector")));
            },
        }
        Ok(Some((chunk, ip)))
    }
}

} // verus!

verus! {

impl Vm {
    /// Takes the value out of the local `l`, leaving it empty with its borrows.
    fn take_local(&mut self, l: LocalId) -> (r: Option<Value>)
        requires
            (l as int) < old(self)@.env.locals.len(),
        ensures
            vopt_view(r) == old(self)@.env.locals[l as int].value,
            final(self)@ == with_env(
                old(self)@,
                put_slot(old(self)@.env, l, VSlot { value: None, ..old(self)@.env.locals[l as int] }),
            ),
    {
        let ghost m = self@;
        let (immut, mut_) = (self.env.locals[l as usize].borrows.immut, self.env.locals[l as usize].borrows.mut_);
        let mut taken = Slot { value: None, borrows: BorrowState { immut, mut_ } };
        std::mem::swap(&mut taken, &mut self.env.locals[l as usize]);
        proof {
            assert(self@.env.locals =~= m.env.locals.update(l as int, VSlot { value: None, ..m.env.locals[l as int] }));
            assert(self@.env.scope_log =~= m.env.scope_log);
            assert(self@.env.temp_log =~= m.env.temp_log);
        }
        taken.value
    }

    /// Puts a value in the local `l`, keeping its borrows.
    fn put_local(&mut self, l: LocalId, v: Value)
        requires
            (l as int) < old(self)@.env.locals.len(),
        ensures
            final(self)@ == with_env(
                old(self)@,
                put_slot(old(self)@.env, l, VSlot { value: Some(v@), ..old(self)@.env.locals[l as int] }),
            ),
    {
        let (immut, mut_) = (self.env.locals[l as usize].borrows.immut, self.env.locals[l as usize].borrows.mut_);
        self.env.put(l, Some(v), immut, mut_);
    }

    /// `push(&mut xs, v)`.
    fn call_push(&mut self, chunk: ChunkId, ip: usize, args: &Vec<Value>) -> (r: Result<Option<(ChunkId, usize)>, LangError>)
        ensures
            took(v_call_push(old(self)@, chunk, ip, vvalues_view(args@)), old(self)@, final(self)@, r),
    {
        if args.len() != 2 {
            return Err(LangError::Runtime(String::from_str("push(&mut vec, value) expects 2 arguments")));
        }
        assert(vvalues_view(args@)[0] == args@[0]@);
        assert(vvalues_view(args@)[1] == args@[1]@);
        let (l, m) = match &args[0] {
            Value::Ref(RefTarget::Local(l), m) => (*l, *m),
            _ => {
                return Err(LangError::Runtime(String::from_str("push first argument must be &mut vec variable")));
            },
        };
        if m != Mutability::Mut {
            return Err(LangError::Runtime(String::from_str("push requires &mut vec")));
        }
        if l as usize >= self.env.locals.len() {
            return Err(LangError::Runtime(String::from_str("Internal: bad local id")));
        }
        let v = args[1].deep_clone();
        let ghost m0 = self@;
        match self.take_local(l) {
            None => Err(LangError::Runtime(String::from_str("Use after move"))),
            Some(Value::Vec(mut xs)) => {
                proof {
                    lemma_vvalues_push(xs@, v);
                }
                xs.push(v);
                self.put_local(l, Value::Vec(xs));
                proof {
                    assert(put_slot(put_slot(m0.env, l, VSlot { value: None, ..m0.env.locals[l as int] }), l, VSlot {
                        value: Some(VValue::Vec(vvalues_view(xs@))),
                        ..m0.env.locals[l as int]
                    }).locals =~= put_slot(m0.env, l, VSlot {
                        value: Some(VValue::Vec(vvalues_view(xs@))),
                        ..m0.env.locals[l as int]
                    }).locals);
                }
                self.push(Value::Unit);
                Ok(Some((chunk, ip)))
            },
            Some(other) => {
                self.put_local(l, other);
                Err(LangError::Runtime(String::from_str("push target must be a vector")))
            },
        }
    }

    /// `set(&mut xs[i], v)`.
    fn call_set(&mut self, chunk: ChunkId, ip: usize, args: &Vec<Value>) -> (r: Result<Option<(ChunkId, usize)>, LangError>)
        ensures
            took(v_call_set(old(self)@, chunk, ip, vvalues_view(args@)), old(self)@, final(self)@, r),
    {
        if args.len() != 2 {
            return Err(LangError::Runtime(String::from_str("set(&mut elem_ref, value) expects 2 arguments")));
        }
        assert(vvalues_view(args@)[0] == args@[0]@);
        assert(vvalues_view(args@)[1] == args@[1]@);
        let (l, index, m) = match &args[0] {
            Value::Ref(RefTarget::VecElem { local, index }, m) => (*local, *index, *m),
            _ => {
                return Err(LangError::Runtime(String::from_str("set first argument must be &mut (xs[i])")));
            },
        };
        if m != Mutability::Mut {
            return Err(LangError::Runtime(String::from_str("set requires a mutable element reference")));
        }
        if l as usize >= self.env.locals.len() {
            return Err(LangError::Runtime(String::from_str("Internal: bad local id")));
        }
        let v = args[1].deep_clone();
        let ghost m0 = self@;
        match self.take_local(l) {
            None => Err(LangError::Runtime(String::from_str("Use after move"))),
            Some(Value::Vec(mut xs)) => {
                if index >= xs.len() {
                    let msg = cat2("Index out of bounds: ", usize_to_string(index).as_str()).concat(" (len ").concat(
                        usize_to_string(xs.len()).as_str(),
                    ).concat(")");
                    self.put_local(l, Value::Vec(xs));
                    return Err(LangError::Runtime(msg));
                }
                proof {
                    assert(vvalues_view(xs@.update(index as int, v)) =~= vvalues_view(xs@).update(index as int, v@));
                }
                xs.set(index, v);
                self.put_local(l, Value::Vec(xs));
                proof {
                    assert(put_slot(put_slot(m0.env, l, VSlot { value: None, ..m0.env.locals[l as int] }), l, VSlot {
                        value: Some(VValue::Vec(vvalues_view(xs@))),
                        ..m0.env.locals[l as int]
                    }).locals =~= put_slot(m0.env, l, VSlot {
                        value: Some(VValue::Vec(vvalues_view(xs@))),
                        ..m0.env.locals[l as int]
                    }).locals);
                }
                self.push(Value::Unit);
                Ok(Some((chunk, ip)))
            },
            Some(other) => {
                self.put_local(l, other);
                Err(LangError::Runtime(String::from_str("set target base must be a vector")))
            },
        }
    }

    /// `range(end)` or `range(start, end)`.
    fn call_range(&mut self, chunk: ChunkId, ip: usize, args: &Vec<Value>) -> (r: Result<Option<(ChunkId, usize)>, LangError>)
        ensures
            took(v_call_range(old(self)@, chunk, ip, vvalues_view(args@)), old(self)@, final(self)@, r),
    {
        if !(args.len() == 1 || args.len() == 2) {
            return Err(
                LangError::Runtime(String::from_str("range(end) or range(start, end) expects 1 or 2 arguments")),
            );
        }
        assert(vvalues_view(args@)[0] == args@[0]@);
        let a = if args.len() == 1 {
            Value::Int(0)
        } else {
            self.env.resolve(&args[0])?
        };
        let b = if args.len() == 1 {
            self.env.resolve(&args[0])?
        } else {
            assert(vvalues_view(args@)[1] == args@[1]@);
            self.env.resolve(&args[1])?
        };
        let (x, y) = match (a, b) {
            (Value::Int(x), Value::Int(y)) => (x, y),
            _ => {
                return Err(LangError::Runtime(String::from_str("range() expects number arguments")));
            },
        };
        let s = to_index_exec(x, "range start")?;
        let t = to_index_exec(y, "range end")?;
        let s = s as i64;
        let t = t as i64;
        let mut out: Vec<Value> = Vec::new();
        let mut i = s;
        proof {
            lemma_vvalues_push(Seq::empty(), Value::Unit);
        }
        while i < t
            invariant
                s <= i,
                i == s || i <= t,
                vvalues_view(out@) =~= Seq::new((i - s) as nat, |k: int| VValue::Int((s + k) as i64)),
            decreases t - i,
        {
            proof {
                lemma_vvalues_push(out@, Value::Int(i));
            }
            out.push(Value::Int(i));
            i += 1;
        }
        proof {
            assert(vvalues_view(out@) =~= int_range(s, t));
        }
        self.push(Value::Vec(out));
        Ok(Some((chunk, ip)))
    }

    /// A call of a function of the program.
    fn call_user(&mut self, chunk: ChunkId, ip: usize, callee: StrId, name: &String, args: Vec<Value>) -> (r: Result<
        Option<(ChunkId, usize)>,
        LangError,
    >)
        ensures
            took(v_call_user(old(self)@, chunk, ip, callee, name@, vvalues_view(args@)), old(self)@, final(self)@, r),
    {
        let fc = match find_fn_chunk(&self.bc.fns, callee) {
            Some(fc) => fc,
            None => {
                return Err(LangError::Runtime(cat2("Unknown function: ", name.as_str())));
            },
        };
        if fc as usize >= self.bc.chunks.len() {
            return Err(LangError::Runtime(String::from_str("Internal: bad chunk id")));
        }
        assert(self@.bc.chunks[fc as int] == self.bc.chunks@[fc as int]@);
        let nparams = self.bc.chunks[fc as usize].params.len();
        if nparams != args.len() {
            return Err(crate::interpreter::arity_error(name, nparams, args.len()));
        }
        let lc = self.bc.chunks[fc as usize].local_count;
        let ghost m = self@;
        let mut env = Env::with_local_count(lc);
        std::mem::swap(&mut env, &mut self.env);
        let frame = CallFrame { chunk, ip, stack_base: self.stack.len(), env };
        self.callstack.push(frame);
        proof {
            assert(self@.callstack =~= m.callstack.push(frame@));
        }
        self.env.bind(&self.bc.chunks[fc as usize].params, &args)?;
        Ok(Some((fc, 0)))
    }
}

} // verus!

verus! {

impl Vm {
    /// One step: the instruction at `ip` of the chunk `chunk`, or past the end of
    /// the chunk an implicit `return ()`.
    fn step(&mut self, chunk: ChunkId, ip: usize) -> (r: Result<Option<(ChunkId, usize)>, LangError>)
        ensures
            took(v_step(old(self)@, chunk, ip), old(self)@, final(self)@, r),
    {
        if chunk as usize >= self.bc.chunks.len() {
            return Err(LangError::Runtime(String::from_str("Internal: bad chunk id")));
        }
        assert(self@.bc.chunks[chunk as int] == self.bc.chunks@[chunk as int]@);
        let n = self.bc.chunks[chunk as usize].code.len();
        if ip >= n {
            return self.return_to_caller(Value::Unit);
        }
        let ins = self.bc.chunks[chunk as usize].code[ip];
        let next = ip + 1;
        match ins {
            Instr::PushInt(_)
            | Instr::PushBool(_)
            | Instr::PushStr(_)
            | Instr::PushUnit
            | Instr::VecMake(_)
            | Instr::Pop
            | Instr::Jump(_)
            | Instr::JumpIfFalse(_)
            | Instr::Neg => self.exec_simple(chunk, next, ins),
            Instr::LoadLocal { .. }
            | Instr::DefineLocal(_)
            | Instr::StoreLocal(_)
            | Instr::BorrowLocal { .. }
            | Instr::EnterScope
            | Instr::ExitScope
            | Instr::TempEnter
            | Instr::TempExit => self.exec_locals(chunk, next, ins),
            Instr::IndexLocal { .. } | Instr::BorrowIndexLocal { .. } => self.exec_index(chunk, next, ins),
            Instr::Eq
            | Instr::Ne
            | Instr::Add
            | Instr::Sub
            | Instr::Mul
            | Instr::Div
            | Instr::Mod
            | Instr::Lt
            | Instr::Le
            | Instr::Gt
            | Instr::Ge => self.exec_binary(chunk, next, ins),
            Instr::Call { callee, argc } => self.exec_call(chunk, next, callee, argc),
            Instr::Return => self.exec_return(chunk, next),
            Instr::Print => self.exec_print(chunk, next),
            Instr::ForInit { var, body_start, end } => self.exec_for_init(chunk, next, var, body_start, end),
            Instr::ForNext { body_start, end } => self.exec_for_next(chunk, next, body_start, end),
        }
    }

    /// Runs from the start of the chunk `start_chunk` for at most `fuel` steps,
    /// until the program ends or fails.
    fn run_chunk(&mut self, start_chunk: ChunkId, fuel: u64) -> (r: Result<(), LangError>)
        ensures
            final(self)@.out == v_run(old(self)@, start_chunk, 0, fuel as nat).0,
            match v_run(old(self)@, start_chunk, 0, fuel as nat).1 {
                Ok(m2) => r is Ok && final(self)@ == m2,
                Err(e) => r matches Err(x) && x@ == e,
            },
    {
        let ghost goal = v_run(self@, start_chunk, 0, fuel as nat);
        let mut chunk = start_chunk;
        let mut ip: usize = 0;
        let mut f = fuel;
        while f > 0
            invariant
                v_run(self@, chunk, ip, f as nat) == goal,
                goal == v_run(old(self)@, start_chunk, 0, fuel as nat),
            decreases f,
        {
            match self.step(chunk, ip) {
                Ok(Some((c, i))) => {
                    chunk = c;
                    ip = i;
                    f = f - 1;
                },
                Ok(None) => {
                    return Ok(());
                },
                Err(e) => {
                    return Err(e);
                },
            }
        }
        Err(LangError::Runtime(String::from_str("Step limit reached")))
    }

    /// Runs the program's top level to its end.
    pub fn run_main(&mut self) -> (r: Result<(), LangError>)
        ensures
            final(self)@.out == v_run(old(self)@, old(self)@.bc.main, 0, u64::MAX as nat).0,
            match v_run(old(self)@, old(self)@.bc.main, 0, u64::MAX as nat).1 {
                Ok(m2) => r is Ok && final(self)@ == m2,
                Err(e) => r matches Err(x) && x@ == e,
            },
    {
        let main = self.bc.main;
        self.run_chunk(main, u64::MAX)
    }
}

} // verus!

verus! {

/// `a` is the beginning of `b`.
pub open spec fn extends(b: Seq<Seq<char>>, a: Seq<Seq<char>>) -> bool {
    a.len() <= b.len() && b.subrange(0, a.len() as int) =~= a
}

proof fn lemma_call_keeps_out(m: VState, chunk: ChunkId, ip: usize, callee: StrId, args: Seq<VValue>)
    ensures
        v_call(m, chunk, ip, callee, args) matches VStep::Next(m2, _, _) ==> m2.out == m.out,
        v_call(m, chunk, ip, callee, args) matches VStep::Halt(m2) ==> m2.out == m.out,
{
}

/// An instruction prints at most one line, after those printed before.
#[verifier::rlimit(50)]
proof fn lemma_exec_out(m: VState, chunk: ChunkId, ip: usize, ins: Instr)
    ensures
        v_exec(m, chunk, ip, ins) matches VStep::Next(m2, _, _) ==> extends(m2.out, m.out),
        v_exec(m, chunk, ip, ins) matches VStep::Halt(m2) ==> extends(m2.out, m.out),
{
    match ins {
        Instr::Call { callee, argc } => {
            if m.stack.len() >= argc {
                let start = m.stack.len() - argc;
                lemma_call_keeps_out(
                    with_stack(m, m.stack.subrange(0, start)),
                    chunk,
                    ip,
                    callee,
                    m.stack.subrange(start, m.stack.len() as int),
                );
            }
        },
        Instr::Print => {
            if let VStep::Next(m2, _, _) = v_exec(m, chunk, ip, ins) {
                assert(m2.out.subrange(0, m.out.len() as int) =~= m.out);
            }
        },
        _ => {},
    }
}

/// A step prints at most one line, after those printed before.
proof fn lemma_step_out(m: VState, chunk: ChunkId, ip: usize)
    ensures
        v_step(m, chunk, ip) matches VStep::Next(m2, _, _) ==> extends(m2.out, m.out),
        v_step(m, chunk, ip) matches VStep::Halt(m2) ==> extends(m2.out, m.out),
{
    if (chunk as int) < m.bc.chunks.len() {
        let code = m.bc.chunks[chunk as int].code;
        if ip < code.len() {
            lemma_exec_out(m, chunk, (ip + 1) as usize, code[ip as int]);
        }
    }
}

/// Lines printed are never taken back: whatever a run ends in, its output begins
/// with the output before it.
pub proof fn law_output_only_grows(m: VState, chunk: ChunkId, ip: usize, fuel: nat)
    ensures
        extends(v_run(m, chunk, ip, fuel).0, m.out),
    decreases fuel,
{
    if fuel > 0 {
        lemma_step_out(m, chunk, ip);
        match v_step(m, chunk, ip) {
            VStep::Next(m2, c2, ip2) => {
                law_output_only_grows(m2, c2, ip2, (fuel - 1) as nat);
                let o = v_run(m2, c2, ip2, (fuel - 1) as nat).0;
                assert(o.subrange(0, m.out.len() as int) =~= o.subrange(0, m2.out.len() as int).subrange(
                    0,
                    m.out.len() as int,
                ));
            },
            _ => {},
        }
    }
}

} // verus!
