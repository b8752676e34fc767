use vstd::prelude::*;
use vstd::string::StringExecFns;

use crate::ast::{
    bx, esize, esizes, expr_debug, exprs_view, items_view, lemma_esizes, lemma_ssizes, ssize, ssizes, stmts_view, strings_view,
    Expr, FnDef, Item, Program, SpecExpr, SpecFnDef, SpecItem, SpecStmt, Stmt,
};
use crate::bytecode::{
    chunks_view, empty_chunk, fn_chunk, find_fn_chunk, BytecodeProgram, Chunk, ChunkId, Instr, LoadMode,
    LocalId, Mutability, SBytecode, SChunk, StrId,
};
use crate::error::{LangError, SpecError};
use crate::interpreter::env::rt;
use crate::text::{cat2, cat3};

verus! {

// ---------------------------------------------------------------------------
// The model of the compiler.
// ---------------------------------------------------------------------------

/// The compiler's state: interned strings (a string's id is its position), the
/// chunks made so far, the chunk of each function, and while a chunk is being
/// compiled its scopes of locals and the next free local.
pub struct SComp {
    pub strings: Seq<Seq<char>>,
    pub chunks: Seq<SChunk>,
    pub fns: Seq<(StrId, ChunkId)>,
    pub scopes: Seq<Seq<(StrId, LocalId)>>,
    pub next_local: LocalId,
}

/// A step of the compiler: the state it leaves, and its answer.
pub type CRes<T> = (SComp, Result<T, SpecError>);

/// The position of `s` among `strings` from `i` on.
pub open spec fn str_find(strings: Seq<Seq<char>>, s: Seq<char>, i: int) -> Option<int>
    decreases strings.len() - i,
{
    if i < 0 || i >= strings.len() {
        None
    } else if strings[i] == s {
        Some(i)
    } else {
        str_find(strings, s, i + 1)
    }
}

/// The id of `s`, interned on first use.
pub open spec fn intern(c: SComp, s: Seq<char>) -> (SComp, StrId) {
    match str_find(c.strings, s, 0) {
        Some(k) => (c, k as StrId),
        None => (SComp { strings: c.strings.push(s), ..c }, c.strings.len() as StrId),
    }
}

/// A new empty chunk and its id.
pub open spec fn alloc_chunk(c: SComp) -> (SComp, ChunkId) {
    (SComp { chunks: c.chunks.push(empty_chunk()), ..c }, c.chunks.len() as ChunkId)
}

pub open spec fn begin_chunk(c: SComp) -> SComp {
    SComp { scopes: seq![Seq::empty()], next_local: 0, ..c }
}

pub open spec fn end_chunk(c: SComp, cid: ChunkId) -> SComp {
    let ch = c.chunks[cid as int];
    SComp {
        chunks: c.chunks.update(cid as int, SChunk { local_count: c.next_local as usize, ..ch }),
        scopes: Seq::empty(),
        ..c
    }
}

pub open spec fn push_scope(c: SComp) -> SComp {
    SComp { scopes: c.scopes.push(Seq::empty()), ..c }
}

pub open spec fn pop_scope(c: SComp) -> SComp {
    if c.scopes.len() == 0 {
        c
    } else {
        SComp { scopes: c.scopes.drop_last(), ..c }
    }
}

/// The position of `name` in a scope, from `i` on.
pub open spec fn key_find(sc: Seq<(StrId, LocalId)>, name: StrId, i: int) -> Option<int>
    decreases sc.len() - i,
{
    if i < 0 || i >= sc.len() {
        None
    } else if sc[i].0 == name {
        Some(i)
    } else {
        key_find(sc, name, i + 1)
    }
}

/// Binds `name` to `local` in a scope, in place of an earlier binding.
pub open spec fn scope_insert(sc: Seq<(StrId, LocalId)>, name: StrId, local: LocalId) -> Seq<(StrId, LocalId)> {
    match key_find(sc, name, 0) {
        Some(j) => sc.update(j, (name, local)),
        None => sc.push((name, local)),
    }
}

/// Binds `name` in the innermost scope.
pub open spec fn bind_in_top(c: SComp, name: StrId, local: LocalId) -> SComp {
    let k = c.scopes.len() - 1;
    SComp { scopes: c.scopes.update(k, scope_insert(c.scopes[k], name, local)), ..c }
}

/// A fresh local for `name`, bound in the innermost scope.
pub open spec fn define_local(c: SComp, name: StrId) -> (SComp, LocalId) {
    let local = c.next_local;
    (bind_in_top(SComp { next_local: local.wrapping_add(1), ..c }, name, local), local)
}

/// The local bound to `name`, searching the scopes from `k` down to the outermost.
pub open spec fn resolve_from(scopes: Seq<Seq<(StrId, LocalId)>>, name: StrId, k: int) -> Option<LocalId>
    decreases k + 1,
{
    if k < 0 || k >= scopes.len() {
        None
    } else {
        match key_find(scopes[k], name, 0) {
            Some(j) => Some(scopes[k][j].1),
            None => resolve_from(scopes, name, k - 1),
        }
    }
}

pub open spec fn resolve_local(c: SComp, name: StrId) -> Option<LocalId> {
    resolve_from(c.scopes, name, c.scopes.len() - 1)
}

/// Appends an instruction to the chunk `cid`.
pub open spec fn emit(c: SComp, cid: ChunkId, ins: Instr) -> SComp {
    let ch = c.chunks[cid as int];
    SComp { chunks: c.chunks.update(cid as int, SChunk { code: ch.code.push(ins), ..ch }), ..c }
}

/// Replaces the instruction at `pos` of the chunk `cid`.
pub open spec fn patch(c: SComp, cid: ChunkId, pos: int, ins: Instr) -> SComp {
    let ch = c.chunks[cid as int];
    SComp { chunks: c.chunks.update(cid as int, SChunk { code: ch.code.update(pos, ins), ..ch }), ..c }
}

pub open spec fn code_len(c: SComp, cid: ChunkId) -> int {
    c.chunks[cid as int].code.len() as int
}

pub open spec fn unknown_variable(name: Seq<char>) -> SpecError {
    SpecError::Runtime("Unknown variable: "@ + name)
}

pub open spec fn is_operator(e: SpecExpr) -> bool {
    e is Add || e is Sub || e is Mul || e is Div || e is Mod || e is Eq || e is Ne || e is Lt || e is Le
        || e is Gt || e is Ge
}

pub open spec fn is_builtin_name(s: Seq<char>) -> bool {
    s == "len"@ || s == "push"@ || s == "set"@ || s == "range"@
}

pub open spec fn bad_base(e: SpecExpr) -> SpecError {
    SpecError::Runtime("Index base must be ident or &ident / &mut ident, got "@ + expr_debug(e))
}

/// The local of a variable, for a load, a store or a borrow of it.
pub open spec fn local_of(c: SComp, name: Seq<char>) -> CRes<LocalId> {
    let (c1, id) = intern(c, name);
    match resolve_local(c1, id) {
        None => (c1, Err(unknown_variable(name))),
        Some(l) => (c1, Ok(l)),
    }
}

/// The base of an index: `xs`, `&xs` or `&mut xs`, with the kind of borrow.
pub open spec fn c_base(c: SComp, base: SpecExpr) -> CRes<(LocalId, Mutability)> {
    match base {
        SpecExpr::Ident(name) => match local_of(c, name) {
            (c1, Err(x)) => (c1, Err(x)),
            (c1, Ok(l)) => (c1, Ok((l, Mutability::Imm))),
        },
        SpecExpr::Borrow { mut_, expr } => match *expr {
            SpecExpr::Ident(name) => match local_of(c, name) {
                (c1, Err(x)) => (c1, Err(x)),
                (c1, Ok(l)) => (c1, Ok((l, if mut_ { Mutability::Mut } else { Mutability::Imm }))),
            },
            other => (c, Err(bad_base(other))),
        },
        other => (c, Err(bad_base(other))),
    }
}

/// The code of an expression, appended to the chunk `cid`: it leaves the value on
/// the stack.
pub open spec fn c_expr(c: SComp, cid: ChunkId, e: SpecExpr) -> CRes<()>
    decreases esize(e), 3int,
{
    match e {
        SpecExpr::Int(n) => (emit(c, cid, Instr::PushInt(n)), Ok(())),
        SpecExpr::Bool(b) => (emit(c, cid, Instr::PushBool(b)), Ok(())),
        SpecExpr::Str(s) => {
            let (c1, id) = intern(c, s);
            (emit(c1, cid, Instr::PushStr(id)), Ok(()))
        },
        SpecExpr::VecLit(xs) => match c_exprs(c, cid, xs, 0) {
            (c1, Err(x)) => (c1, Err(x)),
            (c1, Ok(_)) => (emit(c1, cid, Instr::VecMake(xs.len() as u32)), Ok(())),
        },
        SpecExpr::Ident(name) => match local_of(c, name) {
            (c1, Err(x)) => (c1, Err(x)),
            (c1, Ok(l)) => (emit(c1, cid, Instr::LoadLocal { local: l, mode: LoadMode::Move }), Ok(())),
        },
        SpecExpr::Borrow { mut_, expr } => c_borrow(c, cid, mut_, *expr),
        SpecExpr::Index { base, index } => match c_base(c, *base) {
            (c1, Err(x)) => (c1, Err(x)),
            (c1, Ok((l, bm))) => match c_expr(c1, cid, *index) {
                (c2, Err(x)) => (c2, Err(x)),
                (c2, Ok(_)) => (emit(c2, cid, Instr::IndexLocal { base: l, base_mut: bm }), Ok(())),
            },
        },
        SpecExpr::Neg { expr } => match c_expr(c, cid, *expr) {
            (c1, Err(x)) => (c1, Err(x)),
            (c1, Ok(_)) => (emit(c1, cid, Instr::Neg), Ok(())),
        },
        SpecExpr::Add { left, right } => c_binary(c, cid, *left, *right, Instr::Add),
        SpecExpr::Sub { left, right } => c_binary(c, cid, *left, *right, Instr::Sub),
        SpecExpr::Mul { left, right } => c_binary(c, cid, *left, *right, Instr::Mul),
        SpecExpr::Div { left, right } => c_binary(c, cid, *left, *right, Instr::Div),
        SpecExpr::Mod { left, right } => c_binary(c, cid, *left, *right, Instr::Mod),
        SpecExpr::Eq { left, right } => c_binary(c, cid, *left, *right, Instr::Eq),
        SpecExpr::Ne { left, right } => c_binary(c, cid, *left, *right, Instr::Ne),
        SpecExpr::Lt { left, right } => c_binary(c, cid, *left, *right, Instr::Lt),
        SpecExpr::Le { left, right } => c_binary(c, cid, *left, *right, Instr::Le),
        SpecExpr::Gt { left, right } => c_binary(c, cid, *left, *right, Instr::Gt),
        SpecExpr::Ge { left, right } => c_binary(c, cid, *left, *right, Instr::Ge),
        SpecExpr::Call { callee, args } => {
            let (c1, id) = intern(c, callee);
            if fn_chunk(c1.fns, id, 0) is None && !is_builtin_name(callee) {
                (c1, Err(SpecError::Runtime("Unknown function: "@ + callee)))
            } else {
                match c_exprs(c1, cid, args, 0) {
                    (c2, Err(x)) => (c2, Err(x)),
                    (c2, Ok(_)) => (emit(c2, cid, Instr::Call { callee: id, argc: args.len() as u32 }), Ok(())),
                }
            }
        },
    }
}

/// Both operands, left first, then the operator.
pub open spec fn c_binary(c: SComp, cid: ChunkId, left: SpecExpr, right: SpecExpr, op: Instr) -> CRes<()>
    decreases esize(left) + esize(right) + 1, 2int,
{
    match c_expr(c, cid, left) {
        (c1, Err(x)) => (c1, Err(x)),
        (c1, Ok(_)) => match c_expr(c1, cid, right) {
            (c2, Err(x)) => (c2, Err(x)),
            (c2, Ok(_)) => (emit(c2, cid, op), Ok(())),
        },
    }
}

/// The expressions of `xs` from `i` on, in order.
pub open spec fn c_exprs(c: SComp, cid: ChunkId, xs: Seq<SpecExpr>, i: int) -> CRes<()>
    decreases esizes(xs) + 1, xs.len() - i,
{
    if i < 0 || i >= xs.len() {
        (c, Ok(()))
    } else {
        proof {
            lemma_esizes(xs, i);
        }
        match c_expr(c, cid, xs[i]) {
            (c1, Err(x)) => (c1, Err(x)),
            (c1, Ok(_)) => c_exprs(c1, cid, xs, i + 1),
        }
    }
}

/// `&e` or `&mut e`: a variable or an element `xs[i]`.
pub open spec fn c_borrow(c: SComp, cid: ChunkId, mut_: bool, e: SpecExpr) -> CRes<()>
    decreases esize(e) + 1, 2int,
{
    match e {
        SpecExpr::Ident(name) => match local_of(c, name) {
            (c1, Err(x)) => (c1, Err(x)),
            (c1, Ok(l)) => (emit(c1, cid, Instr::BorrowLocal { local: l, mut_ }), Ok(())),
        },
        SpecExpr::Index { base, index } => match c_base(c, *base) {
            (c1, Err(x)) => (c1, Err(x)),
            (c1, Ok((l, bm))) => match c_expr(c1, cid, *index) {
                (c2, Err(x)) => (c2, Err(x)),
                (c2, Ok(_)) => (emit(c2, cid, Instr::BorrowIndexLocal { base: l, base_mut: bm, mut_ }), Ok(())),
            },
        },
        other => (
            c,
            Err(SpecError::Runtime("Unsupported borrow target (only var or index): "@ + expr_debug(other))),
        ),
    }
}

/// `code` with the statement's instructions appended, between its temporary
/// frame markers.
pub open spec fn c_temp_stmt(c: SComp, cid: ChunkId, e: SpecExpr, last: Instr) -> CRes<()> {
    match c_expr(emit(c, cid, Instr::TempEnter), cid, e) {
        (c1, Err(x)) => (c1, Err(x)),
        (c1, Ok(_)) => (emit(emit(c1, cid, last), cid, Instr::TempExit), Ok(())),
    }
}

/// A block in a scope of its own, at run time and at compile time.
pub open spec fn c_block(c: SComp, cid: ChunkId, body: Seq<SpecStmt>) -> CRes<()>
    decreases ssizes(body) + 1, body.len() + 1,
{
    match c_stmts(push_scope(emit(c, cid, Instr::EnterScope)), cid, body, 0) {
        (c1, Err(x)) => (c1, Err(x)),
        (c1, Ok(_)) => (emit(pop_scope(c1), cid, Instr::ExitScope), Ok(())),
    }
}

/// The code of a statement, appended to the chunk `cid`.
pub open spec fn c_stmt(c: SComp, cid: ChunkId, s: SpecStmt) -> CRes<()>
    decreases ssize(s), 0int,
{
    match s {
        SpecStmt::Let { name, expr } => match c_expr(c, cid, expr) {
            (c1, Err(x)) => (c1, Err(x)),
            (c1, Ok(_)) => {
                let (c2, id) = intern(c1, name);
                let (c3, l) = define_local(c2, id);
                (emit(c3, cid, Instr::DefineLocal(l)), Ok(()))
            },
        },
        SpecStmt::Assign { name, expr } => match local_of(c, name) {
            (c1, Err(x)) => (c1, Err(x)),
            (c1, Ok(l)) => match c_expr(c1, cid, expr) {
                (c2, Err(x)) => (c2, Err(x)),
                (c2, Ok(_)) => (emit(c2, cid, Instr::StoreLocal(l)), Ok(())),
            },
        },
        SpecStmt::Print { expr } => c_temp_stmt(c, cid, expr, Instr::Print),
        SpecStmt::ExprStmt { expr } => c_temp_stmt(c, cid, expr, Instr::Pop),
        SpecStmt::Return(e) => match c_expr(c, cid, e) {
            (c1, Err(x)) => (c1, Err(x)),
            (c1, Ok(_)) => (emit(c1, cid, Instr::Return), Ok(())),
        },
        SpecStmt::If { cond, then_body, else_body } => match c_expr(c, cid, cond) {
            (c1, Err(x)) => (c1, Err(x)),
            (c1, Ok(_)) => {
                let jf_pos = code_len(c1, cid);
                match c_block(emit(c1, cid, Instr::JumpIfFalse(0)), cid, then_body) {
                    (c2, Err(x)) => (c2, Err(x)),
                    (c2, Ok(_)) => {
                        let j_pos = code_len(c2, cid);
                        let c3 = emit(c2, cid, Instr::Jump(0));
                        let else_start = code_len(c3, cid);
                        let c4 = patch(c3, cid, jf_pos, Instr::JumpIfFalse(else_start as usize));
                        match c_block(c4, cid, else_body) {
                            (c5, Err(x)) => (c5, Err(x)),
                            (c5, Ok(_)) => (
                                patch(c5, cid, j_pos, Instr::Jump(code_len(c5, cid) as usize)),
                                Ok(()),
                            ),
                        }
                    },
                }
            },
        },
        SpecStmt::For { var, iter, body } => match c_expr(c, cid, iter) {
            (c1, Err(x)) => (c1, Err(x)),
            (c1, Ok(_)) => {
                let (c2, var_id) = intern(c1, var);
                let (c3, var_local) = define_local(c2, var_id);
                let init_pos = code_len(c3, cid);
                let c4 = emit(c3, cid, Instr::ForInit { var: var_local, body_start: 0, end: 0 });
                let body_start = code_len(c4, cid) as usize;
                let c5 = patch(c4, cid, init_pos, Instr::ForInit { var: var_local, body_start, end: 0 });
                let c6 = bind_in_top(push_scope(emit(c5, cid, Instr::EnterScope)), var_id, var_local);
                match c_stmts(c6, cid, body, 0) {
                    (c7, Err(x)) => (c7, Err(x)),
                    (c7, Ok(_)) => {
                        let c8 = emit(pop_scope(c7), cid, Instr::ExitScope);
                        let next_pos = code_len(c8, cid);
                        let c9 = emit(c8, cid, Instr::ForNext { body_start, end: 0 });
                        let end = code_len(c9, cid) as usize;
                        let c10 = patch(c9, cid, init_pos, Instr::ForInit { var: var_local, body_start, end });
                        (patch(c10, cid, next_pos, Instr::ForNext { body_start, end }), Ok(()))
                    },
                }
            },
        },
    }
}

/// The statements of `ss` from `i` on, in order.
pub open spec fn c_stmts(c: SComp, cid: ChunkId, ss: Seq<SpecStmt>, i: int) -> CRes<()>
    decreases ssizes(ss) + 1, ss.len() - i,
{
    if i < 0 || i >= ss.len() {
        (c, Ok(()))
    } else {
        proof {
            lemma_ssizes(ss, i);
        }
        match c_stmt(c, cid, ss[i]) {
            (c1, Err(x)) => (c1, Err(x)),
            (c1, Ok(_)) => c_stmts(c1, cid, ss, i + 1),
        }
    }
}

} // verus!

verus! {

// ---------------------------------------------------------------------------
// The compiler.
// ---------------------------------------------------------------------------

/// Compiles a program into chunks of stack-machine code: one per function and
/// one for the top level.
#[derive(Debug)]
pub struct Compiler {
    /// The interned strings (also the function names); an id is a position.
    strings: Vec<String>,
    chunks: Vec<Chunk>,
    fns: Vec<(StrId, ChunkId)>,
    /// The scopes of the chunk being compiled: each binds names to locals.
    scopes: Vec<Vec<(StrId, LocalId)>>,
    next_local: LocalId,
}

pub open spec fn scopes_of(s: Seq<Vec<(StrId, LocalId)>>) -> Seq<Seq<(StrId, LocalId)>> {
    Seq::new(s.len(), |i: int| s[i]@)
}

impl View for Compiler {
    type V = SComp;

    closed spec fn view(&self) -> SComp {
        SComp {
            strings: strings_view(self.strings@),
            chunks: chunks_view(self.chunks@),
            fns: self.fns@,
            scopes: scopes_of(self.scopes@),
            next_local: self.next_local,
        }
    }
}

pub open spec fn fresh_compiler() -> SComp {
    SComp { strings: Seq::empty(), chunks: Seq::empty(), fns: Seq::empty(), scopes: Seq::empty(), next_local: 0 }
}

impl Compiler {
    pub fn new() -> (c: Self)
        ensures
            c@ == fresh_compiler(),
    {
        let c = Compiler {
            strings: Vec::new(),
            chunks: Vec::new(),
            fns: Vec::new(),
            scopes: Vec::new(),
            next_local: 0,
        };
        proof {
            assert(c@.strings =~= Seq::empty());
            assert(c@.chunks =~= Seq::empty());
            assert(c@.scopes =~= Seq::empty());
        }
        c
    }

    /// The id of `s`, interned on first use.
    fn intern(&mut self, s: &String) -> (id: StrId)
        ensures
            (final(self)@, id) == intern(old(self)@, s@),
    {
        let ghost c = self@;
        let mut i: usize = 0;
        while i < self.strings.len()
            invariant
                c == self@,
                i <= self.strings@.len(),
                c.strings == strings_view(self.strings@),
                str_find(c.strings, s@, 0) == str_find(c.strings, s@, i as int),
            decreases self.strings@.len() - i,
        {
            if self.strings[i].eq(s) {
                assert(c.strings[i as int] == s@);
                return i as StrId;
            }
            i += 1;
        }
        let id = self.strings.len() as StrId;
        self.strings.push(s.clone());
        proof {
            assert(self@.strings =~= c.strings.push(s@));
        }
        id
    }

    /// A new empty chunk and its id.
    fn alloc_chunk(&mut self) -> (id: ChunkId)
        ensures
            (final(self)@, id) == alloc_chunk(old(self)@),
    {
        let ghost c = self@;
        let id = self.chunks.len() as ChunkId;
        self.chunks.push(Chunk::new());
        proof {
            assert(self@.chunks =~= c.chunks.push(empty_chunk()));
        }
        id
    }

    fn begin_chunk(&mut self)
        ensures
            final(self)@ == begin_chunk(old(self)@),
    {
        let ghost c = self@;
        self.scopes.clear();
        self.scopes.push(Vec::new());
        self.next_local = 0;
        proof {
            assert(self@.scopes =~= seq![Seq::<(StrId, LocalId)>::empty()]);
        }
    }

    fn end_chunk(&mut self, cid: ChunkId)
        requires
            (cid as int) < old(self)@.chunks.len(),
        ensures
            final(self)@ == end_chunk(old(self)@, cid),
    {
        let ghost c = self@;
        let lc = self.next_local as usize;
        self.chunks[cid as usize].local_count = lc;
        self.scopes.clear();
        proof {
            assert(self@.chunks =~= end_chunk(c, cid).chunks);
            assert(self@.scopes =~= Seq::empty());
        }
    }

    fn push_scope(&mut self)
        ensures
            final(self)@ == push_scope(old(self)@),
    {
        let ghost c = self@;
        self.scopes.push(Vec::new());
        proof {
            assert(self@.scopes =~= c.scopes.push(Seq::empty()));
        }
    }

    fn pop_scope(&mut self)
        ensures
            final(self)@ == pop_scope(old(self)@),
    {
        let ghost c = self@;
        if self.scopes.len() > 0 {
            self.scopes.pop();
            proof {
                assert(self@.scopes =~= c.scopes.drop_last());
            }
        }
    }

    /// Binds `name` to `local` in the innermost scope.
    fn bind_in_top(&mut self, name: StrId, local: LocalId)
        requires
            old(self)@.scopes.len() >= 1,
        ensures
            final(self)@ == bind_in_top(old(self)@, name, local),
    {
        let ghost c = self@;
        let k = self.scopes.len() - 1;
        let ghost sc = c.scopes[k as int];
        let mut j: usize = 0;
        let n = self.scopes[k].len();
        while j < n
            invariant
                c == self@,
                c == old(self)@,
                k == self.scopes@.len() - 1,
                sc == c.scopes[k as int],
                n == sc.len(),
                j <= n,
                key_find(sc, name, 0) == key_find(sc, name, j as int),
            decreases n - j,
        {
            if self.scopes[k][j].0 == name {
                assert(key_find(sc, name, j as int) == Some(j as int));
                self.scopes[k].set(j, (name, local));
                proof {
                    assert(self.scopes@[k as int]@ =~= sc.update(j as int, (name, local)));
                    assert(self@.scopes =~= bind_in_top(c, name, local).scopes);
                }
                return;
            }
            j += 1;
        }
        self.scopes[k].push((name, local));
        proof {
            assert(self.scopes@[k as int]@ =~= sc.push((name, local)));
            assert(self@.scopes =~= bind_in_top(c, name, local).scopes);
        }
    }

    /// A fresh local for `name`, bound in the innermost scope.
    fn define_local(&mut self, name: StrId) -> (l: LocalId)
        requires
            old(self)@.scopes.len() >= 1,
        ensures
            (final(self)@, l) == define_local(old(self)@, name),
    {
        let local = self.next_local;
        self.next_local = local.wrapping_add(1);
        self.bind_in_top(name, local);
        local
    }

    /// The local bound to `name`, in the innermost scope that binds it.
    fn resolve_local(&self, name: StrId) -> (r: Option<LocalId>)
        ensures
            r == resolve_local(self@, name),
    {
        let ghost c = self@;
        let mut k = self.scopes.len();
        while k > 0
            invariant
                c == self@,
                k <= self.scopes@.len(),
                resolve_local(c, name) == resolve_from(c.scopes, name, k - 1),
            decreases k,
        {
            let sc = &self.scopes[k - 1];
            let mut j: usize = 0;
            while j < sc.len()
                invariant
                    c == self@,
                    0 < k <= self.scopes@.len(),
                    sc@ == c.scopes[k - 1],
                    resolve_local(c, name) == resolve_from(c.scopes, name, k - 1),
                    j <= sc@.len(),
                    key_find(sc@, name, 0) == key_find(sc@, name, j as int),
                decreases sc@.len() - j,
            {
                if sc[j].0 == name {
                    return Some(sc[j].1);
                }
                j += 1;
            }
            k -= 1;
        }
        None
    }

    /// The local of a variable.
    fn local_of(&mut self, name: &String) -> (r: Result<LocalId, LangError>)
        ensures
            final(self)@ == local_of(old(self)@, name@).0,
            match local_of(old(self)@, name@).1 {
                Ok(l) => r == Ok::<LocalId, LangError>(l),
                Err(x) => r matches Err(y) && y@ == x,
            },
    {
        let id = self.intern(name);
        match self.resolve_local(id) {
            Some(l) => Ok(l),
            None => Err(LangError::Runtime(cat2("Unknown variable: ", name.as_str()))),
        }
    }

    /// Appends an instruction to the chunk `cid`.
    fn emit(&mut self, cid: ChunkId, ins: Instr)
        requires
            (cid as int) < old(self)@.chunks.len(),
        ensures
            final(self)@ == emit(old(self)@, cid, ins),
    {
        let ghost c = self@;
        self.chunks[cid as usize].code.push(ins);
        proof {
            assert(self@.chunks =~= emit(c, cid, ins).chunks);
        }
    }

    /// Replaces the instruction at `pos` of the chunk `cid`.
    fn patch(&mut self, cid: ChunkId, pos: usize, ins: Instr)
        requires
            (cid as int) < old(self)@.chunks.len(),
            pos < code_len(old(self)@, cid),
        ensures
            final(self)@ == patch(old(self)@, cid, pos as int, ins),
    {
        let ghost c = self@;
        self.chunks[cid as usize].code.set(pos, ins);
        proof {
            assert(self@.chunks =~= patch(c, cid, pos as int, ins).chunks);
        }
    }

    fn code_len(&self, cid: ChunkId) -> (n: usize)
        requires
            (cid as int) < self@.chunks.len(),
        ensures
            n == code_len(self@, cid),
    {
        self.chunks[cid as usize].code.len()
    }
}

} // verus!

verus! {

// ---------------------------------------------------------------------------
// Functions and whole programs.
// ---------------------------------------------------------------------------

pub open spec fn no_chunk(name: Seq<char>) -> SpecError {
    SpecError::Runtime("Internal: no chunk allocated for function "@ + name)
}

/// Empties the code and the parameters of the chunk `cid`.
pub open spec fn clear_chunk(c: SComp, cid: ChunkId) -> SComp {
    let ch = c.chunks[cid as int];
    SComp { chunks: c.chunks.update(cid as int, SChunk { code: Seq::empty(), params: Seq::empty(), ..ch }), ..c }
}

/// Records `l` as the next parameter of the chunk `cid`.
pub open spec fn add_param(c: SComp, cid: ChunkId, l: LocalId) -> SComp {
    let ch = c.chunks[cid as int];
    SComp { chunks: c.chunks.update(cid as int, SChunk { params: ch.params.push(l), ..ch }), ..c }
}

/// The parameters from `i` on: each gets the next local, in order.
pub open spec fn c_params(c: SComp, cid: ChunkId, params: Seq<Seq<char>>, i: int) -> SComp
    decreases params.len() - i,
{
    if i < 0 || i >= params.len() {
        c
    } else {
        let (c1, pid) = intern(c, params[i]);
        let (c2, l) = define_local(c1, pid);
        c_params(add_param(c2, cid, l), cid, params, i + 1)
    }
}

/// A function's chunk: its parameters are its first locals, then its body, then
/// an implicit `return ()`.
pub open spec fn c_fn(c: SComp, f: SpecFnDef) -> CRes<()> {
    let (c1, name_id) = intern(c, f.name);
    match fn_chunk(c1.fns, name_id, 0) {
        None => (c1, Err(no_chunk(f.name))),
        Some(cid) => if cid as int >= c1.chunks.len() {
            (c1, Err(no_chunk(f.name)))
        } else {
            let c2 = c_params(clear_chunk(begin_chunk(c1), cid), cid, f.params, 0);
            match c_stmts(c2, cid, f.body, 0) {
                (c3, Err(x)) => (c3, Err(x)),
                (c3, Ok(_)) => (end_chunk(emit(emit(c3, cid, Instr::PushUnit), cid, Instr::Return), cid), Ok(())),
            }
        },
    }
}

/// Gives each function of `items` from `i` on a chunk, in order; a name given
/// twice is an error.
pub open spec fn c_register(c: SComp, items: Seq<SpecItem>, i: int) -> CRes<()>
    decreases items.len() - i,
{
    if i < 0 || i >= items.len() {
        (c, Ok(()))
    } else {
        match items[i] {
            SpecItem::Fn(f) => {
                let (c1, id) = intern(c, f.name);
                if fn_chunk(c1.fns, id, 0) is Some {
                    (c1, Err(SpecError::Runtime("Duplicate function: "@ + f.name)))
                } else {
                    let (c2, cid) = alloc_chunk(c1);
                    c_register(SComp { fns: c2.fns.push((id, cid)), ..c2 }, items, i + 1)
                }
            },
            SpecItem::Stmt(_) => c_register(c, items, i + 1),
        }
    }
}

/// Compiles the functions of `items` from `i` on, in order.
pub open spec fn c_fns(c: SComp, items: Seq<SpecItem>, i: int) -> CRes<()>
    decreases items.len() - i,
{
    if i < 0 || i >= items.len() {
        (c, Ok(()))
    } else {
        match items[i] {
            SpecItem::Fn(f) => match c_fn(c, f) {
                (c1, Err(x)) => (c1, Err(x)),
                (c1, Ok(_)) => c_fns(c1, items, i + 1),
            },
            SpecItem::Stmt(_) => c_fns(c, items, i + 1),
        }
    }
}

/// Compiles the top-level statements of `items` from `i` on into the chunk `main`;
/// a `return` there is an error.
pub open spec fn c_main(c: SComp, main: ChunkId, items: Seq<SpecItem>, i: int) -> CRes<()>
    decreases items.len() - i,
{
    if i < 0 || i >= items.len() {
        (c, Ok(()))
    } else {
        match items[i] {
            SpecItem::Fn(_) => c_main(c, main, items, i + 1),
            SpecItem::Stmt(s) => if s is Return {
                (c, Err(SpecError::Runtime("return is only allowed inside functions"@)))
            } else {
                match c_stmt(c, main, s) {
                    (c1, Err(x)) => (c1, Err(x)),
                    (c1, Ok(_)) => c_main(c1, main, items, i + 1),
                }
            },
        }
    }
}

/// A whole program: every function gets a chunk first (so that calls may come
/// before definitions), then the functions are compiled, then the top level into
/// a chunk of its own. The compiler hands its strings, chunks and functions over.
pub open spec fn c_program(c: SComp, items: Seq<SpecItem>) -> CRes<SBytecode> {
    match c_register(c, items, 0) {
        (c1, Err(x)) => (c1, Err(x)),
        (c1, Ok(_)) => match c_fns(c1, items, 0) {
            (c2, Err(x)) => (c2, Err(x)),
            (c2, Ok(_)) => {
                let (c3, main) = alloc_chunk(c2);
                match c_main(begin_chunk(c3), main, items, 0) {
                    (c4, Err(x)) => (c4, Err(x)),
                    (c4, Ok(_)) => {
                        let c5 = end_chunk(c4, main);
                        (
                            SComp { strings: Seq::empty(), chunks: Seq::empty(), fns: Seq::empty(), ..c5 },
                            Ok(SBytecode { strings: c5.strings, main, chunks: c5.chunks, fns: c5.fns }),
                        )
                    },
                }
            },
        },
    }
}

/// Whether an answer of the compiler is the one that the model gives.
pub open spec fn answered<T>(r: Result<T, LangError>, s: Result<T, SpecError>) -> bool {
    match s {
        Ok(v) => r matches Ok(x) && x == v,
        Err(e) => r matches Err(y) && y@ == e,
    }
}

} // verus!

verus! {

fn is_builtin(s: &String) -> (r: bool)
    ensures
        r == is_builtin_name(s@),
{
    s.eq(&String::from_str("len")) || s.eq(&String::from_str("push")) || s.eq(&String::from_str("set")) || s.eq(
        &String::from_str("range"),
    )
}

impl Compiler {
    /// The base of an index: `xs`, `&xs` or `&mut xs`.
    fn compile_base(&mut self, base: &Expr) -> (r: Result<(LocalId, Mutability), LangError>)
        ensures
            final(self)@ == c_base(old(self)@, base@).0,
            answered(r, c_base(old(self)@, base@).1),
    {
        match base {
            Expr::Ident(name) => {
                let l = self.local_of(name)?;
                Ok((l, Mutability::Imm))
            },
            Expr::Borrow { mut_, expr } => match &**expr {
                Expr::Ident(name) => {
                    assert((**expr)@ == SpecExpr::Ident(name@));
                    let l = self.local_of(name)?;
                    Ok((l, if *mut_ { Mutability::Mut } else { Mutability::Imm }))
                },
                other => Err(
                    LangError::Runtime(
                        cat2("Index base must be ident or &ident / &mut ident, got ", other.debug_string().as_str()),
                    ),
                ),
            },
            other => Err(
                LangError::Runtime(
                    cat2("Index base must be ident or &ident / &mut ident, got ", other.debug_string().as_str()),
                ),
            ),
        }
    }

    /// The code of an expression, appended to the chunk `cid`.
    #[verifier::rlimit(40)]
    fn compile_expr(&mut self, cid: ChunkId, e: &Expr) -> (r: Result<(), LangError>)
        requires
            (cid as int) < old(self)@.chunks.len(),
        ensures
            final(self)@ == c_expr(old(self)@, cid, e@).0,
            answered(r, c_expr(old(self)@, cid, e@).1),
            final(self)@.chunks.len() == old(self)@.chunks.len(),
            code_len(final(self)@, cid) >= code_len(old(self)@, cid),
            final(self)@.scopes.len() == old(self)@.scopes.len(),
        decreases esize(e@), 3int,
    {
        match e {
            Expr::Int(n) => {
                self.emit(cid, Instr::PushInt(*n));
                Ok(())
            },
            Expr::Bool(b) => {
                self.emit(cid, Instr::PushBool(*b));
                Ok(())
            },
            Expr::Str(s) => {
                let id = self.intern(s);
                self.emit(cid, Instr::PushStr(id));
                Ok(())
            },
            Expr::VecLit(xs) => {
                self.compile_exprs(cid, xs, 0)?;
                self.emit(cid, Instr::VecMake(xs.len() as u32));
                Ok(())
            },
            Expr::Ident(name) => {
                let l = self.local_of(name)?;
                self.emit(cid, Instr::LoadLocal { local: l, mode: LoadMode::Move });
                Ok(())
            },
            Expr::Borrow { mut_, expr } => self.compile_borrow(cid, *mut_, &**expr),
            Expr::Index { base, index } => {
                let (l, bm) = self.compile_base(&**base)?;
                self.compile_expr(cid, &**index)?;
                self.emit(cid, Instr::IndexLocal { base: l, base_mut: bm });
                Ok(())
            },
            Expr::Neg { expr } => {
                self.compile_expr(cid, &**expr)?;
                self.emit(cid, Instr::Neg);
                Ok(())
            },
            Expr::Add { .. }
            | Expr::Sub { .. }
            | Expr::Mul { .. }
            | Expr::Div { .. }
            | Expr::Mod { .. }
            | Expr::Eq { .. }
            | Expr::Ne { .. }
            | Expr::Lt { .. }
            | Expr::Le { .. }
            | Expr::Gt { .. }
            | Expr::Ge { .. } => self.compile_operator(cid, e),
            Expr::Call { callee, args } => {
                let id = self.intern(callee);
                if find_fn_chunk(&self.fns, id).is_none() && !is_builtin(callee) {
                    return Err(LangError::Runtime(cat2("Unknown function: ", callee.as_str())));
                }
                self.compile_exprs(cid, args, 0)?;
                self.emit(cid, Instr::Call { callee: id, argc: args.len() as u32 });
                Ok(())
            },
        }
    }

    /// A binary operator.
    #[verifier::rlimit(60)]
    fn compile_operator(&mut self, cid: ChunkId, e: &Expr) -> (r: Result<(), LangError>)
        requires
            (cid as int) < old(self)@.chunks.len(),
            is_operator(e@),
        ensures
            final(self)@ == c_expr(old(self)@, cid, e@).0,
            answered(r, c_expr(old(self)@, cid, e@).1),
            final(self)@.chunks.len() == old(self)@.chunks.len(),
            code_len(final(self)@, cid) >= code_len(old(self)@, cid),
            final(self)@.scopes.len() == old(self)@.scopes.len(),
        decreases esize(e@), 2int,
    {
        match e {
            Expr::Add { left, right } => self.compile_binary(cid, &**left, &**right, Instr::Add),
            Expr::Sub { left, right } => self.compile_binary(cid, &**left, &**right, Instr::Sub),
            Expr::Mul { left, right } => self.compile_binary(cid, &**left, &**right, Instr::Mul),
            Expr::Div { left, right } => self.compile_binary(cid, &**left, &**right, Instr::Div),
            Expr::Mod { left, right } => self.compile_binary(cid, &**left, &**right, Instr::Mod),
            Expr::Eq { left, right } => self.compile_binary(cid, &**left, &**right, Instr::Eq),
            Expr::Ne { left, right } => self.compile_binary(cid, &**left, &**right, Instr::Ne),
            Expr::Lt { left, right } => self.compile_binary(cid, &**left, &**right, Instr::Lt),
            Expr::Le { left, right } => self.compile_binary(cid, &**left, &**right, Instr::Le),
            Expr::Gt { left, right } => self.compile_binary(cid, &**left, &**right, Instr::Gt),
            Expr::Ge { left, right } => self.compile_binary(cid, &**left, &**right, Instr::Ge),
            _ => Ok(()),
        }
    }

    /// Both operands, left first, then the operator.
    fn compile_binary(&mut self, cid: ChunkId, left: &Expr, right: &Expr, op: Instr) -> (r: Result<(), LangError>)
        requires
            (cid as int) < old(self)@.chunks.len(),
        ensures
            final(self)@ == c_binary(old(self)@, cid, left@, right@, op).0,
            answered(r, c_binary(old(self)@, cid, left@, right@, op).1),
            final(self)@.chunks.len() == old(self)@.chunks.len(),
            code_len(final(self)@, cid) >= code_len(old(self)@, cid),
            final(self)@.scopes.len() == old(self)@.scopes.len(),
        decreases esize(left@) + esize(right@) + 1, 2int,
    {
        self.compile_expr(cid, left)?;
        self.compile_expr(cid, right)?;
        self.emit(cid, op);
        Ok(())
    }

    /// The expressions of `xs` from `i` on, in order.
    fn compile_exprs(&mut self, cid: ChunkId, xs: &Vec<Expr>, i: usize) -> (r: Result<(), LangError>)
        requires
            (cid as int) < old(self)@.chunks.len(),
        ensures
            final(self)@ == c_exprs(old(self)@, cid, exprs_view(xs@), i as int).0,
            answered(r, c_exprs(old(self)@, cid, exprs_view(xs@), i as int).1),
            final(self)@.chunks.len() == old(self)@.chunks.len(),
            code_len(final(self)@, cid) >= code_len(old(self)@, cid),
            final(self)@.scopes.len() == old(self)@.scopes.len(),
        decreases esizes(exprs_view(xs@)) + 1, xs@.len() - i,
    {
        if i >= xs.len() {
            return Ok(());
        }
        proof {
            lemma_esizes(exprs_view(xs@), i as int);
        }
        assert(exprs_view(xs@)[i as int] == xs@[i as int]@);
        self.compile_expr(cid, &xs[i])?;
        self.compile_exprs(cid, xs, i + 1)
    }

    /// `&e` or `&mut e`.
    fn compile_borrow(&mut self, cid: ChunkId, mut_: bool, e: &Expr) -> (r: Result<(), LangError>)
        requires
            (cid as int) < old(self)@.chunks.len(),
        ensures
            final(self)@ == c_borrow(old(self)@, cid, mut_, e@).0,
            answered(r, c_borrow(old(self)@, cid, mut_, e@).1),
            final(self)@.chunks.len() == old(self)@.chunks.len(),
            code_len(final(self)@, cid) >= code_len(old(self)@, cid),
            final(self)@.scopes.len() == old(self)@.scopes.len(),
        decreases esize(e@) + 1, 2int,
    {
        match e {
            Expr::Ident(name) => {
                let l = self.local_of(name)?;
                self.emit(cid, Instr::BorrowLocal { local: l, mut_ });
                Ok(())
            },
            Expr::Index { base, index } => {
                let (l, bm) = self.compile_base(&**base)?;
                self.compile_expr(cid, &**index)?;
                self.emit(cid, Instr::BorrowIndexLocal { base: l, base_mut: bm, mut_ });
                Ok(())
            },
            other => Err(
                LangError::Runtime(
                    cat2("Unsupported borrow target (only var or index): ", other.debug_string().as_str()),
                ),
            ),
        }
    }
}

} // verus!

verus! {

impl Compiler {
    /// `print e;` or `e;`: the expression's temporary borrows end with the statement.
    fn compile_temp_stmt(&mut self, cid: ChunkId, e: &Expr, last: Instr) -> (r: Result<(), LangError>)
        requires
            (cid as int) < old(self)@.chunks.len(),
        ensures
            final(self)@ == c_temp_stmt(old(self)@, cid, e@, last).0,
            answered(r, c_temp_stmt(old(self)@, cid, e@, last).1),
            final(self)@.chunks.len() == old(self)@.chunks.len(),
            code_len(final(self)@, cid) >= code_len(old(self)@, cid),
            final(self)@.scopes.len() == old(self)@.scopes.len(),
    {
        self.emit(cid, Instr::TempEnter);
        self.compile_expr(cid, e)?;
        self.emit(cid, last);
        self.emit(cid, Instr::TempExit);
        Ok(())
    }

    /// A block in a scope of its own.
    fn compile_block(&mut self, cid: ChunkId, body: &Vec<Stmt>) -> (r: Result<(), LangError>)
        requires
            (cid as int) < old(self)@.chunks.len(),
        ensures
            final(self)@ == c_block(old(self)@, cid, stmts_view(body@)).0,
            answered(r, c_block(old(self)@, cid, stmts_view(body@)).1),
            final(self)@.chunks.len() == old(self)@.chunks.len(),
            code_len(final(self)@, cid) >= code_len(old(self)@, cid),
            r is Ok ==> final(self)@.scopes.len() == old(self)@.scopes.len(),
        decreases ssizes(stmts_view(body@)) + 1, body@.len() + 1,
    {
        self.emit(cid, Instr::EnterScope);
        self.push_scope();
        self.compile_stmts(cid, body, 0)?;
        self.pop_scope();
        self.emit(cid, Instr::ExitScope);
        Ok(())
    }

    /// The statements of `ss` from `i` on, in order.
    fn compile_stmts(&mut self, cid: ChunkId, ss: &Vec<Stmt>, i: usize) -> (r: Result<(), LangError>)
        requires
            (cid as int) < old(self)@.chunks.len(),
            old(self)@.scopes.len() >= 1,
        ensures
            final(self)@ == c_stmts(old(self)@, cid, stmts_view(ss@), i as int).0,
            answered(r, c_stmts(old(self)@, cid, stmts_view(ss@), i as int).1),
            final(self)@.chunks.len() == old(self)@.chunks.len(),
            code_len(final(self)@, cid) >= code_len(old(self)@, cid),
            r is Ok ==> final(self)@.scopes.len() == old(self)@.scopes.len(),
        decreases ssizes(stmts_view(ss@)) + 1, ss@.len() - i,
    {
        if i >= ss.len() {
            return Ok(());
        }
        proof {
            lemma_ssizes(stmts_view(ss@), i as int);
        }
        assert(stmts_view(ss@)[i as int] == ss@[i as int]@);
        self.compile_stmt(cid, &ss[i])?;
        self.compile_stmts(cid, ss, i + 1)
    }

    /// The code of a statement, appended to the chunk `cid`.
    fn compile_stmt(&mut self, cid: ChunkId, s: &Stmt) -> (r: Result<(), LangError>)
        requires
            (cid as int) < old(self)@.chunks.len(),
            old(self)@.scopes.len() >= 1,
        ensures
            final(self)@ == c_stmt(old(self)@, cid, s@).0,
            answered(r, c_stmt(old(self)@, cid, s@).1),
            final(self)@.chunks.len() == old(self)@.chunks.len(),
            code_len(final(self)@, cid) >= code_len(old(self)@, cid),
            r is Ok ==> final(self)@.scopes.len() == old(self)@.scopes.len(),
        decreases ssize(s@), 1int,
    {
        match s {
            Stmt::Let { name, expr } => {
                self.compile_expr(cid, expr)?;
                let id = self.intern(name);
                let l = self.define_local(id);
                self.emit(cid, Instr::DefineLocal(l));
                Ok(())
            },
            Stmt::Assign { name, expr } => {
                let l = self.local_of(name)?;
                self.compile_expr(cid, expr)?;
                self.emit(cid, Instr::StoreLocal(l));
                Ok(())
            },
            Stmt::Print { expr } => self.compile_temp_stmt(cid, expr, Instr::Print),
            Stmt::ExprStmt { expr } => self.compile_temp_stmt(cid, expr, Instr::Pop),
            Stmt::Return(e) => {
                self.compile_expr(cid, e)?;
                self.emit(cid, Instr::Return);
                Ok(())
            },
            Stmt::If { cond, then_body, else_body } => self.compile_if(cid, cond, then_body, else_body),
            Stmt::For { var, iter, body } => self.compile_for(cid, var, iter, body),
        }
    }

    /// `if cond { .. } else { .. }`: a conditional jump over the first block and a
    /// jump over the second, patched once their targets are known.
    fn compile_if(&mut self, cid: ChunkId, cond: &Expr, then_body: &Vec<Stmt>, else_body: &Vec<Stmt>) -> (r: Result<
        (),
        LangError,
    >)
        requires
            (cid as int) < old(self)@.chunks.len(),
            old(self)@.scopes.len() >= 1,
        ensures
            ({
                let s = SpecStmt::If {
                    cond: cond@,
                    then_body: stmts_view(then_body@),
                    else_body: stmts_view(else_body@),
                };
                &&& final(self)@ == c_stmt(old(self)@, cid, s).0
                &&& answered(r, c_stmt(old(self)@, cid, s).1)
            }),
            final(self)@.chunks.len() == old(self)@.chunks.len(),
            code_len(final(self)@, cid) >= code_len(old(self)@, cid),
            r is Ok ==> final(self)@.scopes.len() == old(self)@.scopes.len(),
        decreases esize(cond@) + ssizes(stmts_view(then_body@)) + ssizes(stmts_view(else_body@)) + 2, 0int,
    {
        self.compile_expr(cid, cond)?;
        let jf_pos = self.code_len(cid);
        self.emit(cid, Instr::JumpIfFalse(0));
        self.compile_block(cid, then_body)?;
        let j_pos = self.code_len(cid);
        self.emit(cid, Instr::Jump(0));
        let else_start = self.code_len(cid);
        self.patch(cid, jf_pos, Instr::JumpIfFalse(else_start));
        self.compile_block(cid, else_body)?;
        let end = self.code_len(cid);
        self.patch(cid, j_pos, Instr::Jump(end));
        Ok(())
    }

    /// `for var in iter { .. }`: the loop variable is a local bound in the body's
    /// scope; `ForInit` and `ForNext` are patched with the body's bounds.
    fn compile_for(&mut self, cid: ChunkId, var: &String, iter: &Expr, body: &Vec<Stmt>) -> (r: Result<(), LangError>)
        requires
            (cid as int) < old(self)@.chunks.len(),
            old(self)@.scopes.len() >= 1,
        ensures
            ({
                let s = SpecStmt::For { var: var@, iter: iter@, body: stmts_view(body@) };
                &&& final(self)@ == c_stmt(old(self)@, cid, s).0
                &&& answered(r, c_stmt(old(self)@, cid, s).1)
            }),
            final(self)@.chunks.len() == old(self)@.chunks.len(),
            code_len(final(self)@, cid) >= code_len(old(self)@, cid),
            r is Ok ==> final(self)@.scopes.len() == old(self)@.scopes.len(),
        decreases esize(iter@) + ssizes(stmts_view(body@)) + 2, 0int,
    {
        self.compile_expr(cid, iter)?;
        let var_id = self.intern(var);
        let var_local = self.define_local(var_id);
        let init_pos = self.code_len(cid);
        self.emit(cid, Instr::ForInit { var: var_local, body_start: 0, end: 0 });
        let body_start = self.code_len(cid);
        self.patch(cid, init_pos, Instr::ForInit { var: var_local, body_start, end: 0 });
        self.emit(cid, Instr::EnterScope);
        self.push_scope();
        self.bind_in_top(var_id, var_local);
        self.compile_stmts(cid, body, 0)?;
        self.pop_scope();
        self.emit(cid, Instr::ExitScope);
        let next_pos = self.code_len(cid);
        self.emit(cid, Instr::ForNext { body_start, end: 0 });
        let end = self.code_len(cid);
        self.patch(cid, init_pos, Instr::ForInit { var: var_local, body_start, end });
        self.patch(cid, next_pos, Instr::ForNext { body_start, end });
        Ok(())
    }
}

} // verus!

verus! {

impl Compiler {
    /// Empties the code and the parameters of the chunk `cid`.
    fn clear_chunk(&mut self, cid: ChunkId)
        requires
            (cid as int) < old(self)@.chunks.len(),
        ensures
            final(self)@ == clear_chunk(old(self)@, cid),
    {
        let ghost c = self@;
        self.chunks[cid as usize].code.clear();
        self.chunks[cid as usize].params.clear();
        proof {
            assert(self@.chunks =~= clear_chunk(c, cid).chunks);
        }
    }

    /// The parameters from `i` on: each gets the next local, in order.
    fn compile_params(&mut self, cid: ChunkId, params: &Vec<String>, i: usize)
        requires
            (cid as int) < old(self)@.chunks.len(),
            old(self)@.scopes.len() >= 1,
        ensures
            final(self)@ == c_params(old(self)@, cid, strings_view(params@), i as int),
            final(self)@.chunks.len() == old(self)@.chunks.len(),
            final(self)@.scopes.len() == old(self)@.scopes.len(),
        decreases params@.len() - i,
    {
        if i >= params.len() {
            return;
        }
        assert(strings_view(params@)[i as int] == params@[i as int]@);
        let pid = self.intern(&params[i]);
        let l = self.define_local(pid);
        let ghost c = self@;
        self.chunks[cid as usize].params.push(l);
        proof {
            assert(self@.chunks =~= add_param(c, cid, l).chunks);
        }
        self.compile_params(cid, params, i + 1);
    }

    /// A function's chunk: its parameters, its body, then `return ()`.
    fn compile_fn(&mut self, f: &FnDef) -> (r: Result<(), LangError>)
        ensures
            final(self)@ == c_fn(old(self)@, f@).0,
            answered(r, c_fn(old(self)@, f@).1),
            final(self)@.chunks.len() == old(self)@.chunks.len(),
    {
        let name_id = self.intern(&f.name);
        let cid = match find_fn_chunk(&self.fns, name_id) {
            Some(cid) => cid,
            None => {
                return Err(LangError::Runtime(cat2("Internal: no chunk allocated for function ", f.name.as_str())));
            },
        };
        if cid as usize >= self.chunks.len() {
            return Err(LangError::Runtime(cat2("Internal: no chunk allocated for function ", f.name.as_str())));
        }
        self.begin_chunk();
        self.clear_chunk(cid);
        self.compile_params(cid, &f.params, 0);
        self.compile_stmts(cid, &f.body, 0)?;
        self.emit(cid, Instr::PushUnit);
        self.emit(cid, Instr::Return);
        self.end_chunk(cid);
        Ok(())
    }

    /// Gives each function of `items` from `i` on a chunk, in order.
    fn register_fns(&mut self, items: &Vec<Item>, i: usize) -> (r: Result<(), LangError>)
        requires
            i <= items@.len(),
            old(self)@.chunks.len() + items@.len() - i <= u32::MAX,
        ensures
            final(self)@ == c_register(old(self)@, items_view(items@), i as int).0,
            answered(r, c_register(old(self)@, items_view(items@), i as int).1),
            final(self)@.chunks.len() <= old(self)@.chunks.len() + items@.len() - i,
        decreases items@.len() - i,
    {
        if i >= items.len() {
            return Ok(());
        }
        assert(items_view(items@)[i as int] == items@[i as int]@);
        match &items[i] {
            Item::Fn(f) => {
                let id = self.intern(&f.name);
                if find_fn_chunk(&self.fns, id).is_some() {
                    return Err(LangError::Runtime(cat2("Duplicate function: ", f.name.as_str())));
                }
                let cid = self.alloc_chunk();
                self.fns.push((id, cid));
                self.register_fns(items, i + 1)
            },
            Item::Stmt(_) => self.register_fns(items, i + 1),
        }
    }

    /// Compiles the functions of `items` from `i` on, in order.
    fn compile_fns(&mut self, items: &Vec<Item>, i: usize) -> (r: Result<(), LangError>)
        ensures
            final(self)@ == c_fns(old(self)@, items_view(items@), i as int).0,
            answered(r, c_fns(old(self)@, items_view(items@), i as int).1),
            final(self)@.chunks.len() == old(self)@.chunks.len(),
        decreases items@.len() - i,
    {
        if i >= items.len() {
            return Ok(());
        }
        assert(items_view(items@)[i as int] == items@[i as int]@);
        match &items[i] {
            Item::Fn(f) => {
                self.compile_fn(f)?;
                self.compile_fns(items, i + 1)
            },
            Item::Stmt(_) => self.compile_fns(items, i + 1),
        }
    }

    /// Compiles the top-level statements of `items` from `i` on into `main`.
    fn compile_main(&mut self, main: ChunkId, items: &Vec<Item>, i: usize) -> (r: Result<(), LangError>)
        requires
            (main as int) < old(self)@.chunks.len(),
            old(self)@.scopes.len() >= 1,
        ensures
            final(self)@ == c_main(old(self)@, main, items_view(items@), i as int).0,
            answered(r, c_main(old(self)@, main, items_view(items@), i as int).1),
            final(self)@.chunks.len() == old(self)@.chunks.len(),
        decreases items@.len() - i,
    {
        if i >= items.len() {
            return Ok(());
        }
        assert(items_view(items@)[i as int] == items@[i as int]@);
        match &items[i] {
            Item::Fn(_) => self.compile_main(main, items, i + 1),
            Item::Stmt(s) => {
                if let Stmt::Return(_) = s {
                    return Err(LangError::Runtime(String::from_str("return is only allowed inside functions")));
                }
                self.compile_stmt(main, s)?;
                self.compile_main(main, items, i + 1)
            },
        }
    }

    /// Compiles a program: every function gets a chunk first, then the functions
    /// are compiled, then the top level; the compiler hands its strings, chunks and
    /// functions over to the program it returns.
    pub fn compile_program(&mut self, p: Program) -> (r: Result<BytecodeProgram, LangError>)
        requires
            old(self)@.chunks.len() + p@.len() + 1 <= u32::MAX,
        ensures
            final(self)@ == c_program(old(self)@, p@).0,
            match c_program(old(self)@, p@).1 {
                Ok(b) => r matches Ok(x) && x@ == b,
                Err(e) => r matches Err(y) && y@ == e,
            },
    {
        assert(items_view(p.items@) == p@);
        self.register_fns(&p.items, 0)?;
        self.compile_fns(&p.items, 0)?;
        let main = self.alloc_chunk();
        self.begin_chunk();
        self.compile_main(main, &p.items, 0)?;
        self.end_chunk(main);
        let ghost c5 = self@;
        let mut strings: Vec<String> = Vec::new();
        let mut chunks: Vec<Chunk> = Vec::new();
        let mut fns: Vec<(StrId, ChunkId)> = Vec::new();
        std::mem::swap(&mut strings, &mut self.strings);
        std::mem::swap(&mut chunks, &mut self.chunks);
        std::mem::swap(&mut fns, &mut self.fns);
        let b = BytecodeProgram { strings, main, chunks, fns };
        proof {
            assert(self@.strings =~= Seq::empty());
            assert(self@.chunks =~= Seq::empty());
            assert(b@.strings == c5.strings);
        }
        Ok(b)
    }
}

} // verus!

verus! {

// ---------------------------------------------------------------------------
// Well-formedness of compiled code.
// ---------------------------------------------------------------------------

/// An instruction of a chunk with `n` instructions and `locals` slots: its locals
/// are slots of the frame, and its jump targets lie within the code (or at its end).
pub open spec fn instr_ok(ins: Instr, n: int, locals: int) -> bool {
    match ins {
        Instr::LoadLocal { local, .. } => local < locals,
        Instr::DefineLocal(l) => l < locals,
        Instr::StoreLocal(l) => l < locals,
        Instr::BorrowLocal { local, .. } => local < locals,
        Instr::BorrowIndexLocal { base, .. } => base < locals,
        Instr::IndexLocal { base, .. } => base < locals,
        Instr::Jump(t) => t <= n,
        Instr::JumpIfFalse(t) => t <= n,
        Instr::ForInit { var, body_start, end } => var < locals && body_start <= n && end <= n,
        Instr::ForNext { body_start, end } => body_start <= n && end <= n,
        _ => true,
    }
}

/// Every instruction of the chunk is well formed.
pub open spec fn chunk_ok(ch: SChunk) -> bool {
    forall|i: int|
        0 <= i < ch.code.len() ==> instr_ok(#[trigger] ch.code[i], ch.code.len() as int, ch.local_count as int)
}

/// The locals bound in the compiler's scopes are slots already given out.
pub open spec fn scopes_ok(c: SComp) -> bool {
    forall|k: int, j: int|
        0 <= k < c.scopes.len() && 0 <= j < c.scopes[k].len() ==> (#[trigger] c.scopes[k][j]).1 < c.next_local
}

/// From `a` to `b` the compiler only appended well-formed code to the chunk `cid`
/// (touching no other chunk nor the table of functions), gave out slots and
/// interned strings.
pub open spec fn grew(a: SComp, b: SComp, cid: ChunkId) -> bool {
    let ca = a.chunks[cid as int];
    let cb = b.chunks[cid as int];
    &&& b.chunks.len() == a.chunks.len()
    &&& b.fns == a.fns
    &&& (forall|j: int| 0 <= j < a.chunks.len() && j != cid ==> #[trigger] b.chunks[j] == a.chunks[j])
    &&& cb.params == ca.params
    &&& cb.local_count == ca.local_count
    &&& ca.code.len() <= cb.code.len()
    &&& (forall|i: int| 0 <= i < ca.code.len() ==> #[trigger] cb.code[i] == ca.code[i])
    &&& (forall|i: int|
        ca.code.len() <= i < cb.code.len() ==> instr_ok(#[trigger] cb.code[i], cb.code.len() as int, b.next_local as int))
    &&& a.next_local <= b.next_local
    &&& a.strings.len() <= b.strings.len()
    &&& (forall|i: int| 0 <= i < a.strings.len() ==> #[trigger] b.strings[i] == a.strings[i])
    &&& scopes_ok(b)
}

proof fn lemma_instr_ok_mono(ins: Instr, n: int, l: int, n2: int, l2: int)
    requires
        instr_ok(ins, n, l),
        n <= n2,
        l <= l2,
    ensures
        instr_ok(ins, n2, l2),
{
}

proof fn lemma_grew_refl(c: SComp, cid: ChunkId)
    requires
        scopes_ok(c),
    ensures
        grew(c, c, cid),
{
}

proof fn lemma_grew_trans(a: SComp, b: SComp, c: SComp, cid: ChunkId)
    requires
        (cid as int) < a.chunks.len(),
        grew(a, b, cid),
        grew(b, c, cid),
    ensures
        grew(a, c, cid),
{
    let ca = a.chunks[cid as int];
    let cb = b.chunks[cid as int];
    let cc = c.chunks[cid as int];
    assert forall|i: int| ca.code.len() <= i < cc.code.len() implies instr_ok(
        #[trigger] cc.code[i],
        cc.code.len() as int,
        c.next_local as int,
    ) by {
        if i < cb.code.len() {
            assert(cc.code[i] == cb.code[i]);
            lemma_instr_ok_mono(cb.code[i], cb.code.len() as int, b.next_local as int, cc.code.len() as int, c.next_local as int);
        }
    }
    assert forall|j: int| 0 <= j < a.chunks.len() && j != cid implies #[trigger] c.chunks[j] == a.chunks[j] by {
        assert(c.chunks[j] == b.chunks[j]);
    }
    assert forall|i: int| 0 <= i < a.strings.len() implies #[trigger] c.strings[i] == a.strings[i] by {
        assert(c.strings[i] == b.strings[i]);
    }
    assert forall|i: int| 0 <= i < ca.code.len() implies #[trigger] cc.code[i] == ca.code[i] by {
        assert(cc.code[i] == cb.code[i]);
    }
}

proof fn lemma_emit(c: SComp, cid: ChunkId, ins: Instr)
    requires
        (cid as int) < c.chunks.len(),
        scopes_ok(c),
        instr_ok(ins, code_len(c, cid) + 1, c.next_local as int),
    ensures
        grew(c, emit(c, cid, ins), cid),
        emit(c, cid, ins).next_local == c.next_local,
        emit(c, cid, ins).scopes == c.scopes,
        code_len(emit(c, cid, ins), cid) == code_len(c, cid) + 1,
{
    let b = emit(c, cid, ins);
    assert(b.chunks[cid as int].code == c.chunks[cid as int].code.push(ins));
}

proof fn lemma_patch(a: SComp, b: SComp, cid: ChunkId, p: int, ins: Instr)
    requires
        (cid as int) < a.chunks.len(),
        grew(a, b, cid),
        code_len(a, cid) <= p < code_len(b, cid),
        instr_ok(ins, code_len(b, cid), b.next_local as int),
    ensures
        grew(a, patch(b, cid, p, ins), cid),
        patch(b, cid, p, ins).next_local == b.next_local,
        patch(b, cid, p, ins).scopes == b.scopes,
        code_len(patch(b, cid, p, ins), cid) == code_len(b, cid),
{
    let d = patch(b, cid, p, ins);
    assert(d.chunks[cid as int].code == b.chunks[cid as int].code.update(p, ins));
    let ca = a.chunks[cid as int];
    let cd = d.chunks[cid as int];
    let cb = b.chunks[cid as int];
    assert forall|i: int| ca.code.len() <= i < cd.code.len() implies instr_ok(
        #[trigger] cd.code[i],
        cd.code.len() as int,
        d.next_local as int,
    ) by {
        if i != p {
            assert(cd.code[i] == cb.code[i]);
        }
    }
    assert forall|i: int| 0 <= i < ca.code.len() implies #[trigger] cd.code[i] == ca.code[i] by {
        assert(cd.code[i] == cb.code[i]);
    }
    assert forall|j: int| 0 <= j < a.chunks.len() && j != cid implies #[trigger] d.chunks[j] == a.chunks[j] by {
        assert(d.chunks[j] == b.chunks[j]);
    }
}

proof fn lemma_str_find(strings: Seq<Seq<char>>, s: Seq<char>, i: int)
    ensures
        str_find(strings, s, i) matches Some(k) ==> 0 <= k < strings.len() && strings[k] == s,
    decreases strings.len() - i,
{
    if 0 <= i < strings.len() && strings[i] != s {
        lemma_str_find(strings, s, i + 1);
    }
}

proof fn lemma_intern(c: SComp, s: Seq<char>, cid: ChunkId)
    requires
        (cid as int) < c.chunks.len(),
        scopes_ok(c),
    ensures
        grew(c, intern(c, s).0, cid),
        intern(c, s).0.next_local == c.next_local,
        intern(c, s).0.scopes == c.scopes,
        code_len(intern(c, s).0, cid) == code_len(c, cid),
{
}

proof fn lemma_key_find(sc: Seq<(StrId, LocalId)>, name: StrId, i: int)
    ensures
        key_find(sc, name, i) matches Some(j) ==> 0 <= j < sc.len() && sc[j].0 == name,
    decreases sc.len() - i,
{
    if 0 <= i < sc.len() && sc[i].0 != name {
        lemma_key_find(sc, name, i + 1);
    }
}

proof fn lemma_resolve(c: SComp, name: StrId, k: int)
    requires
        scopes_ok(c),
    ensures
        resolve_from(c.scopes, name, k) matches Some(l) ==> l < c.next_local,
    decreases k + 1,
{
    if 0 <= k < c.scopes.len() {
        lemma_key_find(c.scopes[k], name, 0);
        if let Some(j) = key_find(c.scopes[k], name, 0) {
            assert(c.scopes[k][j].1 < c.next_local);
        } else {
            lemma_resolve(c, name, k - 1);
        }
    }
}

proof fn lemma_local_of(c: SComp, name: Seq<char>, cid: ChunkId)
    requires
        (cid as int) < c.chunks.len(),
        scopes_ok(c),
    ensures
        grew(c, local_of(c, name).0, cid),
        local_of(c, name).0.next_local == c.next_local,
        local_of(c, name).0.scopes == c.scopes,
        code_len(local_of(c, name).0, cid) == code_len(c, cid),
        local_of(c, name).1 matches Ok(l) ==> l < c.next_local,
{
    lemma_intern(c, name, cid);
    let c1 = intern(c, name).0;
    lemma_resolve(c1, intern(c, name).1, c1.scopes.len() - 1);
}

proof fn lemma_c_base(c: SComp, base: SpecExpr, cid: ChunkId)
    requires
        (cid as int) < c.chunks.len(),
        scopes_ok(c),
    ensures
        grew(c, c_base(c, base).0, cid),
        c_base(c, base).0.next_local == c.next_local,
        c_base(c, base).0.scopes == c.scopes,
        c_base(c, base).1 matches Ok((l, _)) ==> l < c.next_local,
{
    match base {
        SpecExpr::Ident(name) => lemma_local_of(c, name, cid),
        SpecExpr::Borrow { mut_, expr } => match *expr {
            SpecExpr::Ident(name) => lemma_local_of(c, name, cid),
            _ => lemma_grew_refl(c, cid),
        },
        _ => lemma_grew_refl(c, cid),
    }
}

/// What an expression's code keeps: it only appends well-formed code, and leaves
/// the scopes and the next free slot as they were.
pub open spec fn expr_grew(c: SComp, r: CRes<()>, cid: ChunkId) -> bool {
    r.1 is Ok ==> grew(c, r.0, cid) && r.0.next_local == c.next_local && r.0.scopes == c.scopes
}

proof fn lemma_then_emit(c: SComp, c1: SComp, cid: ChunkId, ins: Instr)
    requires
        (cid as int) < c.chunks.len(),
        grew(c, c1, cid),
        c1.next_local == c.next_local,
        c1.scopes == c.scopes,
        instr_ok(ins, code_len(c1, cid) + 1, c1.next_local as int),
    ensures
        grew(c, emit(c1, cid, ins), cid),
        emit(c1, cid, ins).next_local == c.next_local,
        emit(c1, cid, ins).scopes == c.scopes,
{
    lemma_emit(c1, cid, ins);
    lemma_grew_trans(c, c1, emit(c1, cid, ins), cid);
}

proof fn lemma_c_expr_grew(c: SComp, cid: ChunkId, e: SpecExpr)
    requires
        (cid as int) < c.chunks.len(),
        scopes_ok(c),
    ensures
        expr_grew(c, c_expr(c, cid, e), cid),
    decreases esize(e), 3int,
{
    match e {
        SpecExpr::Int(n) => lemma_emit(c, cid, Instr::PushInt(n)),
        SpecExpr::Bool(b) => lemma_emit(c, cid, Instr::PushBool(b)),
        SpecExpr::Str(st) => {
            lemma_intern(c, st, cid);
            let (c1, id) = intern(c, st);
            lemma_then_emit(c, c1, cid, Instr::PushStr(id));
        },
        SpecExpr::VecLit(xs) => {
            lemma_c_exprs_grew(c, cid, xs, 0);
            let c1 = c_exprs(c, cid, xs, 0).0;
            if c_exprs(c, cid, xs, 0).1 is Ok {
                lemma_then_emit(c, c1, cid, Instr::VecMake(xs.len() as u32));
            }
        },
        SpecExpr::Ident(name) => {
            lemma_local_of(c, name, cid);
            let c1 = local_of(c, name).0;
            if let Ok(l) = local_of(c, name).1 {
                lemma_then_emit(c, c1, cid, Instr::LoadLocal { local: l, mode: LoadMode::Move });
            }
        },
        SpecExpr::Borrow { mut_, expr } => lemma_c_borrow_grew(c, cid, mut_, *expr),
        SpecExpr::Index { base, index } => {
            lemma_c_base(c, *base, cid);
            let c1 = c_base(c, *base).0;
            if let Ok((l, bm)) = c_base(c, *base).1 {
                lemma_c_expr_grew(c1, cid, *index);
                let c2 = c_expr(c1, cid, *index).0;
                if c_expr(c1, cid, *index).1 is Ok {
                    lemma_grew_trans(c, c1, c2, cid);
                    lemma_then_emit(c, c2, cid, Instr::IndexLocal { base: l, base_mut: bm });
                }
            }
        },
        SpecExpr::Neg { expr } => {
            lemma_c_expr_grew(c, cid, *expr);
            let c1 = c_expr(c, cid, *expr).0;
            if c_expr(c, cid, *expr).1 is Ok {
                lemma_then_emit(c, c1, cid, Instr::Neg);
            }
        },
        SpecExpr::Add { left, right } => lemma_c_binary_grew(c, cid, *left, *right, Instr::Add),
        SpecExpr::Sub { left, right } => lemma_c_binary_grew(c, cid, *left, *right, Instr::Sub),
        SpecExpr::Mul { left, right } => lemma_c_binary_grew(c, cid, *left, *right, Instr::Mul),
        SpecExpr::Div { left, right } => lemma_c_binary_grew(c, cid, *left, *right, Instr::Div),
        SpecExpr::Mod { left, right } => lemma_c_binary_grew(c, cid, *left, *right, Instr::Mod),
        SpecExpr::Eq { left, right } => lemma_c_binary_grew(c, cid, *left, *right, Instr::Eq),
        SpecExpr::Ne { left, right } => lemma_c_binary_grew(c, cid, *left, *right, Instr::Ne),
        SpecExpr::Lt { left, right } => lemma_c_binary_grew(c, cid, *left, *right, Instr::Lt),
        SpecExpr::Le { left, right } => lemma_c_binary_grew(c, cid, *left, *right, Instr::Le),
        SpecExpr::Gt { left, right } => lemma_c_binary_grew(c, cid, *left, *right, Instr::Gt),
        SpecExpr::Ge { left, right } => lemma_c_binary_grew(c, cid, *left, *right, Instr::Ge),
        SpecExpr::Call { callee, args } => {
            lemma_intern(c, callee, cid);
            let (c1, id) = intern(c, callee);
            lemma_c_exprs_grew(c1, cid, args, 0);
            let c2 = c_exprs(c1, cid, args, 0).0;
            if c_exprs(c1, cid, args, 0).1 is Ok {
                lemma_grew_trans(c, c1, c2, cid);
                lemma_then_emit(c, c2, cid, Instr::Call { callee: id, argc: args.len() as u32 });
            }
        },
    }
}

proof fn lemma_c_binary_grew(c: SComp, cid: ChunkId, left: SpecExpr, right: SpecExpr, op: Instr)
    requires
        (cid as int) < c.chunks.len(),
        scopes_ok(c),
        instr_ok(op, 0, 0),
    ensures
        expr_grew(c, c_binary(c, cid, left, right, op), cid),
    decreases esize(left) + esize(right) + 1, 2int,
{
    lemma_c_expr_grew(c, cid, left);
    let c1 = c_expr(c, cid, left).0;
    if c_expr(c, cid, left).1 is Ok {
        lemma_c_expr_grew(c1, cid, right);
        let c2 = c_expr(c1, cid, right).0;
        if c_expr(c1, cid, right).1 is Ok {
            lemma_grew_trans(c, c1, c2, cid);
            lemma_then_emit(c, c2, cid, op);
        }
    }
}

proof fn lemma_c_exprs_grew(c: SComp, cid: ChunkId, xs: Seq<SpecExpr>, i: int)
    requires
        (cid as int) < c.chunks.len(),
        scopes_ok(c),
    ensures
        expr_grew(c, c_exprs(c, cid, xs, i), cid),
    decreases esizes(xs) + 1, xs.len() - i,
{
    if 0 <= i < xs.len() {
        lemma_esizes(xs, i);
        lemma_c_expr_grew(c, cid, xs[i]);
        let c1 = c_expr(c, cid, xs[i]).0;
        if c_expr(c, cid, xs[i]).1 is Ok {
            lemma_c_exprs_grew(c1, cid, xs, i + 1);
            if c_exprs(c1, cid, xs, i + 1).1 is Ok {
                lemma_grew_trans(c, c1, c_exprs(c1, cid, xs, i + 1).0, cid);
            }
        }
    } else {
        lemma_grew_refl(c, cid);
    }
}

proof fn lemma_c_borrow_grew(c: SComp, cid: ChunkId, mut_: bool, e: SpecExpr)
    requires
        (cid as int) < c.chunks.len(),
        scopes_ok(c),
    ensures
        expr_grew(c, c_borrow(c, cid, mut_, e), cid),
    decreases esize(e) + 1, 2int,
{
    match e {
        SpecExpr::Ident(name) => {
            lemma_local_of(c, name, cid);
            let c1 = local_of(c, name).0;
            if let Ok(l) = local_of(c, name).1 {
                lemma_then_emit(c, c1, cid, Instr::BorrowLocal { local: l, mut_ });
            }
        },
        SpecExpr::Index { base, index } => {
            lemma_c_base(c, *base, cid);
            let c1 = c_base(c, *base).0;
            if let Ok((l, bm)) = c_base(c, *base).1 {
                lemma_c_expr_grew(c1, cid, *index);
                let c2 = c_expr(c1, cid, *index).0;
                if c_expr(c1, cid, *index).1 is Ok {
                    lemma_grew_trans(c, c1, c2, cid);
                    lemma_then_emit(c, c2, cid, Instr::BorrowIndexLocal { base: l, base_mut: bm, mut_ });
                }
            }
        },
        _ => {},
    }
}

/// How many slots the statement gives out: one for each `let` and each `for`
/// variable, nested blocks included.
pub open spec fn defs_stmt(s: SpecStmt) -> nat
    decreases ssize(s), 0int,
{
    match s {
        SpecStmt::Let { .. } => 1,
        SpecStmt::If { then_body, else_body, .. } => defs_from(then_body, 0) + defs_from(else_body, 0),
        SpecStmt::For { body, .. } => 1 + defs_from(body, 0),
        _ => 0,
    }
}

/// The slots given out by the statements of `ss` from `i` on.
pub open spec fn defs_from(ss: Seq<SpecStmt>, i: int) -> nat
    decreases ssizes(ss) + 1, ss.len() - i,
{
    if i < 0 || i >= ss.len() {
        0
    } else {
        proof {
            lemma_ssizes(ss, i);
        }
        defs_stmt(ss[i]) + defs_from(ss, i + 1)
    }
}

/// What a statement's code keeps: it only appends well-formed code, gives out
/// `d` slots, and leaves as many scopes as there were.
pub open spec fn stmt_grew(c: SComp, r: CRes<()>, cid: ChunkId, d: nat) -> bool {
    r.1 is Ok ==> grew(c, r.0, cid) && r.0.next_local == c.next_local + d && r.0.scopes.len() == c.scopes.len()
}

proof fn lemma_cast_le(x: int)
    requires
        0 <= x,
    ensures
        (x as usize) as int <= x,
{
    if x <= usize::MAX {
        assert((x as usize) as int == x);
    }
}

proof fn lemma_push_scope(c: SComp, cid: ChunkId)
    requires
        scopes_ok(c),
    ensures
        grew(c, push_scope(c), cid),
        push_scope(c).next_local == c.next_local,
        push_scope(c).scopes.len() == c.scopes.len() + 1,
{
    let b = push_scope(c);
    assert forall|k: int, j: int| 0 <= k < b.scopes.len() && 0 <= j < b.scopes[k].len() implies (
    #[trigger] b.scopes[k][j]).1 < b.next_local by {
        assert(k < c.scopes.len());
        assert(b.scopes[k] == c.scopes[k]);
    }
}

proof fn lemma_pop_scope(c: SComp, cid: ChunkId)
    requires
        scopes_ok(c),
        c.scopes.len() >= 1,
    ensures
        grew(c, pop_scope(c), cid),
        pop_scope(c).next_local == c.next_local,
        pop_scope(c).scopes.len() == c.scopes.len() - 1,
{
    let b = pop_scope(c);
    assert forall|k: int, j: int| 0 <= k < b.scopes.len() && 0 <= j < b.scopes[k].len() implies (
    #[trigger] b.scopes[k][j]).1 < b.next_local by {
        assert(b.scopes[k] == c.scopes[k]);
    }
}

proof fn lemma_scope_insert(sc: Seq<(StrId, LocalId)>, name: StrId, l: LocalId)
    ensures
        forall|j: int|
            0 <= j < scope_insert(sc, name, l).len() ==> (#[trigger] scope_insert(sc, name, l)[j]).1 == l || (j
                < sc.len() && scope_insert(sc, name, l)[j] == sc[j]),
{
    lemma_key_find(sc, name, 0);
}

proof fn lemma_bind(c: SComp, name: StrId, l: LocalId, cid: ChunkId)
    requires
        scopes_ok(c),
        c.scopes.len() >= 1,
        l < c.next_local,
    ensures
        grew(c, bind_in_top(c, name, l), cid),
        bind_in_top(c, name, l).next_local == c.next_local,
        bind_in_top(c, name, l).scopes.len() == c.scopes.len(),
{
    let b = bind_in_top(c, name, l);
    let top = c.scopes.len() - 1;
    lemma_scope_insert(c.scopes[top], name, l);
    assert forall|k: int, j: int| 0 <= k < b.scopes.len() && 0 <= j < b.scopes[k].len() implies (
    #[trigger] b.scopes[k][j]).1 < b.next_local by {
        if k == top {
            assert(b.scopes[k] == scope_insert(c.scopes[top], name, l));
            assert(b.scopes[k][j].1 == l || b.scopes[k][j] == c.scopes[k][j]);
        } else {
            assert(b.scopes[k] == c.scopes[k]);
        }
    }
}

proof fn lemma_define_local(c: SComp, name: StrId, cid: ChunkId)
    requires
        scopes_ok(c),
        c.scopes.len() >= 1,
        c.next_local < u32::MAX,
    ensures
        grew(c, define_local(c, name).0, cid),
        define_local(c, name).1 == c.next_local,
        define_local(c, name).0.next_local == c.next_local + 1,
        define_local(c, name).0.scopes.len() == c.scopes.len(),
{
    let c1 = SComp { next_local: (c.next_local + 1) as u32, ..c };
    assert(c.next_local.wrapping_add(1) == c.next_local + 1);
    assert(scopes_ok(c1));
    lemma_grew_refl(c1, cid);
    lemma_bind(c1, name, c.next_local, cid);
}

proof fn lemma_c_block_grew(c: SComp, cid: ChunkId, body: Seq<SpecStmt>)
    requires
        (cid as int) < c.chunks.len(),
        scopes_ok(c),
        c.scopes.len() >= 1,
        c.next_local + defs_from(body, 0) <= u32::MAX,
    ensures
        stmt_grew(c, c_block(c, cid, body), cid, defs_from(body, 0)),
    decreases ssizes(body) + 1, body.len() + 1,
{
    let c0 = emit(c, cid, Instr::EnterScope);
    lemma_emit(c, cid, Instr::EnterScope);
    lemma_push_scope(c0, cid);
    lemma_grew_trans(c, c0, push_scope(c0), cid);
    let c1 = push_scope(c0);
    lemma_c_stmts_grew(c1, cid, body, 0);
    if c_stmts(c1, cid, body, 0).1 is Ok {
        let c2 = c_stmts(c1, cid, body, 0).0;
        lemma_grew_trans(c, c1, c2, cid);
        lemma_pop_scope(c2, cid);
        lemma_grew_trans(c, c2, pop_scope(c2), cid);
        let c3 = pop_scope(c2);
        lemma_emit(c3, cid, Instr::ExitScope);
        lemma_grew_trans(c, c3, emit(c3, cid, Instr::ExitScope), cid);
    }
}

proof fn lemma_c_stmts_grew(c: SComp, cid: ChunkId, ss: Seq<SpecStmt>, i: int)
    requires
        (cid as int) < c.chunks.len(),
        scopes_ok(c),
        c.scopes.len() >= 1,
        c.next_local + defs_from(ss, i) <= u32::MAX,
    ensures
        stmt_grew(c, c_stmts(c, cid, ss, i), cid, defs_from(ss, i)),
    decreases ssizes(ss) + 1, ss.len() - i,
{
    if 0 <= i < ss.len() {
        lemma_ssizes(ss, i);
        lemma_c_stmt_grew(c, cid, ss[i]);
        if c_stmt(c, cid, ss[i]).1 is Ok {
            let c1 = c_stmt(c, cid, ss[i]).0;
            lemma_c_stmts_grew(c1, cid, ss, i + 1);
            if c_stmts(c1, cid, ss, i + 1).1 is Ok {
                lemma_grew_trans(c, c1, c_stmts(c1, cid, ss, i + 1).0, cid);
            }
        }
    } else {
        lemma_grew_refl(c, cid);
    }
}

proof fn lemma_c_stmt_grew(c: SComp, cid: ChunkId, s: SpecStmt)
    requires
        (cid as int) < c.chunks.len(),
        scopes_ok(c),
        c.scopes.len() >= 1,
        c.next_local + defs_stmt(s) <= u32::MAX,
    ensures
        stmt_grew(c, c_stmt(c, cid, s), cid, defs_stmt(s)),
    decreases ssize(s), 0int,
{
    match s {
        SpecStmt::Let { name, expr } => {
            lemma_c_expr_grew(c, cid, expr);
            if c_expr(c, cid, expr).1 is Ok {
                let c1 = c_expr(c, cid, expr).0;
                lemma_intern(c1, name, cid);
                let (c2, id) = intern(c1, name);
                lemma_grew_trans(c, c1, c2, cid);
                lemma_define_local(c2, id, cid);
                let (c3, l) = define_local(c2, id);
                lemma_grew_trans(c, c2, c3, cid);
                lemma_emit(c3, cid, Instr::DefineLocal(l));
                lemma_grew_trans(c, c3, emit(c3, cid, Instr::DefineLocal(l)), cid);
            }
        },
        SpecStmt::Assign { name, expr } => {
            lemma_local_of(c, name, cid);
            if let Ok(l) = local_of(c, name).1 {
                let c1 = local_of(c, name).0;
                lemma_c_expr_grew(c1, cid, expr);
                if c_expr(c1, cid, expr).1 is Ok {
                    let c2 = c_expr(c1, cid, expr).0;
                    lemma_grew_trans(c, c1, c2, cid);
                    lemma_then_emit(c, c2, cid, Instr::StoreLocal(l));
                }
            }
        },
        SpecStmt::Print { expr } | SpecStmt::ExprStmt { expr } => {
            let last = if s is Print { Instr::Print } else { Instr::Pop };
            let c0 = emit(c, cid, Instr::TempEnter);
            lemma_emit(c, cid, Instr::TempEnter);
            lemma_c_expr_grew(c0, cid, expr);
            if c_expr(c0, cid, expr).1 is Ok {
                let c1 = c_expr(c0, cid, expr).0;
                lemma_grew_trans(c, c0, c1, cid);
                lemma_then_emit(c, c1, cid, last);
                lemma_then_emit(c, emit(c1, cid, last), cid, Instr::TempExit);
            }
        },
        SpecStmt::Return(e) => {
            lemma_c_expr_grew(c, cid, e);
            if c_expr(c, cid, e).1 is Ok {
                lemma_then_emit(c, c_expr(c, cid, e).0, cid, Instr::Return);
            }
        },
        SpecStmt::If { cond, then_body, else_body } => {
            lemma_c_expr_grew(c, cid, cond);
            if c_expr(c, cid, cond).1 is Ok {
                let c1 = c_expr(c, cid, cond).0;
                let jf_pos = code_len(c1, cid);
                let cb = emit(c1, cid, Instr::JumpIfFalse(0));
                lemma_then_emit(c, c1, cid, Instr::JumpIfFalse(0));
                lemma_c_block_grew(cb, cid, then_body);
                if c_block(cb, cid, then_body).1 is Ok {
                    let c2 = c_block(cb, cid, then_body).0;
                    lemma_grew_trans(c, cb, c2, cid);
                    let j_pos = code_len(c2, cid);
                    let c3 = emit(c2, cid, Instr::Jump(0));
                    lemma_emit(c2, cid, Instr::Jump(0));
                    lemma_grew_trans(c, c2, c3, cid);
                    let else_start = code_len(c3, cid);
                    lemma_cast_le(else_start);
                    lemma_patch(c, c3, cid, jf_pos, Instr::JumpIfFalse(else_start as usize));
                    let c4 = patch(c3, cid, jf_pos, Instr::JumpIfFalse(else_start as usize));
                    lemma_c_block_grew(c4, cid, else_body);
                    if c_block(c4, cid, else_body).1 is Ok {
                        let c5 = c_block(c4, cid, else_body).0;
                        lemma_grew_trans(c, c4, c5, cid);
                        lemma_cast_le(code_len(c5, cid));
                        lemma_patch(c, c5, cid, j_pos, Instr::Jump(code_len(c5, cid) as usize));
                    }
                }
            }
        },
        SpecStmt::For { var, iter, body } => {
            lemma_c_expr_grew(c, cid, iter);
            if c_expr(c, cid, iter).1 is Ok {
                let c1 = c_expr(c, cid, iter).0;
                lemma_intern(c1, var, cid);
                let (c2, var_id) = intern(c1, var);
                lemma_grew_trans(c, c1, c2, cid);
                lemma_define_local(c2, var_id, cid);
                let (c3, var_local) = define_local(c2, var_id);
                lemma_grew_trans(c, c2, c3, cid);
                let init_pos = code_len(c3, cid);
                let c4 = emit(c3, cid, Instr::ForInit { var: var_local, body_start: 0, end: 0 });
                lemma_emit(c3, cid, Instr::ForInit { var: var_local, body_start: 0, end: 0 });
                lemma_grew_trans(c, c3, c4, cid);
                let body_start = code_len(c4, cid) as usize;
                lemma_cast_le(code_len(c4, cid));
                lemma_patch(c, c4, cid, init_pos, Instr::ForInit { var: var_local, body_start, end: 0 });
                let c5 = patch(c4, cid, init_pos, Instr::ForInit { var: var_local, body_start, end: 0 });
                let c5a = emit(c5, cid, Instr::EnterScope);
                lemma_emit(c5, cid, Instr::EnterScope);
                lemma_grew_trans(c, c5, c5a, cid);
                lemma_push_scope(c5a, cid);
                lemma_grew_trans(c, c5a, push_scope(c5a), cid);
                lemma_bind(push_scope(c5a), var_id, var_local, cid);
                let c6 = bind_in_top(push_scope(c5a), var_id, var_local);
                lemma_grew_trans(c, push_scope(c5a), c6, cid);
                lemma_c_stmts_grew(c6, cid, body, 0);
                if c_stmts(c6, cid, body, 0).1 is Ok {
                    let c7 = c_stmts(c6, cid, body, 0).0;
                    lemma_grew_trans(c, c6, c7, cid);
                    lemma_pop_scope(c7, cid);
                    lemma_grew_trans(c, c7, pop_scope(c7), cid);
                    let c8 = emit(pop_scope(c7), cid, Instr::ExitScope);
                    lemma_emit(pop_scope(c7), cid, Instr::ExitScope);
                    lemma_grew_trans(c, pop_scope(c7), c8, cid);
                    let next_pos = code_len(c8, cid);
                    let c9 = emit(c8, cid, Instr::ForNext { body_start, end: 0 });
                    lemma_emit(c8, cid, Instr::ForNext { body_start, end: 0 });
                    lemma_grew_trans(c, c8, c9, cid);
                    let end = code_len(c9, cid) as usize;
                    lemma_cast_le(code_len(c9, cid));
                    lemma_patch(c, c9, cid, init_pos, Instr::ForInit { var: var_local, body_start, end });
                    let c10 = patch(c9, cid, init_pos, Instr::ForInit { var: var_local, body_start, end });
                    lemma_patch(c, c10, cid, next_pos, Instr::ForNext { body_start, end });
                }
            }
        },
    }
}

/// Every chunk is well formed.
pub open spec fn chunks_ok(c: SComp) -> bool {
    forall|j: int| 0 <= j < c.chunks.len() ==> chunk_ok(#[trigger] c.chunks[j])
}

/// The slots `n0, n0 + 1, ..` for `k` parameters.
pub open spec fn slots_from(n0: int, k: int) -> Seq<LocalId> {
    Seq::new(k as nat, |j: int| (n0 + j) as LocalId)
}

proof fn lemma_c_params(c: SComp, cid: ChunkId, params: Seq<Seq<char>>, i: int)
    requires
        (cid as int) < c.chunks.len(),
        scopes_ok(c),
        c.scopes.len() >= 1,
        0 <= i <= params.len(),
        c.next_local + params.len() - i <= u32::MAX,
    ensures
        ({
            let r = c_params(c, cid, params, i);
            &&& r.chunks.len() == c.chunks.len()
            &&& r.fns == c.fns
            &&& (forall|j: int| 0 <= j < c.chunks.len() && j != cid ==> #[trigger] r.chunks[j] == c.chunks[j])
            &&& r.chunks[cid as int].code == c.chunks[cid as int].code
            &&& r.chunks[cid as int].params == c.chunks[cid as int].params + slots_from(
                c.next_local as int,
                params.len() - i,
            )
            &&& r.next_local == c.next_local + params.len() - i
            &&& scopes_ok(r)
            &&& r.scopes.len() == c.scopes.len()
            &&& c.strings.len() <= r.strings.len()
            &&& (forall|k: int| 0 <= k < c.strings.len() ==> #[trigger] r.strings[k] == c.strings[k])
        }),
    decreases params.len() - i,
{
    if i < params.len() {
        lemma_intern(c, params[i], cid);
        let (c1, pid) = intern(c, params[i]);
        lemma_define_local(c1, pid, cid);
        let (c2, l) = define_local(c1, pid);
        let c3 = add_param(c2, cid, l);
        assert(scopes_ok(c3));
        lemma_c_params(c3, cid, params, i + 1);
        let r = c_params(c3, cid, params, i + 1);
        assert(r.chunks[cid as int].params =~= c.chunks[cid as int].params + slots_from(
            c.next_local as int,
            params.len() - i,
        ));
        assert forall|j: int| 0 <= j < c.chunks.len() && j != cid implies #[trigger] r.chunks[j] == c.chunks[j] by {
            assert(r.chunks[j] == c3.chunks[j]);
            assert(c2.chunks[j] == c.chunks[j]);
        }
        assert forall|k: int| 0 <= k < c.strings.len() implies #[trigger] r.strings[k] == c.strings[k] by {
            assert(r.strings[k] == c3.strings[k]);
            assert(c1.strings[k] == c.strings[k]);
        }
    } else {
        assert(c.chunks[cid as int].params + slots_from(c.next_local as int, 0) =~= c.chunks[cid as int].params);
    }
}

/// What compiling one function leaves: its chunk is well formed, holds its
/// parameters in the first slots and ends with `PushUnit, Return`; nothing else
/// changes but the interned strings, which only grow.
pub open spec fn fn_compiled(c: SComp, f: SpecFnDef, r: SComp, cid: ChunkId) -> bool {
    let ch = r.chunks[cid as int];
    &&& (cid as int) < c.chunks.len()
    &&& r.chunks.len() == c.chunks.len()
    &&& r.fns == c.fns
    &&& (forall|j: int| 0 <= j < c.chunks.len() && j != cid ==> #[trigger] r.chunks[j] == c.chunks[j])
    &&& chunk_ok(ch)
    &&& ch.params == slots_from(0, f.params.len() as int)
    &&& ch.code.len() >= 2
    &&& ch.code[ch.code.len() - 2] == Instr::PushUnit
    &&& ch.code[ch.code.len() - 1] == Instr::Return
    &&& c.strings.len() <= r.strings.len()
    &&& (forall|k: int| 0 <= k < c.strings.len() ==> #[trigger] r.strings[k] == c.strings[k])
}

/// The slots a function needs fit in a `u32`.
pub open spec fn fn_fits(f: SpecFnDef) -> bool {
    f.params.len() + defs_from(f.body, 0) <= u32::MAX
}

proof fn lemma_c_fn(c: SComp, f: SpecFnDef)
    requires
        fn_fits(f),
    ensures
        c_fn(c, f).1 is Ok ==> fn_compiled(
            c,
            f,
            c_fn(c, f).0,
            fn_chunk(intern(c, f.name).0.fns, intern(c, f.name).1, 0)->0,
        ),
{
    let (c1, name_id) = intern(c, f.name);
    if let Some(cid) = fn_chunk(c1.fns, name_id, 0) {
        if (cid as int) < c1.chunks.len() {
            let cb = clear_chunk(begin_chunk(c1), cid);
            assert(scopes_ok(cb));
            lemma_c_params(cb, cid, f.params, 0);
            let c2 = c_params(cb, cid, f.params, 0);
            assert(c2.chunks[cid as int].params =~= slots_from(0, f.params.len() as int));
            lemma_c_stmts_grew(c2, cid, f.body, 0);
            if c_stmts(c2, cid, f.body, 0).1 is Ok {
                let c3 = c_stmts(c2, cid, f.body, 0).0;
                lemma_emit(c3, cid, Instr::PushUnit);
                lemma_grew_trans(c2, c3, emit(c3, cid, Instr::PushUnit), cid);
                let c4 = emit(c3, cid, Instr::PushUnit);
                lemma_emit(c4, cid, Instr::Return);
                lemma_grew_trans(c2, c4, emit(c4, cid, Instr::Return), cid);
                let c5 = emit(c4, cid, Instr::Return);
                let r = end_chunk(c5, cid);
                let ch = r.chunks[cid as int];
                assert(ch.code == c5.chunks[cid as int].code);
                assert(ch.local_count as int == c5.next_local as int);
                assert(chunk_ok(ch)) by {
                    assert forall|i: int| 0 <= i < ch.code.len() implies instr_ok(
                        #[trigger] ch.code[i],
                        ch.code.len() as int,
                        ch.local_count as int,
                    ) by {
                        assert(c5.chunks[cid as int].code[i] == ch.code[i]);
                    }
                }
                assert forall|j: int| 0 <= j < c.chunks.len() && j != cid implies #[trigger] r.chunks[j] == c.chunks[j] by {
                    assert(r.chunks[j] == c5.chunks[j]);
                    assert(c2.chunks[j] == cb.chunks[j]);
                }
                assert forall|k: int| 0 <= k < c.strings.len() implies #[trigger] r.strings[k] == c.strings[k] by {
                    assert(r.strings[k] == c5.strings[k]);
                    assert(c5.strings[k] == c2.strings[k]);
                    assert(c2.strings[k] == c1.strings[k]);
                }
            }
        }
    }
}

/// The slots given out by the top-level statements of `items` from `i` on.
pub open spec fn main_defs(items: Seq<SpecItem>, i: int) -> nat
    decreases items.len() - i,
{
    if i < 0 || i >= items.len() {
        0
    } else {
        match items[i] {
            SpecItem::Stmt(s) => defs_stmt(s) + main_defs(items, i + 1),
            SpecItem::Fn(_) => main_defs(items, i + 1),
        }
    }
}

/// Every function of `items` needs no more slots than a `u32` counts.
pub open spec fn fns_fit(items: Seq<SpecItem>) -> bool {
    forall|i: int| 0 <= i < items.len() ==> (#[trigger] items[i] matches SpecItem::Fn(f) ==> fn_fits(f))
}

proof fn lemma_c_fns(c: SComp, items: Seq<SpecItem>, i: int)
    requires
        chunks_ok(c),
        fns_fit(items),
    ensures
        c_fns(c, items, i).1 is Ok ==> ({
            let r = c_fns(c, items, i).0;
            &&& chunks_ok(r)
            &&& r.chunks.len() == c.chunks.len()
            &&& r.fns == c.fns
        }),
    decreases items.len() - i,
{
    if 0 <= i < items.len() {
        if let SpecItem::Fn(f) = items[i] {
            lemma_c_fn(c, f);
            if c_fn(c, f).1 is Ok {
                let c1 = c_fn(c, f).0;
                let cid = fn_chunk(intern(c, f.name).0.fns, intern(c, f.name).1, 0)->0;
                assert(chunks_ok(c1)) by {
                    assert forall|j: int| 0 <= j < c1.chunks.len() implies chunk_ok(#[trigger] c1.chunks[j]) by {
                        if j != cid {
                            assert(c1.chunks[j] == c.chunks[j]);
                        }
                    }
                }
                lemma_c_fns(c1, items, i + 1);
            }
        } else {
            lemma_c_fns(c, items, i + 1);
        }
    }
}

proof fn lemma_c_main(c: SComp, main: ChunkId, items: Seq<SpecItem>, i: int)
    requires
        (main as int) < c.chunks.len(),
        scopes_ok(c),
        c.scopes.len() >= 1,
        c.next_local + main_defs(items, i) <= u32::MAX,
    ensures
        stmt_grew(c, c_main(c, main, items, i), main, main_defs(items, i)),
    decreases items.len() - i,
{
    if 0 <= i < items.len() {
        match items[i] {
            SpecItem::Stmt(s) => {
                if !(s is Return) {
                    lemma_c_stmt_grew(c, main, s);
                    if c_stmt(c, main, s).1 is Ok {
                        let c1 = c_stmt(c, main, s).0;
                        lemma_c_main(c1, main, items, i + 1);
                        if c_main(c1, main, items, i + 1).1 is Ok {
                            lemma_grew_trans(c, c1, c_main(c1, main, items, i + 1).0, main);
                        }
                    }
                }
            },
            SpecItem::Fn(_) => lemma_c_main(c, main, items, i + 1),
        }
    } else {
        lemma_grew_refl(c, main);
    }
}

/// Every function's chunk is one of the chunks made.
pub open spec fn fns_in_range(c: SComp) -> bool {
    forall|k: int| 0 <= k < c.fns.len() ==> (#[trigger] c.fns[k]).1 < c.chunks.len()
}

proof fn lemma_c_register(c: SComp, items: Seq<SpecItem>, i: int)
    requires
        0 <= i <= items.len(),
        fns_in_range(c),
        chunks_ok(c),
        c.chunks.len() + items.len() - i <= u32::MAX,
    ensures
        fns_in_range(c_register(c, items, i).0),
        chunks_ok(c_register(c, items, i).0),
        c_register(c, items, i).0.chunks.len() <= c.chunks.len() + items.len() - i,
    decreases items.len() - i,
{
    if i < items.len() {
        if let SpecItem::Fn(f) = items[i] {
            let (c1, id) = intern(c, f.name);
            if fn_chunk(c1.fns, id, 0) is None {
                let (c2, cid) = alloc_chunk(c1);
                let c3 = SComp { fns: c2.fns.push((id, cid)), ..c2 };
                assert(fns_in_range(c3)) by {
                    assert forall|k: int| 0 <= k < c3.fns.len() implies (#[trigger] c3.fns[k]).1 < c3.chunks.len() by {
                        if k < c.fns.len() {
                            assert(c3.fns[k] == c.fns[k]);
                        }
                    }
                }
                assert(chunks_ok(c3)) by {
                    assert forall|j: int| 0 <= j < c3.chunks.len() implies chunk_ok(#[trigger] c3.chunks[j]) by {
                        if j < c.chunks.len() {
                            assert(c3.chunks[j] == c.chunks[j]);
                        }
                    }
                }
                lemma_c_register(c3, items, i + 1);
            }
        } else {
            lemma_c_register(c, items, i + 1);
        }
    }
}

/// `b` begins with the strings of `a`.
pub open spec fn strings_kept(a: Seq<Seq<char>>, b: Seq<Seq<char>>) -> bool {
    a.len() <= b.len() && forall|k: int| 0 <= k < a.len() ==> #[trigger] b[k] == a[k]
}

/// The function of an item, if it is one.
pub open spec fn item_fn(it: SpecItem) -> Option<SpecFnDef> {
    match it {
        SpecItem::Fn(f) => Some(f),
        SpecItem::Stmt(_) => None,
    }
}

/// The functions of `items` before `n` have distinct names.
pub open spec fn names_distinct(items: Seq<SpecItem>, n: int) -> bool {
    forall|a: int, b: int|
        0 <= a < b < n && (#[trigger] item_fn(items[a])) is Some && (#[trigger] item_fn(items[b])) is Some
            ==> item_fn(items[a])->0.name != item_fn(items[b])->0.name
}

/// No two functions of the table share a chunk.
pub open spec fn cids_distinct(fns: Seq<(StrId, ChunkId)>) -> bool {
    forall|a: int, b: int| 0 <= a < b < fns.len() ==> (#[trigger] fns[a]).1 != (#[trigger] fns[b]).1
}

/// `name` is interned and the table gives it a chunk.
pub open spec fn registered(c: SComp, name: Seq<char>) -> bool {
    str_find(c.strings, name, 0) matches Some(id) && id <= u32::MAX && fn_chunk(c.fns, id as StrId, 0) is Some
}

/// A function's chunk: its parameters are its first slots, and it ends with
/// `PushUnit, Return`.
pub open spec fn fn_chunk_ok(ch: SChunk, f: SpecFnDef) -> bool {
    &&& ch.params == slots_from(0, f.params.len() as int)
    &&& ch.code.len() >= 2
    &&& ch.code[ch.code.len() - 2] == Instr::PushUnit
    &&& ch.code[ch.code.len() - 1] == Instr::Return
}

/// The table holds an entry for `f` whose chunk is `f` compiled.
pub open spec fn fn_done(c: SComp, f: SpecFnDef) -> bool {
    exists|k: int|
        0 <= k < c.fns.len() && (#[trigger] c.fns[k]).0 < c.strings.len() && c.strings[c.fns[k].0 as int] == f.name
            && fn_chunk_ok(c.chunks[c.fns[k].1 as int], f)
}

proof fn lemma_str_find_stable(a: Seq<Seq<char>>, b: Seq<Seq<char>>, s: Seq<char>, i: int)
    requires
        strings_kept(a, b),
        str_find(a, s, i) is Some,
    ensures
        str_find(b, s, i) == str_find(a, s, i),
    decreases a.len() - i,
{
    if 0 <= i < a.len() && a[i] != s {
        lemma_str_find_stable(a, b, s, i + 1);
    }
}

proof fn lemma_str_find_push(a: Seq<Seq<char>>, s: Seq<char>, i: int)
    requires
        0 <= i <= a.len(),
        str_find(a, s, i) is None,
    ensures
        str_find(a.push(s), s, i) == Some(a.len() as int),
    decreases a.len() - i,
{
    if i < a.len() {
        lemma_str_find_push(a, s, i + 1);
    }
}

proof fn lemma_intern_named(c: SComp, s: Seq<char>)
    requires
        intern(c, s).0.strings.len() <= u32::MAX,
    ensures
        str_find(intern(c, s).0.strings, s, 0) == Some(intern(c, s).1 as int),
        str_find(c.strings, s, 0) is Some ==> intern(c, s).0 == c,
        strings_kept(c.strings, intern(c, s).0.strings),
{
    lemma_str_find(c.strings, s, 0);
    if str_find(c.strings, s, 0) is None {
        lemma_str_find_push(c.strings, s, 0);
    }
}

proof fn lemma_fn_chunk_entry(fns: Seq<(StrId, ChunkId)>, id: StrId, i: int)
    ensures
        fn_chunk(fns, id, i) matches Some(x) ==> exists|k: int|
            0 <= k < fns.len() && (#[trigger] fns[k]).0 == id && fns[k].1 == x,
    decreases fns.len() - i,
{
    if 0 <= i < fns.len() {
        if fns[i].0 == id {
            assert(fns[i].0 == id && fns[i].1 == fn_chunk(fns, id, i)->0);
        } else {
            lemma_fn_chunk_entry(fns, id, i + 1);
        }
    }
}

proof fn lemma_fn_chunk_push(fns: Seq<(StrId, ChunkId)>, y: (StrId, ChunkId), id: StrId, i: int)
    requires
        0 <= i,
    ensures
        fn_chunk(fns, id, i) is Some ==> fn_chunk(fns.push(y), id, i) == fn_chunk(fns, id, i),
        (fn_chunk(fns, id, i) is None && y.0 == id && i <= fns.len()) ==> fn_chunk(fns.push(y), id, i) == Some(y.1),
    decreases fns.len() - i,
{
    if i < fns.len() {
        lemma_fn_chunk_push(fns, y, id, i + 1);
    }
}

proof fn lemma_register_strings(c: SComp, items: Seq<SpecItem>, i: int)
    ensures
        strings_kept(c.strings, c_register(c, items, i).0.strings),
    decreases items.len() - i,
{
    if 0 <= i < items.len() {
        if let SpecItem::Fn(f) = items[i] {
            let (c1, id) = intern(c, f.name);
            if fn_chunk(c1.fns, id, 0) is None {
                let (c2, cid) = alloc_chunk(c1);
                let c3 = SComp { fns: c2.fns.push((id, cid)), ..c2 };
                lemma_register_strings(c3, items, i + 1);
            }
        } else {
            lemma_register_strings(c, items, i + 1);
        }
    }
}

proof fn lemma_register_names(c: SComp, items: Seq<SpecItem>, i: int)
    requires
        0 <= i <= items.len(),
        cids_distinct(c.fns),
        fns_in_range(c),
        forall|a: int| 0 <= a < i && (#[trigger] item_fn(items[a])) is Some ==> registered(c, item_fn(items[a])->0.name),
        names_distinct(items, i),
        c_register(c, items, i).0.strings.len() <= u32::MAX,
        c.chunks.len() + items.len() - i <= u32::MAX,
    ensures
        c_register(c, items, i).1 is Ok ==> ({
            let r = c_register(c, items, i).0;
            &&& cids_distinct(r.fns)
            &&& forall|a: int|
                0 <= a < items.len() && (#[trigger] item_fn(items[a])) is Some ==> registered(r, item_fn(items[a])->0.name)
            &&& names_distinct(items, items.len() as int)
        }),
    decreases items.len() - i,
{
    if i < items.len() {
        if let SpecItem::Fn(f) = items[i] {
            let (c1, id) = intern(c, f.name);
            let r = c_register(c, items, i).0;
            if fn_chunk(c1.fns, id, 0) is None {
                let (c2, cid) = alloc_chunk(c1);
                let c3 = SComp { fns: c2.fns.push((id, cid)), ..c2 };
                lemma_register_strings(c3, items, i + 1);
                lemma_intern_named(c, f.name);
                assert(cid as int == c.chunks.len());
                assert(cids_distinct(c3.fns)) by {
                    assert forall|a: int, b: int| 0 <= a < b < c3.fns.len() implies (#[trigger] c3.fns[a]).1 != (
                    #[trigger] c3.fns[b]).1 by {
                        if b < c.fns.len() {
                            assert(c3.fns[a] == c.fns[a] && c3.fns[b] == c.fns[b]);
                        } else {
                            assert(c3.fns[a] == c.fns[a]);
                        }
                    }
                }
                assert(fns_in_range(c3)) by {
                    assert forall|k: int| 0 <= k < c3.fns.len() implies (#[trigger] c3.fns[k]).1 < c3.chunks.len() by {
                        if k < c.fns.len() {
                            assert(c3.fns[k] == c.fns[k]);
                        }
                    }
                }
                assert forall|a: int| 0 <= a < i + 1 && (#[trigger] item_fn(items[a])) is Some implies registered(
                    c3,
                    item_fn(items[a])->0.name,
                ) by {
                    let n = item_fn(items[a])->0.name;
                    if a < i {
                        let ida = str_find(c.strings, n, 0)->0;
                        lemma_str_find_stable(c.strings, c3.strings, n, 0);
                        lemma_fn_chunk_push(c.fns, (id, cid), ida as StrId, 0);
                    } else {
                        lemma_fn_chunk_push(c.fns, (id, cid), id, 0);
                    }
                }
                assert(names_distinct(items, i + 1)) by {
                    assert forall|a: int, b: int|
                        0 <= a < b < i + 1 && (#[trigger] item_fn(items[a])) is Some && (#[trigger] item_fn(
                            items[b],
                        )) is Some implies item_fn(items[a])->0.name != item_fn(items[b])->0.name by {
                        if b == i && item_fn(items[a])->0.name == f.name {
                            assert(registered(c, f.name));
                            assert(c1 == c);
                        }
                    }
                }
                lemma_register_names(c3, items, i + 1);
            }
        } else {
            assert(names_distinct(items, i + 1)) by {
                assert forall|a: int, b: int|
                    0 <= a < b < i + 1 && (#[trigger] item_fn(items[a])) is Some && (#[trigger] item_fn(
                        items[b],
                    )) is Some implies item_fn(items[a])->0.name != item_fn(items[b])->0.name by {
                    assert(b < i);
                }
            }
            lemma_register_names(c, items, i + 1);
        }
    }
}

proof fn lemma_c_fns_strings(c: SComp, items: Seq<SpecItem>, i: int)
    requires
        fns_fit(items),
    ensures
        c_fns(c, items, i).1 is Ok ==> strings_kept(c.strings, c_fns(c, items, i).0.strings),
    decreases items.len() - i,
{
    if 0 <= i < items.len() {
        if let SpecItem::Fn(f) = items[i] {
            lemma_c_fn(c, f);
            if c_fn(c, f).1 is Ok {
                lemma_c_fns_strings(c_fn(c, f).0, items, i + 1);
            }
        } else {
            lemma_c_fns_strings(c, items, i + 1);
        }
    }
}

proof fn lemma_c_fns_done(c: SComp, items: Seq<SpecItem>, i: int)
    requires
        0 <= i <= items.len(),
        cids_distinct(c.fns),
        fns_in_range(c),
        fns_fit(items),
        forall|a: int|
            0 <= a < items.len() && (#[trigger] item_fn(items[a])) is Some ==> registered(c, item_fn(items[a])->0.name),
        names_distinct(items, items.len() as int),
        forall|a: int| 0 <= a < i && (#[trigger] item_fn(items[a])) is Some ==> fn_done(c, item_fn(items[a])->0),
    ensures
        c_fns(c, items, i).1 is Ok ==> forall|a: int|
            0 <= a < items.len() && (#[trigger] item_fn(items[a])) is Some ==> fn_done(c_fns(c, items, i).0, item_fn(items[a])->0),
    decreases items.len() - i,
{
    if i < items.len() {
        if let SpecItem::Fn(f) = items[i] {
            assert(item_fn(items[i]) is Some);
            assert(registered(c, f.name));
            let id0 = str_find(c.strings, f.name, 0)->0;
            lemma_str_find(c.strings, f.name, 0);
            assert(intern(c, f.name) == (c, id0 as StrId));
            lemma_c_fn(c, f);
            if c_fn(c, f).1 is Ok {
                let c1 = c_fn(c, f).0;
                let cid = fn_chunk(c.fns, id0 as StrId, 0)->0;
                assert(fn_compiled(c, f, c1, cid));
                lemma_fn_chunk_entry(c.fns, id0 as StrId, 0);
                let kf = choose|k: int| 0 <= k < c.fns.len() && (#[trigger] c.fns[k]).0 == id0 as StrId && c.fns[k].1 == cid;
                assert(fns_in_range(c1)) by {
                    assert forall|k: int| 0 <= k < c1.fns.len() implies (#[trigger] c1.fns[k]).1 < c1.chunks.len() by {
                        assert(c1.fns[k] == c.fns[k]);
                    }
                }
                assert(c1.strings[id0] == f.name);
                assert(fn_done(c1, f)) by {
                    assert(c1.fns[kf].0 < c1.strings.len() && c1.strings[c1.fns[kf].0 as int] == f.name
                        && fn_chunk_ok(c1.chunks[c1.fns[kf].1 as int], f));
                }
                assert forall|a: int|
                    0 <= a < i + 1 && (#[trigger] item_fn(items[a])) is Some implies fn_done(c1, item_fn(items[a])->0) by {
                    if a < i {
                        let g = item_fn(items[a])->0;
                        assert(fn_done(c, g));
                        let kg = choose|k: int|
                            0 <= k < c.fns.len() && (#[trigger] c.fns[k]).0 < c.strings.len() && c.strings[c.fns[k].0 as int]
                                == g.name && fn_chunk_ok(c.chunks[c.fns[k].1 as int], g);
                        if c.fns[kg].1 == cid {
                            if kg != kf {
                                if kg < kf {
                                    assert(c.fns[kg].1 != c.fns[kf].1);
                                } else {
                                    assert(c.fns[kf].1 != c.fns[kg].1);
                                }
                            }
                            assert(g.name == f.name);
                            assert(item_fn(items[i]) is Some);
                            assert(false);
                        }
                        assert(c1.chunks[c.fns[kg].1 as int] == c.chunks[c.fns[kg].1 as int]);
                        assert(c1.fns[kg].0 < c1.strings.len() && c1.strings[c1.fns[kg].0 as int] == g.name
                            && fn_chunk_ok(c1.chunks[c1.fns[kg].1 as int], g));
                    }
                }
                assert forall|a: int|
                    0 <= a < items.len() && (#[trigger] item_fn(items[a])) is Some implies registered(
                    c1,
                    item_fn(items[a])->0.name,
                ) by {
                    let n = item_fn(items[a])->0.name;
                    lemma_str_find_stable(c.strings, c1.strings, n, 0);
                }
                lemma_c_fns_done(c1, items, i + 1);
            }
        } else {
            lemma_c_fns_done(c, items, i + 1);
        }
    }
}

/// A compiled program is well formed for the machine: the top level's chunk comes
/// last, after the chunks of the functions; every instruction of every chunk uses
/// only slots of its frame and jumps only within its chunk's code (or to its end);
/// and, where the interned strings can be counted in a `u32`, each function of the
/// program has an entry in the table under its name whose chunk holds its
/// parameters in its first slots and ends with `PushUnit, Return`.
pub proof fn law_compiled_program_is_well_formed(c: SComp, items: Seq<SpecItem>)
    requires
        fns_in_range(c),
        cids_distinct(c.fns),
        chunks_ok(c),
        c.chunks.len() + items.len() + 1 <= u32::MAX,
        fns_fit(items),
        main_defs(items, 0) <= u32::MAX,
    ensures
        c_program(c, items).1 matches Ok(b) ==> {
            &&& b.main as int == b.chunks.len() - 1
            &&& forall|k: int| 0 <= k < b.fns.len() ==> (#[trigger] b.fns[k]).1 < b.main
            &&& forall|j: int| 0 <= j < b.chunks.len() ==> chunk_ok(#[trigger] b.chunks[j])
            &&& b.strings.len() <= u32::MAX ==> forall|a: int|
                0 <= a < items.len() && (#[trigger] item_fn(items[a])) is Some ==> exists|k: int|
                    0 <= k < b.fns.len() && (#[trigger] b.fns[k]).0 < b.strings.len() && b.strings[b.fns[k].0 as int]
                        == item_fn(items[a])->0.name && fn_chunk_ok(b.chunks[b.fns[k].1 as int], item_fn(items[a])->0)
        },
{
    lemma_c_register(c, items, 0);
    if c_register(c, items, 0).1 is Ok {
        let c1 = c_register(c, items, 0).0;
        lemma_c_fns(c1, items, 0);
        lemma_c_fns_strings(c1, items, 0);
        if c_fns(c1, items, 0).1 is Ok {
            let c2 = c_fns(c1, items, 0).0;
            let (c3, main) = alloc_chunk(c2);
            assert(main as int == c2.chunks.len());
            let cb = begin_chunk(c3);
            assert(scopes_ok(cb));
            lemma_c_main(cb, main, items, 0);
            if c_main(cb, main, items, 0).1 is Ok {
                let c4 = c_main(cb, main, items, 0).0;
                let c5 = end_chunk(c4, main);
                let ch = c5.chunks[main as int];
                assert(chunk_ok(ch)) by {
                    assert forall|i: int| 0 <= i < ch.code.len() implies instr_ok(
                        #[trigger] ch.code[i],
                        ch.code.len() as int,
                        ch.local_count as int,
                    ) by {
                        assert(c4.chunks[main as int].code[i] == ch.code[i]);
                    }
                }
                assert forall|j: int| 0 <= j < c5.chunks.len() implies chunk_ok(#[trigger] c5.chunks[j]) by {
                    if j != main {
                        assert(c5.chunks[j] == c4.chunks[j]);
                        assert(c4.chunks[j] == c3.chunks[j]);
                        assert(c3.chunks[j] == c2.chunks[j]);
                    }
                }
                assert forall|k: int| 0 <= k < c5.fns.len() implies (#[trigger] c5.fns[k]).1 < main by {
                    assert(c5.fns[k] == c1.fns[k]);
                }
                if c5.strings.len() <= u32::MAX {
                    assert(strings_kept(c2.strings, c5.strings));
                    assert(c1.strings.len() <= c5.strings.len());
                    lemma_register_names(c, items, 0);
                    lemma_c_fns_done(c1, items, 0);
                    let b = SBytecode { strings: c5.strings, main, chunks: c5.chunks, fns: c5.fns };
                    assert forall|a: int| 0 <= a < items.len() && (#[trigger] item_fn(items[a])) is Some implies exists|k: int|
                        0 <= k < b.fns.len() && (#[trigger] b.fns[k]).0 < b.strings.len() && b.strings[b.fns[k].0 as int]
                            == item_fn(items[a])->0.name && fn_chunk_ok(b.chunks[b.fns[k].1 as int], item_fn(items[a])->0) by {
                        let g = item_fn(items[a])->0;
                        assert(fn_done(c2, g));
                        let kg = choose|k: int|
                            0 <= k < c2.fns.len() && (#[trigger] c2.fns[k]).0 < c2.strings.len() && c2.strings[c2.fns[k].0 as int]
                                == g.name && fn_chunk_ok(c2.chunks[c2.fns[k].1 as int], g);
                        assert(c5.fns[kg] == c2.fns[kg]);
                        assert(c5.chunks[c2.fns[kg].1 as int] == c2.chunks[c2.fns[kg].1 as int]) by {
                            assert(c4.chunks[c2.fns[kg].1 as int] == c3.chunks[c2.fns[kg].1 as int]);
                        }
                        assert(c5.strings[c5.fns[kg].0 as int] == c2.strings[c2.fns[kg].0 as int]);
                        assert(b.fns[kg].0 < b.strings.len() && b.strings[b.fns[kg].0 as int] == g.name
                            && fn_chunk_ok(b.chunks[b.fns[kg].1 as int], g));
                    }
                    assert(c_program(c, items).1 == Ok::<SBytecode, SpecError>(b));
                }
            }
        }
    }
}

/// The code of chunk `cid`.
pub open spec fn code_of(c: SComp, cid: ChunkId) -> Seq<Instr> {
    c.chunks[cid as int].code
}

/// A binary operator compiles to the code of its left operand, then that of its
/// right operand, then the one instruction of the same operator (`+` to `Add`,
/// `!=` to `Ne`, `>` to `Gt`, ..); a negation compiles to its operand's code then
/// `Neg`; a literal to the one instruction that pushes it.
pub proof fn law_operators_compile_to_their_instruction(c: SComp, cid: ChunkId, l: SpecExpr, r: SpecExpr, n: i64, b: bool)
    requires
        (cid as int) < c.chunks.len(),
        scopes_ok(c),
    ensures
        ({
            let lb = bx(l);
            let rb = bx(r);
            let c1 = c_expr(c, cid, l).0;
            let c2 = c_expr(c1, cid, r).0;
            let ok = c_expr(c, cid, l).1 is Ok && c_expr(c1, cid, r).1 is Ok;
            &&& ok ==> c_expr(c, cid, SpecExpr::Add { left: lb, right: rb }).1 is Ok && code_of(
                c_expr(c, cid, SpecExpr::Add { left: lb, right: rb }).0,
                cid,
            ) == code_of(c2, cid).push(Instr::Add)
            &&& ok ==> c_expr(c, cid, SpecExpr::Sub { left: lb, right: rb }).1 is Ok && code_of(
                c_expr(c, cid, SpecExpr::Sub { left: lb, right: rb }).0,
                cid,
            ) == code_of(c2, cid).push(Instr::Sub)
            &&& ok ==> c_expr(c, cid, SpecExpr::Mul { left: lb, right: rb }).1 is Ok && code_of(
                c_expr(c, cid, SpecExpr::Mul { left: lb, right: rb }).0,
                cid,
            ) == code_of(c2, cid).push(Instr::Mul)
            &&& ok ==> c_expr(c, cid, SpecExpr::Div { left: lb, right: rb }).1 is Ok && code_of(
                c_expr(c, cid, SpecExpr::Div { left: lb, right: rb }).0,
                cid,
            ) == code_of(c2, cid).push(Instr::Div)
            &&& ok ==> c_expr(c, cid, SpecExpr::Mod { left: lb, right: rb }).1 is Ok && code_of(
                c_expr(c, cid, SpecExpr::Mod { left: lb, right: rb }).0,
                cid,
            ) == code_of(c2, cid).push(Instr::Mod)
            &&& ok ==> c_expr(c, cid, SpecExpr::Eq { left: lb, right: rb }).1 is Ok && code_of(
                c_expr(c, cid, SpecExpr::Eq { left: lb, right: rb }).0,
                cid,
            ) == code_of(c2, cid).push(Instr::Eq)
            &&& ok ==> c_expr(c, cid, SpecExpr::Ne { left: lb, right: rb }).1 is Ok && code_of(
                c_expr(c, cid, SpecExpr::Ne { left: lb, right: rb }).0,
                cid,
            ) == code_of(c2, cid).push(Instr::Ne)
            &&& ok ==> c_expr(c, cid, SpecExpr::Lt { left: lb, right: rb }).1 is Ok && code_of(
                c_expr(c, cid, SpecExpr::Lt { left: lb, right: rb }).0,
                cid,
            ) == code_of(c2, cid).push(Instr::Lt)
            &&& ok ==> c_expr(c, cid, SpecExpr::Le { left: lb, right: rb }).1 is Ok && code_of(
                c_expr(c, cid, SpecExpr::Le { left: lb, right: rb }).0,
                cid,
            ) == code_of(c2, cid).push(Instr::Le)
            &&& ok ==> c_expr(c, cid, SpecExpr::Gt { left: lb, right: rb }).1 is Ok && code_of(
                c_expr(c, cid, SpecExpr::Gt { left: lb, right: rb }).0,
                cid,
            ) == code_of(c2, cid).push(Instr::Gt)
            &&& ok ==> c_expr(c, cid, SpecExpr::Ge { left: lb, right: rb }).1 is Ok && code_of(
                c_expr(c, cid, SpecExpr::Ge { left: lb, right: rb }).0,
                cid,
            ) == code_of(c2, cid).push(Instr::Ge)
            &&& c_expr(c, cid, l).1 is Ok ==> c_expr(c, cid, SpecExpr::Neg { expr: lb }).1 is Ok && code_of(
                c_expr(c, cid, SpecExpr::Neg { expr: lb }).0,
                cid,
            ) == code_of(c1, cid).push(Instr::Neg)
            &&& c_expr(c, cid, SpecExpr::Int(n)).1 is Ok && code_of(c_expr(c, cid, SpecExpr::Int(n)).0, cid) == code_of(
                c,
                cid,
            ).push(Instr::PushInt(n))
            &&& c_expr(c, cid, SpecExpr::Bool(b)).1 is Ok && code_of(c_expr(c, cid, SpecExpr::Bool(b)).0, cid)
                == code_of(c, cid).push(Instr::PushBool(b))
        }),
{
    let lb = bx(l);
    let rb = bx(r);
    lemma_c_expr_grew(c, cid, l);
    if c_expr(c, cid, l).1 is Ok {
        lemma_c_expr_grew(c_expr(c, cid, l).0, cid, r);
    }
    assert(c_expr(c, cid, SpecExpr::Add { left: lb, right: rb }) == c_binary(c, cid, l, r, Instr::Add));
    assert(c_expr(c, cid, SpecExpr::Sub { left: lb, right: rb }) == c_binary(c, cid, l, r, Instr::Sub));
    assert(c_expr(c, cid, SpecExpr::Mul { left: lb, right: rb }) == c_binary(c, cid, l, r, Instr::Mul));
    assert(c_expr(c, cid, SpecExpr::Div { left: lb, right: rb }) == c_binary(c, cid, l, r, Instr::Div));
    assert(c_expr(c, cid, SpecExpr::Mod { left: lb, right: rb }) == c_binary(c, cid, l, r, Instr::Mod));
    assert(c_expr(c, cid, SpecExpr::Eq { left: lb, right: rb }) == c_binary(c, cid, l, r, Instr::Eq));
    assert(c_expr(c, cid, SpecExpr::Ne { left: lb, right: rb }) == c_binary(c, cid, l, r, Instr::Ne));
    assert(c_expr(c, cid, SpecExpr::Lt { left: lb, right: rb }) == c_binary(c, cid, l, r, Instr::Lt));
    assert(c_expr(c, cid, SpecExpr::Le { left: lb, right: rb }) == c_binary(c, cid, l, r, Instr::Le));
    assert(c_expr(c, cid, SpecExpr::Gt { left: lb, right: rb }) == c_binary(c, cid, l, r, Instr::Gt));
    assert(c_expr(c, cid, SpecExpr::Ge { left: lb, right: rb }) == c_binary(c, cid, l, r, Instr::Ge));
}

/// Statements compile to their expression's code framed by their own
/// instructions: `print e;` to `TempEnter`, the code of `e`, `Print`, `TempExit`;
/// `e;` the same with `Pop` in place of `Print`; `return e;` to the code of `e`
/// then `Return`; and `let x = e;` to the code of `e` then `DefineLocal` of a
/// fresh slot, the next one free.
pub proof fn law_statements_compile(c: SComp, cid: ChunkId, e: SpecExpr, x: Seq<char>)
    requires
        (cid as int) < c.chunks.len(),
        scopes_ok(c),
        c.scopes.len() >= 1,
        c.next_local < u32::MAX,
    ensures
        ({
            let t = emit(c, cid, Instr::TempEnter);
            let ct = c_expr(t, cid, e).0;
            let ce = c_expr(c, cid, e).0;
            &&& code_of(t, cid) == code_of(c, cid).push(Instr::TempEnter)
            &&& c_expr(t, cid, e).1 is Ok ==> c_stmt(c, cid, SpecStmt::Print { expr: e }).1 is Ok && code_of(
                c_stmt(c, cid, SpecStmt::Print { expr: e }).0,
                cid,
            ) == code_of(ct, cid).push(Instr::Print).push(Instr::TempExit)
            &&& c_expr(t, cid, e).1 is Ok ==> c_stmt(c, cid, SpecStmt::ExprStmt { expr: e }).1 is Ok && code_of(
                c_stmt(c, cid, SpecStmt::ExprStmt { expr: e }).0,
                cid,
            ) == code_of(ct, cid).push(Instr::Pop).push(Instr::TempExit)
            &&& c_expr(c, cid, e).1 is Ok ==> c_stmt(c, cid, SpecStmt::Return(e)).1 is Ok && code_of(
                c_stmt(c, cid, SpecStmt::Return(e)).0,
                cid,
            ) == code_of(ce, cid).push(Instr::Return)
            &&& c_expr(c, cid, e).1 is Ok ==> c_stmt(c, cid, SpecStmt::Let { name: x, expr: e }).1 is Ok && code_of(
                c_stmt(c, cid, SpecStmt::Let { name: x, expr: e }).0,
                cid,
            ) == code_of(ce, cid).push(Instr::DefineLocal(c.next_local)) && c_stmt(
                c,
                cid,
                SpecStmt::Let { name: x, expr: e },
            ).0.next_local == c.next_local + 1
        }),
{
    lemma_emit(c, cid, Instr::TempEnter);
    let t = emit(c, cid, Instr::TempEnter);
    lemma_c_expr_grew(t, cid, e);
    lemma_c_expr_grew(c, cid, e);
    if c_expr(c, cid, e).1 is Ok {
        let ce = c_expr(c, cid, e).0;
        lemma_intern(ce, x, cid);
        let (c2, id) = intern(ce, x);
        lemma_define_local(c2, id, cid);
    }
}

} // verus!
