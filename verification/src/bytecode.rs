use vstd::prelude::*;

use crate::ast::strings_view;

verus! {

/// The index of an interned string.
pub type StrId = u32;

/// The index of a chunk of code.
pub type ChunkId = u32;

/// The index of a local variable slot in a chunk's frame.
pub type LocalId = u32;

#[derive(Debug, Clone, Copy, PartialEq, Eq, Structural)]
pub enum Mutability {
    Imm,
    Mut,
}

#[derive(Debug, Clone, Copy, PartialEq, Eq, Structural)]
pub enum LoadMode {
    /// Rust-like: move unless the value is Copy.
    Move,
    /// Clone (never moves).
    Peek,
}

/// One instruction of the stack machine.
#[derive(Debug, Clone, Copy, PartialEq, Eq, Structural)]
pub enum Instr {
    // --- stack constants ---
    PushInt(i64),
    PushBool(bool),
    PushStr(StrId),
    PushUnit,
    // --- aggregate construction ---
    /// Pops that many values into a vector.
    VecMake(u32),
    // --- locals ---
    LoadLocal { local: LocalId, mode: LoadMode },
    /// Pops a value and binds it.
    DefineLocal(LocalId),
    /// Pops a value and assigns it.
    StoreLocal(LocalId),
    // --- arithmetic / comparisons ---
    Neg,
    Add,
    Sub,
    Mul,
    Div,
    Mod,
    Eq,
    Ne,
    Lt,
    Le,
    Gt,
    Ge,
    // --- borrow / index ---
    BorrowLocal { local: LocalId, mut_: bool },
    /// The base is `xs`, `&xs` or `&mut xs`, as the compiler checked.
    BorrowIndexLocal { base: LocalId, base_mut: Mutability, mut_: bool },
    IndexLocal { base: LocalId, base_mut: Mutability },
    // --- calls ---
    Call { callee: StrId, argc: u32 },
    Return,
    // --- statements ---
    Print,
    Pop,
    // --- scoping / borrow lifetimes ---
    EnterScope,
    ExitScope,
    TempEnter,
    TempExit,
    // --- control flow ---
    Jump(usize),
    JumpIfFalse(usize),
    // --- for-loops ---
    ForInit { var: LocalId, body_start: usize, end: usize },
    ForNext { body_start: usize, end: usize },
}

impl View for Instr {
    type V = Instr;

    open spec fn view(&self) -> Instr {
        *self
    }
}

/// The code of one function (or of the top level), its parameters' slots and the
/// number of slots its frame needs.
#[derive(Debug)]
pub struct Chunk {
    pub code: Vec<Instr>,
    pub params: Vec<LocalId>,
    pub local_count: usize,
}

pub struct SChunk {
    pub code: Seq<Instr>,
    pub params: Seq<LocalId>,
    pub local_count: usize,
}

impl View for Chunk {
    type V = SChunk;

    open spec fn view(&self) -> SChunk {
        SChunk { code: self.code@, params: self.params@, local_count: self.local_count }
    }
}

pub open spec fn empty_chunk() -> SChunk {
    SChunk { code: Seq::empty(), params: Seq::empty(), local_count: 0 }
}

impl Chunk {
    pub fn new() -> (c: Self)
        ensures
            c@ == empty_chunk(),
    {
        Chunk { code: Vec::new(), params: Vec::new(), local_count: 0 }
    }
}

pub open spec fn chunks_view(s: Seq<Chunk>) -> Seq<SChunk> {
    Seq::new(s.len(), |i: int| s[i]@)
}

/// A compiled program: its interned strings, the chunk of its top-level code, its
/// chunks, and for each function name the chunk of its body, in order of definition.
#[derive(Debug)]
pub struct BytecodeProgram {
    pub strings: Vec<String>,
    pub main: ChunkId,
    pub chunks: Vec<Chunk>,
    pub fns: Vec<(StrId, ChunkId)>,
}

pub struct SBytecode {
    pub strings: Seq<Seq<char>>,
    pub main: ChunkId,
    pub chunks: Seq<SChunk>,
    pub fns: Seq<(StrId, ChunkId)>,
}

impl View for BytecodeProgram {
    type V = SBytecode;

    open spec fn view(&self) -> SBytecode {
        SBytecode {
            strings: strings_view(self.strings@),
            main: self.main,
            chunks: chunks_view(self.chunks@),
            fns: self.fns@,
        }
    }
}

/// The chunk of the function named by the string `name`, the first registered.
pub open spec fn fn_chunk(fns: Seq<(StrId, ChunkId)>, name: StrId, i: int) -> Option<ChunkId>
    decreases fns.len() - i,
{
    if i < 0 || i >= fns.len() {
        None
    } else if fns[i].0 == name {
        Some(fns[i].1)
    } else {
        fn_chunk(fns, name, i + 1)
    }
}

/// The chunk registered for the function named by the string `name`.
pub fn find_fn_chunk(fns: &Vec<(StrId, ChunkId)>, name: StrId) -> (r: Option<ChunkId>)
    ensures
        r == fn_chunk(fns@, name, 0),
{
    let mut i: usize = 0;
    while i < fns.len()
        invariant
            i <= fns@.len(),
            fn_chunk(fns@, name, 0) == fn_chunk(fns@, name, i as int),
        decreases fns@.len() - i,
    {
        if fns[i].0 == name {
            return Some(fns[i].1);
        }
        i += 1;
    }
    None
}

} // verus!
