use vstd::prelude::*;
use vstd::string::StringExecFns;

use crate::error::{LangError, SpecError};
use crate::interpreter::usize_to_string;
use crate::text::{cat2, nat_decimal};
use crate::value::{lemma_nvalues_push, lemma_nvalues_update, Mutability, NRef, NValue, RefTarget, Value};

verus! {

// ---------------------------------------------------------------------------
// The model: frames of named slots, and logs of borrows.
// ---------------------------------------------------------------------------

pub struct NSlot {
    pub value: Option<NValue>,
    pub immut: usize,
    pub mut_: bool,
}

pub type NFrame = Seq<(Seq<char>, NSlot)>;

pub type NLog = Seq<(NRef, Mutability)>;

/// Frames of named slots (the innermost last), with the logs of borrows to give
/// back at the end of each scope and of each statement.
pub struct NEnv {
    pub frames: Seq<NFrame>,
    pub scope_log: Seq<NLog>,
    pub temp_log: Seq<NLog>,
}

pub open spec fn nerr<T>(m: Seq<char>) -> Result<T, SpecError> {
    Err(SpecError::Runtime(m))
}

pub open spec fn unknown(name: Seq<char>) -> Seq<char> {
    "Unknown variable: "@ + name
}

/// The position in `fr`, from `i` on, of the name.
pub open spec fn frame_find(fr: NFrame, name: Seq<char>, i: int) -> Option<int>
    decreases fr.len() - i,
{
    if i < 0 || i >= fr.len() {
        None
    } else if fr[i].0 == name {
        Some(i)
    } else {
        frame_find(fr, name, i + 1)
    }
}

/// Where a name is bound, searching the frames from `k` down to the outermost.
pub open spec fn n_find_from(frames: Seq<NFrame>, name: Seq<char>, k: int) -> Option<(int, int)>
    decreases k + 1,
{
    if k < 0 || k >= frames.len() {
        None
    } else {
        match frame_find(frames[k], name, 0) {
            Some(j) => Some((k, j)),
            None => n_find_from(frames, name, k - 1),
        }
    }
}

pub open spec fn n_find(e: NEnv, name: Seq<char>) -> Option<(int, int)> {
    n_find_from(e.frames, name, e.frames.len() - 1)
}

pub open spec fn n_slot(e: NEnv, at: (int, int)) -> NSlot {
    e.frames[at.0][at.1].1
}

pub open spec fn n_put(e: NEnv, at: (int, int), s: NSlot) -> NEnv {
    NEnv { frames: e.frames.update(at.0, e.frames[at.0].update(at.1, (e.frames[at.0][at.1].0, s))), ..e }
}

pub open spec fn n_enter(e: NEnv) -> NEnv {
    NEnv { frames: e.frames.push(Seq::empty()), scope_log: e.scope_log.push(Seq::empty()), ..e }
}

pub open spec fn n_record(e: NEnv, t: NRef, m: Mutability) -> NEnv {
    if e.temp_log.len() > 0 {
        NEnv { temp_log: e.temp_log.update(e.temp_log.len() - 1, e.temp_log.last().push((t, m))), ..e }
    } else if e.scope_log.len() > 0 {
        NEnv { scope_log: e.scope_log.update(e.scope_log.len() - 1, e.scope_log.last().push((t, m))), ..e }
    } else {
        e
    }
}

pub open spec fn ref_name(t: NRef) -> Seq<char> {
    match t {
        NRef::Local(n) => n,
        NRef::VecElem { base, .. } => base,
    }
}

/// Gives back one borrow.
pub open spec fn n_release(e: NEnv, t: NRef, m: Mutability) -> Result<NEnv, SpecError> {
    match n_find(e, ref_name(t)) {
        None => nerr("Internal: release unknown slot"@),
        Some(at) => {
            let s = n_slot(e, at);
            match m {
                Mutability::Imm => if s.immut == 0 {
                    nerr("Internal: immut borrow underflow"@)
                } else {
                    Ok(n_put(e, at, NSlot { immut: (s.immut - 1) as usize, ..s }))
                },
                Mutability::Mut => if !s.mut_ {
                    nerr("Internal: mut borrow underflow"@)
                } else {
                    Ok(n_put(e, at, NSlot { mut_: false, ..s }))
                },
            }
        },
    }
}

/// Gives back the first `n` borrows of `log`, the last logged first.
pub open spec fn n_release_all(e: NEnv, log: NLog, n: int) -> Result<NEnv, SpecError>
    decreases n,
{
    if n <= 0 || n > log.len() {
        Ok(e)
    } else {
        match n_release(e, log[n - 1].0, log[n - 1].1) {
            Err(x) => Err(x),
            Ok(e2) => n_release_all(e2, log, n - 1),
        }
    }
}

/// Ends the innermost scope: gives back its borrows, then drops its frame.
pub open spec fn n_exit(e: NEnv) -> Result<NEnv, SpecError> {
    if e.scope_log.len() == 0 {
        nerr("Internal: scope_log underflow"@)
    } else {
        let log = e.scope_log.last();
        match n_release_all(NEnv { scope_log: e.scope_log.drop_last(), ..e }, log, log.len() as int) {
            Err(x) => Err(x),
            Ok(e2) => if e2.frames.len() == 0 {
                nerr("Scope underflow"@)
            } else {
                Ok(NEnv { frames: e2.frames.drop_last(), ..e2 })
            },
        }
    }
}

/// Ends a statement's temporary borrows: gives them back.
pub open spec fn n_temp_exit(e: NEnv) -> Result<NEnv, SpecError> {
    if e.temp_log.len() == 0 {
        nerr("Temp underflow"@)
    } else {
        let log = e.temp_log.last();
        n_release_all(NEnv { temp_log: e.temp_log.drop_last(), ..e }, log, log.len() as int)
    }
}

/// The environment where giving back the first `n` borrows of `log` stops: the
/// result when all are given back, else the one reached before the refused one.
pub open spec fn n_release_all_env(e: NEnv, log: NLog, n: int) -> NEnv
    decreases n,
{
    if n <= 0 || n > log.len() {
        e
    } else {
        match n_release(e, log[n - 1].0, log[n - 1].1) {
            Err(_) => e,
            Ok(e2) => n_release_all_env(e2, log, n - 1),
        }
    }
}

/// What ending a scope leaves when it fails: the scope's log is gone and its
/// borrows are given back as far as they can be.
pub open spec fn n_exit_err_env(e: NEnv) -> NEnv {
    if e.scope_log.len() == 0 {
        e
    } else {
        let log = e.scope_log.last();
        n_release_all_env(NEnv { scope_log: e.scope_log.drop_last(), ..e }, log, log.len() as int)
    }
}

/// What ending a statement's temporary borrows leaves when it fails.
pub open spec fn n_temp_exit_err_env(e: NEnv) -> NEnv {
    if e.temp_log.len() == 0 {
        e
    } else {
        let log = e.temp_log.last();
        n_release_all_env(NEnv { temp_log: e.temp_log.drop_last(), ..e }, log, log.len() as int)
    }
}

/// `let`: a fresh slot in the innermost frame, in place of one of the same name.
pub open spec fn n_define(e: NEnv, name: Seq<char>, v: NValue) -> NEnv {
    let k = e.frames.len() - 1;
    let top = e.frames[k];
    let s = NSlot { value: Some(v), immut: 0, mut_: false };
    let top2 = match frame_find(top, name, 0) {
        Some(j) => top.update(j, (name, s)),
        None => top.push((name, s)),
    };
    NEnv { frames: e.frames.update(k, top2), ..e }
}

/// `name = v`: refused while the variable is borrowed.
pub open spec fn n_assign(e: NEnv, name: Seq<char>, v: NValue) -> Result<NEnv, SpecError> {
    match n_find(e, name) {
        None => nerr(unknown(name)),
        Some(at) => {
            let s = n_slot(e, at);
            if s.immut > 0 || s.mut_ {
                nerr("Cannot assign: it is borrowed"@)
            } else {
                Ok(n_put(e, at, NSlot { value: Some(v), ..s }))
            }
        },
    }
}

/// Reads a variable: an integer or a boolean is copied, any other value moved out.
pub open spec fn n_load_move(e: NEnv, name: Seq<char>) -> Result<(NValue, NEnv), SpecError> {
    match n_find(e, name) {
        None => nerr(unknown(name)),
        Some(at) => {
            let s = n_slot(e, at);
            match s.value {
                None => nerr("Use after move"@),
                Some(v) => if v is Int || v is Bool {
                    Ok((v, e))
                } else {
                    Ok((v, n_put(e, at, NSlot { value: None, ..s })))
                },
            }
        },
    }
}

/// Reads a variable without moving it.
pub open spec fn n_load_peek(e: NEnv, name: Seq<char>) -> Result<NValue, SpecError> {
    match n_find(e, name) {
        None => nerr(unknown(name)),
        Some(at) => match n_slot(e, at).value {
            None => nerr("Use after move"@),
            Some(v) => Ok(v),
        },
    }
}

/// Borrows a variable: shared borrows may stand together, a mutable one stands alone.
pub open spec fn n_borrow(e: NEnv, name: Seq<char>, m: Mutability) -> Result<NEnv, SpecError> {
    match n_find(e, name) {
        None => nerr(unknown(name)),
        Some(at) => {
            let s = n_slot(e, at);
            if s.value is None {
                nerr("Cannot borrow: value was moved"@)
            } else {
                match m {
                    Mutability::Imm => if s.mut_ {
                        nerr("Cannot immut-borrow: mut-borrowed"@)
                    } else if s.immut == usize::MAX {
                        nerr("Too many borrows"@)
                    } else {
                        Ok(n_record(n_put(e, at, NSlot { immut: (s.immut + 1) as usize, ..s }), NRef::Local(name), m))
                    },
                    Mutability::Mut => if s.mut_ || s.immut > 0 {
                        nerr("Cannot mut-borrow: already borrowed"@)
                    } else {
                        Ok(n_record(n_put(e, at, NSlot { mut_: true, ..s }), NRef::Local(name), m))
                    },
                }
            }
        },
    }
}

/// What a value reads as: a reference stands for what it points at.
pub open spec fn n_resolve(e: NEnv, v: NValue) -> Result<NValue, SpecError> {
    match v {
        NValue::Ref(NRef::Local(name), _) => n_load_peek(e, name),
        NValue::Ref(NRef::VecElem { base, index }, _) => match n_load_peek(e, base) {
            Err(x) => Err(x),
            Ok(NValue::Vec(xs)) => if index >= xs.len() {
                nerr("Index out of bounds: "@ + nat_decimal(index as nat))
            } else {
                Ok(xs[index as int])
            },
            Ok(_) => nerr("Index base is not a vector"@),
        },
        _ => Ok(v),
    }
}

/// Appends to the vector variable `base`; refused while it is borrowed shared.
pub open spec fn n_push(e: NEnv, base: Seq<char>, v: NValue) -> Result<NEnv, SpecError> {
    match n_find(e, base) {
        None => nerr(unknown(base)),
        Some(at) => {
            let s = n_slot(e, at);
            if s.immut > 0 {
                nerr("Cannot push: vector is immut-borrowed"@)
            } else {
                match s.value {
                    None => nerr("Use after move"@),
                    Some(NValue::Vec(xs)) => Ok(n_put(e, at, NSlot { value: Some(NValue::Vec(xs.push(v))), ..s })),
                    Some(_) => nerr("push target must be a vector"@),
                }
            }
        },
    }
}

/// Replaces an element of the vector variable `base`.
pub open spec fn n_set(e: NEnv, base: Seq<char>, idx: usize, v: NValue) -> Result<NEnv, SpecError> {
    match n_find(e, base) {
        None => nerr(unknown(base)),
        Some(at) => {
            let s = n_slot(e, at);
            match s.value {
                None => nerr("Use after move"@),
                Some(NValue::Vec(xs)) => if idx >= xs.len() {
                    nerr(
                        "Index out of bounds: "@ + nat_decimal(idx as nat) + " (len "@ + nat_decimal(xs.len()) + ")"@,
                    )
                } else {
                    Ok(n_put(e, at, NSlot { value: Some(NValue::Vec(xs.update(idx as int, v))), ..s }))
                },
                Some(_) => nerr("set target must be a vector"@),
            }
        },
    }
}

} // verus!

verus! {

// ---------------------------------------------------------------------------
// The environment.
// ---------------------------------------------------------------------------

#[derive(Debug)]
pub struct BorrowState {
    pub immut: usize,
    pub mut_: bool,
}

#[derive(Debug)]
pub struct Slot {
    pub value: Option<Value>,
    pub borrows: BorrowState,
}

pub open spec fn nopt_view(v: Option<Value>) -> Option<NValue> {
    match v {
        Some(x) => Some(x@),
        None => None,
    }
}

impl View for Slot {
    type V = NSlot;

    open spec fn view(&self) -> NSlot {
        NSlot { value: nopt_view(self.value), immut: self.borrows.immut, mut_: self.borrows.mut_ }
    }
}

pub open spec fn frame_view(s: Seq<(String, Slot)>) -> NFrame {
    Seq::new(s.len(), |i: int| (s[i].0@, s[i].1@))
}

pub open spec fn nlog_view(s: Seq<(RefTarget, Mutability)>) -> NLog {
    Seq::new(s.len(), |i: int| (s[i].0@, s[i].1))
}

/// Variables in nested frames, each with its borrows, and the logs of borrows to
/// give back at the end of each scope and of each statement.
#[derive(Debug)]
pub struct Env {
    frames: Vec<Vec<(String, Slot)>>,
    scope_log: Vec<Vec<(RefTarget, Mutability)>>,
    temp_log: Vec<Vec<(RefTarget, Mutability)>>,
}

impl View for Env {
    type V = NEnv;

    closed spec fn view(&self) -> NEnv {
        NEnv {
            frames: Seq::new(self.frames@.len(), |i: int| frame_view(self.frames@[i]@)),
            scope_log: Seq::new(self.scope_log@.len(), |i: int| nlog_view(self.scope_log@[i]@)),
            temp_log: Seq::new(self.temp_log@.len(), |i: int| nlog_view(self.temp_log@[i]@)),
        }
    }
}

pub open spec fn empty_env() -> NEnv {
    NEnv { frames: Seq::empty(), scope_log: Seq::empty(), temp_log: Seq::empty() }
}

impl Env {
    /// An environment with one empty frame.
    pub fn new() -> (e: Self)
        ensures
            e@ == n_enter(empty_env()),
    {
        let mut e = Env { frames: Vec::new(), scope_log: Vec::new(), temp_log: Vec::new() };
        proof {
            assert(e@.frames =~= Seq::empty());
            assert(e@.scope_log =~= Seq::empty());
            assert(e@.temp_log =~= Seq::empty());
        }
        e.enter_scope();
        e
    }

    /// Opens a scope: a frame and a log of its borrows.
    pub fn enter_scope(&mut self)
        ensures
            final(self)@ == n_enter(old(self)@),
    {
        let ghost e = self@;
        self.frames.push(Vec::new());
        self.scope_log.push(Vec::new());
        proof {
            assert(frame_view(Seq::<(String, Slot)>::empty()) =~= Seq::empty());
            assert(nlog_view(Seq::<(RefTarget, Mutability)>::empty()) =~= Seq::empty());
            assert(self@.frames =~= e.frames.push(Seq::empty()));
            assert(self@.scope_log =~= e.scope_log.push(Seq::empty()));
            assert(self@.temp_log =~= e.temp_log);
        }
    }

    /// Opens a statement's log of temporary borrows.
    pub fn temp_enter(&mut self)
        ensures
            final(self)@ == (NEnv { temp_log: old(self)@.temp_log.push(Seq::empty()), ..old(self)@ }),
    {
        let ghost e = self@;
        self.temp_log.push(Vec::new());
        proof {
            assert(nlog_view(Seq::<(RefTarget, Mutability)>::empty()) =~= Seq::empty());
            assert(self@.temp_log =~= e.temp_log.push(Seq::empty()));
            assert(self@.frames =~= e.frames);
            assert(self@.scope_log =~= e.scope_log);
        }
    }

    /// Where `name` is bound: the innermost frame that has it.
    fn lookup(&self, name: &String) -> (r: Option<(usize, usize)>)
        ensures
            match n_find(self@, name@) {
                Some(at) => r matches Some(p) && p.0 as int == at.0 && p.1 as int == at.1,
                None => r is None,
            },
            r matches Some(p) ==> p.0 < self.frames@.len() && p.1 < self.frames@[p.0 as int]@.len(),
    {
        let ghost e = self@;
        let mut k = self.frames.len();
        while k > 0
            invariant
                k <= self.frames@.len(),
                e == self@,
                n_find(e, name@) == n_find_from(e.frames, name@, k - 1),
            decreases k,
        {
            let fr = &self.frames[k - 1];
            let mut j: usize = 0;
            while j < fr.len()
                invariant
                    0 < k <= self.frames@.len(),
                    e == self@,
                    *fr == self.frames@[k - 1],
                    n_find(e, name@) == n_find_from(e.frames, name@, k - 1),
                    j <= fr@.len(),
                    frame_find(e.frames[k - 1], name@, 0) == frame_find(e.frames[k - 1], name@, j as int),
                decreases fr.len() - j,
            {
                if fr[j].0.eq(name) {
                    assert(e.frames[k - 1][j as int].0 == name@);
                    return Some((k - 1, j));
                }
                j += 1;
            }
            k -= 1;
        }
        None
    }

    /// The position in the frame `k` of the variable `name`, if it is there.
    fn find_in_frame(&self, k: usize, name: &String) -> (r: Option<usize>)
        requires
            k < self.frames@.len(),
        ensures
            r matches Some(j) ==> frame_find(self@.frames[k as int], name@, 0) == Some(j as int),
            r is None ==> frame_find(self@.frames[k as int], name@, 0) is None,
            r matches Some(j) ==> j < self.frames@[k as int]@.len(),
    {
        let ghost e = self@;
        let n = self.frames[k].len();
        let mut j: usize = 0;
        while j < n
            invariant
                e == self@,
                k < self.frames@.len(),
                n == self.frames@[k as int]@.len(),
                j <= n,
                frame_find(e.frames[k as int], name@, 0) == frame_find(e.frames[k as int], name@, j as int),
            decreases n - j,
        {
            if self.frames[k][j].0.eq(name) {
                assert(e.frames[k as int][j as int].0 == name@);
                return Some(j);
            }
            j += 1;
        }
        None
    }

    /// Replaces the borrows of the slot at `at`.
    fn set_borrows(&mut self, at: (usize, usize), immut: usize, mut_: bool)
        requires
            at.0 < old(self).frames@.len(),
            at.1 < old(self).frames@[at.0 as int]@.len(),
        ensures
            final(self)@ == n_put(
                old(self)@,
                (at.0 as int, at.1 as int),
                NSlot { immut, mut_, ..n_slot(old(self)@, (at.0 as int, at.1 as int)) },
            ),
            final(self).frames@.len() == old(self).frames@.len(),
            forall|k: int| 0 <= k < final(self).frames@.len() ==> #[trigger] final(self).frames@[k]@.len() == old(self).frames@[k]@.len(),
    {
        let ghost e = self@;
        self.frames[at.0][at.1].1.borrows = BorrowState { immut, mut_ };
        proof {
            let (k, j) = (at.0 as int, at.1 as int);
            assert(frame_view(self.frames@[k]@) =~= e.frames[k].update(j, (e.frames[k][j].0, NSlot { immut, mut_, ..e.frames[k][j].1 })));
            assert(self@.frames =~= n_put(e, (k, j), NSlot { immut, mut_, ..e.frames[k][j].1 }).frames);
            assert(self@.scope_log =~= e.scope_log);
            assert(self@.temp_log =~= e.temp_log);
        }
    }

    /// Replaces the value of the slot at `at`.
    fn set_value(&mut self, at: (usize, usize), v: Option<Value>)
        requires
            at.0 < old(self).frames@.len(),
            at.1 < old(self).frames@[at.0 as int]@.len(),
        ensures
            final(self)@ == n_put(
                old(self)@,
                (at.0 as int, at.1 as int),
                NSlot { value: nopt_view(v), ..n_slot(old(self)@, (at.0 as int, at.1 as int)) },
            ),
    {
        let ghost e = self@;
        let ghost nv = nopt_view(v);
        self.frames[at.0][at.1].1.value = v;
        proof {
            let (k, j) = (at.0 as int, at.1 as int);
            assert(frame_view(self.frames@[k]@) =~= e.frames[k].update(j, (e.frames[k][j].0, NSlot { value: nv, ..e.frames[k][j].1 })));
            assert(self@.frames =~= n_put(e, (k, j), NSlot { value: nv, ..e.frames[k][j].1 }).frames);
            assert(self@.scope_log =~= e.scope_log);
            assert(self@.temp_log =~= e.temp_log);
        }
    }

    /// Logs a borrow.
    fn record_borrow(&mut self, t: RefTarget, m: Mutability)
        ensures
            final(self)@ == n_record(old(self)@, t@, m),
    {
        let ghost e = self@;
        let n = self.temp_log.len();
        if n > 0 {
            let ghost tv = t@;
            self.temp_log[n - 1].push((t, m));
            proof {
                assert(nlog_view(self.temp_log@[n - 1]@) =~= e.temp_log[n - 1].push((tv, m)));
                assert(self@.temp_log =~= n_record(e, t@, m).temp_log);
                assert(self@.frames =~= e.frames);
                assert(self@.scope_log =~= e.scope_log);
            }
        } else {
            let k = self.scope_log.len();
            if k > 0 {
                let ghost tv = t@;
                self.scope_log[k - 1].push((t, m));
                proof {
                    assert(nlog_view(self.scope_log@[k - 1]@) =~= e.scope_log[k - 1].push((tv, m)));
                    assert(self@.scope_log =~= n_record(e, t@, m).scope_log);
                    assert(self@.frames =~= e.frames);
                    assert(self@.temp_log =~= e.temp_log);
                }
            }
        }
    }
}

} // verus!

verus! {

impl Env {
    /// `let name = v` in the innermost frame, in place of a variable of the same name.
    pub fn define(&mut self, name: String, v: Value)
        requires
            old(self)@.frames.len() > 0,
        ensures
            final(self)@ == n_define(old(self)@, name@, v@),
    {
        let ghost e = self@;
        let ghost nm = name@;
        let ghost vv = v@;
        let k = self.frames.len() - 1;
        let ghost top = e.frames[k as int];
        let found = self.find_in_frame(k, &name);
        let slot = Slot { value: Some(v), borrows: BorrowState { immut: 0, mut_: false } };
        let ghost ns = NSlot { value: Some(vv), immut: 0, mut_: false };
        assert(slot@ == ns);
        match found {
            Some(j) => {
                assert(frame_find(top, nm, 0) == Some(j as int));
                self.frames[k].set(j, (name, slot));
                proof {
                    assert(frame_view(self.frames@[k as int]@) =~= top.update(j as int, (nm, ns)));
                }
            },
            None => {
                assert(frame_find(top, nm, 0) is None);
                self.frames[k].push((name, slot));
                proof {
                    assert(frame_view(self.frames@[k as int]@) =~= top.push((nm, ns)));
                }
            },
        }
        proof {
            assert(self@.frames =~= n_define(e, nm, vv).frames);
            assert(self@.scope_log =~= e.scope_log);
            assert(self@.temp_log =~= e.temp_log);
        }
    }

    /// `name = v`: refused while the variable is borrowed.
    pub fn assign(&mut self, name: &str, v: Value) -> (r: Result<(), LangError>)
        ensures
            match n_assign(old(self)@, name@, v@) {
                Ok(e) => r is Ok && final(self)@ == e,
                Err(x) => r matches Err(y) && y@ == x && final(self)@ == old(self)@,
            },
    {
        let key = String::from_str(name);
        let at = match self.lookup(&key) {
            Some(at) => at,
            None => return Err(LangError::Runtime(cat2("Unknown variable: ", name))),
        };
        let s = &self.frames[at.0][at.1].1;
        if s.borrows.immut > 0 || s.borrows.mut_ {
            return Err(LangError::Runtime(String::from_str("Cannot assign: it is borrowed")));
        }
        self.set_value(at, Some(v));
        Ok(())
    }

    /// Reads a variable: an integer or a boolean is copied, any other value is
    /// moved out.
    pub fn load_move(&mut self, name: &str) -> (r: Result<Value, LangError>)
        ensures
            match n_load_move(old(self)@, name@) {
                Ok((v, e)) => r matches Ok(x) && x@ == v && final(self)@ == e,
                Err(x) => r matches Err(y) && y@ == x && final(self)@ == old(self)@,
            },
    {
        let key = String::from_str(name);
        let at = match self.lookup(&key) {
            Some(at) => at,
            None => return Err(LangError::Runtime(cat2("Unknown variable: ", name))),
        };
        let copy = match &self.frames[at.0][at.1].1.value {
            None => {
                return Err(LangError::Runtime(String::from_str("Use after move")));
            },
            Some(v) => v.is_copy(),
        };
        if copy {
            match &self.frames[at.0][at.1].1.value {
                Some(v) => Ok(v.deep_clone()),
                None => Err(LangError::Runtime(String::from_str("Use after move"))),
            }
        } else {
            let ghost e = self@;
            let (immut, mut_) = (self.frames[at.0][at.1].1.borrows.immut, self.frames[at.0][at.1].1.borrows.mut_);
            let mut taken = Slot { value: None, borrows: BorrowState { immut, mut_ } };
            std::mem::swap(&mut taken, &mut self.frames[at.0][at.1].1);
            proof {
                let (k, j) = (at.0 as int, at.1 as int);
                assert(frame_view(self.frames@[k]@) =~= e.frames[k].update(
                    j,
                    (e.frames[k][j].0, NSlot { value: None, ..e.frames[k][j].1 }),
                ));
                assert(self@.frames =~= n_put(e, (k, j), NSlot { value: None, ..e.frames[k][j].1 }).frames);
                assert(self@.scope_log =~= e.scope_log);
                assert(self@.temp_log =~= e.temp_log);
            }
            match taken.value {
                Some(x) => Ok(x),
                None => Err(LangError::Runtime(String::from_str("Use after move"))),
            }
        }
    }

    /// Reads a variable without moving it.
    pub fn load_peek(&self, name: &str) -> (r: Result<Value, LangError>)
        ensures
            match n_load_peek(self@, name@) {
                Ok(v) => r matches Ok(x) && x@ == v,
                Err(x) => r matches Err(y) && y@ == x,
            },
    {
        let key = String::from_str(name);
        let at = match self.lookup(&key) {
            Some(at) => at,
            None => return Err(LangError::Runtime(cat2("Unknown variable: ", name))),
        };
        match &self.frames[at.0][at.1].1.value {
            None => Err(LangError::Runtime(String::from_str("Use after move"))),
            Some(v) => Ok(v.deep_clone()),
        }
    }

    /// Borrows a variable and gives the reference to it.
    pub fn borrow_local(&mut self, name: &str, m: Mutability) -> (r: Result<Value, LangError>)
        ensures
            match n_borrow(old(self)@, name@, m) {
                Ok(e) => r matches Ok(x) && x@ == NValue::Ref(NRef::Local(name@), m) && final(self)@ == e,
                Err(x) => r matches Err(y) && y@ == x && final(self)@ == old(self)@,
            },
    {
        let key = String::from_str(name);
        let at = match self.lookup(&key) {
            Some(at) => at,
            None => return Err(LangError::Runtime(cat2("Unknown variable: ", name))),
        };
        if self.frames[at.0][at.1].1.value.is_none() {
            return Err(LangError::Runtime(String::from_str("Cannot borrow: value was moved")));
        }
        let (immut, mut_) = (self.frames[at.0][at.1].1.borrows.immut, self.frames[at.0][at.1].1.borrows.mut_);
        match m {
            Mutability::Imm => {
                if mut_ {
                    return Err(LangError::Runtime(String::from_str("Cannot immut-borrow: mut-borrowed")));
                }
                if immut == usize::MAX {
                    return Err(LangError::Runtime(String::from_str("Too many borrows")));
                }
                self.set_borrows(at, immut + 1, mut_);
            },
            Mutability::Mut => {
                if mut_ || immut > 0 {
                    return Err(LangError::Runtime(String::from_str("Cannot mut-borrow: already borrowed")));
                }
                self.set_borrows(at, immut, true);
            },
        }
        let t = RefTarget::Local(String::from_str(name));
        self.record_borrow(t.copy(), m);
        Ok(Value::Ref(t, m))
    }

    /// `&base[idx]` or `&mut base[idx]`: borrows the vector as its base form says,
    /// and logs the element reference too.
    pub fn borrow_index(&mut self, base: &str, base_mut: Mutability, idx: usize, m: Mutability) -> (r: Result<
        Value,
        LangError,
    >)
        ensures
            match n_borrow(old(self)@, base@, base_mut) {
                Ok(e) => r matches Ok(x) && x@ == NValue::Ref(NRef::VecElem { base: base@, index: idx }, m)
                    && final(self)@ == n_record(e, NRef::VecElem { base: base@, index: idx }, m),
                Err(x) => r matches Err(y) && y@ == x && final(self)@ == old(self)@,
            },
    {
        let _ = self.borrow_local(base, base_mut)?;
        let t = RefTarget::VecElem { base: String::from_str(base), index: idx };
        self.record_borrow(t.copy(), m);
        Ok(Value::Ref(t, m))
    }

    /// Gives back one borrow.
    fn release_borrow(&mut self, t: &RefTarget, m: Mutability) -> (r: Result<(), LangError>)
        ensures
            match n_release(old(self)@, t@, m) {
                Ok(e) => r is Ok && final(self)@ == e,
                Err(x) => r matches Err(y) && y@ == x && final(self)@ == old(self)@,
            },
    {
        let name = match t {
            RefTarget::Local(n) => n,
            RefTarget::VecElem { base, .. } => base,
        };
        let at = match self.lookup(name) {
            Some(at) => at,
            None => return Err(LangError::Runtime(String::from_str("Internal: release unknown slot"))),
        };
        let (immut, mut_) = (self.frames[at.0][at.1].1.borrows.immut, self.frames[at.0][at.1].1.borrows.mut_);
        match m {
            Mutability::Imm => {
                if immut == 0 {
                    return Err(LangError::Runtime(String::from_str("Internal: immut borrow underflow")));
                }
                self.set_borrows(at, immut - 1, mut_);
            },
            Mutability::Mut => {
                if !mut_ {
                    return Err(LangError::Runtime(String::from_str("Internal: mut borrow underflow")));
                }
                self.set_borrows(at, immut, false);
            },
        }
        Ok(())
    }

    /// Gives back the borrows of `log`, the last logged first.
    fn release_all(&mut self, log: &Vec<(RefTarget, Mutability)>) -> (r: Result<(), LangError>)
        ensures
            match n_release_all(old(self)@, nlog_view(log@), log@.len() as int) {
                Ok(e) => r is Ok && final(self)@ == e,
                Err(x) => r matches Err(y) && y@ == x,
            },
            final(self)@ == n_release_all_env(old(self)@, nlog_view(log@), log@.len() as int),
    {
        let ghost lv = nlog_view(log@);
        let ghost goal = n_release_all(self@, lv, lv.len() as int);
        let mut n = log.len();
        while n > 0
            invariant
                n <= log@.len(),
                lv == nlog_view(log@),
                n_release_all(self@, lv, n as int) == goal,
                goal == n_release_all(old(self)@, nlog_view(log@), log@.len() as int),
                n_release_all_env(self@, lv, n as int) == n_release_all_env(old(self)@, lv, log@.len() as int),
            decreases n,
        {
            assert(lv[n - 1] == (log@[n - 1].0@, log@[n - 1].1));
            self.release_borrow(&log[n - 1].0, log[n - 1].1)?;
            n -= 1;
        }
        Ok(())
    }

    /// Ends the innermost scope: gives back its borrows, then drops its frame.
    pub fn exit_scope(&mut self) -> (r: Result<(), LangError>)
        ensures
            match n_exit(old(self)@) {
                Ok(e) => r is Ok && final(self)@ == e,
                Err(x) => r matches Err(y) && y@ == x && final(self)@ == n_exit_err_env(old(self)@),
            },
    {
        let ghost e = self@;
        let log = match self.scope_log.pop() {
            Some(log) => log,
            None => return Err(LangError::Runtime(String::from_str("Internal: scope_log underflow"))),
        };
        proof {
            assert(self@.scope_log =~= e.scope_log.drop_last());
            assert(self@.frames =~= e.frames);
            assert(self@.temp_log =~= e.temp_log);
        }
        self.release_all(&log)?;
        let ghost e2 = self@;
        match self.frames.pop() {
            Some(_) => {
                proof {
                    assert(self@.frames =~= e2.frames.drop_last());
                    assert(self@.scope_log =~= e2.scope_log);
                    assert(self@.temp_log =~= e2.temp_log);
                }
                Ok(())
            },
            None => Err(LangError::Runtime(String::from_str("Scope underflow"))),
        }
    }

    /// Ends a statement's temporary borrows: gives them back.
    pub fn temp_exit_release(&mut self) -> (r: Result<(), LangError>)
        ensures
            match n_temp_exit(old(self)@) {
                Ok(e) => r is Ok && final(self)@ == e,
                Err(x) => r matches Err(y) && y@ == x && final(self)@ == n_temp_exit_err_env(old(self)@),
            },
    {
        let ghost e = self@;
        let log = match self.temp_log.pop() {
            Some(log) => log,
            None => return Err(LangError::Runtime(String::from_str("Temp underflow"))),
        };
        proof {
            assert(self@.temp_log =~= e.temp_log.drop_last());
            assert(self@.frames =~= e.frames);
            assert(self@.scope_log =~= e.scope_log);
        }
        self.release_all(&log)
    }

    /// What a value reads as: a reference stands for what it points at.
    pub fn resolve_ref_for_read(&self, v: &Value) -> (r: Result<Value, LangError>)
        ensures
            match n_resolve(self@, v@) {
                Ok(x) => r matches Ok(y) && y@ == x,
                Err(x) => r matches Err(y) && y@ == x,
            },
    {
        match v {
            Value::Ref(RefTarget::Local(name), _) => self.load_peek(name.as_str()),
            Value::Ref(RefTarget::VecElem { base, index }, _) => {
                let basev = self.load_peek(base.as_str())?;
                match basev {
                    Value::Vec(xs) => {
                        if *index >= xs.len() {
                            return Err(LangError::Runtime(cat2("Index out of bounds: ", usize_to_string(*index).as_str())));
                        }
                        Ok(xs[*index].deep_clone())
                    },
                    _ => Err(LangError::Runtime(String::from_str("Index base is not a vector"))),
                }
            },
            other => Ok(other.deep_clone()),
        }
    }

    /// Appends to the vector variable `base`; refused while it is borrowed shared.
    pub fn push_vec_elem(&mut self, base: &str, v: Value) -> (r: Result<(), LangError>)
        ensures
            match n_push(old(self)@, base@, v@) {
                Ok(e) => r is Ok && final(self)@ == e,
                Err(x) => r matches Err(y) && y@ == x && final(self)@ == old(self)@,
            },
    {
        let key = String::from_str(base);
        let at = match self.lookup(&key) {
            Some(at) => at,
            None => return Err(LangError::Runtime(cat2("Unknown variable: ", base))),
        };
        if self.frames[at.0][at.1].1.borrows.immut > 0 {
            return Err(LangError::Runtime(String::from_str("Cannot push: vector is immut-borrowed")));
        }
        let cur = match &self.frames[at.0][at.1].1.value {
            None => {
                return Err(LangError::Runtime(String::from_str("Use after move")));
            },
            Some(Value::Vec(xs)) => xs.len(),
            Some(_) => {
                return Err(LangError::Runtime(String::from_str("push target must be a vector")));
            },
        };
        let ghost e = self@;
        let old_value = self.take_value(at);
        match old_value {
            Some(Value::Vec(mut xs)) => {
                proof {
                    lemma_nvalues_push(xs@, v);
                }
                xs.push(v);
                self.set_value(at, Some(Value::Vec(xs)));
                proof {
                    lemma_put_twice(e, (at.0 as int, at.1 as int));
                }
                Ok(())
            },
            _ => Err(LangError::Runtime(String::from_str("push target must be a vector"))),
        }
    }

    /// Replaces an element of the vector variable `base`.
    pub fn set_vec_elem(&mut self, base: &str, idx: usize, v: Value) -> (r: Result<(), LangError>)
        ensures
            match n_set(old(self)@, base@, idx, v@) {
                Ok(e) => r is Ok && final(self)@ == e,
                Err(x) => r matches Err(y) && y@ == x && final(self)@ == old(self)@,
            },
    {
        let key = String::from_str(base);
        let at = match self.lookup(&key) {
            Some(at) => at,
            None => return Err(LangError::Runtime(cat2("Unknown variable: ", base))),
        };
        let len = match &self.frames[at.0][at.1].1.value {
            None => {
                return Err(LangError::Runtime(String::from_str("Use after move")));
            },
            Some(Value::Vec(xs)) => xs.len(),
            Some(_) => {
                return Err(LangError::Runtime(String::from_str("set target must be a vector")));
            },
        };
        if idx >= len {
            return Err(
                LangError::Runtime(
                    cat2("Index out of bounds: ", usize_to_string(idx).as_str()).concat(" (len ").concat(
                        usize_to_string(len).as_str(),
                    ).concat(")"),
                ),
            );
        }
        let ghost e = self@;
        let old_value = self.take_value(at);
        match old_value {
            Some(Value::Vec(mut xs)) => {
                proof {
                    lemma_nvalues_update(xs@, idx as int, v);
                }
                xs.set(idx, v);
                self.set_value(at, Some(Value::Vec(xs)));
                proof {
                    lemma_put_twice(e, (at.0 as int, at.1 as int));
                }
                Ok(())
            },
            _ => Err(LangError::Runtime(String::from_str("set target must be a vector"))),
        }
    }

    /// Takes the value out of the slot at `at`, leaving it empty.
    fn take_value(&mut self, at: (usize, usize)) -> (r: Option<Value>)
        requires
            at.0 < old(self).frames@.len(),
            at.1 < old(self).frames@[at.0 as int]@.len(),
        ensures
            nopt_view(r) == n_slot(old(self)@, (at.0 as int, at.1 as int)).value,
            final(self)@ == n_put(
                old(self)@,
                (at.0 as int, at.1 as int),
                NSlot { value: None, ..n_slot(old(self)@, (at.0 as int, at.1 as int)) },
            ),
            final(self).frames@.len() == old(self).frames@.len(),
            final(self).frames@[at.0 as int]@.len() == old(self).frames@[at.0 as int]@.len(),
    {
        let ghost e = self@;
        let (immut, mut_) = (self.frames[at.0][at.1].1.borrows.immut, self.frames[at.0][at.1].1.borrows.mut_);
        let mut taken = Slot { value: None, borrows: BorrowState { immut, mut_ } };
        std::mem::swap(&mut taken, &mut self.frames[at.0][at.1].1);
        proof {
            let (k, j) = (at.0 as int, at.1 as int);
            assert(frame_view(self.frames@[k]@) =~= e.frames[k].update(
                j,
                (e.frames[k][j].0, NSlot { value: None, ..e.frames[k][j].1 }),
            ));
            assert(self@.frames =~= n_put(e, (k, j), NSlot { value: None, ..e.frames[k][j].1 }).frames);
            assert(self@.scope_log =~= e.scope_log);
            assert(self@.temp_log =~= e.temp_log);
        }
        taken.value
    }
}

/// Putting a slot twice at one place is putting the second.
proof fn lemma_put_twice(e: NEnv, at: (int, int))
    requires
        0 <= at.0 < e.frames.len(),
        0 <= at.1 < e.frames[at.0].len(),
    ensures
        forall|a: NSlot, b: NSlot| #[trigger] n_put(n_put(e, at, a), at, b) == n_put(e, at, b),
{
    assert forall|a: NSlot, b: NSlot| #[trigger] n_put(n_put(e, at, a), at, b) == n_put(e, at, b) by {
        let e1 = n_put(e, at, a);
        assert(e1.frames[at.0] =~= e.frames[at.0].update(at.1, (e.frames[at.0][at.1].0, a)));
        assert(e1.frames[at.0].update(at.1, (e1.frames[at.0][at.1].0, b)) =~= e.frames[at.0].update(
            at.1,
            (e.frames[at.0][at.1].0, b),
        ));
        assert(n_put(e1, at, b).frames =~= n_put(e, at, b).frames);
    }
}

// ---------------------------------------------------------------------------
// Laws.
// ---------------------------------------------------------------------------

proof fn lemma_frame_find(fr: NFrame, name: Seq<char>, i: int)
    ensures
        frame_find(fr, name, i) matches Some(j) ==> 0 <= i <= j < fr.len() && fr[j].0 == name,
    decreases fr.len() - i,
{
    if 0 <= i < fr.len() && fr[i].0 != name {
        lemma_frame_find(fr, name, i + 1);
    }
}

proof fn lemma_frame_find_update(fr: NFrame, name: Seq<char>, j: int, x: (Seq<char>, NSlot), i: int)
    requires
        0 <= i <= j,
        frame_find(fr, name, i) == Some(j),
        x.0 == name,
    ensures
        frame_find(fr.update(j, x), name, i) == Some(j),
    decreases j - i,
{
    lemma_frame_find(fr, name, i);
    if i < j {
        assert(fr[i].0 != name);
        lemma_frame_find_update(fr, name, j, x, i + 1);
    }
}

proof fn lemma_frame_find_push(fr: NFrame, name: Seq<char>, x: (Seq<char>, NSlot), i: int)
    requires
        0 <= i <= fr.len(),
        frame_find(fr, name, i) is None,
        x.0 == name,
    ensures
        frame_find(fr.push(x), name, i) == Some(fr.len() as int),
    decreases fr.len() - i,
{
    if i < fr.len() {
        lemma_frame_find_push(fr, name, x, i + 1);
    }
}

proof fn lemma_n_find_in_range(frames: Seq<NFrame>, name: Seq<char>, k: int)
    ensures
        n_find_from(frames, name, k) matches Some(at) ==> 0 <= at.0 <= k && at.0 < frames.len() && 0 <= at.1
            < frames[at.0].len() && frames[at.0][at.1].0 == name,
    decreases k + 1,
{
    if 0 <= k < frames.len() {
        lemma_frame_find(frames[k], name, 0);
        lemma_n_find_in_range(frames, name, k - 1);
    }
}

pub open spec fn frame_names(fr: NFrame) -> Seq<Seq<char>> {
    Seq::new(fr.len(), |j: int| fr[j].0)
}

proof fn lemma_frame_find_names(a: NFrame, b: NFrame, name: Seq<char>, i: int)
    requires
        frame_names(a) == frame_names(b),
    ensures
        frame_find(a, name, i) == frame_find(b, name, i),
    decreases a.len() - i,
{
    assert(a.len() == frame_names(a).len());
    if 0 <= i < a.len() {
        assert(frame_names(a)[i] == frame_names(b)[i]);
        lemma_frame_find_names(a, b, name, i + 1);
    }
}

proof fn lemma_n_find_names(a: Seq<NFrame>, b: Seq<NFrame>, name: Seq<char>, k: int)
    requires
        a.len() == b.len(),
        forall|j: int| 0 <= j < a.len() ==> #[trigger] frame_names(b[j]) == frame_names(a[j]),
    ensures
        n_find_from(b, name, k) == n_find_from(a, name, k),
    decreases k + 1,
{
    if 0 <= k < a.len() {
        assert(frame_names(b[k]) == frame_names(a[k]));
        lemma_frame_find_names(a[k], b[k], name, 0);
        lemma_n_find_names(a, b, name, k - 1);
    }
}

/// Changing a slot keeps every name where it was.
proof fn lemma_n_put_names(e: NEnv, at: (int, int), sl: NSlot, name: Seq<char>)
    requires
        0 <= at.0 < e.frames.len(),
        0 <= at.1 < e.frames[at.0].len(),
    ensures
        n_find(n_put(e, at, sl), name) == n_find(e, name),
{
    let e2 = n_put(e, at, sl);
    assert forall|k: int| 0 <= k < e.frames.len() implies #[trigger] frame_names(e2.frames[k]) == frame_names(
        e.frames[k],
    ) by {
        assert(frame_names(e2.frames[k]) =~= frame_names(e.frames[k]));
    }
    lemma_n_find_names(e.frames, e2.frames, name, e.frames.len() - 1);
}

/// A read gives back what a write wrote: after `define(name, v)`, and after an
/// `assign(name, v)` that is not refused, the variable reads as `v`.
pub proof fn law_read_after_write(e: NEnv, name: Seq<char>, v: NValue)
    requires
        e.frames.len() > 0,
    ensures
        n_load_peek(n_define(e, name, v), name) == Ok::<NValue, SpecError>(v),
        n_assign(e, name, v) matches Ok(e2) ==> n_load_peek(e2, name) == Ok::<NValue, SpecError>(v),
{
    let k = e.frames.len() - 1;
    let top = e.frames[k];
    let s = NSlot { value: Some(v), immut: 0, mut_: false };
    let e2 = n_define(e, name, v);
    lemma_frame_find(top, name, 0);
    match frame_find(top, name, 0) {
        Some(j) => {
            lemma_frame_find_update(top, name, j, (name, s), 0);
            assert(e2.frames[k] == top.update(j, (name, s)));
        },
        None => {
            lemma_frame_find_push(top, name, (name, s), 0);
            assert(e2.frames[k] == top.push((name, s)));
        },
    }
    if let Some(at) = n_find(e, name) {
        lemma_n_find_in_range(e.frames, name, e.frames.len() - 1);
        let sl = n_slot(e, at);
        lemma_n_put_names(e, at, NSlot { value: Some(v), ..sl }, name);
    }
}

/// A variable cannot be assigned, nor borrowed mutably, while it is borrowed; it
/// cannot be borrowed shared while it is borrowed mutably.
pub proof fn law_borrows_refused_while_borrowed(e: NEnv, name: Seq<char>, v: NValue)
    requires
        n_find(e, name) is Some,
    ensures
        ({
            let sl = n_slot(e, n_find(e, name)->0);
            &&& (sl.immut > 0 || sl.mut_) ==> n_assign(e, name, v) is Err
            &&& (sl.immut > 0 || sl.mut_) ==> n_borrow(e, name, Mutability::Mut) is Err
            &&& sl.mut_ ==> n_borrow(e, name, Mutability::Imm) is Err
        }),
{
}

/// Borrowing a variable and giving the borrow back leaves every frame as it was.
pub proof fn law_release_undoes_borrow(e: NEnv, name: Seq<char>, m: Mutability)
    ensures
        n_borrow(e, name, m) matches Ok(e2) ==> (n_release(e2, NRef::Local(name), m) matches Ok(e3) && e3.frames
            == e.frames),
{
    if let Some(at) = n_find(e, name) {
        lemma_n_find_in_range(e.frames, name, e.frames.len() - 1);
        let sl = n_slot(e, at);
        if let Ok(e2) = n_borrow(e, name, m) {
            let bumped = match m {
                Mutability::Imm => NSlot { immut: (sl.immut + 1) as usize, ..sl },
                Mutability::Mut => NSlot { mut_: true, ..sl },
            };
            let e1 = n_put(e, at, bumped);
            assert(e2.frames == e1.frames);
            lemma_n_put_names(e, at, bumped, name);
            assert(n_find(e2, name) == n_find(e1, name));
            let e3 = n_put(e1, at, sl);
            assert(e1.frames[at.0] =~= e.frames[at.0].update(at.1, (e.frames[at.0][at.1].0, bumped)));
            assert(e3.frames[at.0] =~= e.frames[at.0]);
            assert(e3.frames =~= e.frames);
        }
    }
}

} // verus!
