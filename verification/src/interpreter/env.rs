use vstd::prelude::*;

use crate::error::{LangError, SpecError};
use crate::ast::strings_view;
use crate::interpreter::{opt_view, values_view, Mutability, RefTarget, SRef, SValue, Value};
use crate::text::{cat2, cat3};

verus! {

// ---------------------------------------------------------------------------
// The model of the environment: scopes of named slots, and the logs of the
// borrows to give back when a scope or a statement ends.
// ---------------------------------------------------------------------------

/// A variable's slot: its value (none once moved out) and its live borrows.
pub struct SSlot {
    pub value: Option<SValue>,
    pub immut: usize,
    pub mut_: bool,
}

/// A scope: its variables, in order of first definition.
pub type SScope = Seq<(Seq<char>, SSlot)>;

/// A log of borrows: each target with the kind of borrow taken.
pub type SLog = Seq<(SRef, Mutability)>;

pub struct SEnv {
    pub scopes: Seq<SScope>,
    /// One log per scope, given back when the scope ends.
    pub log: Seq<SLog>,
    /// One log per statement that runs with temporary borrows.
    pub temp: Seq<SLog>,
}

/// The position in `sc`, from `i` on, of the variable `name`.
pub open spec fn scope_find(sc: SScope, name: Seq<char>, i: int) -> Option<int>
    decreases sc.len() - i,
{
    if i < 0 || i >= sc.len() {
        None
    } else if sc[i].0 == name {
        Some(i)
    } else {
        scope_find(sc, name, i + 1)
    }
}

/// What `scope_find` finds is at a position of the scope, from `i` on, and has the name.
pub proof fn lemma_scope_find(sc: SScope, name: Seq<char>, i: int)
    ensures
        scope_find(sc, name, i) matches Some(j) ==> 0 <= i <= j < sc.len() && sc[j].0 == name,
    decreases sc.len() - i,
{
    if 0 <= i < sc.len() && sc[i].0 != name {
        lemma_scope_find(sc, name, i + 1);
    }
}

/// Where `name` is bound, searching the scopes from `k` down to the outermost.
pub open spec fn find_from(scopes: Seq<SScope>, name: Seq<char>, k: int) -> Option<(int, int)>
    decreases k + 1,
{
    if k < 0 || k >= scopes.len() {
        None
    } else {
        match scope_find(scopes[k], name, 0) {
            Some(j) => Some((k, j)),
            None => find_from(scopes, name, k - 1),
        }
    }
}

/// Where `name` is bound: in the innermost scope that has it.
pub open spec fn env_find(e: SEnv, name: Seq<char>) -> Option<(int, int)> {
    find_from(e.scopes, name, e.scopes.len() - 1)
}

pub open spec fn env_slot(e: SEnv, at: (int, int)) -> SSlot {
    e.scopes[at.0][at.1].1
}

pub open spec fn env_put(e: SEnv, at: (int, int), sl: SSlot) -> SEnv {
    SEnv {
        scopes: e.scopes.update(at.0, e.scopes[at.0].update(at.1, (e.scopes[at.0][at.1].0, sl))),
        ..e
    }
}

pub open spec fn fresh_slot(v: SValue) -> SSlot {
    SSlot { value: Some(v), immut: 0, mut_: false }
}

pub open spec fn rt<T>(m: Seq<char>) -> Result<T, SpecError> {
    Err(SpecError::Runtime(m))
}

pub open spec fn unknown_var(name: Seq<char>) -> Seq<char> {
    "Unknown variable: "@ + name
}

/// `let name = v`: a fresh slot in the innermost scope, in place of one of the same name there.
pub open spec fn s_define(e: SEnv, name: Seq<char>, v: SValue) -> SEnv {
    if e.scopes.len() == 0 {
        e
    } else {
        let k = e.scopes.len() - 1;
        let top = e.scopes[k];
        let top2 = match scope_find(top, name, 0) {
            Some(j) => top.update(j, (name, fresh_slot(v))),
            None => top.push((name, fresh_slot(v))),
        };
        SEnv { scopes: e.scopes.update(k, top2), ..e }
    }
}

/// Binds the parameters to the argument values in the innermost scope, in order.
pub open spec fn define_all(e: SEnv, params: Seq<Seq<char>>, vals: Seq<SValue>, i: int) -> SEnv
    decreases params.len() - i,
{
    if i < 0 || i >= params.len() || i >= vals.len() {
        e
    } else {
        define_all(s_define(e, params[i], vals[i]), params, vals, i + 1)
    }
}

/// `name = v`: refused while the variable is borrowed.
pub open spec fn s_assign(e: SEnv, name: Seq<char>, v: SValue) -> Result<SEnv, SpecError> {
    match env_find(e, name) {
        None => rt(unknown_var(name)),
        Some(at) => {
            let sl = env_slot(e, at);
            if sl.immut > 0 || sl.mut_ {
                rt("Cannot assign '"@ + name + "': it is borrowed"@)
            } else {
                Ok(env_put(e, at, SSlot { value: Some(v), ..sl }))
            }
        },
    }
}

pub open spec fn push_last(logs: Seq<SLog>, x: (SRef, Mutability)) -> Seq<SLog> {
    logs.update(logs.len() - 1, logs.last().push(x))
}

pub open spec fn replace_last(logs: Seq<SLog>, x: (SRef, Mutability)) -> Seq<SLog> {
    let f = logs.last();
    logs.update(logs.len() - 1, (if f.len() > 0 { f.drop_last() } else { f }).push(x))
}

/// Logs a borrow in the innermost statement log if there is one, else in the
/// innermost scope's log.
pub open spec fn s_record(e: SEnv, tgt: SRef, m: Mutability) -> SEnv {
    if e.temp.len() > 0 {
        SEnv { temp: push_last(e.temp, (tgt, m)), ..e }
    } else if e.log.len() > 0 {
        SEnv { log: push_last(e.log, (tgt, m)), ..e }
    } else {
        e
    }
}

/// Replaces the borrow logged last (in the log that `s_record` writes) by another.
pub open spec fn s_replace_last(e: SEnv, tgt: SRef, m: Mutability) -> SEnv {
    if e.temp.len() > 0 {
        SEnv { temp: replace_last(e.temp, (tgt, m)), ..e }
    } else if e.log.len() > 0 {
        SEnv { log: replace_last(e.log, (tgt, m)), ..e }
    } else {
        e
    }
}

/// Borrows the variable `var`: shared borrows may stand together, a mutable
/// borrow stands alone; a moved-out variable cannot be borrowed.
pub open spec fn s_acquire(e: SEnv, var: Seq<char>, m: Mutability) -> Result<SEnv, SpecError> {
    match env_find(e, var) {
        None => rt(unknown_var(var)),
        Some(at) => {
            let sl = env_slot(e, at);
            if sl.value is None {
                rt("Cannot borrow '"@ + var + "': value was moved"@)
            } else {
                match m {
                    Mutability::Imm => if sl.mut_ {
                        rt("Cannot immut-borrow '"@ + var + "': it is mut-borrowed"@)
                    } else if sl.immut == usize::MAX {
                        rt("Too many borrows of '"@ + var + "'"@)
                    } else {
                        Ok(
                            s_record(
                                env_put(e, at, SSlot { immut: (sl.immut + 1) as usize, ..sl }),
                                SRef::Var(var),
                                m,
                            ),
                        )
                    },
                    Mutability::Mut => if sl.mut_ || sl.immut > 0 {
                        rt("Cannot mut-borrow '"@ + var + "': it is already borrowed"@)
                    } else {
                        Ok(s_record(env_put(e, at, SSlot { mut_: true, ..sl }), SRef::Var(var), m))
                    },
                }
            }
        },
    }
}

/// The variable that a reference borrows.
pub open spec fn ref_var(t: SRef) -> Seq<char> {
    match t {
        SRef::Var(v) => v,
        SRef::VecElem { var, .. } => var,
    }
}

/// Gives back one borrow.
pub open spec fn s_release(e: SEnv, tgt: SRef, m: Mutability) -> Result<SEnv, SpecError> {
    let v = ref_var(tgt);
    match env_find(e, v) {
        None => rt("Internal: releasing borrow of unknown var '"@ + v + "'"@),
        Some(at) => {
            let sl = env_slot(e, at);
            match m {
                Mutability::Imm => if sl.immut == 0 {
                    rt("Internal: immut borrow underflow for '"@ + v + "'"@)
                } else {
                    Ok(env_put(e, at, SSlot { immut: (sl.immut - 1) as usize, ..sl }))
                },
                Mutability::Mut => if !sl.mut_ {
                    rt("Internal: mut borrow underflow for '"@ + v + "'"@)
                } else {
                    Ok(env_put(e, at, SSlot { mut_: false, ..sl }))
                },
            }
        },
    }
}

/// Gives back the first `n` borrows of `log`, the last logged first.
pub open spec fn s_release_all(e: SEnv, log: SLog, n: int) -> Result<SEnv, SpecError>
    decreases n,
{
    if n <= 0 || n > log.len() {
        Ok(e)
    } else {
        match s_release(e, log[n - 1].0, log[n - 1].1) {
            Err(x) => Err(x),
            Ok(e2) => s_release_all(e2, log, n - 1),
        }
    }
}

/// The environment where giving back the first `n` borrows of `log` stops: the
/// result when all are given back, else the one reached before the refused one.
pub open spec fn s_release_all_env(e: SEnv, log: SLog, n: int) -> SEnv
    decreases n,
{
    if n <= 0 || n > log.len() {
        e
    } else {
        match s_release(e, log[n - 1].0, log[n - 1].1) {
            Err(_) => e,
            Ok(e2) => s_release_all_env(e2, log, n - 1),
        }
    }
}

/// What ending the innermost scope leaves when one of its borrows cannot be
/// given back: the borrows before it are given back, the scope stays.
pub open spec fn s_pop_scope_err_env(e: SEnv) -> SEnv {
    let l = e.log.last();
    s_release_all_env(SEnv { log: e.log.drop_last(), ..e }, l, l.len() as int)
}

/// What ending a statement's temporary borrows leaves when one of them cannot be
/// given back.
pub open spec fn s_pop_temp_err_env(e: SEnv) -> SEnv {
    let l = e.temp.last();
    s_release_all_env(SEnv { temp: e.temp.drop_last(), ..e }, l, l.len() as int)
}

pub open spec fn s_push_scope(e: SEnv) -> SEnv {
    SEnv { scopes: e.scopes.push(Seq::empty()), log: e.log.push(Seq::empty()), temp: e.temp }
}

/// Ends the innermost scope: gives back its borrows, then drops its variables.
pub open spec fn s_pop_scope(e: SEnv) -> Result<SEnv, SpecError> {
    let l = e.log.last();
    match s_release_all(SEnv { log: e.log.drop_last(), ..e }, l, l.len() as int) {
        Err(x) => Err(x),
        Ok(e2) => Ok(SEnv { scopes: e2.scopes.drop_last(), ..e2 }),
    }
}

pub open spec fn s_push_temp(e: SEnv) -> SEnv {
    SEnv { temp: e.temp.push(Seq::empty()), ..e }
}

/// Ends a statement's temporary borrows: gives them back.
pub open spec fn s_pop_temp(e: SEnv) -> Result<SEnv, SpecError> {
    let l = e.temp.last();
    s_release_all(SEnv { temp: e.temp.drop_last(), ..e }, l, l.len() as int)
}

/// A slot is never borrowed mutably and immutably at once.
pub open spec fn slot_exclusive(sl: SSlot) -> bool {
    !(sl.mut_ && sl.immut > 0)
}

/// No variable is borrowed mutably while it is borrowed immutably.
pub open spec fn borrows_exclusive(e: SEnv) -> bool {
    forall|k: int, j: int|
        0 <= k < e.scopes.len() && 0 <= j < e.scopes[k].len() ==> slot_exclusive(#[trigger] e.scopes[k][j].1)
}

/// The environment is ready for use: it has a scope and a log for it, and its
/// borrows are exclusive.
pub open spec fn env_ok(e: SEnv) -> bool {
    e.scopes.len() >= 1 && e.log.len() >= 1 && borrows_exclusive(e)
}

/// Putting an exclusive slot keeps the borrows exclusive.
pub proof fn lemma_put_exclusive(e: SEnv, at: (int, int), sl: SSlot)
    requires
        borrows_exclusive(e),
        0 <= at.0 < e.scopes.len(),
        0 <= at.1 < e.scopes[at.0].len(),
        slot_exclusive(sl),
    ensures
        borrows_exclusive(env_put(e, at, sl)),
        env_put(e, at, sl).scopes.len() == e.scopes.len(),
{
    let e2 = env_put(e, at, sl);
    assert forall|k: int, j: int| 0 <= k < e2.scopes.len() && 0 <= j < e2.scopes[k].len() implies slot_exclusive(
        #[trigger] e2.scopes[k][j].1,
    ) by {
        if k == at.0 && j == at.1 {
        } else {
            assert(e2.scopes[k][j] == e.scopes[k][j]);
        }
    }
}

/// `let` keeps the borrows exclusive.
pub proof fn lemma_define_exclusive(e: SEnv, name: Seq<char>, v: SValue)
    requires
        env_ok(e),
    ensures
        env_ok(s_define(e, name, v)),
        s_define(e, name, v).scopes.len() == e.scopes.len(),
        s_define(e, name, v).log == e.log,
        s_define(e, name, v).temp == e.temp,
{
    let e2 = s_define(e, name, v);
    let k0 = e.scopes.len() - 1;
    lemma_scope_find(e.scopes[k0], name, 0);
    assert forall|k: int, j: int| 0 <= k < e2.scopes.len() && 0 <= j < e2.scopes[k].len() implies slot_exclusive(
        #[trigger] e2.scopes[k][j].1,
    ) by {
        if k == k0 {
            let top = e.scopes[k0];
            match scope_find(top, name, 0) {
                Some(jj) => {
                    if j != jj {
                        assert(e2.scopes[k][j] == e.scopes[k][j]);
                    }
                },
                None => {
                    if j < top.len() {
                        assert(e2.scopes[k][j] == e.scopes[k][j]);
                    }
                },
            }
        } else {
            assert(e2.scopes[k][j] == e.scopes[k][j]);
        }
    }
}

// ---------------------------------------------------------------------------
// The environment.
// ---------------------------------------------------------------------------

#[derive(Debug)]
pub struct BorrowState {
    pub immut: usize,
    pub mut_: bool,
}

#[derive(Debug)]
pub struct Slot {
    pub value: Option<Value>,
    pub borrows: BorrowState,
}

impl View for Slot {
    type V = SSlot;

    open spec fn view(&self) -> SSlot {
        SSlot {
            value: opt_view(self.value),
            immut: self.borrows.immut,
            mut_: self.borrows.mut_,
        }
    }
}

pub open spec fn scope_view(s: Seq<(String, Slot)>) -> SScope {
    Seq::new(s.len(), |i: int| (s[i].0@, s[i].1@))
}

pub open spec fn log_view(s: Seq<(RefTarget, Mutability)>) -> SLog {
    Seq::new(s.len(), |i: int| (s[i].0@, s[i].1))
}

pub open spec fn scopes_view(s: Seq<Vec<(String, Slot)>>) -> Seq<SScope> {
    Seq::new(s.len(), |i: int| scope_view(s[i]@))
}

pub open spec fn logs_view(s: Seq<Vec<(RefTarget, Mutability)>>) -> Seq<SLog> {
    Seq::new(s.len(), |i: int| log_view(s[i]@))
}

/// Variables in nested scopes, with the borrows of each.
#[derive(Debug)]
pub struct Env {
    pub scopes: Vec<Vec<(String, Slot)>>,
    pub borrow_log: Vec<Vec<(RefTarget, Mutability)>>,
    pub temp_borrow_log: Vec<Vec<(RefTarget, Mutability)>>,
}

impl View for Env {
    type V = SEnv;

    open spec fn view(&self) -> SEnv {
        SEnv {
            scopes: scopes_view(self.scopes@),
            log: logs_view(self.borrow_log@),
            temp: logs_view(self.temp_borrow_log@),
        }
    }
}

impl Env {
    pub open spec fn ok(&self) -> bool {
        env_ok(self@)
    }

    /// The same number of scopes and of logs.
    pub open spec fn same_shape(&self, other: &Env) -> bool {
        &&& self.scopes@.len() == other.scopes@.len()
        &&& self.borrow_log@.len() == other.borrow_log@.len()
        &&& self.temp_borrow_log@.len() == other.temp_borrow_log@.len()
    }

    /// The position in the scope `k` of the variable `name`, if it is there.
    pub fn find_in_scope(&self, k: usize, name: &String) -> (r: Option<usize>)
        requires
            k < self.scopes@.len(),
        ensures
            r matches Some(j) ==> scope_find(self@.scopes[k as int], name@, 0) == Some(j as int),
            r is None ==> scope_find(self@.scopes[k as int], name@, 0) is None,
            r matches Some(j) ==> j < self.scopes@[k as int]@.len(),
    {
        let ghost e = self@;
        let n = self.scopes[k].len();
        let mut j: usize = 0;
        while j < n
            invariant
                e == self@,
                k < self.scopes@.len(),
                n == self.scopes@[k as int]@.len(),
                j <= n,
                scope_find(e.scopes[k as int], name@, 0) == scope_find(e.scopes[k as int], name@, j as int),
            decreases n - j,
        {
            if self.scopes[k][j].0.eq(name) {
                assert(e.scopes[k as int][j as int].0 == name@);
                return Some(j);
            }
            j += 1;
        }
        None
    }

    /// An environment with one empty scope.
    pub fn new() -> (e: Env)
        ensures
            e@ == s_push_scope(SEnv { scopes: Seq::empty(), log: Seq::empty(), temp: Seq::empty() }),
            e.ok(),
    {
        let mut e = Env { scopes: Vec::new(), borrow_log: Vec::new(), temp_borrow_log: Vec::new() };
        proof {
            assert(e@.scopes =~= Seq::empty());
            assert(e@.log =~= Seq::empty());
            assert(e@.temp =~= Seq::empty());
        }
        e.push_scope();
        e
    }

    pub fn push_scope(&mut self)
        ensures
            final(self)@ == s_push_scope(old(self)@),
            final(self).scopes@.len() == old(self).scopes@.len() + 1,
            final(self).borrow_log@.len() == old(self).borrow_log@.len() + 1,
            final(self).temp_borrow_log@.len() == old(self).temp_borrow_log@.len(),
    {
        self.scopes.push(Vec::new());
        self.borrow_log.push(Vec::new());
        proof {
            assert(scope_view(Seq::<(String, Slot)>::empty()) =~= Seq::empty());
            assert(log_view(Seq::<(RefTarget, Mutability)>::empty()) =~= Seq::empty());
            assert(self@.scopes =~= old(self)@.scopes.push(Seq::empty()));
            assert(self@.log =~= old(self)@.log.push(Seq::empty()));
            assert(self@.temp =~= old(self)@.temp);
        }
    }

    pub fn push_temp_frame(&mut self)
        ensures
            final(self)@ == s_push_temp(old(self)@),
            final(self).scopes@.len() == old(self).scopes@.len(),
            final(self).borrow_log@.len() == old(self).borrow_log@.len(),
            final(self).temp_borrow_log@.len() == old(self).temp_borrow_log@.len() + 1,
    {
        self.temp_borrow_log.push(Vec::new());
        proof {
            assert(log_view(Seq::<(RefTarget, Mutability)>::empty()) =~= Seq::empty());
            assert(self@.temp =~= old(self)@.temp.push(Seq::empty()));
            assert(self@.scopes =~= old(self)@.scopes);
            assert(self@.log =~= old(self)@.log);
        }
    }

    /// Where `name` is bound, if anywhere: the innermost scope that has it.
    pub fn lookup(&self, name: &String) -> (r: Option<(usize, usize)>)
        ensures
            match env_find(self@, name@) {
                Some(at) => r matches Some(p) && p.0 as int == at.0 && p.1 as int == at.1,
                None => r is None,
            },
            r matches Some(p) ==> p.0 < self.scopes@.len() && p.1 < self.scopes@[p.0 as int]@.len(),
    {
        let ghost e = self@;
        let mut k = self.scopes.len();
        while k > 0
            invariant
                k <= self.scopes@.len(),
                e == self@,
                env_find(e, name@) == find_from(e.scopes, name@, k - 1),
            decreases k,
        {
            let sc = &self.scopes[k - 1];
            let mut j: usize = 0;
            while j < sc.len()
                invariant
                    0 < k <= self.scopes@.len(),
                    e == self@,
                    *sc == self.scopes@[k - 1],
                    env_find(e, name@) == find_from(e.scopes, name@, k - 1),
                    j <= sc@.len(),
                    scope_find(e.scopes[k - 1], name@, 0) == scope_find(e.scopes[k - 1], name@, j as int),
                decreases sc.len() - j,
            {
                if sc[j].0.eq(name) {
                    assert(e.scopes[k - 1][j as int].0 == name@);
                    return Some((k - 1, j));
                }
                j += 1;
            }
            k -= 1;
        }
        None
    }

    pub open spec fn slot_at(&self, at: (usize, usize)) -> SSlot {
        env_slot(self@, (at.0 as int, at.1 as int))
    }

    pub open spec fn has(&self, at: (usize, usize)) -> bool {
        at.0 < self.scopes@.len() && at.1 < self.scopes@[at.0 as int]@.len()
    }

    /// The slot at `at`.
    pub fn slot(&self, at: (usize, usize)) -> (r: &Slot)
        requires
            self.has(at),
        ensures
            r@ == self.slot_at(at),
    {
        &self.scopes[at.0][at.1].1
    }

    /// Sets the borrows of the slot at `at`.
    pub fn set_borrows(&mut self, at: (usize, usize), immut: usize, mut_: bool)
        requires
            old(self).has(at),
        ensures
            final(self)@ == env_put(
                old(self)@,
                (at.0 as int, at.1 as int),
                SSlot { immut, mut_, ..old(self).slot_at(at) },
            ),
            final(self).has(at),
            final(self).same_shape(old(self)),
    {
        let ghost old_e = self@;
        self.scopes[at.0][at.1].1.borrows = BorrowState { immut, mut_ };
        proof {
            let (k, j) = (at.0 as int, at.1 as int);
            assert(scope_view(self.scopes@[k]@) =~= old_e.scopes[k].update(
                j,
                (old_e.scopes[k][j].0, SSlot { immut, mut_, ..old_e.scopes[k][j].1 }),
            ));
            assert(self@.scopes =~= env_put(
                old_e,
                (k, j),
                SSlot { immut, mut_, ..old_e.scopes[k][j].1 },
            ).scopes);
        }
    }
    /// Logs a borrow: in the innermost statement log if there is one, else in the
    /// innermost scope's log.
    pub fn record_borrow(&mut self, target: RefTarget, m: Mutability)
        requires
            old(self).ok(),
        ensures
            final(self)@ == s_record(old(self)@, target@, m),
            final(self).ok(),
            final(self).same_shape(old(self)),
    {
        let ghost e = self@;
        let n = self.temp_borrow_log.len();
        if n > 0 {
            self.temp_borrow_log[n - 1].push((target, m));
            proof {
                assert(log_view(self.temp_borrow_log@[n - 1]@) =~= e.temp[n - 1].push((target@, m)));
                assert(self@.temp =~= push_last(e.temp, (target@, m)));
                assert(self@.scopes =~= e.scopes);
                assert(self@.log =~= e.log);
            }
        } else {
            let k = self.borrow_log.len();
            self.borrow_log[k - 1].push((target, m));
            proof {
                assert(log_view(self.borrow_log@[k - 1]@) =~= e.log[k - 1].push((target@, m)));
                assert(self@.log =~= push_last(e.log, (target@, m)));
                assert(self@.scopes =~= e.scopes);
                assert(self@.temp =~= e.temp);
            }
        }
    }

    /// Replaces the borrow logged last by another (in the log that `record_borrow` writes).
    pub fn replace_last_record_with(&mut self, target: RefTarget, m: Mutability)
        requires
            old(self).ok(),
        ensures
            final(self)@ == s_replace_last(old(self)@, target@, m),
            final(self).ok(),
            final(self).same_shape(old(self)),
    {
        let ghost e = self@;
        let n = self.temp_borrow_log.len();
        if n > 0 {
            self.temp_borrow_log[n - 1].pop();
            self.temp_borrow_log[n - 1].push((target, m));
            proof {
                let f = e.temp[n - 1];
                assert(log_view(self.temp_borrow_log@[n - 1]@) =~= (if f.len() > 0 {
                    f.drop_last()
                } else {
                    f
                }).push((target@, m)));
                assert(self@.temp =~= replace_last(e.temp, (target@, m)));
                assert(self@.scopes =~= e.scopes);
                assert(self@.log =~= e.log);
            }
        } else {
            let k = self.borrow_log.len();
            self.borrow_log[k - 1].pop();
            self.borrow_log[k - 1].push((target, m));
            proof {
                let f = e.log[k - 1];
                assert(log_view(self.borrow_log@[k - 1]@) =~= (if f.len() > 0 {
                    f.drop_last()
                } else {
                    f
                }).push((target@, m)));
                assert(self@.log =~= replace_last(e.log, (target@, m)));
                assert(self@.scopes =~= e.scopes);
                assert(self@.temp =~= e.temp);
            }
        }
    }

    /// Binds `name` to `v` in the innermost scope, in place of a variable of the
    /// same name there.
    pub fn define(&mut self, name: String, v: Value)
        requires
            old(self).ok(),
        ensures
            final(self)@ == s_define(old(self)@, name@, v@),
            final(self).ok(),
            final(self).same_shape(old(self)),
    {
        let ghost e = self@;
        let ghost nm = name@;
        let ghost vv = v@;
        let k = self.scopes.len() - 1;
        let found = self.find_in_scope(k, &name);
        let slot = Slot { value: Some(v), borrows: BorrowState { immut: 0, mut_: false } };
        assert(slot@ == fresh_slot(vv));
        if let Some(j) = found {
            self.scopes[k][j] = (name, slot);
            proof {
                let top = e.scopes[k as int];
                assert(scope_view(self.scopes@[k as int]@) =~= top.update(j as int, (nm, fresh_slot(vv))));
                assert(self@.scopes =~= e.scopes.update(k as int, top.update(j as int, (nm, fresh_slot(vv)))));
                assert(scope_find(top, nm, 0) == Some(j as int));
                assert(self@.scopes == s_define(e, nm, vv).scopes);
            }
        } else {
            self.scopes[k].push((name, slot));
            proof {
                let top = e.scopes[k as int];
                assert(scope_view(self.scopes@[k as int]@) =~= top.push((nm, fresh_slot(vv))));
                assert(self@.scopes =~= e.scopes.update(k as int, top.push((nm, fresh_slot(vv)))));
                assert(scope_find(top, nm, 0) is None);
                assert(self@.scopes == s_define(e, nm, vv).scopes);
            }
        }
        proof {
            assert(self@.log =~= e.log);
            assert(self@.temp =~= e.temp);
            assert(self@ == s_define(e, nm, vv));
        }
    }

    /// Binds each parameter to the argument at its position, in order.
    pub fn bind_params(&mut self, params: &Vec<String>, vals: &Vec<Value>)
        requires
            old(self).ok(),
        ensures
            final(self)@ == define_all(old(self)@, strings_view(params@), values_view(vals@), 0),
            final(self).ok(),
            final(self).same_shape(old(self)),
    {
        let ghost ps = strings_view(params@);
        let ghost vs = values_view(vals@);
        let ghost goal = define_all(self@, ps, vs, 0);
        let mut i: usize = 0;
        while i < params.len() && i < vals.len()
            invariant
                self.ok(),
                i <= params@.len(),
                i <= vals@.len(),
                ps == strings_view(params@),
                vs == values_view(vals@),
                define_all(self@, ps, vs, i as int) == goal,
                goal == define_all(old(self)@, strings_view(params@), values_view(vals@), 0),
                self.same_shape(old(self)),
            decreases params@.len() - i,
        {
            assert(ps[i as int] == params@[i as int]@);
            assert(vs[i as int] == vals@[i as int]@);
            self.define(params[i].clone(), vals[i].deep_clone());
            i += 1;
        }
    }

    /// Sets the value of the slot at `at`.
    pub fn set_value(&mut self, at: (usize, usize), v: Option<Value>)
        requires
            old(self).has(at),
        ensures
            final(self)@ == env_put(
                old(self)@,
                (at.0 as int, at.1 as int),
                SSlot { value: opt_view(v), ..old(self).slot_at(at) },
            ),
            final(self).has(at),
            final(self).same_shape(old(self)),
    {
        let ghost old_e = self@;
        let ghost nv = opt_view(v);
        self.scopes[at.0][at.1].1.value = v;
        proof {
            let (k, j) = (at.0 as int, at.1 as int);
            assert(scope_view(self.scopes@[k]@) =~= old_e.scopes[k].update(
                j,
                (old_e.scopes[k][j].0, SSlot { value: nv, ..old_e.scopes[k][j].1 }),
            ));
            assert(self@.scopes =~= env_put(
                old_e,
                (k, j),
                SSlot { value: nv, ..old_e.scopes[k][j].1 },
            ).scopes);
        }
    }

    /// Assigns `v` to the variable `name`; refused while it is borrowed.
    pub fn assign(&mut self, name: &String, v: Value) -> (r: Result<(), LangError>)
        requires
            old(self).ok(),
        ensures
            match s_assign(old(self)@, name@, v@) {
                Ok(e) => r is Ok && final(self)@ == e,
                Err(x) => r matches Err(y) && y@ == x && final(self)@ == old(self)@,
            },
            final(self).ok(),
            final(self).same_shape(old(self)),
    {
        let at = match self.lookup(name) {
            Some(at) => at,
            None => return Err(LangError::Runtime(cat2("Unknown variable: ", name.as_str()))),
        };
        let sl = self.slot(at);
        if sl.borrows.immut > 0 || sl.borrows.mut_ {
            return Err(LangError::Runtime(cat3("Cannot assign '", name.as_str(), "': it is borrowed")));
        }
        self.set_value(at, Some(v));
        Ok(())
    }

    /// Borrows the variable `var`: shared borrows may stand together, a mutable
    /// borrow stands alone; a moved-out variable cannot be borrowed.
    pub fn acquire_borrow(&mut self, var: &String, m: Mutability) -> (r: Result<(), LangError>)
        requires
            old(self).ok(),
        ensures
            match s_acquire(old(self)@, var@, m) {
                Ok(e) => r is Ok && final(self)@ == e,
                Err(x) => r matches Err(y) && y@ == x && final(self)@ == old(self)@,
            },
            final(self).ok(),
            final(self).same_shape(old(self)),
    {
        let at = match self.lookup(var) {
            Some(at) => at,
            None => return Err(LangError::Runtime(cat2("Unknown variable: ", var.as_str()))),
        };
        let sl = self.slot(at);
        if sl.value.is_none() {
            return Err(LangError::Runtime(cat3("Cannot borrow '", var.as_str(), "': value was moved")));
        }
        let (immut, mut_) = (sl.borrows.immut, sl.borrows.mut_);
        match m {
            Mutability::Imm => {
                if mut_ {
                    return Err(
                        LangError::Runtime(cat3("Cannot immut-borrow '", var.as_str(), "': it is mut-borrowed")),
                    );
                }
                if immut == usize::MAX {
                    return Err(LangError::Runtime(cat3("Too many borrows of '", var.as_str(), "'")));
                }
                self.set_borrows(at, immut + 1, mut_);
            },
            Mutability::Mut => {
                if mut_ || immut > 0 {
                    return Err(
                        LangError::Runtime(
                            cat3("Cannot mut-borrow '", var.as_str(), "': it is already borrowed"),
                        ),
                    );
                }
                self.set_borrows(at, immut, true);
            },
        }
        self.record_borrow(RefTarget::Var(var.clone()), m);
        Ok(())
    }

    /// Gives back one borrow.
    pub fn release_borrow(&mut self, target: &RefTarget, m: Mutability) -> (r: Result<(), LangError>)
        requires
            old(self).ok(),
        ensures
            match s_release(old(self)@, target@, m) {
                Ok(e) => r is Ok && final(self)@ == e,
                Err(x) => r matches Err(y) && y@ == x && final(self)@ == old(self)@,
            },
            final(self).ok(),
            final(self).same_shape(old(self)),
    {
        let var_name = match target {
            RefTarget::Var(v) => v,
            RefTarget::VecElem { var, .. } => var,
        };
        let at = match self.lookup(var_name) {
            Some(at) => at,
            None => return Err(
                LangError::Runtime(
                    cat3("Internal: releasing borrow of unknown var '", var_name.as_str(), "'"),
                ),
            ),
        };
        let sl = self.slot(at);
        let (immut, mut_) = (sl.borrows.immut, sl.borrows.mut_);
        match m {
            Mutability::Imm => {
                if immut == 0 {
                    return Err(
                        LangError::Runtime(
                            cat3("Internal: immut borrow underflow for '", var_name.as_str(), "'"),
                        ),
                    );
                }
                self.set_borrows(at, immut - 1, mut_);
            },
            Mutability::Mut => {
                if !mut_ {
                    return Err(
                        LangError::Runtime(
                            cat3("Internal: mut borrow underflow for '", var_name.as_str(), "'"),
                        ),
                    );
                }
                self.set_borrows(at, immut, false);
            },
        }
        Ok(())
    }

    /// Gives back the borrows of `log`, the last logged first.
    pub fn release_all(&mut self, log: &Vec<(RefTarget, Mutability)>) -> (r: Result<(), LangError>)
        requires
            old(self).ok(),
        ensures
            match s_release_all(old(self)@, log_view(log@), log@.len() as int) {
                Ok(e) => r is Ok && final(self)@ == e,
                Err(x) => r matches Err(y) && y@ == x,
            },
            final(self)@ == s_release_all_env(old(self)@, log_view(log@), log@.len() as int),
            final(self).ok(),
            final(self).same_shape(old(self)),
    {
        let ghost lv = log_view(log@);
        let ghost goal = s_release_all(self@, lv, lv.len() as int);
        let mut n = log.len();
        while n > 0
            invariant
                n <= log@.len(),
                lv == log_view(log@),
                self.ok(),
                self.same_shape(old(self)),
                s_release_all(self@, lv, n as int) == goal,
                goal == s_release_all(old(self)@, log_view(log@), log@.len() as int),
                s_release_all_env(self@, lv, n as int) == s_release_all_env(old(self)@, lv, log@.len() as int),
            decreases n,
        {
            self.release_borrow(&log[n - 1].0, log[n - 1].1)?;
            n -= 1;
        }
        Ok(())
    }

    /// Ends the innermost scope: gives back its borrows, then drops its variables.
    pub fn pop_scope(&mut self) -> (r: Result<(), LangError>)
        requires
            old(self).ok(),
            old(self).scopes@.len() >= 2,
            old(self).borrow_log@.len() >= 2,
        ensures
            match s_pop_scope(old(self)@) {
                Ok(e) => r is Ok && final(self)@ == e,
                Err(x) => r matches Err(y) && y@ == x && final(self)@ == s_pop_scope_err_env(old(self)@),
            },
            final(self).ok(),
            final(self).borrow_log@.len() == old(self).borrow_log@.len() - 1,
            final(self).scopes@.len() >= old(self).scopes@.len() - 1,
            r is Ok ==> final(self).scopes@.len() == old(self).scopes@.len() - 1,
            final(self).temp_borrow_log@.len() == old(self).temp_borrow_log@.len(),
    {
        let ghost e = self@;
        let log = self.borrow_log.pop().unwrap();
        proof {
            assert(self@.log =~= e.log.drop_last());
            assert(self@.scopes =~= e.scopes);
            assert(self@.temp =~= e.temp);
        }
        self.release_all(&log)?;
        let ghost e2 = self@;
        self.scopes.pop();
        proof {
            assert(self@.scopes =~= e2.scopes.drop_last());
            assert forall|k: int, j: int|
                0 <= k < self@.scopes.len() && 0 <= j < self@.scopes[k].len() implies slot_exclusive(
                #[trigger] self@.scopes[k][j].1,
            ) by {
                assert(self@.scopes[k] == e2.scopes[k]);
            }
            assert(self@.log =~= e2.log);
            assert(self@.temp =~= e2.temp);
        }
        Ok(())
    }

    /// Ends a statement's temporary borrows: gives them back.
    pub fn pop_temp_frame_release(&mut self) -> (r: Result<(), LangError>)
        requires
            old(self).ok(),
            old(self).temp_borrow_log@.len() >= 1,
        ensures
            match s_pop_temp(old(self)@) {
                Ok(e) => r is Ok && final(self)@ == e,
                Err(x) => r matches Err(y) && y@ == x && final(self)@ == s_pop_temp_err_env(old(self)@),
            },
            final(self).ok(),
            final(self).scopes@.len() == old(self).scopes@.len(),
            final(self).borrow_log@.len() == old(self).borrow_log@.len(),
            final(self).temp_borrow_log@.len() == old(self).temp_borrow_log@.len() - 1,
    {
        let ghost e = self@;
        let log = self.temp_borrow_log.pop().unwrap();
        proof {
            assert(self@.temp =~= e.temp.drop_last());
            assert(self@.scopes =~= e.scopes);
            assert(self@.log =~= e.log);
        }
        self.release_all(&log)
    }

    /// Takes the value out of the slot at `at`, leaving it empty.
    pub fn take_value(&mut self, at: (usize, usize)) -> (r: Option<Value>)
        requires
            old(self).has(at),
        ensures
            opt_view(r) == old(self).slot_at(at).value,
            final(self)@ == env_put(
                old(self)@,
                (at.0 as int, at.1 as int),
                SSlot { value: None, ..old(self).slot_at(at) },
            ),
            final(self).has(at),
            final(self).same_shape(old(self)),
    {
        let ghost old_e = self@;
        let r = self.scopes[at.0][at.1].1.value.take();
        proof {
            let (k, j) = (at.0 as int, at.1 as int);
            assert(scope_view(self.scopes@[k]@) =~= old_e.scopes[k].update(
                j,
                (old_e.scopes[k][j].0, SSlot { value: None, ..old_e.scopes[k][j].1 }),
            ));
            assert(self@.scopes =~= env_put(
                old_e,
                (k, j),
                SSlot { value: None, ..old_e.scopes[k][j].1 },
            ).scopes);
        }
        r
    }
}

pub proof fn lemma_put_put(e: SEnv, at: (int, int), a: SSlot, b: SSlot)
    requires
        0 <= at.0 < e.scopes.len(),
        0 <= at.1 < e.scopes[at.0].len(),
    ensures
        env_put(env_put(e, at, a), at, b) == env_put(e, at, b),
        env_slot(env_put(e, at, a), at) == a,
        env_put(e, at, env_slot(e, at)) == e,
{
    let (k, j) = at;
    let e1 = env_put(e, at, a);
    assert(e1.scopes[k] =~= e.scopes[k].update(j, (e.scopes[k][j].0, a)));
    assert(e1.scopes[k].update(j, (e1.scopes[k][j].0, b)) =~= e.scopes[k].update(
        j,
        (e.scopes[k][j].0, b),
    ));
    assert(env_put(e1, at, b).scopes =~= env_put(e, at, b).scopes);
    assert(e.scopes[k].update(j, (e.scopes[k][j].0, e.scopes[k][j].1)) =~= e.scopes[k]);
    assert(env_put(e, at, env_slot(e, at)).scopes =~= e.scopes);
}

/// A mutable borrow is refused while the variable is borrowed in any way, and a
/// shared borrow while it is borrowed mutably; a variable that holds a value is
/// granted a mutable borrow when it is not borrowed, and a shared one when it is
/// not borrowed mutably (up to `usize::MAX` shared borrows).
pub proof fn law_borrows_refused_while_borrowed(e: SEnv, var: Seq<char>)
    requires
        env_find(e, var) is Some,
    ensures
        ({
            let sl = env_slot(e, env_find(e, var)->0);
            &&& (sl.immut > 0 || sl.mut_) ==> s_acquire(e, var, Mutability::Mut) is Err
            &&& sl.mut_ ==> s_acquire(e, var, Mutability::Imm) is Err
            &&& (sl.value is Some && sl.immut == 0 && !sl.mut_) ==> s_acquire(e, var, Mutability::Mut) is Ok
            &&& (sl.value is Some && !sl.mut_ && sl.immut < usize::MAX) ==> s_acquire(e, var, Mutability::Imm) is Ok
            &&& sl.value is None ==> s_acquire(e, var, Mutability::Imm) is Err && s_acquire(
                e,
                var,
                Mutability::Mut,
            ) is Err
        }),
{
}

/// A variable cannot be assigned while it is borrowed.
pub proof fn law_no_assign_while_borrowed(e: SEnv, var: Seq<char>, v: SValue)
    requires
        env_find(e, var) is Some,
        env_slot(e, env_find(e, var)->0).immut > 0 || env_slot(e, env_find(e, var)->0).mut_,
    ensures
        s_assign(e, var, v) is Err,
{
}

/// Taking a borrow and giving it back leaves every variable as it was; only the
/// log of borrows remembers it.
pub proof fn law_release_undoes_acquire(e: SEnv, var: Seq<char>, m: Mutability)
    requires
        env_ok(e),
    ensures
        s_acquire(e, var, m) matches Ok(e2) ==> (s_release(e2, SRef::Var(var), m) matches Ok(e3)
            && e3.scopes == e.scopes),
{
    if s_acquire(e, var, m) is Err {
        return;
    }
    let at = env_find(e, var)->0;
    let sl = env_slot(e, at);
    let e2 = match s_acquire(e, var, m) {
        Ok(x) => x,
        Err(_) => e,
    };
    lemma_find_in_range(e, var);
    let bumped = match m {
        Mutability::Imm => SSlot { immut: (sl.immut + 1) as usize, ..sl },
        Mutability::Mut => SSlot { mut_: true, ..sl },
    };
    let e1 = env_put(e, at, bumped);
    assert(e2.scopes == e1.scopes);
    lemma_find_same_names(e, at, bumped, var);
    lemma_put_put(e, at, bumped, sl);
    assert(env_put(e1, at, sl).scopes == e.scopes);
}

/// Every borrow operation keeps the environment ready for use: in particular no
/// variable ever ends up borrowed mutably and immutably at once.
pub proof fn law_borrow_ops_keep_exclusive(e: SEnv, var: Seq<char>, t: SRef, m: Mutability, v: SValue)
    requires
        env_ok(e),
    ensures
        s_acquire(e, var, m) matches Ok(e2) ==> env_ok(e2),
        s_release(e, t, m) matches Ok(e2) ==> env_ok(e2),
        s_assign(e, var, v) matches Ok(e2) ==> env_ok(e2),
        env_ok(s_define(e, var, v)),
{
    lemma_define_exclusive(e, var, v);
    if env_find(e, var) is Some {
        lemma_find_in_range(e, var);
        let at = env_find(e, var)->0;
        let sl = env_slot(e, at);
        assert(slot_exclusive(e.scopes[at.0][at.1].1));
        lemma_put_exclusive(e, at, SSlot { value: Some(v), ..sl });
        if !sl.mut_ {
            lemma_put_exclusive(e, at, SSlot { immut: (sl.immut + 1) as usize, ..sl });
        }
        if !sl.mut_ && sl.immut == 0 {
            lemma_put_exclusive(e, at, SSlot { mut_: true, ..sl });
        }
    }
    if env_find(e, ref_var(t)) is Some {
        lemma_find_in_range(e, ref_var(t));
        let at = env_find(e, ref_var(t))->0;
        let sl = env_slot(e, at);
        assert(slot_exclusive(e.scopes[at.0][at.1].1));
        if sl.immut > 0 {
            lemma_put_exclusive(e, at, SSlot { immut: (sl.immut - 1) as usize, ..sl });
        }
        lemma_put_exclusive(e, at, SSlot { mut_: false, ..sl });
    }
}

/// A variable defined in a scope of its own is gone when the scope ends: the
/// environment is the one before.
pub proof fn law_scope_drops_its_variables(e: SEnv, name: Seq<char>, v: SValue)
    requires
        env_ok(e),
    ensures
        s_pop_scope(s_define(s_push_scope(e), name, v)) == Ok::<SEnv, SpecError>(e),
{
    let e1 = s_define(s_push_scope(e), name, v);
    let l = e1.log.last();
    assert(l =~= Seq::<(SRef, Mutability)>::empty());
    assert(e1.log.drop_last() =~= e.log);
    assert(e1.scopes.drop_last() =~= e.scopes);
}

/// What `env_find` finds is a slot of the environment, with the name.
pub proof fn lemma_find_in_range(e: SEnv, name: Seq<char>)
    ensures
        env_find(e, name) matches Some(at) ==> 0 <= at.0 < e.scopes.len() && 0 <= at.1 < e.scopes[at.0].len()
            && e.scopes[at.0][at.1].0 == name,
{
    lemma_find_from_in_range(e.scopes, name, e.scopes.len() - 1);
}

proof fn lemma_find_from_in_range(scopes: Seq<SScope>, name: Seq<char>, k: int)
    ensures
        find_from(scopes, name, k) matches Some(at) ==> 0 <= at.0 <= k && at.0 < scopes.len() && 0 <= at.1
            < scopes[at.0].len() && scopes[at.0][at.1].0 == name,
    decreases k + 1,
{
    if 0 <= k < scopes.len() {
        lemma_scope_find(scopes[k], name, 0);
        lemma_find_from_in_range(scopes, name, k - 1);
    }
}

/// Changing a slot keeps every name where it was.
pub proof fn lemma_find_same_names(e: SEnv, at: (int, int), sl: SSlot, name: Seq<char>)
    requires
        0 <= at.0 < e.scopes.len(),
        0 <= at.1 < e.scopes[at.0].len(),
    ensures
        env_find(env_put(e, at, sl), name) == env_find(e, name),
{
    let e2 = env_put(e, at, sl);
    assert forall|k: int| 0 <= k < e.scopes.len() implies #[trigger] scope_names(e2.scopes[k]) == scope_names(
        e.scopes[k],
    ) by {
        assert(scope_names(e2.scopes[k]) =~= scope_names(e.scopes[k]));
    }
    lemma_find_from_names(e.scopes, e2.scopes, name, e.scopes.len() - 1);
}

pub open spec fn scope_names(sc: SScope) -> Seq<Seq<char>> {
    Seq::new(sc.len(), |j: int| sc[j].0)
}

proof fn lemma_scope_find_names(a: SScope, b: SScope, name: Seq<char>, i: int)
    requires
        scope_names(a) == scope_names(b),
    ensures
        scope_find(a, name, i) == scope_find(b, name, i),
    decreases a.len() - i,
{
    assert(a.len() == scope_names(a).len());
    if 0 <= i < a.len() {
        assert(scope_names(a)[i] == scope_names(b)[i]);
        lemma_scope_find_names(a, b, name, i + 1);
    }
}

proof fn lemma_find_from_names(a: Seq<SScope>, b: Seq<SScope>, name: Seq<char>, k: int)
    requires
        a.len() == b.len(),
        forall|j: int| 0 <= j < a.len() ==> #[trigger] scope_names(b[j]) == scope_names(a[j]),
    ensures
        find_from(b, name, k) == find_from(a, name, k),
    decreases k + 1,
{
    if 0 <= k < a.len() {
        assert(scope_names(b[k]) == scope_names(a[k]));
        lemma_scope_find_names(a[k], b[k], name, 0);
        lemma_find_from_names(a, b, name, k - 1);
    }
}

/// Rewriting the slot found for a name keeps it found there.
pub proof fn lemma_scope_find_update(sc: SScope, name: Seq<char>, j: int, x: (Seq<char>, SSlot), i: int)
    requires
        0 <= i <= j,
        scope_find(sc, name, i) == Some(j),
        x.0 == name,
    ensures
        scope_find(sc.update(j, x), name, i) == Some(j),
    decreases j - i,
{
    lemma_scope_find(sc, name, i);
    if i < j {
        assert(sc[i].0 != name);
        lemma_scope_find_update(sc, name, j, x, i + 1);
    }
}

/// A name pushed to a scope that lacks it is found at the end.
pub proof fn lemma_scope_find_push(sc: SScope, name: Seq<char>, x: (Seq<char>, SSlot), i: int)
    requires
        0 <= i <= sc.len(),
        scope_find(sc, name, i) is None,
        x.0 == name,
    ensures
        scope_find(sc.push(x), name, i) == Some(sc.len() as int),
    decreases sc.len() - i,
{
    if i < sc.len() {
        lemma_scope_find_push(sc, name, x, i + 1);
    }
}

/// After `let name = v`, the name is found in the innermost scope, holding `v`
/// with no borrow.
pub proof fn lemma_define_found(e: SEnv, name: Seq<char>, v: SValue)
    requires
        env_ok(e),
    ensures
        env_find(s_define(e, name, v), name) matches Some(at) && env_slot(s_define(e, name, v), at) == fresh_slot(v),
{
    let k = e.scopes.len() - 1;
    let top = e.scopes[k];
    let e2 = s_define(e, name, v);
    lemma_scope_find(top, name, 0);
    match scope_find(top, name, 0) {
        Some(j) => {
            lemma_scope_find_update(top, name, j, (name, fresh_slot(v)), 0);
            assert(e2.scopes[k] == top.update(j, (name, fresh_slot(v))));
        },
        None => {
            lemma_scope_find_push(top, name, (name, fresh_slot(v)), 0);
            assert(e2.scopes[k] == top.push((name, fresh_slot(v))));
        },
    }
}

/// After an assignment that is not refused, the variable holds the new value.
pub proof fn lemma_assign_found(e: SEnv, name: Seq<char>, v: SValue)
    ensures
        s_assign(e, name, v) matches Ok(e2) ==> (env_find(e2, name) matches Some(at) && env_slot(e2, at).value
            == Some(v)),
{
    if let Some(at) = env_find(e, name) {
        lemma_find_in_range(e, name);
        let sl = env_slot(e, at);
        if !(sl.immut > 0 || sl.mut_) {
            lemma_find_same_names(e, at, SSlot { value: Some(v), ..sl }, name);
        }
    }
}

} // verus!
