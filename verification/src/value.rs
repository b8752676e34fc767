use vstd::prelude::*;
use vstd::string::StringExecFns;

use crate::error::{LangError, SpecError};
use crate::text::cat2;

verus! {

#[derive(Debug, Clone, Copy, PartialEq, Eq, Structural)]
pub enum Mutability {
    Imm,
    Mut,
}

/// What a reference points at: a variable, or an element of a vector variable.
#[derive(Debug)]
pub enum RefTarget {
    Local(String),
    VecElem { base: String, index: usize },
}

/// A value held by an [`crate::env::Env`].
#[derive(Debug)]
pub enum Value {
    Int(i64),
    Bool(bool),
    Str(String),
    Vec(Vec<Value>),
    Unit,
    Ref(RefTarget, Mutability),
}

/// The model of a [`RefTarget`].
pub enum NRef {
    Local(Seq<char>),
    VecElem { base: Seq<char>, index: usize },
}

/// The model of a [`Value`].
pub enum NValue {
    Int(i64),
    Bool(bool),
    Str(Seq<char>),
    Vec(Seq<NValue>),
    Unit,
    Ref(NRef, Mutability),
}

impl View for RefTarget {
    type V = NRef;

    open spec fn view(&self) -> NRef {
        match self {
            RefTarget::Local(n) => NRef::Local(n@),
            RefTarget::VecElem { base, index } => NRef::VecElem { base: base@, index: *index },
        }
    }
}

pub open spec fn nvalue_view(v: Value) -> NValue
    decreases v,
{
    match v {
        Value::Int(n) => NValue::Int(n),
        Value::Bool(b) => NValue::Bool(b),
        Value::Str(s) => NValue::Str(s@),
        Value::Vec(xs) => NValue::Vec(nvalues_view(xs@)),
        Value::Unit => NValue::Unit,
        Value::Ref(t, m) => NValue::Ref(t@, m),
    }
}

pub open spec fn nvalues_view(s: Seq<Value>) -> Seq<NValue>
    decreases s,
{
    Seq::new(s.len(), |i: int| if 0 <= i < s.len() { nvalue_view(s[i]) } else { NValue::Unit })
}

impl View for Value {
    type V = NValue;

    open spec fn view(&self) -> NValue {
        nvalue_view(*self)
    }
}

pub proof fn lemma_nvalues_push(s: Seq<Value>, x: Value)
    ensures
        nvalues_view(s.push(x)) == nvalues_view(s).push(x@),
        nvalues_view(Seq::<Value>::empty()) == Seq::<NValue>::empty(),
{
    assert(nvalues_view(s.push(x)) =~= nvalues_view(s).push(x@));
    assert(nvalues_view(Seq::<Value>::empty()) =~= Seq::<NValue>::empty());
}

pub proof fn lemma_nvalues_update(s: Seq<Value>, i: int, x: Value)
    requires
        0 <= i < s.len(),
    ensures
        nvalues_view(s.update(i, x)) == nvalues_view(s).update(i, x@),
{
    assert(nvalues_view(s.update(i, x)) =~= nvalues_view(s).update(i, x@));
}

/// An integer read as an index: it may not be negative.
pub open spec fn index_of(v: NValue, what: Seq<char>) -> Result<usize, SpecError> {
    match v {
        NValue::Int(n) => if n < 0 {
            Err(SpecError::Runtime(what + " must be >= 0"@))
        } else {
            Ok(n as usize)
        },
        _ => Err(SpecError::Runtime("Expected number"@)),
    }
}

impl RefTarget {
    pub fn copy(&self) -> (r: RefTarget)
        ensures
            r@ == self@,
    {
        match self {
            RefTarget::Local(n) => RefTarget::Local(n.clone()),
            RefTarget::VecElem { base, index } => RefTarget::VecElem { base: base.clone(), index: *index },
        }
    }
}

impl Value {
    /// Whether the value is copied, not moved, when it is loaded.
    pub fn is_copy(&self) -> (r: bool)
        ensures
            r == (self@ is Int || self@ is Bool),
    {
        match self {
            Value::Int(_) | Value::Bool(_) => true,
            _ => false,
        }
    }

    /// The integer, or an error for any other value.
    pub fn as_num(&self) -> (r: Result<i64, LangError>)
        ensures
            match self@ {
                NValue::Int(n) => r == Ok::<i64, LangError>(n),
                _ => r matches Err(e) && e@ == SpecError::Runtime("Expected number"@),
            },
    {
        match self {
            Value::Int(n) => Ok(*n),
            _ => Err(LangError::Runtime(String::from_str("Expected number"))),
        }
    }

    /// The boolean, or an error for any other value.
    pub fn truthy(&self) -> (r: Result<bool, LangError>)
        ensures
            match self@ {
                NValue::Bool(b) => r == Ok::<bool, LangError>(b),
                _ => r matches Err(e) && e@ == SpecError::Runtime("Condition must be bool"@),
            },
    {
        match self {
            Value::Bool(b) => Ok(*b),
            _ => Err(LangError::Runtime(String::from_str("Condition must be bool"))),
        }
    }

    /// The value as an index; `what` names it in the error.
    pub fn to_index_usize(&self, what: &str) -> (r: Result<usize, LangError>)
        ensures
            match index_of(self@, what@) {
                Ok(i) => r == Ok::<usize, LangError>(i),
                Err(e) => r matches Err(x) && x@ == e,
            },
    {
        let n = self.as_num()?;
        if n < 0 {
            return Err(LangError::Runtime(cat2(what, " must be >= 0")));
        }
        Ok(n as usize)
    }

    /// A copy of the value, vectors copied element by element.
    pub fn deep_clone(&self) -> (r: Value)
        ensures
            r@ == self@,
        decreases self,
    {
        match self {
            Value::Int(n) => Value::Int(*n),
            Value::Bool(b) => Value::Bool(*b),
            Value::Str(s) => Value::Str(s.clone()),
            Value::Unit => Value::Unit,
            Value::Ref(t, m) => Value::Ref(t.copy(), *m),
            Value::Vec(xs) => {
                let mut out: Vec<Value> = Vec::new();
                let mut i: usize = 0;
                proof {
                    lemma_nvalues_push(Seq::empty(), Value::Unit);
                }
                while i < xs.len()
                    invariant
                        i <= xs.len(),
                        *self == Value::Vec(*xs),
                        nvalues_view(out@) == nvalues_view(xs@).subrange(0, i as int),
                    decreases xs.len() - i,
                {
                    proof {
                        let v = *self;
                        assert(v matches Value::Vec(ys) && ys == *xs);
                        assert(decreases_to!(v => v->Vec_0));
                        vstd::std_specs::vec::axiom_vec_index_decreases(*xs, i as int);
                        assert(decreases_to!(*self => xs@[i as int]));
                    }
                    let c = xs[i].deep_clone();
                    proof {
                        lemma_nvalues_push(out@, c);
                        assert(nvalues_view(xs@).subrange(0, i + 1) =~= nvalues_view(xs@).subrange(
                            0,
                            i as int,
                        ).push(c@));
                    }
                    out.push(c);
                    i += 1;
                }
                proof {
                    assert(nvalues_view(xs@).subrange(0, xs.len() as int) =~= nvalues_view(xs@));
                }
                Value::Vec(out)
            },
        }
    }
}

} // verus!
