use vstd::string::StringExecFns;
use vstd::prelude::*;

verus! {

/// The three kinds of failure of the language: while lexing, while parsing,
/// and while running a program.
#[derive(Debug)]
pub enum LangError {
    Lex(String),
    Parse(String),
    Runtime(String),
}

/// The mathematical model of a [`LangError`]: its kind and its message.
pub enum SpecError {
    Lex(Seq<char>),
    Parse(Seq<char>),
    Runtime(Seq<char>),
}

impl View for LangError {
    type V = SpecError;

    open spec fn view(&self) -> SpecError {
        match self {
            LangError::Lex(s) => SpecError::Lex(s@),
            LangError::Parse(s) => SpecError::Parse(s@),
            LangError::Runtime(s) => SpecError::Runtime(s@),
        }
    }
}

/// The text under which an error is shown to the user.
pub open spec fn spec_error_text(e: SpecError) -> Seq<char> {
    match e {
        SpecError::Lex(s) => "Lex error: "@ + s,
        SpecError::Parse(s) => "Parse error: "@ + s,
        SpecError::Runtime(s) => "Runtime error: "@ + s,
    }
}

impl LangError {
    /// The text under which the error is shown ("Lex error: ...", and so on).
    pub fn to_message(&self) -> (r: String)
        ensures
            r@ == spec_error_text(self@),
    {
        match self {
            LangError::Lex(s) => String::from_str("Lex error: ").concat(s.as_str()),
            LangError::Parse(s) => String::from_str("Parse error: ").concat(s.as_str()),
            LangError::Runtime(s) => String::from_str("Runtime error: ").concat(s.as_str()),
        }
    }
}

} // verus!

verus! {

/// The model of a result whose error is a [`LangError`].
pub open spec fn res_view<T: View>(r: Result<T, LangError>) -> Result<T::V, SpecError> {
    match r {
        Ok(t) => Ok(t@),
        Err(e) => Err(e@),
    }
}

} // verus!
