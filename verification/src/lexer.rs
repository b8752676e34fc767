use vstd::prelude::*;
use vstd::string::StrSliceExecFns;
use vstd::string::StringExecFns;
use vstd::string::StringSliceAdditionalSpecFns;

use crate::error::{LangError, SpecError};
use crate::text::{byte_char, bytes_to_chars, char_of_byte, push_char};
use crate::token::{SpecToken, Token};

verus! {

// ---------------------------------------------------------------------------
// The token grammar, on the bytes of the source text.
// ---------------------------------------------------------------------------

/// White space: blank, newline, carriage return, tab.
pub open spec fn is_ws(b: u8) -> bool {
    b == 32 || b == 10 || b == 13 || b == 9
}

pub open spec fn is_digit(b: u8) -> bool {
    48 <= b <= 57
}

/// A letter or `_`: what an identifier starts with.
pub open spec fn is_ident_start(b: u8) -> bool {
    (97 <= b <= 122) || (65 <= b <= 90) || b == 95
}

pub open spec fn is_ident_char(b: u8) -> bool {
    is_ident_start(b) || is_digit(b)
}

/// The first position at or after `i` that is neither white space nor inside a
/// `//` comment. A comment runs up to and including the next newline; `in_comment`
/// tells whether `i` lies inside one.
pub open spec fn skip_blank(s: Seq<u8>, i: int, in_comment: bool) -> int
    decreases s.len() - i, if in_comment { 0int } else { 1int },
{
    if i < 0 || i >= s.len() {
        i
    } else if in_comment {
        if s[i] == 10 {
            skip_blank(s, i + 1, false)
        } else {
            skip_blank(s, i + 1, true)
        }
    } else if is_ws(s[i]) {
        skip_blank(s, i + 1, false)
    } else if s[i] == 47 && i + 1 < s.len() && s[i + 1] == 47 {
        skip_blank(s, i, true)
    } else {
        i
    }
}

/// The end of the run of digits that starts at `i`.
pub open spec fn digits_end(s: Seq<u8>, i: int) -> int
    decreases s.len() - i,
{
    if 0 <= i < s.len() && is_digit(s[i]) {
        digits_end(s, i + 1)
    } else {
        i
    }
}

/// The end of the run of identifier characters that starts at `i`.
pub open spec fn ident_end(s: Seq<u8>, i: int) -> int
    decreases s.len() - i,
{
    if 0 <= i < s.len() && is_ident_char(s[i]) {
        ident_end(s, i + 1)
    } else {
        i
    }
}

/// The number that a run of decimal digits denotes.
pub open spec fn digits_value(d: Seq<u8>) -> int
    decreases d.len(),
{
    if d.len() == 0 {
        0
    } else {
        digits_value(d.drop_last()) * 10 + (d.last() - 48)
    }
}

/// The token that a word of identifier characters stands for: a keyword, or an identifier.
pub open spec fn keyword_or_ident(w: Seq<char>) -> SpecToken {
    if w == "let"@ {
        SpecToken::Let
    } else if w == "print"@ {
        SpecToken::Print
    } else if w == "fn"@ {
        SpecToken::Fn
    } else if w == "for"@ {
        SpecToken::For
    } else if w == "in"@ {
        SpecToken::In
    } else if w == "return"@ {
        SpecToken::Return
    } else if w == "mut"@ {
        SpecToken::Mut
    } else if w == "if"@ {
        SpecToken::If
    } else if w == "else"@ {
        SpecToken::Else
    } else if w == "true"@ {
        SpecToken::True
    } else if w == "false"@ {
        SpecToken::False
    } else {
        SpecToken::Ident(w)
    }
}

/// What lexing a token gives: the token or the message of a lex error, and the
/// position where the lexer stands afterwards.
pub type LexStep = (Result<SpecToken, Seq<char>>, int);

/// A string literal whose opening quote lies before `i`, with `out` read so far.
pub open spec fn lex_string_from(s: Seq<u8>, i: int, out: Seq<char>) -> LexStep
    decreases s.len() - i,
{
    if i < 0 || i >= s.len() {
        (Err("Unclosed string literal"@), i)
    } else if s[i] == 34 {
        (Ok(SpecToken::Str(out)), i + 1)
    } else if s[i] == 92 {
        if i + 1 >= s.len() {
            (Err("Unclosed escape"@), i + 1)
        } else {
            let n = s[i + 1];
            if n == 110 {
                lex_string_from(s, i + 2, out.push('\n'))
            } else if n == 116 {
                lex_string_from(s, i + 2, out.push('\t'))
            } else if n == 34 {
                lex_string_from(s, i + 2, out.push('"'))
            } else if n == 92 {
                lex_string_from(s, i + 2, out.push('\\'))
            } else {
                (Err("Unknown escape: \\"@.push(byte_char(n))), i + 2)
            }
        }
    } else {
        lex_string_from(s, i + 1, out.push(byte_char(s[i])))
    }
}

/// The message of a number that does not fit in a signed 64-bit integer.
pub open spec fn overflow_message() -> Seq<char> {
    "number too large to fit in target type"@
}

/// An integer literal starting at `i`.
pub open spec fn lex_int_at(s: Seq<u8>, i: int) -> LexStep {
    let e = digits_end(s, i);
    let v = digits_value(s.subrange(i, e));
    if v <= i64::MAX {
        (Ok(SpecToken::Int(v as i64)), e)
    } else {
        (Err(overflow_message()), e)
    }
}

/// A keyword or an identifier starting at `i`.
pub open spec fn lex_word_at(s: Seq<u8>, i: int) -> LexStep {
    let e = ident_end(s, i);
    (Ok(keyword_or_ident(bytes_to_chars(s.subrange(i, e)))), e)
}

/// An operator of one byte, or of two when the next byte is `=`.
pub open spec fn one_or_eq(s: Seq<u8>, i: int, one: SpecToken, two: SpecToken) -> LexStep {
    if i + 1 < s.len() && s[i + 1] == 61 {
        (Ok(two), i + 2)
    } else {
        (Ok(one), i + 1)
    }
}

/// The token that starts at byte `i`, which is neither blank nor the end.
pub open spec fn token_at(s: Seq<u8>, i: int) -> LexStep {
    let c = s[i];
    if c == 40 {
        (Ok(SpecToken::LParen), i + 1)
    } else if c == 41 {
        (Ok(SpecToken::RParen), i + 1)
    } else if c == 91 {
        (Ok(SpecToken::LBracket), i + 1)
    } else if c == 93 {
        (Ok(SpecToken::RBracket), i + 1)
    } else if c == 123 {
        (Ok(SpecToken::LBrace), i + 1)
    } else if c == 125 {
        (Ok(SpecToken::RBrace), i + 1)
    } else if c == 44 {
        (Ok(SpecToken::Comma), i + 1)
    } else if c == 59 {
        (Ok(SpecToken::Semi), i + 1)
    } else if c == 38 {
        (Ok(SpecToken::Amp), i + 1)
    } else if c == 43 {
        (Ok(SpecToken::Plus), i + 1)
    } else if c == 45 {
        (Ok(SpecToken::Minus), i + 1)
    } else if c == 42 {
        (Ok(SpecToken::Star), i + 1)
    } else if c == 47 {
        (Ok(SpecToken::Slash), i + 1)
    } else if c == 37 {
        (Ok(SpecToken::Percent), i + 1)
    } else if c == 61 {
        one_or_eq(s, i, SpecToken::Eq, SpecToken::EqEq)
    } else if c == 33 {
        if i + 1 < s.len() && s[i + 1] == 61 {
            (Ok(SpecToken::NotEq), i + 2)
        } else {
            (Err("Unexpected '!': did you mean '!='?"@), i + 1)
        }
    } else if c == 60 {
        one_or_eq(s, i, SpecToken::Lt, SpecToken::Le)
    } else if c == 62 {
        one_or_eq(s, i, SpecToken::Gt, SpecToken::Ge)
    } else if c == 34 {
        lex_string_from(s, i + 1, Seq::empty())
    } else if is_digit(c) {
        lex_int_at(s, i)
    } else if is_ident_start(c) {
        lex_word_at(s, i)
    } else {
        (Err("Unexpected char: "@.push(byte_char(c))), i)
    }
}

/// The next token of `s` from position `i`: blanks and comments are skipped, and
/// at the end of the input the token is `Eof`.
pub open spec fn spec_next_token(s: Seq<u8>, i: int) -> LexStep {
    let j = skip_blank(s, i, false);
    if j < 0 || j >= s.len() {
        (Ok(SpecToken::Eof), j)
    } else {
        token_at(s, j)
    }
}

/// The model of a lexer's answer.
pub open spec fn lex_answer(r: Result<Token, LangError>, step: LexStep) -> bool {
    match step.0 {
        Ok(t) => r matches Ok(x) && x@ == t,
        Err(m) => r matches Err(e) && e@ == SpecError::Lex(m),
    }
}

// ---------------------------------------------------------------------------
// Facts about the grammar.
// ---------------------------------------------------------------------------

pub proof fn lemma_skip_blank_bounds(s: Seq<u8>, i: int, c: bool)
    requires
        0 <= i,
    ensures
        i <= skip_blank(s, i, c),
        i <= s.len() ==> skip_blank(s, i, c) <= s.len(),
    decreases s.len() - i, if c { 0int } else { 1int },
{
    if i < 0 || i >= s.len() {
    } else if c {
        if s[i] == 10 {
            lemma_skip_blank_bounds(s, i + 1, false);
        } else {
            lemma_skip_blank_bounds(s, i + 1, true);
        }
    } else if is_ws(s[i]) {
        lemma_skip_blank_bounds(s, i + 1, false);
    } else if s[i] == 47 && i + 1 < s.len() && s[i + 1] == 47 {
        lemma_skip_blank_bounds(s, i, true);
    }
}

pub proof fn lemma_digits_end_bounds(s: Seq<u8>, i: int)
    requires
        0 <= i <= s.len(),
    ensures
        i <= digits_end(s, i) <= s.len(),
        forall|k: int| i <= k < digits_end(s, i) ==> is_digit(#[trigger] s[k]),
    decreases s.len() - i,
{
    if 0 <= i < s.len() && is_digit(s[i]) {
        lemma_digits_end_bounds(s, i + 1);
    }
}

pub proof fn lemma_ident_end_bounds(s: Seq<u8>, i: int)
    requires
        0 <= i <= s.len(),
    ensures
        i <= ident_end(s, i) <= s.len(),
    decreases s.len() - i,
{
    if 0 <= i < s.len() && is_ident_char(s[i]) {
        lemma_ident_end_bounds(s, i + 1);
    }
}

pub proof fn lemma_lex_string_bounds(s: Seq<u8>, i: int, out: Seq<char>)
    requires
        0 <= i,
    ensures
        i <= lex_string_from(s, i, out).1,
        i <= s.len() ==> lex_string_from(s, i, out).1 <= s.len(),
        lex_string_from(s, i, out).0 matches Ok(t) ==> t is Str,
    decreases s.len() - i,
{
    if i < 0 || i >= s.len() {
    } else if s[i] == 34 {
    } else if s[i] == 92 {
        if i + 1 < s.len() {
            let n = s[i + 1];
            if n == 110 {
                lemma_lex_string_bounds(s, i + 2, out.push('\n'));
            } else if n == 116 {
                lemma_lex_string_bounds(s, i + 2, out.push('\t'));
            } else if n == 34 {
                lemma_lex_string_bounds(s, i + 2, out.push('"'));
            } else if n == 92 {
                lemma_lex_string_bounds(s, i + 2, out.push('\\'));
            }
        }
    } else {
        lemma_lex_string_bounds(s, i + 1, out.push(byte_char(s[i])));
    }
}

proof fn lemma_ident_end_word(s: Seq<u8>, i: int)
    requires
        0 <= i <= s.len(),
    ensures
        forall|k: int| i <= k < ident_end(s, i) ==> is_ident_char(#[trigger] s[k]),
        ident_end(s, i) < s.len() ==> !is_ident_char(s[ident_end(s, i)]),
    decreases s.len() - i,
{
    if 0 <= i < s.len() && is_ident_char(s[i]) {
        lemma_ident_end_word(s, i + 1);
    }
}

/// A word lexes as a word: where the next token starts with an ASCII letter (of
/// either case) or `_`, lexing succeeds and reads the longest run of letters,
/// digits and `_` from there; the run is its keyword token when it spells a
/// keyword, and an identifier of exactly those characters otherwise.
pub proof fn law_words(s: Seq<u8>, i: int)
    requires
        0 <= i,
        0 <= skip_blank(s, i, false) < s.len(),
        ({
            let c = s[skip_blank(s, i, false)];
            (97 <= c <= 122) || (65 <= c <= 90) || c == 95
        }),
    ensures
        ({
            let j = skip_blank(s, i, false);
            let e = spec_next_token(s, i).1;
            let w = bytes_to_chars(s.subrange(j, e));
            &&& j < e <= s.len()
            &&& forall|k: int|
                j <= k < e ==> (97 <= #[trigger] s[k] <= 122) || (65 <= s[k] <= 90) || (48 <= s[k] <= 57) || s[k] == 95
            &&& e < s.len() ==> !((97 <= s[e] <= 122) || (65 <= s[e] <= 90) || (48 <= s[e] <= 57) || s[e] == 95)
            &&& spec_next_token(s, i).0 matches Ok(t) && {
            &&& w == "let"@ ==> t == SpecToken::Let
            &&& w == "print"@ ==> t == SpecToken::Print
            &&& w == "fn"@ ==> t == SpecToken::Fn
            &&& w == "for"@ ==> t == SpecToken::For
            &&& w == "in"@ ==> t == SpecToken::In
            &&& w == "return"@ ==> t == SpecToken::Return
            &&& w == "mut"@ ==> t == SpecToken::Mut
            &&& w == "if"@ ==> t == SpecToken::If
            &&& w == "else"@ ==> t == SpecToken::Else
            &&& w == "true"@ ==> t == SpecToken::True
            &&& w == "false"@ ==> t == SpecToken::False
            &&& (w != "let"@ && w != "print"@ && w != "fn"@ && w != "for"@ && w != "in"@ && w != "return"@ && w != "mut"@ && w != "if"@ && w != "else"@ && w != "true"@ && w != "false"@) ==> t == SpecToken::Ident(w)
            }
        }),
{
    let j = skip_blank(s, i, false);
    lemma_ident_end_bounds(s, j);
    lemma_ident_end_bounds(s, j + 1);
    lemma_ident_end_word(s, j);
    let e = ident_end(s, j);
    assert(token_at(s, j) == lex_word_at(s, j));
    assert(spec_next_token(s, i) == (Ok::<SpecToken, Seq<char>>(keyword_or_ident(bytes_to_chars(s.subrange(j, e)))), e));
    reveal_strlit("let");
    reveal_strlit("print");
    reveal_strlit("fn");
    reveal_strlit("for");
    reveal_strlit("in");
    reveal_strlit("return");
    reveal_strlit("mut");
    reveal_strlit("if");
    reveal_strlit("else");
    reveal_strlit("true");
    reveal_strlit("false");
    assert("print"@.len() != "let"@.len());
    assert("fn"@.len() != "let"@.len());
    assert("fn"@.len() != "print"@.len());
    assert("for"@[0] != "let"@[0]);
    assert("for"@.len() != "print"@.len());
    assert("for"@.len() != "fn"@.len());
    assert("in"@.len() != "let"@.len());
    assert("in"@.len() != "print"@.len());
    assert("in"@[0] != "fn"@[0]);
    assert("in"@.len() != "for"@.len());
    assert("return"@.len() != "let"@.len());
    assert("return"@.len() != "print"@.len());
    assert("return"@.len() != "fn"@.len());
    assert("return"@.len() != "for"@.len());
    assert("return"@.len() != "in"@.len());
    assert("mut"@[0] != "let"@[0]);
    assert("mut"@.len() != "print"@.len());
    assert("mut"@.len() != "fn"@.len());
    assert("mut"@[0] != "for"@[0]);
    assert("mut"@.len() != "in"@.len());
    assert("mut"@.len() != "return"@.len());
    assert("if"@.len() != "let"@.len());
    assert("if"@.len() != "print"@.len());
    assert("if"@[0] != "fn"@[0]);
    assert("if"@.len() != "for"@.len());
    assert("if"@[1] != "in"@[1]);
    assert("if"@.len() != "return"@.len());
    assert("if"@.len() != "mut"@.len());
    assert("else"@.len() != "let"@.len());
    assert("else"@.len() != "print"@.len());
    assert("else"@.len() != "fn"@.len());
    assert("else"@.len() != "for"@.len());
    assert("else"@.len() != "in"@.len());
    assert("else"@.len() != "return"@.len());
    assert("else"@.len() != "mut"@.len());
    assert("else"@.len() != "if"@.len());
    assert("true"@.len() != "let"@.len());
    assert("true"@.len() != "print"@.len());
    assert("true"@.len() != "fn"@.len());
    assert("true"@.len() != "for"@.len());
    assert("true"@.len() != "in"@.len());
    assert("true"@.len() != "return"@.len());
    assert("true"@.len() != "mut"@.len());
    assert("true"@.len() != "if"@.len());
    assert("true"@[0] != "else"@[0]);
    assert("false"@.len() != "let"@.len());
    assert("false"@[0] != "print"@[0]);
    assert("false"@.len() != "fn"@.len());
    assert("false"@.len() != "for"@.len());
    assert("false"@.len() != "in"@.len());
    assert("false"@.len() != "return"@.len());
    assert("false"@.len() != "mut"@.len());
    assert("false"@.len() != "if"@.len());
    assert("false"@.len() != "else"@.len());
    assert("false"@.len() != "true"@.len());
}

/// Each operator and punctuation mark lexes as its own token: `(` `)` `[` `]` `{`
/// `}` `,` `;` `&` `+` `-` `*` `/` `%` as one byte each; `=` `<` `>` as `Eq`, `Lt`,
/// `Gt`, or followed by `=` as `EqEq`, `Le`, `Ge` over two bytes; `!=` as `NotEq`,
/// and `!` alone is an error. (A `/` that starts `//` begins a comment instead.)
pub proof fn law_operators(s: Seq<u8>, i: int)
    requires
        0 <= i,
        0 <= skip_blank(s, i, false) < s.len(),
    ensures
        ({
            let j = skip_blank(s, i, false);
            let c = s[j];
            let eq_next = j + 1 < s.len() && s[j + 1] == 61;
            &&& c == 40 ==> spec_next_token(s, i) == (Ok::<SpecToken, Seq<char>>(SpecToken::LParen), j + 1)
            &&& c == 41 ==> spec_next_token(s, i) == (Ok::<SpecToken, Seq<char>>(SpecToken::RParen), j + 1)
            &&& c == 91 ==> spec_next_token(s, i) == (Ok::<SpecToken, Seq<char>>(SpecToken::LBracket), j + 1)
            &&& c == 93 ==> spec_next_token(s, i) == (Ok::<SpecToken, Seq<char>>(SpecToken::RBracket), j + 1)
            &&& c == 123 ==> spec_next_token(s, i) == (Ok::<SpecToken, Seq<char>>(SpecToken::LBrace), j + 1)
            &&& c == 125 ==> spec_next_token(s, i) == (Ok::<SpecToken, Seq<char>>(SpecToken::RBrace), j + 1)
            &&& c == 44 ==> spec_next_token(s, i) == (Ok::<SpecToken, Seq<char>>(SpecToken::Comma), j + 1)
            &&& c == 59 ==> spec_next_token(s, i) == (Ok::<SpecToken, Seq<char>>(SpecToken::Semi), j + 1)
            &&& c == 38 ==> spec_next_token(s, i) == (Ok::<SpecToken, Seq<char>>(SpecToken::Amp), j + 1)
            &&& c == 43 ==> spec_next_token(s, i) == (Ok::<SpecToken, Seq<char>>(SpecToken::Plus), j + 1)
            &&& c == 45 ==> spec_next_token(s, i) == (Ok::<SpecToken, Seq<char>>(SpecToken::Minus), j + 1)
            &&& c == 42 ==> spec_next_token(s, i) == (Ok::<SpecToken, Seq<char>>(SpecToken::Star), j + 1)
            &&& c == 47 ==> spec_next_token(s, i) == (Ok::<SpecToken, Seq<char>>(SpecToken::Slash), j + 1)
            &&& c == 37 ==> spec_next_token(s, i) == (Ok::<SpecToken, Seq<char>>(SpecToken::Percent), j + 1)
            &&& (c == 61 && eq_next) ==> spec_next_token(s, i) == (Ok::<SpecToken, Seq<char>>(SpecToken::EqEq), j + 2)
            &&& (c == 61 && !eq_next) ==> spec_next_token(s, i) == (Ok::<SpecToken, Seq<char>>(SpecToken::Eq), j + 1)
            &&& (c == 60 && eq_next) ==> spec_next_token(s, i) == (Ok::<SpecToken, Seq<char>>(SpecToken::Le), j + 2)
            &&& (c == 60 && !eq_next) ==> spec_next_token(s, i) == (Ok::<SpecToken, Seq<char>>(SpecToken::Lt), j + 1)
            &&& (c == 62 && eq_next) ==> spec_next_token(s, i) == (Ok::<SpecToken, Seq<char>>(SpecToken::Ge), j + 2)
            &&& (c == 62 && !eq_next) ==> spec_next_token(s, i) == (Ok::<SpecToken, Seq<char>>(SpecToken::Gt), j + 1)
            &&& (c == 33 && eq_next) ==> spec_next_token(s, i) == (Ok::<SpecToken, Seq<char>>(SpecToken::NotEq), j + 2)
            &&& (c == 33 && !eq_next) ==> spec_next_token(s, i).0 is Err
        }),
{
}

/// A number lexes as its value: where the next token starts with a decimal digit,
/// the lexer reads the longest run of digits from there, and gives `Int` of the
/// number they spell in base ten when it fits in an `i64`, and an error otherwise.
pub proof fn law_numbers(s: Seq<u8>, i: int)
    requires
        0 <= i,
        0 <= skip_blank(s, i, false) < s.len(),
        48 <= s[skip_blank(s, i, false)] <= 57,
    ensures
        ({
            let j = skip_blank(s, i, false);
            let e = spec_next_token(s, i).1;
            let v = digits_value(s.subrange(j, e));
            &&& j < e <= s.len()
            &&& forall|k: int| j <= k < e ==> 48 <= #[trigger] s[k] <= 57
            &&& e < s.len() ==> !(48 <= s[e] <= 57)
            &&& v <= i64::MAX ==> spec_next_token(s, i).0 == Ok::<SpecToken, Seq<char>>(SpecToken::Int(v as i64))
            &&& v > i64::MAX ==> spec_next_token(s, i).0 is Err
        }),
{
    let j = skip_blank(s, i, false);
    lemma_digits_end_bounds(s, j);
    lemma_digits_end_bounds(s, j + 1);
    lemma_digits_end_max(s, j);
}

proof fn lemma_digits_end_max(s: Seq<u8>, i: int)
    requires
        0 <= i <= s.len(),
    ensures
        digits_end(s, i) < s.len() ==> !is_digit(s[digits_end(s, i)]),
    decreases s.len() - i,
{
    if i < s.len() && is_digit(s[i]) {
        lemma_digits_end_max(s, i + 1);
    }
}

/// The base-ten value of digits: no digits spell zero, and one more digit `d`
/// after digits of value `v` spells `10 * v + d`.
pub proof fn law_digits_value(d: Seq<u8>, b: u8)
    requires
        48 <= b <= 57,
    ensures
        digits_value(Seq::empty()) == 0,
        digits_value(d.push(b)) == 10 * digits_value(d) + (b - 48),
{
    assert(d.push(b).drop_last() =~= d);
}

proof fn lemma_plain_string(s: Seq<u8>, k: int, q: int, out: Seq<char>)
    requires
        0 <= k <= q < s.len(),
        s[q] == 34,
        forall|m: int| k <= m < q ==> #[trigger] s[m] != 34 && s[m] != 92,
    ensures
        lex_string_from(s, k, out) == (
            Ok::<SpecToken, Seq<char>>(SpecToken::Str(out + bytes_to_chars(s.subrange(k, q)))),
            q + 1,
        ),
    decreases q - k,
{
    if k < q {
        lemma_plain_string(s, k + 1, q, out.push(byte_char(s[k])));
        assert(out.push(byte_char(s[k])) + bytes_to_chars(s.subrange(k + 1, q)) =~= out + bytes_to_chars(
            s.subrange(k, q),
        ));
    } else {
        assert(out + bytes_to_chars(s.subrange(k, q)) =~= out);
    }
}

/// A string literal without escapes lexes as the text between its quotes: where
/// the next token starts with `"` and the next `"` comes before any `\`, the
/// token is `Str` of the bytes in between, and the lexer stands after the closing
/// quote. The escapes `\n`, `\t`, `\"` and `\\` stand for a newline, a tab, a
/// quote and a backslash.
pub proof fn law_strings(s: Seq<u8>, i: int, q: int, k: int, out: Seq<char>)
    requires
        0 <= i,
        0 <= skip_blank(s, i, false) < q < s.len(),
        s[skip_blank(s, i, false)] == 34,
        s[q] == 34,
        forall|m: int| skip_blank(s, i, false) < m < q ==> #[trigger] s[m] != 34 && s[m] != 92,
    ensures
        spec_next_token(s, i) == (
            Ok::<SpecToken, Seq<char>>(SpecToken::Str(bytes_to_chars(s.subrange(skip_blank(s, i, false) + 1, q)))),
            q + 1,
        ),
        (0 <= k && k + 1 < s.len() && s[k] == 92 && s[k + 1] == 110) ==> lex_string_from(s, k, out)
            == lex_string_from(s, k + 2, out.push('\n')),
        (0 <= k && k + 1 < s.len() && s[k] == 92 && s[k + 1] == 116) ==> lex_string_from(s, k, out)
            == lex_string_from(s, k + 2, out.push('\t')),
        (0 <= k && k + 1 < s.len() && s[k] == 92 && s[k + 1] == 34) ==> lex_string_from(s, k, out)
            == lex_string_from(s, k + 2, out.push('"')),
        (0 <= k && k + 1 < s.len() && s[k] == 92 && s[k + 1] == 92) ==> lex_string_from(s, k, out)
            == lex_string_from(s, k + 2, out.push('\\')),
{
    let j = skip_blank(s, i, false);
    lemma_plain_string(s, j + 1, q, Seq::empty());
    assert(Seq::<char>::empty() + bytes_to_chars(s.subrange(j + 1, q)) =~= bytes_to_chars(s.subrange(j + 1, q)));
}

/// The lexer moves forward and stays within the input; it gives `Eof` only at the end
/// of the input, and any other token takes at least one byte.
pub proof fn law_lexing_progresses(s: Seq<u8>, i: int)
    requires
        0 <= i,
    ensures
        i <= spec_next_token(s, i).1,
        i <= s.len() ==> spec_next_token(s, i).1 <= s.len(),
        spec_next_token(s, i).0 matches Ok(t) && t != SpecToken::Eof ==> i < spec_next_token(s, i).1,
        spec_next_token(s, i).0 == Ok::<SpecToken, Seq<char>>(SpecToken::Eof) ==> spec_next_token(s, i).1 == (
        if i <= s.len() { s.len() as int } else { i }),
{
    lemma_skip_blank_bounds(s, i, false);
    let j = skip_blank(s, i, false);
    if j < s.len() {
        let c = s[j];
        if c == 34 {
            lemma_lex_string_bounds(s, j + 1, Seq::empty());
        } else if is_digit(c) {
            lemma_digits_end_bounds(s, j);
            lemma_digits_end_bounds(s, j + 1);
        } else if is_ident_start(c) {
            lemma_ident_end_bounds(s, j);
            lemma_ident_end_bounds(s, j + 1);
        }
    }
}

/// Skipping blanks stops at the end of the input or at a byte that starts no
/// blank.
proof fn lemma_skip_blank_stops(s: Seq<u8>, i: int, in_comment: bool)
    ensures
        ({
            let j = skip_blank(s, i, in_comment);
            j < 0 || j >= s.len() || (!is_ws(s[j]) && !(s[j] == 47 && j + 1 < s.len() && s[j + 1] == 47))
        }),
    decreases s.len() - i, if in_comment { 0int } else { 1int },
{
    if 0 <= i < s.len() {
        if in_comment {
            if s[i] == 10 {
                lemma_skip_blank_stops(s, i + 1, false);
            } else {
                lemma_skip_blank_stops(s, i + 1, true);
            }
        } else if is_ws(s[i]) {
            lemma_skip_blank_stops(s, i + 1, false);
        } else if s[i] == 47 && i + 1 < s.len() && s[i + 1] == 47 {
            lemma_skip_blank_stops(s, i, true);
        }
    }
}

/// Skipping blanks is idempotent: skipping again from where it stopped stays there.
pub proof fn law_skip_is_idempotent(s: Seq<u8>, i: int)
    ensures
        skip_blank(s, skip_blank(s, i, false), false) == skip_blank(s, i, false),
{
    lemma_skip_blank_stops(s, i, false);
}

/// A lex error with the given message.
pub fn lex_error(msg: &str) -> (e: LangError)
    ensures
        e@ == SpecError::Lex(msg@),
{
    LangError::Lex(String::from_str(msg))
}

// ---------------------------------------------------------------------------
// The lexer.
// ---------------------------------------------------------------------------

/// Turns the bytes of a source text into tokens, one at a time.
pub struct Lexer<'a> {
    input: &'a [u8],
    i: usize,
}

impl<'a> Lexer<'a> {
    /// The bytes that the lexer reads.
    pub closed spec fn bytes(&self) -> Seq<u8> {
        self.input@
    }

    /// The position of the next byte to read.
    pub closed spec fn pos(&self) -> int {
        self.i as int
    }

    pub open spec fn wf(&self) -> bool {
        0 <= self.pos() <= self.bytes().len()
    }

    /// A lexer at the start of `input`.
    pub fn new(input: &'a str) -> (l: Self)
        ensures
            l.bytes() == input.spec_bytes(),
            l.pos() == 0,
            l.wf(),
    {
        Lexer { input: input.as_bytes(), i: 0 }
    }

    /// The byte at the current position, if any.
    pub fn peek(&self) -> (r: Option<u8>)
        ensures
            r == (if 0 <= self.pos() < self.bytes().len() {
                Some(self.bytes()[self.pos()])
            } else {
                None
            }),
    {
        if self.i < self.input.len() {
            Some(self.input[self.i])
        } else {
            None
        }
    }

    /// Reads the byte at the current position, if any, and moves past it.
    pub fn bump(&mut self) -> (r: Option<u8>)
        requires
            old(self).wf(),
        ensures
            final(self).wf(),
            final(self).bytes() == old(self).bytes(),
            r == (if old(self).pos() < old(self).bytes().len() {
                Some(old(self).bytes()[old(self).pos()])
            } else {
                None
            }),
            final(self).pos() == (if r is Some { old(self).pos() + 1 } else { old(self).pos() }),
    {
        if self.i < self.input.len() {
            let b = self.input[self.i];
            self.i += 1;
            Some(b)
        } else {
            None
        }
    }

    /// Moves past white space and `//` comments.
    pub fn skip_ws_and_comments(&mut self)
        requires
            old(self).wf(),
        ensures
            final(self).wf(),
            final(self).bytes() == old(self).bytes(),
            final(self).pos() == skip_blank(old(self).bytes(), old(self).pos(), false),
    {
        let ghost s = self.input@;
        let ghost target = skip_blank(s, self.i as int, false);
        loop
            invariant
                self.input@ == s,
                self.i <= s.len(),
                skip_blank(s, self.i as int, false) == target,
            ensures
                self.i == target,
            decreases s.len() - self.i,
        {
            let ghost round_start = self.i;
            while self.i < self.input.len() && (self.input[self.i] == 32 || self.input[self.i] == 10
                || self.input[self.i] == 13 || self.input[self.i] == 9)
                invariant
                    self.input@ == s,
                    round_start <= self.i <= s.len(),
                    skip_blank(s, self.i as int, false) == target,
                decreases s.len() - self.i,
            {
                self.i += 1;
            }
            if self.i < self.input.len() && self.input.len() - self.i > 1 && self.input[self.i]
                == 47 && self.input[self.i + 1] == 47 {
                let ghost start = self.i;
                let mut done = false;
                while !done && self.i < self.input.len()
                    invariant
                        self.input@ == s,
                        start < s.len(),
                        start <= self.i <= s.len(),
                        done ==> start < self.i,
                        skip_blank(s, self.i as int, !done) == target,
                    decreases s.len() - self.i,
                {
                    let c = self.input[self.i];
                    self.i += 1;
                    if c == 10 {
                        done = true;
                    }
                }
                assert(skip_blank(s, self.i as int, false) == target);
                continue ;
            }
            break ;
        }
    }

    /// The string of the bytes from `start` to `end`, each taken as a character.
    fn word_string(&self, start: usize, end: usize) -> (r: String)
        requires
            start <= end <= self.bytes().len(),
        ensures
            r@ == bytes_to_chars(self.bytes().subrange(start as int, end as int)),
    {
        let mut out = String::new();
        let mut k = start;
        while k < end
            invariant
                start <= k <= end <= self.input@.len(),
                out@ == bytes_to_chars(self.input@.subrange(start as int, k as int)),
            decreases end - k,
        {
            push_char(&mut out, char_of_byte(self.input[k]));
            proof {
                assert(self.input@.subrange(start as int, k + 1) == self.input@.subrange(
                    start as int,
                    k as int,
                ).push(self.input@[k as int]));
            }
            k += 1;
        }
        out
    }

    /// Whether the bytes from `start` to `end`, taken as characters, spell `kw`.
    fn word_is(&self, start: usize, end: usize, kw: &str) -> (r: bool)
        requires
            start <= end <= self.bytes().len(),
        ensures
            r == (bytes_to_chars(self.bytes().subrange(start as int, end as int)) == kw@),
    {
        let ghost w = bytes_to_chars(self.input@.subrange(start as int, end as int));
        let n = kw.unicode_len();
        if end - start != n {
            assert(w.len() != kw@.len());
            return false;
        }
        let mut k: usize = 0;
        while k < n
            invariant
                start <= end <= self.input@.len(),
                end - start == n,
                n == kw@.len(),
                w == bytes_to_chars(self.input@.subrange(start as int, end as int)),
                k <= n,
                forall|j: int| 0 <= j < k ==> w[j] == kw@[j],
            decreases n - k,
        {
            if char_of_byte(self.input[start + k]) != kw.get_char(k) {
                assert(w[k as int] != kw@[k as int]);
                return false;
            }
            k += 1;
        }
        assert(w =~= kw@);
        true
    }

    /// Lexes an integer literal: a run of decimal digits.
    fn lex_int(&mut self) -> (r: Result<Token, LangError>)
        requires
            old(self).wf(),
            0 <= old(self).pos() < old(self).bytes().len(),
            is_digit(old(self).bytes()[old(self).pos()]),
        ensures
            final(self).wf(),
            final(self).bytes() == old(self).bytes(),
            lex_answer(r, lex_int_at(old(self).bytes(), old(self).pos())),
            final(self).pos() == lex_int_at(old(self).bytes(), old(self).pos()).1,
    {
        let ghost s = self.input@;
        let start = self.i;
        while self.i < self.input.len() && self.input[self.i] >= 48 && self.input[self.i] <= 57
            invariant
                self.input@ == s,
                start <= self.i <= s.len(),
                digits_end(s, self.i as int) == digits_end(s, start as int),
                forall|k: int| start <= k < self.i ==> is_digit(#[trigger] s[k]),
            decreases s.len() - self.i,
        {
            self.i += 1;
        }
        let end = self.i;
        let mut acc: u64 = 0;
        let mut over = false;
        let mut k = start;
        while k < end
            invariant
                self.input@ == s,
                start <= k <= end <= s.len(),
                forall|j: int| start <= j < end ==> is_digit(#[trigger] s[j]),
                !over ==> acc == digits_value(s.subrange(start as int, k as int)) && acc
                    <= i64::MAX,
                over ==> digits_value(s.subrange(start as int, k as int)) > i64::MAX,
            decreases end - k,
        {
            let d: u64 = (self.input[k] - 48) as u64;
            proof {
                let p = s.subrange(start as int, k + 1);
                assert(p.drop_last() == s.subrange(start as int, k as int));
                assert(digits_value(p) == digits_value(s.subrange(start as int, k as int)) * 10
                    + d);
            }
            if !over {
                let v: u128 = (acc as u128) * 10 + (d as u128);
                if v > 9223372036854775807u128 {
                    over = true;
                } else {
                    acc = v as u64;
                }
            }
            k += 1;
        }
        if over {
            Err(lex_error("number too large to fit in target type"))
        } else {
            Ok(Token::Int(acc as i64))
        }
    }

    /// Lexes a keyword or an identifier.
    fn lex_ident_or_kw(&mut self) -> (r: Result<Token, LangError>)
        requires
            old(self).wf(),
            0 <= old(self).pos() < old(self).bytes().len(),
            is_ident_start(old(self).bytes()[old(self).pos()]),
        ensures
            final(self).wf(),
            final(self).bytes() == old(self).bytes(),
            lex_answer(r, lex_word_at(old(self).bytes(), old(self).pos())),
            final(self).pos() == lex_word_at(old(self).bytes(), old(self).pos()).1,
    {
        let ghost s = self.input@;
        let start = self.i;
        while self.i < self.input.len() && ((self.input[self.i] >= 97 && self.input[self.i]
            <= 122) || (self.input[self.i] >= 65 && self.input[self.i] <= 90)
            || self.input[self.i] == 95 || (self.input[self.i] >= 48 && self.input[self.i]
            <= 57))
            invariant
                self.input@ == s,
                start <= self.i <= s.len(),
                ident_end(s, self.i as int) == ident_end(s, start as int),
            decreases s.len() - self.i,
        {
            self.i += 1;
        }
        let end = self.i;
        let t = if self.word_is(start, end, "let") {
            Token::Let
        } else if self.word_is(start, end, "print") {
            Token::Print
        } else if self.word_is(start, end, "fn") {
            Token::Fn
        } else if self.word_is(start, end, "for") {
            Token::For
        } else if self.word_is(start, end, "in") {
            Token::In
        } else if self.word_is(start, end, "return") {
            Token::Return
        } else if self.word_is(start, end, "mut") {
            Token::Mut
        } else if self.word_is(start, end, "if") {
            Token::If
        } else if self.word_is(start, end, "else") {
            Token::Else
        } else if self.word_is(start, end, "true") {
            Token::True
        } else if self.word_is(start, end, "false") {
            Token::False
        } else {
            Token::Ident(self.word_string(start, end))
        };
        Ok(t)
    }

    /// Lexes a string literal; the lexer stands on its opening quote.
    fn lex_string(&mut self) -> (r: Result<Token, LangError>)
        requires
            old(self).wf(),
            0 <= old(self).pos() < old(self).bytes().len(),
            old(self).bytes()[old(self).pos()] == 34,
        ensures
            final(self).wf(),
            final(self).bytes() == old(self).bytes(),
            lex_answer(r, lex_string_from(old(self).bytes(), old(self).pos() + 1, Seq::empty())),
            final(self).pos() == lex_string_from(
                old(self).bytes(),
                old(self).pos() + 1,
                Seq::empty(),
            ).1,
    {
        let ghost s = self.input@;
        let ghost goal = lex_string_from(s, self.i + 1, Seq::empty());
        self.bump();
        let mut out = String::new();
        loop
            invariant
                self.wf(),
                self.input@ == s,
                s == old(self).bytes(),
                goal == lex_string_from(old(self).bytes(), old(self).pos() + 1, Seq::empty()),
                lex_string_from(s, self.i as int, out@) == goal,
            decreases s.len() - self.i,
        {
            match self.bump() {
                None => {
                    return Err(lex_error("Unclosed string literal"));
                },
                Some(c) => {
                    if c == 34 {
                        return Ok(Token::Str(out));
                    } else if c == 92 {
                        let nxt = match self.bump() {
                            Some(n) => n,
                            None => {
                                return Err(lex_error("Unclosed escape"));
                            },
                        };
                        let ch = if nxt == 110 {
                            '\n'
                        } else if nxt == 116 {
                            '\t'
                        } else if nxt == 34 {
                            '"'
                        } else if nxt == 92 {
                            '\\'
                        } else {
                            let mut m = String::from_str("Unknown escape: \\");
                            push_char(&mut m, char_of_byte(nxt));
                            return Err(LangError::Lex(m));
                        };
                        push_char(&mut out, ch);
                    } else {
                        push_char(&mut out, char_of_byte(c));
                    }
                },
            }
        }
    }

    /// Lexes the next token, after white space and comments; at the end of the
    /// input the token is `Eof`.
    pub fn next_token(&mut self) -> (r: Result<Token, LangError>)
        requires
            old(self).wf(),
        ensures
            final(self).wf(),
            final(self).bytes() == old(self).bytes(),
            lex_answer(r, spec_next_token(old(self).bytes(), old(self).pos())),
            final(self).pos() == spec_next_token(old(self).bytes(), old(self).pos()).1,
    {
        proof {
            lemma_skip_blank_bounds(self.input@, self.i as int, false);
        }
        self.skip_ws_and_comments();
        let c = match self.peek() {
            Some(c) => c,
            None => return Ok(Token::Eof),
        };
        if c == 40 {
            self.bump();
            return Ok(Token::LParen);
        }
        if c == 41 {
            self.bump();
            return Ok(Token::RParen);
        }
        if c == 91 {
            self.bump();
            return Ok(Token::LBracket);
        }
        if c == 93 {
            self.bump();
            return Ok(Token::RBracket);
        }
        if c == 123 {
            self.bump();
            return Ok(Token::LBrace);
        }
        if c == 125 {
            self.bump();
            return Ok(Token::RBrace);
        }
        if c == 44 {
            self.bump();
            return Ok(Token::Comma);
        }
        if c == 59 {
            self.bump();
            return Ok(Token::Semi);
        }
        if c == 38 {
            self.bump();
            return Ok(Token::Amp);
        }
        if c == 43 {
            self.bump();
            return Ok(Token::Plus);
        }
        if c == 45 {
            self.bump();
            return Ok(Token::Minus);
        }
        if c == 42 {
            self.bump();
            return Ok(Token::Star);
        }
        if c == 47 {
            self.bump();
            return Ok(Token::Slash);
        }
        if c == 37 {
            self.bump();
            return Ok(Token::Percent);
        }
        if c == 61 {
            self.bump();
            if self.peek() == Some(61) {
                self.bump();
                return Ok(Token::EqEq);
            } else {
                return Ok(Token::Eq);
            }
        }
        if c == 33 {
            self.bump();
            if self.peek() == Some(61) {
                self.bump();
                return Ok(Token::NotEq);
            } else {
                return Err(lex_error("Unexpected '!': did you mean '!='?"));
            }
        }
        if c == 60 {
            self.bump();
            if self.peek() == Some(61) {
                self.bump();
                return Ok(Token::Le);
            } else {
                return Ok(Token::Lt);
            }
        }
        if c == 62 {
            self.bump();
            if self.peek() == Some(61) {
                self.bump();
                return Ok(Token::Ge);
            } else {
                return Ok(Token::Gt);
            }
        }
        if c == 34 {
            return self.lex_string();
        }
        if c >= 48 && c <= 57 {
            return self.lex_int();
        }
        if (c >= 97 && c <= 122) || (c >= 65 && c <= 90) || c == 95 {
            return self.lex_ident_or_kw();
        }
        let mut m = String::from_str("Unexpected char: ");
        push_char(&mut m, char_of_byte(c));
        Err(LangError::Lex(m))
    }
}

} // verus!
