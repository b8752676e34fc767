use vstd::prelude::*;
use vstd::string::StringExecFns;

verus! {

/// Appends one character to a string.
///
/// Trusted: calls `String::push`, whose documentation says that it appends the
/// character to the end of the string.
#[verifier::external_body]
pub(crate) fn push_char(s: &mut String, c: char)
    ensures
        final(s)@ == old(s)@.push(c),
{
    s.push(c)
}

/// A byte taken as the character with the same number (as `b as char` does).
pub open spec fn byte_char(b: u8) -> char {
    b as char
}

/// Bytes taken one by one as characters.
pub open spec fn bytes_to_chars(s: Seq<u8>) -> Seq<char> {
    s.map_values(|b: u8| byte_char(b))
}

/// The character of a byte.
pub fn char_of_byte(b: u8) -> (c: char)
    ensures
        c == byte_char(b),
{
    b as char
}

/// The decimal digit character of `d`.
pub open spec fn digit_char(d: int) -> char {
    (d + 48) as char
}

/// The decimal notation of a natural number, without leading zeros.
pub open spec fn nat_decimal(n: nat) -> Seq<char>
    decreases n,
{
    if n < 10 {
        seq![digit_char(n as int)]
    } else {
        nat_decimal(n / 10).push(digit_char((n % 10) as int))
    }
}

/// The decimal notation of an integer, with a leading `-` when it is negative.
pub open spec fn int_decimal(n: int) -> Seq<char> {
    if n < 0 {
        seq!['-'] + nat_decimal((-n) as nat)
    } else {
        nat_decimal(n as nat)
    }
}

/// Appends the decimal notation of `n` to `s`.
pub fn push_nat_decimal(s: &mut String, n: u64)
    ensures
        final(s)@ == old(s)@ + nat_decimal(n as nat),
    decreases n,
{
    if n >= 10 {
        push_nat_decimal(s, n / 10);
    }
    let d = (n % 10) as u32;
    let c: char = char_from_digit(d);
    push_char(s, c);
    proof {
        if n >= 10 {
            assert(nat_decimal(n as nat) == nat_decimal((n / 10) as nat).push(digit_char((n % 10) as int)));
        }
    }
}

fn char_from_digit(d: u32) -> (c: char)
    requires
        d < 10,
    ensures
        c == digit_char(d as int),
{
    let b: u8 = (d + 48) as u8;
    b as char
}

/// The decimal notation of a signed 64-bit integer (what `i64::to_string` gives).
pub fn int_to_string(n: i64) -> (r: String)
    ensures
        r@ == int_decimal(n as int),
{
    let mut s = String::new();
    if n < 0 {
        push_char(&mut s, '-');
        let m: u64 = if n == i64::MIN {
            9223372036854775808u64
        } else {
            (-n) as u64
        };
        push_nat_decimal(&mut s, m);
    } else {
        push_nat_decimal(&mut s, n as u64);
    }
    proof {
        if n < 0 {
            assert(s@ =~= seq!['-'] + nat_decimal((-n) as nat));
        } else {
            assert(s@ =~= nat_decimal(n as nat));
        }
    }
    s
}

} // verus!

verus! {

/// What `{:?}` makes of a string: the text in double quotes, with quotes,
/// backslashes and special characters escaped.
pub uninterp spec fn debug_str(s: Seq<char>) -> Seq<char>;

/// The `{:?}` form of a string.
///
/// Trusted: calls the standard library's `Debug` formatting of `str` (through
/// `format!`), whose result depends on the text alone; the contract names that
/// result [`debug_str`] and states nothing else of it.
#[verifier::external_body]
pub(crate) fn str_debug(s: &str) -> (r: String)
    ensures
        r@ == debug_str(s@),
{
    format!("{:?}", s)
}

} // verus!

verus! {

/// `a` followed by `b`.
pub fn cat2(a: &str, b: &str) -> (r: String)
    ensures
        r@ == a@ + b@,
{
    String::from_str(a).concat(b)
}

/// `a`, `b` and `c`, one after the other.
pub fn cat3(a: &str, b: &str, c: &str) -> (r: String)
    ensures
        r@ == a@ + b@ + c@,
{
    String::from_str(a).concat(b).concat(c)
}

} // verus!
