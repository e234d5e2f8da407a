//! Rendering of bytes and strings as the standard formatting machinery writes
//! them, for the human-readable forms of the library's values.

use vstd::prelude::*;

verus! {

/// The decimal digit for a value below 10.
pub open spec fn decimal_digit(n: nat) -> char {
    (('0' as nat) + n) as char
}

/// The decimal rendering of a natural number, without leading zeros.
pub open spec fn decimal(n: nat) -> Seq<char>
    decreases n,
{
    if n < 10 {
        seq![decimal_digit(n)]
    } else {
        decimal(n / 10) + seq![decimal_digit(n % 10)]
    }
}

/// The one-character string of a decimal digit.
fn digit_str(d: u8) -> (res: &'static str)
    requires
        d < 10,
    ensures
        res@ == seq![decimal_digit(d as nat)],
{
    match d {
        0 => { proof { reveal_strlit("0"); } "0" },
        1 => { proof { reveal_strlit("1"); } "1" },
        2 => { proof { reveal_strlit("2"); } "2" },
        3 => { proof { reveal_strlit("3"); } "3" },
        4 => { proof { reveal_strlit("4"); } "4" },
        5 => { proof { reveal_strlit("5"); } "5" },
        6 => { proof { reveal_strlit("6"); } "6" },
        7 => { proof { reveal_strlit("7"); } "7" },
        8 => { proof { reveal_strlit("8"); } "8" },
        _ => { proof { reveal_strlit("9"); } "9" },
    }
}

/// A byte as `format!("{:?}", n)` writes it: its decimal rendering.
pub fn u8_debug(n: u8) -> (res: String)
    ensures
        res@ == decimal(n as nat),
{
    proof {
        reveal_with_fuel(decimal, 3);
    }
    if n < 10 {
        String::from_str(digit_str(n))
    } else if n < 100 {
        let mut res = String::from_str(digit_str(n / 10));
        res.append(digit_str(n % 10));
        res
    } else {
        let mut res = String::from_str(digit_str(n / 100));
        res.append(digit_str(n / 10 % 10));
        res.append(digit_str(n % 10));
        assert(n as nat / 10 / 10 == n as nat / 100);
        res
    }
}

pub open spec fn is_ascii_alphanumeric(c: char) -> bool {
    ('a' <= c && c <= 'z') || ('A' <= c && c <= 'Z') || ('0' <= c && c <= '9')
}

/// What `format!("{:?}", s)` writes for a string: the string in double quotes,
/// with quotes, backslashes and unprintable characters escaped.
pub uninterp spec fn debug_quoted(s: Seq<char>) -> Seq<char>;

/// `format!("{:?}", s)` on a `str`. Claimed: the result is [`debug_quoted`] of
/// the string, and a string of ASCII letters and digits is written between
/// double quotes with nothing escaped, as `str::escape_debug` documents.
#[verifier::external_body]
pub fn debug_str(s: &str) -> (res: String)
    ensures
        res@ == debug_quoted(s@),
        (forall|i: int| 0 <= i < s@.len() ==> is_ascii_alphanumeric(#[trigger] s@[i]))
            ==> res@ == seq!['"'] + s@ + seq!['"'],
{
    format!("{:?}", s)
}

/// What `String::from_utf8_lossy` makes of bytes: the text they encode, with
/// each invalid sequence replaced by U+FFFD.
pub uninterp spec fn utf8_lossy_text(bytes: Seq<u8>) -> Seq<char>;

/// `String::from_utf8_lossy`, taken into an owned `String`. Claimed: the result
/// is [`utf8_lossy_text`] of the bytes, and ASCII bytes come out as the same
/// characters (valid UTF-8 is kept as it is, as the function documents).
#[verifier::external_body]
pub fn utf8_lossy(bytes: &[u8]) -> (res: String)
    ensures
        res@ == utf8_lossy_text(bytes@),
        (forall|i: int| 0 <= i < bytes@.len() ==> #[trigger] bytes@[i] < 128)
            ==> res@ == bytes@.map_values(|b: u8| b as char),
{
    String::from_utf8_lossy(bytes).into_owned()
}

} // verus!
