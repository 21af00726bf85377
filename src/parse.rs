//! Parsing of text pairs such as `"1000x750"` or `"-1.20,0.35"`: the text is
//! cut at the first separator and each side is parsed on its own.

use std::str::FromStr;
use vstd::prelude::*;

verus! {

/// Why a pair could not be parsed.
#[derive(Clone, Copy, Debug, PartialEq, Eq, Structural)]
pub enum ParseError {
    /// The text holds no separator.
    SeparatorNotFound,
    /// One side of the separator is not a number.
    InvalidNumber,
}

/// `i` is the position of the first `sep` in `s`.
pub open spec fn is_first(s: Seq<char>, sep: char, i: int) -> bool {
    &&& 0 <= i < s.len()
    &&& s[i] == sep
    &&& forall|j: int| 0 <= j < i ==> s[j] != sep
}

/// `s` cut at its first `sep`: the text before it and the text after it.
pub open spec fn split_at_first(s: Seq<char>, sep: char) -> Option<(Seq<char>, Seq<char>)> {
    if exists|i: int| is_first(s, sep, i) {
        let i = choose|i: int| is_first(s, sep, i);
        Some((s.subrange(0, i), s.subrange(i + 1, s.len() as int)))
    } else {
        None
    }
}

proof fn lemma_first_unique(s: Seq<char>, sep: char, i: int, j: int)
    requires
        is_first(s, sep, i),
        is_first(s, sep, j),
    ensures
        i == j,
{
    if i < j {
        assert(s[i] != sep);
    } else if j < i {
        assert(s[j] != sep);
    }
}

/// Position of the first `sep` in `s`, if there is one.
pub fn find_separator(s: &str, sep: char) -> (r: Option<usize>)
    ensures
        r matches Some(i) ==> is_first(s@, sep, i as int),
        r is None ==> !s@.contains(sep),
{
    let n = s.unicode_len();
    let mut i: usize = 0;
    while i < n
        invariant
            n == s@.len(),
            i <= n,
            forall|j: int| 0 <= j < i ==> s@[j] != sep,
        decreases n - i,
    {
        if s.get_char(i) == sep {
            return Some(i);
        }
        i = i + 1;
    }
    None
}

/// Cuts `s` at its first `separator` into the text before it and the text
/// after it.
pub fn split_pair(s: &str, separator: char) -> (r: Result<(String, String), ParseError>)
    ensures
        r matches Err(e) ==> e == ParseError::SeparatorNotFound,
        r is Err <==> split_at_first(s@, separator) is None,
        r matches Ok((left, right)) ==> split_at_first(s@, separator) == Some((left@, right@)),
{
    match find_separator(s, separator) {
        None => {
            proof {
                if exists|i: int| is_first(s@, separator, i) {
                    let i = choose|i: int| is_first(s@, separator, i);
                    assert(s@.contains(separator)) by {
                        assert(s@[i] == separator);
                    }
                }
            }
            Err(ParseError::SeparatorNotFound)
        },
        Some(i) => {
            proof {
                let j = choose|j: int| is_first(s@, separator, j);
                lemma_first_unique(s@, separator, i as int, j);
            }
            let n = s.unicode_len();
            let left = s.substring_char(0, i);
            let right = s.substring_char(i + 1, n);
            Ok((left.to_string(), right.to_string()))
        },
    }
}

/// Relies on `FromStr::from_str` of `T`, through `str::parse`, to read a value.
#[verifier::external_body]
fn parse_text<T: FromStr>(s: &str) -> (r: Option<T>) {
    s.parse::<T>().ok()
}

/// The pair of two parsed sides, where both were parsed.
pub fn join_pair<T>(left: Option<T>, right: Option<T>) -> (r: Option<(T, T)>)
    ensures
        r == match (left, right) {
            (Some(l), Some(r)) => Some((l, r)),
            _ => None,
        },
{
    match (left, right) {
        (Some(l), Some(r)) => Some((l, r)),
        _ => None,
    }
}

/// Parses `s` as two values of `T` on either side of the first `separator`.
/// Without a separator there is no pair; with one, the pair is there where
/// both sides parse as `T`.
pub fn parse_pair<T: FromStr>(s: &str, separator: char) -> (r: Option<(T, T)>)
    ensures
        split_at_first(s@, separator) is None ==> r is None,
{
    match split_pair(s, separator) {
        Err(_) => None,
        Ok((left, right)) => join_pair(parse_text::<T>(left.as_str()), parse_text::<T>(right.as_str())),
    }
}

/// `c` is one of the digits `0` to `9`.
pub open spec fn is_digit(c: char) -> bool {
    '0' <= c <= '9'
}

/// Value of a string of decimal digits, most significant first.
pub open spec fn digits_value(d: Seq<char>) -> nat
    decreases d.len(),
{
    if d.len() == 0 {
        0
    } else {
        digits_value(d.drop_last()) * 10 + (d.last() as nat - '0' as nat) as nat
    }
}

/// The digits of an unsigned number: the text without one leading `+`.
pub open spec fn unsigned_digits(s: Seq<char>) -> Seq<char> {
    if s.len() > 0 && s[0] == '+' {
        s.drop_first()
    } else {
        s
    }
}

/// The `usize` that `s` writes in decimal: an optional `+` and at least one
/// digit, nothing else, and a value that fits.
pub open spec fn usize_of_text(s: Seq<char>) -> Option<usize> {
    let d = unsigned_digits(s);
    if d.len() > 0 && (forall|i: int| 0 <= i < d.len() ==> is_digit(#[trigger] d[i]))
        && digits_value(d) <= usize::MAX {
        Some(digits_value(d) as usize)
    } else {
        None
    }
}

/// A string of digits is worth at least ten times its first `k` digits plus one more.
proof fn lemma_digits_value_grows(d: Seq<char>, k: int)
    requires
        0 <= k < d.len(),
        forall|i: int| 0 <= i < d.len() ==> is_digit(#[trigger] d[i]),
    ensures
        digits_value(d) >= digits_value(d.subrange(0, k + 1)),
    decreases d.len(),
{
    if k + 1 < d.len() {
        let p = d.drop_last();
        assert forall|i: int| 0 <= i < p.len() implies is_digit(#[trigger] p[i]) by {
            assert(p[i] == d[i]);
        }
        lemma_digits_value_grows(p, k);
        assert(p.subrange(0, k + 1) == d.subrange(0, k + 1));
    } else {
        assert(d.subrange(0, k + 1) == d);
    }
}

/// Reads `s` as a decimal `usize`, as `str::parse` does: an optional `+`
/// followed by digits alone, whose value fits.
pub fn parse_usize(s: &str) -> (r: Option<usize>)
    ensures
        r == usize_of_text(s@),
{
    let n = s.unicode_len();
    let ghost d = unsigned_digits(s@);
    let start: usize = if n > 0 && s.get_char(0) == '+' {
        1
    } else {
        0
    };
    assert(d == s@.subrange(start as int, n as int));
    if start == n {
        return None;
    }
    let mut value: usize = 0;
    let mut i: usize = start;
    while i < n
        invariant
            n == s@.len(),
            start <= i <= n,
            start < n,
            d == s@.subrange(start as int, n as int),
            d == unsigned_digits(s@),
            forall|j: int| 0 <= j < i - start ==> is_digit(#[trigger] d[j]),
            value == digits_value(d.subrange(0, i - start)),
        decreases n - i,
    {
        let c = s.get_char(i);
        if c < '0' || c > '9' {
            assert(!is_digit(d[i - start]));
            return None;
        }
        let ghost k = i - start;
        let ghost next = d.subrange(0, k + 1);
        assert(next.drop_last() == d.subrange(0, k));
        assert(next.last() == c);
        let digit = (c as u32 - '0' as u32) as usize;
        match value.checked_mul(10) {
            None => {
                proof {
                    if forall|j: int| 0 <= j < d.len() ==> is_digit(#[trigger] d[j]) {
                        lemma_digits_value_grows(d, k);
                    }
                }
                return None;
            },
            Some(tens) => match tens.checked_add(digit) {
                None => {
                    proof {
                        if forall|j: int| 0 <= j < d.len() ==> is_digit(#[trigger] d[j]) {
                            lemma_digits_value_grows(d, k);
                        }
                    }
                    return None;
                },
                Some(v) => {
                    value = v;
                },
            },
        }
        i = i + 1;
    }
    assert(d.subrange(0, n - start) == d);
    Some(value)
}

/// `s` read as two decimal `usize` values on either side of the first
/// `separator`.
pub open spec fn usize_pair_of_text(s: Seq<char>, separator: char) -> Result<
    (usize, usize),
    ParseError,
> {
    match split_at_first(s, separator) {
        None => Err(ParseError::SeparatorNotFound),
        Some((left, right)) => match (usize_of_text(left), usize_of_text(right)) {
            (Some(a), Some(b)) => Ok((a, b)),
            _ => Err(ParseError::InvalidNumber),
        },
    }
}

/// Parses image dimensions such as `"1000x750"`: two decimal `usize` values
/// on either side of the first `separator`.
pub fn parse_bounds(s: &str, separator: char) -> (r: Result<(usize, usize), ParseError>)
    ensures
        r == usize_pair_of_text(s@, separator),
{
    match split_pair(s, separator) {
        Err(e) => Err(e),
        Ok((left, right)) => match (parse_usize(left.as_str()), parse_usize(right.as_str())) {
            (Some(a), Some(b)) => Ok((a, b)),
            _ => Err(ParseError::InvalidNumber),
        },
    }
}

/// Two sides joined by a separator that the left side does not hold are
/// cut back into those sides: they parse as a pair exactly when each side is
/// a number, and an empty side is no number.
pub proof fn lemma_pair_round_trip(left: Seq<char>, right: Seq<char>, separator: char)
    requires
        !left.contains(separator),
    ensures
        split_at_first(left + seq![separator] + right, separator) == Some((left, right)),
        usize_pair_of_text(left + seq![separator] + right, separator) == match (
            usize_of_text(left),
            usize_of_text(right),
        ) {
            (Some(a), Some(b)) => Ok((a, b)),
            _ => Err(ParseError::InvalidNumber),
        },
        left.len() == 0 || right.len() == 0 ==> usize_pair_of_text(
            left + seq![separator] + right,
            separator,
        ) == Err::<(usize, usize), ParseError>(ParseError::InvalidNumber),
{
    let s = left + seq![separator] + right;
    let k = left.len() as int;
    assert forall|j: int| 0 <= j < k implies s[j] != separator by {
        assert(s[j] == left[j]);
        if left[j] == separator {
            assert(left.contains(separator));
        }
    }
    assert(is_first(s, separator, k));
    let i = choose|i: int| is_first(s, separator, i);
    lemma_first_unique(s, separator, i, k);
    assert(s.subrange(0, k) == left);
    assert(s.subrange(k + 1, s.len() as int) == right);
}

/// Text without the separator holds no pair.
pub proof fn lemma_pair_needs_separator(s: Seq<char>, separator: char)
    requires
        !s.contains(separator),
    ensures
        split_at_first(s, separator) is None,
        usize_pair_of_text(s, separator) == Err::<(usize, usize), ParseError>(
            ParseError::SeparatorNotFound,
        ),
{
    if exists|i: int| is_first(s, separator, i) {
        let i = choose|i: int| is_first(s, separator, i);
        assert(s[i] == separator);
    }
}

} // verus!
