//! Parsing of validated user input: the three prefix octets out of a
//! period-split line, and the CIDR length.

use vstd::prelude::*;
use crate::partition::valid_cidr;
use crate::subnet::NetworkPrefix;

verus! {

/// Why a piece of input was rejected.
#[derive(Clone, Copy, Debug, PartialEq, Eq, Structural)]
pub enum ParseError {
    /// A prefix segment is empty, not a decimal number, or not an octet.
    MalformedPrefix,
    /// The CIDR value is not a decimal number or lies outside [24, 31].
    MalformedCidr,
}

/// ASCII whitespace, the kind a line read from a terminal can carry.
pub open spec fn is_ws(c: char) -> bool {
    c == ' ' || c == '\t' || c == '\n' || c == '\r'
}

/// A decimal digit.
pub open spec fn is_digit(c: char) -> bool {
    c == '0' || c == '1' || c == '2' || c == '3' || c == '4' || c == '5' || c == '6' || c == '7'
        || c == '8' || c == '9'
}

/// Value of one decimal digit.
pub open spec fn digit_val(c: char) -> int {
    if c == '0' {
        0
    } else if c == '1' {
        1
    } else if c == '2' {
        2
    } else if c == '3' {
        3
    } else if c == '4' {
        4
    } else if c == '5' {
        5
    } else if c == '6' {
        6
    } else if c == '7' {
        7
    } else if c == '8' {
        8
    } else {
        9
    }
}

/// A non-empty run of decimal digits.
pub open spec fn is_dec(s: Seq<char>) -> bool {
    s.len() > 0 && forall|j: int| 0 <= j < s.len() ==> is_digit(s[j])
}

/// Value of a digit run, most significant digit first.
pub open spec fn dec_val(s: Seq<char>) -> int
    decreases s.len(),
{
    if s.len() == 0 {
        0
    } else {
        dec_val(s.drop_last()) * 10 + digit_val(s.last())
    }
}

/// The input with leading ASCII whitespace removed.
pub open spec fn trim_left_spec(s: Seq<char>) -> Seq<char>
    decreases s.len(),
{
    if s.len() > 0 && is_ws(s[0]) {
        trim_left_spec(s.subrange(1, s.len() as int))
    } else {
        s
    }
}

/// The input with trailing ASCII whitespace removed.
pub open spec fn trim_right_spec(s: Seq<char>) -> Seq<char>
    decreases s.len(),
{
    if s.len() > 0 && is_ws(s[s.len() - 1]) {
        trim_right_spec(s.drop_last())
    } else {
        s
    }
}

/// The input with whitespace removed at both ends.
pub open spec fn trim_spec(s: Seq<char>) -> Seq<char> {
    trim_right_spec(trim_left_spec(s))
}

/// The octet a digit run denotes: its value where it is a decimal number
/// that fits in eight bits, nothing otherwise.
pub open spec fn octet_of(s: Seq<char>) -> Option<u8> {
    if is_dec(s) && dec_val(s) <= 255 {
        Some(dec_val(s) as u8)
    } else {
        None
    }
}

/// The network prefix the first three segments of a period-split line
/// denote. The third segment is trimmed first: splitting stops at the
/// line's end, so that segment still carries the line break.
pub open spec fn prefix_of(v: Seq<&str>) -> Option<NetworkPrefix>
    recommends
        v.len() >= 3,
{
    match (octet_of(v[0]@), octet_of(v[1]@), octet_of(trim_spec(v[2]@))) {
        (Some(a), Some(b), Some(c)) => Some(NetworkPrefix { o1: a, o2: b, o3: c }),
        _ => None,
    }
}

/// The CIDR length a line denotes: its trimmed text read as a decimal
/// number, where that lies in [24, 31].
pub open spec fn cidr_of(s: Seq<char>) -> Option<i32> {
    if is_dec(trim_spec(s)) && 24 <= dec_val(trim_spec(s)) <= 31 {
        Some(dec_val(trim_spec(s)) as i32)
    } else {
        None
    }
}

/// Dropping leading whitespace is taking the tail after the first run of
/// whitespace characters.
proof fn lemma_trim_left_at(s: Seq<char>, k: int)
    requires
        0 <= k <= s.len(),
        forall|j: int| 0 <= j < k ==> is_ws(s[j]),
        k == s.len() || !is_ws(s[k]),
    ensures
        trim_left_spec(s) == s.subrange(k, s.len() as int),
    decreases k,
{
    if k == 0 {
        assert(s.subrange(0, s.len() as int) =~= s);
    } else {
        let t = s.subrange(1, s.len() as int);
        lemma_trim_left_at(t, k - 1);
        assert(t.subrange(k - 1, t.len() as int) =~= s.subrange(k, s.len() as int));
    }
}

/// Dropping trailing whitespace is taking the head before the last run of
/// whitespace characters.
proof fn lemma_trim_right_at(s: Seq<char>, k: int)
    requires
        0 <= k <= s.len(),
        forall|j: int| k <= j < s.len() ==> is_ws(s[j]),
        k == 0 || !is_ws(s[k - 1]),
    ensures
        trim_right_spec(s) == s.subrange(0, k),
    decreases s.len() - k,
{
    if k == s.len() {
        assert(s.subrange(0, k) =~= s);
    } else {
        let t = s.drop_last();
        lemma_trim_right_at(t, k);
        assert(t.subrange(0, k) =~= s.subrange(0, k));
    }
}

/// Whether a character is ASCII whitespace.
fn is_ws_char(c: char) -> (b: bool)
    ensures
        b == is_ws(c),
{
    c == ' ' || c == '\t' || c == '\n' || c == '\r'
}

/// Value of a character as a decimal digit, if it is one.
fn digit_of(c: char) -> (r: Option<u8>)
    ensures
        r is Some <==> is_digit(c),
        r matches Some(d) ==> d == digit_val(c),
{
    match c {
        '0' => Some(0),
        '1' => Some(1),
        '2' => Some(2),
        '3' => Some(3),
        '4' => Some(4),
        '5' => Some(5),
        '6' => Some(6),
        '7' => Some(7),
        '8' => Some(8),
        '9' => Some(9),
        _ => None,
    }
}

/// Removes ASCII whitespace from both ends of a string.
pub fn trim(s: &str) -> (r: &str)
    ensures
        r@ == trim_spec(s@),
{
    let n = s.unicode_len();
    let mut start: usize = 0;
    while start < n && is_ws_char(s.get_char(start))
        invariant
            0 <= start <= n,
            n == s@.len(),
            forall|j: int| 0 <= j < start ==> is_ws(s@[j]),
        decreases n - start,
    {
        start = start + 1;
    }
    let mut end: usize = n;
    while end > start && is_ws_char(s.get_char(end - 1))
        invariant
            start <= end <= n,
            n == s@.len(),
            forall|j: int| end <= j < n ==> is_ws(s@[j]),
        decreases end,
    {
        end = end - 1;
    }
    proof {
        lemma_trim_left_at(s@, start as int);
        let t = s@.subrange(start as int, n as int);
        lemma_trim_right_at(t, end - start);
        assert(t.subrange(0, end - start) =~= s@.subrange(start as int, end as int));
    }
    s.substring_char(start, end)
}

/// The value of a digit run grows by one digit at a time, and never
/// shrinks below a bound it has passed.
proof fn lemma_dec_val_step(s: Seq<char>, i: int)
    requires
        0 <= i < s.len(),
    ensures
        dec_val(s.subrange(0, i + 1)) == dec_val(s.subrange(0, i)) * 10 + digit_val(s[i]),
{
    let t = s.subrange(0, i + 1);
    assert(t.drop_last() =~= s.subrange(0, i));
}

/// A digit run's value is never negative.
proof fn lemma_dec_val_nonneg(s: Seq<char>)
    ensures
        dec_val(s) >= 0,
    decreases s.len(),
{
    if s.len() > 0 {
        lemma_dec_val_nonneg(s.drop_last());
    }
}

/// Reads a digit run as an octet: its decimal value, where the run is
/// non-empty, all digits, and no larger than 255.
pub fn parse_octet(s: &str) -> (r: Option<u8>)
    ensures
        r == octet_of(s@),
{
    let n = s.unicode_len();
    if n == 0 {
        return None;
    }
    let mut acc: u16 = 0;
    let mut i: usize = 0;
    while i < n
        invariant
            0 <= i <= n,
            n == s@.len(),
            n > 0,
            forall|j: int| 0 <= j < i ==> is_digit(s@[j]),
            acc <= 2559,
            dec_val(s@.subrange(0, i as int)) < 256 ==> acc == dec_val(s@.subrange(0, i as int)),
            dec_val(s@.subrange(0, i as int)) >= 256 ==> acc >= 256,
        decreases n - i,
    {
        let c = s.get_char(i);
        let d = match digit_of(c) {
            Some(d) => d,
            None => {
                proof {
                    assert(!is_digit(s@[i as int]));
                }
                return None;
            },
        };
        proof {
            lemma_dec_val_step(s@, i as int);
            lemma_dec_val_nonneg(s@.subrange(0, i as int));
        }
        acc = if acc >= 256 {
            acc
        } else {
            acc * 10 + (d as u16)
        };
        i = i + 1;
    }
    proof {
        assert(s@.subrange(0, n as int) =~= s@);
    }
    if acc <= 255 {
        Some(acc as u8)
    } else {
        None
    }
}

/// Reads the first three segments of a period-split input line as a
/// network prefix; the third segment is trimmed of the line break first.
/// Every other segment is ignored. Each used segment must be a plain
/// decimal octet in [0, 255].
pub fn parse_ip(vec: &Vec<&str>) -> (r: Result<NetworkPrefix, ParseError>)
    requires
        vec@.len() >= 3,
    ensures
        r matches Ok(p) ==> prefix_of(vec@) == Some(p),
        r matches Err(e) ==> prefix_of(vec@) is None && e == ParseError::MalformedPrefix,
{
    let o1 = match parse_octet(vec[0]) {
        Some(v) => v,
        None => {
            return Err(ParseError::MalformedPrefix);
        },
    };
    let o2 = match parse_octet(vec[1]) {
        Some(v) => v,
        None => {
            return Err(ParseError::MalformedPrefix);
        },
    };
    let o3 = match parse_octet(trim(vec[2])) {
        Some(v) => v,
        None => {
            return Err(ParseError::MalformedPrefix);
        },
    };
    Ok(NetworkPrefix { o1, o2, o3 })
}

/// Reads a trimmed input line as a CIDR length, accepting exactly the
/// decimal numbers in [24, 31].
pub fn parse_cidr(s: &str) -> (r: Result<i32, ParseError>)
    ensures
        r matches Ok(c) ==> cidr_of(s@) == Some(c) && valid_cidr(c as int),
        r matches Err(e) ==> cidr_of(s@) is None && e == ParseError::MalformedCidr,
{
    proof {
        lemma_dec_val_nonneg(trim_spec(s@));
    }
    match parse_octet(trim(s)) {
        Some(v) => {
            if 24 <= v && v <= 31 {
                Ok(v as i32)
            } else {
                Err(ParseError::MalformedCidr)
            }
        },
        None => Err(ParseError::MalformedCidr),
    }
}

} // verus!
