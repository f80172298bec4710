//! Parsing of user-supplied `"H:MM"` / `"HH:MM"` strings into an
//! `(hour, minute)` pair.
//!
//! The parser is purely syntactic: each side of the single `:` must be
//! one or two decimal digits.  Range checking (hour below 24 and so on)
//! is deliberately left to callers.

use vstd::prelude::*;

verus! {

/// Why a time string was rejected.
#[derive(Clone, Copy, Debug, PartialEq, Eq, Structural)]
pub enum TimeParseError {
    /// Splitting on `:` did not yield exactly two parts.
    MalformedFormat,
    /// A part is empty or longer than two characters.
    InvalidDigitCount,
    /// A part holds a character that is not a decimal digit.
    NotANumber,
}

pub open spec fn is_digit(c: char) -> bool {
    48 <= (c as u32) && (c as u32) <= 57
}

pub open spec fn digit_val(c: char) -> int {
    c as u32 - 48
}

pub open spec fn all_digits(s: Seq<char>) -> bool {
    forall|i: int| 0 <= i < s.len() ==> is_digit(#[trigger] s[i])
}

/// Numeric value of a one- or two-digit part.
pub open spec fn part_val(s: Seq<char>) -> int {
    if s.len() == 1 {
        digit_val(s[0])
    } else {
        digit_val(s[0]) * 10 + digit_val(s[1])
    }
}

/// How many `:` characters the string holds.
pub open spec fn colon_count(s: Seq<char>) -> int
    decreases s.len(),
{
    if s.len() == 0 {
        0
    } else {
        colon_count(s.drop_last()) + if s.last() == ':' {
            1int
        } else {
            0int
        }
    }
}

/// Index of the first `:` (length of the string if there is none).
pub open spec fn first_colon(s: Seq<char>) -> int
    decreases s.len(),
{
    if s.len() == 0 {
        0
    } else if s[0] == ':' {
        0
    } else {
        1 + first_colon(s.drop_first())
    }
}

/// What `parse_time` returns on every input.
pub open spec fn parse_time_spec(s: Seq<char>) -> Result<(u8, u8), TimeParseError> {
    if colon_count(s) != 1 {
        Err(TimeParseError::MalformedFormat)
    } else {
        let p = first_colon(s);
        let hours = s.subrange(0, p);
        let minutes = s.subrange(p + 1, s.len() as int);
        if !(1 <= hours.len() <= 2) || !(1 <= minutes.len() <= 2) {
            Err(TimeParseError::InvalidDigitCount)
        } else if !all_digits(hours) || !all_digits(minutes) {
            Err(TimeParseError::NotANumber)
        } else {
            Ok(((part_val(hours)) as u8, (part_val(minutes)) as u8))
        }
    }
}

proof fn lemma_colon_count_push(s: Seq<char>, c: char)
    ensures
        colon_count(s.push(c)) == colon_count(s) + if c == ':' {
            1int
        } else {
            0int
        },
{
    assert(s.push(c).drop_last() =~= s);
}

proof fn lemma_first_colon_at(s: Seq<char>, j: int)
    requires
        0 <= j < s.len(),
        s[j] == ':',
        forall|k: int| 0 <= k < j ==> s[k] != ':',
    ensures
        first_colon(s) == j,
    decreases j,
{
    if j > 0 {
        lemma_first_colon_at(s.drop_first(), j - 1);
    }
}

/// Parse `"H:MM"` / `"HH:MM"` into `(hour, minute)`, each side one or
/// two digits, with no range check on the values.
pub fn parse_time(s: &str) -> (r: Result<(u8, u8), TimeParseError>)
    ensures
        r == parse_time_spec(s@),
{
    let n = s.unicode_len();
    let mut count: usize = 0;
    let mut pos: usize = 0;
    let mut i: usize = 0;
    while i < n
        invariant
            n == s@.len(),
            0 <= i <= n,
            count <= i,
            count == colon_count(s@.subrange(0, i as int)),
            count > 0 ==> pos < i && s@[pos as int] == ':' && forall|k: int|
                0 <= k < pos ==> s@[k] != ':',
            count == 0 ==> forall|k: int| 0 <= k < i ==> s@[k] != ':',
        decreases n - i,
    {
        let c = s.get_char(i);
        proof {
            assert(s@.subrange(0, i + 1) =~= s@.subrange(0, i as int).push(c));
            lemma_colon_count_push(s@.subrange(0, i as int), c);
        }
        if c == ':' {
            if count == 0 {
                pos = i;
            }
            count = count + 1;
        }
        i = i + 1;
    }
    proof {
        assert(s@.subrange(0, n as int) =~= s@);
    }
    if count != 1 {
        return Err(TimeParseError::MalformedFormat);
    }
    proof {
        lemma_first_colon_at(s@, pos as int);
    }
    let hours_len = pos;
    let minutes_len = n - pos - 1;
    let ghost hours = s@.subrange(0, pos as int);
    let ghost minutes = s@.subrange(pos + 1, n as int);
    if hours_len < 1 || hours_len > 2 || minutes_len < 1 || minutes_len > 2 {
        return Err(TimeParseError::InvalidDigitCount);
    }
    let mut hour: u8 = 0;
    let mut j: usize = 0;
    while j < hours_len
        invariant
            colon_count(s@) == 1,
            pos == first_colon(s@),
            hours == s@.subrange(0, pos as int),
            minutes == s@.subrange(pos + 1, n as int),
            hours_len == pos < n == s@.len(),
            minutes_len == n - pos - 1,
            1 <= hours_len <= 2,
            1 <= minutes_len <= 2,
            0 <= j <= hours_len,
            forall|k: int| 0 <= k < j ==> is_digit(#[trigger] hours[k]),
            j == 0 ==> hour == 0,
            j == 1 ==> hour == digit_val(hours[0]),
            j == 2 ==> hour == part_val(hours),
        decreases hours_len - j,
    {
        let c = s.get_char(j);
        assert(c == hours[j as int]);
        let u = c as u32;
        if u < 48 || u > 57 {
            return Err(TimeParseError::NotANumber);
        }
        hour = hour * 10 + ((u - 48) as u8);
        j = j + 1;
    }
    let mut minute: u8 = 0;
    let mut j: usize = 0;
    while j < minutes_len
        invariant
            colon_count(s@) == 1,
            pos == first_colon(s@),
            hours == s@.subrange(0, pos as int),
            minutes == s@.subrange(pos + 1, n as int),
            hours_len == pos < n == s@.len(),
            minutes_len == n - pos - 1,
            1 <= hours_len <= 2,
            1 <= minutes_len <= 2,
            0 <= j <= minutes_len,
            forall|k: int| 0 <= k < j ==> is_digit(#[trigger] minutes[k]),
            all_digits(hours),
            j == 0 ==> minute == 0,
            j == 1 ==> minute == digit_val(minutes[0]),
            j == 2 ==> minute == part_val(minutes),
        decreases minutes_len - j,
    {
        let c = s.get_char(pos + 1 + j);
        assert(c == minutes[j as int]);
        let u = c as u32;
        if u < 48 || u > 57 {
            return Err(TimeParseError::NotANumber);
        }
        minute = minute * 10 + ((u - 48) as u8);
        j = j + 1;
    }
    if hours_len == 1 {
        assert(hour == part_val(hours));
    }
    if minutes_len == 1 {
        assert(minute == part_val(minutes));
    }
    Ok((hour, minute))
}

/// Same parse, taking the string by value as the command-line path
/// hands it over.
pub fn string_to_time(string: String) -> (r: Result<(u8, u8), TimeParseError>)
    ensures
        r == parse_time_spec(string@),
{
    parse_time(string.as_str())
}

} // verus!
