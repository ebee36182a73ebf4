//! Ages on the command line: a count and a unit, such as `30d` or `6M`.

use vstd::prelude::*;
use vstd::string::*;

use crate::text::{chars_of, decimal, digit_char};

verus! {

pub const MINUTE: u64 = 60;

pub const HOUR: u64 = MINUTE * 60;

pub const DAY: u64 = HOUR * 24;

pub const WEEK: u64 = DAY * 7;

pub const MONTH: u64 = WEEK * 4;

pub const YEAR: u64 = DAY * 365;

/// Why a text is not a number that fits in 64 bits.
#[derive(Clone, Copy, Debug, PartialEq, Eq, Structural)]
pub enum ParseIntError {
    /// The text is empty.
    Empty,
    /// A character is not a decimal digit.
    InvalidDigit,
    /// The number is too large.
    PosOverflow,
}

/// Why a text is not an age.
#[derive(Clone, Copy, Debug, PartialEq, Eq, Structural)]
pub enum ParseAgeFilterError {
    /// The count before the unit is not a number.
    ParseIntError(ParseIntError),
    /// The text does not end in a unit.
    InvalidUnit,
}

impl From<ParseIntError> for ParseAgeFilterError {
    fn from(e: ParseIntError) -> (r: Self) {
        ParseAgeFilterError::ParseIntError(e)
    }
}

impl vstd::std_specs::convert::FromSpecImpl<ParseIntError> for ParseAgeFilterError {
    open spec fn obeys_from_spec() -> bool {
        true
    }

    open spec fn from_spec(e: ParseIntError) -> Self {
        ParseAgeFilterError::ParseIntError(e)
    }
}

/// The words for a number that cannot be read.
pub open spec fn int_error_text(e: ParseIntError) -> Seq<char> {
    match e {
        ParseIntError::Empty => "cannot parse integer from empty string"@,
        ParseIntError::InvalidDigit => "invalid digit found in string"@,
        ParseIntError::PosOverflow => "number too large to fit in target type"@,
    }
}

/// The words for an age that cannot be read.
pub open spec fn age_error_text(e: ParseAgeFilterError) -> Seq<char> {
    match e {
        ParseAgeFilterError::ParseIntError(i) => int_error_text(i),
        ParseAgeFilterError::InvalidUnit => "invalid age unit, must be one of m, h, d, w, M, y"@,
    }
}

impl ParseIntError {
    /// The error in words.
    pub fn message(&self) -> (r: &'static str)
        ensures
            r@ == int_error_text(*self),
    {
        match self {
            ParseIntError::Empty => "cannot parse integer from empty string",
            ParseIntError::InvalidDigit => "invalid digit found in string",
            ParseIntError::PosOverflow => "number too large to fit in target type",
        }
    }
}

impl ParseAgeFilterError {
    /// The error in words.
    pub fn message(&self) -> (r: &'static str)
        ensures
            r@ == age_error_text(*self),
    {
        match self {
            ParseAgeFilterError::ParseIntError(e) => e.message(),
            ParseAgeFilterError::InvalidUnit => "invalid age unit, must be one of m, h, d, w, M, y",
        }
    }
}

/// The value of a decimal digit.
pub open spec fn digit_value(c: char) -> Option<nat> {
    if '0' <= c <= '9' {
        Some((c as u32 - 0x30) as nat)
    } else {
        None
    }
}

/// The number that a row of digits stands for, or the first thing that is wrong
/// with it from the left.
pub open spec fn digits_value(s: Seq<char>) -> Result<nat, ParseIntError>
    decreases s.len(),
{
    if s.len() == 0 {
        Ok(0)
    } else {
        match (digits_value(s.drop_last()), digit_value(s.last())) {
            (Err(e), _) => Err(e),
            (Ok(_), None) => Err(ParseIntError::InvalidDigit),
            (Ok(n), Some(d)) => if n * 10 + d <= u64::MAX {
                Ok(n * 10 + d)
            } else {
                Err(ParseIntError::PosOverflow)
            },
        }
    }
}

/// The number that a text stands for: digits, after a plus sign or without one.
pub open spec fn int_value(s: Seq<char>) -> Result<nat, ParseIntError> {
    if s.len() == 0 {
        Err(ParseIntError::Empty)
    } else if s.len() == 1 && s[0] == '+' {
        Err(ParseIntError::InvalidDigit)
    } else if s[0] == '+' {
        digits_value(s.drop_first())
    } else {
        digits_value(s)
    }
}

/// The seconds in one of a unit.
pub open spec fn unit_seconds(unit: char) -> Option<nat> {
    if unit == 'm' {
        Some(60)
    } else if unit == 'h' {
        Some(60 * 60)
    } else if unit == 'd' {
        Some(24 * 60 * 60)
    } else if unit == 'w' {
        Some(7 * 24 * 60 * 60)
    } else if unit == 'M' {
        Some(4 * 7 * 24 * 60 * 60)
    } else if unit == 'y' {
        Some(365 * 24 * 60 * 60)
    } else {
        None
    }
}

/// The seconds that an age stands for, or why it stands for none.
pub open spec fn age_value(s: Seq<char>) -> Result<nat, ParseAgeFilterError> {
    if s.len() == 0 {
        Err(ParseAgeFilterError::InvalidUnit)
    } else {
        match (unit_seconds(s.last()), int_value(s.drop_last())) {
            (None, _) => Err(ParseAgeFilterError::InvalidUnit),
            (Some(_), Err(e)) => Err(ParseAgeFilterError::ParseIntError(e)),
            (Some(seconds), Ok(count)) => Ok(count * seconds),
        }
    }
}

/// An age is no longer than a 64-bit number of seconds can tell.
pub open spec fn age_fits(s: Seq<char>) -> bool {
    age_value(s) matches Ok(n) ==> n <= u64::MAX
}

/// Reads a number.
pub fn parse_int(s: &str) -> (r: Result<u64, ParseIntError>)
    ensures
        match int_value(s@) {
            Ok(n) => r == Ok::<u64, ParseIntError>(n as u64) && n <= u64::MAX,
            Err(e) => r == Err::<u64, ParseIntError>(e),
        },
{
    let chars = chars_of(s);
    if chars.len() == 0 {
        return Err(ParseIntError::Empty);
    }
    let from: usize = if chars[0] == '+' {
        1
    } else {
        0
    };
    if from == chars.len() {
        return Err(ParseIntError::InvalidDigit);
    }
    let ghost digits = if from == 1 {
        s@.drop_first()
    } else {
        s@
    };
    assert(int_value(s@) == digits_value(digits));
    let mut n: u64 = 0;
    let mut i: usize = from;
    while i < chars.len()
        invariant
            chars@ == s@,
            from <= i <= chars.len(),
            from <= 1,
            digits == s@.subrange(from as int, s@.len() as int),
            int_value(s@) == digits_value(digits),
            digits_value(digits.take(i - from)) == Ok::<nat, ParseIntError>(n as nat),
        decreases chars.len() - i,
    {
        let c = chars[i];
        proof {
            let seen = digits.take(i + 1 - from);
            assert(seen.drop_last() == digits.take(i - from));
            assert(seen.last() == c);
            if digits_value(seen) is Err {
                lemma_first_error(digits, i + 1 - from);
            }
        }
        if c < '0' || '9' < c {
            return Err(ParseIntError::InvalidDigit);
        }
        let d: u64 = (c as u32 - 0x30) as u64;
        if n > (u64::MAX - d) / 10 {
            return Err(ParseIntError::PosOverflow);
        }
        n = n * 10 + d;
        i = i + 1;
    }
    assert(digits.take(i - from) == digits);
    Ok(n)
}

/// What is wrong with the beginning of a row of digits is wrong with the row.
proof fn lemma_first_error(s: Seq<char>, seen: int)
    requires
        0 <= seen <= s.len(),
        digits_value(s.take(seen)) is Err,
    ensures
        digits_value(s) == digits_value(s.take(seen)),
    decreases s.len() - seen,
{
    if seen == s.len() {
        assert(s.take(seen) == s);
    } else {
        assert(s.take(seen + 1).drop_last() == s.take(seen));
        lemma_first_error(s, seen + 1);
    }
}

/// Reads the count and the seconds of the unit.
fn count_and_unit(age_filter: &str) -> (r: Result<(u64, u64), ParseAgeFilterError>)
    ensures
        match r {
            Ok((count, seconds)) => age_value(age_filter@) == Ok::<nat, ParseAgeFilterError>(
                count as nat * seconds as nat,
            ),
            Err(e) => age_value(age_filter@) == Err::<nat, ParseAgeFilterError>(e),
        },
{
    let len: usize = age_filter.unicode_len();
    if len == 0 {
        return Err(ParseAgeFilterError::InvalidUnit);
    }
    let unit = age_filter.get_char(len - 1);
    let multiplier: u64 = match unit {
        'm' => MINUTE,
        'h' => HOUR,
        'd' => DAY,
        'w' => WEEK,
        'M' => MONTH,
        'y' => YEAR,
        _ => return Err(ParseAgeFilterError::InvalidUnit),
    };
    let digits = age_filter.substring_char(0, len - 1);
    assert(digits@ == age_filter@.drop_last());
    match parse_int(digits) {
        Ok(count) => Ok((count, multiplier)),
        Err(e) => Err(ParseAgeFilterError::from(e)),
    }
}

/// Whether an age can be told in a 64-bit number of seconds.
pub fn age_filter_fits(age_filter: &str) -> (r: bool)
    ensures
        r == age_fits(age_filter@),
{
    match count_and_unit(age_filter) {
        Ok((count, seconds)) => count.checked_mul(seconds).is_some(),
        Err(_) => true,
    }
}

/// Reads an age: a count and one of the units `m`, `h`, `d`, `w`, `M` and `y`,
/// as seconds.
pub fn parse_age_filter(age_filter: &str) -> (r: Result<u64, ParseAgeFilterError>)
    requires
        age_fits(age_filter@),
    ensures
        match age_value(age_filter@) {
            Ok(n) => r == Ok::<u64, ParseAgeFilterError>(n as u64),
            Err(e) => r == Err::<u64, ParseAgeFilterError>(e),
        },
{
    match count_and_unit(age_filter) {
        Ok((count, seconds)) => Ok(count * seconds),
        Err(e) => Err(e),
    }
}

/// A number written in decimal is read back as that number.
pub proof fn law_decimal_reads_back(n: u64)
    ensures
        int_value(decimal(n as nat)) == Ok::<nat, ParseIntError>(n as nat),
{
    lemma_decimal_digits(n as nat);
}

/// An age written as a count in decimal and a unit is read as that many units.
pub proof fn law_age_reads_back(count: u64, unit: char)
    requires
        unit_seconds(unit) is Some,
    ensures
        age_value(decimal(count as nat).push(unit)) == Ok::<nat, ParseAgeFilterError>(
            count as nat * unit_seconds(unit).unwrap(),
        ),
{
    law_decimal_reads_back(count);
    let s = decimal(count as nat).push(unit);
    assert(s.drop_last() == decimal(count as nat));
}

/// A plus sign before an age that begins with something else changes nothing.
pub proof fn law_plus_sign(age: Seq<char>)
    requires
        age.len() > 1,
        age[0] != '+',
    ensures
        age_value(seq!['+'] + age) == age_value(age),
{
    let signed = seq!['+'] + age;
    assert(signed.drop_last() == seq!['+'] + age.drop_last());
    assert(signed.drop_last().drop_first() == age.drop_last());
    assert(signed.drop_last().len() > 1);
    assert(age.drop_last()[0] == age[0]);
}

/// The decimal form of a number is a row of digits with that value.
proof fn lemma_decimal_digits(n: nat)
    requires
        n <= u64::MAX,
    ensures
        digits_value(decimal(n)) == Ok::<nat, ParseIntError>(n),
        decimal(n).len() > 0,
        '0' <= decimal(n)[0] <= '9',
    decreases n,
{
    let s = decimal(n);
    if n < 10 {
        assert(s.drop_last() == Seq::<char>::empty());
        assert(digits_value(s.drop_last()) == Ok::<nat, ParseIntError>(0));
        assert(digit_value(digit_char(n)) == Some(n));
    } else {
        lemma_decimal_digits(n / 10);
        assert(s.drop_last() == decimal(n / 10));
        assert(digit_value(digit_char(n % 10)) == Some(n % 10));
        assert(s[0] == decimal(n / 10)[0]);
    }
}

/// An age is a number and a unit: minutes of 60 seconds, hours of 60 minutes, days
/// of 24 hours, weeks of 7 days, months of 4 weeks and years of 365 days. Where the
/// number cannot be read, the error is that of the number; where there is no such
/// unit, it is that of the unit.
pub proof fn law_units(number: Seq<char>, unit: char)
    ensures
        age_value(seq![]) == Err::<nat, ParseAgeFilterError>(ParseAgeFilterError::InvalidUnit),
        unit != 'm' && unit != 'h' && unit != 'd' && unit != 'w' && unit != 'M' && unit != 'y'
            ==> age_value(number.push(unit)) == Err::<nat, ParseAgeFilterError>(
            ParseAgeFilterError::InvalidUnit,
        ),
        unit == 'm' || unit == 'h' || unit == 'd' || unit == 'w' || unit == 'M' || unit == 'y'
            ==> match int_value(number) {
            Err(e) => age_value(number.push(unit)) == Err::<nat, ParseAgeFilterError>(
                ParseAgeFilterError::ParseIntError(e),
            ),
            Ok(count) => {
                &&& age_value(number.push(unit)) is Ok
                &&& age_value(number.push(unit))->Ok_0 == count * if unit == 'm' {
                    60int
                } else if unit == 'h' {
                    3_600
                } else if unit == 'd' {
                    86_400
                } else if unit == 'w' {
                    604_800
                } else if unit == 'M' {
                    2_419_200
                } else {
                    31_536_000
                }
            },
        },
{
    assert(number.push(unit).drop_last() == number);
}

/// A row of digits, with a plus sign before it or without one, stands for the
/// number that it spells, or is too large. Nothing at all is empty, and a sign
/// alone is no number.
pub proof fn law_digits_are_read(digits: Seq<char>)
    requires
        digits.len() > 0,
        forall|i: int| 0 <= i < digits.len() ==> '0' <= #[trigger] digits[i] <= '9',
    ensures
        int_value(seq![]) == Err::<nat, ParseIntError>(ParseIntError::Empty),
        int_value(seq!['+']) == Err::<nat, ParseIntError>(ParseIntError::InvalidDigit),
        int_value(seq!['+'] + digits) == int_value(digits),
        ({
            let number = digits.fold_left(0int, |sum: int, c: char| sum * 10 + (c as int - 48));
            if number <= u64::MAX {
                int_value(digits) is Ok && int_value(digits)->Ok_0 == number
            } else {
                int_value(digits) == Err::<nat, ParseIntError>(ParseIntError::PosOverflow)
            }
        }),
{
    lemma_digits_spell(digits);
    assert(digits[0] != '+');
    assert((seq!['+'] + digits).drop_first() == digits);
}

/// The first character that is no digit makes a text no number, unless the digits
/// before it are too large already.
pub proof fn law_other_characters_are_refused(digits: Seq<char>, c: char, rest: Seq<char>)
    requires
        forall|i: int| 0 <= i < digits.len() ==> '0' <= #[trigger] digits[i] <= '9',
        c < '0' || '9' < c,
        digits.len() == 0 ==> c != '+',
    ensures
        ({
            let number = digits.fold_left(0int, |sum: int, c: char| sum * 10 + (c as int - 48));
            int_value(digits + seq![c] + rest) == Err::<nat, ParseIntError>(
                if number <= u64::MAX {
                    ParseIntError::InvalidDigit
                } else {
                    ParseIntError::PosOverflow
                },
            )
        }),
{
    let s = digits + seq![c] + rest;
    lemma_digits_spell(digits);
    let seen = digits.len() as int + 1;
    assert(s.take(seen).drop_last() == digits);
    assert(s.take(seen).last() == c);
    lemma_first_error(s, seen);
    assert(s[0] != '+') by {
        if digits.len() > 0 {
            assert(s[0] == digits[0]);
        }
    }
}

/// The value of a row of digits is the number that it spells.
proof fn lemma_digits_spell(digits: Seq<char>)
    requires
        forall|i: int| 0 <= i < digits.len() ==> '0' <= #[trigger] digits[i] <= '9',
    ensures
        ({
            let number = digits.fold_left(0int, |sum: int, c: char| sum * 10 + (c as int - 48));
            &&& number >= 0
            &&& if number <= u64::MAX {
                digits_value(digits) == Ok::<nat, ParseIntError>(number as nat)
            } else {
                digits_value(digits) == Err::<nat, ParseIntError>(ParseIntError::PosOverflow)
            }
        }),
    decreases digits.len(),
{
    if digits.len() > 0 {
        let rest = digits.drop_last();
        assert forall|i: int| 0 <= i < rest.len() implies '0' <= #[trigger] rest[i] <= '9' by {
            assert(rest[i] == digits[i]);
        }
        lemma_digits_spell(rest);
        assert('0' <= digits[digits.len() - 1] <= '9');
    }
}

/// An age fits unless it is one and its seconds are more than 64 bits can tell.
pub proof fn law_age_fits(s: Seq<char>)
    ensures
        age_value(s) is Err ==> age_fits(s),
        age_value(s) is Ok ==> (age_fits(s) <==> age_value(s)->Ok_0 <= u64::MAX),
{
}

} // verus!
