//! Character-level helpers on strings: white space, substrings and decimals.

use vstd::prelude::*;
use vstd::string::*;

verus! {

/// Appends one character.
///
/// `String::push` is documented to append the given `char` to the end of the
/// string; nothing else is claimed.
pub assume_specification[ String::push ](s: &mut String, ch: char)
    ensures
        final(s)@ == old(s)@.push(ch),
;

/// Removes the last character.
///
/// `String::pop` is documented to remove the last character and return it, and
/// to return `None` on an empty string, which then stays empty.
pub assume_specification[ String::pop ](s: &mut String) -> (last: Option<char>)
    ensures
        old(s)@.len() == 0 ==> last is None && final(s)@ == old(s)@,
        old(s)@.len() > 0 ==> last == Some(old(s)@.last()) && final(s)@ == old(s)@.drop_last(),
;

/// The characters of a string, in order.
pub fn chars_of(s: &str) -> (chars: Vec<char>)
    ensures
        chars@ == s@,
{
    let mut chars: Vec<char> = Vec::new();
    for c in iter: s.chars()
        invariant
            chars@ == iter.seq().take(iter.index() as int),
            iter.seq() == s@,
    {
        chars.push(c);
    }
    chars
}

/// The texts of a list.
pub open spec fn texts(list: Seq<String>) -> Seq<Seq<char>> {
    Seq::new(list.len(), |i: int| list[i]@)
}

/// A character is ASCII.
pub open spec fn ascii(c: char) -> bool {
    (c as u32) < 0x80
}

/// Every character of a text is ASCII.
pub open spec fn ascii_text(s: Seq<char>) -> bool {
    forall|i: int| 0 <= i < s.len() ==> ascii(#[trigger] s[i])
}

/// An ASCII character in lower case: `a` to `z` for `A` to `Z`, and itself else.
pub open spec fn ascii_lower(c: char) -> char {
    if 'A' <= c <= 'Z' {
        (c as u32 + 0x20) as char
    } else {
        c
    }
}

/// An ASCII text in lower case, character by character.
pub open spec fn ascii_lowered(s: Seq<char>) -> Seq<char> {
    Seq::new(s.len(), |i: int| ascii_lower(s[i]))
}

/// A unit of UTF-16 is the first half of a surrogate pair.
pub open spec fn high_surrogate(unit: u16) -> bool {
    0xd800 <= unit <= 0xdbff
}

/// A unit of UTF-16 is the second half of a surrogate pair.
pub open spec fn low_surrogate(unit: u16) -> bool {
    0xdc00 <= unit <= 0xdfff
}

/// The text of UTF-16, where each surrogate without its other half gives one
/// replacement character.
pub open spec fn wide_text(units: Seq<u16>) -> Seq<char>
    decreases units.len(),
{
    if units.len() == 0 {
        seq![]
    } else if units.len() > 1 && high_surrogate(units[0]) && low_surrogate(units[1]) {
        seq![(0x10000 + (units[0] - 0xd800) * 0x400 + (units[1] - 0xdc00)) as char] + wide_text(
            units.skip(2),
        )
    } else if high_surrogate(units[0]) || low_surrogate(units[0]) {
        seq!['\u{fffd}'] + wide_text(units.skip(1))
    } else {
        seq![units[0] as char] + wide_text(units.skip(1))
    }
}

/// The characters with the Unicode property White_Space.
pub open spec fn white_space(c: char) -> bool {
    let u = c as u32;
    ||| 0x9 <= u <= 0xd
    ||| u == 0x20
    ||| u == 0x85
    ||| u == 0xa0
    ||| u == 0x1680
    ||| 0x2000 <= u <= 0x200a
    ||| u == 0x2028
    ||| u == 0x2029
    ||| u == 0x202f
    ||| u == 0x205f
    ||| u == 0x3000
}

/// Whether a character is white space.
pub fn is_white_space(c: char) -> (r: bool)
    ensures
        r == white_space(c),
{
    let u: u32 = c as u32;
    (0x9 <= u && u <= 0xd) || u == 0x20 || u == 0x85 || u == 0xa0 || u == 0x1680 || (0x2000 <= u
        && u <= 0x200a) || u == 0x2028 || u == 0x2029 || u == 0x202f || u == 0x205f || u == 0x3000
}

/// A text without its leading white space.
pub open spec fn without_leading_space(s: Seq<char>) -> Seq<char>
    decreases s.len(),
{
    if s.len() > 0 && white_space(s[0]) {
        without_leading_space(s.drop_first())
    } else {
        s
    }
}

/// A text without its trailing white space.
pub open spec fn without_trailing_space(s: Seq<char>) -> Seq<char>
    decreases s.len(),
{
    if s.len() > 0 && white_space(s.last()) {
        without_trailing_space(s.drop_last())
    } else {
        s
    }
}

/// A text without the white space at its two ends.
pub open spec fn trimmed(s: Seq<char>) -> Seq<char> {
    without_trailing_space(without_leading_space(s))
}

/// The part of `s` between the white space at its two ends.
pub fn trim(s: &str) -> (r: &str)
    ensures
        r@ == trimmed(s@),
{
    let chars = chars_of(s);
    let mut from: usize = 0;
    assert(s@.subrange(0, s@.len() as int) == s@);
    while from < chars.len() && is_white_space(chars[from])
        invariant
            chars@ == s@,
            from <= chars.len(),
            without_leading_space(s@) == without_leading_space(
                s@.subrange(from as int, s@.len() as int),
            ),
        decreases chars.len() - from,
    {
        proof {
            let rest = s@.subrange(from as int, s@.len() as int);
            assert(rest.drop_first() == s@.subrange(from + 1, s@.len() as int));
        }
        from = from + 1;
    }
    let ghost tail = s@.subrange(from as int, s@.len() as int);
    assert(without_leading_space(s@) == tail);
    let mut to: usize = chars.len();
    while from < to && is_white_space(chars[to - 1])
        invariant
            chars@ == s@,
            from <= to <= chars.len(),
            tail == s@.subrange(from as int, s@.len() as int),
            without_trailing_space(tail) == without_trailing_space(
                s@.subrange(from as int, to as int),
            ),
        decreases to - from,
    {
        proof {
            let rest = s@.subrange(from as int, to as int);
            assert(rest.drop_last() == s@.subrange(from as int, to - 1));
        }
        to = to - 1;
    }
    s.substring_char(from, to)
}

/// What is left of a text between its white space stands in what is left of the
/// text with one more character.
pub(crate) proof fn lemma_trimmed_stays(s: Seq<char>, c: char)
    ensures
        occurs_in(trimmed(s.push(c)), trimmed(s)),
{
    lemma_leading_space(s, c);
    let front = without_leading_space(s);
    lemma_trailing_space(front);
    let before = trimmed(s);
    let after = trimmed(s.push(c));
    if front.len() > 0 {
        assert(front.push(c).drop_last() == front);
    }
    assert(after.subrange(0, before.len() as int) == before);
    assert(occurs_at(after, before, 0));
}

/// A character at the end of a text stays behind the leading white space, unless
/// there is nothing else.
proof fn lemma_leading_space(s: Seq<char>, c: char)
    ensures
        without_leading_space(s).len() > 0 ==> without_leading_space(s.push(c))
            == without_leading_space(s).push(c),
    decreases s.len(),
{
    if s.len() > 0 {
        assert(s.push(c)[0] == s[0]);
        if white_space(s[0]) {
            assert(s.push(c).drop_first() == s.drop_first().push(c));
            lemma_leading_space(s.drop_first(), c);
        }
    }
}

/// A text begins with what is left of it before its trailing white space.
proof fn lemma_trailing_space(s: Seq<char>)
    ensures
        without_trailing_space(s).is_prefix_of(s),
    decreases s.len(),
{
    if s.len() > 0 && white_space(s.last()) {
        lemma_trailing_space(s.drop_last());
    }
}

/// `needle` stands in `text` at position `at`.
pub open spec fn occurs_at(text: Seq<char>, needle: Seq<char>, at: int) -> bool {
    0 <= at && at + needle.len() <= text.len() && text.subrange(at, at + needle.len()) == needle
}

/// `needle` stands somewhere in `text`.
pub open spec fn occurs_in(text: Seq<char>, needle: Seq<char>) -> bool {
    exists|at: int| occurs_at(text, needle, at)
}

/// Whether `needle` stands in `text` at position `at`.
fn found_at(text: &Vec<char>, needle: &Vec<char>, at: usize) -> (r: bool)
    requires
        at + needle.len() <= text.len(),
    ensures
        r == occurs_at(text@, needle@, at as int),
{
    let mut i: usize = 0;
    while i < needle.len()
        invariant
            at + needle.len() <= text.len(),
            i <= needle.len(),
            forall|j: int| 0 <= j < i ==> text@[at + j] == needle@[j],
        decreases needle.len() - i,
    {
        if text[at + i] != needle[i] {
            proof {
                let part = text@.subrange(at as int, at + needle@.len());
                assert(part[i as int] == text@[at + i]);
            }
            return false;
        }
        i = i + 1;
    }
    assert(text@.subrange(at as int, at + needle@.len()) == needle@);
    true
}

/// Whether `needle` stands somewhere in `text`.
pub fn contains(text: &str, needle: &str) -> (r: bool)
    ensures
        r == occurs_in(text@, needle@),
{
    let t = chars_of(text);
    let n = chars_of(needle);
    let mut at: usize = 0;
    while t.len() - at >= n.len()
        invariant
            t@ == text@,
            n@ == needle@,
            at <= t.len(),
            forall|j: int| 0 <= j < at ==> !occurs_at(text@, needle@, j),
        ensures
            forall|j: int| !occurs_at(text@, needle@, j),
        decreases t.len() - at,
    {
        if found_at(&t, &n, at) {
            return true;
        }
        if at == t.len() {
            break;
        }
        at = at + 1;
    }
    false
}

/// The character of a decimal digit.
pub open spec fn digit_char(d: nat) -> char {
    (0x30 + d) as char
}

/// A number in decimal, without leading zeros.
pub open spec fn decimal(n: nat) -> Seq<char>
    decreases n,
{
    if n < 10 {
        seq![digit_char(n)]
    } else {
        decimal(n / 10).push(digit_char(n % 10))
    }
}

/// Appends a number in decimal.
pub fn push_decimal(s: &mut String, n: u64)
    ensures
        final(s)@ == old(s)@ + decimal(n as nat),
    decreases n,
{
    if n >= 10 {
        push_decimal(s, n / 10);
    }
    let d: u8 = (n % 10) as u8;
    s.push((0x30 + d) as char);
    proof {
        assert(old(s)@ + decimal(n as nat) =~= s@);
    }
}

/// What is left of a text between its white space has none at its two ends, and
/// all that was taken away is white space.
pub proof fn law_trimmed(s: Seq<char>)
    ensures
        trimmed(s).len() > 0 ==> !white_space(trimmed(s)[0]) && !white_space(trimmed(s).last()),
        exists|from: int, to: int|
            0 <= from <= to <= s.len() && trimmed(s) == #[trigger] s.subrange(from, to) && (forall|
                i: int,
            | (0 <= i < from || to <= i < s.len()) ==> white_space(#[trigger] s[i])),
{
    lemma_leading_split(s);
    let front = without_leading_space(s);
    lemma_trailing_split(front);
    lemma_trailing_space(front);
    let from = s.len() - front.len();
    let to = from + trimmed(s).len();
    assert(front == s.subrange(from, s.len() as int));
    assert(trimmed(s) == s.subrange(from, to));
    assert forall|i: int| (0 <= i < from || to <= i < s.len()) implies white_space(
        #[trigger] s[i],
    ) by {
        if to <= i {
            assert(s[i] == front[i - from]);
        }
    }
}

/// What is left behind the leading white space is the end of the text.
proof fn lemma_leading_split(s: Seq<char>)
    ensures
        without_leading_space(s).len() <= s.len(),
        without_leading_space(s) == s.subrange(
            s.len() - without_leading_space(s).len(),
            s.len() as int,
        ),
        without_leading_space(s).len() > 0 ==> !white_space(without_leading_space(s)[0]),
        forall|i: int|
            0 <= i < s.len() - without_leading_space(s).len() ==> white_space(#[trigger] s[i]),
    decreases s.len(),
{
    if s.len() > 0 && white_space(s[0]) {
        let rest = s.drop_first();
        lemma_leading_split(rest);
        assert forall|i: int| 0 <= i < s.len() - without_leading_space(s).len() implies white_space(
            #[trigger] s[i],
        ) by {
            if i > 0 {
                assert(s[i] == rest[i - 1]);
            }
        }
    }
}

/// What is left before the trailing white space does not end in any.
proof fn lemma_trailing_split(s: Seq<char>)
    ensures
        without_trailing_space(s).len() <= s.len(),
        without_trailing_space(s).len() > 0 ==> !white_space(without_trailing_space(s).last()),
        forall|i: int|
            without_trailing_space(s).len() <= i < s.len() ==> white_space(#[trigger] s[i]),
    decreases s.len(),
{
    if s.len() > 0 && white_space(s.last()) {
        let rest = s.drop_last();
        lemma_trailing_split(rest);
        assert forall|i: int| without_trailing_space(s).len() <= i < s.len() implies white_space(
            #[trigger] s[i],
        ) by {
            if i < rest.len() {
                assert(s[i] == rest[i]);
            }
        }
    }
}

/// A text holds the empty text, and what is left of it between its white space.
pub(crate) proof fn lemma_occurs_in_itself(s: Seq<char>)
    ensures
        occurs_in(s, seq![]),
        occurs_in(s, trimmed(s)),
{
    assert(s.subrange(0, 0) == Seq::<char>::empty());
    assert(occurs_at(s, seq![], 0));
    law_trimmed(s);
    let (from, to) = choose|from: int, to: int|
        0 <= from <= to <= s.len() && trimmed(s) == #[trigger] s.subrange(from, to) && (forall|
            i: int,
        | (0 <= i < from || to <= i < s.len()) ==> white_space(#[trigger] s[i]));
    assert(occurs_at(s, trimmed(s), from));
}

/// A text holds another exactly if it is that text with something before and
/// behind it.
pub proof fn law_occurs_in(text: Seq<char>, needle: Seq<char>)
    ensures
        occurs_in(text, needle) <==> exists|before: Seq<char>, behind: Seq<char>|
            text == #[trigger] (before + needle + behind),
{
    if occurs_in(text, needle) {
        let at = choose|at: int| occurs_at(text, needle, at);
        let before = text.take(at);
        let behind = text.skip(at + needle.len());
        assert(text == before + needle + behind);
    }
    if exists|before: Seq<char>, behind: Seq<char>|
        text == #[trigger] (before + needle + behind) {
        let (before, behind) = choose|before: Seq<char>, behind: Seq<char>|
            text == #[trigger] (before + needle + behind);
        let at = before.len() as int;
        assert(text.subrange(at, at + needle.len()) == needle);
        assert(occurs_at(text, needle, at));
    }
}

/// A number in decimal is a row of digits that stands for it, and begins with `0`
/// for zero alone.
pub proof fn law_decimal(n: nat)
    ensures
        decimal(n).len() > 0,
        forall|i: int| 0 <= i < decimal(n).len() ==> '0' <= #[trigger] decimal(n)[i] <= '9',
        decimal(n).len() > 1 ==> decimal(n)[0] != '0',
        decimal(n).fold_left(0int, |sum: int, c: char| sum * 10 + (c as int - 48)) == n,
    decreases n,
{
    let f = |sum: int, c: char| sum * 10 + (c as int - 48);
    if n < 10 {
        reveal_with_fuel(Seq::fold_left, 2);
        assert(decimal(n).drop_last() == Seq::<char>::empty());
        assert(decimal(n).fold_left(0int, f) == f(0, digit_char(n)));
    } else {
        law_decimal(n / 10);
        let rest = decimal(n / 10);
        let s = decimal(n);
        assert(s.drop_last() == rest);
        assert(s[0] == rest[0]);
        assert(s.fold_left(0int, f) == f(rest.fold_left(0int, f), digit_char(n % 10)));
        if rest.len() == 1 {
            assert(rest[0] != '0') by {
                reveal_with_fuel(Seq::fold_left, 2);
                assert(rest.drop_last() == Seq::<char>::empty());
                assert(rest.fold_left(0int, f) == f(0, rest[0]));
            }
        }
    }
}

} // verus!
