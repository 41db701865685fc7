//! Small helpers for working with strings as sequences of characters.

use vstd::prelude::*;
use vstd::string::*;

verus! {

/// Appends one character to a string.
///
/// Trusted: `String::push` of the standard library appends the given
/// character at the end and changes nothing else.
#[verifier::external_body]
pub(crate) fn push_char(target: &mut String, c: char)
    ensures
        final(target)@ == old(target)@.push(c),
{
    target.push(c)
}

/// The characters of a string slice, in order.
pub(crate) fn chars_of(s: &str) -> (out: Vec<char>)
    ensures
        out@ == s@,
{
    let n: usize = s.unicode_len();
    let mut out: Vec<char> = Vec::new();
    let mut i: usize = 0;
    while i < n
        invariant
            n == s@.len(),
            i <= n,
            out@ == s@.subrange(0, i as int),
        decreases n - i,
    {
        out.push(s.get_char(i));
        i += 1;
        assert(out@ =~= s@.subrange(0, i as int));
    }
    assert(out@ =~= s@);
    out
}

/// A string holding the given characters, in order.
pub(crate) fn string_of(chars: &Vec<char>) -> (out: String)
    ensures
        out@ == chars@,
{
    let mut out = String::new();
    let mut i: usize = 0;
    while i < chars.len()
        invariant
            i <= chars.len(),
            out@ == chars@.subrange(0, i as int),
        decreases chars.len() - i,
    {
        push_char(&mut out, chars[i]);
        i += 1;
        assert(out@ =~= chars@.subrange(0, i as int));
    }
    assert(out@ =~= chars@);
    out
}

/// Whether two string slices hold the same characters.
pub(crate) fn same_text(a: &str, b: &str) -> (r: bool)
    ensures
        r == (a@ == b@),
{
    let left: String = a.to_owned();
    let right: String = b.to_owned();
    left == right
}

/// The position of the first occurrence of a character, or the length of
/// the text where it does not occur.
pub open spec fn first_position(text: Seq<char>, c: char) -> int
    decreases text.len(),
{
    if text.len() == 0 {
        0
    } else if text[0] == c {
        0
    } else {
        1 + first_position(text.drop_first(), c)
    }
}

/// `first_position` stays within the text, points at the character where it
/// is below the length, and the character does not occur before it.
pub proof fn lemma_first_position(text: Seq<char>, c: char)
    ensures
        0 <= first_position(text, c) <= text.len(),
        first_position(text, c) < text.len() ==> text[first_position(text, c)] == c,
        forall|j: int| 0 <= j < first_position(text, c) ==> text[j] != c,
        first_position(text, c) < text.len() <==> text.contains(c),
    decreases text.len(),
{
    if text.len() != 0 && text[0] != c {
        let rest = text.drop_first();
        lemma_first_position(rest, c);
        assert forall|j: int| 0 <= j < first_position(text, c) implies text[j] != c by {
            if j > 0 {
                assert(text[j] == rest[j - 1]);
            }
        }
        if rest.contains(c) {
            let at = choose|i: int| 0 <= i < rest.len() && rest[i] == c;
            assert(text[at + 1] == c);
        }
        if text.contains(c) {
            let at = choose|i: int| 0 <= i < text.len() && text[i] == c;
            assert(rest[at - 1] == c);
        }
    } else if text.len() != 0 {
        assert(text[0] == c);
    }
}

/// A position that holds the character, with no earlier occurrence, is the
/// first position.
pub proof fn lemma_first_position_is(text: Seq<char>, c: char, at: int)
    requires
        0 <= at <= text.len(),
        at < text.len() ==> text[at] == c,
        forall|j: int| 0 <= j < at ==> text[j] != c,
    ensures
        first_position(text, c) == at,
{
    lemma_first_position(text, c);
}

/// Finds the first occurrence of a character.
pub(crate) fn find_char(chars: &Vec<char>, c: char) -> (at: usize)
    ensures
        at == first_position(chars@, c),
{
    let mut i: usize = 0;
    while i < chars.len()
        invariant
            i <= chars.len(),
            forall|j: int| 0 <= j < i ==> chars@[j] != c,
        decreases chars.len() - i,
    {
        if chars[i] == c {
            proof {
                lemma_first_position_is(chars@, c, i as int);
            }
            return i;
        }
        i += 1;
    }
    proof {
        lemma_first_position_is(chars@, c, i as int);
    }
    i
}

/// Whether the text ends with a path separator.
pub open spec fn is_collection_path(path: Seq<char>) -> bool {
    path.len() > 0 && path.last() == '/'
}

/// Whether a path ends with a path separator.
pub fn ends_with_separator(path: &str) -> (yes: bool)
    ensures
        yes == is_collection_path(path@),
{
    let n: usize = path.unicode_len();
    n > 0 && path.get_char(n - 1) == '/'
}

/// The character that writes a decimal digit.
pub open spec fn digit_char(d: nat) -> char {
    if d == 0 {
        '0'
    } else if d == 1 {
        '1'
    } else if d == 2 {
        '2'
    } else if d == 3 {
        '3'
    } else if d == 4 {
        '4'
    } else if d == 5 {
        '5'
    } else if d == 6 {
        '6'
    } else if d == 7 {
        '7'
    } else if d == 8 {
        '8'
    } else {
        '9'
    }
}

/// A number written in decimal, without leading zeros.
pub open spec fn decimal(n: nat) -> Seq<char>
    decreases n,
{
    if n < 10 {
        seq![digit_char(n)]
    } else {
        decimal(n / 10).push(digit_char(n % 10))
    }
}

/// The character for a digit below ten.
fn digit_of(d: u64) -> (c: char)
    requires
        d < 10,
    ensures
        c == digit_char(d as nat),
{
    if d == 0 {
        '0'
    } else if d == 1 {
        '1'
    } else if d == 2 {
        '2'
    } else if d == 3 {
        '3'
    } else if d == 4 {
        '4'
    } else if d == 5 {
        '5'
    } else if d == 6 {
        '6'
    } else if d == 7 {
        '7'
    } else if d == 8 {
        '8'
    } else {
        '9'
    }
}

/// Appends a number in decimal.
pub fn push_decimal(target: &mut String, n: u64)
    ensures
        final(target)@ == old(target)@ + decimal(n as nat),
    decreases n,
{
    if n >= 10 {
        push_decimal(target, n / 10);
    }
    push_char(target, digit_of(n % 10));
    assert(target@ =~= old(target)@ + decimal(n as nat));
}

/// A number written in decimal.
pub fn decimal_text(n: u64) -> (out: String)
    ensures
        out@ == decimal(n as nat),
{
    let mut out = String::new();
    push_decimal(&mut out, n);
    assert(out@ =~= decimal(n as nat));
    out
}

/// Whether a text begins with another.
pub open spec fn has_prefix(text: Seq<char>, prefix: Seq<char>) -> bool {
    prefix.len() <= text.len() && text.subrange(0, prefix.len() as int) == prefix
}

/// Whether `needle` stands in `text` at position `at`.
pub open spec fn occurs_at(text: Seq<char>, needle: Seq<char>, at: int) -> bool {
    0 <= at && at + needle.len() <= text.len() && text.subrange(at, at + needle.len()) == needle
}

/// The first position at or after `from` at which `needle` stands in
/// `text`, or the length of the text where there is none.
pub open spec fn search(text: Seq<char>, needle: Seq<char>, from: int) -> int
    decreases text.len() - from,
{
    if from < 0 || from >= text.len() || from + needle.len() > text.len() {
        text.len() as int
    } else if occurs_at(text, needle, from) {
        from
    } else {
        search(text, needle, from + 1)
    }
}

/// Whether `needle` stands somewhere in `text`.
pub open spec fn mentions(text: Seq<char>, needle: Seq<char>) -> bool {
    search(text, needle, 0) < text.len()
}

/// Whether the characters of `text` from `at` on begin with `needle`.
pub fn matches_at(text: &Vec<char>, needle: &Vec<char>, at: usize) -> (yes: bool)
    requires
        at <= text.len(),
    ensures
        yes == occurs_at(text@, needle@, at as int),
{
    if needle.len() > text.len() - at {
        return false;
    }
    let mut i: usize = 0;
    while i < needle.len()
        invariant
            i <= needle.len(),
            at + needle.len() <= text.len(),
            text@.subrange(at as int, at + i) == needle@.subrange(0, i as int),
        decreases needle.len() - i,
    {
        if text[at + i] != needle[i] {
            assert(text@.subrange(at as int, at + needle.len())[i as int] != needle@[i as int]);
            return false;
        }
        i += 1;
        assert(text@.subrange(at as int, at + i) =~= needle@.subrange(0, i as int)) by {
            assert forall|j: int| 0 <= j < i implies text@.subrange(at as int, at + i)[j]
                == needle@.subrange(0, i as int)[j] by {
                if j < i - 1 {
                    assert(text@.subrange(at as int, at + i - 1)[j] == needle@.subrange(
                        0,
                        i - 1,
                    )[j]);
                }
            }
        }
    }
    assert(needle@.subrange(0, i as int) =~= needle@);
    true
}

/// Finds the first position at or after `from` at which `needle` stands in
/// `text`.
pub fn find_text(text: &Vec<char>, needle: &Vec<char>, from: usize) -> (at: usize)
    requires
        from <= text.len(),
    ensures
        at == search(text@, needle@, from as int),
        from <= at <= text.len(),
{
    let mut i: usize = from;
    while i < text.len() && needle.len() <= text.len() - i
        invariant
            from <= i <= text.len(),
            search(text@, needle@, from as int) == search(text@, needle@, i as int),
        decreases text.len() - i,
    {
        if matches_at(text, needle, i) {
            return i;
        }
        i += 1;
    }
    text.len()
}

/// The characters from `from` up to `to`.
pub fn slice_chars(text: &Vec<char>, from: usize, to: usize) -> (out: Vec<char>)
    requires
        from <= to <= text.len(),
    ensures
        out@ == text@.subrange(from as int, to as int),
{
    let mut out: Vec<char> = Vec::new();
    let mut i: usize = from;
    while i < to
        invariant
            from <= i <= to <= text.len(),
            out@ == text@.subrange(from as int, i as int),
        decreases to - i,
    {
        out.push(text[i]);
        i += 1;
        assert(out@ =~= text@.subrange(from as int, i as int));
    }
    out
}

} // verus!
