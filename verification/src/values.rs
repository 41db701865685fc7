//! The typed meaning of the request headers that steer a WebDAV method.

use vstd::prelude::*;
use vstd::string::*;
use vstd::std_specs::convert::FromSpecImpl;
use crate::text::{
    chars_of, decimal, digit_char, find_char, first_position, lemma_first_position, same_text,
};

verus! {

/// How far a method reaches below the resource it addresses.
#[derive(Debug, Clone, Copy, PartialEq, Eq, Hash, Structural)]
pub enum Depth {
    /// The resource alone.
    Zero,
    /// The resource and its immediate children.
    One,
    /// Everything below the resource.
    Infinity,
}

/// The depth that a header value stands for: `0` and `1` are themselves,
/// everything else is infinity.
pub open spec fn depth_of(text: Seq<char>) -> Depth {
    if text == seq!['0'] {
        Depth::Zero
    } else if text == seq!['1'] {
        Depth::One
    } else {
        Depth::Infinity
    }
}

impl Default for Depth {
    fn default() -> (depth: Depth)
        ensures
            depth == Depth::Infinity,
    {
        Depth::Infinity
    }
}

impl From<String> for Depth {
    fn from(m: String) -> (depth: Depth) {
        proof {
            reveal_strlit("0");
            reveal_strlit("1");
            assert("0"@ =~= seq!['0']);
            assert("1"@ =~= seq!['1']);
        }
        if same_text(m.as_str(), "0") {
            Depth::Zero
        } else if same_text(m.as_str(), "1") {
            Depth::One
        } else {
            Depth::Infinity
        }
    }
}

impl FromSpecImpl<String> for Depth {
    open spec fn obeys_from_spec() -> bool {
        true
    }

    open spec fn from_spec(m: String) -> Depth {
        depth_of(m@)
    }
}

/// Whether a method may replace what is at its destination.
#[derive(Debug, Clone, Copy, PartialEq, Eq, Hash, Structural)]
pub enum Overwrite {
    True,
    False,
}

/// The choice that a header value stands for: only `F` forbids.
pub open spec fn overwrite_of(text: Seq<char>) -> Overwrite {
    if text == seq!['F'] {
        Overwrite::False
    } else {
        Overwrite::True
    }
}

impl Default for Overwrite {
    fn default() -> (overwrite: Overwrite)
        ensures
            overwrite == Overwrite::True,
    {
        Overwrite::True
    }
}

impl From<String> for Overwrite {
    fn from(value: String) -> (overwrite: Overwrite) {
        proof {
            reveal_strlit("F");
            assert("F"@ =~= seq!['F']);
        }
        if same_text(value.as_str(), "F") {
            Overwrite::False
        } else {
            Overwrite::True
        }
    }
}

impl FromSpecImpl<String> for Overwrite {
    open spec fn obeys_from_spec() -> bool {
        true
    }

    open spec fn from_spec(value: String) -> Overwrite {
        overwrite_of(value@)
    }
}

/// A byte range of a resource, both ends inclusive. A request without a
/// usable range has neither end.
#[derive(Debug, Clone, Copy, PartialEq, Eq, Hash, Structural)]
pub struct Range {
    pub start: Option<u32>,
    pub end: Option<u32>,
}

/// Whether a character is a decimal digit.
pub open spec fn is_digit(c: char) -> bool {
    '0' <= c <= '9'
}

/// The value of a decimal digit.
pub open spec fn digit_value(c: char) -> nat {
    (c as u32 - '0' as u32) as nat
}

/// Whether a text is made of decimal digits only.
pub open spec fn all_digits(text: Seq<char>) -> bool {
    forall|i: int| 0 <= i < text.len() ==> is_digit(#[trigger] text[i])
}

/// The number that a text of decimal digits writes.
pub open spec fn decimal_value(digits: Seq<char>) -> nat
    decreases digits.len(),
{
    if digits.len() == 0 {
        0
    } else {
        decimal_value(digits.drop_last()) * 10 + digit_value(digits.last())
    }
}

/// The 32-bit number that a text writes: an optional `+`, then one or more
/// decimal digits whose value fits. `None` for every other text.
pub open spec fn unsigned_of(text: Seq<char>) -> Option<u32> {
    let digits = if text.len() > 0 && text[0] == '+' {
        text.drop_first()
    } else {
        text
    };
    if digits.len() > 0 && all_digits(digits) && decimal_value(digits) <= u32::MAX {
        Some(decimal_value(digits) as u32)
    } else {
        None
    }
}

/// The range without ends.
pub open spec fn no_range() -> Range {
    Range { start: None, end: None }
}

/// The range that a text of the form `start-end` stands for. A text that
/// lists several ranges with `;`, has no `-`, or has anything but one
/// number on either side of its first `-`, stands for no range.
pub open spec fn range_of(line: Seq<char>) -> Range {
    let dash = first_position(line, '-');
    if line.contains(';') || dash >= line.len() {
        no_range()
    } else {
        let start = unsigned_of(line.subrange(0, dash));
        let end = unsigned_of(line.subrange(dash + 1, line.len() as int));
        if start is Some && end is Some {
            Range { start, end }
        } else {
            no_range()
        }
    }
}

/// A number written in decimal is made of digits and writes that number.
pub proof fn lemma_decimal_read_back(n: nat)
    ensures
        decimal(n).len() > 0,
        all_digits(decimal(n)),
        decimal_value(decimal(n)) == n,
    decreases n,
{
    if n < 10 {
        let text = decimal(n);
        assert(text.drop_last() =~= Seq::<char>::empty());
        assert(text.last() == digit_char(n));
        assert(digit_value(digit_char(n)) == n);
        assert(decimal_value(text.drop_last()) == 0);
    } else {
        lemma_decimal_read_back(n / 10);
        let text = decimal(n);
        assert(text.drop_last() =~= decimal(n / 10));
        assert(text.last() == digit_char(n % 10));
        assert(digit_value(digit_char(n % 10)) == n % 10);
        assert forall|i: int| 0 <= i < text.len() implies is_digit(#[trigger] text[i]) by {
            if i < text.len() - 1 {
                assert(text[i] == decimal(n / 10)[i]);
            }
        }
    }
}

/// A number that fits 32 bits, written in decimal, is read back as itself.
pub proof fn lemma_unsigned_read_back(n: u32)
    ensures
        unsigned_of(decimal(n as nat)) == Some(n),
{
    lemma_decimal_read_back(n as nat);
    assert(is_digit(decimal(n as nat)[0]));
}

/// A range read from a text has both ends or neither.
pub proof fn lemma_range_both_or_neither(line: Seq<char>)
    ensures
        range_of(line).start is Some <==> range_of(line).end is Some,
{
}

/// The value of a text with one more digit is ten times the value before,
/// plus the digit.
proof fn lemma_decimal_grows(digits: Seq<char>, n: int)
    requires
        0 <= n < digits.len(),
    ensures
        decimal_value(digits.subrange(0, n + 1)) == decimal_value(digits.subrange(0, n)) * 10
            + digit_value(digits[n]),
{
    let longer = digits.subrange(0, n + 1);
    assert(longer.drop_last() =~= digits.subrange(0, n));
    assert(longer.last() == digits[n]);
}

/// Reads the number that the characters from `from` up to `to` write.
fn parse_unsigned(chars: &Vec<char>, from: usize, to: usize) -> (value: Option<u32>)
    requires
        from <= to <= chars.len(),
    ensures
        value == unsigned_of(chars@.subrange(from as int, to as int)),
{
    let ghost text = chars@.subrange(from as int, to as int);
    let mut first: usize = from;
    if from < to && chars[from] == '+' {
        first = from + 1;
    }
    let ghost digits = chars@.subrange(first as int, to as int);
    proof {
        if first == from {
            assert(text.len() > 0 ==> text[0] == chars@[from as int]);
            assert(digits =~= text);
        } else {
            assert(text[0] == '+');
            assert(digits =~= text.drop_first());
        }
    }
    if first == to {
        return None;
    }
    let mut value: u64 = 0;
    let mut too_big = false;
    let mut i: usize = first;
    while i < to
        invariant
            first <= i <= to <= chars.len(),
            digits == chars@.subrange(first as int, to as int),
            text == chars@.subrange(from as int, to as int),
            digits == if text.len() > 0 && text[0] == '+' {
                text.drop_first()
            } else {
                text
            },
            all_digits(digits.subrange(0, i - first)),
            !too_big ==> value == decimal_value(digits.subrange(0, i - first)),
            !too_big ==> value <= u32::MAX,
            too_big ==> decimal_value(digits.subrange(0, i - first)) > u32::MAX,
        decreases to - i,
    {
        let c: char = chars[i];
        assert(digits[i - first] == c);
        if c < '0' || c > '9' {
            assert(!is_digit(digits[i - first]));
            return None;
        }
        let d: u64 = (c as u32 - '0' as u32) as u64;
        proof {
            lemma_decimal_grows(digits, i - first);
            assert forall|j: int| 0 <= j < i + 1 - first implies is_digit(
                #[trigger] digits.subrange(0, i + 1 - first)[j],
            ) by {
                if j < i - first {
                    assert(digits.subrange(0, i - first)[j] == digits[j]);
                }
            }
        }
        if !too_big {
            value = value * 10 + d;
            if value > 0xffff_ffff {
                too_big = true;
            }
        }
        i += 1;
    }
    assert(digits.subrange(0, digits.len() as int) =~= digits);
    if too_big {
        None
    } else {
        Some(value as u32)
    }
}

impl From<String> for Range {
    fn from(line: String) -> (range: Range) {
        let chars = chars_of(line.as_str());
        proof {
            lemma_first_position(chars@, ';');
            lemma_first_position(chars@, '-');
        }
        if find_char(&chars, ';') < chars.len() {
            return Range { start: None, end: None };
        }
        let dash: usize = find_char(&chars, '-');
        if dash >= chars.len() {
            return Range { start: None, end: None };
        }
        let start = parse_unsigned(&chars, 0, dash);
        let end = parse_unsigned(&chars, dash + 1, chars.len());
        if start.is_some() && end.is_some() {
            Range { start, end }
        } else {
            Range { start: None, end: None }
        }
    }
}

impl FromSpecImpl<String> for Range {
    open spec fn obeys_from_spec() -> bool {
        true
    }

    open spec fn from_spec(line: String) -> Range {
        range_of(line@)
    }
}

/// The range that an optional text stands for: none where there is no text.
pub open spec fn optional_range_of(line: Option<String>) -> Range {
    match line {
        Some(text) => range_of(text@),
        None => no_range(),
    }
}

impl From<Option<String>> for Range {
    fn from(line: Option<String>) -> (range: Range) {
        match line {
            None => Range { start: None, end: None },
            Some(text) => Range::from(text),
        }
    }
}

impl FromSpecImpl<Option<String>> for Range {
    open spec fn obeys_from_spec() -> bool {
        true
    }

    open spec fn from_spec(line: Option<String>) -> Range {
        optional_range_of(line)
    }
}

/// The model of an optional text.
pub open spec fn optional_text(value: Option<String>) -> Option<Seq<char>> {
    match value {
        Some(text) => Some(text@),
        None => None,
    }
}

/// What the object store knows of one object, as plain values.
#[derive(Debug, Clone, PartialEq, Eq, Hash)]
pub struct ObjectMetadata {
    /// The key under which the object is stored.
    pub key: String,
    /// The size of the object in bytes.
    pub size: u64,
    /// The time of the upload, already written out.
    pub uploaded: String,
    /// The entity tag, quoted as a header carries it.
    pub http_etag: String,
    pub content_type: Option<String>,
    pub content_language: Option<String>,
    pub content_disposition: Option<String>,
    pub content_encoding: Option<String>,
    pub cache_control: Option<String>,
    /// The expiry time for caches, already written out.
    pub cache_expiry: Option<String>,
}

/// The model of the DAV properties of a resource.
pub struct Properties {
    pub creation_date: Option<Seq<char>>,
    pub display_name: Option<Seq<char>>,
    pub get_content_language: Option<Seq<char>>,
    pub get_content_length: Option<u64>,
    pub get_content_type: Option<Seq<char>>,
    pub get_etag: Option<Seq<char>>,
    pub get_last_modified: Option<Seq<char>>,
}

/// The DAV properties of a resource. They are derived from what the store
/// knows of the object at the time of the request.
#[derive(Debug, Clone, PartialEq, Eq, Hash)]
pub struct DavProperties {
    pub creation_date: Option<String>,
    pub display_name: Option<String>,
    pub get_content_language: Option<String>,
    pub get_content_length: Option<u64>,
    pub get_content_type: Option<String>,
    pub get_etag: Option<String>,
    pub get_last_modified: Option<String>,
}

impl View for DavProperties {
    type V = Properties;

    open spec fn view(&self) -> Properties {
        Properties {
            creation_date: optional_text(self.creation_date),
            display_name: optional_text(self.display_name),
            get_content_language: optional_text(self.get_content_language),
            get_content_length: self.get_content_length,
            get_content_type: optional_text(self.get_content_type),
            get_etag: optional_text(self.get_etag),
            get_last_modified: optional_text(self.get_last_modified),
        }
    }
}

/// The properties without any value.
pub open spec fn no_properties() -> Properties {
    Properties {
        creation_date: None,
        display_name: None,
        get_content_language: None,
        get_content_length: None,
        get_content_type: None,
        get_etag: None,
        get_last_modified: None,
    }
}

/// The properties that follow from an object's metadata: the upload time
/// is the creation date, the content disposition is the display name, and
/// the time of the last modification stays unset.
pub open spec fn properties_of(object: ObjectMetadata) -> Properties {
    Properties {
        creation_date: Some(object.uploaded@),
        display_name: optional_text(object.content_disposition),
        get_content_language: optional_text(object.content_language),
        get_content_length: Some(object.size),
        get_content_type: optional_text(object.content_type),
        get_etag: Some(object.http_etag@),
        get_last_modified: None,
    }
}

impl Default for DavProperties {
    fn default() -> (properties: DavProperties)
        ensures
            properties@ == no_properties(),
    {
        DavProperties {
            creation_date: None,
            display_name: None,
            get_content_language: None,
            get_content_length: None,
            get_content_type: None,
            get_etag: None,
            get_last_modified: None,
        }
    }
}

/// The properties made from an object's metadata, field by field.
pub open spec fn converted(file: ObjectMetadata) -> DavProperties {
    DavProperties {
        creation_date: Some(file.uploaded),
        display_name: file.content_disposition,
        get_content_language: file.content_language,
        get_content_length: Some(file.size),
        get_content_type: file.content_type,
        get_etag: Some(file.http_etag),
        get_last_modified: None,
    }
}

impl From<ObjectMetadata> for DavProperties {
    fn from(file: ObjectMetadata) -> (properties: DavProperties) {
        DavProperties {
            creation_date: Some(file.uploaded),
            display_name: file.content_disposition,
            get_content_language: file.content_language,
            get_content_length: Some(file.size),
            get_content_type: file.content_type,
            get_etag: Some(file.http_etag),
            get_last_modified: None,
        }
    }
}

impl FromSpecImpl<ObjectMetadata> for DavProperties {
    open spec fn obeys_from_spec() -> bool {
        true
    }

    open spec fn from_spec(file: ObjectMetadata) -> DavProperties {
        converted(file)
    }
}

/// The properties made from an object's metadata are the ones that follow
/// from it; the time of the last modification is never set.
pub proof fn lemma_properties_from_metadata(file: ObjectMetadata)
    ensures
        converted(file)@ == properties_of(file),
        converted(file)@.get_last_modified is None,
{
}

} // verus!
