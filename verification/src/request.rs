//! The request headers that steer a method, from their raw values.

use vstd::prelude::*;
use vstd::string::*;
use crate::text::{
    chars_of, find_char, find_text, first_position, has_prefix, matches_at, mentions, search,
    slice_chars, string_of,
};
use crate::values::{depth_of, no_range, overwrite_of, range_of, Depth, Overwrite, Range};

verus! {

/// The depth that an optional header names: infinity where it is absent.
pub open spec fn depth_header(header: Option<String>) -> Depth {
    match header {
        Some(value) => depth_of(value@),
        None => Depth::Infinity,
    }
}

/// The choice that an optional header names: overwriting is allowed where
/// it is absent.
pub open spec fn overwrite_header(header: Option<String>) -> Overwrite {
    match header {
        Some(value) => overwrite_of(value@),
        None => Overwrite::True,
    }
}

/// The unit that a range header names before its range.
pub open spec fn unit_prefix() -> Seq<char> {
    seq!['b', 'y', 't', 'e', 's', '=']
}

/// A range header without the unit that it begins with.
pub open spec fn without_unit(value: Seq<char>) -> Seq<char> {
    if has_prefix(value, unit_prefix()) {
        value.subrange(unit_prefix().len() as int, value.len() as int)
    } else {
        value
    }
}

/// The range that an optional header names: none where it is absent.
pub open spec fn range_header(header: Option<String>) -> Range {
    match header {
        Some(value) => range_of(without_unit(value@)),
        None => no_range(),
    }
}

/// The scheme that a destination begins with.
pub open spec fn scheme() -> Seq<char> {
    seq!['h', 't', 't', 'p', ':', '/', '/']
}

/// The path that a destination names: what follows the first `/` after the
/// scheme and the host. A second scheme ends the part that counts.
pub open spec fn destination_of(url: Seq<char>) -> Seq<char> {
    let begin = search(url, scheme(), 0) + scheme().len();
    let after = url.subrange(begin, url.len() as int);
    let part = after.subrange(0, search(after, scheme(), 0));
    let slash = first_position(part, '/');
    if slash < part.len() {
        part.subrange(slash + 1, part.len() as int)
    } else {
        Seq::empty()
    }
}

/// The path that an optional destination header names: empty where it is
/// absent.
pub open spec fn destination_header(header: Option<String>) -> Seq<char> {
    match header {
        Some(value) => destination_of(value@),
        None => Seq::empty(),
    }
}

/// Whether a destination header can be taken apart: it is absent, or it
/// holds the scheme.
pub open spec fn usable_destination(header: Option<String>) -> bool {
    match header {
        Some(value) => mentions(value@, scheme()),
        None => true,
    }
}

/// The depth that the `Depth` header names.
pub fn parse_depth(header: Option<String>) -> (depth: Depth)
    ensures
        depth == depth_header(header),
{
    match header {
        Some(value) => Depth::from(value),
        None => Depth::Infinity,
    }
}

/// The choice that the `Overwrite` header names.
pub fn parse_overwrite(header: Option<String>) -> (overwrite: Overwrite)
    ensures
        overwrite == overwrite_header(header),
{
    match header {
        Some(value) => Overwrite::from(value),
        None => Overwrite::True,
    }
}

/// The characters of the unit that a range header begins with.
fn unit_chars() -> (out: Vec<char>)
    ensures
        out@ == unit_prefix(),
{
    let mut out: Vec<char> = Vec::new();
    out.push('b');
    out.push('y');
    out.push('t');
    out.push('e');
    out.push('s');
    out.push('=');
    assert(out@ =~= unit_prefix());
    out
}

/// The characters of the scheme that a destination begins with.
fn scheme_chars() -> (out: Vec<char>)
    ensures
        out@ == scheme(),
{
    let mut out: Vec<char> = Vec::new();
    out.push('h');
    out.push('t');
    out.push('t');
    out.push('p');
    out.push(':');
    out.push('/');
    out.push('/');
    assert(out@ =~= scheme());
    out
}

/// The range that the `Range` header names.
pub fn parse_range(header: Option<String>) -> (range: Range)
    ensures
        range == range_header(header),
{
    match header {
        Some(value) => {
            let chars = chars_of(value.as_str());
            let unit = unit_chars();
            if matches_at(&chars, &unit, 0) {
                let rest = slice_chars(&chars, unit.len(), chars.len());
                Range::from(string_of(&rest))
            } else {
                Range::from(value)
            }
        },
        None => Range { start: None, end: None },
    }
}

/// Whether a destination header can be taken apart.
pub fn is_usable_destination(header: &Option<String>) -> (yes: bool)
    ensures
        yes == usable_destination(*header),
{
    match header {
        Some(value) => {
            let chars = chars_of(value.as_str());
            find_text(&chars, &scheme_chars(), 0) < chars.len()
        },
        None => true,
    }
}

/// The path that the `Destination` header names.
pub fn parse_destination(header: Option<String>) -> (path: String)
    requires
        usable_destination(header),
    ensures
        path@ == destination_header(header),
{
    match header {
        Some(value) => {
            let chars = chars_of(value.as_str());
            let scheme = scheme_chars();
            let found: usize = find_text(&chars, &scheme, 0);
            proof {
                lemma_search_fits(chars@, scheme@, 0);
            }
            let after = slice_chars(&chars, found + scheme.len(), chars.len());
            let next: usize = find_text(&after, &scheme, 0);
            let part = slice_chars(&after, 0, next);
            let slash: usize = find_char(&part, '/');
            if slash < part.len() {
                string_of(&slice_chars(&part, slash + 1, part.len()))
            } else {
                String::new()
            }
        },
        None => String::new(),
    }
}

/// Where a search finds the text, the whole of it lies within.
pub proof fn lemma_search_fits(text: Seq<char>, needle: Seq<char>, from: int)
    requires
        0 <= from,
    ensures
        search(text, needle, from) < text.len() ==> search(text, needle, from) + needle.len()
            <= text.len(),
        from <= text.len() ==> from <= search(text, needle, from) <= text.len(),
    decreases text.len() - from,
{
    if !(from >= text.len() || from + needle.len() > text.len()) && !(text.subrange(
        from,
        from + needle.len(),
    ) == needle) {
        lemma_search_fits(text, needle, from + 1);
    }
}

} // verus!
