//! The headers of a response that carries an object.

use vstd::prelude::*;
use vstd::string::*;
use crate::ordered::{distinct_keys, lemma_first_index_is, Entries, StringMap};
use crate::text::{decimal, decimal_text, push_char, push_decimal};
use crate::values::{optional_text, DavProperties, Properties, Range};

verus! {

/// The response headers that the object store hands on with a download,
/// as plain values.
#[derive(Debug, Clone, PartialEq, Eq)]
pub struct ResponseHeaders {
    pub cache_control: Option<String>,
    /// The expiry time for caches, already written out.
    pub cache_expiry: Option<String>,
    pub content_disposition: Option<String>,
    pub content_encoding: Option<String>,
}

/// The model of the response headers of a download.
pub struct Passthrough {
    pub cache_control: Option<Seq<char>>,
    pub cache_expiry: Option<Seq<char>>,
    pub content_disposition: Option<Seq<char>>,
    pub content_encoding: Option<Seq<char>>,
}

impl View for ResponseHeaders {
    type V = Passthrough;

    open spec fn view(&self) -> Passthrough {
        Passthrough {
            cache_control: optional_text(self.cache_control),
            cache_expiry: optional_text(self.cache_expiry),
            content_disposition: optional_text(self.content_disposition),
            content_encoding: optional_text(self.content_encoding),
        }
    }
}

/// Whether a range has its ends in order where it has both.
pub open spec fn ordered(range: Range) -> bool {
    match (range.start, range.end) {
        (Some(start), Some(end)) => start <= end,
        _ => true,
    }
}

/// Whether a range has both ends.
pub open spec fn bounded(range: Range) -> bool {
    range.start is Some && range.end is Some
}

/// The number of bytes that a range with both ends covers.
pub open spec fn span(start: u32, end: u32) -> nat {
    (end - start + 1) as nat
}

/// The value of `Content-Range` for a range with both ends: the ends, then
/// the number of bytes between them, both included.
pub open spec fn content_range(start: u32, end: u32) -> Seq<char> {
    "bytes "@ + decimal(start as nat) + seq!['-'] + decimal(end as nat) + seq!['/'] + decimal(
        span(start, end),
    )
}

/// The value of `Content-Range` for a range, where it has both ends.
pub open spec fn content_range_of(range: Range) -> Option<Seq<char>> {
    match (range.start, range.end) {
        (Some(start), Some(end)) => Some(content_range(start, end)),
        _ => None,
    }
}

/// A header that is sent only where there is a value for it.
pub open spec fn entry_if(key: Seq<char>, value: Option<Seq<char>>) -> Entries {
    match value {
        Some(text) => seq![(key, text)],
        None => Seq::empty(),
    }
}

/// The content type of an object, with the fallback for one without.
pub open spec fn content_type_of(properties: Properties) -> Seq<char> {
    match properties.get_content_type {
        Some(text) => text,
        None => "application/octet-stream"@,
    }
}

/// The content length of an object in decimal, zero for one without.
pub open spec fn content_length_of(properties: Properties) -> Seq<char> {
    match properties.get_content_length {
        Some(n) => decimal(n as nat),
        None => "0"@,
    }
}

/// The headers of a response that carries an object: three that are always
/// there, then each of the others for which there is a value, and last the
/// content range where the request asked for a range with both ends.
pub open spec fn object_headers(properties: Properties, extra: Passthrough, range: Range) -> Entries {
    seq![
        ("Accept-Ranges"@, "bytes"@),
        ("Content-Type"@, content_type_of(properties)),
        ("Content-Length"@, content_length_of(properties)),
    ] + entry_if("ETag"@, properties.get_etag) + entry_if(
        "Last-Modified"@,
        properties.get_last_modified,
    ) + entry_if("Cache-Control"@, extra.cache_control) + entry_if("Expires"@, extra.cache_expiry)
        + entry_if("Content-Disposition"@, extra.content_disposition) + entry_if(
        "Content-Encoding"@,
        extra.content_encoding,
    ) + entry_if("Content-Range"@, content_range_of(range))
}

/// The names of the headers of such a response, in the order in which they
/// are set.
pub open spec fn header_names() -> Seq<Seq<char>> {
    seq![
        "Accept-Ranges"@,
        "Content-Type"@,
        "Content-Length"@,
        "ETag"@,
        "Last-Modified"@,
        "Cache-Control"@,
        "Expires"@,
        "Content-Disposition"@,
        "Content-Encoding"@,
        "Content-Range"@,
    ]
}

/// Whether a name is one of the first `rank` header names.
pub open spec fn among_first(name: Seq<char>, rank: int) -> bool {
    exists|r: int| 0 <= r < rank && r < header_names().len() && #[trigger] header_names()[r] == name
}

/// Whether every entry is named by one of the first `rank` header names.
pub open spec fn named_within(entries: Entries, rank: int) -> bool {
    forall|i: int| 0 <= i < entries.len() ==> among_first((#[trigger] entries[i]).0, rank)
}

/// No two header names are the same.
pub proof fn lemma_header_names_differ()
    ensures
        header_names().len() == 10,
        forall|i: int, j: int|
            0 <= i < j < 10 ==> #[trigger] header_names()[i] != #[trigger] header_names()[j],
{
    reveal_strlit("Accept-Ranges");
    reveal_strlit("Content-Type");
    reveal_strlit("Content-Length");
    reveal_strlit("ETag");
    reveal_strlit("Last-Modified");
    reveal_strlit("Cache-Control");
    reveal_strlit("Expires");
    reveal_strlit("Content-Disposition");
    reveal_strlit("Content-Encoding");
    reveal_strlit("Content-Range");
    let names = header_names();
    assert(names[0].len() == 13 && names[0][0] == 'A');
    assert(names[1].len() == 12);
    assert(names[2].len() == 14);
    assert(names[3].len() == 4);
    assert(names[4].len() == 13 && names[4][0] == 'L');
    assert(names[5].len() == 13 && names[5][0] == 'C' && names[5][1] == 'a');
    assert(names[6].len() == 7);
    assert(names[7].len() == 19);
    assert(names[8].len() == 16);
    assert(names[9].len() == 13 && names[9][0] == 'C' && names[9][1] == 'o');
}

/// Sets the header of the given rank where there is a value for it. The
/// headers so far are named by earlier header names, so the new one goes to
/// the end.
fn set_header(headers: &mut StringMap, rank: Ghost<int>, key: &str, value: Option<String>)
    requires
        0 <= rank@ < 10,
        key@ == header_names()[rank@],
        named_within(old(headers)@, rank@),
        old(headers).wf(),
    ensures
        final(headers)@ == old(headers)@ + entry_if(key@, optional_text(value)),
        named_within(final(headers)@, rank@ + 1),
        final(headers).wf(),
{
    let ghost before = headers@;
    proof {
        lemma_header_names_differ();
        assert forall|i: int| 0 <= i < before.len() implies (#[trigger] before[i]).0 != key@ by {
            assert(among_first(before[i].0, rank@));
        }
        lemma_first_index_is(before, key@, before.len() as int);
    }
    match value {
        Some(text) => {
            headers.insert(String::from_str(key), text);
            assert(headers@ =~= before + entry_if(key@, optional_text(value)));
        },
        None => {
            assert(headers@ =~= before + entry_if(key@, optional_text(value)));
        },
    }
    proof {
        assert forall|i: int| 0 <= i < headers@.len() implies among_first(
            (#[trigger] headers@[i]).0,
            rank@ + 1,
        ) by {
            if i < before.len() {
                assert(among_first(before[i].0, rank@));
                let r = choose|r: int|
                    0 <= r < rank@ && r < header_names().len() && #[trigger] header_names()[r]
                        == before[i].0;
                assert(header_names()[r] == headers@[i].0);
            } else {
                assert(header_names()[rank@] == headers@[i].0);
            }
        }
    }
}

/// The value of `Content-Range` for a range with both ends in order.
pub fn content_range_text(start: u32, end: u32) -> (out: String)
    requires
        start <= end,
    ensures
        out@ == content_range(start, end),
{
    let mut out = String::from_str("bytes ");
    push_decimal(&mut out, start as u64);
    push_char(&mut out, '-');
    push_decimal(&mut out, end as u64);
    push_char(&mut out, '/');
    push_decimal(&mut out, (end - start) as u64 + 1);
    assert(out@ =~= content_range(start, end));
    out
}

/// The headers of a response that carries an object.
pub fn build_object_headers(properties: DavProperties, extra: ResponseHeaders, range: Range) -> (headers:
    StringMap)
    requires
        ordered(range),
    ensures
        headers@ == object_headers(properties@, extra@, range),
        distinct_keys(headers@),
{
    let ghost wanted = object_headers(properties@, extra@, range);
    let content_type: String = match properties.get_content_type {
        Some(text) => text,
        None => String::from_str("application/octet-stream"),
    };
    let content_length: String = match properties.get_content_length {
        Some(n) => decimal_text(n),
        None => String::from_str("0"),
    };
    let span_text: Option<String> = match (range.start, range.end) {
        (Some(start), Some(end)) => Some(content_range_text(start, end)),
        _ => None,
    };
    let mut headers = StringMap::new();
    assert(named_within(headers@, 0));
    set_header(&mut headers, Ghost(0), "Accept-Ranges", Some(String::from_str("bytes")));
    set_header(&mut headers, Ghost(1), "Content-Type", Some(content_type));
    set_header(&mut headers, Ghost(2), "Content-Length", Some(content_length));
    set_header(&mut headers, Ghost(3), "ETag", properties.get_etag);
    set_header(&mut headers, Ghost(4), "Last-Modified", properties.get_last_modified);
    set_header(&mut headers, Ghost(5), "Cache-Control", extra.cache_control);
    set_header(&mut headers, Ghost(6), "Expires", extra.cache_expiry);
    set_header(&mut headers, Ghost(7), "Content-Disposition", extra.content_disposition);
    set_header(&mut headers, Ghost(8), "Content-Encoding", extra.content_encoding);
    set_header(&mut headers, Ghost(9), "Content-Range", span_text);
    assert(headers@ =~= wanted);
    headers
}

} // verus!
