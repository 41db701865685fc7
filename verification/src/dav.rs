//! The WebDAV protocol engine: one operation for each supported method.
//!
//! The engine holds no state and performs no I/O. An operation that needs
//! the object store answers with the call to make; the outcome of that call
//! goes to the operation's second half, which shapes the response.

use vstd::prelude::*;
use vstd::string::*;
use vstd::std_specs::convert::FromSpecImpl;
use crate::headers::{
    bounded, build_object_headers, object_headers, ordered, Passthrough, ResponseHeaders,
};
use crate::multistatus::{
    bare_node, found_response, multistatus, multistatus_node, propstat_acknowledged,
    propstat_acknowledged_node, propstat_found_node, response_element, response_node,
};
use crate::ordered::{lemma_first_index_is, upsert, Entries, StringMap};
use crate::props::{bare, prop_element};
use crate::text::{ends_with_separator, is_collection_path};
use crate::values::{DavProperties, Depth, Overwrite, Properties, Range};
use crate::events::{decoded_stream, xml_events, Token};
use crate::roundtrip::{lemma_normal_keeps_shape, lemma_round_trip, normal, tokens_of};
use crate::xml::{assemble, document, Element, XMLNode};

verus! {

/// A buffered response: status, headers and body.
pub type DavResponse = (u16, StringMap, String);

/// An error response: status, headers where there are any, and a message
/// where there is one.
pub type DavErrResponse = (u16, Option<StringMap>, Option<String>);

/// The status and headers of a streamed response. The byte stream itself
/// never passes through the engine: the caller attaches it.
pub type DavStreamResponse = (u16, StringMap);

/// The model of a response of either kind.
pub enum Reply {
    /// A success with its status, headers and buffered body.
    Success { status: u16, headers: Entries, body: Seq<char> },
    /// A success whose body is streamed.
    Streamed { status: u16, headers: Entries },
    /// An error.
    Failure { status: u16, extra: Option<Entries>, message: Option<Seq<char>> },
}

/// The model of optional headers.
pub open spec fn optional_headers(headers: Option<StringMap>) -> Option<Entries> {
    match headers {
        Some(entries) => Some(entries@),
        None => None,
    }
}

/// The model of an optional message.
pub open spec fn optional_message(message: Option<String>) -> Option<Seq<char>> {
    match message {
        Some(text) => Some(text@),
        None => None,
    }
}

/// The model of an error response.
pub open spec fn failure_of(error: DavErrResponse) -> Reply {
    Reply::Failure {
        status: error.0,
        extra: optional_headers(error.1),
        message: optional_message(error.2),
    }
}

/// The model of the outcome of an operation with a buffered body.
pub open spec fn reply_of(outcome: Result<DavResponse, DavErrResponse>) -> Reply {
    match outcome {
        Ok(response) => Reply::Success {
            status: response.0,
            headers: response.1@,
            body: response.2@,
        },
        Err(error) => failure_of(error),
    }
}

/// The model of the outcome of an operation with a streamed body.
pub open spec fn stream_reply_of(outcome: Result<DavStreamResponse, DavErrResponse>) -> Reply {
    match outcome {
        Ok(response) => Reply::Streamed { status: response.0, headers: response.1@ },
        Err(error) => failure_of(error),
    }
}

/// An error with a status and nothing else.
pub open spec fn plain_failure(status: u16) -> Reply {
    Reply::Failure { status, extra: None, message: None }
}

/// An error with a status and a message.
pub open spec fn failure_with(status: u16, message: Seq<char>) -> Reply {
    Reply::Failure { status, extra: None, message: Some(message) }
}

/// A success without headers or body.
pub open spec fn empty_success(status: u16) -> Reply {
    Reply::Success { status, headers: Seq::empty(), body: Seq::empty() }
}

/// The outcome of an operation, of either kind.
#[derive(Debug)]
pub enum DavResponseType {
    DavResponse(Result<DavResponse, DavErrResponse>),
    DavStreamResponse(Result<DavStreamResponse, DavErrResponse>),
}

impl DavResponseType {
    /// The model of the outcome.
    pub open spec fn reply(self) -> Reply {
        match self {
            DavResponseType::DavResponse(outcome) => reply_of(outcome),
            DavResponseType::DavStreamResponse(outcome) => stream_reply_of(outcome),
        }
    }
}

impl From<Result<DavResponse, DavErrResponse>> for DavResponseType {
    fn from(value: Result<DavResponse, DavErrResponse>) -> (outcome: DavResponseType) {
        DavResponseType::DavResponse(value)
    }
}

impl FromSpecImpl<Result<DavResponse, DavErrResponse>> for DavResponseType {
    open spec fn obeys_from_spec() -> bool {
        true
    }

    open spec fn from_spec(value: Result<DavResponse, DavErrResponse>) -> DavResponseType {
        DavResponseType::DavResponse(value)
    }
}

impl From<Result<DavStreamResponse, DavErrResponse>> for DavResponseType {
    fn from(value: Result<DavStreamResponse, DavErrResponse>) -> (outcome: DavResponseType) {
        DavResponseType::DavStreamResponse(value)
    }
}

impl FromSpecImpl<Result<DavStreamResponse, DavErrResponse>> for DavResponseType {
    open spec fn obeys_from_spec() -> bool {
        true
    }

    open spec fn from_spec(value: Result<DavStreamResponse, DavErrResponse>) -> DavResponseType {
        DavResponseType::DavStreamResponse(value)
    }
}

/// The part of an object that a download asks the store for.
#[derive(Debug, Clone, Copy, PartialEq, Eq, Structural)]
pub enum BackendRange {
    /// `length` bytes from `offset` on.
    OffsetWithLength { offset: u64, length: u64 },
    /// Everything from `offset` on.
    OffsetToEnd { offset: u64 },
    /// The last `suffix` bytes.
    Suffix { suffix: u64 },
}

/// What the caller of an operation has to do next.
#[derive(Debug)]
pub enum Action {
    /// Send this response: the operation is done.
    Respond(Result<DavResponse, DavErrResponse>),
    /// List the objects under a prefix.
    List { prefix: String },
    /// Look up one object.
    Get { key: String },
    /// Download one object, or a part of it.
    Download { key: String, range: Option<BackendRange> },
    /// Delete one object.
    Delete { key: String },
    /// Store the request body, of the declared length, under a key.
    Put { key: String, content_length: u64 },
}

/// The model of an action.
pub enum Plan {
    Respond(Reply),
    List { prefix: Seq<char> },
    Get { key: Seq<char> },
    Download { key: Seq<char>, range: Option<BackendRange> },
    Delete { key: Seq<char> },
    Put { key: Seq<char>, content_length: u64 },
}

impl View for Action {
    type V = Plan;

    open spec fn view(&self) -> Plan {
        match *self {
            Action::Respond(outcome) => Plan::Respond(reply_of(outcome)),
            Action::List { prefix } => Plan::List { prefix: prefix@ },
            Action::Get { key } => Plan::Get { key: key@ },
            Action::Download { key, range } => Plan::Download { key: key@, range },
            Action::Delete { key } => Plan::Delete { key: key@ },
            Action::Put { key, content_length } => Plan::Put { key: key@, content_length },
        }
    }
}

/// The response to COPY: only a collection copied with all that is below
/// it is accepted.
pub open spec fn copy_reply(path: Seq<char>, depth: Depth) -> Reply {
    if !is_collection_path(path) {
        failure_with(400, "Unsupported copy resource"@)
    } else {
        match depth {
            Depth::Zero => failure_with(400, "Unsupported copy collection"@),
            Depth::Infinity => empty_success(200),
            Depth::One => failure_with(400, "Unsupported copy depth"@),
        }
    }
}

/// The response to MOVE: only a collection moved with all that is below it
/// is accepted.
pub open spec fn move_reply(path: Seq<char>, depth: Depth) -> Reply {
    if !is_collection_path(path) {
        failure_with(400, "Unsupported move resource"@)
    } else {
        match depth {
            Depth::Zero => failure_with(400, "Unsupported move collection"@),
            Depth::Infinity => empty_success(200),
            Depth::One => failure_with(400, "Unsupported move depth"@),
        }
    }
}

/// The response to MKCOL: a body is not understood, and without one the
/// collection counts as created.
pub open spec fn mkcol_reply(body: Seq<char>) -> Reply {
    if body.len() > 0 {
        plain_failure(415)
    } else {
        empty_success(201)
    }
}

/// The first step of PUT: a collection path is refused without touching
/// the store, anything else is stored.
pub open spec fn put_plan(path: Seq<char>, content_length: u64) -> Plan {
    if is_collection_path(path) {
        Plan::Respond(plain_failure(405))
    } else {
        Plan::Put { key: path, content_length }
    }
}

/// The response once the store has answered a write or a delete: the given
/// status on success, 400 with the store's message otherwise.
pub open spec fn stored_reply(status: u16, failure: Option<Seq<char>>) -> Reply {
    match failure {
        None => empty_success(status),
        Some(message) => failure_with(400, message),
    }
}

/// The first step of PROPFIND, given whether the request body was there
/// and could be read as a document.
pub open spec fn propfind_plan(path: Seq<char>, depth: Depth, readable: bool) -> Plan {
    if !readable {
        Plan::Respond(plain_failure(415))
    } else {
        match depth {
            Depth::One => Plan::List { prefix: path },
            Depth::Zero => Plan::Get { key: path },
            Depth::Infinity => Plan::Respond(plain_failure(400)),
        }
    }
}

/// The headers of a response that carries an XML document.
pub open spec fn xml_headers() -> Entries {
    seq![("Content-Type"@, "application/xml; charset=utf-8"@)]
}

/// The model of a listing: each key with the properties of its object.
pub open spec fn listing_view(items: Seq<(String, DavProperties)>) -> Seq<(Seq<char>, Properties)> {
    Seq::new(items.len(), |i: int| (items[i].0@, items[i].1@))
}

/// One response for each listed object, in the order of the listing.
pub open spec fn listing_responses(items: Seq<(Seq<char>, Properties)>) -> Seq<Element> {
    Seq::new(
        items.len(),
        |i: int| found_response(items[i].0, prop_element(items[i].1, Seq::empty())),
    )
}

/// The response to PROPFIND on a collection and its children, once the
/// store has listed them: one response per listed object, or 404 with the
/// store's message.
pub open spec fn propfind_listed_reply(
    listed: Result<Seq<(Seq<char>, Properties)>, Seq<char>>,
) -> Reply {
    match listed {
        Ok(items) => Reply::Success {
            status: 207,
            headers: xml_headers(),
            body: document(multistatus(listing_responses(items))),
        },
        Err(message) => failure_with(404, message),
    }
}

/// What a lookup of one object gives: its key, its properties and its
/// custom metadata.
pub type Found = (Seq<char>, Properties, Entries);

/// The response to PROPFIND on one resource, once the store has looked it
/// up. An object that was found is reported with its properties and custom
/// metadata. A collection path counts as a collection without properties
/// even where the store holds nothing under it; for any other path a
/// failed lookup is 404 with the store's message.
pub open spec fn propfind_found_reply(path: Seq<char>, found: Result<Found, Seq<char>>) -> Reply {
    match found {
        Ok(object) => Reply::Success {
            status: 207,
            headers: xml_headers(),
            body: document(
                multistatus(seq![found_response(object.0, prop_element(object.1, object.2))]),
            ),
        },
        Err(message) => if is_collection_path(path) {
            Reply::Success {
                status: 207,
                headers: xml_headers(),
                body: document(multistatus(seq![found_response(path, bare("D:prop"@))])),
            }
        } else {
            failure_with(404, message)
        },
    }
}

/// The model of what a lookup of one object gave.
pub open spec fn found_view(
    found: Result<(String, DavProperties, Option<StringMap>), String>,
) -> Result<Found, Seq<char>> {
    match found {
        Ok(object) => Ok(
            (
                object.0@,
                object.1@,
                match object.2 {
                    Some(custom) => custom@,
                    None => Seq::empty(),
                },
            ),
        ),
        Err(message) => Err(message@),
    }
}

/// The model of what a listing gave.
pub open spec fn listed_view(listed: Result<Vec<(String, DavProperties)>, String>) -> Result<
    Seq<(Seq<char>, Properties)>,
    Seq<char>,
> {
    match listed {
        Ok(items) => Ok(listing_view(items@)),
        Err(message) => Err(message@),
    }
}

/// The response to PROPPATCH: the change is acknowledged for the addressed
/// resource, and nothing is changed.
pub open spec fn proppatch_reply(path: Seq<char>) -> Reply {
    Reply::Success {
        status: 207,
        headers: Seq::empty(),
        body: document(
            multistatus(seq![response_element(path, propstat_acknowledged(bare("D:prop"@)))]),
        ),
    }
}

/// The headers that tell a client what the server is capable of.
pub open spec fn capability_headers() -> Entries {
    seq![
        ("DAV"@, "1"@),
        ("Allow"@, "OPTIONS, PROPFIND, PROPPATCH, MKCOL, GET, HEAD, PUT, COPY, MOVE"@),
    ]
}

/// Storing under a key that no entry has appends an entry.
pub proof fn lemma_upsert_new(entries: Entries, key: Seq<char>, value: Seq<char>)
    requires
        forall|i: int| 0 <= i < entries.len() ==> (#[trigger] entries[i]).0 != key,
    ensures
        upsert(entries, key, value) == entries.push((key, value)),
{
    lemma_first_index_is(entries, key, entries.len() as int);
}

/// The WebDAV protocol engine.
#[derive(Debug, Clone, Copy)]
pub struct Dav {}

/// The capability headers as a mapping.
fn capabilities() -> (headers: StringMap)
    ensures
        headers@ == capability_headers(),
{
    let mut headers = StringMap::new();
    headers.insert(String::from_str("DAV"), String::from_str("1"));
    proof {
        lemma_upsert_new(Seq::empty(), "DAV"@, "1"@);
    }
    let ghost one = headers@;
    headers.insert(
        String::from_str("Allow"),
        String::from_str("OPTIONS, PROPFIND, PROPPATCH, MKCOL, GET, HEAD, PUT, COPY, MOVE"),
    );
    proof {
        reveal_strlit("DAV");
        reveal_strlit("Allow");
        assert("DAV"@.len() != "Allow"@.len());
        lemma_upsert_new(
            one,
            "Allow"@,
            "OPTIONS, PROPFIND, PROPPATCH, MKCOL, GET, HEAD, PUT, COPY, MOVE"@,
        );
        assert(headers@ =~= capability_headers());
    }
    headers
}

/// The part of an object that the store is asked for: offset and length
/// for a range with both ends, everything from the offset on for one with
/// a start only, the last bytes for one with an end only, and the whole
/// object for a range without ends.
pub open spec fn backend_range_of(range: Range) -> Option<BackendRange> {
    match (range.start, range.end) {
        (Some(start), Some(end)) => Some(
            BackendRange::OffsetWithLength {
                offset: start as u64,
                length: (end - start + 1) as u64,
            },
        ),
        (Some(start), None) => Some(BackendRange::OffsetToEnd { offset: start as u64 }),
        (None, Some(end)) => Some(BackendRange::Suffix { suffix: end as u64 }),
        (None, None) => None,
    }
}

/// The model of what a download gave, apart from the bytes.
pub open spec fn downloaded_view(downloaded: Result<(DavProperties, ResponseHeaders), String>) -> Result<
    (Properties, Passthrough),
    Seq<char>,
> {
    match downloaded {
        Ok(object) => Ok((object.0@, object.1@)),
        Err(message) => Err(message@),
    }
}

/// The status of a response that carries an object: 206 where the request
/// asked for a range with both ends, 200 otherwise.
pub open spec fn object_status(range: Range) -> u16 {
    if bounded(range) {
        206
    } else {
        200
    }
}

/// The response to GET on a resource, once the store has answered: the
/// object's headers with status 200 or 206, or 404 with the store's message.
pub open spec fn get_obj_reply(
    range: Range,
    downloaded: Result<(Properties, Passthrough), Seq<char>>,
) -> Reply {
    match downloaded {
        Ok(object) => Reply::Streamed {
            status: object_status(range),
            headers: object_headers(object.0, object.1, range),
        },
        Err(message) => failure_with(404, message),
    }
}

/// The response to HEAD on a resource: as for GET, with an empty body.
pub open spec fn head_obj_reply(
    range: Range,
    downloaded: Result<(Properties, Passthrough), Seq<char>>,
) -> Reply {
    match downloaded {
        Ok(object) => Reply::Success {
            status: object_status(range),
            headers: object_headers(object.0, object.1, range),
            body: Seq::empty(),
        },
        Err(message) => failure_with(404, message),
    }
}

/// The headers of a response that carries a directory listing.
pub open spec fn html_headers() -> Entries {
    seq![("Content-Type"@, "application/html; charset=utf-8"@)]
}

/// The text under which a listed object is shown: its display name, or its
/// key where it has none.
pub open spec fn label_of(item: (Seq<char>, Properties)) -> Seq<char> {
    match item.1.display_name {
        Some(name) => name,
        None => item.0,
    }
}

/// The link to a listed object.
pub open spec fn link_to(item: (Seq<char>, Properties)) -> Seq<char> {
    "<a href=\""@ + item.0 + "\">"@ + label_of(item) + "</a>"@
}

/// The links to the first `n` listed objects, separated by a comma and a
/// space.
pub open spec fn links(items: Seq<(Seq<char>, Properties)>, n: nat) -> Seq<char>
    decreases n,
{
    if n == 0 || n > items.len() {
        Seq::empty()
    } else if n == 1 {
        link_to(items[0])
    } else {
        links(items, (n - 1) as nat) + ", "@ + link_to(items[n - 1])
    }
}

/// The response to GET on a collection, once the store has listed it: a
/// page of links, or 404 with the store's message.
pub open spec fn get_dir_reply(listed: Result<Seq<(Seq<char>, Properties)>, Seq<char>>) -> Reply {
    match listed {
        Ok(items) => Reply::Success {
            status: 200,
            headers: html_headers(),
            body: links(items, items.len()),
        },
        Err(message) => failure_with(404, message),
    }
}

/// The response to HEAD on a collection: as for GET, with an empty body.
pub open spec fn head_dir_reply(listed: Result<Seq<(Seq<char>, Properties)>, Seq<char>>) -> Reply {
    match listed {
        Ok(items) => Reply::Success { status: 200, headers: html_headers(), body: Seq::empty() },
        Err(message) => failure_with(404, message),
    }
}

/// The part of an object that the store is asked for.
pub fn backend_range(range: Range) -> (part: Option<BackendRange>)
    requires
        ordered(range),
    ensures
        part == backend_range_of(range),
{
    match (range.start, range.end) {
        (Some(start), Some(end)) => Some(
            BackendRange::OffsetWithLength {
                offset: start as u64,
                length: (end - start) as u64 + 1,
            },
        ),
        (Some(start), None) => Some(BackendRange::OffsetToEnd { offset: start as u64 }),
        (None, Some(end)) => Some(BackendRange::Suffix { suffix: end as u64 }),
        (None, None) => None,
    }
}

/// The headers of a response that carries a directory listing, as a
/// mapping.
fn html_content_type() -> (headers: StringMap)
    ensures
        headers@ == html_headers(),
{
    let mut headers = StringMap::new();
    headers.insert(
        String::from_str("Content-Type"),
        String::from_str("application/html; charset=utf-8"),
    );
    proof {
        lemma_upsert_new(Seq::empty(), "Content-Type"@, "application/html; charset=utf-8"@);
        assert(headers@ =~= html_headers());
    }
    headers
}

/// The headers of a response that carries an XML document, as a mapping.
fn xml_content_type() -> (headers: StringMap)
    ensures
        headers@ == xml_headers(),
{
    let mut headers = StringMap::new();
    headers.insert(
        String::from_str("Content-Type"),
        String::from_str("application/xml; charset=utf-8"),
    );
    proof {
        lemma_upsert_new(Seq::empty(), "Content-Type"@, "application/xml; charset=utf-8"@);
        assert(headers@ =~= xml_headers());
    }
    headers
}

impl Dav {
    /// The engine.
    pub fn new() -> Dav {
        Dav {  }
    }

    /// The answer to a method that the engine does not support: status
    /// 405 with the capability headers.
    pub fn handle_unsupport_method(&self) -> (outcome: Result<DavResponse, DavErrResponse>)
        ensures
            reply_of(outcome) == (Reply::Failure {
                status: 405,
                extra: Some(capability_headers()),
                message: None,
            }),
    {
        Err((405, Some(capabilities()), None))
    }

    /// The answer to OPTIONS: status 204 with the capability headers and
    /// an empty body.
    pub fn handle_options(&self) -> (outcome: Result<DavResponse, DavErrResponse>)
        ensures
            reply_of(outcome) == (Reply::Success {
                status: 204,
                headers: capability_headers(),
                body: Seq::empty(),
            }),
    {
        Ok((204, capabilities(), String::new()))
    }

    /// PROPPATCH: acknowledges the change for the addressed resource.
    pub fn handle_proppatch(&self, path: String, req_body: String) -> (outcome: Result<
        DavResponse,
        DavErrResponse,
    >)
        ensures
            reply_of(outcome) == proppatch_reply(path@),
    {
        let mut root = multistatus_node();
        let propstat = propstat_acknowledged_node(bare_node("D:prop"));
        let ghost href = path@;
        root.add(response_node(path, propstat));
        assert(root@.elements =~= seq![
            response_element(href, propstat_acknowledged(bare("D:prop"@))),
        ]);
        Ok((207, StringMap::new(), root.build()))
    }

    /// MKCOL: refuses a request with a body; otherwise the collection
    /// counts as created, since the store has no directories.
    pub fn handle_mkcol(&self, path: String, req_body: String) -> (outcome: Result<
        DavResponse,
        DavErrResponse,
    >)
        ensures
            reply_of(outcome) == mkcol_reply(req_body@),
    {
        if req_body.as_str().unicode_len() > 0 {
            return Err((415, None, None));
        }
        Ok((201, StringMap::new(), String::new()))
    }

    /// DELETE, first half: the object under the path is to be deleted.
    pub fn handle_delete(&self, path: String) -> (action: Action)
        ensures
            action@ == (Plan::Delete { key: path@ }),
    {
        Action::Delete { key: path }
    }

    /// DELETE, second half: 204 once the store has deleted the object, 400
    /// with the store's message where it could not.
    pub fn finish_delete(&self, deleted: Result<(), String>) -> (outcome: Result<
        DavResponse,
        DavErrResponse,
    >)
        ensures
            reply_of(outcome) == stored_reply(
                204,
                match deleted {
                    Ok(_) => None,
                    Err(message) => Some(message@),
                },
            ),
    {
        match deleted {
            Ok(_) => Ok((204, StringMap::new(), String::new())),
            Err(message) => Err((400, None, Some(message))),
        }
    }

    /// PUT, first half: a collection path is refused with 405 before the
    /// store is touched; otherwise the body is to be stored under the path.
    pub fn handle_put(&self, path: String, content_length: u64) -> (action: Action)
        ensures
            action@ == put_plan(path@, content_length),
    {
        if ends_with_separator(path.as_str()) {
            return Action::Respond(Err((405, None, None)));
        }
        Action::Put { key: path, content_length }
    }

    /// PUT, second half: 201 once the store has taken the object, 400 with
    /// the store's message where it has not.
    pub fn finish_put(&self, stored: Result<DavProperties, String>) -> (outcome: Result<
        DavResponse,
        DavErrResponse,
    >)
        ensures
            reply_of(outcome) == stored_reply(
                201,
                match stored {
                    Ok(_) => None,
                    Err(message) => Some(message@),
                },
            ),
    {
        match stored {
            Ok(_) => Ok((201, StringMap::new(), String::new())),
            Err(message) => Err((400, None, Some(message))),
        }
    }

    /// COPY: accepted for a collection with all that is below it, refused
    /// for everything else. Nothing is copied.
    pub fn handle_copy(
        &self,
        path: String,
        destination: String,
        depth: Depth,
        overwrite: Overwrite,
    ) -> (outcome: Result<DavResponse, DavErrResponse>)
        ensures
            reply_of(outcome) == copy_reply(path@, depth),
    {
        if ends_with_separator(path.as_str()) {
            match depth {
                Depth::Zero => Err(
                    (400, None, Some(String::from_str("Unsupported copy collection"))),
                ),
                Depth::Infinity => Ok((200, StringMap::new(), String::new())),
                Depth::One => Err((400, None, Some(String::from_str("Unsupported copy depth")))),
            }
        } else {
            Err((400, None, Some(String::from_str("Unsupported copy resource"))))
        }
    }

    /// MOVE: accepted for a collection with all that is below it, refused
    /// for everything else. Nothing is moved.
    pub fn handle_move(
        &self,
        path: String,
        destination: String,
        depth: Depth,
        overwrite: Overwrite,
    ) -> (outcome: Result<DavResponse, DavErrResponse>)
        ensures
            reply_of(outcome) == move_reply(path@, depth),
    {
        if ends_with_separator(path.as_str()) {
            match depth {
                Depth::Zero => Err(
                    (400, None, Some(String::from_str("Unsupported move collection"))),
                ),
                Depth::Infinity => Ok((200, StringMap::new(), String::new())),
                Depth::One => Err((400, None, Some(String::from_str("Unsupported move depth")))),
            }
        } else {
            Err((400, None, Some(String::from_str("Unsupported move resource"))))
        }
    }

    /// PROPFIND, first half, once it is known whether the request body was
    /// there and could be read: an unreadable body is 415, depth infinity
    /// is 400, depth one lists the children and depth zero looks up the
    /// resource.
    pub fn plan_propfind(&self, path: String, depth: Depth, readable: bool) -> (action: Action)
        ensures
            action@ == propfind_plan(path@, depth, readable),
    {
        if !readable {
            return Action::Respond(Err((415, None, None)));
        }
        match depth {
            Depth::One => Action::List { prefix: path },
            Depth::Zero => Action::Get { key: path },
            Depth::Infinity => Action::Respond(Err((400, None, None))),
        }
    }

    /// PROPFIND, first half: reads the request body as a document and
    /// decides from that and the depth what to do.
    pub fn handle_propfind(&self, path: String, depth: Depth, req_body: String) -> (action:
        Action)
        ensures
            action@ == propfind_plan(
                path@,
                depth,
                req_body@.len() > 0 && assemble(decoded_stream(xml_events(req_body@))) is Ok,
            ),
    {
        let readable = req_body.as_str().unicode_len() > 0 && XMLNode::parse_xml(
            req_body.as_str(),
        ).is_ok();
        self.plan_propfind(path, depth, readable)
    }

    /// PROPFIND with depth one, second half: reports every listed object
    /// with its properties, or 404 with the store's message.
    pub fn finish_propfind_list(&self, listed: Result<Vec<(String, DavProperties)>, String>) -> (outcome:
        Result<DavResponse, DavErrResponse>)
        ensures
            reply_of(outcome) == propfind_listed_reply(listed_view(listed)),
    {
        match listed {
            Ok(items) => {
                let mut root = multistatus_node();
                let ghost wanted = listing_responses(listing_view(items@));
                assert(wanted.subrange(0, 0) =~= Seq::<Element>::empty());
                let mut i: usize = 0;
                while i < items.len()
                    invariant
                        i <= items.len(),
                        wanted == listing_responses(listing_view(items@)),
                        root@ == multistatus(wanted.subrange(0, i as int)),
                    decreases items.len() - i,
                {
                    let prop = items[i].1.to_xml_prop(None);
                    let href: String = items[i].0.clone();
                    root.add(response_node(href, propstat_found_node(prop)));
                    i += 1;
                    assert(root@.elements =~= wanted.subrange(0, i as int));
                }
                assert(wanted.subrange(0, i as int) =~= wanted);
                Ok((207, xml_content_type(), root.build()))
            },
            Err(message) => Err((404, None, Some(message))),
        }
    }

    /// PROPFIND with depth zero, second half: reports the object that was
    /// found, with its properties and custom metadata. Where nothing was
    /// found, a collection path is reported without properties and any
    /// other path is 404 with the store's message.
    pub fn finish_propfind_get(
        &self,
        path: String,
        found: Result<(String, DavProperties, Option<StringMap>), String>,
    ) -> (outcome: Result<DavResponse, DavErrResponse>)
        ensures
            reply_of(outcome) == propfind_found_reply(path@, found_view(found)),
    {
        match found {
            Ok((href, properties, custom)) => {
                let mut root = multistatus_node();
                let prop = properties.to_xml_prop(custom.as_ref());
                let ghost response = found_response(href@, prop@);
                root.add(response_node(href, propstat_found_node(prop)));
                assert(root@.elements =~= seq![response]);
                Ok((207, xml_content_type(), root.build()))
            },
            Err(message) => {
                if !ends_with_separator(path.as_str()) {
                    return Err((404, None, Some(message)));
                }
                let mut root = multistatus_node();
                let ghost response = found_response(path@, bare("D:prop"@));
                root.add(response_node(path, propstat_found_node(bare_node("D:prop"))));
                assert(root@.elements =~= seq![response]);
                Ok((207, xml_content_type(), root.build()))
            },
        }
    }

    /// GET on a resource, first half: the object, or the part of it that
    /// the range names, is to be downloaded.
    pub fn handle_get_obj(&self, path: String, range: Range) -> (action: Action)
        requires
            ordered(range),
        ensures
            action@ == (Plan::Download { key: path@, range: backend_range_of(range) }),
    {
        Action::Download { key: path, range: backend_range(range) }
    }

    /// GET on a resource, second half: status and headers of the response
    /// that streams the object, or 404 with the store's message.
    pub fn finish_get_obj(
        &self,
        range: Range,
        downloaded: Result<(DavProperties, ResponseHeaders), String>,
    ) -> (outcome: Result<DavStreamResponse, DavErrResponse>)
        requires
            ordered(range),
        ensures
            stream_reply_of(outcome) == get_obj_reply(range, downloaded_view(downloaded)),
    {
        match downloaded {
            Ok((properties, extra)) => {
                let headers = build_object_headers(properties, extra, range);
                if range.start.is_some() && range.end.is_some() {
                    Ok((206, headers))
                } else {
                    Ok((200, headers))
                }
            },
            Err(message) => Err((404, None, Some(message))),
        }
    }

    /// GET on a collection, first half: the objects under the path are to
    /// be listed.
    pub fn handle_get_dir(&self, path: String) -> (action: Action)
        ensures
            action@ == (Plan::List { prefix: path@ }),
    {
        Action::List { prefix: path }
    }

    /// GET on a collection, second half: a page that links to every listed
    /// object, or 404 with the store's message.
    pub fn finish_get_dir(&self, listed: Result<Vec<(String, DavProperties)>, String>) -> (outcome:
        Result<DavResponse, DavErrResponse>)
        ensures
            reply_of(outcome) == get_dir_reply(listed_view(listed)),
    {
        match listed {
            Ok(items) => {
                let ghost model = listing_view(items@);
                let mut html = String::new();
                let mut i: usize = 0;
                while i < items.len()
                    invariant
                        i <= items.len(),
                        model == listing_view(items@),
                        html@ == links(model, i as nat),
                    decreases items.len() - i,
                {
                    let ghost before = html@;
                    if i > 0 {
                        html.append(", ");
                    }
                    html.append("<a href=\"");
                    html.append(items[i].0.as_str());
                    html.append("\">");
                    match &items[i].1.display_name {
                        Some(name) => html.append(name.as_str()),
                        None => html.append(items[i].0.as_str()),
                    }
                    html.append("</a>");
                    proof {
                        let item = model[i as int];
                        assert(item == (items@[i as int].0@, items@[i as int].1@));
                        if i > 0 {
                            assert(html@ =~= before + ", "@ + link_to(item));
                        } else {
                            assert(html@ =~= link_to(item));
                        }
                    }
                    i += 1;
                }
                Ok((200, html_content_type(), html))
            },
            Err(message) => Err((404, None, Some(message))),
        }
    }

    /// HEAD on a resource, first half: as for GET.
    pub fn handle_head_obj(&self, path: String, range: Range) -> (action: Action)
        requires
            ordered(range),
        ensures
            action@ == (Plan::Download { key: path@, range: backend_range_of(range) }),
    {
        self.handle_get_obj(path, range)
    }

    /// HEAD on a resource, second half: status and headers as for GET,
    /// with an empty body.
    pub fn finish_head_obj(
        &self,
        range: Range,
        downloaded: Result<(DavProperties, ResponseHeaders), String>,
    ) -> (outcome: Result<DavResponse, DavErrResponse>)
        requires
            ordered(range),
        ensures
            reply_of(outcome) == head_obj_reply(range, downloaded_view(downloaded)),
    {
        match self.finish_get_obj(range, downloaded) {
            Ok((status_code, headers)) => Ok((status_code, headers, String::new())),
            Err(e) => Err(e),
        }
    }

    /// HEAD on a collection, first half: as for GET.
    pub fn handle_head_dir(&self, path: String) -> (action: Action)
        ensures
            action@ == (Plan::List { prefix: path@ }),
    {
        self.handle_get_dir(path)
    }

    /// HEAD on a collection, second half: status and headers as for GET,
    /// with an empty body.
    pub fn finish_head_dir(&self, listed: Result<Vec<(String, DavProperties)>, String>) -> (outcome:
        Result<DavResponse, DavErrResponse>)
        ensures
            reply_of(outcome) == head_dir_reply(listed_view(listed)),
    {
        match self.finish_get_dir(listed) {
            Ok((status_code, headers, _)) => Ok((status_code, headers, String::new())),
            Err(e) => Err(e),
        }
    }
}

/// A listing reported and read back: the events that spell out the
/// multistatus tree of a PROPFIND with depth one build a tree whose root is
/// `D:multistatus` and which has one `D:response` child for each listed
/// object.
pub proof fn lemma_listing_read_back(items: Seq<(Seq<char>, Properties)>)
    ensures
        propfind_listed_reply(Ok(items)) == (Reply::Success {
            status: 207,
            headers: xml_headers(),
            body: document(multistatus(listing_responses(items))),
        }),
        assemble(tokens_of(multistatus(listing_responses(items))).push(Token::Eof)) == Ok::<
            Element,
            Seq<char>,
        >(normal(multistatus(listing_responses(items)))),
        normal(multistatus(listing_responses(items))).name == "D:multistatus"@,
        normal(multistatus(listing_responses(items))).elements.len() == items.len(),
        forall|i: int|
            0 <= i < items.len() ==> (#[trigger] normal(
                multistatus(listing_responses(items)),
            ).elements[i]).name == "D:response"@,
{
    let tree = multistatus(listing_responses(items));
    lemma_round_trip(tree);
    lemma_normal_keeps_shape(tree);
    assert forall|i: int| 0 <= i < items.len() implies (#[trigger] normal(tree).elements[i]).name
        == "D:response"@ by {
        lemma_normal_keeps_shape(tree.elements[i]);
    }
}

/// One resource reported and read back: the events that spell out the
/// multistatus tree of a PROPFIND with depth zero, for an object that was
/// found, build a tree whose root is `D:multistatus` and which has exactly
/// one `D:response` child.
pub proof fn lemma_found_read_back(path: Seq<char>, object: Found)
    ensures
        propfind_found_reply(path, Ok(object)) == (Reply::Success {
            status: 207,
            headers: xml_headers(),
            body: document(
                multistatus(seq![found_response(object.0, prop_element(object.1, object.2))]),
            ),
        }),
        assemble(
            tokens_of(
                multistatus(seq![found_response(object.0, prop_element(object.1, object.2))]),
            ).push(Token::Eof),
        ) == Ok::<Element, Seq<char>>(
            normal(multistatus(seq![found_response(object.0, prop_element(object.1, object.2))])),
        ),
        normal(
            multistatus(seq![found_response(object.0, prop_element(object.1, object.2))]),
        ).name == "D:multistatus"@,
        normal(
            multistatus(seq![found_response(object.0, prop_element(object.1, object.2))]),
        ).elements.len() == 1,
        normal(
            multistatus(seq![found_response(object.0, prop_element(object.1, object.2))]),
        ).elements[0].name == "D:response"@,
{
    let tree = multistatus(seq![found_response(object.0, prop_element(object.1, object.2))]);
    lemma_round_trip(tree);
    lemma_normal_keeps_shape(tree);
    lemma_normal_keeps_shape(tree.elements[0]);
}

} // verus!
