//! Reading a document as a stream of events.
//!
//! The tokenizer is the `quick_xml` reader. What it yields is brought into
//! plain values here, one event at a time, and decoded into the events that
//! the tree builder consumes.

use vstd::prelude::*;
use vstd::string::*;
use quick_xml::events::attributes::Attributes;
use quick_xml::events::Event;
use quick_xml::reader::Reader;
use crate::ordered::{pairs_view, Entries};

verus! {

/// The `quick_xml` reader, carried through as an opaque value.
#[verifier::external_type_specification]
#[verifier::external_body]
#[verifier::reject_recursive_types(R)]
pub struct ExReader<R>(Reader<R>);

/// The model of an event as the reader yields it, before decoding.
pub enum RawToken {
    /// An opening tag: its name and the undecoded text of its attributes.
    Start { name: Seq<char>, attributes: Seq<char> },
    /// A closing tag.
    End,
    /// Character data, still escaped.
    Text(Seq<char>),
    /// The end of the input.
    Eof,
    /// Anything else: a declaration, a comment, a self-closing tag.
    Other,
    /// The reader gave up, with its message.
    Failure(Seq<char>),
}

/// An event as the reader yields it, before decoding.
#[derive(Debug)]
pub enum RawEvent {
    Start { name: String, attributes: String },
    End,
    Text(String),
    Eof,
    Other,
    Failure(String),
}

impl View for RawEvent {
    type V = RawToken;

    open spec fn view(&self) -> RawToken {
        match *self {
            RawEvent::Start { name, attributes } => RawToken::Start {
                name: name@,
                attributes: attributes@,
            },
            RawEvent::End => RawToken::End,
            RawEvent::Text(text) => RawToken::Text(text@),
            RawEvent::Eof => RawToken::Eof,
            RawEvent::Other => RawToken::Other,
            RawEvent::Failure(message) => RawToken::Failure(message@),
        }
    }
}

/// The model of a decoded event.
pub enum Token {
    /// An opening tag with its attributes in document order.
    Start { name: Seq<char>, attributes: Entries },
    /// A closing tag.
    End,
    /// Character data.
    Text(Seq<char>),
    /// The end of the input.
    Eof,
    /// Anything the tree builder passes over.
    Other,
    /// The document is malformed, with a message.
    Failure(Seq<char>),
}

/// A decoded event.
#[derive(Debug)]
pub enum XmlEvent {
    Start { name: String, attributes: Vec<(String, String)> },
    End,
    Text(String),
    Eof,
    Other,
    Failure(String),
}

impl View for XmlEvent {
    type V = Token;

    open spec fn view(&self) -> Token {
        match *self {
            XmlEvent::Start { name, attributes } => Token::Start {
                name: name@,
                attributes: pairs_view(attributes@),
            },
            XmlEvent::End => Token::End,
            XmlEvent::Text(text) => Token::Text(text@),
            XmlEvent::Eof => Token::Eof,
            XmlEvent::Other => Token::Other,
            XmlEvent::Failure(message) => Token::Failure(message@),
        }
    }
}

/// The events that the reader yields for a document, with surrounding
/// whitespace trimmed from character data, up to and including the first
/// end of input or failure.
pub uninterp spec fn xml_events(text: Seq<char>) -> Seq<RawToken>;

/// The events that a reader has still to yield, up to and including the
/// first end of input or failure.
pub uninterp spec fn unread(reader: Reader<&[u8]>) -> Seq<RawToken>;

/// The attributes that the undecoded text of a tag holds, as key and raw
/// value in document order, or `None` where that text is malformed or
/// repeats a key.
pub uninterp spec fn parsed_attributes(raw: Seq<char>) -> Option<Entries>;

/// Character data with its escape sequences replaced, or `None` where one
/// of them is malformed or unknown.
pub uninterp spec fn unescaped(text: Seq<char>) -> Option<Seq<char>>;

/// Whether reading stops with this event.
pub open spec fn is_last(token: RawToken) -> bool {
    token is Eof || token is Failure
}

/// A stream of events is complete: it is not empty, and exactly its last
/// event is the end of input or a failure.
pub open spec fn complete(stream: Seq<RawToken>) -> bool {
    &&& stream.len() > 0
    &&& forall|i: int| 0 <= i < stream.len() ==> (is_last(#[trigger] stream[i]) <==> i
        == stream.len() - 1)
}

/// Opens a reader on a document.
///
/// Trusted: `Reader::from_str` followed by `trim_text(true)` gives a reader
/// positioned at the start of the document, so what it has still to yield
/// is the document's whole stream of events. That stream is finite and ends
/// with the first end of input or failure: every other event consumes input.
#[verifier::external_body]
pub(crate) fn open_reader<'a>(xml: &'a str) -> (reader: Reader<&'a [u8]>)
    ensures
        unread(reader) == xml_events(xml@),
        complete(unread(reader)),
{
    let mut reader = Reader::from_str(xml);
    reader.trim_text(true);
    reader
}

/// Reads the next event.
///
/// Trusted: `Reader::read_event` yields the first of the events that the
/// reader had still to yield and, unless reading stops with it, leaves the
/// rest to be read. A failure carries the position that
/// `Reader::buffer_position` reports and the reader's error.
#[verifier::external_body]
pub(crate) fn read_next(reader: &mut Reader<&[u8]>) -> (event: RawEvent)
    requires
        complete(unread(*old(reader))),
    ensures
        event@ == unread(*old(reader))[0],
        !is_last(event@) ==> unread(*final(reader)) == unread(*old(reader)).drop_first(),
{
    let lossy = |bytes: &[u8]| String::from_utf8_lossy(bytes).into_owned();
    match reader.read_event() {
        Ok(Event::Start(e)) => RawEvent::Start {
            name: lossy(e.name().as_ref()),
            attributes: lossy(e.attributes_raw()),
        },
        Ok(Event::End(_)) => RawEvent::End,
        Ok(Event::Text(e)) => RawEvent::Text(lossy(&e)),
        Ok(Event::Eof) => RawEvent::Eof,
        Ok(_) => RawEvent::Other,
        Err(e) => RawEvent::Failure(format!("Error at position {}: {:?}", reader.buffer_position(), e)),
    }
}

/// Splits the undecoded attribute text of a tag into keys and raw values.
///
/// Trusted: the iterator that `Attributes::new` makes yields the attributes
/// in document order and an error where the text is malformed or repeats a
/// key; the result is `None` exactly where some item is an error.
#[verifier::external_body]
pub(crate) fn parse_attributes(raw: &str) -> (parsed: Option<Vec<(String, String)>>)
    ensures
        match parsed {
            Some(pairs) => parsed_attributes(raw@) == Some(pairs_view(pairs@)),
            None => parsed_attributes(raw@).is_none(),
        },
{
    let lossy = |bytes: &[u8]| String::from_utf8_lossy(bytes).into_owned();
    Attributes::new(raw, 0).map(|item| item.ok().map(|a| (lossy(a.key.as_ref()), lossy(&a.value)))).collect()
}

/// Replaces the escape sequences of character data.
///
/// Trusted: `quick_xml::escape::unescape` returns the text with every
/// escape sequence replaced, or an error where one is malformed or unknown.
#[verifier::external_body]
pub(crate) fn unescape_text(text: &str) -> (plain: Option<String>)
    ensures
        match plain {
            Some(value) => unescaped(text@) == Some(value@),
            None => unescaped(text@).is_none(),
        },
{
    quick_xml::escape::unescape(text).ok().map(|value| value.into_owned())
}

/// The message of the failure that stands for a tag whose attributes
/// cannot be decoded.
pub open spec fn bad_attributes() -> Seq<char> {
    "Malformed attributes"@
}

/// The message of the failure that stands for character data whose escape
/// sequences cannot be decoded.
pub open spec fn bad_text() -> Seq<char> {
    "Malformed character data"@
}

/// The decoded form of an event: attributes split into keys and values,
/// character data unescaped, and a failure where either cannot be done.
pub open spec fn decoded(raw: RawToken) -> Token {
    match raw {
        RawToken::Start { name, attributes } => match parsed_attributes(attributes) {
            Some(entries) => Token::Start { name, attributes: entries },
            None => Token::Failure(bad_attributes()),
        },
        RawToken::End => Token::End,
        RawToken::Text(text) => match unescaped(text) {
            Some(plain) => Token::Text(plain),
            None => Token::Failure(bad_text()),
        },
        RawToken::Eof => Token::Eof,
        RawToken::Other => Token::Other,
        RawToken::Failure(message) => Token::Failure(message),
    }
}

/// A stream of events, each decoded.
pub open spec fn decoded_stream(raw: Seq<RawToken>) -> Seq<Token> {
    Seq::new(raw.len(), |i: int| decoded(raw[i]))
}

/// The model of a list of decoded events.
pub open spec fn events_view(events: Seq<XmlEvent>) -> Seq<Token> {
    Seq::new(events.len(), |i: int| events[i]@)
}

/// Decodes one event.
pub fn decode_event(raw: RawEvent) -> (event: XmlEvent)
    ensures
        event@ == decoded(raw@),
{
    match raw {
        RawEvent::Start { name, attributes } => match parse_attributes(attributes.as_str()) {
            Some(pairs) => XmlEvent::Start { name, attributes: pairs },
            None => XmlEvent::Failure(String::from_str("Malformed attributes")),
        },
        RawEvent::End => XmlEvent::End,
        RawEvent::Text(text) => match unescape_text(text.as_str()) {
            Some(plain) => XmlEvent::Text(plain),
            None => XmlEvent::Failure(String::from_str("Malformed character data")),
        },
        RawEvent::Eof => XmlEvent::Eof,
        RawEvent::Other => XmlEvent::Other,
        RawEvent::Failure(message) => XmlEvent::Failure(message),
    }
}

/// Reads a whole document as decoded events, up to and including the first
/// end of input or reader failure.
pub fn read_events(xml: &str) -> (events: Vec<XmlEvent>)
    ensures
        events_view(events@) == decoded_stream(xml_events(xml@)),
{
    let mut reader = open_reader(xml);
    let mut events: Vec<XmlEvent> = Vec::new();
    let ghost all = xml_events(xml@);
    let mut done = false;
    while !done
        invariant
            all == xml_events(xml@),
            events@.len() <= all.len(),
            events_view(events@) == decoded_stream(all.subrange(0, events@.len() as int)),
            !done ==> complete(unread(reader)),
            !done ==> unread(reader) == all.subrange(events@.len() as int, all.len() as int),
            done ==> events@.len() == all.len(),
        decreases all.len() - events@.len() + (if done { 0int } else { 1int }),
    {
        let ghost before = events@;
        let ghost pending = unread(reader);
        let raw = read_next(&mut reader);
        proof {
            assert(pending[0] == all[before.len() as int]);
            if !is_last(raw@) {
                assert(pending.len() > 1);
                assert(pending.drop_first() =~= all.subrange(
                    before.len() as int + 1,
                    all.len() as int,
                ));
                assert forall|i: int| 0 <= i < pending.len() - 1 implies (is_last(
                    #[trigger] pending.drop_first()[i],
                ) <==> i == pending.len() - 2) by {
                    assert(pending.drop_first()[i] == pending[i + 1]);
                }
            } else {
                assert(pending.len() == 1);
            }
        }
        done = match raw {
            RawEvent::Eof => true,
            RawEvent::Failure(_) => true,
            _ => false,
        };
        let event = decode_event(raw);
        events.push(event);
        proof {
            assert(events_view(events@) =~= decoded_stream(
                all.subrange(0, events@.len() as int),
            )) by {
                let shown = events_view(events@);
                let wanted = decoded_stream(all.subrange(0, events@.len() as int));
                assert forall|i: int| 0 <= i < shown.len() implies shown[i] == wanted[i] by {
                    if i < before.len() {
                        assert(shown[i] == events_view(before)[i]);
                        assert(all.subrange(0, before.len() as int)[i] == all[i]);
                    }
                }
            }
        }
    }
    assert(all.subrange(0, all.len() as int) =~= all);
    events
}

} // verus!
