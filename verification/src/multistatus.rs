//! The `multistatus` documents that report on resources.

use vstd::prelude::*;
use vstd::string::*;
use crate::ordered::{collect, collect_prefix, lemma_first_index_is, pairs_view, Entries};
use crate::props::{bare, leaf};
use crate::xml::{Element, XMLNode};

verus! {

/// The attributes that declare the DAV namespace.
pub open spec fn dav_namespace() -> Entries {
    seq![("xmlns:D"@, "DAV:"@)]
}

/// The status line of a resource that was found.
pub open spec fn found_status() -> Seq<char> {
    "HTTP/1.1 200 OK"@
}

/// A `D:multistatus` element around the given responses.
pub open spec fn multistatus(responses: Seq<Element>) -> Element {
    Element {
        name: "D:multistatus"@,
        value: None,
        attributes: Some(dav_namespace()),
        elements: responses,
    }
}

/// A `D:response` element: the address of a resource, then what is
/// reported of it.
pub open spec fn response_element(href: Seq<char>, propstat: Element) -> Element {
    Element {
        name: "D:response"@,
        value: None,
        attributes: None,
        elements: seq![leaf("D:href"@, href), propstat],
    }
}

/// A `D:propstat` element for properties that were found: the status
/// first, then the properties.
pub open spec fn propstat_found(prop: Element) -> Element {
    Element {
        name: "D:propstat"@,
        value: None,
        attributes: None,
        elements: seq![leaf("D:status"@, found_status()), prop],
    }
}

/// A `D:propstat` element that acknowledges a change of properties: the
/// properties first, then the status.
pub open spec fn propstat_acknowledged(prop: Element) -> Element {
    Element {
        name: "D:propstat"@,
        value: None,
        attributes: None,
        elements: seq![prop, leaf("D:status"@, found_status())],
    }
}

/// The response that reports the properties of one resource.
pub open spec fn found_response(href: Seq<char>, prop: Element) -> Element {
    response_element(href, propstat_found(prop))
}

/// An element that holds text only.
pub fn text_node(name: &str, text: String) -> (node: XMLNode)
    ensures
        node@ == leaf(name@, text@),
{
    XMLNode::new(String::from_str(name), None, Some(text))
}

/// An element without text, attributes or children.
pub fn bare_node(name: &str) -> (node: XMLNode)
    ensures
        node@ == bare(name@),
{
    XMLNode::new(String::from_str(name), None, None)
}

/// A `D:multistatus` element without responses.
pub fn multistatus_node() -> (node: XMLNode)
    ensures
        node@ == multistatus(Seq::empty()),
{
    let mut attributes: Vec<(String, String)> = Vec::new();
    attributes.push((String::from_str("xmlns:D"), String::from_str("DAV:")));
    proof {
        let pairs = pairs_view(attributes@);
        assert(pairs =~= dav_namespace());
        assert(collect_prefix(pairs, 0) =~= Seq::empty());
        lemma_first_index_is(Seq::empty(), "xmlns:D"@, 0);
        assert(collect(pairs) =~= dav_namespace());
    }
    XMLNode::new(String::from_str("D:multistatus"), Some(attributes), None)
}

/// A `D:response` element for a resource and what is reported of it.
pub fn response_node(href: String, propstat: XMLNode) -> (node: XMLNode)
    ensures
        node@ == response_element(href@, propstat@),
{
    let mut node = bare_node("D:response");
    node.add(text_node("D:href", href));
    node.add(propstat);
    assert(node@.elements =~= seq![leaf("D:href"@, href@), propstat@]);
    node
}

/// A `D:propstat` element for properties that were found.
pub fn propstat_found_node(prop: XMLNode) -> (node: XMLNode)
    ensures
        node@ == propstat_found(prop@),
{
    let mut node = bare_node("D:propstat");
    node.add(text_node("D:status", String::from_str("HTTP/1.1 200 OK")));
    node.add(prop);
    assert(node@.elements =~= seq![leaf("D:status"@, found_status()), prop@]);
    node
}

/// A `D:propstat` element that acknowledges a change of properties.
pub fn propstat_acknowledged_node(prop: XMLNode) -> (node: XMLNode)
    ensures
        node@ == propstat_acknowledged(prop@),
{
    let mut node = bare_node("D:propstat");
    node.add(prop);
    node.add(text_node("D:status", String::from_str("HTTP/1.1 200 OK")));
    assert(node@.elements =~= seq![prop@, leaf("D:status"@, found_status())]);
    node
}

} // verus!
