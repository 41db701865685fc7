//! The DAV properties of a resource as an XML `D:prop` element.

use vstd::prelude::*;
use vstd::string::*;
use crate::ordered::{Entries, StringMap};
use crate::text::{decimal, decimal_text};
use crate::values::{optional_text, DavProperties, Properties};
use crate::xml::{Element, XMLNode};

verus! {

/// An element that holds text only.
pub open spec fn leaf(name: Seq<char>, text: Seq<char>) -> Element {
    Element { name, value: Some(text), attributes: None, elements: Seq::empty() }
}

/// An element without text, attributes or children.
pub open spec fn bare(name: Seq<char>) -> Element {
    Element { name, value: None, attributes: None, elements: Seq::empty() }
}

/// The element for a property that may be absent: nothing where it is.
pub open spec fn optional_leaf(name: Seq<char>, value: Option<Seq<char>>) -> Seq<Element> {
    match value {
        Some(text) => seq![leaf(name, text)],
        None => Seq::empty(),
    }
}

/// A content length as a property value: the number in decimal.
pub open spec fn length_text(length: Option<u64>) -> Option<Seq<char>> {
    match length {
        Some(n) => Some(decimal(n as nat)),
        None => None,
    }
}

/// One element for each property that is present, under its DAV name and
/// in the fixed order of the properties.
pub open spec fn property_elements(properties: Properties) -> Seq<Element> {
    optional_leaf("D:creationdate"@, properties.creation_date) + optional_leaf(
        "D:displayname"@,
        properties.display_name,
    ) + optional_leaf("D:getcontentlanguage"@, properties.get_content_language) + optional_leaf(
        "D:getcontentlength"@,
        length_text(properties.get_content_length),
    ) + optional_leaf("D:getcontenttype"@, properties.get_content_type) + optional_leaf(
        "D:getetag"@,
        properties.get_etag,
    ) + optional_leaf("D:getlastmodified"@, properties.get_last_modified)
}

/// One element for each entry of the custom metadata, named by its key.
pub open spec fn custom_elements(custom: Entries) -> Seq<Element> {
    Seq::new(custom.len(), |i: int| leaf(custom[i].0, custom[i].1))
}

/// The entries of optional custom metadata: none where it is absent.
pub open spec fn custom_entries(custom: Option<&StringMap>) -> Entries {
    match custom {
        Some(entries) => entries@,
        None => Seq::empty(),
    }
}

/// The `D:prop` element of a resource: its present properties, then its
/// custom metadata.
pub open spec fn prop_element(properties: Properties, custom: Entries) -> Element {
    Element {
        name: "D:prop"@,
        value: None,
        attributes: None,
        elements: property_elements(properties) + custom_elements(custom),
    }
}

/// Appends the element for a property, where the property is present.
fn add_optional(node: &mut XMLNode, name: &str, value: &Option<String>)
    ensures
        final(node)@ == (Element {
            elements: old(node)@.elements + optional_leaf(name@, optional_text(*value)),
            ..old(node)@
        }),
{
    match value {
        Some(text) => {
            node.add(XMLNode::new(String::from_str(name), None, Some(text.clone())));
            assert(node@.elements =~= old(node)@.elements + optional_leaf(
                name@,
                optional_text(*value),
            ));
        },
        None => {
            assert(node@.elements =~= old(node)@.elements + optional_leaf(
                name@,
                optional_text(*value),
            ));
        },
    }
}

impl DavProperties {
    /// The `D:prop` element for these properties: one child for each
    /// property that is present, then one child for each entry of the
    /// custom metadata.
    pub fn to_xml_prop(&self, custom_metadata: Option<&StringMap>) -> (node: XMLNode)
        ensures
            node@ == prop_element(self@, custom_entries(custom_metadata)),
    {
        let mut node = XMLNode::new(String::from_str("D:prop"), None, None);
        let length: Option<String> = match self.get_content_length {
            Some(n) => Some(decimal_text(n)),
            None => None,
        };
        add_optional(&mut node, "D:creationdate", &self.creation_date);
        add_optional(&mut node, "D:displayname", &self.display_name);
        add_optional(&mut node, "D:getcontentlanguage", &self.get_content_language);
        add_optional(&mut node, "D:getcontentlength", &length);
        add_optional(&mut node, "D:getcontenttype", &self.get_content_type);
        add_optional(&mut node, "D:getetag", &self.get_etag);
        add_optional(&mut node, "D:getlastmodified", &self.get_last_modified);
        assert(node@.elements =~= property_elements(self@));
        if let Some(custom) = custom_metadata {
            let count: usize = custom.len();
            let mut i: usize = 0;
            while i < count
                invariant
                    i <= count,
                    count == custom@.len(),
                    count == custom.entries@.len(),
                    node@ == (Element {
                        elements: property_elements(self@) + custom_elements(custom@).subrange(
                            0,
                            i as int,
                        ),
                        ..bare("D:prop"@)
                    }),
                decreases count - i,
            {
                let key: String = custom.entries[i].0.clone();
                let value: String = custom.entries[i].1.clone();
                node.add(XMLNode::new(key, None, Some(value)));
                i += 1;
                assert(node@.elements =~= property_elements(self@) + custom_elements(
                    custom@,
                ).subrange(0, i as int));
            }
            assert(custom_elements(custom@).subrange(0, i as int) =~= custom_elements(custom@));
        } else {
            assert(node@.elements =~= property_elements(self@) + custom_elements(Seq::empty()));
        }
        node
    }
}

} // verus!
