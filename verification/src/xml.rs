//! A small XML document model: an ordered tree of elements that can be
//! written out as a document and read back from one.

use vstd::prelude::*;
use vstd::string::*;
use crate::events::{decoded_stream, events_view, read_events, xml_events, Token, XmlEvent};
use crate::ordered::{collect, pairs_view, Entries, StringMap};
use crate::text::push_char;

verus! {

/// The mathematical model of an element: its tag name, its text, its
/// attributes in insertion order and its children in document order.
pub struct Element {
    pub name: Seq<char>,
    pub value: Option<Seq<char>>,
    pub attributes: Option<Entries>,
    pub elements: Seq<Element>,
}

/// An element of a document together with everything below it.
#[derive(Debug)]
pub struct XMLNode {
    pub name: String,
    pub value: Option<String>,
    pub attributes: Option<StringMap>,
    pub elements: Vec<XMLNode>,
}

/// The model of an optional string.
pub open spec fn text_view(value: Option<String>) -> Option<Seq<char>> {
    match value {
        Some(text) => Some(text@),
        None => None,
    }
}

/// The model of optional attributes.
pub open spec fn attributes_view(attributes: Option<StringMap>) -> Option<Entries> {
    match attributes {
        Some(entries) => Some(entries@),
        None => None,
    }
}

/// The model of optional attributes given as a list of pairs: the pairs are
/// stored one after another, so a repeated key keeps its first place and its
/// last value.
pub open spec fn collected(attributes: Option<Vec<(String, String)>>) -> Option<Entries> {
    match attributes {
        Some(pairs) => Some(collect(pairs_view(pairs@))),
        None => None,
    }
}

/// The model of a node: its own fields and, recursively, its children.
pub open spec fn node_view(node: XMLNode) -> Element
    decreases node,
{
    Element {
        name: node.name@,
        value: text_view(node.value),
        attributes: attributes_view(node.attributes),
        elements: Seq::new(
            node.elements@.len(),
            |i: int|
                if 0 <= i < node.elements@.len() {
                    node_view(node.elements@[i])
                } else {
                    arbitrary()
                },
        ),
    }
}

impl View for XMLNode {
    type V = Element;

    open spec fn view(&self) -> Element {
        node_view(*self)
    }
}

/// The model of a list of nodes.
pub open spec fn nodes_view(nodes: Seq<XMLNode>) -> Seq<Element> {
    Seq::new(nodes.len(), |i: int| nodes[i]@)
}

/// A node's model is made of the models of its parts.
pub proof fn lemma_view_parts(node: XMLNode)
    ensures
        node@.name == node.name@,
        node@.value == text_view(node.value),
        node@.attributes == attributes_view(node.attributes),
        node@.elements == nodes_view(node.elements@),
{
    assert(node@.elements =~= nodes_view(node.elements@)) by {
        assert forall|i: int| 0 <= i < node.elements@.len() implies node@.elements[i]
            == nodes_view(node.elements@)[i] by {
            assert(nodes_view(node.elements@)[i] == node_view(node.elements@[i]));
        }
    }
}

/// The line that opens every document.
pub open spec fn prolog() -> Seq<char> {
    "<?xml version=\"1.0\" encoding=\"utf-8\"?>"@
}

/// One attribute as it is written: the key, `=`, and the value in double
/// quotes.
pub open spec fn render_attribute(entry: (Seq<char>, Seq<char>)) -> Seq<char> {
    entry.0 + seq!['=', '"'] + entry.1 + seq!['"']
}

/// The first `n` attributes as they are written, separated by one space.
pub open spec fn render_attributes(entries: Entries, n: nat) -> Seq<char>
    decreases n,
{
    if n == 0 || n > entries.len() {
        Seq::empty()
    } else if n == 1 {
        render_attribute(entries[0])
    } else {
        render_attributes(entries, (n - 1) as nat) + seq![' '] + render_attribute(entries[n - 1])
    }
}

/// The opening tag of an element: with its attributes where it has any,
/// bare otherwise.
pub open spec fn open_tag(name: Seq<char>, attributes: Option<Entries>) -> Seq<char> {
    match attributes {
        Some(entries) if entries.len() > 0 => seq!['<'] + name + seq![' '] + render_attributes(
            entries,
            entries.len(),
        ) + seq!['>'],
        _ => seq!['<'] + name + seq!['>'],
    }
}

/// The closing tag of an element.
pub open spec fn close_tag(name: Seq<char>) -> Seq<char> {
    seq!['<', '/'] + name + seq!['>']
}

/// The text of an element as it is written: verbatim, nothing where absent.
pub open spec fn render_text(value: Option<Seq<char>>) -> Seq<char> {
    match value {
        Some(text) => text,
        None => Seq::empty(),
    }
}

/// An element as it is written: opening tag, text, each child in order,
/// closing tag.
pub open spec fn render(element: Element) -> Seq<char>
    decreases element,
{
    open_tag(element.name, element.attributes) + render_text(element.value) + render_list(
        element.elements,
        element.elements.len(),
    ) + close_tag(element.name)
}

/// The first `n` elements of a list as they are written, one after another.
pub open spec fn render_list(elements: Seq<Element>, n: nat) -> Seq<char>
    decreases elements, n,
{
    if n == 0 || n > elements.len() {
        Seq::empty()
    } else {
        render_list(elements, (n - 1) as nat) + render(elements[n - 1])
    }
}

/// A whole document: the prolog, then the root element.
pub open spec fn document(root: Element) -> Seq<char> {
    prolog() + render(root)
}

/// The state of the tree builder: the elements that are still open, the
/// outermost first, and the finished elements that have no parent.
pub struct Builder {
    pub open: Seq<Element>,
    pub roots: Seq<Element>,
}

/// What reading a document gives: its root element, or a message.
pub type Outcome = Result<Element, Seq<char>>;

/// The element that an opening tag starts: no text yet, no children yet.
pub open spec fn fresh(name: Seq<char>, attributes: Entries) -> Element {
    Element {
        name,
        value: Some(Seq::empty()),
        attributes: Some(collect(attributes)),
        elements: Seq::empty(),
    }
}

/// An element with one more child at the end.
pub open spec fn with_child(parent: Element, child: Element) -> Element {
    Element { elements: parent.elements.push(child), ..parent }
}

/// An element with its text replaced.
pub open spec fn with_text(element: Element, text: Seq<char>) -> Element {
    Element { value: Some(text), ..element }
}

/// The builder after one event. An opening tag opens an element; a closing
/// tag finishes the innermost open element, which becomes the last child of
/// the element around it, or a root where there is none; character data
/// becomes the text of the innermost open element. Anything else, and
/// whatever arrives while nothing is open, is passed over.
pub open spec fn step(builder: Builder, token: Token) -> Builder {
    match token {
        Token::Start { name, attributes } => Builder {
            open: builder.open.push(fresh(name, attributes)),
            ..builder
        },
        Token::End => if builder.open.len() == 0 {
            builder
        } else if builder.open.len() == 1 {
            Builder { open: Seq::empty(), roots: builder.roots.push(builder.open[0]) }
        } else {
            let outer = builder.open.drop_last();
            Builder {
                open: outer.update(
                    outer.len() - 1,
                    with_child(outer.last(), builder.open.last()),
                ),
                ..builder
            }
        },
        Token::Text(text) => if builder.open.len() == 0 {
            builder
        } else {
            Builder {
                open: builder.open.update(
                    builder.open.len() - 1,
                    with_text(builder.open.last(), text),
                ),
                ..builder
            }
        },
        _ => builder,
    }
}

/// The message for a document that does not come down to one root.
pub open spec fn unresolved() -> Seq<char> {
    "XMLNode parse error"@
}

/// The outcome once the input has ended: the root, where every opened
/// element was closed and exactly one element has no parent.
pub open spec fn finish(builder: Builder) -> Outcome {
    if builder.open.len() == 0 && builder.roots.len() == 1 {
        Ok(builder.roots[0])
    } else {
        Err(unresolved())
    }
}

/// The outcome of feeding events to a builder: a failure stops with its
/// message, the end of the input (or of the events) finishes the tree.
pub open spec fn run(builder: Builder, tokens: Seq<Token>) -> Outcome
    decreases tokens.len(),
{
    if tokens.len() == 0 {
        finish(builder)
    } else {
        match tokens[0] {
            Token::Eof => finish(builder),
            Token::Failure(message) => Err(message),
            token => run(step(builder, token), tokens.drop_first()),
        }
    }
}

/// The outcome of building a tree from a stream of events.
pub open spec fn assemble(tokens: Seq<Token>) -> Outcome {
    run(Builder { open: Seq::empty(), roots: Seq::empty() }, tokens)
}

/// The model of what the parser returns.
pub open spec fn outcome_view(outcome: Result<XMLNode, String>) -> Outcome {
    match outcome {
        Ok(node) => Ok(node@),
        Err(message) => Err(message@),
    }
}

/// A copy of a list of pairs.
fn copy_pairs(pairs: &Vec<(String, String)>) -> (out: Vec<(String, String)>)
    ensures
        pairs_view(out@) == pairs_view(pairs@),
{
    let mut out: Vec<(String, String)> = Vec::new();
    let mut i: usize = 0;
    while i < pairs.len()
        invariant
            i <= pairs.len(),
            out@.len() == i,
            forall|j: int| 0 <= j < i ==> out@[j].0@ == pairs@[j].0@ && out@[j].1@ == pairs@[j].1@,
        decreases pairs.len() - i,
    {
        out.push((pairs[i].0.clone(), pairs[i].1.clone()));
        i += 1;
    }
    assert(pairs_view(out@) =~= pairs_view(pairs@));
    out
}

/// Pushing a node onto a list pushes its model onto the list's model.
proof fn lemma_nodes_push(nodes: Seq<XMLNode>, node: XMLNode)
    ensures
        nodes_view(nodes.push(node)) == nodes_view(nodes).push(node@),
{
    assert(nodes_view(nodes.push(node)) =~= nodes_view(nodes).push(node@));
}

/// Dropping the last node of a list drops the last of the list's model.
proof fn lemma_nodes_drop_last(nodes: Seq<XMLNode>)
    requires
        nodes.len() > 0,
    ensures
        nodes_view(nodes.drop_last()) == nodes_view(nodes).drop_last(),
        nodes_view(nodes).last() == nodes.last()@,
{
    assert(nodes_view(nodes.drop_last()) =~= nodes_view(nodes).drop_last());
}

/// Applies one event to the open elements and the roots.
fn apply_event(open: &mut Vec<XMLNode>, roots: &mut Vec<XMLNode>, event: &XmlEvent)
    ensures
        (Builder { open: nodes_view(final(open)@), roots: nodes_view(final(roots)@) }) == step(
            Builder { open: nodes_view(old(open)@), roots: nodes_view(old(roots)@) },
            event@,
        ),
{
    let ghost before = Builder { open: nodes_view(open@), roots: nodes_view(roots@) };
    match event {
        XmlEvent::Start { name, attributes } => {
            let node = XMLNode::new(
                name.clone(),
                Some(copy_pairs(attributes)),
                Some(String::new()),
            );
            proof {
                lemma_nodes_push(open@, node);
            }
            open.push(node);
        },
        XmlEvent::End => {
            if open.len() > 0 {
                proof {
                    lemma_nodes_drop_last(open@);
                }
                let done = open.pop().unwrap();
                if open.len() > 0 {
                    let ghost outer = open@;
                    proof {
                        lemma_nodes_drop_last(outer);
                    }
                    let mut parent = open.pop().unwrap();
                    parent.add(done);
                    proof {
                        lemma_nodes_push(open@, parent);
                    }
                    open.push(parent);
                    assert(nodes_view(open@) =~= nodes_view(outer).update(
                        outer.len() - 1,
                        with_child(nodes_view(outer).last(), done@),
                    ));
                } else {
                    proof {
                        lemma_nodes_push(roots@, done);
                    }
                    roots.push(done);
                    assert(nodes_view(open@) =~= Seq::<Element>::empty());
                    assert(before.open[0] == done@);
                }
            }
        },
        XmlEvent::Text(text) => {
            if open.len() > 0 {
                let ghost all = open@;
                proof {
                    lemma_nodes_drop_last(all);
                }
                let mut top = open.pop().unwrap();
                proof {
                    lemma_view_parts(top);
                }
                top.value = Some(text.clone());
                proof {
                    lemma_view_parts(top);
                    lemma_nodes_push(open@, top);
                }
                open.push(top);
                assert(nodes_view(open@) =~= nodes_view(all).update(
                    all.len() - 1,
                    with_text(nodes_view(all).last(), text@),
                ));
            }
        },
        _ => {},
    }
}

/// Builds the tree that a stream of decoded events describes.
pub fn assemble_events(events: &Vec<XmlEvent>) -> (outcome: Result<XMLNode, String>)
    ensures
        outcome_view(outcome) == assemble(events_view(events@)),
{
    let mut open: Vec<XMLNode> = Vec::new();
    let mut roots: Vec<XMLNode> = Vec::new();
    let ghost tokens = events_view(events@);
    assert(nodes_view(open@) =~= Seq::<Element>::empty());
    assert(nodes_view(roots@) =~= Seq::<Element>::empty());
    assert(tokens.subrange(0, tokens.len() as int) =~= tokens);
    let mut i: usize = 0;
    let mut ended = false;
    while i < events.len() && !ended
        invariant
            i <= events.len(),
            tokens == events_view(events@),
            ended ==> i < events.len() && tokens[i as int] is Eof,
            run(
                Builder { open: nodes_view(open@), roots: nodes_view(roots@) },
                tokens.subrange(i as int, tokens.len() as int),
            ) == assemble(tokens),
        decreases events.len() - i + (if ended { 0int } else { 1int }),
    {
        let ghost rest = tokens.subrange(i as int, tokens.len() as int);
        assert(rest[0] == events@[i as int]@);
        assert(rest.drop_first() =~= tokens.subrange(i + 1, tokens.len() as int));
        match &events[i] {
            XmlEvent::Eof => {
                ended = true;
            },
            XmlEvent::Failure(message) => {
                return Err(message.clone());
            },
            event => {
                apply_event(&mut open, &mut roots, event);
                i += 1;
            },
        }
    }
    if open.len() == 0 && roots.len() == 1 {
        let root = roots.pop().unwrap();
        Ok(root)
    } else {
        Err(String::from_str("XMLNode parse error"))
    }
}

impl Clone for XMLNode {
    fn clone(&self) -> (copy: XMLNode)
        ensures
            copy@ == self@,
        decreases self,
    {
        let mut elements: Vec<XMLNode> = Vec::new();
        let mut i: usize = 0;
        while i < self.elements.len()
            invariant
                i <= self.elements.len(),
                elements@.len() == i,
                forall|j: int| 0 <= j < i ==> (#[trigger] elements@[j])@ == self.elements@[j]@,
            decreases self.elements.len() - i,
        {
            let child = self.elements[i].clone();
            elements.push(child);
            i += 1;
        }
        let copy = XMLNode {
            name: self.name.clone(),
            value: match &self.value {
                Some(text) => Some(text.clone()),
                None => None,
            },
            attributes: match &self.attributes {
                Some(entries) => Some(entries.clone()),
                None => None,
            },
            elements,
        };
        proof {
            lemma_view_parts(copy);
            lemma_view_parts(*self);
            assert(nodes_view(copy.elements@) =~= nodes_view(self.elements@));
        }
        copy
    }
}

impl Default for XMLNode {
    fn default() -> (node: XMLNode)
        ensures
            node@ == (Element {
                name: Seq::empty(),
                value: None,
                attributes: None,
                elements: Seq::empty(),
            }),
    {
        let node = XMLNode {
            name: String::new(),
            value: None,
            attributes: None,
            elements: Vec::new(),
        };
        proof {
            lemma_view_parts(node);
            assert(node@.elements =~= Seq::<Element>::empty());
        }
        node
    }
}

impl XMLNode {
    /// A detached element without children. Attributes given as a list are
    /// stored one after another, so each key occurs once.
    pub fn new(name: String, attributes: Option<Vec<(String, String)>>, value: Option<String>) -> (node:
        XMLNode)
        ensures
            node@ == (Element {
                name: name@,
                value: text_view(value),
                attributes: collected(attributes),
                elements: Seq::empty(),
            }),
    {
        let attributes = match attributes {
            Some(pairs) => Some(StringMap::from_pairs(pairs)),
            None => None,
        };
        let node = XMLNode { name, value, attributes, elements: Vec::new() };
        proof {
            lemma_view_parts(node);
            assert(node@.elements =~= Seq::<Element>::empty());
        }
        node
    }

    /// Appends a new child element and hands it back for further building.
    pub fn elem(
        &mut self,
        name: String,
        attributes: Option<Vec<(String, String)>>,
        value: Option<String>,
    ) -> (child: &mut XMLNode)
        ensures
            child@ == (Element {
                name: name@,
                value: text_view(value),
                attributes: collected(attributes),
                elements: Seq::empty(),
            }),
            final(self).name == old(self).name,
            final(self).value == old(self).value,
            final(self).attributes == old(self).attributes,
            final(self).elements@ == old(self).elements@.push(*final(child)),
    {
        let el = XMLNode::new(name, attributes, value);
        self.elements.push(el);
        let last: usize = self.elements.len() - 1;
        &mut self.elements[last]
    }

    /// Appends an element as the last child.
    pub fn add(&mut self, element: XMLNode)
        ensures
            final(self)@ == (Element {
                elements: old(self)@.elements.push(element@),
                ..old(self)@
            }),
    {
        proof {
            lemma_view_parts(*self);
        }
        self.elements.push(element);
        proof {
            lemma_view_parts(*self);
            assert(self@.elements =~= old(self)@.elements.push(element@));
        }
    }

    /// The whole document for this node as its root: the prolog followed by
    /// the node written out.
    pub fn build(&self) -> (out: String)
        ensures
            out@ == document(self@),
    {
        let mut out = String::from_str("<?xml version=\"1.0\" encoding=\"utf-8\"?>");
        let body = self.write_element(self);
        out.append(body.as_str());
        out
    }

    /// An element written out, with everything below it.
    pub fn write_element(&self, element: &XMLNode) -> (out: String)
        ensures
            out@ == render(element@),
        decreases element,
    {
        proof {
            lemma_view_parts(*element);
        }
        let mut out = String::new();
        push_char(&mut out, '<');
        out.append(element.name.as_str());
        let mut written: usize = 0;
        if let Some(attributes) = &element.attributes {
            let count: usize = attributes.len();
            while written < count
                invariant
                    written <= count,
                    count == attributes@.len(),
                    written == 0 ==> out@ == seq!['<'] + element.name@,
                    written > 0 ==> out@ == seq!['<'] + element.name@ + seq![' ']
                        + render_attributes(attributes@, written as nat),
                decreases count - written,
            {
                let ghost before = out@;
                push_char(&mut out, ' ');
                out.append(attributes.entries[written].0.as_str());
                push_char(&mut out, '=');
                push_char(&mut out, '"');
                out.append(attributes.entries[written].1.as_str());
                push_char(&mut out, '"');
                proof {
                    let entry = attributes@[written as int];
                    assert(out@ =~= before + seq![' '] + render_attribute(entry));
                    if written > 0 {
                        assert(out@ =~= seq!['<'] + element.name@ + seq![' ']
                            + render_attributes(attributes@, (written + 1) as nat));
                    } else {
                        assert(out@ =~= seq!['<'] + element.name@ + seq![' ']
                            + render_attributes(attributes@, 1));
                    }
                }
                written += 1;
            }
        }
        push_char(&mut out, '>');
        assert(out@ =~= open_tag(element@.name, element@.attributes));
        if let Some(value) = &element.value {
            out.append(value.as_str());
        }
        let ghost head = open_tag(element@.name, element@.attributes) + render_text(
            element@.value,
        );
        assert(out@ =~= head);
        let mut i: usize = 0;
        while i < element.elements.len()
            invariant
                i <= element.elements.len(),
                element@.elements == nodes_view(element.elements@),
                out@ == head + render_list(element@.elements, i as nat),
            decreases element.elements.len() - i,
        {
            let child = self.write_element(&element.elements[i]);
            out.append(child.as_str());
            i += 1;
            assert(out@ =~= head + render_list(element@.elements, i as nat));
        }
        push_char(&mut out, '<');
        push_char(&mut out, '/');
        out.append(element.name.as_str());
        push_char(&mut out, '>');
        assert(out@ =~= render(element@));
        out
    }

    /// Reads a document into a tree. The document is read as a stream of
    /// events, and the tree is built from them: a reader failure, a tag or
    /// text that cannot be decoded, an element left open and a document
    /// without exactly one root are errors. Declarations, comments and
    /// self-closing tags are passed over.
    pub fn parse_xml(xml: &str) -> (outcome: Result<XMLNode, String>)
        ensures
            outcome_view(outcome) == assemble(decoded_stream(xml_events(xml@))),
    {
        let events = read_events(xml);
        assemble_events(&events)
    }
}

} // verus!
