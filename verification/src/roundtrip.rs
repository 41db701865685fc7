//! What the tree builder makes of the events that spell out a tree.

use vstd::prelude::*;
use crate::events::Token;
use crate::ordered::{collect, lemma_collect_distinct, lemma_collect_unchanged, Entries};
use crate::xml::{
    assemble, finish, fresh, render_text, run, step, with_child, with_text, Builder, Element,
};

verus! {

/// The attributes of an element as a tag carries them: none where the
/// element has no attributes.
pub open spec fn tag_attributes(attributes: Option<Entries>) -> Entries {
    match attributes {
        Some(entries) => entries,
        None => Seq::empty(),
    }
}

/// The event for the text of an element: none for an element without
/// text or with empty text.
pub open spec fn text_tokens(value: Option<Seq<char>>) -> Seq<Token> {
    match value {
        Some(text) if text.len() > 0 => seq![Token::Text(text)],
        _ => Seq::empty(),
    }
}

/// The events that spell out an element: its opening tag, its text, its
/// children in order, its closing tag.
pub open spec fn tokens_of(element: Element) -> Seq<Token>
    decreases element,
{
    seq![Token::Start { name: element.name, attributes: tag_attributes(element.attributes) }]
        + text_tokens(element.value) + tokens_of_list(element.elements, element.elements.len())
        + seq![Token::End]
}

/// The events that spell out the first `n` elements of a list.
pub open spec fn tokens_of_list(elements: Seq<Element>, n: nat) -> Seq<Token>
    decreases elements, n,
{
    if n == 0 || n > elements.len() {
        Seq::empty()
    } else {
        tokens_of_list(elements, (n - 1) as nat) + tokens_of(elements[n - 1])
    }
}

/// An element as reading gives it back: the same name and children, the
/// text present even where it is empty, and the attributes present, each
/// key once.
pub open spec fn normal(element: Element) -> Element
    decreases element,
{
    Element {
        name: element.name,
        value: Some(render_text(element.value)),
        attributes: Some(collect(tag_attributes(element.attributes))),
        elements: Seq::new(
            element.elements.len(),
            |i: int|
                if 0 <= i < element.elements.len() {
                    normal(element.elements[i])
                } else {
                    arbitrary()
                },
        ),
    }
}

/// The elements of a list, each as reading gives it back.
pub open spec fn normal_list(elements: Seq<Element>) -> Seq<Element> {
    Seq::new(elements.len(), |i: int| normal(elements[i]))
}

/// The builder after a finished element has been handed to it: the element
/// becomes the last child of the innermost open element, or a root where
/// nothing is open.
pub open spec fn absorb(builder: Builder, element: Element) -> Builder {
    if builder.open.len() == 0 {
        Builder { open: builder.open, roots: builder.roots.push(element) }
    } else {
        Builder {
            open: builder.open.update(
                builder.open.len() - 1,
                with_child(builder.open.last(), element),
            ),
            roots: builder.roots,
        }
    }
}

/// The builder with more children under its innermost open element.
pub open spec fn with_children(builder: Builder, children: Seq<Element>) -> Builder {
    Builder {
        open: builder.open.update(
            builder.open.len() - 1,
            Element {
                elements: builder.open.last().elements + children,
                ..builder.open.last()
            },
        ),
        roots: builder.roots,
    }
}

/// An event that neither ends the input nor fails is applied, and the
/// builder goes on with the rest.
proof fn lemma_run_one(builder: Builder, token: Token, rest: Seq<Token>)
    requires
        !(token is Eof),
        !(token is Failure),
    ensures
        run(builder, seq![token] + rest) == run(step(builder, token), rest),
{
    let tokens = seq![token] + rest;
    assert(tokens[0] == token);
    assert(tokens.drop_first() =~= rest);
}

/// The children of an element as reading gives it back.
proof fn lemma_normal_elements(element: Element)
    ensures
        normal(element).elements == normal_list(element.elements),
        normal(element).name == element.name,
        normal(element).value == Some(render_text(element.value)),
        normal(element).attributes == Some(collect(tag_attributes(element.attributes))),
{
    assert(normal(element).elements =~= normal_list(element.elements));
}

/// Fed the events that spell out an element, the builder ends up as if the
/// element, as reading gives it back, had been handed to it whole.
pub proof fn lemma_element_absorbed(builder: Builder, element: Element, rest: Seq<Token>)
    ensures
        run(builder, tokens_of(element) + rest) == run(absorb(builder, normal(element)), rest),
    decreases element,
{
    let start = Token::Start {
        name: element.name,
        attributes: tag_attributes(element.attributes),
    };
    let text = text_tokens(element.value);
    let children = tokens_of_list(element.elements, element.elements.len());
    let opened = fresh(element.name, tag_attributes(element.attributes));
    let top = with_text(opened, render_text(element.value));
    let b1 = Builder { open: builder.open.push(opened), roots: builder.roots };
    let b2 = Builder { open: builder.open.push(top), roots: builder.roots };
    let tail = children + (seq![Token::End] + rest);
    assert(tokens_of(element) + rest =~= seq![start] + (text + tail));
    lemma_run_one(builder, start, text + tail);
    assert(step(builder, start) == b1);
    // The text, where there is any, becomes the text of the opened element.
    assert(run(b1, text + tail) == run(b2, tail)) by {
        match element.value {
            Some(t) if t.len() > 0 => {
                assert(text + tail =~= seq![Token::Text(t)] + tail);
                lemma_run_one(b1, Token::Text(t), tail);
                assert(b1.open.update(b1.open.len() - 1, with_text(b1.open.last(), t))
                    =~= b2.open);
            },
            _ => {
                assert(text + tail =~= tail);
                assert(render_text(element.value) =~= Seq::<char>::empty());
                assert(top == opened);
            },
        }
    }
    // The children are taken in one after another.
    lemma_children_absorbed(
        b2,
        element.elements,
        element.elements.len(),
        seq![Token::End] + rest,
    );
    let kids = normal_list(element.elements);
    assert(kids.subrange(0, element.elements.len() as int) =~= kids);
    let b3 = with_children(b2, kids);
    lemma_normal_elements(element);
    let done = Element { elements: top.elements + kids, ..top };
    assert(top.elements + kids =~= kids);
    assert(done == normal(element));
    assert(b3.open =~= builder.open.push(done));
    // The closing tag hands the finished element on.
    lemma_run_one(b3, Token::End, rest);
    assert(b3.open.drop_last() =~= builder.open);
    assert(step(b3, Token::End) == absorb(builder, done)) by {
        if builder.open.len() == 0 {
            assert(b3.open.len() == 1);
            assert(step(b3, Token::End).open =~= builder.open);
        } else {
            assert(b3.open.len() > 1);
        }
    }
}

/// Fed the events that spell out the first `n` elements of a list while an
/// element is open, the builder ends up with those elements, as reading
/// gives them back, as further children of the open element.
pub proof fn lemma_children_absorbed(
    builder: Builder,
    elements: Seq<Element>,
    n: nat,
    rest: Seq<Token>,
)
    requires
        builder.open.len() > 0,
        n <= elements.len(),
    ensures
        run(builder, tokens_of_list(elements, n) + rest) == run(
            with_children(builder, normal_list(elements).subrange(0, n as int)),
            rest,
        ),
    decreases elements, n,
{
    let top = builder.open.last();
    if n == 0 {
        assert(tokens_of_list(elements, n) + rest =~= rest);
        assert(top.elements + normal_list(elements).subrange(0, 0) =~= top.elements);
        assert(with_children(builder, normal_list(elements).subrange(0, 0)).open
            =~= builder.open);
    } else {
        let child = elements[n - 1];
        let earlier = normal_list(elements).subrange(0, n - 1);
        assert(tokens_of_list(elements, n) + rest =~= tokens_of_list(elements, (n - 1) as nat)
            + (tokens_of(child) + rest));
        lemma_children_absorbed(builder, elements, (n - 1) as nat, tokens_of(child) + rest);
        let before = with_children(builder, earlier);
        lemma_element_absorbed(before, child, rest);
        assert(normal_list(elements).subrange(0, n as int) =~= earlier.push(normal(child)));
        assert(absorb(before, normal(child)).open =~= with_children(
            builder,
            normal_list(elements).subrange(0, n as int),
        ).open) by {
            assert((top.elements + earlier).push(normal(child)) =~= top.elements
                + earlier.push(normal(child)));
        }
    }
}

/// Reading back a tree: the events that spell out a tree, followed by the
/// end of the input or by nothing, build that tree again, with the same
/// names, text, attributes and children at every level.
pub proof fn lemma_round_trip(element: Element)
    ensures
        assemble(tokens_of(element)) == Ok::<Element, Seq<char>>(normal(element)),
        assemble(tokens_of(element).push(Token::Eof)) == Ok::<Element, Seq<char>>(
            normal(element),
        ),
{
    let empty = Builder { open: Seq::empty(), roots: Seq::empty() };
    let after = absorb(empty, normal(element));
    assert(after.roots =~= seq![normal(element)]);
    lemma_element_absorbed(empty, element, Seq::empty());
    assert(tokens_of(element) + Seq::<Token>::empty() =~= tokens_of(element));
    lemma_element_absorbed(empty, element, seq![Token::Eof]);
    assert(tokens_of(element) + seq![Token::Eof] =~= tokens_of(element).push(Token::Eof));
    assert(finish(after) == Ok::<Element, Seq<char>>(normal(element)));
}

/// What reading gives back keeps the shape of the tree: the name of every
/// element and the number of its children, and below each child the same.
pub proof fn lemma_normal_keeps_shape(element: Element)
    ensures
        normal(element).name == element.name,
        normal(element).value == Some(render_text(element.value)),
        normal(element).attributes == Some(collect(tag_attributes(element.attributes))),
        normal(element).elements.len() == element.elements.len(),
        forall|i: int|
            0 <= i < element.elements.len() ==> #[trigger] normal(element).elements[i] == normal(
                element.elements[i],
            ),
{
    lemma_normal_elements(element);
}

/// What reading gives back is read back unchanged: spelling out such a
/// tree and building it again changes nothing more.
pub proof fn lemma_normal_idempotent(element: Element)
    ensures
        normal(normal(element)) == normal(element),
    decreases element,
{
    let once = normal(element);
    let twice = normal(once);
    lemma_normal_elements(element);
    lemma_normal_elements(once);
    let entries = collect(tag_attributes(element.attributes));
    lemma_collect_distinct(
        tag_attributes(element.attributes),
        tag_attributes(element.attributes).len(),
    );
    lemma_collect_unchanged(entries, entries.len());
    assert(entries.subrange(0, entries.len() as int) =~= entries);
    assert(twice.elements =~= once.elements) by {
        assert forall|i: int| 0 <= i < once.elements.len() implies twice.elements[i]
            == once.elements[i] by {
            lemma_normal_idempotent(element.elements[i]);
        }
    }
}

} // verus!
