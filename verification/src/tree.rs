//! The builder against markup seen as a tree: the events of an element
//! build the block of that element.

use vstd::prelude::*;
use crate::builder::{
    attribute_map, build_spec, close_spec, initial, root_tag, run_spec, BuilderView,
};
use crate::event::EventView;
use crate::laws::{declared_version, lemma_run_push};
use crate::model::{attach_spec, children_of, fresh_block, BlockView, DocumentView};
use crate::text::trimmed;

verus! {

/// One piece of an element's content: a run of text or a child element.
pub enum Node {
    Text { content: Seq<char> },
    Child { element: Element },
}

/// An element of the markup with all that stands between its tags.
pub struct Element {
    pub tag: Seq<char>,
    pub attributes: Seq<(Seq<char>, Seq<char>)>,
    pub content: Seq<Node>,
}

/// The events that a tokenizer reports for one piece of content.
pub open spec fn node_events(node: Node) -> Seq<EventView>
    decreases node,
{
    match node {
        Node::Text { content } => Seq::empty().push(EventView::Text { content }),
        Node::Child { element } => element_events(element),
    }
}

/// The events of the pieces, one after the other.
pub open spec fn nodes_events(nodes: Seq<Node>) -> Seq<EventView>
    decreases nodes,
{
    if nodes.len() == 0 {
        Seq::empty()
    } else {
        nodes_events(nodes.drop_last()) + node_events(nodes.last())
    }
}

/// The events of an element: it opens, its content follows, it closes.
pub open spec fn element_events(e: Element) -> Seq<EventView>
    decreases e,
{
    Seq::empty().push(EventView::Open { tag: e.tag, attributes: e.attributes }) + nodes_events(
        e.content,
    ) + Seq::empty().push(EventView::Close { tag: e.tag })
}

/// `block` after one more piece of its content: text replaces its text, a
/// child comes last among its children of that tag.
pub open spec fn with_node(block: BlockView, node: Node) -> BlockView
    decreases node,
{
    match node {
        Node::Text { content } => BlockView { raw_content: trimmed(content), ..block },
        Node::Child { element } => attach_spec(block, element.tag, element_block(element)),
    }
}

/// `block` after the pieces, in order.
pub open spec fn with_nodes(block: BlockView, nodes: Seq<Node>) -> BlockView
    decreases nodes,
{
    if nodes.len() == 0 {
        block
    } else {
        with_node(with_nodes(block, nodes.drop_last()), nodes.last())
    }
}

/// The block that an element is.
pub open spec fn element_block(e: Element) -> BlockView
    decreases e,
{
    with_nodes(fresh_block(attribute_map(e.attributes)), e.content)
}

/// Neither the element nor any element below it has the root's tag.
pub open spec fn rootless(e: Element) -> bool
    decreases e,
{
    e.tag != root_tag() && rootless_nodes(e.content)
}

/// No element among the pieces, or below them, has the root's tag.
pub open spec fn rootless_nodes(nodes: Seq<Node>) -> bool
    decreases nodes,
{
    forall|i: int|
        0 <= i < nodes.len() ==> match #[trigger] nodes[i] {
            Node::Text { .. } => true,
            Node::Child { element } => rootless(element),
        }
}

/// The fields after the pieces were seen with no element open: each child
/// element is stored under its tag, text is dropped.
pub open spec fn fields_with_nodes(
    fields: Map<Seq<char>, BlockView>,
    nodes: Seq<Node>,
) -> Map<Seq<char>, BlockView>
    decreases nodes.len(),
{
    if nodes.len() == 0 {
        fields
    } else {
        let before = fields_with_nodes(fields, nodes.drop_last());
        match nodes.last() {
            Node::Text { .. } => before,
            Node::Child { element } => before.insert(element.tag, element_block(element)),
        }
    }
}

/// The blocks of the child elements with tag `tag` among the pieces, in
/// order.
pub open spec fn tagged_blocks(nodes: Seq<Node>, tag: Seq<char>) -> Seq<BlockView>
    decreases nodes.len(),
{
    if nodes.len() == 0 {
        Seq::empty()
    } else {
        let before = tagged_blocks(nodes.drop_last(), tag);
        match nodes.last() {
            Node::Child { element } if element.tag == tag => before.push(element_block(element)),
            _ => before,
        }
    }
}

/// Running two runs of events one after the other is running them joined.
pub proof fn lemma_run_concat(s: BuilderView, a: Seq<EventView>, b: Seq<EventView>)
    ensures
        run_spec(s, a + b) == run_spec(run_spec(s, a), b),
    decreases b.len(),
{
    if b.len() == 0 {
    } else {
        lemma_run_concat(s, a, b.drop_last());
        assert((a + b).drop_last() =~= a + b.drop_last());
    }
}

/// The events of an element, seen in any state, leave what pushing the
/// element's finished block and closing it leaves: the block goes to the
/// innermost open block's children, or into the fields.
pub proof fn lemma_element_builds_its_block(s: BuilderView, e: Element)
    requires
        rootless(e),
    ensures
        run_spec(s, element_events(e)) == close_spec(
            BuilderView { stack: s.stack.push(element_block(e)), ..s },
            e.tag,
        ),
    decreases e, 1int,
{
    let open = EventView::Open { tag: e.tag, attributes: e.attributes };
    let close = EventView::Close { tag: e.tag };
    let none = Seq::<EventView>::empty();
    let body = nodes_events(e.content);
    let opened = BuilderView { stack: s.stack.push(fresh_block(attribute_map(e.attributes))), ..s };
    lemma_run_push(s, none, open);
    lemma_run_concat(s, none.push(open), body);
    lemma_content_fills_block(opened, e.content);
    assert(opened.stack.drop_last() =~= s.stack);
    lemma_run_concat(s, none.push(open) + body, none.push(close));
    let filled = run_spec(s, none.push(open) + body);
    lemma_run_push(filled, none, close);
}

/// The events of an element leave the stack as deep as they found it, and
/// what was open below the innermost block untouched.
pub proof fn lemma_element_keeps_depth(s: BuilderView, e: Element)
    requires
        rootless(e),
    ensures
        run_spec(s, element_events(e)).stack.len() == s.stack.len(),
        run_spec(s, element_events(e)).version == s.version,
        s.stack.len() > 0 ==> run_spec(s, element_events(e)).stack.drop_last()
            == s.stack.drop_last() && run_spec(s, element_events(e)).fields == s.fields,
{
    lemma_element_builds_its_block(s, e);
    let pushed = s.stack.push(element_block(e));
    assert(pushed.drop_last() =~= s.stack);
    if s.stack.len() > 0 {
        let end = run_spec(s, element_events(e));
        assert(end.stack.drop_last() =~= s.stack.drop_last());
    }
}

/// The events of an element's content, seen while its block is the
/// innermost open one, change that block alone: it takes the pieces in.
pub proof fn lemma_content_fills_block(s: BuilderView, nodes: Seq<Node>)
    requires
        s.stack.len() > 0,
        rootless_nodes(nodes),
    ensures
        run_spec(s, nodes_events(nodes)) == (BuilderView {
            stack: s.stack.drop_last().push(with_nodes(s.stack.last(), nodes)),
            ..s
        }),
    decreases nodes, 0int,
{
    if nodes.len() == 0 {
        assert(s.stack.drop_last().push(s.stack.last()) =~= s.stack);
    } else {
        let front = nodes.drop_last();
        assert(rootless_nodes(front)) by {
            assert forall|i: int| 0 <= i < front.len() implies front[i] == nodes[i] by {}
        }
        lemma_content_fills_block(s, front);
        let mid = run_spec(s, nodes_events(front));
        lemma_run_concat(s, nodes_events(front), node_events(nodes.last()));
        let block = with_nodes(s.stack.last(), front);
        assert(mid.stack.drop_last() =~= s.stack.drop_last());
        assert(with_nodes(s.stack.last(), nodes) == with_node(block, nodes.last()));
        match nodes.last() {
            Node::Text { content } => {
                lemma_run_push(mid, Seq::empty(), EventView::Text { content });
            },
            Node::Child { element } => {
                assert(rootless(element));
                lemma_element_builds_its_block(mid, element);
                let pushed = mid.stack.push(element_block(element));
                assert(pushed.drop_last() =~= mid.stack);
            },
        }
    }
}

/// The events of top-level content, seen with no element open, change the
/// fields alone: each element is stored under its tag, in place of an
/// earlier one of that tag.
pub proof fn lemma_top_level_content(s: BuilderView, nodes: Seq<Node>)
    requires
        s.stack.len() == 0,
        rootless_nodes(nodes),
    ensures
        run_spec(s, nodes_events(nodes)) == (BuilderView {
            fields: fields_with_nodes(s.fields, nodes),
            ..s
        }),
    decreases nodes.len(),
{
    if nodes.len() > 0 {
        let front = nodes.drop_last();
        assert(rootless_nodes(front)) by {
            assert forall|i: int| 0 <= i < front.len() implies front[i] == nodes[i] by {}
        }
        lemma_top_level_content(s, front);
        let mid = run_spec(s, nodes_events(front));
        lemma_run_concat(s, nodes_events(front), node_events(nodes.last()));
        match nodes.last() {
            Node::Text { content } => {
                lemma_run_push(mid, Seq::empty(), EventView::Text { content });
            },
            Node::Child { element } => {
                assert(rootless(element));
                lemma_element_builds_its_block(mid, element);
                let pushed = mid.stack.push(element_block(element));
                assert(pushed.drop_last() =~= mid.stack);
            },
        }
    }
}

/// A document whose root element has the root's tag, and in which no other
/// element has it, is built as it stands: the version is the root's
/// `version` attribute, or empty without one, and the fields are the root's
/// child elements.
pub proof fn lemma_document_is_its_root(
    attributes: Seq<(Seq<char>, Seq<char>)>,
    content: Seq<Node>,
)
    requires
        rootless_nodes(content),
    ensures
        build_spec(
            element_events(Element { tag: root_tag(), attributes, content }),
        ) == (DocumentView {
            version: declared_version(attributes),
            fields: fields_with_nodes(Map::empty(), content),
        }),
        run_spec(
            initial(),
            element_events(Element { tag: root_tag(), attributes, content }),
        ).stack.len() == 0,
{
    let open = EventView::Open { tag: root_tag(), attributes };
    let close = EventView::Close { tag: root_tag() };
    let none = Seq::<EventView>::empty();
    let body = nodes_events(content);
    lemma_run_push(initial(), none, open);
    let opened = run_spec(initial(), none.push(open));
    lemma_run_concat(initial(), none.push(open), body);
    lemma_top_level_content(opened, content);
    lemma_run_concat(initial(), none.push(open) + body, none.push(close));
    let filled = run_spec(initial(), none.push(open) + body);
    lemma_run_push(filled, none, close);
}

/// A block that takes pieces of content in gains, under each tag, the
/// blocks of the child elements of that tag, in the order of the pieces:
/// as many as there are such children.
pub proof fn lemma_children_in_document_order(block: BlockView, nodes: Seq<Node>, tag: Seq<char>)
    ensures
        children_of(with_nodes(block, nodes), tag) == children_of(block, tag) + tagged_blocks(
            nodes,
            tag,
        ),
        children_of(with_nodes(block, nodes), tag).len() == children_of(block, tag).len()
            + tagged_blocks(nodes, tag).len(),
        with_nodes(block, nodes).attributes == block.attributes,
    decreases nodes.len(),
{
    if nodes.len() > 0 {
        let front = nodes.drop_last();
        lemma_children_in_document_order(block, front, tag);
        assert(with_nodes(block, nodes) == with_node(with_nodes(block, front), nodes.last()));
    }
}

/// Of the top-level elements that share a tag, the field of that name holds
/// the last; a tag that no top-level element has keeps what it had.
pub proof fn lemma_last_top_level_element_wins(
    fields: Map<Seq<char>, BlockView>,
    nodes: Seq<Node>,
    tag: Seq<char>,
)
    ensures
        tagged_blocks(nodes, tag).len() > 0 ==> fields_with_nodes(fields, nodes).contains_key(tag)
            && fields_with_nodes(fields, nodes)[tag] == tagged_blocks(nodes, tag).last(),
        tagged_blocks(nodes, tag).len() == 0 ==> (fields_with_nodes(fields, nodes).contains_key(tag)
            <==> fields.contains_key(tag)),
        tagged_blocks(nodes, tag).len() == 0 && fields.contains_key(tag) ==> fields_with_nodes(
            fields,
            nodes,
        )[tag] == fields[tag],
    decreases nodes.len(),
{
    if nodes.len() > 0 {
        lemma_last_top_level_element_wins(fields, nodes.drop_last(), tag);
    }
}

/// An element without content is a block with empty text and no children.
pub proof fn lemma_bare_element_is_empty(e: Element)
    requires
        e.content.len() == 0,
    ensures
        element_block(e).attributes == attribute_map(e.attributes),
        element_block(e).raw_content == Seq::<char>::empty(),
        element_block(e).sub_blocks == Map::<Seq<char>, Seq<BlockView>>::empty(),
{
}

} // verus!
