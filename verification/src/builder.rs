//! The tree builder: a single pass over the events with an explicit stack of
//! the elements that are open.

use vstd::prelude::*;
use crate::assoc::{assoc_map, unique_keys, upsert};
use crate::event::{events_view, pairs_view, Event, EventView};
use crate::model::{
    attach_spec, blocks_view, blocks_well_formed, fresh_block, Block, BlockView, DocumentView,
    UPFData,
};
use crate::text::{trim, trimmed};

verus! {

/// The tag of the outermost element, which is never stored as a block.
pub open spec fn root_tag() -> Seq<char> {
    "UPF"@
}

/// The root attribute that carries the format version.
pub open spec fn version_key() -> Seq<char> {
    "version"@
}

/// The attributes of an element as a map: of a repeated name the last value
/// stands.
pub open spec fn attribute_map(pairs: Seq<(Seq<char>, Seq<char>)>) -> Map<Seq<char>, Seq<char>>
    decreases pairs.len(),
{
    if pairs.len() == 0 {
        Map::empty()
    } else {
        attribute_map(pairs.drop_last()).insert(pairs.last().0, pairs.last().1)
    }
}

/// The builder between two events: the document so far and the chain of open
/// elements below the root, outermost first.
pub struct BuilderView {
    pub version: Seq<char>,
    pub fields: Map<Seq<char>, BlockView>,
    pub stack: Seq<BlockView>,
}

/// The builder before the first event.
pub open spec fn initial() -> BuilderView {
    BuilderView { version: Seq::empty(), fields: Map::empty(), stack: Seq::empty() }
}

/// An element opens. The root only hands over its version; any other
/// element becomes the innermost open block.
pub open spec fn open_spec(
    s: BuilderView,
    tag: Seq<char>,
    attributes: Seq<(Seq<char>, Seq<char>)>,
) -> BuilderView {
    let attrs = attribute_map(attributes);
    if tag == root_tag() {
        if attrs.contains_key(version_key()) {
            BuilderView { version: attrs[version_key()], ..s }
        } else {
            s
        }
    } else {
        BuilderView { stack: s.stack.push(fresh_block(attrs)), ..s }
    }
}

/// Text is seen: trimmed, it replaces the text of the innermost open block;
/// with no block open it is dropped.
pub open spec fn text_spec(s: BuilderView, content: Seq<char>) -> BuilderView {
    if s.stack.len() > 0 {
        let top = s.stack.last();
        BuilderView {
            stack: s.stack.drop_last().push(
                BlockView { raw_content: trimmed(content), ..top },
            ),
            ..s
        }
    } else {
        s
    }
}

/// An element closes. The innermost open block leaves the stack and goes to
/// its parent's children of that tag, or, with no parent open, into the
/// document's fields, in place of an earlier field of that name.
pub open spec fn close_spec(s: BuilderView, tag: Seq<char>) -> BuilderView {
    if tag == root_tag() || s.stack.len() == 0 {
        s
    } else {
        let closed = s.stack.last();
        let rest = s.stack.drop_last();
        if rest.len() > 0 {
            BuilderView {
                stack: rest.drop_last().push(attach_spec(rest.last(), tag, closed)),
                ..s
            }
        } else {
            BuilderView { fields: s.fields.insert(tag, closed), stack: rest, ..s }
        }
    }
}

/// The builder after one more event.
pub open spec fn step_spec(s: BuilderView, e: EventView) -> BuilderView {
    match e {
        EventView::Open { tag, attributes } => open_spec(s, tag, attributes),
        EventView::Text { content } => text_spec(s, content),
        EventView::Close { tag } => close_spec(s, tag),
        EventView::Other => s,
    }
}

/// The builder after the events, taken in order from `s`.
pub open spec fn run_spec(s: BuilderView, events: Seq<EventView>) -> BuilderView
    decreases events.len(),
{
    if events.len() == 0 {
        s
    } else {
        step_spec(run_spec(s, events.drop_last()), events.last())
    }
}

/// The document that the events describe.
pub open spec fn build_spec(events: Seq<EventView>) -> DocumentView {
    let end = run_spec(initial(), events);
    DocumentView { version: end.version, fields: end.fields }
}

/// Whether `tag` names the root element.
fn is_root(tag: &String) -> (r: bool)
    ensures
        r == (tag@ == root_tag()),
{
    let root = "UPF".to_owned();
    *tag == root
}

/// The attributes as an association list: of a repeated name the last value
/// stands.
pub fn collect_attributes(pairs: &Vec<(String, String)>) -> (r: Vec<(String, String)>)
    ensures
        unique_keys(r@),
        assoc_map(r@).map_values(|v: String| v@) == attribute_map(pairs_view(pairs@)),
{
    let mut out: Vec<(String, String)> = Vec::new();
    let mut i: usize = 0;
    while i < pairs.len()
        invariant
            i <= pairs@.len(),
            unique_keys(out@),
            assoc_map(out@).map_values(|v: String| v@) == attribute_map(
                pairs_view(pairs@).take(i as int),
            ),
        decreases pairs@.len() - i,
    {
        let name = pairs[i].0.clone();
        let value = pairs[i].1.clone();
        upsert(&mut out, name, value);
        proof {
            assert(pairs_view(pairs@).take(i + 1).drop_last() =~= pairs_view(pairs@).take(
                i as int,
            ));
        }
        i += 1;
    }
    proof {
        assert(pairs_view(pairs@).take(i as int) =~= pairs_view(pairs@));
    }
    out
}

/// The state of one pass over the events.
pub struct Builder {
    pub data: UPFData,
    pub stack: Vec<Block>,
}

impl Builder {
    pub open spec fn view(&self) -> BuilderView {
        BuilderView {
            version: self.data@.version,
            fields: self.data@.fields,
            stack: blocks_view(self.stack@),
        }
    }

    /// The document so far and every open block are well formed.
    pub open spec fn well_formed(&self) -> bool {
        self.data.well_formed() && blocks_well_formed(self.stack@)
    }

    /// A builder that has seen no event: an empty document, nothing open.
    pub fn new() -> (r: Builder)
        ensures
            r.well_formed(),
            r@ == initial(),
    {
        let r = Builder { data: UPFData::default(), stack: Vec::new() };
        proof {
            assert(r@.stack =~= Seq::empty());
        }
        r
    }

    /// How many elements below the root are open.
    pub fn depth(&self) -> (r: usize)
        ensures
            r == self@.stack.len(),
    {
        self.stack.len()
    }

    /// Takes one event.
    pub fn step(&mut self, event: &Event)
        requires
            old(self).well_formed(),
        ensures
            final(self).well_formed(),
            final(self)@ == step_spec(old(self)@, event@),
    {
        match event {
            Event::Open { tag, attributes } => self.open(tag, attributes),
            Event::Text { content } => self.text(content),
            Event::Close { tag } => self.close(tag),
            Event::Other => {},
        }
    }

    /// An element opens.
    pub fn open(&mut self, tag: &String, attributes: &Vec<(String, String)>)
        requires
            old(self).well_formed(),
        ensures
            final(self).well_formed(),
            final(self)@ == open_spec(old(self)@, tag@, pairs_view(attributes@)),
    {
        let block = Block::new(collect_attributes(attributes));
        if is_root(tag) {
            match block.attribute("version") {
                Some(version) => {
                    self.data.version = version.clone();
                },
                None => {},
            }
        } else {
            proof {
                assert(blocks_view(self.stack@.push(block)) =~= blocks_view(self.stack@).push(
                    block@,
                ));
            }
            self.stack.push(block);
        }
    }

    /// Text is seen.
    pub fn text(&mut self, content: &String)
        requires
            old(self).well_formed(),
        ensures
            final(self).well_formed(),
            final(self)@ == text_spec(old(self)@, content@),
    {
        let ghost before = self.stack@;
        match self.stack.pop() {
            Some(mut top) => {
                let ghost was = top;
                top.raw_content = trim(content.as_str()).to_owned();
                proof {
                    was.lemma_sub_blocks_view();
                    top.lemma_sub_blocks_view();
                    assert(blocks_view(before.drop_last().push(top)) =~= blocks_view(
                        before,
                    ).drop_last().push(top@));
                }
                self.stack.push(top);
            },
            None => {},
        }
    }

    /// An element closes.
    pub fn close(&mut self, tag: &String)
        requires
            old(self).well_formed(),
        ensures
            final(self).well_formed(),
            final(self)@ == close_spec(old(self)@, tag@),
    {
        if is_root(tag) {
            return ;
        }
        let ghost before = self.stack@;
        match self.stack.pop() {
            Some(closed) => {
                let ghost rest = self.stack@;
                assert(blocks_view(rest) =~= blocks_view(before).drop_last());
                match self.stack.pop() {
                    Some(mut parent) => {
                        let ghost below = self.stack@;
                        parent.attach(tag.clone(), closed);
                        proof {
                            assert(blocks_view(below.push(parent)) =~= blocks_view(
                                rest,
                            ).drop_last().push(parent@));
                        }
                        self.stack.push(parent);
                    },
                    None => {
                        let ghost fields = self.data.fields@;
                        let name = tag.clone();
                        upsert(&mut self.data.fields, name, closed);
                        proof {
                            assert(assoc_map(self.data.fields@).map_values(|b: Block| b@)
                                =~= assoc_map(fields).map_values(|b: Block| b@).insert(
                                tag@,
                                closed@,
                            ));
                        }
                    },
                }
            },
            None => {},
        }
    }

    /// The document built so far. Blocks that are still open are dropped.
    pub fn finish(self) -> (r: UPFData)
        ensures
            r == self.data,
            r@ == (DocumentView { version: self@.version, fields: self@.fields }),
    {
        self.data
    }
}

/// Folds the events, in order, into a document.
pub fn build(events: &Vec<Event>) -> (r: UPFData)
    ensures
        r.well_formed(),
        r@ == build_spec(events_view(events@)),
{
    let mut builder = Builder::new();
    let mut i: usize = 0;
    while i < events.len()
        invariant
            i <= events@.len(),
            builder.well_formed(),
            builder@ == run_spec(initial(), events_view(events@).take(i as int)),
        decreases events@.len() - i,
    {
        builder.step(&events[i]);
        proof {
            assert(events_view(events@).take(i + 1).drop_last() =~= events_view(events@).take(
                i as int,
            ));
        }
        i += 1;
    }
    proof {
        assert(events_view(events@).take(i as int) =~= events_view(events@));
    }
    builder.finish()
}

} // verus!
