//! The structural events that a markup tokenizer reports.

use vstd::prelude::*;

verus! {

/// What an event stands for.
pub enum EventView {
    Open { tag: Seq<char>, attributes: Seq<(Seq<char>, Seq<char>)> },
    Text { content: Seq<char> },
    Close { tag: Seq<char> },
    Other,
}

/// One event of the stream: an element opens, text is seen, an element
/// closes, or something that the tree takes no notice of (a comment, a
/// declaration, whitespace between elements, the end of the document).
#[derive(Debug)]
pub enum Event {
    Open { tag: String, attributes: Vec<(String, String)> },
    Text { content: String },
    Close { tag: String },
    Other,
}

/// The name and value of each attribute, in the order given.
pub open spec fn pairs_view(pairs: Seq<(String, String)>) -> Seq<(Seq<char>, Seq<char>)> {
    Seq::new(pairs.len(), |i: int| (pairs[i].0@, pairs[i].1@))
}

/// The views of a run of events, in order.
pub open spec fn events_view(events: Seq<Event>) -> Seq<EventView> {
    Seq::new(events.len(), |i: int| events[i]@)
}

impl Event {
    pub open spec fn view(&self) -> EventView {
        match *self {
            Event::Open { tag, attributes } => EventView::Open {
                tag: tag@,
                attributes: pairs_view(attributes@),
            },
            Event::Text { content } => EventView::Text { content: content@ },
            Event::Close { tag } => EventView::Close { tag: tag@ },
            Event::Other => EventView::Other,
        }
    }
}

} // verus!
