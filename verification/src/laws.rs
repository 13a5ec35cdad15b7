//! What holds of every run of the builder: where the version comes from,
//! and when the stack is empty.

use vstd::prelude::*;
use crate::builder::{
    attribute_map, build_spec, initial, root_tag, run_spec, step_spec, version_key, BuilderView,
};
use crate::event::EventView;

verus! {

/// The event opens an element with the root's tag.
pub open spec fn opens_root(e: EventView) -> bool {
    e matches EventView::Open { tag, .. } && tag == root_tag()
}

/// The version that a root element with these attributes declares: the
/// value of its `version` attribute, or nothing.
pub open spec fn declared_version(attributes: Seq<(Seq<char>, Seq<char>)>) -> Seq<char> {
    let attrs = attribute_map(attributes);
    if attrs.contains_key(version_key()) {
        attrs[version_key()]
    } else {
        Seq::empty()
    }
}

/// Running one more event is one more step.
pub proof fn lemma_run_push(s: BuilderView, events: Seq<EventView>, e: EventView)
    ensures
        run_spec(s, events.push(e)) == step_spec(run_spec(s, events), e),
{
    assert(events.push(e).drop_last() =~= events);
}

/// Events among which no root element opens leave the version as it was.
pub proof fn lemma_version_kept(s: BuilderView, events: Seq<EventView>)
    requires
        forall|j: int| 0 <= j < events.len() ==> !opens_root(#[trigger] events[j]),
    ensures
        run_spec(s, events).version == s.version,
    decreases events.len(),
{
    if events.len() > 0 {
        let front = events.drop_last();
        assert forall|j: int| 0 <= j < front.len() implies !opens_root(#[trigger] front[j]) by {
            assert(front[j] == events[j]);
        }
        lemma_version_kept(s, front);
    }
}

/// Where exactly one event opens a root element, the document's version is
/// the value of that element's `version` attribute, and empty where it has
/// none.
pub proof fn lemma_version_from_root(events: Seq<EventView>, i: int)
    requires
        0 <= i < events.len(),
        opens_root(events[i]),
        forall|j: int| 0 <= j < events.len() && j != i ==> !opens_root(#[trigger] events[j]),
    ensures
        build_spec(events).version == declared_version(events[i]->Open_attributes),
    decreases events.len(),
{
    let front = events.drop_last();
    if i == events.len() - 1 {
        assert forall|j: int| 0 <= j < front.len() implies !opens_root(#[trigger] front[j]) by {
            assert(front[j] == events[j]);
        }
        lemma_version_kept(initial(), front);
    } else {
        assert forall|j: int| 0 <= j < front.len() && j != i implies !opens_root(
            #[trigger] front[j],
        ) by {
            assert(front[j] == events[j]);
        }
        lemma_version_from_root(front, i);
    }
}

/// Where no event opens a root element, the document's version is empty.
pub proof fn lemma_version_empty_without_root(events: Seq<EventView>)
    requires
        forall|j: int| 0 <= j < events.len() ==> !opens_root(#[trigger] events[j]),
    ensures
        build_spec(events).version == Seq::<char>::empty(),
{
    lemma_version_kept(initial(), events);
}

/// The tags of the elements that are open after the events, outermost
/// first; `None` where an element closes that is not the innermost open one.
pub open spec fn open_tags(events: Seq<EventView>) -> Option<Seq<Seq<char>>>
    decreases events.len(),
{
    if events.len() == 0 {
        Some(Seq::empty())
    } else {
        match open_tags(events.drop_last()) {
            None => None,
            Some(tags) => match events.last() {
                EventView::Open { tag, .. } => Some(tags.push(tag)),
                EventView::Close { tag } => if tags.len() > 0 && tags.last() == tag {
                    Some(tags.drop_last())
                } else {
                    None
                },
                _ => Some(tags),
            },
        }
    }
}

/// Every element that opens is closed again, innermost first, and nothing
/// else is closed.
pub open spec fn well_nested(events: Seq<EventView>) -> bool {
    open_tags(events) == Some(Seq::<Seq<char>>::empty())
}

/// How many of the tags are not the root's.
pub open spec fn below_root(tags: Seq<Seq<char>>) -> nat
    decreases tags.len(),
{
    if tags.len() == 0 {
        0
    } else if tags.last() == root_tag() {
        below_root(tags.drop_last())
    } else {
        below_root(tags.drop_last()) + 1
    }
}

/// While the events nest properly, the stack holds one block for each open
/// element that is not a root.
pub proof fn lemma_stack_follows_open_tags(events: Seq<EventView>)
    requires
        open_tags(events).is_some(),
    ensures
        run_spec(initial(), events).stack.len() == below_root(open_tags(events).unwrap()),
    decreases events.len(),
{
    if events.len() > 0 {
        let front = events.drop_last();
        lemma_stack_follows_open_tags(front);
        let tags = open_tags(front).unwrap();
        match events.last() {
            EventView::Open { tag, .. } => {
                assert(tags.push(tag).drop_last() =~= tags);
            },
            _ => {},
        }
    }
}

/// The stack is empty before the first event, and empty again after the
/// last event of a well-nested run.
pub proof fn lemma_stack_empty_at_both_ends(events: Seq<EventView>)
    requires
        well_nested(events),
    ensures
        initial().stack.len() == 0,
        run_spec(initial(), events).stack.len() == 0,
{
    lemma_stack_follows_open_tags(events);
}

} // verus!
