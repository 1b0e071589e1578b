//! Ties between spans whose content is tokenized again in a later pass.
use vstd::prelude::*;
use crate::nesting::open_stack;
use crate::token::{ContentType, Event, EventType, Link};

verus! {

/// The index of the last enter event before `before` that carries content of
/// kind `content_type`, if there is one.
pub open spec fn previous_linked(events: Seq<Event>, before: int, content_type: ContentType) -> Option<usize>
    decreases before,
{
    if before <= 0 {
        None
    } else {
        let event = events[before - 1];
        if event.event_type == EventType::Enter && event.link is Some && event.link.unwrap().content_type
            == content_type {
            Some((before - 1) as usize)
        } else {
            previous_linked(events, before - 1, content_type)
        }
    }
}

/// `events` with the span that starts at `index` tied to the span with the
/// same kind of content before it.
pub open spec fn linked(events: Seq<Event>, index: int) -> Seq<Event> {
    match events[index].link {
        Some(link) => events.update(
            index,
            Event {
                link: Some(
                    Link { previous: previous_linked(events, index, link.content_type), ..link },
                ),
                ..events[index]
            },
        ),
        None => events,
    }
}

/// Tying a span changes neither the names nor the places of the events.
pub proof fn lemma_linked_shape(events: Seq<Event>, index: int)
    requires
        0 <= index < events.len(),
    ensures
        linked(events, index).len() == events.len(),
        forall|i: int|
            0 <= i < events.len() ==> {
                &&& (#[trigger] linked(events, index)[i]).event_type == events[i].event_type
                &&& linked(events, index)[i].token_type == events[i].token_type
                &&& linked(events, index)[i].point == events[i].point
            },
        forall|i: int| 0 <= i < events.len() && i != index ==> #[trigger] linked(events, index)[i] == events[i],
{
}

/// Two logs with the same names in the same order read alike.
pub proof fn lemma_open_stack_shape(a: Seq<Event>, b: Seq<Event>)
    requires
        a.len() == b.len(),
        forall|i: int|
            0 <= i < a.len() ==> (#[trigger] a[i]).event_type == b[i].event_type && a[i].token_type
                == b[i].token_type,
    ensures
        open_stack(a) == open_stack(b),
    decreases a.len(),
{
    if a.len() > 0 {
        lemma_open_stack_shape(a.drop_last(), b.drop_last());
    }
}

/// Tie the span that starts at `index` to the last span before it that
/// carries the same kind of content.  A span without content is left alone.
pub fn link(events: &mut Vec<Event>, index: usize)
    requires
        index < old(events).len(),
    ensures
        final(events)@ == linked(old(events)@, index as int),
{
    let event = events[index];
    match event.link {
        Some(link) => {
            let mut at: usize = index;
            let mut found: Option<usize> = None;
            while at > 0
                invariant_except_break
                    found is None,
                    previous_linked(events@, index as int, link.content_type) == previous_linked(
                        events@,
                        at as int,
                        link.content_type,
                    ),
                invariant
                    at <= index < events.len(),
                    *events == *old(events),
                ensures
                    previous_linked(events@, index as int, link.content_type) == found,
                decreases at,
            {
                at -= 1;
                let before = events[at];
                let tied = match before.link {
                    Some(other) => other.content_type == link.content_type,
                    None => false,
                };
                if before.event_type == EventType::Enter && tied {
                    found = Some(at);
                    break ;
                }
            }
            events.set(index, Event { link: Some(Link { previous: found, ..link }), ..event });
        },
        None => {},
    }
}

/// The indices of the enter events of the spans that are tied together up
/// to the span that opens at `index`, first to last.
///
/// A tie that does not point back ends the run, as a missing tie does.
pub open spec fn chain_model(events: Seq<Event>, index: int) -> Seq<usize>
    decreases index,
{
    if index < 0 || index >= events.len() {
        Seq::empty()
    } else if events[index].link is Some && events[index].link.unwrap().previous is Some
        && events[index].link.unwrap().previous.unwrap() < index {
        chain_model(events, events[index].link.unwrap().previous.unwrap() as int).push(index as usize)
    } else {
        seq![index as usize]
    }
}

/// Collect the run of spans that a later pass reads as one piece of
/// content: the spans that are tied together up to the span that opens at
/// `index`, first to last.
pub fn chain(events: &Vec<Event>, index: usize) -> (run: Vec<usize>)
    requires
        index < events.len(),
    ensures
        run@ == chain_model(events@, index as int),
{
    let mut run: Vec<usize> = Vec::new();
    let mut at: usize = index;
    assert(chain_model(events@, at as int) + run@ =~= chain_model(events@, index as int));
    loop
        invariant_except_break
            chain_model(events@, at as int) + run@ == chain_model(events@, index as int),
        invariant
            at <= index < events.len(),
        ensures
            run@ == chain_model(events@, index as int),
        decreases at,
    {
        let ghost rest = run@;
        let previous = match events[at].link {
            Some(link) => link.previous,
            None => None,
        };
        run.insert(0, at);
        match previous {
            Some(previous) if previous < at => {
                assert(chain_model(events@, previous as int) + run@ =~= chain_model(events@, at as int)
                    + rest);
                at = previous;
            },
            _ => {
                assert(run@ =~= chain_model(events@, at as int) + rest);
                break ;
            },
        }
    }
    run
}

} // verus!
