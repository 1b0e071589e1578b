//! Walk over the log, past or up to spans of given names.
use vstd::prelude::*;
use crate::nesting::{
    lemma_open_stack_prefix, lemma_read_from_add, lemma_read_from_empty, lemma_read_from_frame, open_stack,
    read_from,
};
use crate::token::{Event, EventType, Token};

verus! {

/// The index of the exit that closes the innermost of `depth` open spans,
/// looking from `index` on; the length of the log if there is none.
pub open spec fn span_end(events: Seq<Event>, index: int, depth: int) -> int
    decreases events.len() - index,
{
    if index < 0 || index >= events.len() {
        events.len() as int
    } else if events[index].event_type == EventType::Enter {
        span_end(events, index + 1, depth + 1)
    } else if depth <= 1 {
        index
    } else {
        span_end(events, index + 1, depth - 1)
    }
}

/// The exit that `span_end` finds lies at or after the place it looked from.
pub proof fn lemma_span_end_bounds(events: Seq<Event>, index: int, depth: int)
    requires
        0 <= index <= events.len(),
    ensures
        index <= span_end(events, index, depth) <= events.len(),
        span_end(events, index, depth) < events.len() ==> events[span_end(
            events,
            index,
            depth,
        )].event_type == EventType::Exit,
    decreases events.len() - index,
{
    if index < events.len() {
        if events[index].event_type == EventType::Enter {
            lemma_span_end_bounds(events, index + 1, depth + 1);
        } else if depth > 1 {
            lemma_span_end_bounds(events, index + 1, depth - 1);
        }
    }
}

/// In a log that can be read, the events from `from` up to `to` are read
/// from the stack that the events before them leave.
pub proof fn lemma_read_range(events: Seq<Event>, from: int, to: int)
    requires
        open_stack(events) is Some,
        0 <= from <= to <= events.len(),
        read_from(Seq::empty(), events.subrange(from, to)) is Some,
    ensures
        open_stack(events.take(from)) is Some,
        open_stack(events.take(to)) == Some(
            open_stack(events.take(from)).unwrap() + read_from(
                Seq::empty(),
                events.subrange(from, to),
            ).unwrap(),
        ),
{
    lemma_open_stack_prefix(events, from);
    lemma_read_from_empty(events.take(from));
    lemma_read_from_empty(events.take(to));
    let below = open_stack(events.take(from)).unwrap();
    lemma_read_from_frame(below, events.subrange(from, to));
    lemma_read_from_add(Seq::empty(), events.take(from), events.subrange(from, to));
    assert(events.take(from) + events.subrange(from, to) =~= events.take(to));
}

/// In a log that can be read, the event at `at` can be read after the
/// events from `from` up to `at`, whatever stack these are read from.
pub proof fn lemma_read_next(events: Seq<Event>, from: int, at: int)
    requires
        open_stack(events) is Some,
        0 <= from <= at < events.len(),
        read_from(Seq::empty(), events.subrange(from, at)) is Some,
        events[at].event_type == EventType::Exit,
        read_from(Seq::empty(), events.subrange(from, at)).unwrap().len() > 0,
    ensures
        read_from(Seq::empty(), events.subrange(from, at + 1)) == Some(
            read_from(Seq::empty(), events.subrange(from, at)).unwrap().drop_last(),
        ),
{
    let open = read_from(Seq::empty(), events.subrange(from, at)).unwrap();
    lemma_read_range(events, from, at);
    let below = open_stack(events.take(from)).unwrap();
    lemma_open_stack_prefix(events, at + 1);
    assert(events.take(at + 1).drop_last() =~= events.take(at));
    assert((below + open).last() == open.last());
    assert(events.subrange(from, at + 1).drop_last() =~= events.subrange(from, at));
}

/// In a log that can be read, the events from `from` on, with `open` left
/// open at `at`, are well nested up to the exit that closes the outermost
/// span they opened.
pub proof fn lemma_span_scan(events: Seq<Event>, from: int, at: int, open: Seq<Token>)
    requires
        open_stack(events) is Some,
        0 <= from <= at <= events.len(),
        read_from(Seq::empty(), events.subrange(from, at)) == Some(open),
        open.len() >= 1,
        span_end(events, at, open.len() as int) < events.len(),
    ensures
        read_from(
            Seq::empty(),
            events.subrange(from, span_end(events, at, open.len() as int) + 1),
        ) == Some(Seq::<Token>::empty()),
    decreases events.len() - at,
{
    let event = events[at];
    assert(events.subrange(from, at + 1).drop_last() =~= events.subrange(from, at));
    if event.event_type == EventType::Enter {
        lemma_span_scan(events, from, at + 1, open.push(event.token_type));
    } else {
        lemma_read_next(events, from, at);
        if open.len() <= 1 {
            assert(open.drop_last() =~= Seq::<Token>::empty());
        } else {
            lemma_span_scan(events, from, at + 1, open.drop_last());
        }
    }
}

/// In a log that can be read, a span is well nested from its enter event to
/// its exit event.
pub proof fn lemma_span_balanced(events: Seq<Event>, index: int)
    requires
        open_stack(events) is Some,
        0 <= index < events.len(),
        events[index].event_type == EventType::Enter,
        span_end(events, index + 1, 1) < events.len(),
    ensures
        read_from(Seq::empty(), events.subrange(index, span_end(events, index + 1, 1) + 1)) == Some(
            Seq::<Token>::empty(),
        ),
{
    let first = events.subrange(index, index + 1);
    assert(first.drop_last() =~= Seq::<Event>::empty());
    assert(read_from(Seq::empty(), first.drop_last()) == Some(Seq::<Token>::empty()));
    assert(read_from(Seq::empty(), first) == Some(seq![events[index].token_type]));
    lemma_span_scan(events, index, index + 1, seq![events[index].token_type]);
}

/// The index after the whole spans named in `token_types` that follow each
/// other from `index` on.
pub open spec fn opt_model(events: Seq<Event>, index: int, token_types: Seq<Token>) -> int
    decreases events.len() - index,
{
    if 0 <= index < events.len() && events[index].event_type == EventType::Enter
        && token_types.contains(events[index].token_type) {
        let end = span_end(events, index + 1, 1);
        proof {
            lemma_span_end_bounds(events, index + 1, 1);
        }
        if end < events.len() {
            opt_model(events, end + 1, token_types)
        } else {
            events.len() as int
        }
    } else {
        index
    }
}

/// The index of the first event at or after `index` with a name in
/// `token_types`; the length of the log if there is none.
pub open spec fn to_model(events: Seq<Event>, index: int, token_types: Seq<Token>) -> int
    decreases events.len() - index,
{
    if index < 0 || index >= events.len() {
        events.len() as int
    } else if token_types.contains(events[index].token_type) {
        index
    } else {
        to_model(events, index + 1, token_types)
    }
}

/// The index of the last event at or before `index` with a name in
/// `token_types`; zero if there is none.
pub open spec fn to_back_model(events: Seq<Event>, index: int, token_types: Seq<Token>) -> int
    decreases index,
{
    if index <= 0 {
        0
    } else if index < events.len() && token_types.contains(events[index].token_type) {
        index
    } else {
        to_back_model(events, index - 1, token_types)
    }
}

/// Whether `token_type` is one of `token_types`.
pub fn one_of(token_types: &[Token], token_type: Token) -> (found: bool)
    ensures
        found == token_types@.contains(token_type),
{
    let mut index: usize = 0;
    while index < token_types.len()
        invariant
            index <= token_types.len(),
            forall|i: int| 0 <= i < index ==> token_types@[i] != token_type,
        decreases token_types.len() - index,
    {
        if token_types[index] == token_type {
            return true;
        }
        index += 1;
    }
    false
}

/// The index of the exit that closes the span whose enter lies just before
/// `index`; the length of the log if the span is not closed.
pub fn to_span_end(events: &Vec<Event>, index: usize) -> (end: usize)
    requires
        index <= events.len(),
    ensures
        end == span_end(events@, index as int, 1),
        index <= end <= events.len(),
{
    let mut at: usize = index;
    let mut nested: usize = 0;
    proof {
        lemma_span_end_bounds(events@, index as int, 1);
    }
    while at < events.len()
        invariant
            index <= at <= events.len(),
            nested <= at - index,
            span_end(events@, at as int, nested + 1) == span_end(events@, index as int, 1),
        decreases events.len() - at,
    {
        if events[at].event_type == EventType::Enter {
            nested += 1;
        } else if nested == 0 {
            return at;
        } else {
            nested -= 1;
        }
        at += 1;
    }
    at
}

/// Skip from `index` past the whole spans named in `token_types` that follow
/// each other.
pub fn opt(events: &Vec<Event>, index: usize, token_types: &[Token]) -> (after: usize)
    requires
        index <= events.len(),
    ensures
        after == opt_model(events@, index as int, token_types@),
        index <= after <= events.len(),
{
    let mut at: usize = index;
    while at < events.len()
        invariant
            index <= at <= events.len(),
            opt_model(events@, at as int, token_types@) == opt_model(events@, index as int, token_types@),
        decreases events.len() - at,
    {
        if events[at].event_type != EventType::Enter || !one_of(token_types, events[at].token_type) {
            return at;
        }
        let end = to_span_end(events, at + 1);
        if end < events.len() {
            at = end + 1;
        } else {
            return events.len();
        }
    }
    at
}

/// Skip from `index` forwards to the first event with a name in
/// `token_types`.
pub fn to(events: &Vec<Event>, index: usize, token_types: &[Token]) -> (found: usize)
    requires
        index <= events.len(),
    ensures
        found == to_model(events@, index as int, token_types@),
        index <= found <= events.len(),
        found < events.len() ==> token_types@.contains(events@[found as int].token_type),
{
    let mut at: usize = index;
    while at < events.len()
        invariant
            index <= at <= events.len(),
            to_model(events@, at as int, token_types@) == to_model(events@, index as int, token_types@),
        decreases events.len() - at,
    {
        if one_of(token_types, events[at].token_type) {
            return at;
        }
        at += 1;
    }
    at
}

/// Skip from `index` backwards to the last event with a name in
/// `token_types`.
pub fn to_back(events: &Vec<Event>, index: usize, token_types: &[Token]) -> (found: usize)
    requires
        index < events.len(),
    ensures
        found == to_back_model(events@, index as int, token_types@),
        found <= index,
{
    let mut at: usize = index;
    while at > 0
        invariant
            at <= index < events.len(),
            to_back_model(events@, at as int, token_types@) == to_back_model(
                events@,
                index as int,
                token_types@,
            ),
        decreases at,
    {
        if one_of(token_types, events[at].token_type) {
            return at;
        }
        at -= 1;
    }
    at
}

} // verus!
