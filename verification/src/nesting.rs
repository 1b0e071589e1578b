//! What it means for a log to be well nested.
use vstd::prelude::*;
use crate::token::{Event, EventType, Token};

verus! {

/// Reads `events` as a stack-based reader would: an enter pushes its name, an
/// exit pops the same name.
///
/// The result is the stack after the last event, or `None` if some exit found
/// the stack empty or another name on top.
pub open spec fn open_stack(events: Seq<Event>) -> Option<Seq<Token>>
    decreases events.len(),
{
    if events.len() == 0 {
        Some(Seq::empty())
    } else {
        match open_stack(events.drop_last()) {
            None => None,
            Some(stack) => {
                let last = events.last();
                if last.event_type == EventType::Enter {
                    Some(stack.push(last.token_type))
                } else if stack.len() > 0 && stack.last() == last.token_type {
                    Some(stack.drop_last())
                } else {
                    None
                }
            },
        }
    }
}

/// Whether every span that `events` opens is closed again, in order.
pub open spec fn well_nested(events: Seq<Event>) -> bool {
    open_stack(events) == Some(Seq::<Token>::empty())
}

/// Whether `stack` ends with `tail`.
pub open spec fn ends_with(stack: Seq<Token>, tail: Seq<Token>) -> bool {
    &&& tail.len() <= stack.len()
    &&& stack.subrange(stack.len() - tail.len(), stack.len() as int) =~= tail
    &&& tail.len() > 0 ==> stack.last() == tail.last()
}

/// `stack` without its last `n` names.
pub open spec fn without_last(stack: Seq<Token>, n: nat) -> Seq<Token> {
    stack.take(stack.len() - n)
}

/// A stack that ends with `tail` still ends with the rest of `tail` once its
/// top is taken off, and what lies below `tail` is the same.
pub proof fn lemma_ends_with_pop(stack: Seq<Token>, tail: Seq<Token>)
    requires
        ends_with(stack, tail),
        tail.len() > 0,
    ensures
        stack.len() > 0,
        stack.last() == tail.last(),
        ends_with(stack.drop_last(), tail.drop_last()),
        without_last(stack.drop_last(), (tail.len() - 1) as nat) =~= without_last(stack, tail.len()),
{
    let sub = stack.subrange(stack.len() - tail.len(), stack.len() as int);
    assert(sub == tail);
    let below = stack.drop_last().subrange(stack.len() - tail.len(), stack.len() - 1);
    assert forall|i: int| 0 <= i < below.len() implies below[i] == tail.drop_last()[i] by {
        assert(below[i] == sub[i]);
    }
    assert(below =~= tail.drop_last());
    if tail.len() > 1 {
        assert(stack.drop_last().last() == sub[tail.len() - 2]);
    }
}

/// An enter event pushes its name.
pub proof fn lemma_open_stack_enter(events: Seq<Event>, event: Event)
    requires
        open_stack(events) is Some,
        event.event_type == EventType::Enter,
    ensures
        open_stack(events.push(event)) == Some(open_stack(events).unwrap().push(event.token_type)),
{
    assert(events.push(event).drop_last() == events);
}

/// An exit event pops its name, if that name is on top.
pub proof fn lemma_open_stack_exit(events: Seq<Event>, event: Event)
    requires
        open_stack(events) is Some,
        event.event_type == EventType::Exit,
        open_stack(events).unwrap().len() > 0,
        open_stack(events).unwrap().last() == event.token_type,
    ensures
        open_stack(events.push(event)) == Some(open_stack(events).unwrap().drop_last()),
{
    assert(events.push(event).drop_last() == events);
}

/// A log that can be read to its end can be read to any place before it.
pub proof fn lemma_open_stack_prefix(events: Seq<Event>, len: int)
    requires
        open_stack(events) is Some,
        0 <= len <= events.len(),
    ensures
        open_stack(events.take(len)) is Some,
    decreases events.len(),
{
    if len < events.len() {
        lemma_open_stack_prefix(events.drop_last(), len);
        assert(events.drop_last().take(len) == events.take(len));
    } else {
        assert(events.take(len) == events);
    }
}

/// The stack after one more event, or `None` if the event is an exit that
/// finds the stack empty or another name on top.
pub open spec fn read_one(stack: Seq<Token>, event: Event) -> Option<Seq<Token>> {
    if event.event_type == EventType::Enter {
        Some(stack.push(event.token_type))
    } else if stack.len() > 0 && stack.last() == event.token_type {
        Some(stack.drop_last())
    } else {
        None
    }
}

/// Reads `events` as a stack-based reader that starts with `stack` would.
pub open spec fn read_from(stack: Seq<Token>, events: Seq<Event>) -> Option<Seq<Token>>
    decreases events.len(),
{
    if events.len() == 0 {
        Some(stack)
    } else {
        match read_from(stack, events.drop_last()) {
            None => None,
            Some(before) => read_one(before, events.last()),
        }
    }
}

/// Reading a log is reading it from the empty stack.
pub proof fn lemma_read_from_empty(events: Seq<Event>)
    ensures
        open_stack(events) == read_from(Seq::empty(), events),
    decreases events.len(),
{
    if events.len() > 0 {
        lemma_read_from_empty(events.drop_last());
    }
}

/// Reading two logs one after the other is reading the second from where
/// the first ended.
pub proof fn lemma_read_from_add(stack: Seq<Token>, a: Seq<Event>, b: Seq<Event>)
    ensures
        read_from(stack, a + b) == match read_from(stack, a) {
            Some(middle) => read_from(middle, b),
            None => None,
        },
    decreases b.len(),
{
    if b.len() == 0 {
        assert(a + b =~= a);
    } else {
        lemma_read_from_add(stack, a, b.drop_last());
        assert((a + b).drop_last() =~= a + b.drop_last());
        assert((a + b).last() == b.last());
    }
}

/// A log that can be read from the empty stack can be read from any stack,
/// and leaves that stack below what it leaves open.
pub proof fn lemma_read_from_frame(stack: Seq<Token>, events: Seq<Event>)
    requires
        read_from(Seq::empty(), events) is Some,
    ensures
        read_from(stack, events) == Some(stack + read_from(Seq::empty(), events).unwrap()),
    decreases events.len(),
{
    if events.len() == 0 {
        assert(stack + Seq::<Token>::empty() =~= stack);
    } else {
        lemma_read_from_frame(stack, events.drop_last());
        let open = read_from(Seq::empty(), events.drop_last()).unwrap();
        let last = events.last();
        if last.event_type == EventType::Enter {
            assert((stack + open).push(last.token_type) =~= stack + open.push(last.token_type));
        } else {
            assert((stack + open).last() == open.last());
            assert((stack + open).drop_last() =~= stack + open.drop_last());
        }
    }
}

/// Two logs with the same names in the same order read alike from any
/// stack.
pub proof fn lemma_read_from_shape(stack: Seq<Token>, a: Seq<Event>, b: Seq<Event>)
    requires
        a.len() == b.len(),
        forall|i: int|
            0 <= i < a.len() ==> (#[trigger] a[i]).event_type == b[i].event_type && a[i].token_type
                == b[i].token_type,
    ensures
        read_from(stack, a) == read_from(stack, b),
    decreases a.len(),
{
    if a.len() > 0 {
        lemma_read_from_shape(stack, a.drop_last(), b.drop_last());
    }
}

/// Read `events` as a stack-based reader does.
///
/// Returns the names of the spans that are open after the last event,
/// outermost first, or `None` if an exit event found the stack empty or
/// another name on top.
pub fn read(events: &Vec<Event>) -> (stack: Option<Vec<Token>>)
    ensures
        match stack {
            Some(stack) => open_stack(events@) == Some(stack@),
            None => open_stack(events@) is None,
        },
{
    let mut stack: Vec<Token> = Vec::new();
    let mut index: usize = 0;
    assert(events@.take(0) =~= Seq::<Event>::empty());
    while index < events.len()
        invariant
            index <= events.len(),
            open_stack(events@.take(index as int)) == Some(stack@),
        decreases events.len() - index,
    {
        let event = events[index];
        assert(events@.take(index + 1).drop_last() =~= events@.take(index as int));
        if event.event_type == EventType::Enter {
            stack.push(event.token_type);
        } else {
            let top = stack.pop();
            let closes = match top {
                Some(top) => top == event.token_type,
                None => false,
            };
            if !closes {
                proof {
                    assert(open_stack(events@.take(index + 1)) is None);
                    if open_stack(events@) is Some {
                        lemma_open_stack_prefix(events@, index + 1);
                    }
                }
                return None;
            }
        }
        index += 1;
    }
    assert(events@.take(index as int) =~= events@);
    Some(stack)
}

/// Whether every span that `events` opens is closed again, in order.
pub fn is_well_nested(events: &Vec<Event>) -> (yes: bool)
    ensures
        yes == well_nested(events@),
{
    match read(events) {
        Some(stack) => {
            assert(stack@.len() == 0 ==> stack@ =~= Seq::<Token>::empty());
            stack.len() == 0
        },
        None => false,
    }
}

} // verus!
