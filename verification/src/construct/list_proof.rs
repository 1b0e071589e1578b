//! What holds of the lists that the resolver for list items finds.
use vstd::prelude::*;
use crate::construct::list::{
    between_items, closed_from, in_range, is_item, item_end, item_group, item_ok, joins, list_groups, list_token,
    matching, resolvable, scan, with_group, with_groups, with_item, Group,
};
use crate::constant::{LIST_ITEM_VALUE_SIZE_MAX, TAB_SIZE};
use crate::construct::blank_line::is_eol;
use crate::construct::list::{
    after_model, before_model, blank_cont_model, inside_model, is_digit, is_ordered_marker,
    is_unordered_marker, marker_after_model, marker_after_not_blank_model, not_blank_cont_model,
    prefix_other_model, prefix_size, whitespace_model,
};
use crate::construct::partial_space_or_tab::{is_space_or_tab, space_or_tab_min_max_model};
use crate::construct::partial_space_or_tab_proof::{
    law_blank_line, law_space_or_tab, lemma_run_end, lemma_run_size_bounds, run_end, run_size,
};
use crate::token::{byte_at, point_valid, Event, EventType, Token};
use crate::tokenizer::{run_model, step_model, ContainerState, Model, State, StateName};
use crate::util::edit_map::{
    added, applied, grown, insertions, lemma_added_insertion, lemma_added_sorted, lemma_place_of,
    place_of, placed, relinked, removed, sorted, spliced_from, EditView,
};
use crate::nesting::{
    lemma_open_stack_prefix, lemma_read_from_add, lemma_read_from_empty, lemma_read_from_frame,
    lemma_read_from_shape, open_stack, read_from,
};
use crate::util::edit_map::spliced;
use crate::util::skip::{
    lemma_read_next, lemma_span_balanced, lemma_span_end_bounds, opt_model, span_end,
};

verus! {

/// With lists turned off, the start of a list item fails and leaves the
/// state as it found it.
pub proof fn law_disabled_list(m: Model)
    requires
        !m.constructs.list,
    ensures
        run_model(StateName::ListStart, m) == (m, State::Nok),
{
    assert(step_model(StateName::ListStart, m) == (m, State::Nok));
}

/// With thematic breaks turned off, a thematic break fails and leaves the
/// state as it found it, so a line of markers can start a list item.
pub proof fn law_disabled_thematic_break(m: Model)
    requires
        !m.constructs.thematic_break,
    ensures
        run_model(StateName::ThematicBreakStart, m) == (m, State::Nok),
{
    assert(step_model(StateName::ThematicBreakStart, m) == (m, State::Nok));
}

/// A thematic break wins over a list item: where the line is a thematic
/// break, a `*` or `-` does not start a list item.
pub proof fn law_thematic_break_wins(m: Model)
    requires
        is_unordered_marker(m.current()),
        run_model(StateName::ThematicBreakStart, m).1 is Okay,
    ensures
        before_model(m) == (m, State::Nok),
{
}

/// The value of an ordered list item has nine digits at most: after nine
/// digits, a tenth fails the item.
pub proof fn law_value_has_nine_digits_at_most(m: Model)
    requires
        is_digit(m.current()),
    ensures
        inside_model(m, (LIST_ITEM_VALUE_SIZE_MAX - 1) as usize) == (m, State::Nok),
{
}

/// An ordered list item that interrupts a paragraph starts with `1`, and
/// its value has one digit.
pub proof fn law_interrupting_value_is_one(m: Model, size: usize)
    requires
        m.interrupt,
    ensures
        is_digit(m.current()) && m.current() != Some(crate::constant::DIGIT_1) ==> before_model(m) == (
            m,
            State::Nok,
        ),
        is_ordered_marker(m.current()) && size >= 2 ==> inside_model(m, size) == (m, State::Nok),
{
}

/// A list item whose first line is blank does not interrupt a paragraph.
pub proof fn law_blank_start_does_not_interrupt(m: Model)
    requires
        m.interrupt,
    ensures
        after_model(m, true) == (m, State::Nok),
{
}

/// The size that is noted for a list item is the size of its prefix, and one
/// more if its first line is blank; whether that line is blank is noted
/// too.
pub proof fn law_prefix_is_noted(m: Model, blank: bool)
    requires
        !(blank && m.interrupt),
    ensures
        after_model(m, blank).1 == State::Okay,
        after_model(m, blank).0.container == Some(
            ContainerState { blank_initial: blank, size: prefix_size(m, blank) as usize },
        ),
        prefix_size(m, true) == prefix_size(m, false) + 1,
{
}

/// After the marker of a list item comes whitespace or the end of the line:
/// anything else fails the item.
pub proof fn law_item_needs_whitespace(m: Model)
    requires
        point_valid(m.bytes, m.point),
        !is_space_or_tab(m.current()),
        !is_eol(m.current()),
    ensures
        marker_after_model(m).1 == State::Nok,
{
    law_blank_line(m);
    assert(run_end(m.bytes, m.point, usize::MAX as int) == m.point);
    law_space_or_tab(m, space_or_tab_min_max_model(1, TAB_SIZE)->SpaceOrTabStart_0);
    assert(whitespace_model(m).1 == State::Nok);
    assert(step_model(StateName::ListWhitespace, m) == whitespace_model(m));
    assert(run_model(StateName::ListWhitespace, m).1 == State::Nok);
    assert(marker_after_not_blank_model(m) == prefix_other_model(m));
    assert(marker_after_model(m) == marker_after_not_blank_model(m));
}

/// A blank line continues a list item unless the first line of the item
/// was blank too.
pub proof fn law_blank_line_continues(m: Model)
    requires
        point_valid(m.bytes, m.point),
        m.container is Some,
    ensures
        blank_cont_model(m).1 == if m.container.unwrap().blank_initial {
            State::Nok
        } else {
            State::Okay
        },
{
    let size = m.container.unwrap().size;
    law_space_or_tab(m, space_or_tab_min_max_model(0, size)->SpaceOrTabStart_0);
    lemma_run_end(m.bytes, m.point, size as int);
    lemma_run_size_bounds(m.bytes, m.point, size as int);
}

/// A line with text continues a list item if and only if it is indented by
/// the size of the prefix: that many steps through spaces and tabs can be
/// taken at its start.
pub proof fn law_text_continues_with_indent(m: Model)
    requires
        point_valid(m.bytes, m.point),
        m.container is Some,
    ensures
        not_blank_cont_model(m).1 == if run_size(
            m.bytes,
            m.point,
            m.container.unwrap().size as int,
        ) >= m.container.unwrap().size {
            State::Okay
        } else {
            State::Nok
        },
        not_blank_cont_model(m).1 is Okay ==> not_blank_cont_model(m).0.point == run_end(
            m.bytes,
            m.point,
            m.container.unwrap().size as int,
        ),
        not_blank_cont_model(m).1 is Okay ==> not_blank_cont_model(m).0.container == Some(
            ContainerState { blank_initial: false, ..m.container.unwrap() },
        ),
{
    let container = m.container.unwrap();
    let size = container.size;
    let noted = Model { container: Some(ContainerState { blank_initial: false, ..container }), ..m };
    law_space_or_tab(noted, space_or_tab_min_max_model(size, size)->SpaceOrTabStart_0);
    lemma_run_end(m.bytes, m.point, size as int);
    lemma_run_size_bounds(m.bytes, m.point, size as int);
}

/// Whether `token_type` names a list.
pub open spec fn is_list_token(token_type: Token) -> bool {
    token_type == Token::ListOrdered || token_type == Token::ListUnordered
}

/// `events` without the events that open or close a list.
pub open spec fn without_lists(events: Seq<Event>) -> Seq<Event>
    decreases events.len(),
{
    if events.len() == 0 {
        events
    } else if is_list_token(events.last().token_type) {
        without_lists(events.drop_last())
    } else {
        without_lists(events.drop_last()).push(events.last())
    }
}

/// The edits that resolving the list items of `events` asks for.
pub open spec fn list_edits(events: Seq<Event>, bytes: Seq<u8>) -> Seq<EditView> {
    with_groups(events, Seq::empty(), list_groups(events, bytes), 0)
}

/// The log that results from `events` when its list items are resolved and
/// nothing else is.
pub open spec fn resolved_items(events: Seq<Event>, bytes: Seq<u8>) -> Seq<Event> {
    applied(events, list_edits(events, bytes))
}

/// Whether `after` is `before` but for the index that a tie points to.
pub open spec fn same_but_tie(before: Event, after: Event) -> bool {
    &&& after.event_type == before.event_type
    &&& after.token_type == before.token_type
    &&& after.point == before.point
    &&& match (before.link, after.link) {
        (Some(a), Some(b)) => a.content_type == b.content_type,
        (None, None) => true,
        _ => false,
    }
    &&& (before.link is None || before.link.unwrap().previous is None) ==> after == before
}

/// Rewriting the ties changes nothing of the events but the indices that
/// ties point to.
pub proof fn law_relinking_keeps_events(events: Seq<Event>, edits: Seq<EditView>)
    ensures
        relinked(events, edits).len() == events.len(),
        forall|i: int| 0 <= i < events.len() ==> same_but_tie(events[i], #[trigger] relinked(events, edits)[i]),
{
}

/// Whether every event that `edits` puts in opens or closes a list.
pub open spec fn puts_lists(edits: Seq<EditView>) -> bool {
    forall|i: int, j: int|
        0 <= i < edits.len() && 0 <= j < edits[i].add.len() ==> is_list_token(
            (#[trigger] edits[i].add[j]).token_type,
        )
}

/// Taking the lists out of two logs one after the other is taking them out
/// of both.
pub proof fn lemma_without_lists_add(a: Seq<Event>, b: Seq<Event>)
    ensures
        without_lists(a + b) == without_lists(a) + without_lists(b),
    decreases b.len(),
{
    if b.len() == 0 {
        assert(a + b =~= a);
        assert(without_lists(a) + without_lists(b) =~= without_lists(a));
    } else {
        lemma_without_lists_add(a, b.drop_last());
        assert((a + b).drop_last() =~= a + b.drop_last());
        assert((a + b).last() == b.last());
        if is_list_token(b.last().token_type) {
        } else {
            assert(without_lists(a + b) =~= without_lists(a) + without_lists(b));
        }
    }
}

/// Nothing is left of events that all open or close a list.
pub proof fn lemma_without_lists_none(events: Seq<Event>)
    requires
        forall|j: int| 0 <= j < events.len() ==> is_list_token((#[trigger] events[j]).token_type),
    ensures
        without_lists(events) == Seq::<Event>::empty(),
    decreases events.len(),
{
    if events.len() > 0 {
        lemma_without_lists_none(events.drop_last());
    }
}

/// The index of the open list that an item goes on lies among the open
/// lists, as does the index from which the open lists are finished.
pub proof fn lemma_with_item_bounds(events: Seq<Event>, wip: Seq<Group>, current: Group, from: int)
    requires
        0 <= from <= wip.len(),
    ensures
        -1 <= matching(events, wip, current, from) < from,
        matching(events, wip, current, from) >= 0 ==> joins(
            events,
            wip[matching(events, wip, current, from)],
            current,
        ),
        forall|i: int| matching(events, wip, current, from) < i < from ==> !joins(events, wip[i], current),
        0 <= closed_from(wip, current, from) <= from,
    decreases from,
{
    if from > 0 {
        lemma_with_item_bounds(events, wip, current, from - 1);
    }
}

/// Seeing an item keeps the open and finished lists within the log.
pub proof fn lemma_with_item_in_range(
    events: Seq<Event>,
    wip: Seq<Group>,
    lists: Seq<Group>,
    current: Group,
)
    requires
        in_range(wip, events.len()),
        in_range(lists, events.len()),
        current.start < events.len(),
        current.end < events.len(),
    ensures
        in_range(with_item(events, wip, lists, current).0, events.len()),
        in_range(with_item(events, wip, lists, current).1, events.len()),
{
    lemma_with_item_bounds(events, wip, current, wip.len() as int);
    let (after, done) = with_item(events, wip, lists, current);
    assert forall|i: int| 0 <= i < after.len() implies (#[trigger] after[i]).start < events.len()
        && after[i].end < events.len() by {
        if i < after.len() - 1 {
            assert(after[i] == wip[i]);
        }
    }
    assert forall|i: int| 0 <= i < done.len() implies (#[trigger] done[i]).start < events.len()
        && done[i].end < events.len() by {
        if i < lists.len() {
            assert(done[i] == lists[i]);
        } else {
            let at = matching(events, wip, current, wip.len() as int);
            if at >= 0 {
                assert(done[i] == wip[i - lists.len() + at + 1]);
            } else {
                assert(done[i] == wip[i - lists.len() + closed_from(wip, current, wip.len() as int)]);
            }
        }
    }
}

/// The lists of a log whose items are all closed lie within the log.
pub proof fn lemma_scan_in_range(
    events: Seq<Event>,
    bytes: Seq<u8>,
    index: int,
    balance: usize,
    wip: Seq<Group>,
    lists: Seq<Group>,
)
    requires
        resolvable(events, bytes),
        events.len() <= usize::MAX,
        0 <= index <= events.len(),
        in_range(wip, events.len()),
        in_range(lists, events.len()),
    ensures
        in_range(scan(events, bytes, index, balance, wip, lists), events.len()),
    decreases events.len() - index,
{
    if index >= events.len() {
        let all = lists + wip;
        assert forall|i: int| 0 <= i < all.len() implies (#[trigger] all[i]).start < events.len()
            && all[i].end < events.len() by {
            if i < lists.len() {
                assert(all[i] == lists[i]);
            } else {
                assert(all[i] == wip[i - lists.len()]);
            }
        }
    } else if is_item(events, index) {
        assert(item_ok(events, bytes, index));
        lemma_span_end_bounds(events, index + 1, 1);
        let current = item_group(events, bytes, index, balance);
        lemma_with_item_in_range(events, wip, lists, current);
        let (wip, lists) = with_item(events, wip, lists, current);
        lemma_scan_in_range(events, bytes, index + 1, (balance + 1) as usize, wip, lists);
    } else if events[index].token_type == Token::ListItem && balance > 0 {
        lemma_scan_in_range(events, bytes, index + 1, (balance - 1) as usize, wip, lists);
    } else {
        lemma_scan_in_range(events, bytes, index + 1, balance, wip, lists);
    }
}

/// An edit that puts in one event that opens or closes a list, added to
/// edits that put in such events only, gives such edits again.
pub proof fn lemma_added_puts_lists(edits: Seq<EditView>, index: usize, event: Event)
    requires
        sorted(edits),
        puts_lists(edits),
        is_list_token(event.token_type),
    ensures
        puts_lists(added(edits, index, 0, seq![event])),
{
    lemma_place_of(edits, index, 0);
    let at = place_of(edits, index, 0);
    let after = added(edits, index, 0, seq![event]);
    assert forall|i: int, j: int| 0 <= i < after.len() && 0 <= j < after[i].add.len() implies is_list_token(
        (#[trigger] after[i].add[j]).token_type,
    ) by {
        if at < edits.len() && edits[at].index == index {
            if i == at {
                if j < edits[at].add.len() {
                    assert(after[i].add[j] == edits[at].add[j]);
                }
            } else {
                assert(after[i] == edits[i]);
            }
        } else if i < at {
            assert(after[i] == edits[i]);
        } else if i > at {
            assert(after[i] == edits[i - 1]);
        }
    }
}

/// The edits for lists within the log are sorted, take nothing out, lie
/// within the log, and put in only events that open or close a list.
pub proof fn lemma_with_groups(events: Seq<Event>, edits: Seq<EditView>, groups: Seq<Group>, k: int)
    requires
        events.len() < usize::MAX,
        in_range(groups, events.len()),
        0 <= k <= groups.len(),
        sorted(edits),
        insertions(edits, events.len()),
        puts_lists(edits),
    ensures
        sorted(with_groups(events, edits, groups, k)),
        insertions(with_groups(events, edits, groups, k), events.len()),
        puts_lists(with_groups(events, edits, groups, k)),
    decreases groups.len() - k,
{
    if k < groups.len() {
        let group = groups[k];
        let token_type = list_token(group.kind);
        let enter = Event { token_type, ..events[group.start as int] };
        let exit = Event { token_type, ..events[group.end as int] };
        let first = added(edits, group.start, 0, seq![enter]);
        lemma_added_sorted(edits, group.start, 0, seq![enter]);
        lemma_added_insertion(edits, events.len(), group.start, seq![enter]);
        lemma_added_puts_lists(edits, group.start, enter);
        lemma_added_sorted(first, (group.end + 1) as usize, 0, seq![exit]);
        lemma_added_insertion(first, events.len(), (group.end + 1) as usize, seq![exit]);
        lemma_added_puts_lists(first, (group.end + 1) as usize, exit);
        lemma_with_groups(events, with_group(events, edits, group), groups, k + 1);
    }
}

/// Edits that take nothing out and put in only events that open or close a
/// list leave, from any place on, the log as it was but for such events.
pub proof fn lemma_applied_without_lists(events: Seq<Event>, edits: Seq<EditView>, k: int, pos: int)
    requires
        sorted(edits),
        insertions(edits, events.len()),
        puts_lists(edits),
        0 <= k <= edits.len(),
        0 <= pos <= events.len(),
        k < edits.len() ==> pos <= edits[k].index,
    ensures
        without_lists(spliced_from(events, edits, k, pos)) == without_lists(events.skip(pos)),
    decreases edits.len() - k,
{
    if k < edits.len() {
        let edit = edits[k];
        let kept = events.subrange(pos, edit.index as int);
        let rest = spliced_from(events, edits, k + 1, edit.index as int);
        lemma_applied_without_lists(events, edits, k + 1, edit.index as int);
        assert forall|j: int| 0 <= j < edit.add.len() implies is_list_token(
            (#[trigger] edit.add[j]).token_type,
        ) by {
            assert(is_list_token(edits[k].add[j].token_type));
        }
        lemma_without_lists_none(edit.add);
        lemma_without_lists_add(kept + edit.add, rest);
        lemma_without_lists_add(kept, edit.add);
        lemma_without_lists_add(kept, events.skip(edit.index as int));
        assert(kept + events.skip(edit.index as int) =~= events.skip(pos));
        assert(without_lists(kept) + Seq::<Event>::empty() =~= without_lists(kept));
    }
}

/// Resolving list items keeps the events of the main pass, in their order:
/// the final log without the events that open or close a list is the log of
/// the main pass without them, with its ties rewritten.
pub proof fn law_resolving_keeps_order(events: Seq<Event>, bytes: Seq<u8>)
    requires
        resolvable(events, bytes),
        events.len() < usize::MAX,
    ensures
        without_lists(resolved_items(events, bytes)) == without_lists(
            relinked(events, list_edits(events, bytes)),
        ),
{
    let groups = list_groups(events, bytes);
    let edits = list_edits(events, bytes);
    let moved = relinked(events, edits);
    lemma_scan_in_range(events, bytes, 0, 0, Seq::empty(), Seq::empty());
    lemma_with_groups(events, Seq::empty(), groups, 0);
    lemma_applied_without_lists(moved, edits, 0, 0);
    assert(moved.skip(0) =~= moved);
}

/// Whether the events of `events` from `from` up to `to` are spans that may
/// lie between two items of one list, each an enter event followed by its
/// exit event, and the event at `to` does not open another such span.
pub open spec fn only_between(events: Seq<Event>, from: int, to: int) -> bool
    decreases to - from,
{
    if from >= to {
        &&& from == to
        &&& 0 <= to < events.len()
        &&& !(events[to].event_type == EventType::Enter && between_items().contains(events[to].token_type))
    } else {
        &&& 0 <= from
        &&& from + 1 < to
        &&& to < events.len()
        &&& events[from].event_type == EventType::Enter
        &&& between_items().contains(events[from].token_type)
        &&& events[from + 1].event_type == EventType::Exit
        &&& only_between(events, from + 2, to)
    }
}

/// Skipping over the spans that may lie between two items of one list ends
/// at the first event that does not open one.
pub proof fn lemma_opt_skips(events: Seq<Event>, from: int, to: int)
    requires
        only_between(events, from, to),
    ensures
        opt_model(events, from, between_items()) == to,
    decreases to - from,
{
    if from < to {
        assert(span_end(events, from + 1, 1) == from + 1);
        lemma_opt_skips(events, from + 2, to);
    }
}

/// An item goes on the list that was opened last if it has the marker and
/// the depth of that list and only whitespace, line endings and block quote
/// prefixes lie between the two: the list then ends with the item, and no
/// list is opened or finished.
pub proof fn law_sibling_joins(events: Seq<Event>, wip: Seq<Group>, lists: Seq<Group>, current: Group)
    requires
        wip.len() > 0,
        wip.last().kind == current.kind,
        wip.last().balance == current.balance,
        only_between(events, wip.last().end + 1, current.start as int),
    ensures
        with_item(events, wip, lists, current) == (
            wip.drop_last().push(Group { end: current.end, ..wip.last() }),
            lists,
        ),
{
    lemma_opt_skips(events, wip.last().end + 1, current.start as int);
    assert(joins(events, wip[wip.len() - 1], current));
    assert(matching(events, wip, current, wip.len() as int) == wip.len() - 1);
    assert(wip.take(wip.len() - 1) =~= wip.drop_last());
    assert(lists + wip.skip(wip.len() as int) =~= lists);
}

/// An item does not go on a list if anything but whitespace, line endings
/// and block quote prefixes lies between the two.  Where that list is the
/// only open one, it is finished, and the item opens a list of its own.
pub proof fn law_other_event_splits(
    events: Seq<Event>,
    group: Group,
    lists: Seq<Group>,
    current: Group,
    other: int,
)
    requires
        only_between(events, group.end + 1, other),
        other < current.start,
    ensures
        !joins(events, group, current),
        with_item(events, seq![group], lists, current) == (seq![current], lists.push(group)),
{
    lemma_opt_skips(events, group.end + 1, other);
    let wip = seq![group];
    assert(!joins(events, wip[0], current));
    assert(matching(events, wip, current, 1) == matching(events, wip, current, 0));
    assert(matching(events, wip, current, 1) == -1);
    assert(group.end < current.start) by {
        lemma_only_between_order(events, group.end + 1, other);
    }
    assert(closed_from(wip, current, 1) == closed_from(wip, current, 0));
    assert(wip.take(0).push(current) =~= seq![current]);
    assert(lists + wip.skip(0) =~= lists.push(group));
}

/// The spans between two items lie before the event that follows them.
pub proof fn lemma_only_between_order(events: Seq<Event>, from: int, to: int)
    requires
        only_between(events, from, to),
    ensures
        from <= to,
    decreases to - from,
{
    if from < to {
        lemma_only_between_order(events, from + 2, to);
    }
}

/// Items with another marker, or at another depth, do not go on one list.
pub proof fn law_marker_and_depth_must_match(events: Seq<Event>, group: Group, current: Group)
    requires
        group.kind != current.kind || group.balance != current.balance,
    ensures
        !joins(events, group, current),
{
}

/// Whether no event of `events` from `from` up to `to` opens or closes a
/// list item.
pub open spec fn no_items(events: Seq<Event>, from: int, to: int) -> bool {
    forall|i: int| from <= i < to ==> (#[trigger] events[i]).token_type != Token::ListItem
}

/// Whether a list item opens at `start` that holds no other list item, is
/// closed at `end`, and has a marker.
pub open spec fn plain_item(events: Seq<Event>, bytes: Seq<u8>, start: int, end: int) -> bool {
    &&& 0 <= start < end < events.len()
    &&& is_item(events, start)
    &&& item_end(events, start) == end
    &&& events[end].token_type == Token::ListItem
    &&& no_items(events, start + 1, end)
    &&& item_ok(events, bytes, start)
}

/// Whether list items open at `starts`, one after the other, that hold no
/// other list items, have the same marker, and have only whitespace, line
/// endings and block quote prefixes between them.
pub open spec fn siblings(events: Seq<Event>, bytes: Seq<u8>, starts: Seq<int>) -> bool {
    &&& starts.len() > 0
    &&& forall|t: int|
        0 <= t < starts.len() ==> plain_item(events, bytes, #[trigger] starts[t], item_end(events, starts[t]))
    &&& forall|t: int|
        0 <= t < starts.len() ==> item_group(events, bytes, #[trigger] starts[t], 0).kind == item_group(
            events,
            bytes,
            starts[0],
            0,
        ).kind
    &&& forall|t: int|
        0 <= t < starts.len() - 1 ==> only_between(
            events,
            item_end(events, #[trigger] starts[t]) + 1,
            starts[t + 1],
        )
}

/// The one list that sibling items make.
pub open spec fn sibling_list(events: Seq<Event>, bytes: Seq<u8>, starts: Seq<int>) -> Group {
    Group { end: item_end(events, starts.last()) as usize, ..item_group(events, bytes, starts[0], 0) }
}

/// Events that belong to no list item change nothing about the lists.
pub proof fn lemma_scan_skips(
    events: Seq<Event>,
    bytes: Seq<u8>,
    from: int,
    to: int,
    balance: usize,
    wip: Seq<Group>,
    lists: Seq<Group>,
)
    requires
        0 <= from <= to <= events.len(),
        no_items(events, from, to),
    ensures
        scan(events, bytes, from, balance, wip, lists) == scan(events, bytes, to, balance, wip, lists),
    decreases to - from,
{
    if from < to {
        assert(events[from].token_type != Token::ListItem);
        lemma_scan_skips(events, bytes, from + 1, to, balance, wip, lists);
    }
}

/// A list item that holds no other is seen once, where it opens, and leaves
/// the depth as it was.
pub proof fn lemma_scan_item(
    events: Seq<Event>,
    bytes: Seq<u8>,
    start: int,
    end: int,
    balance: usize,
    wip: Seq<Group>,
    lists: Seq<Group>,
)
    requires
        plain_item(events, bytes, start, end),
        balance < usize::MAX,
    ensures
        scan(events, bytes, start, balance, wip, lists) == scan(
            events,
            bytes,
            end + 1,
            balance,
            with_item(events, wip, lists, item_group(events, bytes, start, balance)).0,
            with_item(events, wip, lists, item_group(events, bytes, start, balance)).1,
        ),
{
    let (after, done) = with_item(events, wip, lists, item_group(events, bytes, start, balance));
    let deeper = (balance + 1) as usize;
    assert(scan(events, bytes, start, balance, wip, lists) == scan(
        events,
        bytes,
        start + 1,
        deeper,
        after,
        done,
    ));
    lemma_scan_skips(events, bytes, start + 1, end, deeper, after, done);
    lemma_span_end_bounds(events, start + 1, 1);
    assert(!is_item(events, end));
    assert(scan(events, bytes, end, deeper, after, done) == scan(
        events,
        bytes,
        end + 1,
        balance,
        after,
        done,
    ));
}

/// The rest of a run of sibling items, from the end of the `t`-th on, goes
/// on the list that the first `t + 1` of them have made.
pub proof fn lemma_siblings_from(events: Seq<Event>, bytes: Seq<u8>, starts: Seq<int>, t: int)
    requires
        siblings(events, bytes, starts),
        events.len() < usize::MAX,
        0 <= t < starts.len(),
        no_items(events, item_end(events, starts.last()) + 1, events.len() as int),
        forall|u: int|
            0 <= u < starts.len() - 1 ==> no_items(
                events,
                item_end(events, #[trigger] starts[u]) + 1,
                starts[u + 1],
            ),
    ensures
        scan(
            events,
            bytes,
            item_end(events, starts[t]) + 1,
            0,
            seq![
                Group { end: item_end(events, starts[t]) as usize, ..item_group(events, bytes, starts[0], 0) },
            ],
            Seq::empty(),
        ) == seq![sibling_list(events, bytes, starts)],
    decreases starts.len() - t,
{
    let first = item_group(events, bytes, starts[0], 0);
    let end = item_end(events, starts[t]);
    let group = Group { end: end as usize, ..first };
    let wip = seq![group];
    assert(plain_item(events, bytes, starts[t], end));
    if t == starts.len() - 1 {
        lemma_scan_skips(events, bytes, end + 1, events.len() as int, 0, wip, Seq::empty());
        assert(Seq::<Group>::empty() + wip =~= wip);
    } else {
        let next = starts[t + 1];
        let next_end = item_end(events, next);
        assert(plain_item(events, bytes, next, next_end));
        assert(only_between(events, item_end(events, starts[t]) + 1, starts[t + 1]));
        assert(no_items(events, item_end(events, starts[t]) + 1, starts[t + 1]));
        lemma_only_between_order(events, end + 1, next);
        lemma_scan_skips(events, bytes, end + 1, next, 0, wip, Seq::empty());
        lemma_scan_item(events, bytes, next, next_end, 0, wip, Seq::empty());
        let current = item_group(events, bytes, next, 0);
        assert(current.kind == first.kind);
        law_sibling_joins(events, wip, Seq::empty(), current);
        assert(wip.drop_last().push(Group { end: current.end, ..wip.last() }) =~= seq![
            Group { end: next_end as usize, ..first },
        ]);
        lemma_siblings_from(events, bytes, starts, t + 1);
    }
}

/// Sibling items make exactly one list, which spans them all: in a log whose
/// list items are siblings, with the same marker and only whitespace, line
/// endings and block quote prefixes between them, the resolver finds one
/// list, from the start of the first item to the end of the last.
pub proof fn law_siblings_make_one_list(events: Seq<Event>, bytes: Seq<u8>, starts: Seq<int>)
    requires
        siblings(events, bytes, starts),
        events.len() < usize::MAX,
        no_items(events, 0, starts[0]),
        no_items(events, item_end(events, starts.last()) + 1, events.len() as int),
        forall|u: int|
            0 <= u < starts.len() - 1 ==> no_items(
                events,
                item_end(events, #[trigger] starts[u]) + 1,
                starts[u + 1],
            ),
    ensures
        list_groups(events, bytes) == seq![sibling_list(events, bytes, starts)],
{
    let first = item_group(events, bytes, starts[0], 0);
    let end = item_end(events, starts[0]);
    assert(plain_item(events, bytes, starts[0], end));
    lemma_scan_skips(events, bytes, 0, starts[0], 0, Seq::empty(), Seq::empty());
    lemma_scan_item(events, bytes, starts[0], end, 0, Seq::empty(), Seq::empty());
    let none = Seq::<Group>::empty();
    assert(matching(events, none, first, 0) == -1);
    assert(closed_from(none, first, 0) == 0);
    assert(none.take(0).push(first) =~= seq![first]);
    assert(none + none.skip(0) =~= none);
    assert(with_item(events, none, none, first) == (seq![first], none));
    assert(first == Group { end: end as usize, ..first });
    lemma_siblings_from(events, bytes, starts, 0);
}

/// An event of another kind between two items makes two lists of them: in
/// a log with two list items, where something other than whitespace, line
/// endings and block quote prefixes lies between the two, the resolver finds
/// two lists, one for each item.
pub proof fn law_other_event_makes_two_lists(
    events: Seq<Event>,
    bytes: Seq<u8>,
    first: int,
    second: int,
    other: int,
)
    requires
        events.len() < usize::MAX,
        plain_item(events, bytes, first, item_end(events, first)),
        plain_item(events, bytes, second, item_end(events, second)),
        only_between(events, item_end(events, first) + 1, other),
        other < second,
        no_items(events, 0, first),
        no_items(events, item_end(events, first) + 1, second),
        no_items(events, item_end(events, second) + 1, events.len() as int),
    ensures
        list_groups(events, bytes) == seq![
            item_group(events, bytes, first, 0),
            item_group(events, bytes, second, 0),
        ],
{
    let one = item_group(events, bytes, first, 0);
    let two = item_group(events, bytes, second, 0);
    let none = Seq::<Group>::empty();
    lemma_scan_skips(events, bytes, 0, first, 0, none, none);
    lemma_scan_item(events, bytes, first, item_end(events, first), 0, none, none);
    assert(matching(events, none, one, 0) == -1);
    assert(closed_from(none, one, 0) == 0);
    assert(none.take(0).push(one) =~= seq![one]);
    assert(none + none.skip(0) =~= none);
    assert(with_item(events, none, none, one) == (seq![one], none));
    lemma_only_between_order(events, item_end(events, first) + 1, other);
    lemma_scan_skips(events, bytes, item_end(events, first) + 1, second, 0, seq![one], none);
    lemma_scan_item(events, bytes, second, item_end(events, second), 0, seq![one], none);
    law_other_event_splits(events, one, none, two, other);
    assert(none.push(one) =~= seq![one]);
    lemma_scan_skips(
        events,
        bytes,
        item_end(events, second) + 1,
        events.len() as int,
        0,
        seq![two],
        seq![one],
    );
    assert(seq![one] + seq![two] =~= seq![one, two]);
}

/// Whether every tie in `events` points to an earlier event.
pub open spec fn ties_point_back(events: Seq<Event>) -> bool {
    forall|i: int|
        0 <= i < events.len() && (#[trigger] events[i]).link is Some && events[i].link.unwrap().previous
            is Some ==> events[i].link.unwrap().previous.unwrap() < i
}

/// A log without list items is left as it is: resolving finds no list, asks
/// for no edit, and, where every tie points back, changes no event.
pub proof fn law_resolving_without_items(events: Seq<Event>, bytes: Seq<u8>)
    requires
        no_items(events, 0, events.len() as int),
        events.len() <= usize::MAX,
    ensures
        list_groups(events, bytes) == Seq::<Group>::empty(),
        list_edits(events, bytes) == Seq::<EditView>::empty(),
        ties_point_back(events) ==> resolved_items(events, bytes) == events,
{
    let none = Seq::<Group>::empty();
    lemma_scan_skips(events, bytes, 0, events.len() as int, 0, none, none);
    assert(none + none =~= none);
    let edits = Seq::<EditView>::empty();
    assert(list_edits(events, bytes) == edits);
    if ties_point_back(events) {
        let moved = relinked(events, edits);
        assert forall|i: int| 0 <= i < events.len() implies moved[i] == events[i] by {
            let event = events[i];
            if event.link is Some && event.link.unwrap().previous is Some {
                let previous = event.link.unwrap().previous.unwrap() as int;
                assert(previous < i);
                assert(place_of(edits, (previous + 1) as usize, 0) == 0);
                assert(grown(edits, 0) == 0);
                assert(!removed(edits, previous));
                assert(placed(edits, previous) == Some(previous as usize));
            }
        }
        assert(moved =~= events);
        assert(moved.skip(0) =~= moved);
    }
}

/// Resolving a second time changes nothing where there is nothing to
/// resolve: on a log without list items, whose ties point back, the final
/// log after the second run is the final log after the first.
pub proof fn law_resolving_twice(events: Seq<Event>, bytes: Seq<u8>)
    requires
        no_items(events, 0, events.len() as int),
        ties_point_back(events),
        events.len() <= usize::MAX,
    ensures
        resolved_items(resolved_items(events, bytes), bytes) == resolved_items(events, bytes),
{
    law_resolving_without_items(events, bytes);
}

/// In a log that can be read, the spans between two items of one list are
/// well nested.
pub proof fn lemma_between_balanced(events: Seq<Event>, from: int, to: int)
    requires
        open_stack(events) is Some,
        only_between(events, from, to),
    ensures
        from <= to,
        read_from(Seq::empty(), events.subrange(from, to)) == Some(Seq::<Token>::empty()),
    decreases to - from,
{
    if from >= to {
        assert(events.subrange(from, to) =~= Seq::<Event>::empty());
    } else {
        lemma_between_balanced(events, from + 2, to);
        let first = events.subrange(from, from + 1);
        assert(first.drop_last() =~= Seq::<Event>::empty());
        assert(read_from(Seq::empty(), first.drop_last()) == Some(Seq::<Token>::empty()));
        assert(read_from(Seq::empty(), first) == Some(seq![events[from].token_type]));
        lemma_read_next(events, from, from + 1);
        let pair = events.subrange(from, from + 2);
        assert(seq![events[from].token_type].drop_last() =~= Seq::<Token>::empty());
        lemma_read_from_add(Seq::empty(), pair, events.subrange(from + 2, to));
        assert(pair + events.subrange(from + 2, to) =~= events.subrange(from, to));
    }
}

/// In a log that can be read, sibling items are well nested from the start
/// of the first to the end of the `t`-th.
pub proof fn lemma_siblings_balanced(events: Seq<Event>, bytes: Seq<u8>, starts: Seq<int>, t: int)
    requires
        open_stack(events) is Some,
        siblings(events, bytes, starts),
        0 <= t < starts.len(),
    ensures
        starts[0] <= starts[t] < item_end(events, starts[t]) < events.len(),
        read_from(Seq::empty(), events.subrange(starts[0], item_end(events, starts[t]) + 1)) == Some(
            Seq::<Token>::empty(),
        ),
    decreases t,
{
    let start = starts[t];
    let end = item_end(events, start);
    assert(plain_item(events, bytes, start, end));
    lemma_span_balanced(events, start);
    if t > 0 {
        lemma_siblings_balanced(events, bytes, starts, t - 1);
        let before_end = item_end(events, starts[t - 1]);
        assert(only_between(events, item_end(events, starts[t - 1]) + 1, starts[t - 1 + 1]));
        lemma_between_balanced(events, before_end + 1, start);
        let done = events.subrange(starts[0], before_end + 1);
        let between = events.subrange(before_end + 1, start);
        let item = events.subrange(start, end + 1);
        lemma_read_from_add(Seq::empty(), done, between);
        lemma_read_from_add(Seq::empty(), done + between, item);
        assert(done + between + item =~= events.subrange(starts[0], end + 1));
    }
}

/// Sibling items that are made one list leave the log as well nested as it
/// was: in a log that a stack-based reader can read, whose list items are
/// siblings, the final log is read to the same stack.
pub proof fn law_sibling_list_keeps_nesting(events: Seq<Event>, bytes: Seq<u8>, starts: Seq<int>)
    requires
        open_stack(events) is Some,
        siblings(events, bytes, starts),
        events.len() < usize::MAX,
        no_items(events, 0, starts[0]),
        no_items(events, item_end(events, starts.last()) + 1, events.len() as int),
        forall|u: int|
            0 <= u < starts.len() - 1 ==> no_items(
                events,
                item_end(events, #[trigger] starts[u]) + 1,
                starts[u + 1],
            ),
    ensures
        open_stack(resolved_items(events, bytes)) == open_stack(events),
{
    law_siblings_make_one_list(events, bytes, starts);
    lemma_siblings_balanced(events, bytes, starts, starts.len() - 1);
    let group = sibling_list(events, bytes, starts);
    let start = starts[0];
    let end = item_end(events, starts.last());
    assert(plain_item(events, bytes, start, item_end(events, start)));
    assert(group.start == start && group.end == end);
    let token_type = list_token(group.kind);
    let enter = Event { token_type, ..events[start] };
    let exit = Event { token_type, ..events[end] };
    let none = Seq::<EditView>::empty();
    let one = EditView { index: start as usize, remove: 0, add: seq![enter] };
    let two = EditView { index: (end + 1) as usize, remove: 0, add: seq![exit] };
    // The edits: the list is opened before its first item and closed after
    // its last.
    assert(added(none, start as usize, 0, seq![enter]) =~= seq![one]) by {
        assert(place_of(none, start as usize, 0) == 0);
    }
    assert(added(seq![one], (end + 1) as usize, 0, seq![exit]) =~= seq![one, two]) by {
        assert(place_of(seq![one], (end + 1) as usize, 1) == 1);
        assert(place_of(seq![one], (end + 1) as usize, 0) == 1);
    }
    let edits = seq![one, two];
    assert(list_edits(events, bytes) == edits) by {
        let groups = seq![group];
        assert(with_group(events, none, groups[0]) == edits);
        assert(with_groups(events, edits, groups, 1) == edits);
        assert(with_groups(events, none, groups, 0) == with_groups(
            events,
            with_group(events, none, groups[0]),
            groups,
            1,
        ));
    }
    // The final log, piece by piece.
    let moved = relinked(events, edits);
    let head = moved.subrange(0, start);
    let body = moved.subrange(start, end + 1);
    let tail = moved.skip(end + 1);
    let last = spliced_from(moved, edits, 2, end + 1);
    let second = spliced_from(moved, edits, 1, start);
    assert(last == tail);
    assert(second == body + seq![exit] + tail);
    assert(spliced(moved, edits) == head + seq![enter] + second);
    let after = head + seq![enter] + (body + seq![exit] + tail);
    assert(resolved_items(events, bytes) == after);
    // The log of the main pass, in the same pieces.
    let old_head = events.subrange(0, start);
    let old_body = events.subrange(start, end + 1);
    let old_tail = events.skip(end + 1);
    assert(old_head + old_body + old_tail =~= events);
    let empty = Seq::<Token>::empty();
    lemma_read_from_shape(empty, head, old_head);
    lemma_read_from_empty(events);
    lemma_read_from_empty(after);
    lemma_open_stack_prefix(events, start);
    lemma_read_from_empty(events.take(start));
    assert(events.take(start) =~= old_head);
    let below = read_from(empty, old_head).unwrap();
    // Reading the main pass: the items leave the stack as they found it.
    lemma_read_from_add(empty, old_head, old_body);
    lemma_read_from_add(empty, old_head + old_body, old_tail);
    lemma_read_from_frame(below, old_body);
    assert(below + empty =~= below);
    assert(open_stack(events) == read_from(below, old_tail));
    // Reading the final log: the list is opened, the items leave the stack
    // as they found it, the list is closed.
    let listed = below.push(token_type);
    lemma_read_from_shape(listed, body, old_body);
    lemma_read_from_frame(listed, old_body);
    assert(listed + empty =~= listed);
    lemma_read_from_shape(below, tail, old_tail);
    let opened = head + seq![enter];
    assert(opened.drop_last() =~= head);
    assert(read_from(empty, opened) == Some(listed));
    let closed = body + seq![exit];
    assert(closed.drop_last() =~= body);
    assert(listed.drop_last() =~= below);
    assert(read_from(listed, closed) == Some(below));
    lemma_read_from_add(listed, closed, tail);
    lemma_read_from_add(empty, opened, closed + tail);
    assert(opened + (closed + tail) =~= after);
}

} // verus!
