//! The cursor only moves forward.
//!
//! Whatever a construct does, it reads the same bytes and never leaves the
//! cursor before the place where it found it.  This is what lets a
//! statement about the bytes that lie ahead survive a run.
use vstd::prelude::*;
use crate::constant::LINE_FEED;
use crate::construct::partial_space_or_tab::{
    eol_after_eol_model, eol_run, eol_start_model, space_or_tab_min_max_model, space_or_tab_model,
};
use crate::construct::partial_title::{
    at_break_model, at_closer, at_stop, begin_model, escape_model, seen, string_eol, title_model, Info,
};
use crate::construct::{blank_line, list, thematic_break};
use crate::constant::TAB_SIZE;
use crate::token::{lemma_point_after, point_valid, ContentType, Token};
use crate::tokenizer::{
    attempted_some, run_model, step_model, went, went_some, ContainerState, Model, State,
    StateName,
};

verus! {

/// Whether `after` reads the same bytes as `before`, from the same place or
/// a later one.
pub open spec fn forward(before: Model, after: Model) -> bool {
    &&& after.bytes == before.bytes
    &&& after.constructs == before.constructs
    &&& after.point.index >= before.point.index
    &&& point_valid(after.bytes, after.point)
}

/// Whether the machine can be entered at `name` in `m` as far as the cursor
/// goes: at the marker of a list item, there is a byte to take.
pub open spec fn enterable(name: StateName, m: Model) -> bool {
    (name is ListMarker || name is ListBeforeUnordered) ==> m.current() is Some
}

/// Whether `outcome` reads the same bytes as `before`, from the same place
/// or a later one, and goes on, if at all, at a place that can be entered.
pub open spec fn moved(before: Model, outcome: (Model, State)) -> bool {
    &&& forward(before, outcome.0)
    &&& outcome.1 matches State::Next(next) ==> enterable(next, outcome.0)
}

/// A step of the cursor moves it forward.
pub broadcast proof fn lemma_consume_forward(m: Model)
    requires
        point_valid(m.bytes, m.point),
        m.current() is Some,
    ensures
        forward(m, #[trigger] m.consume()),
{
    lemma_point_after(m.bytes, m.point);
}

/// The order in which the places of one construct follow each other without
/// a step of the cursor between them: a place is only ever followed by one
/// with a smaller number.
pub open spec fn phase(name: StateName, m: Model) -> nat {
    match name {
        StateName::SpaceOrTabEolStart(_) => 5,
        StateName::SpaceOrTabEolAfterEol(_) => 3,
        StateName::BlankLineStart => 3,
        StateName::ThematicBreakStart => 10,
        StateName::ThematicBreakBefore => 9,
        StateName::ThematicBreakAtBreak(info) => if m.current() == Some(info.marker) {
            8
        } else {
            6
        },
        StateName::ThematicBreakSequence(_) => 7,
        StateName::ListStart => 10,
        StateName::ListBefore => 9,
        StateName::ListMarkerAfter => 4,
        StateName::ListMarkerAfterNotBlank => 3,
        StateName::ListWhitespace => 3,
        StateName::ListCont => 5,
        StateName::ListBlankCont => 4,
        StateName::ListNotBlankCont => 4,
        StateName::TitleBegin(info) => if at_closer(m, info) {
            10
        } else {
            13
        },
        StateName::TitleAtBreak(info) => if at_stop(m, info) {
            11
        } else {
            2
        },
        StateName::TitleInside(info) => if at_stop(m, info) {
            12
        } else {
            1
        },
        StateName::TitleEscape(_) => 20,
        _ => 0,
    }
}

/// A thematic break moves the cursor forward, if at all.
pub proof fn lemma_thematic_break_start_forward(m: Model)
    requires
        point_valid(m.bytes, m.point),
    ensures
        moved(m, thematic_break::start_model(m)),
    decreases 1nat, m.steps_left(), 10nat,
{
    broadcast use lemma_consume_forward;

    if m.constructs.thematic_break {
        let entered = m.enter(Token::ThematicBreak);
        let indent = space_or_tab_min_max_model(0, thematic_break::max_indent(m));
        lemma_run_forward(indent, entered);
        let (indented, ok) = went(entered, run_model(indent, entered));
        if ok {
            lemma_thematic_break_before_forward(indented);
        }
    }
}

/// A thematic break moves the cursor forward from its first marker.
pub proof fn lemma_thematic_break_before_forward(m: Model)
    requires
        point_valid(m.bytes, m.point),
    ensures
        moved(m, thematic_break::before_model(m)),
    decreases 1nat, m.steps_left(), 9nat,
{
    broadcast use lemma_consume_forward;

    if thematic_break::is_marker(m.current()) {
        lemma_thematic_break_at_break_forward(
            m,
            thematic_break::Info { marker: m.current().unwrap(), size: 0 },
        );
    }
}

/// A thematic break moves the cursor forward from between its runs.
pub proof fn lemma_thematic_break_at_break_forward(m: Model, info: thematic_break::Info)
    requires
        point_valid(m.bytes, m.point),
    ensures
        moved(m, thematic_break::at_break_model(m, info)),
    decreases 1nat, m.steps_left(), phase(StateName::ThematicBreakAtBreak(info), m),
{
    broadcast use lemma_consume_forward;

    if m.current() == Some(info.marker) {
        lemma_thematic_break_sequence_forward(m.enter(Token::ThematicBreakSequence), info);
    }
}

/// A thematic break moves the cursor forward from inside a run.
pub proof fn lemma_thematic_break_sequence_forward(m: Model, info: thematic_break::Info)
    requires
        point_valid(m.bytes, m.point),
    ensures
        moved(m, thematic_break::sequence_model(m, info)),
    decreases 1nat, m.steps_left(), 7nat,
{
    broadcast use lemma_consume_forward;

    if m.current() != Some(info.marker) {
        let exited = m.exit(Token::ThematicBreakSequence);
        lemma_run_forward(space_or_tab_model(), exited);
        let after = attempted_some(exited, run_model(space_or_tab_model(), exited)).0;
        lemma_thematic_break_at_break_forward(after, info);
    }
}

/// The start of a list item moves the cursor forward, if at all.
pub proof fn lemma_list_start_forward(m: Model)
    requires
        point_valid(m.bytes, m.point),
    ensures
        moved(m, list::start_model(m)),
    decreases 2nat, m.steps_left(), 10nat,
{
    broadcast use lemma_consume_forward;

    if m.constructs.list {
        let entered = m.enter(Token::ListItem);
        let indent = space_or_tab_min_max_model(0, list::max_indent(m));
        lemma_run_forward(indent, entered);
        let (indented, ok) = went(entered, run_model(indent, entered));
        if ok {
            lemma_list_before_forward(indented);
        }
    }
}

/// The start of a list item moves the cursor forward from its marker.
pub proof fn lemma_list_before_forward(m: Model)
    requires
        point_valid(m.bytes, m.point),
    ensures
        moved(m, list::before_model(m)),
    decreases 2nat, m.steps_left(), 9nat,
{
    broadcast use lemma_consume_forward;

}

/// The start of a list item moves the cursor forward from after its marker.
pub proof fn lemma_list_marker_after_forward(m: Model)
    requires
        point_valid(m.bytes, m.point),
    ensures
        moved(m, list::marker_after_model(m)),
    decreases 2nat, m.steps_left(), 4nat,
{
    broadcast use lemma_consume_forward;

    lemma_list_marker_after_not_blank_forward(m);
}

/// The start of a list item moves the cursor forward from before its text.
pub proof fn lemma_list_marker_after_not_blank_forward(m: Model)
    requires
        point_valid(m.bytes, m.point),
    ensures
        moved(m, list::marker_after_not_blank_model(m)),
    decreases 2nat, m.steps_left(), 3nat,
{
    broadcast use lemma_consume_forward;

    lemma_run_forward(StateName::ListWhitespace, m);
}

/// The whitespace after the marker of a list item moves the cursor forward.
pub proof fn lemma_list_whitespace_forward(m: Model)
    requires
        point_valid(m.bytes, m.point),
    ensures
        moved(m, list::whitespace_model(m)),
    decreases 1nat, m.steps_left(), 3nat,
{
    broadcast use lemma_consume_forward;

    lemma_run_forward(space_or_tab_min_max_model(1, TAB_SIZE), m);
}

/// The continuation of a list item moves the cursor forward, if at all.
pub proof fn lemma_list_cont_forward(m: Model)
    requires
        point_valid(m.bytes, m.point),
    ensures
        moved(m, list::cont_model(m)),
        moved(m, list::blank_cont_model(m)),
        moved(m, list::not_blank_cont_model(m)),
    decreases 2nat, m.steps_left(), 5nat,
{
    broadcast use lemma_consume_forward;

    if m.container is Some {
        let container = m.container.unwrap();
        lemma_run_forward(space_or_tab_min_max_model(0, container.size), m);
        let noted = Model { container: Some(ContainerState { blank_initial: false, ..container }), ..m };
        lemma_run_forward(space_or_tab_min_max_model(container.size, container.size), noted);
    } else {
        let container = m.container.unwrap();
        lemma_run_forward(space_or_tab_min_max_model(0, container.size), m);
        let noted = Model { container: Some(ContainerState { blank_initial: false, ..container }), ..m };
        lemma_run_forward(space_or_tab_min_max_model(container.size, container.size), noted);
    }
}

/// A title moves the cursor forward from after a marker.
pub proof fn lemma_title_begin_forward(m: Model, info: Info)
    requires
        point_valid(m.bytes, m.point),
    ensures
        moved(m, begin_model(m, info)),
    decreases 2nat, m.steps_left(), phase(StateName::TitleBegin(info), m),
{
    broadcast use lemma_consume_forward;

    if !at_closer(m, info) {
        lemma_title_at_break_forward(m.enter(info.options.string), info);
    }
}

/// A title moves the cursor forward from between the pieces of its string.
pub proof fn lemma_title_at_break_forward(m: Model, info: Info)
    requires
        point_valid(m.bytes, m.point),
    ensures
        moved(m, at_break_model(m, info)),
    decreases 2nat, m.steps_left(), phase(StateName::TitleAtBreak(info), m),
{
    broadcast use lemma_consume_forward;

    if m.current() is None {
    } else if m.current() == Some(LINE_FEED) {
        lemma_run_forward(string_eol(info), m);
        let (after, ok) = went_some(m, run_model(string_eol(info), m));
        if ok {
            lemma_title_at_break_forward(after, seen(info));
        }
    } else if at_closer(m, info) {
        lemma_title_begin_forward(m.exit(info.options.string), info);
    } else {
        let entered = m.enter_with_content(Token::Data, Some(ContentType::String));
        let tied = if info.connect {
            entered.link_last()
        } else {
            entered
        };
        lemma_title_forward(tied, seen(info));
    }
}

/// A title moves the cursor forward from inside its data.
pub proof fn lemma_title_forward(m: Model, info: Info)
    requires
        point_valid(m.bytes, m.point),
    ensures
        moved(m, title_model(m, info)),
    decreases 2nat, m.steps_left(), phase(StateName::TitleInside(info), m),
{
    broadcast use lemma_consume_forward;

    if at_stop(m, info) {
        lemma_title_at_break_forward(m.exit(Token::Data), info);
    }
}

/// A title moves the cursor forward from after a backslash.
pub proof fn lemma_title_escape_forward(m: Model, info: Info)
    requires
        point_valid(m.bytes, m.point),
    ensures
        moved(m, escape_model(m, info)),
    decreases 2nat, m.steps_left(), 20nat,
{
    broadcast use lemma_consume_forward;

    lemma_title_forward(m, info);
}

/// Whitespace that may hold a line ending moves the cursor forward.
pub proof fn lemma_eol_forward(m: Model)
    requires
        point_valid(m.bytes, m.point),
    ensures
        forall|options: crate::construct::partial_space_or_tab::EolOptions|
            moved(m, #[trigger] eol_start_model(m, options)),
        forall|info: crate::construct::partial_space_or_tab::EolInfo|
            moved(m, #[trigger] eol_after_eol_model(m, info)),
        moved(m, blank_line::start_model(m)),
    decreases 1nat, m.steps_left(), 5nat,
{
    broadcast use lemma_consume_forward;

    assert forall|options: crate::construct::partial_space_or_tab::EolOptions|
        moved(m, #[trigger] eol_start_model(m, options)) by {
        lemma_run_forward(eol_run(options), m);
    }
    assert forall|info: crate::construct::partial_space_or_tab::EolInfo|
        moved(m, #[trigger] eol_after_eol_model(m, info)) by {
        lemma_run_forward(eol_run(info.options), m);
    }
    lemma_run_forward(space_or_tab_model(), m);
}

/// A step inside whitespace or at the end of a blank line moves the cursor
/// forward, if at all.
pub proof fn lemma_whitespace_step_forward(name: StateName, m: Model)
    requires
        point_valid(m.bytes, m.point),
        name is SpaceOrTabStart || name is SpaceOrTabInside || name is SpaceOrTabEolAfterFirst
            || name is SpaceOrTabEolAfterMore || name is BlankLineAfter,
    ensures
        moved(m, step_model(name, m)),
{
    broadcast use lemma_consume_forward;

}

/// A step of a list item that runs no other construct moves the cursor
/// forward, if at all.
pub proof fn lemma_list_step_forward(name: StateName, m: Model)
    requires
        point_valid(m.bytes, m.point),
        enterable(name, m),
        name is ListBeforeUnordered || name is ListInside || name is ListMarker || name is ListWhitespaceAfter
            || name is ListPrefixOther || name is ListAfter || name is ListOk || name is ListNok,
    ensures
        moved(m, step_model(name, m)),
{
    broadcast use lemma_consume_forward;

}

/// The first step of a title moves the cursor forward, if at all.
pub proof fn lemma_title_start_forward(name: StateName, m: Model)
    requires
        point_valid(m.bytes, m.point),
        name is TitleStart,
    ensures
        moved(m, step_model(name, m)),
{
    broadcast use lemma_consume_forward;

}

/// One step of the machine moves the cursor forward, if at all.
pub proof fn lemma_step_forward(name: StateName, m: Model)
    requires
        point_valid(m.bytes, m.point),
        enterable(name, m),
    ensures
        moved(m, step_model(name, m)),
    decreases name.rank(), m.steps_left(), 50nat,
{
    broadcast use lemma_consume_forward;

    match name {
        StateName::SpaceOrTabEolStart(options) => {
            lemma_eol_forward(m);
            assert(moved(m, eol_start_model(m, options)));
        },
        StateName::SpaceOrTabEolAfterEol(info) => {
            lemma_eol_forward(m);
            assert(moved(m, eol_after_eol_model(m, info)));
        },
        StateName::BlankLineStart => lemma_eol_forward(m),
        StateName::ThematicBreakStart => lemma_thematic_break_start_forward(m),
        StateName::ThematicBreakBefore => lemma_thematic_break_before_forward(m),
        StateName::ThematicBreakAtBreak(info) => lemma_thematic_break_at_break_forward(m, info),
        StateName::ThematicBreakSequence(info) => lemma_thematic_break_sequence_forward(m, info),
        StateName::ListStart => lemma_list_start_forward(m),
        StateName::ListBefore => lemma_list_before_forward(m),
        StateName::ListMarkerAfter => lemma_list_marker_after_forward(m),
        StateName::ListMarkerAfterNotBlank => lemma_list_marker_after_not_blank_forward(m),
        StateName::ListWhitespace => lemma_list_whitespace_forward(m),
        StateName::ListCont => lemma_list_cont_forward(m),
        StateName::ListBlankCont => lemma_list_cont_forward(m),
        StateName::ListNotBlankCont => lemma_list_cont_forward(m),
        StateName::TitleBegin(info) => lemma_title_begin_forward(m, info),
        StateName::TitleAtBreak(info) => lemma_title_at_break_forward(m, info),
        StateName::TitleInside(info) => lemma_title_forward(m, info),
        StateName::TitleEscape(info) => lemma_title_escape_forward(m, info),
        StateName::TitleStart(_) => lemma_title_start_forward(name, m),
        StateName::SpaceOrTabStart(_) => lemma_whitespace_step_forward(name, m),
        StateName::SpaceOrTabInside(_) => lemma_whitespace_step_forward(name, m),
        StateName::SpaceOrTabEolAfterFirst(_) => lemma_whitespace_step_forward(name, m),
        StateName::SpaceOrTabEolAfterMore => lemma_whitespace_step_forward(name, m),
        StateName::BlankLineAfter => lemma_whitespace_step_forward(name, m),
        _ => lemma_list_step_forward(name, m),
    }
}

/// A run of the machine moves the cursor forward, if at all.
pub proof fn lemma_run_forward(name: StateName, m: Model)
    requires
        point_valid(m.bytes, m.point),
        enterable(name, m),
    ensures
        moved(m, run_model(name, m)),
    decreases name.rank(), m.steps_left(), 100nat,
{
    broadcast use lemma_consume_forward;

    lemma_step_forward(name, m);
    let (after, state) = step_model(name, m);
    match state {
        State::Next(next) => {
            if next.rank() <= name.rank() && after.steps_left() < m.steps_left() {
                lemma_run_forward(next, after);
            }
        },
        _ => {},
    }
}

} // verus!
