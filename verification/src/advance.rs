//! Every run advances.
//!
//! What the operations of the tokenizer guarantee one call at a time holds
//! of the machine as a whole: from a state that is in order, entered at a
//! place whose needs are met, a run of any construct ends in a state that is
//! in order, with a log that a stack-based reader can read.
use vstd::prelude::*;
use crate::constant::{LINE_FEED, TAB_SIZE};
use crate::construct::partial_space_or_tab::{
    connected, eol_after_eol_model, eol_run, eol_start_model, space_or_tab_min_max_model,
    space_or_tab_model, EolInfo, EolOptions,
};
use crate::construct::partial_title::{
    at_break_model, at_closer, at_stop, begin_model, escape_model, seen, string_eol, title_model, Info,
};
use crate::construct::{blank_line, list, thematic_break};
use crate::forward::phase;
use crate::nesting::{
    lemma_ends_with_pop, lemma_open_stack_enter, lemma_open_stack_exit, open_stack, well_nested,
};
use crate::subtokenize::{lemma_linked_shape, lemma_open_stack_shape, linked};
use crate::token::{lemma_point_after, ContentType, Event, EventType, Link, Token};
use crate::tokenizer::{
    advances, attempted, attempted_some, lemma_advances_from, lemma_nesting_kept, nesting_kept, reaches,
    run_model, step_model, went, went_some, ContainerState, Model, State, StateName,
};

verus! {

/// Opening a span keeps the state in order and pushes the name of the span.
pub broadcast proof fn lemma_enter(m: Model, token_type: Token, content_type: Option<ContentType>)
    requires
        m.wf(),
    ensures
        (#[trigger] m.enter_with_content(token_type, content_type)).wf(),
        m.enter_with_content(token_type, content_type).stack() == m.stack().push(token_type),
{
    let link = match content_type {
        Some(content_type) => Some(Link { previous: None, content_type }),
        None => None,
    };
    lemma_open_stack_enter(
        m.events,
        Event { event_type: EventType::Enter, token_type, point: m.point, link },
    );
}

/// Closing the innermost span keeps the state in order and pops its name.
pub broadcast proof fn lemma_exit(m: Model, token_type: Token)
    requires
        m.wf(),
        m.can_exit(token_type),
    ensures
        (#[trigger] m.exit(token_type)).wf(),
        m.exit(token_type).stack() == m.stack().drop_last(),
{
    lemma_open_stack_exit(
        m.events,
        Event { event_type: EventType::Exit, token_type, point: m.point, link: None },
    );
}

/// A step of the cursor keeps the state in order and brings the cursor
/// closer to the end.
pub broadcast proof fn lemma_consume(m: Model)
    requires
        m.wf(),
        m.current() is Some,
    ensures
        (#[trigger] m.consume()).wf(),
        m.consume().steps_left() < m.steps_left(),
{
    lemma_point_after(m.bytes, m.point);
}

/// Tying the last span keeps the state in order and the stack as it is.
pub broadcast proof fn lemma_link_last(m: Model)
    requires
        m.wf(),
        m.events.len() > 0,
    ensures
        (#[trigger] m.link_last()).wf(),
        m.link_last().stack() == m.stack(),
{
    lemma_linked_shape(m.events, m.events.len() - 1);
    lemma_open_stack_shape(m.events, linked(m.events, m.events.len() - 1));
}

/// A step in a run of spaces and tabs advances.
pub proof fn lemma_space_or_tab_advances(name: StateName, m: Model)
    requires
        m.wf(),
        name.pre(m),
        name is SpaceOrTabStart || name is SpaceOrTabInside,
    ensures
        advances(name, m, step_model(name, m).0, step_model(name, m).1),
{
    broadcast use {lemma_enter, lemma_exit, lemma_consume, lemma_link_last};

    match name {
        StateName::SpaceOrTabStart(options) => {
            let entered = m.enter_with_content(options.kind, options.content_type);
            assert(entered.wf());
            assert(entered.link_last().wf());
        },
        StateName::SpaceOrTabInside(info) => {
            lemma_ends_with_pop(m.stack(), name.open());
        },
        _ => {},
    }
}

/// A step of whitespace that may hold a line ending advances, where it runs
/// no other construct.
pub proof fn lemma_eol_step_advances(name: StateName, m: Model)
    requires
        m.wf(),
        name.pre(m),
        name is SpaceOrTabEolAfterFirst || name is SpaceOrTabEolAfterMore || name is BlankLineAfter,
    ensures
        advances(name, m, step_model(name, m).0, step_model(name, m).1),
{
    broadcast use {lemma_enter, lemma_exit, lemma_consume, lemma_link_last};

    match name {
        StateName::SpaceOrTabEolAfterFirst(info) => {
            let entered = m.enter_with_content(Token::LineEnding, info.options.content_type);
            assert(entered.wf());
            let tied = if info.options.connect {
                entered.link_last()
            } else {
                entered
            };
            assert(tied.wf());
            assert(tied.stack() == m.stack().push(Token::LineEnding));
            if m.current() == Some(LINE_FEED) {
                assert(tied.consume().wf());
                assert(tied.consume().can_exit(Token::LineEnding));
            }
        },
        _ => {},
    }
}

/// Whitespace that may hold a line ending advances from its start.
pub proof fn lemma_eol_start_advances(m: Model, options: EolOptions)
    requires
        m.wf(),
    ensures
        advances(
            StateName::SpaceOrTabEolStart(options),
            m,
            eol_start_model(m, options).0,
            eol_start_model(m, options).1,
        ),
    decreases 1nat, m.steps_left(), 5nat,
{
    let name = StateName::SpaceOrTabEolStart(options);
    lemma_run_advances(eol_run(options), m);
    let (after, ok) = attempted_some(m, run_model(eol_run(options), m));
    let info = EolInfo {
        ok,
        options: if ok {
            connected(options)
        } else {
            options
        },
    };
    let inner = StateName::SpaceOrTabEolAfterFirst(info);
    assert(reaches(name, m, inner, after));
    lemma_eol_step_advances(inner, after);
    lemma_advances_from(name, m, inner, after, step_model(inner, after).0, step_model(inner, after).1);
}

/// Whitespace that may hold a line ending advances from after the line
/// ending.
pub proof fn lemma_eol_after_eol_advances(m: Model, info: EolInfo)
    requires
        m.wf(),
    ensures
        advances(
            StateName::SpaceOrTabEolAfterEol(info),
            m,
            eol_after_eol_model(m, info).0,
            eol_after_eol_model(m, info).1,
        ),
    decreases 1nat, m.steps_left(), 3nat,
{
    let name = StateName::SpaceOrTabEolAfterEol(info);
    lemma_run_advances(eol_run(info.options), m);
    let after = attempted_some(m, run_model(eol_run(info.options), m)).0;
    let inner = StateName::SpaceOrTabEolAfterMore;
    assert(reaches(name, m, inner, after));
    lemma_eol_step_advances(inner, after);
    lemma_advances_from(name, m, inner, after, step_model(inner, after).0, step_model(inner, after).1);
}

/// A blank line advances.
pub proof fn lemma_blank_line_advances(m: Model)
    requires
        m.wf(),
    ensures
        advances(StateName::BlankLineStart, m, blank_line::start_model(m).0, blank_line::start_model(m).1),
    decreases 1nat, m.steps_left(), 3nat,
{
    let name = StateName::BlankLineStart;
    lemma_run_advances(space_or_tab_model(), m);
    let after = attempted(m, run_model(space_or_tab_model(), m)).0;
    let inner = StateName::BlankLineAfter;
    assert(reaches(name, m, inner, after));
    lemma_eol_step_advances(inner, after);
    lemma_advances_from(name, m, inner, after, step_model(inner, after).0, step_model(inner, after).1);
}

/// A thematic break advances from its start.
pub proof fn lemma_thematic_break_start_advances(m: Model)
    requires
        m.wf(),
    ensures
        advances(
            StateName::ThematicBreakStart,
            m,
            thematic_break::start_model(m).0,
            thematic_break::start_model(m).1,
        ),
    decreases 1nat, m.steps_left(), 10nat,
{
    broadcast use {lemma_enter, lemma_exit, lemma_consume, lemma_link_last};

    let name = StateName::ThematicBreakStart;
    if m.constructs.thematic_break {
        let entered = m.enter(Token::ThematicBreak);
        let indent = space_or_tab_min_max_model(0, thematic_break::max_indent(m));
        assert(entered.wf());
        lemma_run_advances(indent, entered);
        let (indented, ok) = went(entered, run_model(indent, entered));
        if ok {
            let inner = StateName::ThematicBreakBefore;
            assert(reaches(name, m, inner, indented));
            lemma_thematic_break_before_advances(indented);
            lemma_advances_from(
                name,
                m,
                inner,
                indented,
                thematic_break::before_model(indented).0,
                thematic_break::before_model(indented).1,
            );
        }
    }
}

/// A thematic break advances from its first marker.
pub proof fn lemma_thematic_break_before_advances(m: Model)
    requires
        m.wf(),
        StateName::ThematicBreakBefore.pre(m),
    ensures
        advances(
            StateName::ThematicBreakBefore,
            m,
            thematic_break::before_model(m).0,
            thematic_break::before_model(m).1,
        ),
    decreases 1nat, m.steps_left(), 9nat,
{
    if thematic_break::is_marker(m.current()) {
        let info = thematic_break::Info { marker: m.current().unwrap(), size: 0 };
        let inner = StateName::ThematicBreakAtBreak(info);
        lemma_thematic_break_at_break_advances(m, info);
        lemma_advances_from(
            StateName::ThematicBreakBefore,
            m,
            inner,
            m,
            thematic_break::at_break_model(m, info).0,
            thematic_break::at_break_model(m, info).1,
        );
    }
}

/// A thematic break advances from between its runs.
pub proof fn lemma_thematic_break_at_break_advances(m: Model, info: thematic_break::Info)
    requires
        m.wf(),
        StateName::ThematicBreakAtBreak(info).pre(m),
    ensures
        advances(
            StateName::ThematicBreakAtBreak(info),
            m,
            thematic_break::at_break_model(m, info).0,
            thematic_break::at_break_model(m, info).1,
        ),
    decreases 1nat, m.steps_left(), phase(StateName::ThematicBreakAtBreak(info), m),
{
    broadcast use {lemma_enter, lemma_exit, lemma_consume, lemma_link_last};

    let name = StateName::ThematicBreakAtBreak(info);
    if blank_line::is_eol(m.current()) && info.size >= crate::constant::THEMATIC_BREAK_MARKER_COUNT_MIN {
        let exited = m.exit(Token::ThematicBreak);
        assert(exited.wf());
    } else if m.current() == Some(info.marker) {
        let entered = m.enter(Token::ThematicBreakSequence);
        let inner = StateName::ThematicBreakSequence(info);
        assert(reaches(name, m, inner, entered));
        lemma_thematic_break_sequence_advances(entered, info);
        lemma_advances_from(
            name,
            m,
            inner,
            entered,
            thematic_break::sequence_model(entered, info).0,
            thematic_break::sequence_model(entered, info).1,
        );
    }
}

/// A thematic break advances from inside a run.
pub proof fn lemma_thematic_break_sequence_advances(m: Model, info: thematic_break::Info)
    requires
        m.wf(),
        StateName::ThematicBreakSequence(info).pre(m),
    ensures
        advances(
            StateName::ThematicBreakSequence(info),
            m,
            thematic_break::sequence_model(m, info).0,
            thematic_break::sequence_model(m, info).1,
        ),
    decreases 1nat, m.steps_left(), 7nat,
{
    broadcast use {lemma_enter, lemma_exit, lemma_consume, lemma_link_last};

    let name = StateName::ThematicBreakSequence(info);
    if m.current() != Some(info.marker) {
        lemma_ends_with_pop(m.stack(), name.open());
        let exited = m.exit(Token::ThematicBreakSequence);
        assert(exited.wf());
        lemma_run_advances(space_or_tab_model(), exited);
        let after = attempted_some(exited, run_model(space_or_tab_model(), exited)).0;
        let inner = StateName::ThematicBreakAtBreak(info);
        assert(reaches(name, m, inner, after));
        lemma_thematic_break_at_break_advances(after, info);
        lemma_advances_from(
            name,
            m,
            inner,
            after,
            thematic_break::at_break_model(after, info).0,
            thematic_break::at_break_model(after, info).1,
        );
    }
}

/// A step of a list item that runs no other construct advances.
pub proof fn lemma_list_step_advances(name: StateName, m: Model)
    requires
        m.wf(),
        name.pre(m),
        name is ListBeforeUnordered || name is ListInside || name is ListMarker || name is ListWhitespaceAfter
            || name is ListPrefixOther || name is ListAfter || name is ListOk || name is ListNok,
    ensures
        advances(name, m, step_model(name, m).0, step_model(name, m).1),
{
    broadcast use {lemma_enter, lemma_exit, lemma_consume, lemma_link_last};

    match name {
        StateName::ListBeforeUnordered => {
            lemma_list_marker_advances(m.enter(Token::ListItemPrefix));
        },
        StateName::ListInside(size) => {
            lemma_ends_with_pop(m.stack(), name.open());
            if list::is_ordered_marker(m.current()) {
                let exited = m.exit(Token::ListItemValue);
                assert(exited.wf());
                lemma_list_marker_advances(exited);
            }
        },
        StateName::ListMarker => {
            lemma_list_marker_advances(m);
        },
        StateName::ListPrefixOther => {
            let entered = m.enter(Token::SpaceOrTab);
            if m.current() is Some {
                assert(entered.consume().wf());
                assert(entered.consume().can_exit(Token::SpaceOrTab));
            }
        },
        StateName::ListAfter(blank) => {
            lemma_ends_with_pop(m.stack(), name.open());
            let noted = Model {
                container: Some(
                    ContainerState { blank_initial: blank, size: list::prefix_size(m, blank) as usize },
                ),
                ..m
            };
            assert(noted.wf());
            assert(noted.can_exit(Token::ListItemPrefix));
            assert(noted.exit(Token::ListItemPrefix).wf());
        },
        _ => {},
    }
}

/// The marker of a list item is taken with the stack left as it was.
pub proof fn lemma_list_marker_advances(m: Model)
    requires
        m.wf(),
        m.current() is Some,
    ensures
        list::marker_model(m).0.wf(),
        list::marker_model(m).0.stack() == m.stack(),
        list::marker_model(m).0.steps_left() < m.steps_left(),
{
    broadcast use {lemma_enter, lemma_exit, lemma_consume, lemma_link_last};

    let entered = m.enter(Token::ListItemMarker);
    assert(entered.consume().wf());
    assert(entered.consume().can_exit(Token::ListItemMarker));
    assert(m.stack().push(Token::ListItemMarker).drop_last() =~= m.stack());
}

/// The start of a list item advances.
pub proof fn lemma_list_start_advances(m: Model)
    requires
        m.wf(),
    ensures
        advances(StateName::ListStart, m, list::start_model(m).0, list::start_model(m).1),
    decreases 2nat, m.steps_left(), 10nat,
{
    broadcast use {lemma_enter, lemma_exit, lemma_consume, lemma_link_last};

    let name = StateName::ListStart;
    if m.constructs.list {
        let entered = m.enter(Token::ListItem);
        let indent = space_or_tab_min_max_model(0, list::max_indent(m));
        assert(entered.wf());
        lemma_run_advances(indent, entered);
        let (indented, ok) = went(entered, run_model(indent, entered));
        if ok {
            let inner = StateName::ListBefore;
            assert(reaches(name, m, inner, indented));
            lemma_list_before_advances(indented);
            lemma_advances_from(
                name,
                m,
                inner,
                indented,
                list::before_model(indented).0,
                list::before_model(indented).1,
            );
        }
    }
}

/// The start of a list item advances from where its marker should be.
pub proof fn lemma_list_before_advances(m: Model)
    requires
        m.wf(),
        StateName::ListBefore.pre(m),
    ensures
        advances(StateName::ListBefore, m, list::before_model(m).0, list::before_model(m).1),
    decreases 2nat, m.steps_left(), 9nat,
{
    broadcast use {lemma_enter, lemma_exit, lemma_consume, lemma_link_last};

    let name = StateName::ListBefore;
    if list::is_unordered_marker(m.current()) {
        if !(run_model(StateName::ThematicBreakStart, m).1 is Okay) {
            let inner = StateName::ListBeforeUnordered;
            lemma_list_step_advances(inner, m);
            lemma_advances_from(name, m, inner, m, step_model(inner, m).0, step_model(inner, m).1);
        }
    } else if list::is_digit(m.current()) && (!m.interrupt || m.current() == Some(
        crate::constant::DIGIT_1,
    )) {
        let entered = m.enter(Token::ListItemPrefix).enter(Token::ListItemValue);
        let inner = StateName::ListInside(0);
        assert(m.enter(Token::ListItemPrefix).wf());
        assert(entered.wf());
        assert(reaches(name, m, inner, entered));
        lemma_list_step_advances(inner, entered);
        lemma_advances_from(
            name,
            m,
            inner,
            entered,
            step_model(inner, entered).0,
            step_model(inner, entered).1,
        );
    }
}

/// The start of a list item advances from after its marker.
pub proof fn lemma_list_marker_after_advances(m: Model)
    requires
        m.wf(),
        StateName::ListMarkerAfter.pre(m),
    ensures
        advances(
            StateName::ListMarkerAfter,
            m,
            list::marker_after_model(m).0,
            list::marker_after_model(m).1,
        ),
    decreases 2nat, m.steps_left(), 4nat,
{
    let name = StateName::ListMarkerAfter;
    if run_model(StateName::BlankLineStart, m).1 is Okay {
        let inner = StateName::ListAfter(true);
        lemma_list_step_advances(inner, m);
        lemma_advances_from(name, m, inner, m, step_model(inner, m).0, step_model(inner, m).1);
    } else {
        let inner = StateName::ListMarkerAfterNotBlank;
        lemma_list_marker_after_not_blank_advances(m);
        lemma_advances_from(
            name,
            m,
            inner,
            m,
            list::marker_after_not_blank_model(m).0,
            list::marker_after_not_blank_model(m).1,
        );
    }
}

/// The start of a list item advances from before its text.
pub proof fn lemma_list_marker_after_not_blank_advances(m: Model)
    requires
        m.wf(),
        StateName::ListMarkerAfterNotBlank.pre(m),
    ensures
        advances(
            StateName::ListMarkerAfterNotBlank,
            m,
            list::marker_after_not_blank_model(m).0,
            list::marker_after_not_blank_model(m).1,
        ),
    decreases 2nat, m.steps_left(), 3nat,
{
    let name = StateName::ListMarkerAfterNotBlank;
    lemma_run_advances(StateName::ListWhitespace, m);
    let (spaced, ok) = attempted(m, run_model(StateName::ListWhitespace, m));
    let inner = if ok {
        StateName::ListAfter(false)
    } else {
        StateName::ListPrefixOther
    };
    assert(reaches(name, m, inner, spaced));
    lemma_list_step_advances(inner, spaced);
    lemma_advances_from(name, m, inner, spaced, step_model(inner, spaced).0, step_model(inner, spaced).1);
}

/// The whitespace after the marker of a list item advances.
pub proof fn lemma_list_whitespace_advances(m: Model)
    requires
        m.wf(),
    ensures
        advances(StateName::ListWhitespace, m, list::whitespace_model(m).0, list::whitespace_model(m).1),
    decreases 1nat, m.steps_left(), 3nat,
{
    let name = StateName::ListWhitespace;
    let run = space_or_tab_min_max_model(1, TAB_SIZE);
    lemma_run_advances(run, m);
    let (spaced, ok) = went(m, run_model(run, m));
    if ok {
        let inner = StateName::ListWhitespaceAfter;
        assert(reaches(name, m, inner, spaced));
        lemma_list_step_advances(inner, spaced);
        lemma_advances_from(
            name,
            m,
            inner,
            spaced,
            step_model(inner, spaced).0,
            step_model(inner, spaced).1,
        );
    }
}

/// The continuation of a list item advances.
pub proof fn lemma_list_cont_advances(m: Model)
    requires
        m.wf(),
        m.container is Some,
    ensures
        advances(StateName::ListCont, m, list::cont_model(m).0, list::cont_model(m).1),
        advances(StateName::ListBlankCont, m, list::blank_cont_model(m).0, list::blank_cont_model(m).1),
        advances(
            StateName::ListNotBlankCont,
            m,
            list::not_blank_cont_model(m).0,
            list::not_blank_cont_model(m).1,
        ),
    decreases 2nat, m.steps_left(), 5nat,
{
    let container = m.container.unwrap();
    let blank = space_or_tab_min_max_model(0, container.size);
    lemma_run_advances(blank, m);
    let noted = Model { container: Some(ContainerState { blank_initial: false, ..container }), ..m };
    let exact = space_or_tab_min_max_model(container.size, container.size);
    assert(noted.wf());
    lemma_run_advances(exact, noted);
    assert(advances(
        StateName::ListBlankCont,
        m,
        list::blank_cont_model(m).0,
        list::blank_cont_model(m).1,
    ));
    assert(advances(
        StateName::ListNotBlankCont,
        m,
        list::not_blank_cont_model(m).0,
        list::not_blank_cont_model(m).1,
    ));
    if run_model(StateName::BlankLineStart, m).1 is Okay {
        lemma_advances_from(
            StateName::ListCont,
            m,
            StateName::ListBlankCont,
            m,
            list::blank_cont_model(m).0,
            list::blank_cont_model(m).1,
        );
    } else {
        lemma_advances_from(
            StateName::ListCont,
            m,
            StateName::ListNotBlankCont,
            m,
            list::not_blank_cont_model(m).0,
            list::not_blank_cont_model(m).1,
        );
    }
}

/// The first step of a title advances.
pub proof fn lemma_title_start_advances(name: StateName, m: Model)
    requires
        m.wf(),
        name is TitleStart,
    ensures
        advances(name, m, step_model(name, m).0, step_model(name, m).1),
{
    broadcast use {lemma_enter, lemma_exit, lemma_consume, lemma_link_last};

    let options = name->TitleStart_0;
    let opened = m.enter(options.title).enter(options.marker);
    assert(m.enter(options.title).wf());
    assert(opened.wf());
    if m.current() is Some {
        assert(opened.consume().wf());
        assert(opened.consume().can_exit(options.marker));
        assert(opened.stack().drop_last() =~= m.stack().push(options.title));
    }
}

/// A title advances from after a marker.
pub proof fn lemma_title_begin_advances(m: Model, info: Info)
    requires
        m.wf(),
        StateName::TitleBegin(info).pre(m),
    ensures
        advances(StateName::TitleBegin(info), m, begin_model(m, info).0, begin_model(m, info).1),
    decreases 2nat, m.steps_left(), phase(StateName::TitleBegin(info), m),
{
    broadcast use {lemma_enter, lemma_exit, lemma_consume, lemma_link_last};

    let name = StateName::TitleBegin(info);
    if at_closer(m, info) {
        let entered = m.enter(info.options.marker);
        assert(entered.consume().wf());
        assert(entered.consume().can_exit(info.options.marker));
        let marked = entered.consume().exit(info.options.marker);
        assert(marked.stack() =~= m.stack());
        lemma_ends_with_pop(m.stack(), name.open());
        assert(marked.can_exit(info.options.title));
    } else {
        let entered = m.enter(info.options.string);
        let inner = StateName::TitleAtBreak(info);
        assert(reaches(name, m, inner, entered));
        lemma_title_at_break_advances(entered, info);
        lemma_advances_from(
            name,
            m,
            inner,
            entered,
            at_break_model(entered, info).0,
            at_break_model(entered, info).1,
        );
    }
}

/// A title advances from between the pieces of its string.
pub proof fn lemma_title_at_break_advances(m: Model, info: Info)
    requires
        m.wf(),
        StateName::TitleAtBreak(info).pre(m),
    ensures
        advances(StateName::TitleAtBreak(info), m, at_break_model(m, info).0, at_break_model(m, info).1),
    decreases 2nat, m.steps_left(), phase(StateName::TitleAtBreak(info), m),
{
    broadcast use {lemma_enter, lemma_exit, lemma_consume, lemma_link_last};

    let name = StateName::TitleAtBreak(info);
    if m.current() is None {
    } else if m.current() == Some(LINE_FEED) {
        lemma_run_advances(string_eol(info), m);
        let (after, ok) = went_some(m, run_model(string_eol(info), m));
        if ok {
            let inner = StateName::TitleAtBreak(seen(info));
            assert(reaches(name, m, inner, after));
            lemma_title_at_break_advances(after, seen(info));
            lemma_advances_from(
                name,
                m,
                inner,
                after,
                at_break_model(after, seen(info)).0,
                at_break_model(after, seen(info)).1,
            );
        }
    } else if at_closer(m, info) {
        lemma_ends_with_pop(m.stack(), name.open());
        let exited = m.exit(info.options.string);
        let inner = StateName::TitleBegin(info);
        assert(reaches(name, m, inner, exited));
        lemma_title_begin_advances(exited, info);
        lemma_advances_from(name, m, inner, exited, begin_model(exited, info).0, begin_model(exited, info).1);
    } else {
        let entered = m.enter_with_content(Token::Data, Some(ContentType::String));
        let tied = if info.connect {
            entered.link_last()
        } else {
            entered
        };
        let inner = StateName::TitleInside(seen(info));
        assert(entered.wf());
        assert(tied.wf());
        assert(reaches(name, m, inner, tied));
        lemma_title_advances(tied, seen(info));
        lemma_advances_from(
            name,
            m,
            inner,
            tied,
            title_model(tied, seen(info)).0,
            title_model(tied, seen(info)).1,
        );
    }
}

/// A title advances from inside its data.
pub proof fn lemma_title_advances(m: Model, info: Info)
    requires
        m.wf(),
        StateName::TitleInside(info).pre(m),
    ensures
        advances(StateName::TitleInside(info), m, title_model(m, info).0, title_model(m, info).1),
    decreases 2nat, m.steps_left(), phase(StateName::TitleInside(info), m),
{
    broadcast use {lemma_enter, lemma_exit, lemma_consume, lemma_link_last};

    let name = StateName::TitleInside(info);
    if at_stop(m, info) {
        lemma_ends_with_pop(m.stack(), name.open());
        let exited = m.exit(Token::Data);
        let inner = StateName::TitleAtBreak(info);
        assert(reaches(name, m, inner, exited));
        lemma_title_at_break_advances(exited, info);
        lemma_advances_from(
            name,
            m,
            inner,
            exited,
            at_break_model(exited, info).0,
            at_break_model(exited, info).1,
        );
    }
}

/// A title advances from after a backslash.
pub proof fn lemma_title_escape_advances(m: Model, info: Info)
    requires
        m.wf(),
        StateName::TitleEscape(info).pre(m),
    ensures
        advances(StateName::TitleEscape(info), m, escape_model(m, info).0, escape_model(m, info).1),
    decreases 2nat, m.steps_left(), 20nat,
{
    broadcast use {lemma_enter, lemma_exit, lemma_consume, lemma_link_last};

    if !crate::construct::partial_title::is_closer(m.current()) {
        lemma_title_advances(m, info);
        lemma_advances_from(
            StateName::TitleEscape(info),
            m,
            StateName::TitleInside(info),
            m,
            title_model(m, info).0,
            title_model(m, info).1,
        );
    }
}

/// One step of the machine advances.
pub proof fn lemma_step_advances(name: StateName, m: Model)
    requires
        m.wf(),
        name.pre(m),
    ensures
        advances(name, m, step_model(name, m).0, step_model(name, m).1),
    decreases name.rank(), m.steps_left(), 50nat,
{
    match name {
        StateName::SpaceOrTabStart(_) => lemma_space_or_tab_advances(name, m),
        StateName::SpaceOrTabInside(_) => lemma_space_or_tab_advances(name, m),
        StateName::SpaceOrTabEolStart(options) => lemma_eol_start_advances(m, options),
        StateName::SpaceOrTabEolAfterFirst(_) => lemma_eol_step_advances(name, m),
        StateName::SpaceOrTabEolAfterEol(info) => lemma_eol_after_eol_advances(m, info),
        StateName::SpaceOrTabEolAfterMore => lemma_eol_step_advances(name, m),
        StateName::BlankLineStart => lemma_blank_line_advances(m),
        StateName::BlankLineAfter => lemma_eol_step_advances(name, m),
        StateName::ThematicBreakStart => lemma_thematic_break_start_advances(m),
        StateName::ThematicBreakBefore => lemma_thematic_break_before_advances(m),
        StateName::ThematicBreakAtBreak(info) => lemma_thematic_break_at_break_advances(m, info),
        StateName::ThematicBreakSequence(info) => lemma_thematic_break_sequence_advances(m, info),
        StateName::ListStart => lemma_list_start_advances(m),
        StateName::ListBefore => lemma_list_before_advances(m),
        StateName::ListMarkerAfter => lemma_list_marker_after_advances(m),
        StateName::ListMarkerAfterNotBlank => lemma_list_marker_after_not_blank_advances(m),
        StateName::ListWhitespace => lemma_list_whitespace_advances(m),
        StateName::ListCont => lemma_list_cont_advances(m),
        StateName::ListBlankCont => lemma_list_cont_advances(m),
        StateName::ListNotBlankCont => lemma_list_cont_advances(m),
        StateName::TitleStart(_) => lemma_title_start_advances(name, m),
        StateName::TitleBegin(info) => lemma_title_begin_advances(m, info),
        StateName::TitleAtBreak(info) => lemma_title_at_break_advances(m, info),
        StateName::TitleInside(info) => lemma_title_advances(m, info),
        StateName::TitleEscape(info) => lemma_title_escape_advances(m, info),
        _ => lemma_list_step_advances(name, m),
    }
}

/// A run of the machine advances.
pub proof fn lemma_run_advances(name: StateName, m: Model)
    requires
        m.wf(),
        name.pre(m),
    ensures
        advances(name, m, run_model(name, m).0, run_model(name, m).1),
        !(run_model(name, m).1 is Next),
    decreases name.rank(), m.steps_left(), 100nat,
{
    lemma_step_advances(name, m);
    let (after, state) = step_model(name, m);
    match state {
        State::Next(next) => {
            lemma_run_advances(next, after);
            lemma_advances_from(name, m, next, after, run_model(next, after).0, run_model(next, after).1);
        },
        _ => {},
    }
}

/// The log can always be read: whatever construct is run, from whatever
/// place, on whatever bytes, a stack-based reader that reads the log
/// afterwards never finds the stack empty, or another name on top, at an
/// exit event.  Where a construct that leaves nothing open matches, the
/// reader ends with the stack that it would have ended with before the run:
/// a log that was well nested is well nested still.
pub proof fn law_log_stays_well_nested(name: StateName, m: Model)
    requires
        m.wf(),
        name.pre(m),
    ensures
        open_stack(run_model(name, m).0.events) is Some,
        nesting_kept(name, m, run_model(name, m).0, run_model(name, m).1),
        run_model(name, m).1 is Okay && name.open().len() == 0 && name.left_open().len() == 0
            && well_nested(m.events) ==> well_nested(run_model(name, m).0.events),
{
    lemma_run_advances(name, m);
    lemma_nesting_kept(name, m, run_model(name, m).0, run_model(name, m).1);
}

} // verus!
