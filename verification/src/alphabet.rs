//! Every construct writes only its own names.
//!
//! A run appends events to the log and changes none that it found there,
//! and the names of the events that it appends are those of the construct
//! that was run and of the constructs that it runs inside itself.  So a
//! construct that is turned off, or never reached, leaves no name of its own
//! in the log.
use vstd::prelude::*;
use crate::constant::{LINE_FEED, TAB_SIZE};
use crate::construct::partial_space_or_tab::{
    eol_after_eol_model, eol_run, eol_start_model, space_or_tab_min_max_model, space_or_tab_model, EolInfo,
    EolOptions,
};
use crate::construct::partial_title::{
    at_break_model, at_closer, at_stop, begin_model, escape_model, seen, string_eol, title_model, Info,
    Options,
};
use crate::construct::{blank_line, list, thematic_break};
use crate::forward::phase;
use crate::subtokenize::lemma_linked_shape;
use crate::token::{ContentType, Token};
use crate::tokenizer::{
    attempted, attempted_some, run_model, step_model, went, went_some, ContainerState, Model, State,
    StateName,
};

verus! {

/// Whether `token_type` is a name of a title with the names of `options`.
pub open spec fn title_name(options: Options, token_type: Token) -> bool {
    token_type == options.title || token_type == options.marker || token_type == options.string
        || token_type == Token::Data || token_type == Token::LineEnding || token_type == Token::SpaceOrTab
}

/// Whether `token_type` is a name of the start of a list item.
pub open spec fn list_name(token_type: Token) -> bool {
    token_type == Token::ListItem || token_type == Token::ListItemPrefix || token_type
        == Token::ListItemValue || token_type == Token::ListItemMarker || token_type == Token::SpaceOrTab
}

/// Whether a construct that is entered at `name` may append an event with
/// the name `token_type`.
pub open spec fn emits(name: StateName, token_type: Token) -> bool {
    match name {
        StateName::SpaceOrTabStart(options) => token_type == options.kind,
        StateName::SpaceOrTabInside(info) => token_type == info.options.kind,
        StateName::SpaceOrTabEolStart(_) => token_type == Token::SpaceOrTab || token_type
            == Token::LineEnding,
        StateName::SpaceOrTabEolAfterFirst(_) => token_type == Token::SpaceOrTab || token_type
            == Token::LineEnding,
        StateName::SpaceOrTabEolAfterEol(_) => token_type == Token::SpaceOrTab,
        StateName::SpaceOrTabEolAfterMore => false,
        StateName::BlankLineStart => token_type == Token::SpaceOrTab,
        StateName::BlankLineAfter => false,
        StateName::ThematicBreakStart => thematic_break_name(token_type),
        StateName::ThematicBreakBefore => thematic_break_name(token_type),
        StateName::ThematicBreakAtBreak(_) => thematic_break_name(token_type),
        StateName::ThematicBreakSequence(_) => thematic_break_name(token_type),
        StateName::ListCont => token_type == Token::SpaceOrTab,
        StateName::ListBlankCont => token_type == Token::SpaceOrTab,
        StateName::ListNotBlankCont => token_type == Token::SpaceOrTab,
        StateName::ListWhitespace => token_type == Token::SpaceOrTab,
        StateName::ListWhitespaceAfter => false,
        StateName::ListOk => false,
        StateName::ListNok => false,
        StateName::TitleStart(options) => title_name(options, token_type),
        StateName::TitleBegin(info) => title_name(info.options, token_type),
        StateName::TitleAtBreak(info) => title_name(info.options, token_type),
        StateName::TitleInside(info) => title_name(info.options, token_type),
        StateName::TitleEscape(info) => title_name(info.options, token_type),
        _ => list_name(token_type),
    }
}

/// Whether `token_type` is a name of a thematic break.
pub open spec fn thematic_break_name(token_type: Token) -> bool {
    token_type == Token::ThematicBreak || token_type == Token::ThematicBreakSequence || token_type
        == Token::SpaceOrTab
}

/// Whether `after` holds the log of `before` and, after it, only events
/// with names that a construct entered at `name` may append.
pub open spec fn only_adds(name: StateName, before: Model, after: Model) -> bool {
    &&& after.events.len() >= before.events.len()
    &&& forall|i: int| 0 <= i < before.events.len() ==> #[trigger] after.events[i] == before.events[i]
    &&& forall|i: int|
        before.events.len() <= i < after.events.len() ==> emits(name, (#[trigger] after.events[i]).token_type)
}

/// Whether every name of the construct at `inner` is one of the construct
/// at `outer`.
pub open spec fn within(inner: StateName, outer: StateName) -> bool {
    forall|token_type: Token| emits(inner, token_type) ==> emits(outer, token_type)
}

/// Whether `outcome` holds the log of `before` and, after it, only events
/// with the names of the construct at `name`, and goes on, if at all, in a
/// construct with no other names.
pub open spec fn emitted(name: StateName, before: Model, outcome: (Model, State)) -> bool {
    &&& only_adds(name, before, outcome.0)
    &&& outcome.1 matches State::Next(next) ==> within(next, name)
}

/// What a construct appends inside another, the other appends.
pub proof fn lemma_only_adds_inside(
    outer: StateName,
    before: Model,
    inner: StateName,
    mid: Model,
    after: Model,
)
    requires
        only_adds(outer, before, mid),
        only_adds(inner, mid, after),
        within(inner, outer),
    ensures
        only_adds(outer, before, after),
{
    assert forall|i: int| before.events.len() <= i < after.events.len() implies emits(
        outer,
        (#[trigger] after.events[i]).token_type,
    ) by {
        if i < mid.events.len() {
            assert(after.events[i] == mid.events[i]);
        } else {
            assert(emits(inner, after.events[i].token_type));
        }
    }
    assert forall|i: int| 0 <= i < before.events.len() implies #[trigger] after.events[i]
        == before.events[i] by {
        assert(after.events[i] == mid.events[i]);
    }
}

/// Opening a span appends its name.
pub proof fn lemma_enter_adds(name: StateName, m: Model, token_type: Token, content_type: Option<ContentType>)
    requires
        emits(name, token_type),
    ensures
        only_adds(name, m, m.enter_with_content(token_type, content_type)),
        only_adds(name, m, m.enter_with_content(token_type, content_type).link_last()),
        only_adds(name, m, m.enter_with_content(token_type, content_type).consume()),
        only_adds(name, m, m.enter_with_content(token_type, content_type).link_last().consume()),
{
    let entered = m.enter_with_content(token_type, content_type);
    lemma_linked_shape(entered.events, entered.events.len() - 1);
}

/// A step in a run of spaces and tabs appends only the name of the run.
pub proof fn lemma_whitespace_step_emits(name: StateName, m: Model)
    requires
        name is SpaceOrTabStart || name is SpaceOrTabInside || name is SpaceOrTabEolAfterFirst
            || name is SpaceOrTabEolAfterMore || name is BlankLineAfter,
    ensures
        emitted(name, m, step_model(name, m)),
{
    match name {
        StateName::SpaceOrTabStart(options) => {
            lemma_enter_adds(name, m, options.kind, options.content_type);
        },
        StateName::SpaceOrTabEolAfterFirst(info) => {
            lemma_enter_adds(name, m, Token::LineEnding, info.options.content_type);
            let entered = m.enter_with_content(Token::LineEnding, info.options.content_type);
            let tied = if info.options.connect {
                entered.link_last()
            } else {
                entered
            };
            lemma_only_adds_inside(name, m, name, tied.consume(), tied.consume().exit(Token::LineEnding));
        },
        _ => {},
    }
}

/// Whitespace that may hold a line ending, and a blank line, append only
/// whitespace and line endings.
pub proof fn lemma_eol_emits(m: Model)
    ensures
        forall|options: EolOptions|
            emitted(StateName::SpaceOrTabEolStart(options), m, #[trigger] eol_start_model(m, options)),
        forall|info: EolInfo|
            emitted(StateName::SpaceOrTabEolAfterEol(info), m, #[trigger] eol_after_eol_model(m, info)),
        emitted(StateName::BlankLineStart, m, blank_line::start_model(m)),
    decreases 1nat, m.steps_left(), 5nat,
{
    assert forall|options: EolOptions|
        emitted(StateName::SpaceOrTabEolStart(options), m, #[trigger] eol_start_model(m, options)) by {
        let name = StateName::SpaceOrTabEolStart(options);
        lemma_run_emits(eol_run(options), m);
        let (after, ok) = attempted_some(m, run_model(eol_run(options), m));
        let info = EolInfo {
            ok,
            options: if ok {
                crate::construct::partial_space_or_tab::connected(options)
            } else {
                options
            },
        };
        let inner = StateName::SpaceOrTabEolAfterFirst(info);
        lemma_whitespace_step_emits(inner, after);
        lemma_only_adds_inside(name, m, inner, after, step_model(inner, after).0);
    }
    assert forall|info: EolInfo|
        emitted(StateName::SpaceOrTabEolAfterEol(info), m, #[trigger] eol_after_eol_model(m, info)) by {
        lemma_run_emits(eol_run(info.options), m);
    }
    lemma_run_emits(space_or_tab_model(), m);
}

/// A thematic break appends only its own names, from its start.
pub proof fn lemma_thematic_break_start_emits(m: Model)
    ensures
        emitted(StateName::ThematicBreakStart, m, thematic_break::start_model(m)),
    decreases 1nat, m.steps_left(), 10nat,
{
    let name = StateName::ThematicBreakStart;
    if m.constructs.thematic_break {
        let entered = m.enter(Token::ThematicBreak);
        let indent = space_or_tab_min_max_model(0, thematic_break::max_indent(m));
        lemma_run_emits(indent, entered);
        let (indented, ok) = went(entered, run_model(indent, entered));
        lemma_only_adds_inside(name, m, indent, entered, indented);
        if ok {
            lemma_thematic_break_before_emits(indented);
            lemma_only_adds_inside(
                name,
                m,
                StateName::ThematicBreakBefore,
                indented,
                thematic_break::before_model(indented).0,
            );
        }
    }
}

/// A thematic break appends only its own names, from its first marker.
pub proof fn lemma_thematic_break_before_emits(m: Model)
    ensures
        emitted(StateName::ThematicBreakBefore, m, thematic_break::before_model(m)),
    decreases 1nat, m.steps_left(), 9nat,
{
    if thematic_break::is_marker(m.current()) {
        lemma_thematic_break_at_break_emits(
            m,
            thematic_break::Info { marker: m.current().unwrap(), size: 0 },
        );
    }
}

/// A thematic break appends only its own names, from between its runs.
pub proof fn lemma_thematic_break_at_break_emits(m: Model, info: thematic_break::Info)
    ensures
        emitted(StateName::ThematicBreakAtBreak(info), m, thematic_break::at_break_model(m, info)),
    decreases 1nat, m.steps_left(), phase(StateName::ThematicBreakAtBreak(info), m),
{
    let name = StateName::ThematicBreakAtBreak(info);
    if m.current() == Some(info.marker) {
        let entered = m.enter(Token::ThematicBreakSequence);
        lemma_thematic_break_sequence_emits(entered, info);
        lemma_only_adds_inside(
            name,
            m,
            StateName::ThematicBreakSequence(info),
            entered,
            thematic_break::sequence_model(entered, info).0,
        );
    }
}

/// A thematic break appends only its own names, from inside a run.
pub proof fn lemma_thematic_break_sequence_emits(m: Model, info: thematic_break::Info)
    ensures
        emitted(StateName::ThematicBreakSequence(info), m, thematic_break::sequence_model(m, info)),
    decreases 1nat, m.steps_left(), 7nat,
{
    let name = StateName::ThematicBreakSequence(info);
    if m.current() != Some(info.marker) {
        let exited = m.exit(Token::ThematicBreakSequence);
        lemma_run_emits(space_or_tab_model(), exited);
        let after = attempted_some(exited, run_model(space_or_tab_model(), exited)).0;
        lemma_only_adds_inside(name, m, space_or_tab_model(), exited, after);
        lemma_thematic_break_at_break_emits(after, info);
        lemma_only_adds_inside(
            name,
            m,
            StateName::ThematicBreakAtBreak(info),
            after,
            thematic_break::at_break_model(after, info).0,
        );
    }
}

/// A step of a list item that runs no other construct appends only names of
/// list items.
pub proof fn lemma_list_step_emits(name: StateName, m: Model)
    requires
        name is ListBefore || name is ListBeforeUnordered || name is ListInside || name is ListMarker
            || name is ListWhitespaceAfter || name is ListPrefixOther || name is ListAfter
            || name is ListOk || name is ListNok,
    ensures
        emitted(name, m, step_model(name, m)),
{
    match name {
        StateName::ListBefore => {
            lemma_marker_emits(name, m.enter(Token::ListItemPrefix));
            lemma_marker_emits(
                name,
                m.enter(Token::ListItemPrefix).enter(Token::ListItemValue).exit(Token::ListItemValue),
            );
            lemma_only_adds_inside(
                name,
                m,
                name,
                m.enter(Token::ListItemPrefix),
                list::marker_model(m.enter(Token::ListItemPrefix)).0,
            );
        },
        StateName::ListBeforeUnordered => {
            lemma_marker_emits(name, m.enter(Token::ListItemPrefix));
            lemma_only_adds_inside(
                name,
                m,
                name,
                m.enter(Token::ListItemPrefix),
                list::marker_model(m.enter(Token::ListItemPrefix)).0,
            );
        },
        StateName::ListInside(_) => {
            lemma_marker_emits(name, m.exit(Token::ListItemValue));
            lemma_only_adds_inside(
                name,
                m,
                name,
                m.exit(Token::ListItemValue),
                list::marker_model(m.exit(Token::ListItemValue)).0,
            );
        },
        StateName::ListMarker => {
            lemma_marker_emits(name, m);
        },
        StateName::ListPrefixOther => {
            let entered = m.enter(Token::SpaceOrTab);
            lemma_only_adds_inside(name, m, name, entered.consume(), entered.consume().exit(Token::SpaceOrTab));
        },
        _ => {},
    }
}

/// The marker of a list item appends only its own name.
pub proof fn lemma_marker_emits(name: StateName, m: Model)
    requires
        emits(name, Token::ListItemMarker),
    ensures
        only_adds(name, m, list::marker_model(m).0),
{
    let entered = m.enter(Token::ListItemMarker);
    lemma_only_adds_inside(name, m, name, entered.consume(), entered.consume().exit(Token::ListItemMarker));
}

/// The start of a list item appends only names of list items.
pub proof fn lemma_list_start_emits(m: Model)
    ensures
        emitted(StateName::ListStart, m, list::start_model(m)),
    decreases 2nat, m.steps_left(), 10nat,
{
    let name = StateName::ListStart;
    if m.constructs.list {
        let entered = m.enter(Token::ListItem);
        let indent = space_or_tab_min_max_model(0, list::max_indent(m));
        lemma_run_emits(indent, entered);
        let (indented, ok) = went(entered, run_model(indent, entered));
        lemma_only_adds_inside(name, m, indent, entered, indented);
        if ok {
            lemma_list_before_emits(indented);
            lemma_only_adds_inside(name, m, StateName::ListBefore, indented, list::before_model(indented).0);
        }
    }
}

/// The start of a list item appends only names of list items, from where
/// its marker should be.
pub proof fn lemma_list_before_emits(m: Model)
    ensures
        emitted(StateName::ListBefore, m, list::before_model(m)),
    decreases 2nat, m.steps_left(), 9nat,
{
    lemma_list_step_emits(StateName::ListBeforeUnordered, m);
    let valued = m.enter(Token::ListItemPrefix).enter(Token::ListItemValue);
    lemma_list_step_emits(StateName::ListInside(0), valued);
    lemma_only_adds_inside(
        StateName::ListBefore,
        m,
        StateName::ListInside(0),
        valued,
        list::inside_model(valued, 0).0,
    );
}

/// The start of a list item appends only names of list items, from after
/// its marker.
pub proof fn lemma_list_marker_after_emits(m: Model)
    ensures
        emitted(StateName::ListMarkerAfter, m, list::marker_after_model(m)),
        emitted(StateName::ListMarkerAfterNotBlank, m, list::marker_after_not_blank_model(m)),
    decreases 2nat, m.steps_left(), 4nat,
{
    let name = StateName::ListMarkerAfterNotBlank;
    lemma_run_emits(StateName::ListWhitespace, m);
    let (spaced, ok) = attempted(m, run_model(StateName::ListWhitespace, m));
    lemma_only_adds_inside(name, m, StateName::ListWhitespace, m, spaced);
    lemma_list_step_emits(StateName::ListAfter(false), spaced);
    lemma_list_step_emits(StateName::ListPrefixOther, spaced);
    lemma_list_step_emits(StateName::ListAfter(true), m);
    if ok {
        lemma_only_adds_inside(
            name,
            m,
            StateName::ListAfter(false),
            spaced,
            list::after_model(spaced, false).0,
        );
    } else {
        lemma_only_adds_inside(
            name,
            m,
            StateName::ListPrefixOther,
            spaced,
            list::prefix_other_model(spaced).0,
        );
    }
    assert(emitted(name, m, list::marker_after_not_blank_model(m)));
}

/// The whitespace after the marker of a list item appends only whitespace.
pub proof fn lemma_list_whitespace_emits(m: Model)
    ensures
        emitted(StateName::ListWhitespace, m, list::whitespace_model(m)),
    decreases 1nat, m.steps_left(), 3nat,
{
    lemma_run_emits(space_or_tab_min_max_model(1, TAB_SIZE), m);
}

/// The continuation of a list item appends only whitespace.
pub proof fn lemma_list_cont_emits(m: Model)
    ensures
        emitted(StateName::ListCont, m, list::cont_model(m)),
        emitted(StateName::ListBlankCont, m, list::blank_cont_model(m)),
        emitted(StateName::ListNotBlankCont, m, list::not_blank_cont_model(m)),
    decreases 2nat, m.steps_left(), 5nat,
{
    let container = m.container.unwrap();
    lemma_run_emits(space_or_tab_min_max_model(0, container.size), m);
    let noted = Model { container: Some(ContainerState { blank_initial: false, ..container }), ..m };
    lemma_run_emits(space_or_tab_min_max_model(container.size, container.size), noted);
    assert(emitted(StateName::ListBlankCont, m, list::blank_cont_model(m)));
    assert(emitted(StateName::ListNotBlankCont, m, list::not_blank_cont_model(m)));
}

/// The first step of a title appends only names of the title.
pub proof fn lemma_title_start_emits(name: StateName, m: Model)
    requires
        name is TitleStart,
    ensures
        emitted(name, m, step_model(name, m)),
{
    let options = name->TitleStart_0;
    let opened = m.enter(options.title).enter(options.marker);
    lemma_only_adds_inside(name, m, name, opened.consume(), opened.consume().exit(options.marker));
}

/// A title appends only its own names, from after a marker.
pub proof fn lemma_title_begin_emits(m: Model, info: Info)
    ensures
        emitted(StateName::TitleBegin(info), m, begin_model(m, info)),
    decreases 2nat, m.steps_left(), phase(StateName::TitleBegin(info), m),
{
    let name = StateName::TitleBegin(info);
    if at_closer(m, info) {
        let entered = m.enter(info.options.marker);
        let marked = entered.consume().exit(info.options.marker);
        lemma_only_adds_inside(name, m, name, entered.consume(), marked);
        lemma_only_adds_inside(name, m, name, marked, marked.exit(info.options.title));
    } else {
        let entered = m.enter(info.options.string);
        lemma_title_at_break_emits(entered, info);
        lemma_only_adds_inside(
            name,
            m,
            StateName::TitleAtBreak(info),
            entered,
            at_break_model(entered, info).0,
        );
    }
}

/// A title appends only its own names, from between the pieces of its
/// string.
pub proof fn lemma_title_at_break_emits(m: Model, info: Info)
    ensures
        emitted(StateName::TitleAtBreak(info), m, at_break_model(m, info)),
    decreases 2nat, m.steps_left(), phase(StateName::TitleAtBreak(info), m),
{
    let name = StateName::TitleAtBreak(info);
    if m.current() is None {
    } else if m.current() == Some(LINE_FEED) {
        lemma_run_emits(string_eol(info), m);
        let (after, ok) = went_some(m, run_model(string_eol(info), m));
        lemma_only_adds_inside(name, m, string_eol(info), m, after);
        if ok {
            lemma_title_at_break_emits(after, seen(info));
            lemma_only_adds_inside(
                name,
                m,
                StateName::TitleAtBreak(seen(info)),
                after,
                at_break_model(after, seen(info)).0,
            );
        }
    } else if at_closer(m, info) {
        let exited = m.exit(info.options.string);
        lemma_title_begin_emits(exited, info);
        lemma_only_adds_inside(name, m, StateName::TitleBegin(info), exited, begin_model(exited, info).0);
    } else {
        lemma_enter_adds(name, m, Token::Data, Some(ContentType::String));
        let entered = m.enter_with_content(Token::Data, Some(ContentType::String));
        let tied = if info.connect {
            entered.link_last()
        } else {
            entered
        };
        lemma_title_emits(tied, seen(info));
        lemma_only_adds_inside(
            name,
            m,
            StateName::TitleInside(seen(info)),
            tied,
            title_model(tied, seen(info)).0,
        );
    }
}

/// A title appends only its own names, from inside its data.
pub proof fn lemma_title_emits(m: Model, info: Info)
    ensures
        emitted(StateName::TitleInside(info), m, title_model(m, info)),
    decreases 2nat, m.steps_left(), phase(StateName::TitleInside(info), m),
{
    let name = StateName::TitleInside(info);
    if at_stop(m, info) {
        let exited = m.exit(Token::Data);
        lemma_title_at_break_emits(exited, info);
        lemma_only_adds_inside(
            name,
            m,
            StateName::TitleAtBreak(info),
            exited,
            at_break_model(exited, info).0,
        );
    }
}

/// A title appends only its own names, from after a backslash.
pub proof fn lemma_title_escape_emits(m: Model, info: Info)
    ensures
        emitted(StateName::TitleEscape(info), m, escape_model(m, info)),
    decreases 2nat, m.steps_left(), 20nat,
{
    lemma_title_emits(m, info);
}

/// One step of the machine appends only names of the construct.
pub proof fn lemma_step_emits(name: StateName, m: Model)
    ensures
        emitted(name, m, step_model(name, m)),
    decreases name.rank(), m.steps_left(), 50nat,
{
    match name {
        StateName::SpaceOrTabStart(_) => lemma_whitespace_step_emits(name, m),
        StateName::SpaceOrTabInside(_) => lemma_whitespace_step_emits(name, m),
        StateName::SpaceOrTabEolAfterFirst(_) => lemma_whitespace_step_emits(name, m),
        StateName::SpaceOrTabEolAfterMore => lemma_whitespace_step_emits(name, m),
        StateName::BlankLineAfter => lemma_whitespace_step_emits(name, m),
        StateName::SpaceOrTabEolStart(options) => {
            lemma_eol_emits(m);
            assert(emitted(name, m, eol_start_model(m, options)));
        },
        StateName::SpaceOrTabEolAfterEol(info) => {
            lemma_eol_emits(m);
            assert(emitted(name, m, eol_after_eol_model(m, info)));
        },
        StateName::BlankLineStart => lemma_eol_emits(m),
        StateName::ThematicBreakStart => lemma_thematic_break_start_emits(m),
        StateName::ThematicBreakBefore => lemma_thematic_break_before_emits(m),
        StateName::ThematicBreakAtBreak(info) => lemma_thematic_break_at_break_emits(m, info),
        StateName::ThematicBreakSequence(info) => lemma_thematic_break_sequence_emits(m, info),
        StateName::ListStart => lemma_list_start_emits(m),
        StateName::ListBefore => lemma_list_before_emits(m),
        StateName::ListMarkerAfter => lemma_list_marker_after_emits(m),
        StateName::ListMarkerAfterNotBlank => lemma_list_marker_after_emits(m),
        StateName::ListWhitespace => lemma_list_whitespace_emits(m),
        StateName::ListCont => lemma_list_cont_emits(m),
        StateName::ListBlankCont => lemma_list_cont_emits(m),
        StateName::ListNotBlankCont => lemma_list_cont_emits(m),
        StateName::TitleStart(_) => lemma_title_start_emits(name, m),
        StateName::TitleBegin(info) => lemma_title_begin_emits(m, info),
        StateName::TitleAtBreak(info) => lemma_title_at_break_emits(m, info),
        StateName::TitleInside(info) => lemma_title_emits(m, info),
        StateName::TitleEscape(info) => lemma_title_escape_emits(m, info),
        _ => lemma_list_step_emits(name, m),
    }
}

/// A run of the machine appends only names of the construct.
pub proof fn lemma_run_emits(name: StateName, m: Model)
    ensures
        only_adds(name, m, run_model(name, m).0),
    decreases name.rank(), m.steps_left(), 100nat,
{
    lemma_step_emits(name, m);
    let (after, state) = step_model(name, m);
    match state {
        State::Next(next) => {
            if next.rank() <= name.rank() && after.steps_left() < m.steps_left() {
                lemma_run_emits(next, after);
                lemma_only_adds_inside(name, m, next, after, run_model(next, after).0);
            }
        },
        _ => {},
    }
}

/// A run only appends to the log, and only names of the construct that was
/// run: the start of a list item appends nothing but the names of list items
/// and whitespace, a title nothing but its own names, data, line endings,
/// and whitespace, and so on for every construct.
pub proof fn law_run_writes_its_own_names(name: StateName, m: Model)
    ensures
        only_adds(name, m, run_model(name, m).0),
        only_adds(name, m, attempted(m, run_model(name, m)).0),
{
    lemma_run_emits(name, m);
}

} // verus!
