//! What holds of titles: they must close, they hold no blank line, and a
//! backslash escapes a closing marker and nothing else.
use vstd::prelude::*;
use crate::constant::{BACKSLASH, LINE_FEED};
use crate::construct::blank_line::is_eol;
use crate::construct::partial_space_or_tab::{
    connected, eol_after_eol_model, eol_after_first_model, eol_run, eol_start_model, EolInfo, EolOptions,
};
use crate::construct::partial_space_or_tab_proof::{
    at_space, law_space_or_tab, lemma_run_end, lemma_run_size_bounds, run_end,
};
use crate::construct::partial_title::{
    at_break_model, at_closer, at_stop, begin_model, closer_of, escape_model, is_closer, is_opener, seen,
    string_eol, title_model, Info, Options,
};
use crate::forward::{forward, lemma_consume_forward, lemma_run_forward, phase};
use crate::token::{byte_at, lemma_point_after, point_after, point_valid, ContentType, Token};
use crate::tokenizer::{attempted_some, run_model, step_model, went_some, Model, State, StateName};

verus! {

/// Whether no byte at or after the cursor is `marker`.
pub open spec fn no_closer(m: Model, marker: u8) -> bool {
    forall|i: int| m.point.index <= i < m.bytes.len() ==> m.bytes[i] != marker
}

/// Whether `name` is a place inside a title that closes with `marker`.
pub open spec fn title_place(name: StateName, marker: u8) -> bool {
    match name {
        StateName::TitleBegin(info) => info.marker == marker,
        StateName::TitleAtBreak(info) => info.marker == marker,
        StateName::TitleInside(info) => info.marker == marker,
        StateName::TitleEscape(info) => info.marker == marker,
        _ => false,
    }
}

/// Whether `outcome` is a failure, or goes on inside the title with no
/// closing marker ahead.
pub open spec fn unclosed(outcome: (Model, State), marker: u8) -> bool {
    match outcome.1 {
        State::Nok => true,
        State::Okay => false,
        State::Next(next) => {
            &&& title_place(next, marker)
            &&& point_valid(outcome.0.bytes, outcome.0.point)
            &&& no_closer(outcome.0, marker)
        },
    }
}

/// With no closing marker ahead, the cursor is not at one.
pub proof fn lemma_not_at_closer(m: Model, info: Info)
    requires
        point_valid(m.bytes, m.point),
        no_closer(m, info.marker),
    ensures
        !at_closer(m, info),
{
    if m.point.index < m.bytes.len() {
        assert(m.bytes[m.point.index as int] != info.marker);
    }
}

/// With no closing marker ahead, there is none ahead of a later place.
pub proof fn lemma_no_closer_forward(before: Model, after: Model, marker: u8)
    requires
        forward(before, after),
        no_closer(before, marker),
    ensures
        no_closer(after, marker),
{
}

/// After a marker, with no closing marker ahead, the title does not match.
pub proof fn lemma_begin_unclosed(m: Model, info: Info)
    requires
        point_valid(m.bytes, m.point),
        no_closer(m, info.marker),
    ensures
        unclosed(begin_model(m, info), info.marker),
    decreases 2nat, m.steps_left(), phase(StateName::TitleBegin(info), m),
{
    lemma_not_at_closer(m, info);
    lemma_at_break_unclosed(m.enter(info.options.string), info);
}

/// Between the pieces of the string, with no closing marker ahead, the
/// title does not match.
pub proof fn lemma_at_break_unclosed(m: Model, info: Info)
    requires
        point_valid(m.bytes, m.point),
        no_closer(m, info.marker),
    ensures
        unclosed(at_break_model(m, info), info.marker),
    decreases 2nat, m.steps_left(), phase(StateName::TitleAtBreak(info), m),
{
    lemma_not_at_closer(m, info);
    if m.current() is None {
    } else if m.current() == Some(LINE_FEED) {
        lemma_run_forward(string_eol(info), m);
        let (after, ok) = went_some(m, run_model(string_eol(info), m));
        if ok {
            lemma_no_closer_forward(m, after, info.marker);
            lemma_at_break_unclosed(after, seen(info));
        }
    } else {
        let entered = m.enter_with_content(Token::Data, Some(ContentType::String));
        let tied = if info.connect {
            entered.link_last()
        } else {
            entered
        };
        lemma_title_unclosed(tied, seen(info));
    }
}

/// In data, with no closing marker ahead, the title does not match.
pub proof fn lemma_title_unclosed(m: Model, info: Info)
    requires
        point_valid(m.bytes, m.point),
        no_closer(m, info.marker),
    ensures
        unclosed(title_model(m, info), info.marker),
    decreases 2nat, m.steps_left(), phase(StateName::TitleInside(info), m),
{
    broadcast use lemma_consume_forward;

    lemma_not_at_closer(m, info);
    if at_stop(m, info) {
        lemma_at_break_unclosed(m.exit(Token::Data), info);
    } else {
        lemma_no_closer_forward(m, m.consume(), info.marker);
    }
}

/// After a backslash, with no closing marker ahead, the title does not
/// match.
pub proof fn lemma_escape_unclosed(m: Model, info: Info)
    requires
        point_valid(m.bytes, m.point),
        no_closer(m, info.marker),
    ensures
        unclosed(escape_model(m, info), info.marker),
    decreases 2nat, m.steps_left(), 20nat,
{
    broadcast use lemma_consume_forward;

    if is_closer(m.current()) {
        lemma_no_closer_forward(m, m.consume(), info.marker);
    } else {
        lemma_title_unclosed(m, info);
    }
}

/// From any place inside a title, the run fails if no closing marker lies
/// ahead.
pub proof fn law_title_needs_its_closer(name: StateName, m: Model, marker: u8)
    requires
        title_place(name, marker),
        point_valid(m.bytes, m.point),
        no_closer(m, marker),
    ensures
        run_model(name, m).1 == State::Nok,
    decreases m.steps_left(),
{
    match name {
        StateName::TitleBegin(info) => lemma_begin_unclosed(m, info),
        StateName::TitleAtBreak(info) => lemma_at_break_unclosed(m, info),
        StateName::TitleInside(info) => lemma_title_unclosed(m, info),
        StateName::TitleEscape(info) => lemma_escape_unclosed(m, info),
        _ => {},
    }
    let (after, state) = step_model(name, m);
    assert(unclosed((after, state), marker));
    match state {
        State::Next(next) => {
            if next.rank() <= name.rank() && after.steps_left() < m.steps_left() {
                law_title_needs_its_closer(next, after, marker);
            }
        },
        _ => {},
    }
}

/// An unterminated title fails: if the marker that closes the title does
/// not follow the marker that opens it, the title does not match.
pub proof fn law_unterminated_title_fails(m: Model, options: Options)
    requires
        point_valid(m.bytes, m.point),
        is_opener(m.current()),
        forall|i: int| m.point.index < i < m.bytes.len() ==> m.bytes[i] != closer_of(m.current().unwrap()),
    ensures
        run_model(StateName::TitleStart(options), m).1 == State::Nok,
{
    broadcast use lemma_consume_forward;

    let info = Info { connect: false, marker: closer_of(m.current().unwrap()), options };
    let opened = m.enter(options.title).enter(options.marker);
    let after = opened.consume().exit(options.marker);
    lemma_point_after(m.bytes, m.point);
    assert(step_model(StateName::TitleStart(options), m) == (after, State::Next(StateName::TitleBegin(info))));
    assert(after.point == point_after(m.bytes, m.point));
    assert(after.point.index > m.point.index) by {
        // The opening marker is a byte of its own, never a column of a tab.
        assert(m.point.vs == 0);
    }
    law_title_needs_its_closer(StateName::TitleBegin(info), after, info.marker);
}

/// At the end of the input, every place inside a title fails.
pub proof fn law_title_fails_at_end(name: StateName, m: Model, marker: u8)
    requires
        title_place(name, marker),
        point_valid(m.bytes, m.point),
        m.current() is None,
    ensures
        run_model(name, m).1 == State::Nok,
{
    law_title_needs_its_closer(name, m, marker);
}

/// Whether a blank line follows the line ending at the cursor: after the
/// line ending come only spaces and tabs up to the next line ending or the
/// end of the input.
pub open spec fn blank_line_ahead(m: Model) -> bool {
    &&& m.current() == Some(LINE_FEED)
    &&& is_eol(
        byte_at(m.bytes, run_end(m.bytes, point_after(m.bytes, m.point), usize::MAX as int)),
    )
}

/// Whitespace that may hold one line ending fails at a line ending that is
/// followed by a blank line.
pub proof fn law_eol_fails_before_blank_line(m: Model, options: EolOptions)
    requires
        point_valid(m.bytes, m.point),
        blank_line_ahead(m),
    ensures
        run_model(StateName::SpaceOrTabEolStart(options), m).1 == State::Nok,
{
    let first = eol_run(options)->SpaceOrTabStart_0;
    law_space_or_tab(m, first);
    assert(attempted_some(m, run_model(eol_run(options), m)) == (m, false));
    let info = EolInfo { ok: false, options };
    assert(eol_start_model(m, options) == eol_after_first_model(m, info));
    let entered = m.enter_with_content(Token::LineEnding, options.content_type);
    let tied = if options.connect {
        entered.link_last()
    } else {
        entered
    };
    let after = tied.consume().exit(Token::LineEnding);
    let next = EolInfo { options: connected(options), ..info };
    lemma_point_after(m.bytes, m.point);
    assert(step_model(StateName::SpaceOrTabEolStart(options), m) == (
        after,
        State::Next(StateName::SpaceOrTabEolAfterEol(next)),
    ));
    assert(run_model(StateName::SpaceOrTabEolStart(options), m) == run_model(
        StateName::SpaceOrTabEolAfterEol(next),
        after,
    ));
    let second = eol_run(next.options)->SpaceOrTabStart_0;
    law_space_or_tab(after, second);
    lemma_run_size_bounds(after.bytes, after.point, usize::MAX as int);
    lemma_run_end(after.bytes, after.point, usize::MAX as int);
    let last = attempted_some(after, run_model(eol_run(next.options), after)).0;
    assert(last.bytes == m.bytes);
    assert(last.point == run_end(m.bytes, after.point, usize::MAX as int)) by {
        if !at_space(after.bytes, after.point) {
            assert(run_end(m.bytes, after.point, usize::MAX as int) == after.point);
        }
    }
    assert(step_model(StateName::SpaceOrTabEolAfterEol(next), after) == (last, State::Nok)) by {
        assert(eol_after_eol_model(after, next) == (last, State::Nok));
    }
    assert(run_model(StateName::SpaceOrTabEolAfterEol(next), after) == (last, State::Nok));
}

/// A blank line inside a title fails the title: between the pieces of the
/// string, in data, and after a backslash.
pub proof fn law_blank_line_in_title_fails(m: Model, info: Info)
    requires
        point_valid(m.bytes, m.point),
        blank_line_ahead(m),
    ensures
        run_model(StateName::TitleAtBreak(info), m).1 == State::Nok,
        run_model(StateName::TitleInside(info), m).1 == State::Nok,
        run_model(StateName::TitleEscape(info), m).1 == State::Nok,
{
    let options = EolOptions { content_type: Some(ContentType::String), connect: info.connect };
    law_eol_fails_before_blank_line(m, options);
    law_eol_fails_before_blank_line(m.exit(Token::Data), options);
    assert(at_break_model(m, info).1 == State::Nok);
    assert(at_break_model(m.exit(Token::Data), info).1 == State::Nok);
    assert(!is_closer(m.current()));
    assert(title_model(m, info) == at_break_model(m.exit(Token::Data), info));
    assert(escape_model(m, info) == title_model(m, info));
    assert(step_model(StateName::TitleAtBreak(info), m).1 == State::Nok);
    assert(step_model(StateName::TitleInside(info), m).1 == State::Nok);
    assert(step_model(StateName::TitleEscape(info), m).1 == State::Nok);
}

/// In data, a backslash is taken, and the byte after it is read as one that
/// may be escaped.
pub proof fn law_backslash_starts_escape(m: Model, info: Info)
    requires
        m.current() == Some(BACKSLASH),
    ensures
        title_model(m, info) == (m.consume(), State::Next(StateName::TitleEscape(info))),
{
}

/// A backslash before a marker that could close a title escapes it: the
/// marker is taken as data, and the title is not closed, whether or not the
/// marker is the one that closes this title.
pub proof fn law_escaped_closer_is_data(m: Model, info: Info)
    requires
        is_closer(m.current()),
    ensures
        escape_model(m, info) == (m.consume(), State::Next(StateName::TitleInside(info))),
        escape_model(m, info).0.events == m.events,
{
}

/// Any other backslash is literal: the byte after it is read as if no
/// backslash stood before it.
pub proof fn law_other_backslash_is_literal(m: Model, info: Info)
    requires
        !is_closer(m.current()),
    ensures
        escape_model(m, info) == title_model(m, info),
{
}

/// The closing marker, not escaped, ends the data, the string and the
/// title.
pub proof fn law_closer_ends_title(m: Model, info: Info)
    requires
        at_closer(m, info),
    ensures
        title_model(m, info) == (
            m.exit(Token::Data).exit(info.options.string).enter(info.options.marker).consume().exit(
                info.options.marker,
            ).exit(info.options.title),
            State::Okay,
        ),
{
    let closed = m.exit(Token::Data);
    assert(at_closer(closed, info));
    assert(title_model(m, info) == at_break_model(closed, info));
    let string_closed = closed.exit(info.options.string);
    assert(at_closer(string_closed, info));
    assert(at_break_model(closed, info) == begin_model(string_closed, info));
}

} // verus!
