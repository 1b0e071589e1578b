//! Whitespace: a run of spaces and tabs, and a run that may hold one line
//! ending.
use vstd::prelude::*;
use crate::constant::{LINE_FEED, SPACE, TAB};
use crate::construct::blank_line::{at_eol, is_eol};
use crate::token::{ContentType, Token};
use crate::tokenizer::{
    advances, attempted_some, lemma_advances_from, reaches, run_model, Model, State, StateName,
    Tokenizer,
};

verus! {

/// How to read a run of spaces and tabs.
#[derive(Clone, Copy, Debug, PartialEq, Eq)]
pub struct Options {
    /// The fewest steps that count as a match.
    pub min: usize,
    /// The most steps to take.
    pub max: usize,
    /// The name to give the span.
    pub kind: Token,
    /// The kind of content that the span carries, if any.
    pub content_type: Option<ContentType>,
    /// Whether to tie the span to the one with content before it.
    pub connect: bool,
}

/// Where a run of spaces and tabs stands.
#[derive(Clone, Copy, Debug, PartialEq, Eq)]
pub struct Info {
    /// The steps taken so far.
    pub size: usize,
    /// How to read the run.
    pub options: Options,
}

/// How to read whitespace that may hold one line ending.
#[derive(Clone, Copy, Debug, PartialEq, Eq)]
pub struct EolOptions {
    /// The kind of content that the spans carry, if any.
    pub content_type: Option<ContentType>,
    /// Whether to tie the first span to the one with content before it.
    pub connect: bool,
}

/// Where whitespace that may hold one line ending stands.
#[derive(Clone, Copy, Debug, PartialEq, Eq)]
pub struct EolInfo {
    /// Whether anything was taken so far.
    pub ok: bool,
    /// How to read the whitespace.
    pub options: EolOptions,
}

/// Whether `byte` is a space or a tab.
pub open spec fn is_space_or_tab(byte: Option<u8>) -> bool {
    byte == Some(TAB) || byte == Some(SPACE)
}

/// The place at which a run of `min` to `max` spaces and tabs starts.
pub open spec fn space_or_tab_min_max_model(min: usize, max: usize) -> StateName {
    StateName::SpaceOrTabStart(
        Options { min, max, kind: Token::SpaceOrTab, content_type: None, connect: false },
    )
}

/// The place at which a run of one or more spaces and tabs starts.
pub open spec fn space_or_tab_model() -> StateName {
    space_or_tab_min_max_model(1, usize::MAX)
}

/// The place at which a run of one or more spaces and tabs starts that
/// carries content as `options` says.
pub open spec fn eol_run(options: EolOptions) -> StateName {
    StateName::SpaceOrTabStart(
        Options {
            min: 1,
            max: usize::MAX,
            kind: Token::SpaceOrTab,
            content_type: options.content_type,
            connect: options.connect,
        },
    )
}

/// `options` after a span was emitted: later spans with content are tied to
/// it.
pub open spec fn connected(options: EolOptions) -> EolOptions {
    if options.content_type is Some {
        EolOptions { connect: true, ..options }
    } else {
        options
    }
}

/// At the start of whitespace that may hold a line ending: a run of spaces
/// and tabs is taken if there is one.
pub open spec fn eol_start_model(m: Model, options: EolOptions) -> (Model, State)
    decreases 1nat, m.steps_left(), 5nat,
{
    let (after, ok) = attempted_some(m, run_model(eol_run(options), m));
    eol_after_first_model(
        after,
        EolInfo {
            ok,
            options: if ok {
                connected(options)
            } else {
                options
            },
        },
    )
}

/// After the first run: a line ending is taken as a span of its own; without
/// one, the whitespace matches if the first run was there.
pub open spec fn eol_after_first_model(m: Model, info: EolInfo) -> (Model, State) {
    if m.current() == Some(LINE_FEED) {
        let entered = m.enter_with_content(Token::LineEnding, info.options.content_type);
        let tied = if info.options.connect {
            entered.link_last()
        } else {
            entered
        };
        (
            tied.consume().exit(Token::LineEnding),
            State::Next(
                StateName::SpaceOrTabEolAfterEol(EolInfo { options: connected(info.options), ..info }),
            ),
        )
    } else {
        (
            m,
            if info.ok {
                State::Okay
            } else {
                State::Nok
            },
        )
    }
}

/// After the line ending: another run of spaces and tabs is taken if there
/// is one.
pub open spec fn eol_after_eol_model(m: Model, info: EolInfo) -> (Model, State)
    decreases 1nat, m.steps_left(), 3nat,
{
    eol_after_more_model(attempted_some(m, run_model(eol_run(info.options), m)).0)
}

/// After the second run: the line that was reached must not be blank.
pub open spec fn eol_after_more_model(m: Model) -> (Model, State) {
    (
        m,
        if is_eol(m.current()) {
            State::Nok
        } else {
            State::Okay
        },
    )
}

/// At the start of the run: on a space or tab the span is opened and one
/// step taken; else the run is empty, which matches only if `min` is zero.
pub open spec fn start_model(m: Model, options: Options) -> (Model, State) {
    if is_space_or_tab(m.current()) && options.max > 0 {
        let entered = m.enter_with_content(options.kind, options.content_type);
        let tied = if options.connect {
            entered.link_last()
        } else {
            entered
        };
        (tied.consume(), State::Next(StateName::SpaceOrTabInside(Info { size: 1, options })))
    } else {
        (
            m,
            if options.min == 0 {
                State::Okay
            } else {
                State::Nok
            },
        )
    }
}

/// In the run: another space or tab is taken while fewer than `max` were;
/// else the span is closed, and the run matches if it has `min` steps.
pub open spec fn inside_model(m: Model, info: Info) -> (Model, State) {
    if is_space_or_tab(m.current()) && info.size < info.options.max {
        (
            m.consume(),
            State::Next(StateName::SpaceOrTabInside(Info { size: (info.size + 1) as usize, ..info })),
        )
    } else {
        (
            m.exit(info.options.kind),
            if info.size >= info.options.min {
                State::Okay
            } else {
                State::Nok
            },
        )
    }
}

/// Between `min` and `max` spaces and tabs.
pub fn space_or_tab_min_max(min: usize, max: usize) -> (next: StateName)
    ensures
        next == space_or_tab_min_max_model(min, max),
{
    StateName::SpaceOrTabStart(
        Options { min, max, kind: Token::SpaceOrTab, content_type: None, connect: false },
    )
}

/// One or more spaces and tabs.
pub fn space_or_tab() -> (next: StateName)
    ensures
        next == space_or_tab_model(),
{
    space_or_tab_min_max(1, usize::MAX)
}

/// A run of spaces and tabs, read as `options` says.
pub fn space_or_tab_with_options(options: Options) -> (next: StateName)
    ensures
        next == StateName::SpaceOrTabStart(options),
{
    StateName::SpaceOrTabStart(options)
}

/// Spaces and tabs that may hold one line ending.
pub fn space_or_tab_eol() -> (next: StateName)
    ensures
        next == StateName::SpaceOrTabEolStart(EolOptions { content_type: None, connect: false }),
{
    space_or_tab_eol_with_options(EolOptions { content_type: None, connect: false })
}

/// Spaces and tabs that may hold one line ending, read as `options` says.
pub fn space_or_tab_eol_with_options(options: EolOptions) -> (next: StateName)
    ensures
        next == StateName::SpaceOrTabEolStart(options),
{
    StateName::SpaceOrTabEolStart(options)
}

/// Whether `byte` is a space or a tab.
pub fn at_space_or_tab(byte: Option<u8>) -> (yes: bool)
    ensures
        yes == is_space_or_tab(byte),
{
    match byte {
        Some(byte) => byte == TAB || byte == SPACE,
        None => false,
    }
}

/// At the start of a run of spaces and tabs.
pub fn start(tokenizer: &mut Tokenizer, options: Options) -> (state: State)
    requires
        old(tokenizer).wf(),
        StateName::SpaceOrTabStart(options).pre(old(tokenizer)@),
    ensures
        final(tokenizer).wf(),
        (final(tokenizer)@, state) == start_model(old(tokenizer)@, options),
        advances(StateName::SpaceOrTabStart(options), old(tokenizer)@, final(tokenizer)@, state),
{
    if at_space_or_tab(tokenizer.current) && options.max > 0 {
        tokenizer.enter_with_content(options.kind, options.content_type);
        if options.connect {
            tokenizer.link_last();
        }
        tokenizer.consume();
        State::Next(StateName::SpaceOrTabInside(Info { size: 1, options }))
    } else if options.min == 0 {
        State::Okay
    } else {
        State::Nok
    }
}

/// In a run of spaces and tabs.
pub fn inside(tokenizer: &mut Tokenizer, info: Info) -> (state: State)
    requires
        old(tokenizer).wf(),
        StateName::SpaceOrTabInside(info).pre(old(tokenizer)@),
    ensures
        final(tokenizer).wf(),
        (final(tokenizer)@, state) == inside_model(old(tokenizer)@, info),
        advances(StateName::SpaceOrTabInside(info), old(tokenizer)@, final(tokenizer)@, state),
{
    if at_space_or_tab(tokenizer.current) && info.size < info.options.max {
        tokenizer.consume();
        State::Next(StateName::SpaceOrTabInside(Info { size: info.size + 1, ..info }))
    } else {
        tokenizer.exit(info.options.kind);
        if info.size >= info.options.min {
            State::Okay
        } else {
            State::Nok
        }
    }
}

/// `options` after a span was emitted.
fn connect(options: EolOptions) -> (after: EolOptions)
    ensures
        after == connected(options),
{
    match options.content_type {
        Some(_) => EolOptions { connect: true, ..options },
        None => options,
    }
}

/// The run of spaces and tabs inside whitespace that may hold a line ending.
fn run_of(options: EolOptions) -> (next: StateName)
    ensures
        next == eol_run(options),
{
    StateName::SpaceOrTabStart(
        Options {
            min: 1,
            max: usize::MAX,
            kind: Token::SpaceOrTab,
            content_type: options.content_type,
            connect: options.connect,
        },
    )
}

/// At the start of whitespace that may hold a line ending.
pub fn eol_start(tokenizer: &mut Tokenizer, options: EolOptions) -> (state: State)
    requires
        old(tokenizer).wf(),
        StateName::SpaceOrTabEolStart(options).pre(old(tokenizer)@),
    ensures
        final(tokenizer).wf(),
        (final(tokenizer)@, state) == eol_start_model(old(tokenizer)@, options),
        advances(StateName::SpaceOrTabEolStart(options), old(tokenizer)@, final(tokenizer)@, state),
    decreases 1nat, old(tokenizer)@.steps_left(), 5nat,
{
    let ok = tokenizer.attempt(run_of(options));
    let info = EolInfo {
        ok,
        options: if ok {
            connect(options)
        } else {
            options
        },
    };
    let ghost mid = tokenizer@;
    proof {
        assert(reaches(
            StateName::SpaceOrTabEolStart(options),
            old(tokenizer)@,
            StateName::SpaceOrTabEolAfterFirst(info),
            mid,
        ));
    }
    let state = eol_after_first(tokenizer, info);
    proof {
        lemma_advances_from(
            StateName::SpaceOrTabEolStart(options),
            old(tokenizer)@,
            StateName::SpaceOrTabEolAfterFirst(info),
            mid,
            tokenizer@,
            state,
        );
    }
    state
}

/// After the whitespace before a possible line ending.
pub fn eol_after_first(tokenizer: &mut Tokenizer, info: EolInfo) -> (state: State)
    requires
        old(tokenizer).wf(),
        StateName::SpaceOrTabEolAfterFirst(info).pre(old(tokenizer)@),
    ensures
        final(tokenizer).wf(),
        (final(tokenizer)@, state) == eol_after_first_model(old(tokenizer)@, info),
        advances(StateName::SpaceOrTabEolAfterFirst(info), old(tokenizer)@, final(tokenizer)@, state),
{
    let at_line_feed = match tokenizer.current {
        Some(byte) => byte == LINE_FEED,
        None => false,
    };
    if at_line_feed {
        tokenizer.enter_with_content(Token::LineEnding, info.options.content_type);
        if info.options.connect {
            tokenizer.link_last();
        }
        tokenizer.consume();
        tokenizer.exit(Token::LineEnding);
        State::Next(StateName::SpaceOrTabEolAfterEol(EolInfo { options: connect(info.options), ..info }))
    } else if info.ok {
        State::Okay
    } else {
        State::Nok
    }
}

/// After the line ending.
pub fn eol_after_eol(tokenizer: &mut Tokenizer, info: EolInfo) -> (state: State)
    requires
        old(tokenizer).wf(),
        StateName::SpaceOrTabEolAfterEol(info).pre(old(tokenizer)@),
    ensures
        final(tokenizer).wf(),
        (final(tokenizer)@, state) == eol_after_eol_model(old(tokenizer)@, info),
        advances(StateName::SpaceOrTabEolAfterEol(info), old(tokenizer)@, final(tokenizer)@, state),
    decreases 1nat, old(tokenizer)@.steps_left(), 3nat,
{
    tokenizer.attempt(run_of(info.options));
    eol_after_more(tokenizer)
}

/// After the whitespace that follows the line ending.
pub fn eol_after_more(tokenizer: &mut Tokenizer) -> (state: State)
    requires
        old(tokenizer).wf(),
        StateName::SpaceOrTabEolAfterMore.pre(old(tokenizer)@),
    ensures
        final(tokenizer).wf(),
        (final(tokenizer)@, state) == eol_after_more_model(old(tokenizer)@),
        advances(StateName::SpaceOrTabEolAfterMore, old(tokenizer)@, final(tokenizer)@, state),
{
    if at_eol(tokenizer.current) {
        State::Nok
    } else {
        State::Okay
    }
}

} // verus!
