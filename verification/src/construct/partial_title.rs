//! Titles, as they occur in definitions and at the end of labels.
//!
//! ```bnf
//! ; Restriction: no blank lines.
//! ; Restriction: markers must match (in case of `(` with `)`).
//! title ::= marker [  *( code - '\\' | '\\' [ marker ] ) ] marker
//! marker ::= '"' | '\'' | '('
//! ```
//!
//! Titles can be double quoted (`"a"`), single quoted (`'a'`), or
//! parenthesized (`(a)`).  They can contain line endings and whitespace, but
//! no blank lines.  What is between the markers is string content.
use vstd::prelude::*;
use crate::constant::{APOSTROPHE, BACKSLASH, LEFT_PAREN, LINE_FEED, QUOTATION_MARK, RIGHT_PAREN};
use crate::construct::partial_space_or_tab::{space_or_tab_eol_with_options, EolOptions};
use crate::nesting::lemma_ends_with_pop;
use crate::token::{ContentType, Token};
use crate::tokenizer::{
    advances, lemma_advances_from, reaches, run_model, went_some, Model, State, StateName, Tokenizer,
};

verus! {

/// Configuration.
///
/// You must pass the token types in that are used.
#[derive(Clone, Copy, Debug, PartialEq, Eq)]
pub struct Options {
    /// Token for the whole title.
    pub title: Token,
    /// Token for the marker.
    pub marker: Token,
    /// Token for the string inside the quotes.
    pub string: Token,
}

/// State needed to parse titles.
#[derive(Clone, Copy, Debug, PartialEq, Eq)]
pub struct Info {
    /// Whether we've seen data.
    pub connect: bool,
    /// Closing marker.
    pub marker: u8,
    /// Configuration.
    pub options: Options,
}

/// Whether `byte` can open a title.
pub open spec fn is_opener(byte: Option<u8>) -> bool {
    byte == Some(QUOTATION_MARK) || byte == Some(APOSTROPHE) || byte == Some(LEFT_PAREN)
}

/// Whether `byte` can close a title.
pub open spec fn is_closer(byte: Option<u8>) -> bool {
    byte == Some(QUOTATION_MARK) || byte == Some(APOSTROPHE) || byte == Some(RIGHT_PAREN)
}

/// The marker that closes a title opened by `byte`.
pub open spec fn closer_of(byte: u8) -> u8 {
    if byte == LEFT_PAREN {
        RIGHT_PAREN
    } else {
        byte
    }
}

/// Whether the cursor is at the marker that closes the title.
pub open spec fn at_closer(m: Model, info: Info) -> bool {
    is_closer(m.current()) && m.current() == Some(info.marker)
}

/// Whether the data of the title cannot go on at the cursor: at the end, at
/// a line ending, and at the closing marker.
pub open spec fn at_stop(m: Model, info: Info) -> bool {
    m.current() is None || m.current() == Some(LINE_FEED) || at_closer(m, info)
}

/// The string content of a title, tied or not to what came before.
pub open spec fn string_eol(info: Info) -> StateName {
    StateName::SpaceOrTabEolStart(
        EolOptions { content_type: Some(ContentType::String), connect: info.connect },
    )
}

/// `info` once something of the string was emitted.
pub open spec fn seen(info: Info) -> Info {
    Info { connect: true, ..info }
}

/// Before a title: an opening marker is taken as a span of its own inside
/// the title.
pub open spec fn start_model(m: Model, options: Options) -> (Model, State) {
    if is_opener(m.current()) {
        (
            m.enter(options.title).enter(options.marker).consume().exit(options.marker),
            State::Next(
                StateName::TitleBegin(
                    Info { connect: false, marker: closer_of(m.current().unwrap()), options },
                ),
            ),
        )
    } else {
        (m, State::Nok)
    }
}

/// After the opening marker, or at the closing one: the closing marker ends
/// the title; anything else opens the string.
pub open spec fn begin_model(m: Model, info: Info) -> (Model, State)
    decreases 2nat, m.steps_left(),
        if at_closer(m, info) {
            10nat
        } else {
            13nat
        },
{
    if at_closer(m, info) {
        (
            m.enter(info.options.marker).consume().exit(info.options.marker).exit(info.options.title),
            State::Okay,
        )
    } else {
        at_break_model(m.enter(info.options.string), info)
    }
}

/// In the string, between pieces: the end of the input fails the title; a
/// line ending is taken with the whitespace around it, and fails the title
/// if a blank line follows; the closing marker ends the string; anything
/// else opens data, tied to the piece before it if there was one.
pub open spec fn at_break_model(m: Model, info: Info) -> (Model, State)
    decreases 2nat, m.steps_left(),
        if at_stop(m, info) {
            11nat
        } else {
            2nat
        },
{
    if m.current() is None {
        (m, State::Nok)
    } else if m.current() == Some(LINE_FEED) {
        let (after, ok) = went_some(m, run_model(string_eol(info), m));
        if ok {
            at_break_model(after, seen(info))
        } else {
            (after, State::Nok)
        }
    } else if at_closer(m, info) {
        begin_model(m.exit(info.options.string), info)
    } else {
        let entered = m.enter_with_content(Token::Data, Some(ContentType::String));
        let tied = if info.connect {
            entered.link_last()
        } else {
            entered
        };
        title_model(tied, seen(info))
    }
}

/// In data: it ends where the string cannot go on; a backslash and any
/// other byte are taken.
pub open spec fn title_model(m: Model, info: Info) -> (Model, State)
    decreases 2nat, m.steps_left(),
        if at_stop(m, info) {
            12nat
        } else {
            1nat
        },
{
    if at_stop(m, info) {
        at_break_model(m.exit(Token::Data), info)
    } else if m.current() == Some(BACKSLASH) {
        (m.consume(), State::Next(StateName::TitleEscape(info)))
    } else {
        (m.consume(), State::Next(StateName::TitleInside(info)))
    }
}

/// After a backslash: a marker that could close a title is taken as data;
/// anything else is read as data in the usual way.
pub open spec fn escape_model(m: Model, info: Info) -> (Model, State)
    decreases 2nat, m.steps_left(), 20nat,
{
    if is_closer(m.current()) {
        (m.consume(), State::Next(StateName::TitleInside(info)))
    } else {
        title_model(m, info)
    }
}

/// Whether `byte` can close a title.
fn closer(byte: Option<u8>) -> (yes: bool)
    ensures
        yes == is_closer(byte),
{
    match byte {
        Some(byte) => byte == QUOTATION_MARK || byte == APOSTROPHE || byte == RIGHT_PAREN,
        None => false,
    }
}

/// Whether the tokenizer is at the marker that closes the title.
fn closing(tokenizer: &Tokenizer, info: &Info) -> (yes: bool)
    requires
        tokenizer.wf(),
    ensures
        yes == at_closer(tokenizer@, *info),
{
    match tokenizer.current {
        Some(byte) => closer(tokenizer.current) && byte == info.marker,
        None => false,
    }
}

/// Before a title.
///
/// ```markdown
/// > | "a"
///     ^
/// ```
pub fn start(tokenizer: &mut Tokenizer, options: Options) -> (state: State)
    requires
        old(tokenizer).wf(),
        StateName::TitleStart(options).pre(old(tokenizer)@),
    ensures
        final(tokenizer).wf(),
        (final(tokenizer)@, state) == start_model(old(tokenizer)@, options),
        advances(StateName::TitleStart(options), old(tokenizer)@, final(tokenizer)@, state),
{
    match tokenizer.current {
        Some(byte) => {
            if byte == QUOTATION_MARK || byte == APOSTROPHE || byte == LEFT_PAREN {
                let info = Info {
                    connect: false,
                    marker: if byte == LEFT_PAREN {
                        RIGHT_PAREN
                    } else {
                        byte
                    },
                    options,
                };
                tokenizer.enter(info.options.title);
                tokenizer.enter(info.options.marker);
                tokenizer.consume();
                tokenizer.exit(info.options.marker);
                State::Next(StateName::TitleBegin(info))
            } else {
                State::Nok
            }
        },
        None => State::Nok,
    }
}

/// After the opening marker.
///
/// This is also used when at the closing marker.
///
/// ```markdown
/// > | "a"
///      ^
/// ```
pub fn begin(tokenizer: &mut Tokenizer, info: Info) -> (state: State)
    requires
        old(tokenizer).wf(),
        StateName::TitleBegin(info).pre(old(tokenizer)@),
    ensures
        final(tokenizer).wf(),
        (final(tokenizer)@, state) == begin_model(old(tokenizer)@, info),
        advances(StateName::TitleBegin(info), old(tokenizer)@, final(tokenizer)@, state),
    decreases 2nat, old(tokenizer)@.steps_left(),
        if at_closer(old(tokenizer)@, info) {
            10nat
        } else {
            13nat
        },
{
    if closing(tokenizer, &info) {
        tokenizer.enter(info.options.marker);
        tokenizer.consume();
        tokenizer.exit(info.options.marker);
        tokenizer.exit(info.options.title);
        State::Okay
    } else {
        tokenizer.enter(info.options.string);
        let ghost mid = tokenizer@;
        proof {
            assert(reaches(StateName::TitleBegin(info), old(tokenizer)@, StateName::TitleAtBreak(info), mid));
        }
        let state = at_break(tokenizer, info);
        proof {
            lemma_advances_from(
                StateName::TitleBegin(info),
                old(tokenizer)@,
                StateName::TitleAtBreak(info),
                mid,
                tokenizer@,
                state,
            );
        }
        state
    }
}

/// At something, before something else.
///
/// ```markdown
/// > | "a"
///      ^
/// ```
pub fn at_break(tokenizer: &mut Tokenizer, info: Info) -> (state: State)
    requires
        old(tokenizer).wf(),
        StateName::TitleAtBreak(info).pre(old(tokenizer)@),
    ensures
        final(tokenizer).wf(),
        (final(tokenizer)@, state) == at_break_model(old(tokenizer)@, info),
        advances(StateName::TitleAtBreak(info), old(tokenizer)@, final(tokenizer)@, state),
    decreases 2nat, old(tokenizer)@.steps_left(),
        if at_stop(old(tokenizer)@, info) {
            11nat
        } else {
            2nat
        },
{
    match tokenizer.current {
        None => State::Nok,
        Some(byte) => {
            if byte == LINE_FEED {
                let options = EolOptions { content_type: Some(ContentType::String), connect: info.connect };
                if tokenizer.go(space_or_tab_eol_with_options(options)) {
                    let after = Info { connect: true, ..info };
                    let ghost mid = tokenizer@;
                    proof {
                        assert(reaches(
                            StateName::TitleAtBreak(info),
                            old(tokenizer)@,
                            StateName::TitleAtBreak(after),
                            mid,
                        ));
                    }
                    let state = at_break(tokenizer, after);
                    proof {
                        lemma_advances_from(
                            StateName::TitleAtBreak(info),
                            old(tokenizer)@,
                            StateName::TitleAtBreak(after),
                            mid,
                            tokenizer@,
                            state,
                        );
                    }
                    state
                } else {
                    State::Nok
                }
            } else if closing(tokenizer, &info) {
                proof {
                    lemma_ends_with_pop(old(tokenizer)@.stack(), StateName::TitleAtBreak(info).open());
                }
                tokenizer.exit(info.options.string);
                let ghost mid = tokenizer@;
                proof {
                    assert(reaches(
                        StateName::TitleAtBreak(info),
                        old(tokenizer)@,
                        StateName::TitleBegin(info),
                        mid,
                    ));
                }
                let state = begin(tokenizer, info);
                proof {
                    lemma_advances_from(
                        StateName::TitleAtBreak(info),
                        old(tokenizer)@,
                        StateName::TitleBegin(info),
                        mid,
                        tokenizer@,
                        state,
                    );
                }
                state
            } else {
                tokenizer.enter_with_content(Token::Data, Some(ContentType::String));
                if info.connect {
                    tokenizer.link_last();
                }
                let after = Info { connect: true, ..info };
                let ghost mid = tokenizer@;
                proof {
                    assert(reaches(
                        StateName::TitleAtBreak(info),
                        old(tokenizer)@,
                        StateName::TitleInside(after),
                        mid,
                    ));
                }
                let state = title(tokenizer, after);
                proof {
                    lemma_advances_from(
                        StateName::TitleAtBreak(info),
                        old(tokenizer)@,
                        StateName::TitleInside(after),
                        mid,
                        tokenizer@,
                        state,
                    );
                }
                state
            }
        },
    }
}

/// In title text.
///
/// ```markdown
/// > | "a"
///      ^
/// ```
pub fn title(tokenizer: &mut Tokenizer, info: Info) -> (state: State)
    requires
        old(tokenizer).wf(),
        StateName::TitleInside(info).pre(old(tokenizer)@),
    ensures
        final(tokenizer).wf(),
        (final(tokenizer)@, state) == title_model(old(tokenizer)@, info),
        advances(StateName::TitleInside(info), old(tokenizer)@, final(tokenizer)@, state),
    decreases 2nat, old(tokenizer)@.steps_left(),
        if at_stop(old(tokenizer)@, info) {
            12nat
        } else {
            1nat
        },
{
    let stop = match tokenizer.current {
        None => true,
        Some(byte) => byte == LINE_FEED || closing(tokenizer, &info),
    };
    if stop {
        proof {
            lemma_ends_with_pop(old(tokenizer)@.stack(), StateName::TitleInside(info).open());
        }
        tokenizer.exit(Token::Data);
        let ghost mid = tokenizer@;
        proof {
            assert(reaches(StateName::TitleInside(info), old(tokenizer)@, StateName::TitleAtBreak(info), mid));
        }
        let state = at_break(tokenizer, info);
        proof {
            lemma_advances_from(
                StateName::TitleInside(info),
                old(tokenizer)@,
                StateName::TitleAtBreak(info),
                mid,
                tokenizer@,
                state,
            );
        }
        state
    } else {
        let escaped = match tokenizer.current {
            Some(byte) => byte == BACKSLASH,
            None => false,
        };
        tokenizer.consume();
        if escaped {
            State::Next(StateName::TitleEscape(info))
        } else {
            State::Next(StateName::TitleInside(info))
        }
    }
}

/// After `\`, in title text.
///
/// ```markdown
/// > | "a\*b"
///      ^
/// ```
pub fn escape(tokenizer: &mut Tokenizer, info: Info) -> (state: State)
    requires
        old(tokenizer).wf(),
        StateName::TitleEscape(info).pre(old(tokenizer)@),
    ensures
        final(tokenizer).wf(),
        (final(tokenizer)@, state) == escape_model(old(tokenizer)@, info),
        advances(StateName::TitleEscape(info), old(tokenizer)@, final(tokenizer)@, state),
    decreases 2nat, old(tokenizer)@.steps_left(), 20nat,
{
    if closer(tokenizer.current) {
        tokenizer.consume();
        State::Next(StateName::TitleInside(info))
    } else {
        let state = title(tokenizer, info);
        proof {
            lemma_advances_from(
                StateName::TitleEscape(info),
                old(tokenizer)@,
                StateName::TitleInside(info),
                old(tokenizer)@,
                tokenizer@,
                state,
            );
        }
        state
    }
}

} // verus!
