//! A thematic break: a line of three or more `*`, `-`, or `_`, with
//! optional whitespace between them.
use vstd::prelude::*;
use crate::constant::{ASTERISK, DASH, TAB_SIZE, THEMATIC_BREAK_MARKER_COUNT_MIN, UNDERSCORE};
use crate::construct::blank_line::{at_eol, is_eol};
use crate::construct::partial_space_or_tab::{
    space_or_tab, space_or_tab_min_max, space_or_tab_min_max_model, space_or_tab_model,
};
use crate::token::Token;
use crate::tokenizer::{
    advances, attempted_some, lemma_advances_from, reaches, run_model, went, Model, State, StateName,
    Tokenizer,
};

verus! {

/// Where a thematic break stands.
#[derive(Clone, Copy, Debug, PartialEq, Eq)]
pub struct Info {
    /// The marker of the break.
    pub marker: u8,
    /// The markers seen so far, counted up to the number that is needed.
    pub size: usize,
}

/// Whether `byte` is a marker of a thematic break.
pub open spec fn is_marker(byte: Option<u8>) -> bool {
    byte == Some(ASTERISK) || byte == Some(DASH) || byte == Some(UNDERSCORE)
}

/// The most columns of indent before the break.
pub open spec fn max_indent(m: Model) -> usize {
    if m.constructs.code_indented {
        (TAB_SIZE - 1) as usize
    } else {
        usize::MAX
    }
}

/// At the start: if the construct is turned on, the span is opened and the
/// indent is taken.
pub open spec fn start_model(m: Model) -> (Model, State)
    decreases 1nat, m.steps_left(), 10nat,
{
    if m.constructs.thematic_break {
        let entered = m.enter(Token::ThematicBreak);
        let (indented, ok) = went(
            entered,
            run_model(space_or_tab_min_max_model(0, max_indent(m)), entered),
        );
        if ok {
            before_model(indented)
        } else {
            (indented, State::Nok)
        }
    } else {
        (m, State::Nok)
    }
}

/// After the indent: a marker must follow.
pub open spec fn before_model(m: Model) -> (Model, State)
    decreases 1nat, m.steps_left(), 9nat,
{
    if is_marker(m.current()) {
        at_break_model(m, Info { marker: m.current().unwrap(), size: 0 })
    } else {
        (m, State::Nok)
    }
}

/// Between runs of markers: at the end of the line the break is done if it
/// has enough markers; at a marker a run starts.
pub open spec fn at_break_model(m: Model, info: Info) -> (Model, State)
    decreases 1nat, m.steps_left(),
        if m.current() == Some(info.marker) {
            8nat
        } else {
            6nat
        },
{
    if is_eol(m.current()) && info.size >= THEMATIC_BREAK_MARKER_COUNT_MIN {
        (Model { interrupt: false, ..m.exit(Token::ThematicBreak) }, State::Okay)
    } else if m.current() == Some(info.marker) {
        sequence_model(m.enter(Token::ThematicBreakSequence), info)
    } else {
        (m, State::Nok)
    }
}

/// In a run of markers: a marker is taken and counted; anything else ends
/// the run, after which whitespace is taken if there is any.
pub open spec fn sequence_model(m: Model, info: Info) -> (Model, State)
    decreases 1nat, m.steps_left(), 7nat,
{
    if m.current() == Some(info.marker) {
        (m.consume(), State::Next(StateName::ThematicBreakSequence(counted(info))))
    } else {
        let exited = m.exit(Token::ThematicBreakSequence);
        at_break_model(attempted_some(exited, run_model(space_or_tab_model(), exited)).0, info)
    }
}

/// `info` with one more marker.
pub open spec fn counted(info: Info) -> Info {
    if info.size < THEMATIC_BREAK_MARKER_COUNT_MIN {
        Info { size: (info.size + 1) as usize, ..info }
    } else {
        info
    }
}

/// Start of a thematic break.
///
/// ```markdown
/// > | ***
///     ^
/// ```
pub fn start(tokenizer: &mut Tokenizer) -> (state: State)
    requires
        old(tokenizer).wf(),
        StateName::ThematicBreakStart.pre(old(tokenizer)@),
    ensures
        final(tokenizer).wf(),
        (final(tokenizer)@, state) == start_model(old(tokenizer)@),
        advances(StateName::ThematicBreakStart, old(tokenizer)@, final(tokenizer)@, state),
    decreases 1nat, old(tokenizer)@.steps_left(), 10nat,
{
    let max = if tokenizer.parse_state.constructs.code_indented {
        TAB_SIZE - 1
    } else {
        usize::MAX
    };
    if tokenizer.parse_state.constructs.thematic_break {
        tokenizer.enter(Token::ThematicBreak);
        if tokenizer.go(space_or_tab_min_max(0, max)) {
            let ghost mid = tokenizer@;
            proof {
                assert(reaches(
                    StateName::ThematicBreakStart,
                    old(tokenizer)@,
                    StateName::ThematicBreakBefore,
                    mid,
                ));
            }
            let state = before(tokenizer);
            proof {
                lemma_advances_from(
                    StateName::ThematicBreakStart,
                    old(tokenizer)@,
                    StateName::ThematicBreakBefore,
                    mid,
                    tokenizer@,
                    state,
                );
            }
            state
        } else {
            State::Nok
        }
    } else {
        State::Nok
    }
}

/// After the indent of a thematic break, at the first marker.
pub fn before(tokenizer: &mut Tokenizer) -> (state: State)
    requires
        old(tokenizer).wf(),
        StateName::ThematicBreakBefore.pre(old(tokenizer)@),
    ensures
        final(tokenizer).wf(),
        (final(tokenizer)@, state) == before_model(old(tokenizer)@),
        advances(StateName::ThematicBreakBefore, old(tokenizer)@, final(tokenizer)@, state),
    decreases 1nat, old(tokenizer)@.steps_left(), 9nat,
{
    match tokenizer.current {
        Some(byte) => {
            if byte == ASTERISK || byte == DASH || byte == UNDERSCORE {
                let info = Info { marker: byte, size: 0 };
                let state = at_break(tokenizer, info);
                proof {
                    lemma_advances_from(
                        StateName::ThematicBreakBefore,
                        old(tokenizer)@,
                        StateName::ThematicBreakAtBreak(info),
                        old(tokenizer)@,
                        tokenizer@,
                        state,
                    );
                }
                state
            } else {
                State::Nok
            }
        },
        None => State::Nok,
    }
}

/// Between the runs of markers of a thematic break.
pub fn at_break(tokenizer: &mut Tokenizer, info: Info) -> (state: State)
    requires
        old(tokenizer).wf(),
        StateName::ThematicBreakAtBreak(info).pre(old(tokenizer)@),
    ensures
        final(tokenizer).wf(),
        (final(tokenizer)@, state) == at_break_model(old(tokenizer)@, info),
        advances(StateName::ThematicBreakAtBreak(info), old(tokenizer)@, final(tokenizer)@, state),
    decreases 1nat, old(tokenizer)@.steps_left(),
        if old(tokenizer)@.current() == Some(info.marker) {
            8nat
        } else {
            6nat
        },
{
    let at_marker = match tokenizer.current {
        Some(byte) => byte == info.marker,
        None => false,
    };
    if at_eol(tokenizer.current) && info.size >= THEMATIC_BREAK_MARKER_COUNT_MIN {
        tokenizer.exit(Token::ThematicBreak);
        tokenizer.interrupt = false;
        State::Okay
    } else if at_marker {
        tokenizer.enter(Token::ThematicBreakSequence);
        let ghost mid = tokenizer@;
        proof {
            assert(reaches(
                StateName::ThematicBreakAtBreak(info),
                old(tokenizer)@,
                StateName::ThematicBreakSequence(info),
                mid,
            ));
        }
        let state = sequence(tokenizer, info);
        proof {
            lemma_advances_from(
                StateName::ThematicBreakAtBreak(info),
                old(tokenizer)@,
                StateName::ThematicBreakSequence(info),
                mid,
                tokenizer@,
                state,
            );
        }
        state
    } else {
        State::Nok
    }
}

/// In a run of markers of a thematic break.
pub fn sequence(tokenizer: &mut Tokenizer, info: Info) -> (state: State)
    requires
        old(tokenizer).wf(),
        StateName::ThematicBreakSequence(info).pre(old(tokenizer)@),
    ensures
        final(tokenizer).wf(),
        (final(tokenizer)@, state) == sequence_model(old(tokenizer)@, info),
        advances(StateName::ThematicBreakSequence(info), old(tokenizer)@, final(tokenizer)@, state),
    decreases 1nat, old(tokenizer)@.steps_left(), 7nat,
{
    let at_marker = match tokenizer.current {
        Some(byte) => byte == info.marker,
        None => false,
    };
    if at_marker {
        tokenizer.consume();
        let size = if info.size < THEMATIC_BREAK_MARKER_COUNT_MIN {
            info.size + 1
        } else {
            info.size
        };
        State::Next(StateName::ThematicBreakSequence(Info { size, ..info }))
    } else {
        proof {
            crate::nesting::lemma_ends_with_pop(
                old(tokenizer)@.stack(),
                StateName::ThematicBreakSequence(info).open(),
            );
        }
        tokenizer.exit(Token::ThematicBreakSequence);
        tokenizer.attempt(space_or_tab());
        let ghost mid = tokenizer@;
        proof {
            assert(reaches(
                StateName::ThematicBreakSequence(info),
                old(tokenizer)@,
                StateName::ThematicBreakAtBreak(info),
                mid,
            ));
        }
        let state = at_break(tokenizer, info);
        proof {
            lemma_advances_from(
                StateName::ThematicBreakSequence(info),
                old(tokenizer)@,
                StateName::ThematicBreakAtBreak(info),
                mid,
                tokenizer@,
                state,
            );
        }
        state
    }
}

} // verus!
