//! A blank line: a line of nothing but spaces and tabs.
use vstd::prelude::*;
use crate::constant::LINE_FEED;
use crate::construct::partial_space_or_tab::{space_or_tab, space_or_tab_model};
use crate::tokenizer::{advances, attempted, run_model, Model, State, StateName, Tokenizer};

verus! {

/// Whether `byte` ends a line: a line feed, or the end of the input.
pub open spec fn is_eol(byte: Option<u8>) -> bool {
    byte is None || byte == Some(LINE_FEED)
}

/// Whether `byte` ends a line.
pub fn at_eol(byte: Option<u8>) -> (yes: bool)
    ensures
        yes == is_eol(byte),
{
    match byte {
        Some(byte) => byte == LINE_FEED,
        None => true,
    }
}

/// At the start of the line: whitespace is taken if there is any.
pub open spec fn start_model(m: Model) -> (Model, State)
    decreases 1nat, m.steps_left(), 3nat,
{
    after_model(attempted(m, run_model(space_or_tab_model(), m)).0)
}

/// After the whitespace: the line is blank if it ends here.
pub open spec fn after_model(m: Model) -> (Model, State) {
    (
        m,
        if is_eol(m.current()) {
            State::Okay
        } else {
            State::Nok
        },
    )
}

/// Start of a blank line.
pub fn start(tokenizer: &mut Tokenizer) -> (state: State)
    requires
        old(tokenizer).wf(),
        StateName::BlankLineStart.pre(old(tokenizer)@),
    ensures
        final(tokenizer).wf(),
        (final(tokenizer)@, state) == start_model(old(tokenizer)@),
        advances(StateName::BlankLineStart, old(tokenizer)@, final(tokenizer)@, state),
    decreases 1nat, old(tokenizer)@.steps_left(), 3nat,
{
    tokenizer.attempt(space_or_tab());
    after(tokenizer)
}

/// After the whitespace of a blank line.
pub fn after(tokenizer: &mut Tokenizer) -> (state: State)
    requires
        old(tokenizer).wf(),
        StateName::BlankLineAfter.pre(old(tokenizer)@),
    ensures
        final(tokenizer).wf(),
        (final(tokenizer)@, state) == after_model(old(tokenizer)@),
        advances(StateName::BlankLineAfter, old(tokenizer)@, final(tokenizer)@, state),
{
    if at_eol(tokenizer.current) {
        State::Okay
    } else {
        State::Nok
    }
}

} // verus!
