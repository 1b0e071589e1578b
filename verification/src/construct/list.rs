//! List items, and the resolver that groups them into lists.
//!
//! ```bnf
//! ; Restriction: there must be `eol | space_or_tab` after the start.
//! ; Restriction: if the first line after the marker is not blank and starts
//! ; with `5( space_or_tab )`, only the first `space_or_tab` is part of the start.
//! list_item_start ::= '*' | '+' | '-' | 1*9( ascii_decimal ) ( '.' | ')' ) [ 1*4 space_or_tab ]
//! ; Restriction: blank line allowed, except when this is the first continuation after a blank start.
//! ; Restriction: if not blank, the line must be indented, exactly `n` times.
//! list_item_cont ::= [ n( space_or_tab ) ]
//! ```
use vstd::prelude::*;
use crate::constant::{
    ASTERISK, DASH, DIGIT_0, DIGIT_1, DIGIT_9, DOT, LIST_ITEM_VALUE_SIZE_MAX, PLUS, RIGHT_PAREN, TAB_SIZE,
};
use crate::construct::partial_space_or_tab::{
    at_space_or_tab, is_space_or_tab, space_or_tab_min_max, space_or_tab_min_max_model,
};
use crate::nesting::lemma_ends_with_pop;
use crate::token::{byte_at, Event, EventType, Token};
use crate::tokenizer::{
    advances, attempted, byte_under, lemma_advances_from, reaches, run_model, went, ContainerState, Model, Resolver,
    State, StateName, Tokenizer,
};
use crate::util::edit_map::{
    added, insertions, lemma_added_insertion, lemma_added_sorted, EditView,
};
use crate::util::skip;
use crate::util::slice::{size_of, Position, Slice};

verus! {

/// Type of list.
#[derive(Clone, Copy, Debug, PartialEq, Eq, Structural)]
pub enum Kind {
    /// In a dot (`.`) list item.
    Dot,
    /// In a paren (`)`) list item.
    Paren,
    /// In an asterisk (`*`) list item.
    Asterisk,
    /// In a plus (`+`) list item.
    Plus,
    /// In a dash (`-`) list item.
    Dash,
}

/// Whether `byte` is a marker of a list item.
pub open spec fn is_list_marker(byte: u8) -> bool {
    byte == DOT || byte == RIGHT_PAREN || byte == ASTERISK || byte == PLUS || byte == DASH
}

/// The kind of list that the marker `byte` makes.
pub open spec fn kind_of(byte: u8) -> Kind {
    if byte == DOT {
        Kind::Dot
    } else if byte == RIGHT_PAREN {
        Kind::Paren
    } else if byte == ASTERISK {
        Kind::Asterisk
    } else if byte == PLUS {
        Kind::Plus
    } else {
        Kind::Dash
    }
}

impl Kind {
    /// Turn a byte into a kind.  The byte must be `.`, `)`, `*`, `+`, or `-`.
    pub fn from_byte(byte: u8) -> (kind: Kind)
        requires
            is_list_marker(byte),
        ensures
            kind == kind_of(byte),
    {
        if byte == DOT {
            Kind::Dot
        } else if byte == RIGHT_PAREN {
            Kind::Paren
        } else if byte == ASTERISK {
            Kind::Asterisk
        } else if byte == PLUS {
            Kind::Plus
        } else {
            Kind::Dash
        }
    }
}

/// Whether `byte` is a marker of an unordered list item.
pub open spec fn is_unordered_marker(byte: Option<u8>) -> bool {
    byte == Some(ASTERISK) || byte == Some(PLUS) || byte == Some(DASH)
}

/// Whether `byte` is a marker of an ordered list item.
pub open spec fn is_ordered_marker(byte: Option<u8>) -> bool {
    byte == Some(DOT) || byte == Some(RIGHT_PAREN)
}

/// Whether `byte` is an ASCII digit.
pub open spec fn is_digit(byte: Option<u8>) -> bool {
    byte is Some && DIGIT_0 <= byte.unwrap() <= DIGIT_9
}

/// The most columns of indent before the marker.
pub open spec fn max_indent(m: Model) -> usize {
    if m.constructs.code_indented {
        (TAB_SIZE - 1) as usize
    } else {
        usize::MAX
    }
}

/// At the start: if lists are turned on, the item is opened and the indent
/// is taken.
pub open spec fn start_model(m: Model) -> (Model, State)
    decreases 2nat, m.steps_left(), 10nat,
{
    if m.constructs.list {
        let entered = m.enter(Token::ListItem);
        let (indented, ok) = went(
            entered,
            run_model(space_or_tab_min_max_model(0, max_indent(m)), entered),
        );
        if ok {
            before_model(indented)
        } else {
            (indented, State::Nok)
        }
    } else {
        (m, State::Nok)
    }
}

/// After the indent: `*`, `+`, or `-` starts an unordered item unless the
/// line is a thematic break; a digit starts an ordered one, but only `1`
/// may interrupt a paragraph.
pub open spec fn before_model(m: Model) -> (Model, State)
    decreases 2nat, m.steps_left(), 9nat,
{
    if is_unordered_marker(m.current()) {
        if run_model(StateName::ThematicBreakStart, m).1 is Okay {
            nok_model(m)
        } else {
            before_unordered_model(m)
        }
    } else if is_digit(m.current()) && (!m.interrupt || m.current() == Some(DIGIT_1)) {
        inside_model(m.enter(Token::ListItemPrefix).enter(Token::ListItemValue), 0)
    } else {
        (m, State::Nok)
    }
}

/// At the marker of an unordered item: the prefix is opened.
pub open spec fn before_unordered_model(m: Model) -> (Model, State) {
    marker_model(m.enter(Token::ListItemPrefix))
}

/// In the value, after `size` digits: a digit is taken while the value
/// stays short enough; `.` or `)` ends the value, but a value that
/// interrupts a paragraph may have one digit only.
pub open spec fn inside_model(m: Model, size: usize) -> (Model, State) {
    if is_digit(m.current()) && size + 1 < LIST_ITEM_VALUE_SIZE_MAX {
        (m.consume(), State::Next(StateName::ListInside((size + 1) as usize)))
    } else if is_ordered_marker(m.current()) && (!m.interrupt || size < 2) {
        marker_model(m.exit(Token::ListItemValue))
    } else {
        (m, State::Nok)
    }
}

/// At the marker: it is taken as a span of one byte.
pub open spec fn marker_model(m: Model) -> (Model, State) {
    (
        m.enter(Token::ListItemMarker).consume().exit(Token::ListItemMarker),
        State::Next(StateName::ListMarkerAfter),
    )
}

/// After the marker: the rest of the line is blank, or it is not.
pub open spec fn marker_after_model(m: Model) -> (Model, State)
    decreases 2nat, m.steps_left(), 4nat,
{
    if run_model(StateName::BlankLineStart, m).1 is Okay {
        after_model(m, true)
    } else {
        marker_after_not_blank_model(m)
    }
}

/// After the marker, before text: one to four columns of whitespace belong
/// to the prefix; with more, or none, see `prefix_other_model`.
pub open spec fn marker_after_not_blank_model(m: Model) -> (Model, State)
    decreases 2nat, m.steps_left(), 3nat,
{
    let (spaced, ok) = attempted(m, run_model(StateName::ListWhitespace, m));
    if ok {
        after_model(spaced, false)
    } else {
        prefix_other_model(spaced)
    }
}

/// One to `TAB_SIZE` columns of whitespace, not followed by more.
pub open spec fn whitespace_model(m: Model) -> (Model, State)
    decreases 1nat, m.steps_left(), 3nat,
{
    let (spaced, ok) = went(m, run_model(space_or_tab_min_max_model(1, TAB_SIZE), m));
    if ok {
        whitespace_after_model(spaced)
    } else {
        (spaced, State::Nok)
    }
}

/// After the whitespace: more whitespace means that it was too much.
pub open spec fn whitespace_after_model(m: Model) -> (Model, State) {
    (
        m,
        if is_space_or_tab(m.current()) {
            State::Nok
        } else {
            State::Okay
        },
    )
}

/// After a marker that is followed by no whitespace or by more than four
/// columns of it: one column belongs to the prefix; without whitespace this
/// is no list item.
pub open spec fn prefix_other_model(m: Model) -> (Model, State) {
    if is_space_or_tab(m.current()) {
        (
            m.enter(Token::SpaceOrTab).consume().exit(Token::SpaceOrTab),
            State::Next(StateName::ListAfter(false)),
        )
    } else {
        (m, State::Nok)
    }
}

/// The index of the event that opened the list item that is being read.
pub open spec fn item_start(m: Model) -> int {
    skip::to_back_model(m.events, m.events.len() - 1, seq![Token::ListItem])
}

/// The size of the prefix of the list item that is being read: from the
/// start of the item to the cursor, and one more if the first line is blank.
pub open spec fn prefix_size(m: Model, blank: bool) -> int {
    size_of(Position { start: m.events[item_start(m)].point, end: m.point }) + if blank {
        1int
    } else {
        0int
    }
}

/// After the prefix: a blank first line may not interrupt a paragraph;
/// else the size of the prefix and whether the first line is blank are
/// noted, the prefix is closed, and the resolver for lists is registered.
pub open spec fn after_model(m: Model, blank: bool) -> (Model, State) {
    if blank && m.interrupt {
        (m, State::Nok)
    } else {
        let noted = Model {
            container: Some(ContainerState { blank_initial: blank, size: prefix_size(m, blank) as usize }),
            ..m
        };
        (noted.exit(Token::ListItemPrefix).register_resolver(Resolver::ListItem), State::Okay)
    }
}

/// At the start of a line in an open item: the line is blank, or it is not.
pub open spec fn cont_model(m: Model) -> (Model, State)
    decreases 2nat, m.steps_left(), 5nat,
{
    if run_model(StateName::BlankLineStart, m).1 is Okay {
        blank_cont_model(m)
    } else {
        not_blank_cont_model(m)
    }
}

/// A blank line continues the item, with up to the size of the prefix in
/// whitespace, unless the first line of the item was blank too.
pub open spec fn blank_cont_model(m: Model) -> (Model, State)
    decreases 2nat, m.steps_left(), 4nat,
{
    let container = m.container.unwrap();
    if container.blank_initial {
        (m, State::Nok)
    } else {
        let (indented, ok) = went(m, run_model(space_or_tab_min_max_model(0, container.size), m));
        if ok {
            ok_model(indented)
        } else {
            (indented, State::Nok)
        }
    }
}

/// A line with text continues the item if it is indented by exactly the
/// size of the prefix; the item no longer counts as starting blank.
pub open spec fn not_blank_cont_model(m: Model) -> (Model, State)
    decreases 2nat, m.steps_left(), 4nat,
{
    let container = m.container.unwrap();
    let noted = Model { container: Some(ContainerState { blank_initial: false, ..container }), ..m };
    let (indented, ok) = went(
        noted,
        run_model(space_or_tab_min_max_model(container.size, container.size), noted),
    );
    if ok {
        ok_model(indented)
    } else {
        (indented, State::Nok)
    }
}

/// A place that matches.
pub open spec fn ok_model(m: Model) -> (Model, State) {
    (m, State::Okay)
}

/// A place that does not match.
pub open spec fn nok_model(m: Model) -> (Model, State) {
    (m, State::Nok)
}

/// Whether `byte` is an ASCII digit.
fn at_digit(byte: Option<u8>) -> (yes: bool)
    ensures
        yes == is_digit(byte),
{
    match byte {
        Some(byte) => DIGIT_0 <= byte && byte <= DIGIT_9,
        None => false,
    }
}

/// Whether `byte` is `wanted`.
fn at_byte(byte: Option<u8>, wanted: u8) -> (yes: bool)
    ensures
        yes == (byte == Some(wanted)),
{
    match byte {
        Some(byte) => byte == wanted,
        None => false,
    }
}

/// Start of list item.
///
/// ```markdown
/// > | * a
///     ^
/// ```
pub fn start(tokenizer: &mut Tokenizer) -> (state: State)
    requires
        old(tokenizer).wf(),
        StateName::ListStart.pre(old(tokenizer)@),
    ensures
        final(tokenizer).wf(),
        (final(tokenizer)@, state) == start_model(old(tokenizer)@),
        advances(StateName::ListStart, old(tokenizer)@, final(tokenizer)@, state),
    decreases 2nat, old(tokenizer)@.steps_left(), 10nat,
{
    let max = if tokenizer.parse_state.constructs.code_indented {
        TAB_SIZE - 1
    } else {
        usize::MAX
    };
    if tokenizer.parse_state.constructs.list {
        tokenizer.enter(Token::ListItem);
        if tokenizer.go(space_or_tab_min_max(0, max)) {
            let ghost mid = tokenizer@;
            proof {
                assert(reaches(StateName::ListStart, old(tokenizer)@, StateName::ListBefore, mid));
            }
            let state = before(tokenizer);
            proof {
                lemma_advances_from(
                    StateName::ListStart,
                    old(tokenizer)@,
                    StateName::ListBefore,
                    mid,
                    tokenizer@,
                    state,
                );
            }
            state
        } else {
            State::Nok
        }
    } else {
        State::Nok
    }
}

/// Start of list item, after whitespace.
///
/// ```markdown
/// > | * a
///     ^
/// ```
pub fn before(tokenizer: &mut Tokenizer) -> (state: State)
    requires
        old(tokenizer).wf(),
        StateName::ListBefore.pre(old(tokenizer)@),
    ensures
        final(tokenizer).wf(),
        (final(tokenizer)@, state) == before_model(old(tokenizer)@),
        advances(StateName::ListBefore, old(tokenizer)@, final(tokenizer)@, state),
    decreases 2nat, old(tokenizer)@.steps_left(), 9nat,
{
    let current = tokenizer.current;
    if at_byte(current, ASTERISK) || at_byte(current, PLUS) || at_byte(current, DASH) {
        // Unordered.
        if tokenizer.check(StateName::ThematicBreakStart) {
            nok(tokenizer)
        } else {
            let state = before_unordered(tokenizer);
            proof {
                lemma_advances_from(
                    StateName::ListBefore,
                    old(tokenizer)@,
                    StateName::ListBeforeUnordered,
                    old(tokenizer)@,
                    tokenizer@,
                    state,
                );
            }
            state
        }
    } else if at_digit(current) && (!tokenizer.interrupt || at_byte(current, DIGIT_1)) {
        // Ordered.
        tokenizer.enter(Token::ListItemPrefix);
        tokenizer.enter(Token::ListItemValue);
        let ghost mid = tokenizer@;
        proof {
            assert(reaches(StateName::ListBefore, old(tokenizer)@, StateName::ListInside(0), mid));
        }
        let state = inside(tokenizer, 0);
        proof {
            lemma_advances_from(
                StateName::ListBefore,
                old(tokenizer)@,
                StateName::ListInside(0),
                mid,
                tokenizer@,
                state,
            );
        }
        state
    } else {
        State::Nok
    }
}

/// Start of an unordered list item.
///
/// The line is not a thematic break.
///
/// ```markdown
/// > | * a
///     ^
/// ```
pub fn before_unordered(tokenizer: &mut Tokenizer) -> (state: State)
    requires
        old(tokenizer).wf(),
        StateName::ListBeforeUnordered.pre(old(tokenizer)@),
    ensures
        final(tokenizer).wf(),
        (final(tokenizer)@, state) == before_unordered_model(old(tokenizer)@),
        advances(StateName::ListBeforeUnordered, old(tokenizer)@, final(tokenizer)@, state),
{
    tokenizer.enter(Token::ListItemPrefix);
    let ghost mid = tokenizer@;
    proof {
        assert(reaches(StateName::ListBeforeUnordered, old(tokenizer)@, StateName::ListMarker, mid));
    }
    let state = marker(tokenizer);
    proof {
        lemma_advances_from(
            StateName::ListBeforeUnordered,
            old(tokenizer)@,
            StateName::ListMarker,
            mid,
            tokenizer@,
            state,
        );
    }
    state
}

/// In an ordered list item value.
///
/// ```markdown
/// > | 1. a
///     ^
/// ```
pub fn inside(tokenizer: &mut Tokenizer, size: usize) -> (state: State)
    requires
        old(tokenizer).wf(),
        StateName::ListInside(size).pre(old(tokenizer)@),
    ensures
        final(tokenizer).wf(),
        (final(tokenizer)@, state) == inside_model(old(tokenizer)@, size),
        advances(StateName::ListInside(size), old(tokenizer)@, final(tokenizer)@, state),
{
    let current = tokenizer.current;
    if at_digit(current) && size + 1 < LIST_ITEM_VALUE_SIZE_MAX {
        tokenizer.consume();
        State::Next(StateName::ListInside(size + 1))
    } else if (at_byte(current, DOT) || at_byte(current, RIGHT_PAREN)) && (!tokenizer.interrupt || size
        < 2) {
        proof {
            lemma_ends_with_pop(old(tokenizer)@.stack(), StateName::ListInside(size).open());
        }
        tokenizer.exit(Token::ListItemValue);
        let ghost mid = tokenizer@;
        proof {
            assert(reaches(StateName::ListInside(size), old(tokenizer)@, StateName::ListMarker, mid));
        }
        let state = marker(tokenizer);
        proof {
            lemma_advances_from(
                StateName::ListInside(size),
                old(tokenizer)@,
                StateName::ListMarker,
                mid,
                tokenizer@,
                state,
            );
        }
        state
    } else {
        State::Nok
    }
}

/// At a list item marker.
///
/// ```markdown
/// > | * a
///     ^
/// > | 1. b
///      ^
/// ```
pub fn marker(tokenizer: &mut Tokenizer) -> (state: State)
    requires
        old(tokenizer).wf(),
        StateName::ListMarker.pre(old(tokenizer)@),
    ensures
        final(tokenizer).wf(),
        (final(tokenizer)@, state) == marker_model(old(tokenizer)@),
        advances(StateName::ListMarker, old(tokenizer)@, final(tokenizer)@, state),
{
    tokenizer.enter(Token::ListItemMarker);
    tokenizer.consume();
    tokenizer.exit(Token::ListItemMarker);
    State::Next(StateName::ListMarkerAfter)
}

/// After a list item marker.
///
/// ```markdown
/// > | * a
///      ^
/// > | 1. b
///       ^
/// ```
pub fn marker_after(tokenizer: &mut Tokenizer) -> (state: State)
    requires
        old(tokenizer).wf(),
        StateName::ListMarkerAfter.pre(old(tokenizer)@),
    ensures
        final(tokenizer).wf(),
        (final(tokenizer)@, state) == marker_after_model(old(tokenizer)@),
        advances(StateName::ListMarkerAfter, old(tokenizer)@, final(tokenizer)@, state),
    decreases 2nat, old(tokenizer)@.steps_left(), 4nat,
{
    if tokenizer.check(StateName::BlankLineStart) {
        let state = after(tokenizer, true);
        proof {
            lemma_advances_from(
                StateName::ListMarkerAfter,
                old(tokenizer)@,
                StateName::ListAfter(true),
                old(tokenizer)@,
                tokenizer@,
                state,
            );
        }
        state
    } else {
        let state = marker_after_not_blank(tokenizer);
        proof {
            lemma_advances_from(
                StateName::ListMarkerAfter,
                old(tokenizer)@,
                StateName::ListMarkerAfterNotBlank,
                old(tokenizer)@,
                tokenizer@,
                state,
            );
        }
        state
    }
}

/// After a list item marker, not followed by a blank line.
///
/// ```markdown
/// > | * a
///      ^
/// ```
pub fn marker_after_not_blank(tokenizer: &mut Tokenizer) -> (state: State)
    requires
        old(tokenizer).wf(),
        StateName::ListMarkerAfterNotBlank.pre(old(tokenizer)@),
    ensures
        final(tokenizer).wf(),
        (final(tokenizer)@, state) == marker_after_not_blank_model(old(tokenizer)@),
        advances(StateName::ListMarkerAfterNotBlank, old(tokenizer)@, final(tokenizer)@, state),
    decreases 2nat, old(tokenizer)@.steps_left(), 3nat,
{
    // Attempt to parse up to the largest allowed indent, `nok` if there is more whitespace.
    if tokenizer.attempt(StateName::ListWhitespace) {
        let ghost mid = tokenizer@;
        proof {
            assert(reaches(
                StateName::ListMarkerAfterNotBlank,
                old(tokenizer)@,
                StateName::ListAfter(false),
                mid,
            ));
        }
        let state = after(tokenizer, false);
        proof {
            lemma_advances_from(
                StateName::ListMarkerAfterNotBlank,
                old(tokenizer)@,
                StateName::ListAfter(false),
                mid,
                tokenizer@,
                state,
            );
        }
        state
    } else {
        let state = prefix_other(tokenizer);
        proof {
            lemma_advances_from(
                StateName::ListMarkerAfterNotBlank,
                old(tokenizer)@,
                StateName::ListPrefixOther,
                old(tokenizer)@,
                tokenizer@,
                state,
            );
        }
        state
    }
}

/// In whitespace after a marker.
///
/// ```markdown
/// > | * a
///      ^
/// ```
pub fn whitespace(tokenizer: &mut Tokenizer) -> (state: State)
    requires
        old(tokenizer).wf(),
        StateName::ListWhitespace.pre(old(tokenizer)@),
    ensures
        final(tokenizer).wf(),
        (final(tokenizer)@, state) == whitespace_model(old(tokenizer)@),
        advances(StateName::ListWhitespace, old(tokenizer)@, final(tokenizer)@, state),
    decreases 1nat, old(tokenizer)@.steps_left(), 3nat,
{
    if tokenizer.go(space_or_tab_min_max(1, TAB_SIZE)) {
        let ghost mid = tokenizer@;
        proof {
            assert(reaches(StateName::ListWhitespace, old(tokenizer)@, StateName::ListWhitespaceAfter, mid));
        }
        let state = whitespace_after(tokenizer);
        proof {
            lemma_advances_from(
                StateName::ListWhitespace,
                old(tokenizer)@,
                StateName::ListWhitespaceAfter,
                mid,
                tokenizer@,
                state,
            );
        }
        state
    } else {
        State::Nok
    }
}

/// After acceptable whitespace.
///
/// ```markdown
/// > | * a
///      ^
/// ```
pub fn whitespace_after(tokenizer: &mut Tokenizer) -> (state: State)
    requires
        old(tokenizer).wf(),
        StateName::ListWhitespaceAfter.pre(old(tokenizer)@),
    ensures
        final(tokenizer).wf(),
        (final(tokenizer)@, state) == whitespace_after_model(old(tokenizer)@),
        advances(StateName::ListWhitespaceAfter, old(tokenizer)@, final(tokenizer)@, state),
{
    if at_space_or_tab(tokenizer.current) {
        State::Nok
    } else {
        State::Okay
    }
}

/// After a list item marker, followed by no indent or more indent that needed.
///
/// ```markdown
/// > | * a
///      ^
/// ```
pub fn prefix_other(tokenizer: &mut Tokenizer) -> (state: State)
    requires
        old(tokenizer).wf(),
        StateName::ListPrefixOther.pre(old(tokenizer)@),
    ensures
        final(tokenizer).wf(),
        (final(tokenizer)@, state) == prefix_other_model(old(tokenizer)@),
        advances(StateName::ListPrefixOther, old(tokenizer)@, final(tokenizer)@, state),
{
    if at_space_or_tab(tokenizer.current) {
        tokenizer.enter(Token::SpaceOrTab);
        tokenizer.consume();
        tokenizer.exit(Token::SpaceOrTab);
        State::Next(StateName::ListAfter(false))
    } else {
        State::Nok
    }
}

/// After a list item prefix.
///
/// ```markdown
/// > | * a
///       ^
/// ```
pub fn after(tokenizer: &mut Tokenizer, blank: bool) -> (state: State)
    requires
        old(tokenizer).wf(),
        StateName::ListAfter(blank).pre(old(tokenizer)@),
    ensures
        final(tokenizer).wf(),
        (final(tokenizer)@, state) == after_model(old(tokenizer)@, blank),
        advances(StateName::ListAfter(blank), old(tokenizer)@, final(tokenizer)@, state),
{
    if blank && tokenizer.interrupt {
        State::Nok
    } else {
        let types = [Token::ListItem];
        let start = skip::to_back(&tokenizer.events, tokenizer.events.len() - 1, types.as_slice());
        assert(types@ == seq![Token::ListItem]);
        let position = Position { start: tokenizer.events[start].point, end: tokenizer.point };
        let mut prefix = Slice::from_position(tokenizer.parse_state.bytes.as_slice(), &position).size();
        if blank {
            prefix += 1;
        }
        tokenizer.container = Some(ContainerState { blank_initial: blank, size: prefix });
        proof {
            lemma_ends_with_pop(old(tokenizer)@.stack(), StateName::ListAfter(blank).open());
        }
        tokenizer.exit(Token::ListItemPrefix);
        tokenizer.register_resolver_before(Resolver::ListItem);
        State::Okay
    }
}

/// Start of list item continuation.
///
/// ```markdown
///   | * a
/// > |   b
///     ^
/// ```
pub fn cont(tokenizer: &mut Tokenizer) -> (state: State)
    requires
        old(tokenizer).wf(),
        StateName::ListCont.pre(old(tokenizer)@),
    ensures
        final(tokenizer).wf(),
        (final(tokenizer)@, state) == cont_model(old(tokenizer)@),
        advances(StateName::ListCont, old(tokenizer)@, final(tokenizer)@, state),
    decreases 2nat, old(tokenizer)@.steps_left(), 5nat,
{
    if tokenizer.check(StateName::BlankLineStart) {
        let state = blank_cont(tokenizer);
        proof {
            lemma_advances_from(
                StateName::ListCont,
                old(tokenizer)@,
                StateName::ListBlankCont,
                old(tokenizer)@,
                tokenizer@,
                state,
            );
        }
        state
    } else {
        let state = not_blank_cont(tokenizer);
        proof {
            lemma_advances_from(
                StateName::ListCont,
                old(tokenizer)@,
                StateName::ListNotBlankCont,
                old(tokenizer)@,
                tokenizer@,
                state,
            );
        }
        state
    }
}

/// Start of blank list item continuation.
///
/// ```markdown
///   | * a
/// > |
///     ^
///   |   b
/// ```
pub fn blank_cont(tokenizer: &mut Tokenizer) -> (state: State)
    requires
        old(tokenizer).wf(),
        StateName::ListBlankCont.pre(old(tokenizer)@),
    ensures
        final(tokenizer).wf(),
        (final(tokenizer)@, state) == blank_cont_model(old(tokenizer)@),
        advances(StateName::ListBlankCont, old(tokenizer)@, final(tokenizer)@, state),
    decreases 2nat, old(tokenizer)@.steps_left(), 4nat,
{
    match tokenizer.container {
        Some(container) => {
            if container.blank_initial {
                State::Nok
            } else {
                // Consume, optionally, at most `size`.
                if tokenizer.go(space_or_tab_min_max(0, container.size)) {
                    let ghost mid = tokenizer@;
                    let state = ok(tokenizer);
                    proof {
                        lemma_advances_from(
                            StateName::ListBlankCont,
                            old(tokenizer)@,
                            StateName::ListOk,
                            mid,
                            tokenizer@,
                            state,
                        );
                    }
                    state
                } else {
                    State::Nok
                }
            }
        },
        None => State::Nok,
    }
}

/// Start of non-blank list item continuation.
///
/// ```markdown
///   | * a
/// > |   b
///     ^
/// ```
pub fn not_blank_cont(tokenizer: &mut Tokenizer) -> (state: State)
    requires
        old(tokenizer).wf(),
        StateName::ListNotBlankCont.pre(old(tokenizer)@),
    ensures
        final(tokenizer).wf(),
        (final(tokenizer)@, state) == not_blank_cont_model(old(tokenizer)@),
        advances(StateName::ListNotBlankCont, old(tokenizer)@, final(tokenizer)@, state),
    decreases 2nat, old(tokenizer)@.steps_left(), 4nat,
{
    match tokenizer.container {
        Some(container) => {
            tokenizer.container = Some(ContainerState { blank_initial: false, ..container });
            // Consume exactly `size`.
            if tokenizer.go(space_or_tab_min_max(container.size, container.size)) {
                let ghost mid = tokenizer@;
                let state = ok(tokenizer);
                proof {
                    lemma_advances_from(
                        StateName::ListNotBlankCont,
                        old(tokenizer)@,
                        StateName::ListOk,
                        mid,
                        tokenizer@,
                        state,
                    );
                }
                state
            } else {
                State::Nok
            }
        },
        None => State::Nok,
    }
}

/// A state fn to yield [`State::Okay`].
pub fn ok(tokenizer: &mut Tokenizer) -> (state: State)
    requires
        old(tokenizer).wf(),
    ensures
        final(tokenizer).wf(),
        (final(tokenizer)@, state) == ok_model(old(tokenizer)@),
        advances(StateName::ListOk, old(tokenizer)@, final(tokenizer)@, state),
{
    State::Okay
}

/// A state fn to yield [`State::Nok`].
pub fn nok(tokenizer: &mut Tokenizer) -> (state: State)
    requires
        old(tokenizer).wf(),
    ensures
        final(tokenizer).wf(),
        (final(tokenizer)@, state) == nok_model(old(tokenizer)@),
        advances(StateName::ListNok, old(tokenizer)@, final(tokenizer)@, state),
{
    State::Nok
}

/// A run of adjacent list items with the same marker, at the same depth.
#[derive(Clone, Copy, Debug, PartialEq, Eq)]
pub struct Group {
    /// The kind of marker of the items.
    pub kind: Kind,
    /// How many list items are open around the items.
    pub balance: usize,
    /// The index of the enter event of the first item.
    pub start: usize,
    /// The index of the exit event of the last item.
    pub end: usize,
}

/// The names of the spans that may lie between two items of one list.
pub open spec fn between_items() -> Seq<Token> {
    seq![Token::SpaceOrTab, Token::LineEnding, Token::BlankLineEnding, Token::BlockQuotePrefix]
}

/// Whether the event at `index` opens a list item.
pub open spec fn is_item(events: Seq<Event>, index: int) -> bool {
    events[index].token_type == Token::ListItem && events[index].event_type == EventType::Enter
}

/// The index of the exit event of the item that opens at `index`.
pub open spec fn item_end(events: Seq<Event>, index: int) -> int {
    skip::span_end(events, index + 1, 1)
}

/// The index of the marker of the item that opens at `index`.
pub open spec fn item_marker(events: Seq<Event>, index: int) -> int {
    skip::to_model(events, index, seq![Token::ListItemMarker])
}

/// Whether the item that opens at `index` is closed and has a marker that
/// starts at a marker byte.
pub open spec fn item_ok(events: Seq<Event>, bytes: Seq<u8>, index: int) -> bool {
    &&& item_end(events, index) < events.len()
    &&& item_marker(events, index) < events.len()
    &&& events[item_marker(events, index)].point.index <= bytes.len()
    &&& byte_at(bytes, events[item_marker(events, index)].point) is Some
    &&& is_list_marker(byte_at(bytes, events[item_marker(events, index)].point).unwrap())
}

/// Whether every list item in `events` is closed and has a marker.
pub open spec fn resolvable(events: Seq<Event>, bytes: Seq<u8>) -> bool {
    forall|index: int| 0 <= index < events.len() && is_item(events, index) ==> item_ok(events, bytes, index)
}

/// The item that opens at `index` as a group of its own, `balance` items deep.
pub open spec fn item_group(events: Seq<Event>, bytes: Seq<u8>, index: int, balance: usize) -> Group {
    Group {
        kind: kind_of(byte_at(bytes, events[item_marker(events, index)].point).unwrap()),
        balance,
        start: index as usize,
        end: item_end(events, index) as usize,
    }
}

/// Whether the item `current` goes on the list `group`: the marker and the
/// depth are the same, and only whitespace, line endings and block quote
/// prefixes lie between the end of the list and the start of the item.
pub open spec fn joins(events: Seq<Event>, group: Group, current: Group) -> bool {
    &&& group.kind == current.kind
    &&& group.balance == current.balance
    &&& skip::opt_model(events, group.end + 1, between_items()) == current.start
}

/// The index of the topmost of the first `from` open lists that `current`
/// goes on, or -1 if it goes on none.
pub open spec fn matching(events: Seq<Event>, wip: Seq<Group>, current: Group, from: int) -> int
    decreases from,
{
    if from <= 0 {
        -1
    } else if joins(events, wip[from - 1], current) {
        from - 1
    } else {
        matching(events, wip, current, from - 1)
    }
}

/// The index from which on the first `from` open lists all end before
/// `current` starts.
pub open spec fn closed_from(wip: Seq<Group>, current: Group, from: int) -> int
    decreases from,
{
    if from <= 0 {
        0
    } else if current.start > wip[from - 1].end {
        closed_from(wip, current, from - 1)
    } else {
        from
    }
}

/// The open and the finished lists after the item `current` was seen.
///
/// If the item goes on an open list, that list now ends with the item, and
/// the lists opened after it are finished.  Else the lists at the top that
/// end before the item are finished, and the item opens a list.
pub open spec fn with_item(events: Seq<Event>, wip: Seq<Group>, lists: Seq<Group>, current: Group) -> (
    Seq<Group>,
    Seq<Group>,
) {
    let at = matching(events, wip, current, wip.len() as int);
    if at >= 0 {
        (wip.take(at).push(Group { end: current.end, ..wip[at] }), lists + wip.skip(at + 1))
    } else {
        let exit = closed_from(wip, current, wip.len() as int);
        (wip.take(exit).push(current), lists + wip.skip(exit))
    }
}

/// The lists found in `events` from `index` on, given the depth and the
/// open and finished lists so far.
pub open spec fn scan(
    events: Seq<Event>,
    bytes: Seq<u8>,
    index: int,
    balance: usize,
    wip: Seq<Group>,
    lists: Seq<Group>,
) -> Seq<Group>
    decreases events.len() - index,
{
    if index < 0 || index >= events.len() {
        lists + wip
    } else if is_item(events, index) {
        let (wip, lists) = with_item(events, wip, lists, item_group(events, bytes, index, balance));
        scan(events, bytes, index + 1, (balance + 1) as usize, wip, lists)
    } else if events[index].token_type == Token::ListItem && balance > 0 {
        scan(events, bytes, index + 1, (balance - 1) as usize, wip, lists)
    } else {
        scan(events, bytes, index + 1, balance, wip, lists)
    }
}

/// The lists in `events`, in the order in which they are finished.
pub open spec fn list_groups(events: Seq<Event>, bytes: Seq<u8>) -> Seq<Group> {
    scan(events, bytes, 0, 0, Seq::empty(), Seq::empty())
}

/// The name of a list of items of `kind`.
pub open spec fn list_token(kind: Kind) -> Token {
    if kind == Kind::Paren || kind == Kind::Dot {
        Token::ListOrdered
    } else {
        Token::ListUnordered
    }
}

/// `edits` with the two edits for `group`: the enter event of its first
/// item, renamed to the list, is put in before that event; the exit event of
/// its last item, renamed likewise, is put in after that event.
pub open spec fn with_group(events: Seq<Event>, edits: Seq<EditView>, group: Group) -> Seq<EditView> {
    let token_type = list_token(group.kind);
    added(
        added(edits, group.start, 0, seq![Event { token_type, ..events[group.start as int] }]),
        (group.end + 1) as usize,
        0,
        seq![Event { token_type, ..events[group.end as int] }],
    )
}

/// `edits` with the edits for `groups` from the `k`-th on, in order.
pub open spec fn with_groups(events: Seq<Event>, edits: Seq<EditView>, groups: Seq<Group>, k: int) -> Seq<
    EditView,
>
    decreases groups.len() - k,
{
    if 0 <= k < groups.len() {
        with_groups(events, with_group(events, edits, groups[k]), groups, k + 1)
    } else {
        edits
    }
}

/// The edits that resolving list items adds to those of `m`.
pub open spec fn resolved_edits(m: Model) -> Seq<EditView> {
    with_groups(m.events, m.edits, list_groups(m.events, m.bytes), 0)
}

/// Whether every group of `groups` starts and ends in a log of `len` events.
pub open spec fn in_range(groups: Seq<Group>, len: nat) -> bool {
    forall|i: int| 0 <= i < groups.len() ==> (#[trigger] groups[i]).start < len && groups[i].end < len
}

/// The index of the topmost open list that `current` goes on.
fn find_match(events: &Vec<Event>, wip: &Vec<Group>, current: &Group) -> (found: Option<usize>)
    requires
        in_range(wip@, events@.len()),
    ensures
        matching(events@, wip@, *current, wip@.len() as int) == match found {
            Some(at) => at as int,
            None => -1,
        },
        found is Some ==> found.unwrap() < wip@.len(),
{
    let between = [Token::SpaceOrTab, Token::LineEnding, Token::BlankLineEnding, Token::BlockQuotePrefix];
    assert(between@ =~= between_items());
    let mut list_index: usize = wip.len();
    let total = events.len();
    while list_index > 0
        invariant
            list_index <= wip.len(),
            total == events@.len(),
            in_range(wip@, events@.len()),
            between@ == between_items(),
            matching(events@, wip@, *current, list_index as int) == matching(
                events@,
                wip@,
                *current,
                wip@.len() as int,
            ),
        decreases list_index,
    {
        list_index -= 1;
        let previous = wip[list_index];
        assert(wip@[list_index as int].end < events@.len());
        let before = skip::opt(events, previous.end + 1, between.as_slice());
        if previous.kind == current.kind && previous.balance == current.balance && before == current.start {
            return Some(list_index);
        }
    }
    None
}

/// The index from which on the open lists all end before `current` starts.
fn find_exit(wip: &Vec<Group>, current: &Group) -> (exit: usize)
    ensures
        exit == closed_from(wip@, *current, wip@.len() as int),
        exit <= wip@.len(),
{
    let mut index: usize = wip.len();
    while index > 0
        invariant
            index <= wip.len(),
            closed_from(wip@, *current, index as int) == closed_from(wip@, *current, wip@.len() as int),
        decreases index,
    {
        // If the current (new) item starts after where this item on the
        // stack ends, we can remove it from the stack.
        if current.start > wip[index - 1].end {
            index -= 1;
        } else {
            return index;
        }
    }
    index
}

/// Find adjacent list items with the same marker.
pub fn resolve_list_item(tokenizer: &mut Tokenizer)
    requires
        old(tokenizer).wf(),
        old(tokenizer).events.len() < usize::MAX,
        resolvable(old(tokenizer)@.events, old(tokenizer)@.bytes),
    ensures
        final(tokenizer).wf(),
        final(tokenizer)@ == (Model { edits: resolved_edits(old(tokenizer)@), ..old(tokenizer)@ }),
        insertions(old(tokenizer)@.edits, old(tokenizer)@.events.len()) ==> insertions(
            final(tokenizer)@.edits,
            old(tokenizer)@.events.len(),
        ),
{
    let mut index: usize = 0;
    let mut balance: usize = 0;
    let mut lists_wip: Vec<Group> = Vec::new();
    let mut lists: Vec<Group> = Vec::new();
    let markers = [Token::ListItemMarker];
    assert(markers@ =~= seq![Token::ListItemMarker]);

    // Merge list items.
    while index < tokenizer.events.len()
        invariant
            *tokenizer == *old(tokenizer),
            tokenizer.wf(),
            resolvable(tokenizer@.events, tokenizer@.bytes),
            markers@ == seq![Token::ListItemMarker],
            index <= tokenizer.events.len(),
            balance <= index,
            in_range(lists_wip@, tokenizer@.events.len()),
            in_range(lists@, tokenizer@.events.len()),
            scan(tokenizer@.events, tokenizer@.bytes, index as int, balance, lists_wip@, lists@)
                == list_groups(tokenizer@.events, tokenizer@.bytes),
        decreases tokenizer.events.len() - index,
    {
        let event = tokenizer.events[index];
        if event.token_type == Token::ListItem {
            if event.event_type == EventType::Enter {
                assert(item_ok(tokenizer@.events, tokenizer@.bytes, index as int));
                let end = skip::to_span_end(&tokenizer.events, index + 1);
                let marker = skip::to(&tokenizer.events, index, markers.as_slice());
                let kind = Kind::from_byte(
                    Slice::from_point(tokenizer.parse_state.bytes.as_slice(), &tokenizer.events[marker].point)
                        .head().unwrap(),
                );
                let current = Group { kind, balance, start: index, end };
                assert(current == item_group(tokenizer@.events, tokenizer@.bytes, index as int, balance));
                let ghost wip_before = lists_wip@;
                let ghost lists_before = lists@;
                let found = find_match(&tokenizer.events, &lists_wip, &current);
                match found {
                    Some(list_index) => {
                        assert(list_index < lists_wip.len());
                        let previous = lists_wip[list_index];
                        let mut closed = lists_wip.split_off(list_index + 1);
                        lists_wip.set(list_index, Group { end: current.end, ..previous });
                        lists.append(&mut closed);
                        assert(lists_wip@ =~= wip_before.take(list_index as int).push(
                            Group { end: current.end, ..wip_before[list_index as int] },
                        ));
                        assert(lists@ =~= lists_before + wip_before.skip(list_index + 1));
                    },
                    None => {
                        let exit = find_exit(&lists_wip, &current);
                        let mut closed = lists_wip.split_off(exit);
                        lists.append(&mut closed);
                        lists_wip.push(current);
                        assert(lists_wip@ =~= wip_before.take(exit as int).push(current));
                        assert(lists@ =~= lists_before + wip_before.skip(exit as int));
                    },
                }
                assert((lists_wip@, lists@) == with_item(
                    tokenizer@.events,
                    wip_before,
                    lists_before,
                    current,
                ));
                balance += 1;
            } else if balance > 0 {
                balance -= 1;
            }
        }
        index += 1;
    }
    lists.append(&mut lists_wip);

    // Inject events.
    let mut index: usize = 0;
    while index < lists.len()
        invariant
            tokenizer.wf(),
            tokenizer.events.len() < usize::MAX,
            tokenizer@ == (Model { edits: tokenizer@.edits, ..old(tokenizer)@ }),
            index <= lists.len(),
            in_range(lists@, tokenizer@.events.len()),
            with_groups(tokenizer@.events, tokenizer@.edits, lists@, index as int) == resolved_edits(
                old(tokenizer)@,
            ),
            insertions(old(tokenizer)@.edits, old(tokenizer)@.events.len()) ==> insertions(
                tokenizer@.edits,
                old(tokenizer)@.events.len(),
            ),
        decreases lists.len() - index,
    {
        let list_item = lists[index];
        proof {
            let len = tokenizer@.events.len();
            let first = added(tokenizer@.edits, list_item.start, 0, seq![
                Event { token_type: list_token(list_item.kind), ..tokenizer@.events[list_item.start as int] },
            ]);
            lemma_added_sorted(tokenizer@.edits, list_item.start, 0, seq![
                Event { token_type: list_token(list_item.kind), ..tokenizer@.events[list_item.start as int] },
            ]);
            if insertions(tokenizer@.edits, len) {
                lemma_added_insertion(tokenizer@.edits, len, list_item.start, seq![
                    Event {
                        token_type: list_token(list_item.kind),
                        ..tokenizer@.events[list_item.start as int]
                    },
                ]);
                lemma_added_insertion(first, len, (list_item.end + 1) as usize, seq![
                    Event { token_type: list_token(list_item.kind), ..tokenizer@.events[list_item.end as int] },
                ]);
            }
        }
        let mut list_start = tokenizer.events[list_item.start];
        let mut list_end = tokenizer.events[list_item.end];
        let token_type = match list_item.kind {
            Kind::Paren | Kind::Dot => Token::ListOrdered,
            _ => Token::ListUnordered,
        };
        list_start.token_type = token_type;
        list_end.token_type = token_type;
        let mut enter: Vec<Event> = Vec::new();
        enter.push(list_start);
        let mut exit: Vec<Event> = Vec::new();
        exit.push(list_end);
        tokenizer.map.add(list_item.start, 0, enter);
        tokenizer.map.add(list_item.end + 1, 0, exit);
        index += 1;
    }
}

/// Whether every list item in the log is closed and has a marker, so that
/// list items can be resolved.
pub fn list_items_resolvable(tokenizer: &Tokenizer) -> (yes: bool)
    ensures
        yes == resolvable(tokenizer@.events, tokenizer@.bytes),
{
    let markers = [Token::ListItemMarker];
    assert(markers@ =~= seq![Token::ListItemMarker]);
    let mut index: usize = 0;
    while index < tokenizer.events.len()
        invariant
            index <= tokenizer.events.len(),
            markers@ == seq![Token::ListItemMarker],
            forall|i: int|
                0 <= i < index && is_item(tokenizer@.events, i) ==> item_ok(
                    tokenizer@.events,
                    tokenizer@.bytes,
                    i,
                ),
        decreases tokenizer.events.len() - index,
    {
        let event = tokenizer.events[index];
        if event.token_type == Token::ListItem && event.event_type == EventType::Enter {
            let end = skip::to_span_end(&tokenizer.events, index + 1);
            let marker = skip::to(&tokenizer.events, index, markers.as_slice());
            if end >= tokenizer.events.len() || marker >= tokenizer.events.len() {
                assert(is_item(tokenizer@.events, index as int) && !item_ok(
                    tokenizer@.events,
                    tokenizer@.bytes,
                    index as int,
                ));
                return false;
            }
            let point = tokenizer.events[marker].point;
            let byte = byte_under(&tokenizer.parse_state.bytes, &point);
            let fine = match byte {
                Some(byte) => byte == DOT || byte == RIGHT_PAREN || byte == ASTERISK || byte == PLUS || byte
                    == DASH,
                None => false,
            };
            if !fine {
                assert(is_item(tokenizer@.events, index as int) && !item_ok(
                    tokenizer@.events,
                    tokenizer@.bytes,
                    index as int,
                ));
                return false;
            }
        }
        index += 1;
    }
    true
}

} // verus!
