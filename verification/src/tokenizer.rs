//! The tokenizer: a cursor over the bytes, the log of events, and the
//! operations through which constructs read the one and write the other.
use vstd::prelude::*;
use crate::constant::{
    LINE_FEED, LIST_ITEM_VALUE_SIZE_MAX, SPACE, TAB, TAB_SIZE, THEMATIC_BREAK_MARKER_COUNT_MIN,
};
use crate::construct::{blank_line, list, partial_space_or_tab, partial_title, thematic_break};
use crate::nesting::{ends_with, open_stack, well_nested, without_last};
use crate::util::edit_map::{
    applied, insertions, lemma_insertions_applicable, sorted, EditMap, EditView,
};
use crate::subtokenize::{lemma_linked_shape, lemma_open_stack_shape, link, linked};
use crate::token::{
    byte_at, lemma_point_after, point_after, point_valid, steps_left, ContentType, Event, EventType,
    Link, Point, Token,
};

verus! {

/// Scratch of the container that is open at the current nesting level.
#[derive(Clone, Copy, Debug, PartialEq, Eq)]
pub struct ContainerState {
    /// Whether the first line after the opener was blank.
    pub blank_initial: bool,
    /// The number of columns that the prefix of the container takes.
    pub size: usize,
}

/// Which constructs are turned on.
#[derive(Clone, Copy, Debug, PartialEq, Eq)]
pub struct Constructs {
    /// Indented code.
    pub code_indented: bool,
    /// List items.
    pub list: bool,
    /// Thematic breaks.
    pub thematic_break: bool,
}

impl Default for Constructs {
    /// Everything is turned on.
    fn default() -> (constructs: Constructs)
        ensures
            constructs == (Constructs { code_indented: true, list: true, thematic_break: true }),
    {
        Constructs { code_indented: true, list: true, thematic_break: true }
    }
}

/// What does not change while a document is tokenized.
pub struct ParseState {
    /// The configuration.
    pub constructs: Constructs,
    /// The input.
    pub bytes: Vec<u8>,
}

/// The name of a resolver.
#[derive(Clone, Copy, Debug, PartialEq, Eq, Structural)]
pub enum Resolver {
    /// Groups adjacent list items into lists.
    ListItem,
}

/// A place in a construct where the machine can be entered or resumed,
/// together with what that place remembers.
#[derive(Clone, Copy, Debug, PartialEq, Eq)]
pub enum StateName {
    /// At the start of optional or required whitespace.
    SpaceOrTabStart(partial_space_or_tab::Options),
    /// In whitespace.
    SpaceOrTabInside(partial_space_or_tab::Info),
    /// At the start of whitespace that may hold one line ending.
    SpaceOrTabEolStart(partial_space_or_tab::EolOptions),
    /// After the whitespace before a possible line ending.
    SpaceOrTabEolAfterFirst(partial_space_or_tab::EolInfo),
    /// After the line ending.
    SpaceOrTabEolAfterEol(partial_space_or_tab::EolInfo),
    /// After the whitespace that follows the line ending.
    SpaceOrTabEolAfterMore,
    /// At the start of a line that may be blank.
    BlankLineStart,
    /// After the whitespace of a line that may be blank.
    BlankLineAfter,
    /// At the start of a thematic break.
    ThematicBreakStart,
    /// After the indent of a thematic break.
    ThematicBreakBefore,
    /// Between the runs of markers of a thematic break.
    ThematicBreakAtBreak(thematic_break::Info),
    /// In a run of markers of a thematic break.
    ThematicBreakSequence(thematic_break::Info),
    /// At the start of a list item.
    ListStart,
    /// After the indent of a list item.
    ListBefore,
    /// At the marker of an unordered list item.
    ListBeforeUnordered,
    /// In the value of an ordered list item, after so many digits.
    ListInside(usize),
    /// At the marker of a list item.
    ListMarker,
    /// After the marker of a list item.
    ListMarkerAfter,
    /// After the marker of a list item, on a line that is not blank.
    ListMarkerAfterNotBlank,
    /// At the whitespace after the marker of a list item.
    ListWhitespace,
    /// After the whitespace after the marker of a list item.
    ListWhitespaceAfter,
    /// After a marker that is followed by no whitespace or too much.
    ListPrefixOther,
    /// After the prefix of a list item, whose first line is blank or not.
    ListAfter(bool),
    /// At the start of a line that may continue a list item.
    ListCont,
    /// At the start of a blank line that may continue a list item.
    ListBlankCont,
    /// At the start of a line with text that may continue a list item.
    ListNotBlankCont,
    /// At a place that matches.
    ListOk,
    /// At a place that does not match.
    ListNok,
    /// Before a title.
    TitleStart(partial_title::Options),
    /// After the opening marker of a title, or at its closing marker.
    TitleBegin(partial_title::Info),
    /// In a title, before a line ending, data, or the closing marker.
    TitleAtBreak(partial_title::Info),
    /// In the data of a title.
    TitleInside(partial_title::Info),
    /// After a backslash in the data of a title.
    TitleEscape(partial_title::Info),
}

/// The outcome of a state function.
#[derive(Clone, Copy, Debug, PartialEq, Eq)]
pub enum State {
    /// The construct matched.
    Okay,
    /// The construct did not match here.
    Nok,
    /// One step was taken; go on at the given place with the next byte.
    Next(StateName),
}

/// The mathematical state of a tokenizer.
pub struct Model {
    /// The input.
    pub bytes: Seq<u8>,
    /// The configuration.
    pub constructs: Constructs,
    /// The cursor.
    pub point: Point,
    /// The log.
    pub events: Seq<Event>,
    /// Scratch of the open container.
    pub container: Option<ContainerState>,
    /// Whether a paragraph is open that the construct at hand would interrupt.
    pub interrupt: bool,
    /// The resolvers to run after the main pass, in order of registration.
    pub resolvers: Seq<Resolver>,
    /// The edits that resolvers have asked for.
    pub edits: Seq<EditView>,
}

impl Model {
    /// The open spans, outermost first.
    pub open spec fn stack(self) -> Seq<Token> {
        open_stack(self.events).unwrap()
    }

    /// What every tokenizer keeps true: the cursor is a place in the bytes, no
    /// event lies after it, and the log can be read by a stack-based reader.
    pub open spec fn wf(self) -> bool {
        &&& point_valid(self.bytes, self.point)
        &&& self.bytes.len() + 8 <= usize::MAX
        &&& open_stack(self.events) is Some
        &&& sorted(self.edits)
        &&& forall|i: int|
            0 <= i < self.events.len() ==> {
                &&& (#[trigger] self.events[i]).point.index <= self.point.index
                &&& self.events[i].point.vs < TAB_SIZE
            }
    }

    /// The byte under the cursor.
    pub open spec fn current(self) -> Option<u8> {
        byte_at(self.bytes, self.point)
    }

    /// How many steps can be taken at most before the end.
    pub open spec fn steps_left(self) -> nat {
        steps_left(self.bytes, self.point)
    }

    /// The state after one step of the cursor.
    pub open spec fn consume(self) -> Model {
        Model { point: point_after(self.bytes, self.point), ..self }
    }

    /// The state after a span `token_type` with content was opened.
    pub open spec fn enter_with_content(self, token_type: Token, content_type: Option<ContentType>) -> Model {
        let link = match content_type {
            Some(content_type) => Some(Link { previous: None, content_type }),
            None => None,
        };
        Model {
            events: self.events.push(
                Event { event_type: EventType::Enter, token_type, point: self.point, link },
            ),
            ..self
        }
    }

    /// The state after a span `token_type` was opened.
    pub open spec fn enter(self, token_type: Token) -> Model {
        self.enter_with_content(token_type, None)
    }

    /// The state after the span `token_type` was closed.
    pub open spec fn exit(self, token_type: Token) -> Model {
        Model {
            events: self.events.push(
                Event { event_type: EventType::Exit, token_type, point: self.point, link: None },
            ),
            ..self
        }
    }

    /// The state after the last event was tied to the span before it.
    pub open spec fn link_last(self) -> Model {
        Model { events: linked(self.events, self.events.len() - 1), ..self }
    }

    /// The state after `resolver` was registered: it is added at the end
    /// unless it was registered before.
    pub open spec fn register_resolver(self, resolver: Resolver) -> Model {
        if self.resolvers.contains(resolver) {
            self
        } else {
            Model { resolvers: self.resolvers.push(resolver), ..self }
        }
    }

    /// Whether the top of the stack is `token_type`, so that it can be closed.
    pub open spec fn can_exit(self, token_type: Token) -> bool {
        self.stack().len() > 0 && self.stack().last() == token_type
    }
}

impl StateName {
    /// The level of the construct: a construct runs only constructs of a
    /// lower level inside itself.
    pub open spec fn rank(self) -> nat {
        match self {
            StateName::SpaceOrTabStart(_) => 0,
            StateName::SpaceOrTabInside(_) => 0,
            StateName::SpaceOrTabEolStart(_) => 1,
            StateName::SpaceOrTabEolAfterFirst(_) => 1,
            StateName::SpaceOrTabEolAfterEol(_) => 1,
            StateName::SpaceOrTabEolAfterMore => 1,
            StateName::BlankLineStart => 1,
            StateName::BlankLineAfter => 1,
            StateName::ThematicBreakStart => 1,
            StateName::ThematicBreakBefore => 1,
            StateName::ThematicBreakAtBreak(_) => 1,
            StateName::ThematicBreakSequence(_) => 1,
            StateName::ListWhitespace => 1,
            StateName::ListWhitespaceAfter => 1,
            StateName::ListOk => 0,
            StateName::ListNok => 0,
            _ => 2,
        }
    }

    /// The spans that the construct has opened and not closed when it is at
    /// this place, outermost first.
    pub open spec fn open(self) -> Seq<Token> {
        match self {
            StateName::SpaceOrTabInside(info) => seq![info.options.kind],
            StateName::ThematicBreakBefore => seq![Token::ThematicBreak],
            StateName::ThematicBreakAtBreak(_) => seq![Token::ThematicBreak],
            StateName::ThematicBreakSequence(_) => seq![Token::ThematicBreak, Token::ThematicBreakSequence],
            StateName::ListBefore => seq![Token::ListItem],
            StateName::ListBeforeUnordered => seq![Token::ListItem],
            StateName::ListInside(_) => seq![Token::ListItem, Token::ListItemPrefix, Token::ListItemValue],
            StateName::ListMarker => seq![Token::ListItem, Token::ListItemPrefix],
            StateName::ListMarkerAfter => seq![Token::ListItem, Token::ListItemPrefix],
            StateName::ListMarkerAfterNotBlank => seq![Token::ListItem, Token::ListItemPrefix],
            StateName::ListPrefixOther => seq![Token::ListItem, Token::ListItemPrefix],
            StateName::ListAfter(_) => seq![Token::ListItem, Token::ListItemPrefix],
            StateName::TitleBegin(info) => seq![info.options.title],
            StateName::TitleAtBreak(info) => seq![info.options.title, info.options.string],
            StateName::TitleInside(info) => seq![info.options.title, info.options.string, Token::Data],
            StateName::TitleEscape(info) => seq![info.options.title, info.options.string, Token::Data],
            _ => seq![],
        }
    }

    /// The spans that the construct leaves open when it matches.
    pub open spec fn left_open(self) -> Seq<Token> {
        match self {
            StateName::ListStart => seq![Token::ListItem],
            StateName::ListBefore => seq![Token::ListItem],
            StateName::ListBeforeUnordered => seq![Token::ListItem],
            StateName::ListInside(_) => seq![Token::ListItem],
            StateName::ListMarker => seq![Token::ListItem],
            StateName::ListMarkerAfter => seq![Token::ListItem],
            StateName::ListMarkerAfterNotBlank => seq![Token::ListItem],
            StateName::ListPrefixOther => seq![Token::ListItem],
            StateName::ListAfter(_) => seq![Token::ListItem],
            _ => seq![],
        }
    }

    /// Whether a match from this place takes at least one step of the cursor.
    pub open spec fn consumes(self) -> bool {
        match self {
            StateName::SpaceOrTabStart(options) => options.min > 0,
            StateName::SpaceOrTabEolStart(_) => true,
            StateName::SpaceOrTabEolAfterFirst(info) => !info.ok,
            _ => false,
        }
    }

    /// What must hold for the machine to be entered at this place.
    pub open spec fn pre(self, m: Model) -> bool {
        &&& ends_with(m.stack(), self.open())
        &&& match self {
            StateName::SpaceOrTabInside(info) => info.size <= info.options.max,
            StateName::ThematicBreakAtBreak(info) => info.size <= THEMATIC_BREAK_MARKER_COUNT_MIN,
            StateName::ThematicBreakSequence(info) => info.size <= THEMATIC_BREAK_MARKER_COUNT_MIN,
            StateName::ListInside(size) => size < LIST_ITEM_VALUE_SIZE_MAX,
            StateName::ListBeforeUnordered => m.current() is Some,
            StateName::ListMarker => m.current() is Some,
            StateName::ListBlankCont => m.container is Some,
            StateName::ListNotBlankCont => m.container is Some,
            StateName::ListCont => m.container is Some,
            _ => true,
        }
    }

    /// The spans that were open before the construct started.
    pub open spec fn base(self, m: Model) -> Seq<Token> {
        without_last(m.stack(), self.open().len())
    }
}

/// Whether `events` starts with `prefix`.
pub open spec fn extends<T>(events: Seq<T>, prefix: Seq<T>) -> bool {
    prefix.len() <= events.len() && events.take(prefix.len() as int) =~= prefix
}

/// What every step of every construct keeps: entered at `name` in `before`, it
/// ended in `after` with `state`.
///
/// The input and configuration are unchanged, the cursor did not go back, the
/// log and the resolvers only grew; a step that asks to go on took at least one
/// step of the cursor and goes on in the same construct, and a match left the
/// stack as it was found but for the spans that the construct leaves open.
pub open spec fn advances(name: StateName, before: Model, after: Model, state: State) -> bool {
    &&& after.bytes == before.bytes
    &&& after.constructs == before.constructs
    &&& after.edits == before.edits
    &&& after.wf()
    &&& after.steps_left() <= before.steps_left()
    &&& extends(after.events, before.events)
    &&& extends(after.resolvers, before.resolvers)
    &&& match state {
        State::Next(next) => {
            &&& next.rank() <= name.rank()
            &&& after.steps_left() < before.steps_left()
            &&& next.pre(after)
            &&& next.base(after) =~= name.base(before)
            &&& next.left_open() == name.left_open()
        },
        State::Okay => {
            &&& after.stack() =~= name.base(before) + name.left_open()
            &&& name.consumes() ==> after.steps_left() < before.steps_left()
        },
        State::Nok => true,
    }
}

/// Whether the log of `after` is read like that of `before` where a
/// construct matched that was entered from its start at `name` and leaves
/// nothing open: every span that the construct opened is closed again, in
/// order, so a log that was well nested is well nested still.
pub open spec fn nesting_kept(name: StateName, before: Model, after: Model, state: State) -> bool {
    state is Okay && name.open().len() == 0 && name.left_open().len() == 0 ==> {
        &&& open_stack(after.events) == open_stack(before.events)
        &&& well_nested(before.events) ==> well_nested(after.events)
    }
}

/// What `advances` says of the stack is what `nesting_kept` says of the log.
pub proof fn lemma_nesting_kept(name: StateName, before: Model, after: Model, state: State)
    requires
        before.wf(),
        advances(name, before, after, state),
    ensures
        open_stack(after.events) is Some,
        nesting_kept(name, before, after, state),
{
    if state is Okay && name.open().len() == 0 && name.left_open().len() == 0 {
        assert(name.base(before) =~= before.stack());
        assert(after.stack() =~= before.stack());
    }
}

/// Whether a construct that was entered at `outer` in `before` has come to
/// `inner` in `mid`, so that what holds of the rest of the run from `inner`
/// holds of the run from `outer`.
pub open spec fn reaches(outer: StateName, before: Model, inner: StateName, mid: Model) -> bool {
    &&& mid.bytes == before.bytes
    &&& mid.constructs == before.constructs
    &&& mid.edits == before.edits
    &&& mid.wf()
    &&& mid.steps_left() <= before.steps_left()
    &&& extends(mid.events, before.events)
    &&& extends(mid.resolvers, before.resolvers)
    &&& inner.rank() <= outer.rank()
    &&& inner.pre(mid)
    &&& inner.base(mid) =~= outer.base(before)
    &&& inner.left_open() == outer.left_open()
    &&& outer.consumes() ==> inner.consumes() || mid.steps_left() < before.steps_left()
}

/// What holds of a run from a place that a construct has come to holds of
/// the run from the place where the construct was entered.
pub proof fn lemma_advances_from(
    outer: StateName,
    before: Model,
    inner: StateName,
    mid: Model,
    after: Model,
    state: State,
)
    requires
        reaches(outer, before, inner, mid),
        advances(inner, mid, after, state),
    ensures
        advances(outer, before, after, state),
{
}

/// One step of the machine, entered at `name`.
pub open spec fn step_model(name: StateName, m: Model) -> (Model, State)
    decreases name.rank(), m.steps_left(), 99nat,
{
    match name {
        StateName::SpaceOrTabStart(options) => partial_space_or_tab::start_model(m, options),
        StateName::SpaceOrTabInside(info) => partial_space_or_tab::inside_model(m, info),
        StateName::SpaceOrTabEolStart(options) => partial_space_or_tab::eol_start_model(m, options),
        StateName::SpaceOrTabEolAfterFirst(info) => partial_space_or_tab::eol_after_first_model(m, info),
        StateName::SpaceOrTabEolAfterEol(info) => partial_space_or_tab::eol_after_eol_model(m, info),
        StateName::SpaceOrTabEolAfterMore => partial_space_or_tab::eol_after_more_model(m),
        StateName::BlankLineStart => blank_line::start_model(m),
        StateName::BlankLineAfter => blank_line::after_model(m),
        StateName::ThematicBreakStart => thematic_break::start_model(m),
        StateName::ThematicBreakBefore => thematic_break::before_model(m),
        StateName::ThematicBreakAtBreak(info) => thematic_break::at_break_model(m, info),
        StateName::ThematicBreakSequence(info) => thematic_break::sequence_model(m, info),
        StateName::ListStart => list::start_model(m),
        StateName::ListBefore => list::before_model(m),
        StateName::ListBeforeUnordered => list::before_unordered_model(m),
        StateName::ListInside(size) => list::inside_model(m, size),
        StateName::ListMarker => list::marker_model(m),
        StateName::ListMarkerAfter => list::marker_after_model(m),
        StateName::ListMarkerAfterNotBlank => list::marker_after_not_blank_model(m),
        StateName::ListWhitespace => list::whitespace_model(m),
        StateName::ListWhitespaceAfter => list::whitespace_after_model(m),
        StateName::ListPrefixOther => list::prefix_other_model(m),
        StateName::ListAfter(blank) => list::after_model(m, blank),
        StateName::ListCont => list::cont_model(m),
        StateName::ListBlankCont => list::blank_cont_model(m),
        StateName::ListNotBlankCont => list::not_blank_cont_model(m),
        StateName::ListOk => list::ok_model(m),
        StateName::ListNok => list::nok_model(m),
        StateName::TitleStart(options) => partial_title::start_model(m, options),
        StateName::TitleBegin(info) => partial_title::begin_model(m, info),
        StateName::TitleAtBreak(info) => partial_title::at_break_model(m, info),
        StateName::TitleInside(info) => partial_title::title_model(m, info),
        StateName::TitleEscape(info) => partial_title::escape_model(m, info),
    }
}

/// The machine run from `name` until it matches or fails.
pub open spec fn run_model(name: StateName, m: Model) -> (Model, State)
    decreases name.rank(), m.steps_left(), 100nat,
{
    let (after, state) = step_model(name, m);
    match state {
        State::Next(next) => {
            if next.rank() <= name.rank() && after.steps_left() < m.steps_left() {
                run_model(next, after)
            } else {
                (after, State::Nok)
            }
        },
        _ => (after, state),
    }
}

/// The outcome of an attempt that started in `before` and ran to `outcome`:
/// the state that the run reached if it matched, else `before`.
pub open spec fn attempted(before: Model, outcome: (Model, State)) -> (Model, bool) {
    if outcome.1 is Okay && outcome.0.steps_left() <= before.steps_left() {
        (outcome.0, true)
    } else {
        (before, false)
    }
}

/// The outcome of an attempt at a construct that cannot match without a step
/// of the cursor.
pub open spec fn attempted_some(before: Model, outcome: (Model, State)) -> (Model, bool) {
    if outcome.1 is Okay && outcome.0.steps_left() < before.steps_left() {
        (outcome.0, true)
    } else {
        (before, false)
    }
}

/// The outcome of a run inside a construct that does not undo it: the state
/// that the run reached, and whether it matched.
pub open spec fn went(before: Model, outcome: (Model, State)) -> (Model, bool) {
    if outcome.0.steps_left() <= before.steps_left() {
        (outcome.0, outcome.1 is Okay)
    } else {
        (before, false)
    }
}

/// The outcome of a run, not undone, of a construct that cannot match without
/// a step of the cursor.
pub open spec fn went_some(before: Model, outcome: (Model, State)) -> (Model, bool) {
    if outcome.1 is Okay {
        if outcome.0.steps_left() < before.steps_left() {
            (outcome.0, true)
        } else {
            (before, false)
        }
    } else {
        went(before, outcome)
    }
}

/// What is saved before an attempt, to undo it: sizes and the cursor.
#[derive(Clone, Copy, Debug, PartialEq, Eq)]
pub struct Frame {
    /// The length of the log.
    pub events_len: usize,
    /// The number of resolvers.
    pub resolvers_len: usize,
    /// The cursor.
    pub point: Point,
    /// The byte under the cursor.
    pub current: Option<u8>,
    /// Scratch of the open container.
    pub container: Option<ContainerState>,
    /// Whether a paragraph would be interrupted.
    pub interrupt: bool,
}

/// The state after `resolver` has run on `m`.
pub open spec fn run_resolver(m: Model, resolver: Resolver) -> Model {
    match resolver {
        Resolver::ListItem => Model { edits: list::resolved_edits(m), ..m },
    }
}

/// The state after the registered resolvers from the `k`-th on have run on
/// `m`, in the order of their registration.
pub open spec fn resolved_from(m: Model, k: int) -> Model
    decreases m.resolvers.len() - k,
{
    if 0 <= k < m.resolvers.len() {
        resolved_from(run_resolver(m, m.resolvers[k]), k + 1)
    } else {
        m
    }
}

/// The final log: the log of the main pass, with the edits applied that the
/// registered resolvers ask for.
pub open spec fn resolved_log(m: Model) -> Seq<Event> {
    applied(m.events, resolved_from(m, 0).edits)
}

/// Whether every registered resolver can run on the log of `m`.
pub open spec fn can_resolve(m: Model) -> bool {
    m.resolvers.contains(Resolver::ListItem) ==> list::resolvable(m.events, m.bytes)
}

/// Registering a resolver a second time changes nothing, so the resolver
/// runs once and the final log is the same.
pub proof fn law_registering_is_idempotent(m: Model, resolver: Resolver)
    ensures
        m.register_resolver(resolver).register_resolver(resolver) == m.register_resolver(resolver),
        resolved_log(m.register_resolver(resolver).register_resolver(resolver)) == resolved_log(
            m.register_resolver(resolver),
        ),
{
    if !m.resolvers.contains(resolver) {
        let after = m.resolvers.push(resolver);
        assert(after[after.len() - 1] == resolver);
    }
}

/// The resolvers read the log, the bytes, and the edits asked for so far,
/// and nothing else of the state.
pub proof fn lemma_resolving_reads_log_and_bytes(a: Model, b: Model, k: int)
    requires
        a.events == b.events,
        a.bytes == b.bytes,
        a.edits == b.edits,
        a.resolvers == b.resolvers,
    ensures
        resolved_from(a, k).edits == resolved_from(b, k).edits,
    decreases a.resolvers.len() - k,
{
    if 0 <= k < a.resolvers.len() {
        lemma_resolving_reads_log_and_bytes(
            run_resolver(a, a.resolvers[k]),
            run_resolver(b, b.resolvers[k]),
            k + 1,
        );
    }
}

/// Resolving is a function of the log of the main pass and the bytes: two
/// states with the same log, bytes and registered resolvers, and no edits
/// yet, resolve to the same final log, whatever else they hold.
pub proof fn law_resolving_reads_log_and_bytes(a: Model, b: Model)
    requires
        a.events == b.events,
        a.bytes == b.bytes,
        a.resolvers == b.resolvers,
        a.edits == Seq::<EditView>::empty(),
        b.edits == Seq::<EditView>::empty(),
    ensures
        resolved_log(a) == resolved_log(b),
{
    lemma_resolving_reads_log_and_bytes(a, b, 0);
}

/// A failed attempt leaves no trace, and a check leaves none either way:
/// this is how the two are defined.
pub proof fn law_attempt_and_check_roll_back(name: StateName, m: Model)
    ensures
        !attempted(m, run_model(name, m)).1 ==> attempted(m, run_model(name, m)).0 == m,
        !attempted_some(m, run_model(name, m)).1 ==> attempted_some(m, run_model(name, m)).0 == m,
{
}

/// A tokenizer.
pub struct Tokenizer {
    /// The input and the configuration.
    pub parse_state: ParseState,
    /// The cursor.
    pub point: Point,
    /// The byte under the cursor, or `None` at the end.
    pub current: Option<u8>,
    /// The log.
    pub events: Vec<Event>,
    /// Scratch of the open container.
    pub container: Option<ContainerState>,
    /// Whether a paragraph is open that the construct at hand would interrupt.
    pub interrupt: bool,
    /// The resolvers to run after the main pass, in order of registration.
    pub resolver_ids: Vec<Resolver>,
    /// The edits that resolvers have asked for.
    pub map: EditMap,
}

impl View for Tokenizer {
    type V = Model;

    open spec fn view(&self) -> Model {
        Model {
            bytes: self.parse_state.bytes@,
            constructs: self.parse_state.constructs,
            point: self.point,
            events: self.events@,
            container: self.container,
            interrupt: self.interrupt,
            resolvers: self.resolver_ids@,
            edits: self.map@,
        }
    }
}

/// The byte that a cursor at `point` sees.
pub fn byte_under(bytes: &Vec<u8>, point: &Point) -> (byte: Option<u8>)
    ensures
        byte == byte_at(bytes@, *point),
{
    if point.index >= bytes.len() {
        None
    } else if point.vs > 0 {
        Some(SPACE)
    } else {
        Some(bytes[point.index])
    }
}

impl Tokenizer {
    /// Whether the tokenizer is in order: its state is, and `current` is the
    /// byte under the cursor.
    pub open spec fn wf(&self) -> bool {
        &&& self@.wf()
        &&& self.current == self@.current()
    }

    /// A tokenizer at `point` in the bytes of `parse_state`, with an empty log.
    pub fn new(point: Point, parse_state: ParseState) -> (tokenizer: Tokenizer)
        requires
            point_valid(parse_state.bytes@, point),
            parse_state.bytes@.len() + 8 <= usize::MAX,
        ensures
            tokenizer.wf(),
            tokenizer@ == (Model {
                bytes: parse_state.bytes@,
                constructs: parse_state.constructs,
                point,
                events: Seq::empty(),
                container: None,
                interrupt: false,
                resolvers: Seq::empty(),
                edits: Seq::empty(),
            }),
    {
        let current = byte_under(&parse_state.bytes, &point);
        Tokenizer {
            parse_state,
            point,
            current,
            events: Vec::new(),
            container: None,
            interrupt: false,
            resolver_ids: Vec::new(),
            map: EditMap::new(),
        }
    }

    /// Move the cursor one step: past the current byte, or one column into
    /// the current tab.
    pub fn consume(&mut self)
        requires
            old(self).wf(),
            old(self).current is Some,
        ensures
            final(self).wf(),
            final(self)@ == old(self)@.consume(),
            final(self)@.steps_left() < old(self)@.steps_left(),
    {
        proof {
            lemma_point_after(self@.bytes, self.point);
        }
        let byte = self.parse_state.bytes[self.point.index];
        if byte == LINE_FEED {
            self.point.line += 1;
            self.point.column = 1;
            self.point.index += 1;
            self.point.vs = 0;
        } else if byte == TAB && self.point.column % TAB_SIZE != 0 {
            self.point.column += 1;
            self.point.vs += 1;
        } else {
            self.point.column += 1;
            self.point.index += 1;
            self.point.vs = 0;
        }
        self.current = byte_under(&self.parse_state.bytes, &self.point);
    }

    /// Open a span.
    pub fn enter(&mut self, token_type: Token)
        requires
            old(self).wf(),
        ensures
            final(self).wf(),
            final(self)@ == old(self)@.enter(token_type),
            final(self)@.stack() == old(self)@.stack().push(token_type),
    {
        self.enter_with_content(token_type, None)
    }

    /// Open a span whose bytes are tokenized again, as `content_type`, in a
    /// later pass.
    pub fn enter_with_content(&mut self, token_type: Token, content_type: Option<ContentType>)
        requires
            old(self).wf(),
        ensures
            final(self).wf(),
            final(self)@ == old(self)@.enter_with_content(token_type, content_type),
            final(self)@.stack() == old(self)@.stack().push(token_type),
    {
        let link = match content_type {
            Some(content_type) => Some(Link { previous: None, content_type }),
            None => None,
        };
        let event = Event { event_type: EventType::Enter, token_type, point: self.point, link };
        proof {
            crate::nesting::lemma_open_stack_enter(self.events@, event);
        }
        self.events.push(event);
    }

    /// Close the innermost open span, which must be `token_type`.
    pub fn exit(&mut self, token_type: Token)
        requires
            old(self).wf(),
            old(self)@.can_exit(token_type),
        ensures
            final(self).wf(),
            final(self)@ == old(self)@.exit(token_type),
            final(self)@.stack() == old(self)@.stack().drop_last(),
    {
        let event = Event { event_type: EventType::Exit, token_type, point: self.point, link: None };
        proof {
            crate::nesting::lemma_open_stack_exit(self.events@, event);
        }
        self.events.push(event);
    }

    /// Tie the span that was opened last to the last span before it that
    /// carries the same kind of content.
    pub fn link_last(&mut self)
        requires
            old(self).wf(),
            old(self).events.len() > 0,
        ensures
            final(self).wf(),
            final(self)@ == old(self)@.link_last(),
            final(self)@.stack() == old(self)@.stack(),
    {
        let index = self.events.len() - 1;
        proof {
            lemma_linked_shape(self.events@, index as int);
            lemma_open_stack_shape(self.events@, linked(self.events@, index as int));
        }
        link(&mut self.events, index);
    }

    /// Register `resolver` to run after the main pass.  Registering a
    /// resolver again changes nothing.
    pub fn register_resolver_before(&mut self, resolver: Resolver)
        requires
            old(self).wf(),
        ensures
            final(self).wf(),
            final(self)@ == old(self)@.register_resolver(resolver),
    {
        let mut index: usize = 0;
        while index < self.resolver_ids.len()
            invariant
                index <= self.resolver_ids.len(),
                *self == *old(self),
                self.wf(),
                forall|i: int| 0 <= i < index ==> self.resolver_ids@[i] != resolver,
            decreases self.resolver_ids.len() - index,
        {
            if self.resolver_ids[index] == resolver {
                assert(self@.resolvers[index as int] == resolver);
                return ;
            }
            index += 1;
        }
        self.resolver_ids.push(resolver);
    }

    /// Save what an attempt needs to be undone.
    pub fn capture(&self) -> (frame: Frame)
        ensures
            frame == (Frame {
                events_len: self.events.len(),
                resolvers_len: self.resolver_ids.len(),
                point: self.point,
                current: self.current,
                container: self.container,
                interrupt: self.interrupt,
            }),
    {
        Frame {
            events_len: self.events.len(),
            resolvers_len: self.resolver_ids.len(),
            point: self.point,
            current: self.current,
            container: self.container,
            interrupt: self.interrupt,
        }
    }

    /// Go back to `frame`: the log and the resolvers are cut to their saved
    /// lengths, and the cursor and the scratch are put back.
    pub fn free(&mut self, frame: Frame)
        requires
            frame.events_len <= old(self).events.len(),
            frame.resolvers_len <= old(self).resolver_ids.len(),
        ensures
            final(self)@ == (Model {
                point: frame.point,
                events: old(self)@.events.take(frame.events_len as int),
                container: frame.container,
                interrupt: frame.interrupt,
                resolvers: old(self)@.resolvers.take(frame.resolvers_len as int),
                ..old(self)@
            }),
            final(self).current == frame.current,
    {
        self.events.truncate(frame.events_len);
        self.resolver_ids.truncate(frame.resolvers_len);
        self.point = frame.point;
        self.current = frame.current;
        self.container = frame.container;
        self.interrupt = frame.interrupt;
    }

    /// Run the machine from `name` until it matches or fails.
    pub fn run(&mut self, name: StateName) -> (state: State)
        requires
            old(self).wf(),
            name.pre(old(self)@),
        ensures
            final(self).wf(),
            (final(self)@, state) == run_model(name, old(self)@),
            state !is Next,
            advances(name, old(self)@, final(self)@, state),
            open_stack(final(self)@.events) is Some,
            nesting_kept(name, old(self)@, final(self)@, state),
        decreases name.rank(), old(self)@.steps_left(), 100nat,
    {
        let mut current = name;
        let ghost mut first = true;
        loop
            invariant
                self.wf(),
                old(self).wf(),
                current.pre(self@),
                current.rank() <= name.rank(),
                self@.steps_left() <= old(self)@.steps_left(),
                !first ==> self@.steps_left() < old(self)@.steps_left(),
                first ==> self@ == old(self)@ && current == name,
                run_model(current, self@) == run_model(name, old(self)@),
                self@.bytes == old(self)@.bytes,
                self@.constructs == old(self)@.constructs,
                self@.edits == old(self)@.edits,
                extends(self@.events, old(self)@.events),
                extends(self@.resolvers, old(self)@.resolvers),
                current.base(self@) =~= name.base(old(self)@),
                current.left_open() == name.left_open(),
            decreases self@.steps_left(),
        {
            let state = self.call(current);
            match state {
                State::Next(next) => {
                    current = next;
                    proof {
                        first = false;
                    }
                },
                _ => {
                    proof {
                        lemma_nesting_kept(name, old(self)@, self@, state);
                    }
                    return state;
                },
            }
        }
    }

    /// Run the construct that starts at `name`; if it does not match, undo
    /// what it did.  Returns whether it matched.
    pub fn attempt(&mut self, name: StateName) -> (ok: bool)
        requires
            old(self).wf(),
            name.pre(old(self)@),
        ensures
            final(self).wf(),
            (final(self)@, ok) == attempted(old(self)@, run_model(name, old(self)@)),
            !ok ==> final(self)@ == old(self)@,
            ok ==> advances(name, old(self)@, final(self)@, State::Okay),
            ok ==> nesting_kept(name, old(self)@, final(self)@, State::Okay),
        decreases name.rank(), old(self)@.steps_left(), 101nat,
    {
        let frame = self.capture();
        let state = self.run(name);
        match state {
            State::Okay => true,
            _ => {
                self.free(frame);
                assert(self@.events =~= old(self)@.events);
                assert(self@.resolvers =~= old(self)@.resolvers);
                false
            },
        }
    }

    /// Run the construct that starts at `name` to see whether it matches,
    /// and undo what it did in either case.
    pub fn check(&mut self, name: StateName) -> (ok: bool)
        requires
            old(self).wf(),
            name.pre(old(self)@),
        ensures
            final(self).wf(),
            final(self)@ == old(self)@,
            ok == (run_model(name, old(self)@).1 is Okay),
        decreases name.rank(), old(self)@.steps_left(), 101nat,
    {
        let frame = self.capture();
        let state = self.run(name);
        self.free(frame);
        assert(self@.events =~= old(self)@.events);
        assert(self@.resolvers =~= old(self)@.resolvers);
        match state {
            State::Okay => true,
            _ => false,
        }
    }

    /// Run the construct that starts at `name` and keep what it did, whether
    /// it matched or not.  Returns whether it matched.
    pub fn go(&mut self, name: StateName) -> (ok: bool)
        requires
            old(self).wf(),
            name.pre(old(self)@),
        ensures
            final(self).wf(),
            (final(self)@, ok) == went(old(self)@, run_model(name, old(self)@)),
            advances(
                name,
                old(self)@,
                final(self)@,
                if ok {
                    State::Okay
                } else {
                    State::Nok
                },
            ),
            ok ==> nesting_kept(name, old(self)@, final(self)@, State::Okay),
        decreases name.rank(), old(self)@.steps_left(), 101nat,
    {
        let state = self.run(name);
        match state {
            State::Okay => true,
            _ => false,
        }
    }

    /// End the main pass: run the registered resolvers, in the order of their
    /// registration, and apply the edits that they ask for.
    ///
    /// Returns the final log, or `None` if a resolver cannot run on the log.
    pub fn resolve(self) -> (events: Option<Vec<Event>>)
        requires
            self.wf(),
            self.events.len() < usize::MAX,
            insertions(self@.edits, self@.events.len()),
        ensures
            events is Some <==> can_resolve(self@),
            events matches Some(log) ==> log@ == resolved_log(self@),
    {
        let mut tokenizer = self;
        let mut index: usize = 0;
        while index < tokenizer.resolver_ids.len()
            invariant
                tokenizer.wf(),
                tokenizer@ == (Model { edits: tokenizer@.edits, ..self@ }),
                tokenizer.events.len() < usize::MAX,
                insertions(tokenizer@.edits, self@.events.len()),
                index <= tokenizer.resolver_ids.len(),
                index > 0 ==> can_resolve(self@),
                resolved_from(tokenizer@, index as int) == resolved_from(self@, 0),
            decreases tokenizer.resolver_ids.len() - index,
        {
            match tokenizer.resolver_ids[index] {
                Resolver::ListItem => {
                    assert(self@.resolvers[index as int] == Resolver::ListItem);
                    if !list::list_items_resolvable(&tokenizer) {
                        return None;
                    }
                    list::resolve_list_item(&mut tokenizer);
                },
            }
            index += 1;
        }
        proof {
            lemma_insertions_applicable(tokenizer@.edits, self@.events.len());
        }
        let mut events = tokenizer.events;
        let mut map = tokenizer.map;
        map.consume(&mut events);
        Some(events)
    }

    /// Take one step of the machine at `name`.
    pub fn call(&mut self, name: StateName) -> (state: State)
        requires
            old(self).wf(),
            name.pre(old(self)@),
        ensures
            final(self).wf(),
            (final(self)@, state) == step_model(name, old(self)@),
            advances(name, old(self)@, final(self)@, state),
        decreases name.rank(), old(self)@.steps_left(), 99nat,
    {
        match name {
            StateName::SpaceOrTabStart(options) => partial_space_or_tab::start(self, options),
            StateName::SpaceOrTabInside(info) => partial_space_or_tab::inside(self, info),
            StateName::SpaceOrTabEolStart(options) => partial_space_or_tab::eol_start(self, options),
            StateName::SpaceOrTabEolAfterFirst(info) => partial_space_or_tab::eol_after_first(self, info),
            StateName::SpaceOrTabEolAfterEol(info) => partial_space_or_tab::eol_after_eol(self, info),
            StateName::SpaceOrTabEolAfterMore => partial_space_or_tab::eol_after_more(self),
            StateName::BlankLineStart => blank_line::start(self),
            StateName::BlankLineAfter => blank_line::after(self),
            StateName::ThematicBreakStart => thematic_break::start(self),
            StateName::ThematicBreakBefore => thematic_break::before(self),
            StateName::ThematicBreakAtBreak(info) => thematic_break::at_break(self, info),
            StateName::ThematicBreakSequence(info) => thematic_break::sequence(self, info),
            StateName::ListStart => list::start(self),
            StateName::ListBefore => list::before(self),
            StateName::ListBeforeUnordered => list::before_unordered(self),
            StateName::ListInside(size) => list::inside(self, size),
            StateName::ListMarker => list::marker(self),
            StateName::ListMarkerAfter => list::marker_after(self),
            StateName::ListMarkerAfterNotBlank => list::marker_after_not_blank(self),
            StateName::ListWhitespace => list::whitespace(self),
            StateName::ListWhitespaceAfter => list::whitespace_after(self),
            StateName::ListPrefixOther => list::prefix_other(self),
            StateName::ListAfter(blank) => list::after(self, blank),
            StateName::ListCont => list::cont(self),
            StateName::ListBlankCont => list::blank_cont(self),
            StateName::ListNotBlankCont => list::not_blank_cont(self),
            StateName::ListOk => list::ok(self),
            StateName::ListNok => list::nok(self),
            StateName::TitleStart(options) => partial_title::start(self, options),
            StateName::TitleBegin(info) => partial_title::begin(self, info),
            StateName::TitleAtBreak(info) => partial_title::at_break(self, info),
            StateName::TitleInside(info) => partial_title::title(self, info),
            StateName::TitleEscape(info) => partial_title::escape(self, info),
        }
    }
}

} // verus!
