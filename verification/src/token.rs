//! Names of spans, places in the input, and the events that tie them together.
use vstd::prelude::*;
use crate::constant::{LINE_FEED, SPACE, TAB, TAB_SIZE};

verus! {

/// The semantic name of a span.
#[derive(Clone, Copy, Debug, PartialEq, Eq, Structural)]
pub enum Token {
    /// A blank line ending: a line ending that follows only whitespace.
    BlankLineEnding,
    /// The prefix of a block quote.
    BlockQuotePrefix,
    /// Plain data.
    Data,
    /// The title of a definition.
    DefinitionTitle,
    /// A marker around the title of a definition.
    DefinitionTitleMarker,
    /// The text between the markers of a definition title.
    DefinitionTitleString,
    /// A line ending.
    LineEnding,
    /// A whole list item.
    ListItem,
    /// The marker of a list item: `*`, `+`, `-`, `.`, or `)`.
    ListItemMarker,
    /// Everything of a list item up to its content.
    ListItemPrefix,
    /// The digits of an ordered list item.
    ListItemValue,
    /// A run of adjacent list items with a `.` or `)` marker.
    ListOrdered,
    /// A run of adjacent list items with a `*`, `+`, or `-` marker.
    ListUnordered,
    /// The title of a resource.
    ResourceTitle,
    /// A marker around the title of a resource.
    ResourceTitleMarker,
    /// The text between the markers of a resource title.
    ResourceTitleString,
    /// A run of spaces and tabs.
    SpaceOrTab,
    /// A whole thematic break.
    ThematicBreak,
    /// A run of markers in a thematic break.
    ThematicBreakSequence,
}

/// Whether an event opens or closes a span.
#[derive(Clone, Copy, Debug, PartialEq, Eq, Structural)]
pub enum EventType {
    /// The start of a span.
    Enter,
    /// The end of a span.
    Exit,
}

/// The kind of content that a span holds, to be tokenized in a later pass.
#[derive(Clone, Copy, Debug, PartialEq, Eq, Structural)]
pub enum ContentType {
    /// Block structure.
    Flow,
    /// A paragraph or definition.
    Content,
    /// Text in which only escapes and references are recognized.
    String,
    /// Rich text.
    Text,
}

/// A place in the input.
///
/// A tab is read one column at a time: `vs` counts the columns of the tab at
/// `index` that were already read, and is zero everywhere else.
#[derive(Clone, Copy, Debug, PartialEq, Eq)]
pub struct Point {
    /// 1-indexed line number.
    pub line: usize,
    /// 1-indexed column number.
    pub column: usize,
    /// 0-indexed offset into the bytes.
    pub index: usize,
    /// Columns already read of the tab at `index`.
    pub vs: usize,
}

/// The tie of a span with content to the span before it in the same run.
#[derive(Clone, Copy, Debug, PartialEq, Eq)]
pub struct Link {
    /// Index of the enter event of the previous span of this run.
    pub previous: Option<usize>,
    /// The kind of content of the run.
    pub content_type: ContentType,
}

/// One entry of the log.
#[derive(Clone, Copy, Debug, PartialEq, Eq)]
pub struct Event {
    /// Whether the span starts or ends here.
    pub event_type: EventType,
    /// The name of the span.
    pub token_type: Token,
    /// Where the span starts or ends.
    pub point: Point,
    /// Set on the enter event of a span with content.
    pub link: Option<Link>,
}

/// Whether `point` is a place in `bytes` that a cursor can rest on.
pub open spec fn point_valid(bytes: Seq<u8>, point: Point) -> bool {
    &&& point.index <= bytes.len() <= usize::MAX
    &&& point.column >= 1
    &&& point.vs <= (point.column + 3) % 4
    &&& point.vs > 0 ==> point.index < bytes.len() && bytes[point.index as int] == TAB
    &&& point.line + (bytes.len() - point.index) <= usize::MAX
    &&& point.column + 4 * (bytes.len() - point.index) - point.vs <= usize::MAX
}

/// The number of steps a cursor at `point` can take at most before the end.
pub open spec fn steps_left(bytes: Seq<u8>, point: Point) -> nat {
    (4 * (bytes.len() - point.index) - point.vs) as nat
}

/// The byte that a cursor at `point` sees: nothing at the end, a space inside
/// a tab that was partly read, else the byte itself.
pub open spec fn byte_at(bytes: Seq<u8>, point: Point) -> Option<u8> {
    if point.index >= bytes.len() {
        None
    } else if point.vs > 0 {
        Some(SPACE)
    } else {
        Some(bytes[point.index as int])
    }
}

/// The place one step after `point`.
///
/// A line feed starts a new line.  A tab is left once the column reaches a
/// tab stop; until then the step stays on the tab.
pub open spec fn point_after(bytes: Seq<u8>, point: Point) -> Point {
    let byte = bytes[point.index as int];
    if byte == LINE_FEED {
        Point { line: (point.line + 1) as usize, column: 1, index: (point.index + 1) as usize, vs: 0 }
    } else if byte == TAB && point.column % TAB_SIZE != 0 {
        Point { column: (point.column + 1) as usize, vs: (point.vs + 1) as usize, ..point }
    } else {
        Point { column: (point.column + 1) as usize, index: (point.index + 1) as usize, vs: 0, ..point }
    }
}

/// A step keeps the cursor valid and brings it closer to the end.
pub proof fn lemma_point_after(bytes: Seq<u8>, point: Point)
    requires
        point_valid(bytes, point),
        point.index < bytes.len(),
    ensures
        point_valid(bytes, point_after(bytes, point)),
        steps_left(bytes, point_after(bytes, point)) < steps_left(bytes, point),
{
}

} // verus!
