//! Numbers shared by the constructs.
use vstd::prelude::*;

verus! {

/// The number of columns between two tab stops.
pub const TAB_SIZE: usize = 4;

/// One more than the number of digits that a list item value may have.
pub const LIST_ITEM_VALUE_SIZE_MAX: usize = 10;

/// The fewest markers that make a thematic break.
pub const THEMATIC_BREAK_MARKER_COUNT_MIN: usize = 3;

/// The byte of a tab.
pub const TAB: u8 = 9;

/// The byte of a line feed.
pub const LINE_FEED: u8 = 10;

/// The byte of a space.
pub const SPACE: u8 = 32;

/// The byte of `"`.
pub const QUOTATION_MARK: u8 = 34;

/// The byte of `'`.
pub const APOSTROPHE: u8 = 39;

/// The byte of `(`.
pub const LEFT_PAREN: u8 = 40;

/// The byte of `)`.
pub const RIGHT_PAREN: u8 = 41;

/// The byte of `*`.
pub const ASTERISK: u8 = 42;

/// The byte of `+`.
pub const PLUS: u8 = 43;

/// The byte of `-`.
pub const DASH: u8 = 45;

/// The byte of `.`.
pub const DOT: u8 = 46;

/// The byte of `0`.
pub const DIGIT_0: u8 = 48;

/// The byte of `1`.
pub const DIGIT_1: u8 = 49;

/// The byte of `9`.
pub const DIGIT_9: u8 = 57;

/// The byte of `\`.
pub const BACKSLASH: u8 = 92;

/// The byte of `_`.
pub const UNDERSCORE: u8 = 95;

} // verus!
