//! Stretches of the input between two places.
use vstd::prelude::*;
use vstd::slice::slice_subrange;
use crate::constant::{SPACE, TAB_SIZE};
use crate::token::Point;

verus! {

/// Two places in the input.
#[derive(Clone, Copy, Debug, PartialEq, Eq)]
pub struct Position {
    /// Where the stretch starts.
    pub start: Point,
    /// Where the stretch ends.
    pub end: Point,
}

/// The bytes between two places, with the columns of partly read tabs at
/// either edge.
#[derive(Debug)]
pub struct Slice<'a> {
    /// The whole bytes of the stretch.
    pub bytes: &'a [u8],
    /// The columns at the start that belong to a tab before the bytes.
    pub before: usize,
    /// The columns at the end that belong to a tab after the bytes.
    pub after: usize,
}

/// Whether `position` is a stretch of `bytes`.
pub open spec fn position_valid(bytes: Seq<u8>, position: Position) -> bool {
    &&& position.start.index <= position.end.index <= bytes.len()
    &&& position.start.vs < TAB_SIZE
    &&& position.end.vs < TAB_SIZE
}

/// Whether `position` starts and ends inside one tab.
pub open spec fn in_one_tab(position: Position) -> bool {
    position.start.vs > 0 && position.start.index == position.end.index
}

/// The index of the first whole byte of `position`: a tab that was partly
/// read before the start is not one.
pub open spec fn first_whole(position: Position) -> int {
    if position.start.vs > 0 && !in_one_tab(position) {
        position.start.index + 1
    } else {
        position.start.index as int
    }
}

/// The columns before the whole bytes of `position`.
pub open spec fn columns_before(position: Position) -> int {
    if position.start.vs > 0 && !in_one_tab(position) {
        TAB_SIZE - position.start.vs
    } else {
        0
    }
}

/// The columns after the whole bytes of `position`.
pub open spec fn columns_after(position: Position) -> int {
    if !in_one_tab(position) {
        position.end.vs as int
    } else if position.end.vs >= position.start.vs {
        position.end.vs - position.start.vs
    } else {
        0
    }
}

/// The size of `position`: its whole bytes and the columns of partly read
/// tabs at its edges.
pub open spec fn size_of(position: Position) -> int {
    position.end.index - first_whole(position) + columns_before(position) + columns_after(position)
}

impl<'a> Slice<'a> {
    /// The stretch of `bytes` that `position` bounds.
    pub fn from_position(bytes: &'a [u8], position: &Position) -> (slice: Slice<'a>)
        requires
            position_valid(bytes@, *position),
        ensures
            slice.bytes@ == bytes@.subrange(first_whole(*position), position.end.index as int),
            slice.before == columns_before(*position),
            slice.after == columns_after(*position),
            slice.bytes@.len() + slice.before + slice.after == size_of(*position),
    {
        let mut start: usize = position.start.index;
        let mut before: usize = 0;
        let mut after: usize = position.end.vs;
        if position.start.vs > 0 {
            if position.start.index < position.end.index {
                before = TAB_SIZE - position.start.vs;
                start += 1;
            } else if position.end.vs >= position.start.vs {
                after = position.end.vs - position.start.vs;
            } else {
                after = 0;
            }
        }
        Slice { bytes: slice_subrange(bytes, start, position.end.index), before, after }
    }

    /// The stretch of `bytes` that holds the one byte or column at `point`.
    pub fn from_point(bytes: &'a [u8], point: &Point) -> (slice: Slice<'a>)
        requires
            point.index <= bytes@.len(),
        ensures
            slice.first_byte() == crate::token::byte_at(bytes@, *point),
    {
        if point.index >= bytes.len() {
            Slice { bytes: slice_subrange(bytes, point.index, point.index), before: 0, after: 0 }
        } else if point.vs > 0 {
            Slice { bytes: slice_subrange(bytes, point.index, point.index), before: 1, after: 0 }
        } else {
            Slice { bytes: slice_subrange(bytes, point.index, point.index + 1), before: 0, after: 0 }
        }
    }

    /// The number of bytes and columns in the stretch.
    pub fn size(&self) -> (size: usize)
        requires
            self.bytes@.len() + self.before + self.after <= usize::MAX,
        ensures
            size == self.bytes@.len() + self.before + self.after,
    {
        self.bytes.len() + self.before + self.after
    }

    /// The first byte of the stretch: a space for a column of a tab.
    pub open spec fn first_byte(&self) -> Option<u8> {
        if self.before > 0 {
            Some(SPACE)
        } else if self.bytes@.len() > 0 {
            Some(self.bytes@[0])
        } else if self.after > 0 {
            Some(SPACE)
        } else {
            None
        }
    }

    /// The first byte of the stretch: a space for a column of a tab.
    pub fn head(&self) -> (byte: Option<u8>)
        ensures
            byte == self.first_byte(),
    {
        if self.before > 0 {
            Some(SPACE)
        } else if self.bytes.len() > 0 {
            Some(self.bytes[0])
        } else if self.after > 0 {
            Some(SPACE)
        } else {
            None
        }
    }
}

} // verus!
