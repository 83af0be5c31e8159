//! # liquid_crystal_ui
//! A retained mode UI library for small alphanumeric LCD displays, like the
//! ones on cash registers.
//!
//! The library keeps the state of on-screen widgets, their queued transitions
//! and the storage containers that hold them. Talking to the display itself is
//! the job of a backend driver.

pub mod backend;
pub mod error;
pub mod num;
pub mod storage;
pub mod ui;

use vstd::prelude::*;

verus! {

/// Screen coordinates on the display.
#[derive(Clone, Copy, Debug, PartialEq, Eq, PartialOrd, Ord, Hash)]
pub struct ScreenCoordinates {
    /// The Y coordinate.
    row: u8,
    /// The X coordinate.
    col: u8,
}

impl ScreenCoordinates {
    /// The column (X coordinate) of these coordinates.
    pub closed spec fn spec_col(self) -> u8 {
        self.col
    }

    /// The row (Y coordinate) of these coordinates.
    pub closed spec fn spec_row(self) -> u8 {
        self.row
    }

    /// The coordinates at column `x`, row `y`.
    pub closed spec fn spec_at(x: u8, y: u8) -> Self {
        ScreenCoordinates { row: y, col: x }
    }

    /// The coordinates at column `x`, row `y` have column `x` and row `y`.
    pub broadcast proof fn lemma_spec_at(x: u8, y: u8)
        ensures
            #[trigger] Self::spec_at(x, y).spec_col() == x,
            Self::spec_at(x, y).spec_row() == y,
    {
    }

    /// Coordinates are determined by their column and row.
    pub broadcast proof fn lemma_determined(c: Self)
        ensures
            c == Self::spec_at(#[trigger] c.spec_col(), c.spec_row()),
    {
    }

    /// Creates coordinates from an X (column) and a Y (row), so that `row` and
    /// `col` cannot be mixed up with `y` and `x`.
    pub fn at(x: u8, y: u8) -> (r: Self)
        ensures
            r == Self::spec_at(x, y),
    {
        ScreenCoordinates { row: y, col: x }
    }

    /// The X coordinate (column).
    pub fn x(&self) -> (r: u8)
        ensures
            r == self.spec_col(),
    {
        self.col
    }

    /// The Y coordinate (row).
    pub fn y(&self) -> (r: u8)
        ensures
            r == self.spec_row(),
    {
        self.row
    }

    /// The column (X coordinate).
    pub fn col(&self) -> (r: u8)
        ensures
            r == self.spec_col(),
    {
        self.col
    }

    /// The row (Y coordinate).
    pub fn row(&self) -> (r: u8)
        ensures
            r == self.spec_row(),
    {
        self.row
    }
}

impl From<(u8, u8)> for ScreenCoordinates {
    /// `(x, y)` becomes column `x`, row `y`.
    fn from(value: (u8, u8)) -> (r: Self) {
        ScreenCoordinates::at(value.0, value.1)
    }
}

impl vstd::std_specs::convert::FromSpecImpl<(u8, u8)> for ScreenCoordinates {
    open spec fn obeys_from_spec() -> bool {
        true
    }

    open spec fn from_spec(v: (u8, u8)) -> Self {
        ScreenCoordinates::spec_at(v.0, v.1)
    }
}

} // verus!
