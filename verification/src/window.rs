//! The window frame: the smallest grid a pane is given, and which edge of the borderless
//! window a pointer resizes from.
use vstd::prelude::*;

verus! {

/// A pane never has fewer columns than this.
pub const MIN_COLS: usize = 10;

/// Each side of a pane split by a ratio keeps at least this many columns.
pub const MIN_SPLIT_COLS: usize = 5;

/// A pane never has fewer rows than this.
pub const MIN_ROWS: usize = 5;

pub open spec fn at_least(n: nat, floor: nat) -> nat {
    if n < floor { floor } else { n }
}

/// The grid of a pane that the window's pixels fit `fit_cols` by `fit_rows` cells into,
/// widened to the smallest usable grid.
pub fn grid_size(fit_cols: usize, fit_rows: usize) -> (r: (usize, usize))
    ensures
        r.0 == at_least(fit_cols as nat, MIN_COLS as nat),
        r.1 == at_least(fit_rows as nat, MIN_ROWS as nat),
{
    let cols = if fit_cols < MIN_COLS { MIN_COLS } else { fit_cols };
    let rows = if fit_rows < MIN_ROWS { MIN_ROWS } else { fit_rows };
    (cols, rows)
}

/// The grids of the two sides of a pane split by a ratio: left columns, right columns and
/// the rows they share, each widened to its minimum.
pub fn split_grid_size(fit_left: usize, fit_right: usize, fit_rows: usize) -> (r: (usize, usize, usize))
    ensures
        r.0 == at_least(fit_left as nat, MIN_SPLIT_COLS as nat),
        r.1 == at_least(fit_right as nat, MIN_SPLIT_COLS as nat),
        r.2 == at_least(fit_rows as nat, MIN_ROWS as nat),
{
    let left = if fit_left < MIN_SPLIT_COLS { MIN_SPLIT_COLS } else { fit_left };
    let right = if fit_right < MIN_SPLIT_COLS { MIN_SPLIT_COLS } else { fit_right };
    let rows = if fit_rows < MIN_ROWS { MIN_ROWS } else { fit_rows };
    (left, right, rows)
}

/// The direction a window edge or corner is dragged in.
#[derive(Clone, Copy, Debug, PartialEq, Eq, Structural)]
pub enum Direction {
    North,
    South,
    East,
    West,
    NorthEast,
    NorthWest,
    SouthEast,
    SouthWest,
}

/// The pointer shown over a resize edge.
#[derive(Clone, Copy, Debug, PartialEq, Eq, Structural)]
pub enum ResizeCursor {
    Vertical,
    Horizontal,
    DiagonalDown,
    DiagonalUp,
}

/// Which way the window resizes from a pointer that is within the edge band on the
/// named sides. The top band is the title bar, which moves the window, so nothing
/// resizes from there; a bottom corner wins over a bottom edge, and the left side over
/// the right.
pub open spec fn edge_direction(top: bool, bottom: bool, left: bool, right: bool) -> Option<Direction> {
    if top {
        None
    } else if bottom && left {
        Some(Direction::SouthWest)
    } else if bottom && right {
        Some(Direction::SouthEast)
    } else if bottom {
        Some(Direction::South)
    } else if left {
        Some(Direction::West)
    } else if right {
        Some(Direction::East)
    } else {
        None
    }
}

pub open spec fn faces_north(d: Direction) -> bool {
    d == Direction::North || d == Direction::NorthEast || d == Direction::NorthWest
}

/// The resize direction for a pointer in the edge bands named by the flags.
pub fn resize_direction(top: bool, bottom: bool, left: bool, right: bool) -> (r: Option<Direction>)
    ensures
        r == edge_direction(top, bottom, left, right),
        r is Some <==> !top && (bottom || left || right),
        r matches Some(d) ==> !faces_north(d),
{
    if top {
        return None;
    }
    if bottom {
        if left {
            Some(Direction::SouthWest)
        } else if right {
            Some(Direction::SouthEast)
        } else {
            Some(Direction::South)
        }
    } else if left {
        Some(Direction::West)
    } else if right {
        Some(Direction::East)
    } else {
        None
    }
}

pub open spec fn cursor_for(dir: Direction) -> ResizeCursor {
    match dir {
        Direction::North | Direction::South => ResizeCursor::Vertical,
        Direction::East | Direction::West => ResizeCursor::Horizontal,
        Direction::NorthWest | Direction::SouthEast => ResizeCursor::DiagonalDown,
        Direction::NorthEast | Direction::SouthWest => ResizeCursor::DiagonalUp,
    }
}

/// The pointer for dragging in `dir`: the arrow lies along the direction of the drag.
pub fn dir_to_cursor(dir: Direction) -> (c: ResizeCursor)
    ensures
        c == cursor_for(dir),
{
    match dir {
        Direction::North | Direction::South => ResizeCursor::Vertical,
        Direction::East | Direction::West => ResizeCursor::Horizontal,
        Direction::NorthWest | Direction::SouthEast => ResizeCursor::DiagonalDown,
        Direction::NorthEast | Direction::SouthWest => ResizeCursor::DiagonalUp,
    }
}

} // verus!
