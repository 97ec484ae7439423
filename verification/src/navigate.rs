//! Cursor movement and viewport scrolling: pure arithmetic over the current
//! cursor position, the document's row lengths and count, and the viewport
//! dimensions.
//!
//! Movement is two-phase: the raw move of `moved`, then a clamp of the
//! column against the destination row's width, since a vertical move can
//! land on a shorter row.

use vstd::prelude::*;
use crate::Position;
use crate::document::{Document, Grid, row_width};

verus! {

/// A navigation command.
#[derive(Clone, Copy, PartialEq, Eq, Structural, Debug)]
pub enum NavKey {
    Up,
    Down,
    Left,
    Right,
    PageUp,
    PageDown,
    Home,
    End,
}

/// The raw cursor target of one navigation command, before the column is
/// re-clamped: vertical moves stay within `[0, row count]` (one past the
/// last row is a valid resting line), `Left` at column zero wraps to the
/// end of the previous row, `Right` at the end of a row wraps to the start
/// of the next, and page moves jump by one viewport height.
pub open spec fn moved(g: Grid, c: Position, key: NavKey, page: usize) -> Position {
    match key {
        NavKey::Up => Position { x: c.x, y: if c.y > 0 { (c.y - 1) as usize } else { 0 } },
        NavKey::Down => Position {
            x: c.x,
            y: if c.y < g.len() { (c.y + 1) as usize } else { c.y },
        },
        NavKey::Left => {
            if c.x > 0 {
                Position { x: (c.x - 1) as usize, y: c.y }
            } else if c.y > 0 {
                Position { x: row_width(g, (c.y - 1) as usize) as usize, y: (c.y - 1) as usize }
            } else {
                c
            }
        },
        NavKey::Right => {
            if c.x < row_width(g, c.y) {
                Position { x: (c.x + 1) as usize, y: c.y }
            } else if c.y < g.len() {
                Position { x: 0, y: (c.y + 1) as usize }
            } else {
                c
            }
        },
        NavKey::PageUp => Position {
            x: c.x,
            y: if c.y > page { (c.y - page) as usize } else { 0 },
        },
        NavKey::PageDown => Position {
            x: c.x,
            y: if c.y + page < g.len() { (c.y + page) as usize } else { g.len() as usize },
        },
        NavKey::Home => Position { x: 0, y: c.y },
        NavKey::End => Position { x: row_width(g, c.y) as usize, y: c.y },
    }
}

/// The second phase: the column clamped to the width of the row the cursor
/// landed on (zero where it rests below the last row).
pub open spec fn clamped(g: Grid, c: Position) -> Position {
    if c.x > row_width(g, c.y) {
        Position { x: row_width(g, c.y) as usize, y: c.y }
    } else {
        c
    }
}

/// The scroll offset moved the least amount needed to keep the cursor
/// inside a `width x height` viewport: each axis scrolls back to the cursor
/// when the cursor is before the offset, scrolls minimally forward when the
/// cursor is at or past the far edge, and otherwise stays.
pub open spec fn scrolled(c: Position, offset: Position, width: usize, height: usize) -> Position {
    let y = if c.y < offset.y {
        c.y
    } else if c.y >= offset.y + height {
        if c.y - height < usize::MAX { (c.y - height + 1) as usize } else { usize::MAX }
    } else {
        offset.y
    };
    let x = if c.x < offset.x {
        c.x
    } else if c.x >= offset.x + width {
        if c.x - width < usize::MAX { (c.x - width + 1) as usize } else { usize::MAX }
    } else {
        offset.x
    };
    Position { x, y }
}

/// Width of the row the cursor rests on, taken from the live document
/// (zero where `y` has no row).
fn width_at(doc: &Document, y: usize) -> (w: usize)
    requires
        doc.wf(),
    ensures
        w == row_width(doc.grid(), y),
{
    match doc.row(y) {
        Some(row) => row.len(),
        None => 0,
    }
}

/// The next cursor position for one navigation command: the raw move, then
/// the column re-clamped against the destination row's current width.
pub fn move_cursor(doc: &Document, cursor: &Position, key: NavKey, page: usize) -> (r: Position)
    requires
        doc.wf(),
    ensures
        r == clamped(doc.grid(), moved(doc.grid(), *cursor, key, page)),
{
    let height: usize = doc.len();
    let mut x: usize = cursor.x;
    let mut y: usize = cursor.y;
    let width: usize = width_at(doc, y);

    match key {
        NavKey::Up => {
            if y > 0 {
                y = y - 1;
            }
        },
        NavKey::Down => {
            if y < height {
                y = y + 1;
            }
        },
        NavKey::Left => {
            if x > 0 {
                x = x - 1;
            } else if y > 0 {
                y = y - 1;
                x = width_at(doc, y);
            }
        },
        NavKey::Right => {
            if x < width {
                x = x + 1;
            } else if y < height {
                y = y + 1;
                x = 0;
            }
        },
        NavKey::PageUp => {
            if y > page {
                y = y - page;
            } else {
                y = 0;
            }
        },
        NavKey::PageDown => {
            if page <= height && y < height - page {
                y = y + page;
            } else {
                y = height;
            }
        },
        NavKey::Home => {
            x = 0;
        },
        NavKey::End => {
            x = width;
        },
    }

    let new_width: usize = width_at(doc, y);
    if x > new_width {
        x = new_width;
    }
    Position { x, y }
}

/// The next scroll offset for the current cursor and viewport size
/// (see `scrolled`).
pub fn scroll(cursor: &Position, offset: &Position, width: usize, height: usize) -> (r: Position)
    ensures
        r == scrolled(*cursor, *offset, width, height),
{
    let mut new_offset = Position { x: offset.x, y: offset.y };
    let y: usize = cursor.y;
    let x: usize = cursor.x;

    if y < new_offset.y {
        new_offset.y = y;
    } else if height <= y && new_offset.y <= y - height {
        new_offset.y = if y - height < usize::MAX { y - height + 1 } else { usize::MAX };
    }

    if x < new_offset.x {
        new_offset.x = x;
    } else if width <= x && new_offset.x <= x - width {
        new_offset.x = if x - width < usize::MAX { x - width + 1 } else { usize::MAX };
    }

    new_offset
}

} // verus!
