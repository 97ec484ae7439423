use hecto::{Document, NavKey, Position};
use hecto::navigate::{move_cursor, scroll};

fn doc() -> Document {
    Document::from_text("abc\nx\nlonger", None)
}

#[test]
fn up_and_down_stay_in_bounds() {
    let d = doc();
    let p = move_cursor(&d, &Position { x: 0, y: 0 }, NavKey::Up, 10);
    assert_eq!((p.x, p.y), (0, 0));
    let p = move_cursor(&d, &Position { x: 0, y: 2 }, NavKey::Down, 10);
    assert_eq!((p.x, p.y), (0, 3));
    let p = move_cursor(&d, &Position { x: 0, y: 3 }, NavKey::Down, 10);
    assert_eq!((p.x, p.y), (0, 3));
}

#[test]
fn vertical_move_reclamps_column_to_shorter_row() {
    let d = doc();
    // from the end of "abc" down onto "x": column clamps to 1
    let p = move_cursor(&d, &Position { x: 3, y: 0 }, NavKey::Down, 10);
    assert_eq!((p.x, p.y), (1, 1));
    // below the last row there is no row: column clamps to 0
    let p = move_cursor(&d, &Position { x: 4, y: 2 }, NavKey::Down, 10);
    assert_eq!((p.x, p.y), (0, 3));
}

#[test]
fn left_wraps_to_end_of_previous_row() {
    let d = doc();
    let p = move_cursor(&d, &Position { x: 0, y: 1 }, NavKey::Left, 10);
    assert_eq!((p.x, p.y), (3, 0));
    let p = move_cursor(&d, &Position { x: 2, y: 0 }, NavKey::Left, 10);
    assert_eq!((p.x, p.y), (1, 0));
    let p = move_cursor(&d, &Position { x: 0, y: 0 }, NavKey::Left, 10);
    assert_eq!((p.x, p.y), (0, 0));
}

#[test]
fn right_wraps_to_start_of_next_row() {
    let d = doc();
    let p = move_cursor(&d, &Position { x: 3, y: 0 }, NavKey::Right, 10);
    assert_eq!((p.x, p.y), (0, 1));
    let p = move_cursor(&d, &Position { x: 1, y: 0 }, NavKey::Right, 10);
    assert_eq!((p.x, p.y), (2, 0));
}

#[test]
fn home_and_end_snap_to_row_bounds() {
    let d = doc();
    let p = move_cursor(&d, &Position { x: 2, y: 2 }, NavKey::Home, 10);
    assert_eq!((p.x, p.y), (0, 2));
    let p = move_cursor(&d, &Position { x: 0, y: 2 }, NavKey::End, 10);
    assert_eq!((p.x, p.y), (6, 2));
}

#[test]
fn page_moves_jump_by_viewport_height() {
    let d = Document::from_text("a\nb\nc\nd\ne\nf", None);
    let p = move_cursor(&d, &Position { x: 0, y: 5 }, NavKey::PageUp, 2);
    assert_eq!((p.x, p.y), (0, 3));
    let p = move_cursor(&d, &Position { x: 0, y: 1 }, NavKey::PageUp, 5);
    assert_eq!((p.x, p.y), (0, 0));
    let p = move_cursor(&d, &Position { x: 0, y: 0 }, NavKey::PageDown, 2);
    assert_eq!((p.x, p.y), (0, 2));
    let p = move_cursor(&d, &Position { x: 0, y: 5 }, NavKey::PageDown, 9);
    assert_eq!((p.x, p.y), (0, 6));
}

#[test]
fn scroll_down_minimally_then_back_up() {
    // viewport height 10, cursor at y = 25: the offset becomes 25 - 10 + 1
    let off = scroll(&Position { x: 0, y: 25 }, &Position { x: 0, y: 0 }, 80, 10);
    assert_eq!((off.x, off.y), (0, 16));
    // cursor back up to y = 5: the offset follows it exactly
    let off = scroll(&Position { x: 0, y: 5 }, &off, 80, 10);
    assert_eq!((off.x, off.y), (0, 5));
}

#[test]
fn scroll_keeps_offset_when_cursor_visible() {
    let off = scroll(&Position { x: 3, y: 4 }, &Position { x: 1, y: 2 }, 10, 10);
    assert_eq!((off.x, off.y), (1, 2));
}

#[test]
fn scroll_is_minimal_horizontally() {
    let off = scroll(&Position { x: 12, y: 0 }, &Position { x: 0, y: 0 }, 10, 10);
    assert_eq!((off.x, off.y), (3, 0));
    let off = scroll(&Position { x: 1, y: 0 }, &off, 10, 10);
    assert_eq!((off.x, off.y), (1, 0));
}
