use hecto::Row;

fn row_text(row: &Row) -> String {
    String::from_utf8(row.as_bytes().to_vec()).unwrap()
}

#[test]
fn empty_row_has_length_zero() {
    let row = Row::from("");
    assert_eq!(row.len(), 0);
    assert!(row.is_empty());
}

#[test]
fn insert_multibyte_counts_one() {
    let mut row = Row::from("");
    row.insert(0, '\u{fc}');
    assert_eq!(row.len(), 1);
    assert!(!row.is_empty());
    assert_eq!(row_text(&row), "\u{fc}");
}

#[test]
fn insert_wide_char_counts_one() {
    let mut row = Row::from("");
    row.insert(0, '\u{1f980}');
    assert_eq!(row.len(), 1);
    assert_eq!(row.as_bytes().len(), 4);
}

#[test]
fn insert_middle_and_append_beyond_end() {
    let mut row = Row::from("hllo");
    row.insert(1, 'e');
    assert_eq!(row_text(&row), "hello");
    assert_eq!(row.len(), 5);
    row.insert(100, '!');
    assert_eq!(row_text(&row), "hello!");
    assert_eq!(row.len(), 6);
}

#[test]
fn insert_then_delete_restores_row() {
    let mut row = Row::from("hello");
    row.insert(2, 'x');
    assert_eq!(row_text(&row), "hexllo");
    row.delete(2);
    assert_eq!(row_text(&row), "hello");
    assert_eq!(row.len(), 5);
}

#[test]
fn delete_out_of_range_is_noop() {
    let mut row = Row::from("ab");
    row.delete(2);
    row.delete(99);
    assert_eq!(row_text(&row), "ab");
    assert_eq!(row.len(), 2);
}

#[test]
fn delete_removes_whole_cluster() {
    // "e" followed by a combining acute accent is one cluster.
    let mut row = Row::from("ae\u{301}b");
    assert_eq!(row.len(), 3);
    row.delete(1);
    assert_eq!(row_text(&row), "ab");
    assert_eq!(row.len(), 2);
}

#[test]
fn split_then_append_restores_row() {
    let mut row = Row::from("h\u{e9}llo");
    let tail = row.split(2);
    assert_eq!(row_text(&row), "h\u{e9}");
    assert_eq!(row.len(), 2);
    assert_eq!(tail.len(), 3);
    row.append(&tail);
    assert_eq!(row_text(&row), "h\u{e9}llo");
    assert_eq!(row.len(), 5);
}

#[test]
fn split_beyond_end_returns_empty_tail() {
    let mut row = Row::from("ab");
    let tail = row.split(10);
    assert_eq!(row.len(), 2);
    assert_eq!(tail.len(), 0);
}

#[test]
fn render_full_range_reproduces_text() {
    let row = Row::from("h\u{e9}llo");
    assert_eq!(row.render(0, row.len()), "h\u{e9}llo");
}

#[test]
fn render_substitutes_tab_with_space() {
    let row = Row::from("a\tb");
    assert_eq!(row.render(0, 3), "a b");
}

#[test]
fn render_clamps_range() {
    let row = Row::from("hello");
    assert_eq!(row.render(1, 3), "el");
    assert_eq!(row.render(3, 100), "lo");
    assert_eq!(row.render(4, 2), "");
}

#[test]
fn find_counts_grapheme_clusters_not_bytes() {
    // One multi-codepoint cluster, then ASCII: the match index is in
    // clusters (1), not code points (2) nor bytes (3).
    let row = Row::from("e\u{301}abc");
    assert_eq!(row.len(), 4);
    assert_eq!(row.find("ab", 0), Some(1));
    assert_eq!(row.find("c", 0), Some(3));
}

#[test]
fn find_starts_at_after() {
    let row = Row::from("abcabc");
    assert_eq!(row.find("abc", 0), Some(0));
    assert_eq!(row.find("abc", 1), Some(3));
    assert_eq!(row.find("abc", 4), None);
    assert_eq!(row.find("zzz", 0), None);
}

#[test]
fn as_bytes_has_no_trailing_newline() {
    let row = Row::from("line");
    assert_eq!(row.as_bytes(), b"line");
}

#[test]
fn find_rejects_match_starting_inside_cluster() {
    // The combining mark sits inside the first cluster, so a query starting
    // with it can begin at no cluster boundary.
    let row = Row::from("e\u{301}b");
    assert_eq!(row.find("\u{301}b", 0), None);
}

#[test]
fn find_matches_query_spanning_whole_cluster() {
    let row = Row::from("e\u{301}b");
    assert_eq!(row.find("e\u{301}b", 0), Some(0));
    assert_eq!(row.find("b", 0), Some(1));
}
