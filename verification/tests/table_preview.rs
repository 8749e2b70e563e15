use nctui::table_preview::{
    scroll_down, scroll_hint, scroll_left, scroll_right, scroll_up, table_window, truncate,
    TableWindow,
};

#[test]
fn test_truncate() {
    assert_eq!(truncate("hello", 10), "hello");
    assert_eq!(truncate("hello world", 6), "hello\u{2026}");
}

#[test]
fn test_scroll() {
    // A one-column table of 50 rows.
    let total_rows = 50;
    let mut row = 0;
    assert_eq!(row, 0);
    row = scroll_down(row, 10, total_rows);
    assert_eq!(row, 10);
    row = scroll_up(row, 3);
    assert_eq!(row, 7);
    row = scroll_up(row, 100);
    assert_eq!(row, 0);
    row = scroll_down(row, 1000, total_rows);
    assert_eq!(row, 49);
}

#[test]
fn test_scroll_cols() {
    // A table with 20 columns.
    let total_cols = 20;
    let mut col = 0;
    col = scroll_right(col, 5, total_cols);
    assert_eq!(col, 5);
    col = scroll_left(col, 2);
    assert_eq!(col, 3);
    col = scroll_right(col, 100, total_cols);
    assert_eq!(col, 19);
}

#[test]
fn truncate_edge_cases() {
    assert_eq!(truncate("", 0), "");
    assert_eq!(truncate("abc", 3), "abc");
    assert_eq!(truncate("abcd", 3), "ab\u{2026}");
    assert_eq!(truncate("abcd", 1), "\u{2026}");
    assert_eq!(truncate("abcd", 0), "\u{2026}");
}

#[test]
fn scrolling_an_empty_table_stays_at_zero() {
    assert_eq!(scroll_down(0, 5, 0), 0);
    assert_eq!(scroll_right(0, 5, 0), 0);
    assert_eq!(scroll_right(3, 5, 0), 3);
}

#[test]
fn scroll_down_then_up_returns() {
    assert_eq!(scroll_up(scroll_down(4, 3, 50), 3), 4);
}

#[test]
fn window_of_a_wide_table() {
    // Inner area 60 x 14: (60 - 10) / 12 = 4 columns, 14 - 3 = 11 rows.
    let w = table_window(60, 14, 0, 0, 100, 20);
    assert_eq!(
        w,
        TableWindow { col_start: 0, col_end: 4, row_start: 0, row_end: 11 }
    );
    // Near the end the window is cut at the table's edge.
    let w = table_window(60, 14, 95, 18, 100, 20);
    assert_eq!(
        w,
        TableWindow { col_start: 18, col_end: 20, row_start: 95, row_end: 100 }
    );
    // A narrow area still shows one column.
    let w = table_window(12, 2, 0, 0, 5, 5);
    assert_eq!(
        w,
        TableWindow { col_start: 0, col_end: 1, row_start: 0, row_end: 0 }
    );
}

#[test]
fn scroll_hint_text() {
    let w = TableWindow { col_start: 0, col_end: 3, row_start: 0, row_end: 5 };
    assert_eq!(
        scroll_hint(w, 50, 3),
        "Row 1-5/50 Col 1-3/3 | \u{2191}\u{2193}\u{2190}\u{2192} scroll  Esc close"
    );
}
