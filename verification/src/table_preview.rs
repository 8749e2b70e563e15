//! The integer and text logic of the table preview: scrolling within the
//! table, the window of rows and columns that fits on screen, and label
//! truncation.
use vstd::prelude::*;

use vstd::string::StringSliceAdditionalSpecFns;
use vstd::utf8::{decode_utf8, encode_utf8_decode_utf8, is_char_boundary};

use crate::text::{decimal, decimal_string, push_char, push_chars, push_str, string_of};

verus! {

/// `a - b`, or 0 when `b > a`.
pub open spec fn sat_sub(a: int, b: int) -> int {
    if a >= b {
        a - b
    } else {
        0
    }
}

/// The byte length at which a label longer than `max_len` bytes is cut.
pub open spec fn cut_point(max_len: usize) -> int {
    sat_sub(max_len as int, 1)
}

/// `s` shortened to at most `max_len` bytes: kept whole when it fits,
/// otherwise its first `max_len - 1` bytes followed by an ellipsis.
pub open spec fn truncate_spec(s: &str, max_len: usize) -> Seq<char> {
    if s.spec_bytes().len() <= max_len {
        s@
    } else {
        decode_utf8(s.spec_bytes().subrange(0, cut_point(max_len))) + seq!['\u{2026}']
    }
}

/// Shorten `s` to at most `max_len` bytes, marking a cut with `…`.
pub fn truncate(s: &str, max_len: usize) -> (r: String)
    requires
        s.spec_bytes().len() > max_len ==> is_char_boundary(s.spec_bytes(), cut_point(max_len)),
    ensures
        r@ == truncate_spec(s, max_len),
{
    let byte_len = s.as_bytes().len();
    if byte_len <= max_len {
        string_of(s)
    } else {
        let k = if max_len >= 1 {
            max_len - 1
        } else {
            0
        };
        let (head, _tail) = s.split_at(k);
        let mut r = string_of(head);
        push_char(&mut r, '\u{2026}');
        proof {
            encode_utf8_decode_utf8(head@);
            assert(head.spec_bytes() == s.spec_bytes().subrange(0, k as int));
            assert(decode_utf8(head.spec_bytes()) == head@);
            assert(r@ =~= head@ + seq!['\u{2026}']);
        }
        r
    }
}

// ---------------------------------------------------------------------------
// Scrolling
// ---------------------------------------------------------------------------
/// Row offset after scrolling down by `n`: stops at the last row.
pub open spec fn scroll_down_spec(cur: usize, n: usize, total_rows: usize) -> int {
    let max = sat_sub(total_rows as int, 1);
    if cur + n <= max {
        cur + n
    } else {
        max
    }
}

/// Scroll down by `n` rows (stays on the last row).
pub fn scroll_down(cur: usize, n: usize, total_rows: usize) -> (r: usize)
    requires
        cur + n <= usize::MAX,
    ensures
        r == scroll_down_spec(cur, n, total_rows),
{
    let max = if total_rows >= 1 {
        total_rows - 1
    } else {
        0
    };
    let want = cur + n;
    if want <= max {
        want
    } else {
        max
    }
}

/// Scroll up by `n` rows (stops at the first row).
pub fn scroll_up(cur: usize, n: usize) -> (r: usize)
    ensures
        r == sat_sub(cur as int, n as int),
{
    if cur >= n {
        cur - n
    } else {
        0
    }
}

/// Column offset after scrolling right by `n`: unchanged when there are no
/// columns, otherwise stops at the last column.
pub open spec fn scroll_right_spec(cur: usize, n: usize, total_cols: usize) -> int {
    if total_cols > 0 {
        if cur + n <= total_cols - 1 {
            cur + n
        } else {
            total_cols - 1
        }
    } else {
        cur as int
    }
}

/// Scroll right by `n` columns (stays on the last column).
pub fn scroll_right(cur: usize, n: usize, total_cols: usize) -> (r: usize)
    requires
        total_cols > 0 ==> cur + n <= usize::MAX,
    ensures
        r == scroll_right_spec(cur, n, total_cols),
{
    if total_cols > 0 {
        let want = cur + n;
        if want <= total_cols - 1 {
            want
        } else {
            total_cols - 1
        }
    } else {
        cur
    }
}

/// Scroll left by `n` columns (stops at the first column).
pub fn scroll_left(cur: usize, n: usize) -> (r: usize)
    ensures
        r == sat_sub(cur as int, n as int),
{
    scroll_up(cur, n)
}

/// Law: scrolling down then up by the same amount returns to the starting
/// row whenever the scroll down was not stopped by the end of the table.
pub proof fn lemma_scroll_down_up(cur: usize, n: usize, total_rows: usize)
    requires
        cur + n < total_rows,
    ensures
        sat_sub(scroll_down_spec(cur, n, total_rows), n as int) == cur,
{
}

/// Law: scrolling keeps the offset on a row of a non-empty table.
pub proof fn lemma_scroll_in_range(cur: usize, n: usize, total_rows: usize)
    requires
        total_rows > 0,
        cur < total_rows,
    ensures
        0 <= scroll_down_spec(cur, n, total_rows) < total_rows,
        0 <= sat_sub(cur as int, n as int) < total_rows,
{
}

/// Law: scrolling down moves by exactly `n` rows while that stays inside
/// the table, and otherwise stops on the last row (row 0 of an empty
/// table); scrolling up moves by exactly `n` or stops on the first row.
pub proof fn lemma_scroll_steps(cur: usize, n: usize, total_rows: usize)
    ensures
        cur + n < total_rows ==> scroll_down_spec(cur, n, total_rows) == cur + n,
        cur + n >= total_rows && total_rows > 0 ==> scroll_down_spec(cur, n, total_rows)
            == total_rows - 1,
        total_rows == 0 ==> scroll_down_spec(cur, n, total_rows) == 0,
        n <= cur ==> sat_sub(cur as int, n as int) == cur - n,
        n > cur ==> sat_sub(cur as int, n as int) == 0,
{
}

/// Law: scrolling right moves by exactly `n` columns while that stays
/// inside the table, otherwise stops on the last column, and leaves the
/// offset alone when there are no columns.
pub proof fn lemma_scroll_right_steps(cur: usize, n: usize, total_cols: usize)
    ensures
        cur + n < total_cols ==> scroll_right_spec(cur, n, total_cols) == cur + n,
        cur + n >= total_cols && total_cols > 0 ==> scroll_right_spec(cur, n, total_cols)
            == total_cols - 1,
        total_cols == 0 ==> scroll_right_spec(cur, n, total_cols) == cur,
{
}

// ---------------------------------------------------------------------------
// Visible window
// ---------------------------------------------------------------------------
/// Width of a data column, in cells.
pub const COL_WIDTH: u16 = 12;

/// Width of the row-header column, in cells.
pub const ROW_HEADER_WIDTH: u16 = 10;

/// The part of the table shown in an inner area of the given size: column
/// and row ranges `[start, end)`.
#[derive(Debug, Clone, Copy, PartialEq, Eq, Structural)]
pub struct TableWindow {
    pub col_start: usize,
    pub col_end: usize,
    pub row_start: usize,
    pub row_end: usize,
}

pub open spec fn min(a: int, b: int) -> int {
    if a <= b {
        a
    } else {
        b
    }
}

/// How many data columns fit next to the row headers (at least one).
pub open spec fn visible_cols_spec(inner_width: u16) -> int {
    let avail = sat_sub(inner_width as int, ROW_HEADER_WIDTH as int);
    if avail / (COL_WIDTH as int) >= 1 {
        avail / (COL_WIDTH as int)
    } else {
        1
    }
}

/// How many data columns fit next to the row headers.
pub fn visible_cols(inner_width: u16) -> (n: usize)
    ensures
        n == visible_cols_spec(inner_width),
{
    let avail = if inner_width >= ROW_HEADER_WIDTH {
        inner_width - ROW_HEADER_WIDTH
    } else {
        0
    };
    let fit = avail / COL_WIDTH;
    if fit >= 1 {
        fit as usize
    } else {
        1
    }
}

/// The window shown: columns from the column offset, as many as fit;
/// rows from the row offset, as many as fit below the header and above
/// the hint line (the area height less 3).
pub open spec fn table_window_spec(
    inner_width: u16,
    inner_height: u16,
    scroll_row: usize,
    scroll_col: usize,
    total_rows: usize,
    total_cols: usize,
) -> TableWindow {
    TableWindow {
        col_start: scroll_col,
        col_end: min(scroll_col + visible_cols_spec(inner_width), total_cols as int) as usize,
        row_start: scroll_row,
        row_end: min(scroll_row + sat_sub(inner_height as int, 3), total_rows as int) as usize,
    }
}

/// Compute the visible window of the table.
pub fn table_window(
    inner_width: u16,
    inner_height: u16,
    scroll_row: usize,
    scroll_col: usize,
    total_rows: usize,
    total_cols: usize,
) -> (w: TableWindow)
    requires
        scroll_col + visible_cols_spec(inner_width) <= usize::MAX,
        scroll_row + sat_sub(inner_height as int, 3) <= usize::MAX,
    ensures
        w == table_window_spec(inner_width, inner_height, scroll_row, scroll_col, total_rows, total_cols),
{
    let visible_cols = visible_cols(inner_width);
    let col_end = if scroll_col + visible_cols <= total_cols {
        scroll_col + visible_cols
    } else {
        total_cols
    };
    let visible_rows: usize = if inner_height >= 3 {
        (inner_height - 3) as usize
    } else {
        0
    };
    let row_end = if scroll_row + visible_rows <= total_rows {
        scroll_row + visible_rows
    } else {
        total_rows
    };
    TableWindow { col_start: scroll_col, col_end, row_start: scroll_row, row_end }
}

/// The scroll hint shown under the table, e.g.
/// `Row 1-5/50 Col 1-3/3 | ↑↓←→ scroll  Esc close`.
pub open spec fn scroll_hint_spec(w: TableWindow, total_rows: usize, total_cols: usize) -> Seq<char> {
    seq!['R', 'o', 'w', ' '] + decimal((w.row_start + 1) as nat) + seq!['-'] + decimal(
        w.row_end as nat,
    ) + seq!['/'] + decimal(total_rows as nat) + seq![' ', 'C', 'o', 'l', ' '] + decimal(
        (w.col_start + 1) as nat,
    ) + seq!['-'] + decimal(w.col_end as nat) + seq!['/'] + decimal(total_cols as nat) + seq![
        ' ',
        '|',
        ' ',
        '\u{2191}',
        '\u{2193}',
        '\u{2190}',
        '\u{2192}',
        ' ',
        's',
        'c',
        'r',
        'o',
        'l',
        'l',
        ' ',
        ' ',
        'E',
        's',
        'c',
        ' ',
        'c',
        'l',
        'o',
        's',
        'e',
    ]
}

/// Law: the window starts at the scroll offsets, never reaches past the
/// table, shows at least one column when any is left, shows only as many
/// columns as fit beside the row headers (12 columns each after a 10-column
/// header) and as many rows as fit below the header and above the hint.
pub proof fn lemma_window_fits(
    inner_width: u16,
    inner_height: u16,
    scroll_row: usize,
    scroll_col: usize,
    total_rows: usize,
    total_cols: usize,
)
    requires
        scroll_col + visible_cols_spec(inner_width) <= usize::MAX,
        scroll_row + sat_sub(inner_height as int, 3) <= usize::MAX,
    ensures
        ({
            let w = table_window_spec(inner_width, inner_height, scroll_row, scroll_col, total_rows, total_cols);
            &&& w.col_start == scroll_col
            &&& w.row_start == scroll_row
            &&& w.col_end <= total_cols
            &&& w.row_end <= total_rows
            &&& (scroll_col < total_cols ==> w.col_end > w.col_start)
            &&& (w.col_end - w.col_start) * 12 <= sat_sub(inner_width as int, 10) || w.col_end - w.col_start <= 1
            &&& w.row_end - w.row_start <= sat_sub(inner_height as int, 3)
            &&& (scroll_row + sat_sub(inner_height as int, 3) <= total_rows ==> w.row_end == scroll_row + sat_sub(inner_height as int, 3))
        }),
{
    let avail = sat_sub(inner_width as int, 10);
    assert((avail / 12) * 12 <= avail) by (nonlinear_arith)
        requires
            avail >= 0,
    ;
}

/// Build the scroll hint text.
pub fn scroll_hint(w: TableWindow, total_rows: usize, total_cols: usize) -> (s: String)
    requires
        w.row_start < usize::MAX,
        w.col_start < usize::MAX,
    ensures
        s@ == scroll_hint_spec(w, total_rows, total_cols),
{
    let mut s = String::new();
    push_chars(&mut s, &['R', 'o', 'w', ' ']);
    push_str(&mut s, decimal_string(w.row_start + 1).as_str());
    push_char(&mut s, '-');
    push_str(&mut s, decimal_string(w.row_end).as_str());
    push_char(&mut s, '/');
    push_str(&mut s, decimal_string(total_rows).as_str());
    push_chars(&mut s, &[' ', 'C', 'o', 'l', ' ']);
    push_str(&mut s, decimal_string(w.col_start + 1).as_str());
    push_char(&mut s, '-');
    push_str(&mut s, decimal_string(w.col_end).as_str());
    push_char(&mut s, '/');
    push_str(&mut s, decimal_string(total_cols).as_str());
    push_chars(
        &mut s,
        &[
            ' ',
            '|',
            ' ',
            '\u{2191}',
            '\u{2193}',
            '\u{2190}',
            '\u{2192}',
            ' ',
            's',
            'c',
            'r',
            'o',
            'l',
            'l',
            ' ',
            ' ',
            'E',
            's',
            'c',
            ' ',
            'c',
            'l',
            'o',
            's',
            'e',
        ],
    );
    assert(s@ =~= scroll_hint_spec(w, total_rows, total_cols));
    s
}

} // verus!
