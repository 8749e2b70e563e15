//! The text the viewer shows: tree rows, the slice picker's cells and
//! title, the search bar and result lines, the status bar, overlay titles
//! and index labels.
use vstd::prelude::*;

use crate::search::{DimFilter, VarInfo};
use crate::slice_picker::{join, DimRole, PlotMode};
use crate::text::{decimal, decimal_string, push_char, push_chars, push_str, string_of};
use crate::tree::{Row, RowKind};

verus! {

// ---------------------------------------------------------------------------
// Tree rows
// ---------------------------------------------------------------------------
/// `n` spaces.
pub open spec fn spaces(n: nat) -> Seq<char> {
    Seq::new(n, |i: int| ' ')
}

/// The cursor column: `› ` on the selected row, two spaces elsewhere.
pub open spec fn cursor_text(selected: bool) -> Seq<char> {
    if selected {
        seq!['\u{203a}', ' ']
    } else {
        seq![' ', ' ']
    }
}

/// The icon of a row: `▼ ` for an expanded group, `▶ ` for a collapsed one,
/// `◆ ` for a coordinate variable, two spaces for any other variable.
pub open spec fn icon_text(kind: RowKind) -> Seq<char> {
    match kind {
        RowKind::Group { expanded } => if expanded {
            seq!['\u{25bc}', ' ']
        } else {
            seq!['\u{25b6}', ' ']
        },
        RowKind::Variable { is_coord } => if is_coord {
            seq!['\u{25c6}', ' ']
        } else {
            seq![' ', ' ']
        },
    }
}

/// A tree row as drawn: cursor, two spaces per indentation level, icon,
/// label.
pub open spec fn tree_row_text_spec(label: Seq<char>, indent: nat, kind: RowKind, selected: bool) -> Seq<
    char,
> {
    cursor_text(selected) + spaces(2 * indent) + icon_text(kind) + label
}

/// The text of a tree row.
pub fn tree_row_text(row: &Row, selected: bool) -> (s: String)
    ensures
        s@ == tree_row_text_spec(row.label@, row.indent as nat, row.kind, selected),
{
    let mut s = String::new();
    if selected {
        push_chars(&mut s, &['\u{203a}', ' ']);
    } else {
        push_chars(&mut s, &[' ', ' ']);
    }
    let ghost start = s@;
    let mut i: usize = 0;
    assert(s@ =~= start + spaces(0));
    while i < row.indent
        invariant
            i <= row.indent,
            s@ == start + spaces(2 * (i as nat)),
        decreases row.indent - i,
    {
        push_chars(&mut s, &[' ', ' ']);
        assert(spaces(2 * ((i + 1) as nat)) =~= spaces(2 * (i as nat)) + seq![' ', ' ']);
        i = i + 1;
    }
    match row.kind {
        RowKind::Group { expanded } => {
            if expanded {
                push_chars(&mut s, &['\u{25bc}', ' ']);
            } else {
                push_chars(&mut s, &['\u{25b6}', ' ']);
            }
        },
        RowKind::Variable { is_coord } => {
            if is_coord {
                push_chars(&mut s, &['\u{25c6}', ' ']);
            } else {
                push_chars(&mut s, &[' ', ' ']);
            }
        },
    }
    push_str(&mut s, row.label.as_str());
    assert(s@ =~= tree_row_text_spec(row.label@, row.indent as nat, row.kind, selected));
    s
}

/// Law: a tree row's text is the two-column cursor (`›` only on the
/// selected row), two spaces per indentation level, a two-column icon and
/// then the label itself.
pub proof fn lemma_tree_row_shape(label: Seq<char>, indent: nat, kind: RowKind, selected: bool)
    ensures
        ({
            let t = tree_row_text_spec(label, indent, kind, selected);
            &&& t.len() == 4 + 2 * indent + label.len()
            &&& (t[0] == '\u{203a}') == selected
            &&& forall|k: int| 2 <= k < 2 + 2 * indent ==> t[k] == ' '
            &&& t.subrange((4 + 2 * indent) as int, t.len() as int) == label
        }),
{
    let t = tree_row_text_spec(label, indent, kind, selected);
    assert(t.subrange((4 + 2 * indent) as int, t.len() as int) =~= label);
    assert forall|k: int| 2 <= k < 2 + 2 * indent implies t[k] == ' ' by {
        assert(t[k] == spaces(2 * indent)[k - 2]);
    }
}

// ---------------------------------------------------------------------------
// Slice picker
// ---------------------------------------------------------------------------
/// The role column: `Fixed`, `X-axis` or `Y-axis`.
pub open spec fn role_text(role: DimRole) -> Seq<char> {
    match role {
        DimRole::Fixed(_) => seq!['F', 'i', 'x', 'e', 'd'],
        DimRole::AxisX => seq!['X', '-', 'a', 'x', 'i', 's'],
        DimRole::AxisY => seq!['Y', '-', 'a', 'x', 'i', 's'],
    }
}

/// The index column: the fixed index, or `-` for an axis.
pub open spec fn index_text(role: DimRole) -> Seq<char> {
    match role {
        DimRole::Fixed(k) => decimal(k as nat),
        _ => seq!['-'],
    }
}

/// The role column of a dimension.
pub fn role_label(role: DimRole) -> (s: String)
    ensures
        s@ == role_text(role),
{
    let mut s = String::new();
    match role {
        DimRole::Fixed(_) => push_chars(&mut s, &['F', 'i', 'x', 'e', 'd']),
        DimRole::AxisX => push_chars(&mut s, &['X', '-', 'a', 'x', 'i', 's']),
        DimRole::AxisY => push_chars(&mut s, &['Y', '-', 'a', 'x', 'i', 's']),
    }
    assert(s@ =~= role_text(role));
    s
}

/// The index column of a dimension.
pub fn index_label(role: DimRole) -> (s: String)
    ensures
        s@ == index_text(role),
{
    match role {
        DimRole::Fixed(k) => decimal_string(k),
        _ => {
            let mut s = String::new();
            push_char(&mut s, '-');
            assert(s@ =~= seq!['-']);
            s
        },
    }
}

/// The name of a plot mode in the picker's title.
pub open spec fn mode_text(mode: PlotMode) -> Seq<char> {
    match mode {
        PlotMode::Line => seq!['l', 'i', 'n', 'e', ' ', 'p', 'l', 'o', 't'],
        PlotMode::Heatmap => seq!['h', 'e', 'a', 't', 'm', 'a', 'p'],
        PlotMode::FixAll => seq!['f', 'i', 'x', ' ', 'a', 'l', 'l', ' ', 'd', 'i', 'm', 's'],
        PlotMode::NeedFree => seq![
            'n',
            'e',
            'e',
            'd',
            ' ',
            '1',
            ' ',
            'o',
            'r',
            ' ',
            '2',
            ' ',
            'f',
            'r',
            'e',
            'e',
        ],
    }
}

/// ` Slice: {var} → {mode} `.
pub open spec fn picker_title_spec(var: Seq<char>, mode: PlotMode) -> Seq<char> {
    seq![' ', 'S', 'l', 'i', 'c', 'e', ':', ' '] + var + seq![' ', '\u{2192}', ' '] + mode_text(mode)
        + seq![' ']
}

/// The slice picker's title.
pub fn picker_title(var: &str, mode: PlotMode) -> (s: String)
    ensures
        s@ == picker_title_spec(var@, mode),
{
    let mut s = String::new();
    push_chars(&mut s, &[' ', 'S', 'l', 'i', 'c', 'e', ':', ' ']);
    push_str(&mut s, var);
    push_chars(&mut s, &[' ', '\u{2192}', ' ']);
    match mode {
        PlotMode::Line => push_chars(&mut s, &['l', 'i', 'n', 'e', ' ', 'p', 'l', 'o', 't']),
        PlotMode::Heatmap => push_chars(&mut s, &['h', 'e', 'a', 't', 'm', 'a', 'p']),
        PlotMode::FixAll => push_chars(
            &mut s,
            &['f', 'i', 'x', ' ', 'a', 'l', 'l', ' ', 'd', 'i', 'm', 's'],
        ),
        PlotMode::NeedFree => push_chars(
            &mut s,
            &['n', 'e', 'e', 'd', ' ', '1', ' ', 'o', 'r', ' ', '2', ' ', 'f', 'r', 'e', 'e'],
        ),
    }
    push_char(&mut s, ' ');
    assert(s@ =~= picker_title_spec(var@, mode));
    s
}

// ---------------------------------------------------------------------------
// Search bar and results
// ---------------------------------------------------------------------------
/// The filter tag after the query: ` [dim:{name}]`, ` [{n}D]`, or nothing.
pub open spec fn filter_tag_spec(f: Option<DimFilter>) -> Seq<char> {
    match f {
        None => Seq::empty(),
        Some(DimFilter::HasDim(d)) => seq![' ', '[', 'd', 'i', 'm', ':'] + d@ + seq![']'],
        Some(DimFilter::NDim(n)) => seq![' ', '['] + decimal(n as nat) + seq!['D', ']'],
    }
}

/// The filter tag of the search bar.
pub fn filter_tag(f: &Option<DimFilter>) -> (s: String)
    ensures
        s@ == filter_tag_spec(*f),
{
    let mut s = String::new();
    match f {
        None => {},
        Some(DimFilter::HasDim(d)) => {
            push_chars(&mut s, &[' ', '[', 'd', 'i', 'm', ':']);
            push_str(&mut s, d.as_str());
            push_char(&mut s, ']');
        },
        Some(DimFilter::NDim(n)) => {
            push_chars(&mut s, &[' ', '[']);
            push_str(&mut s, decimal_string(*n).as_str());
            push_chars(&mut s, &['D', ']']);
        },
    }
    assert(s@ =~= filter_tag_spec(*f));
    s
}

/// The prompt before the query: ` /` while the bar is active, ` ` otherwise.
pub open spec fn prompt_spec(active: bool) -> Seq<char> {
    if active {
        seq![' ', '/']
    } else {
        seq![' ']
    }
}

/// The search prompt.
pub fn prompt(active: bool) -> (s: String)
    ensures
        s@ == prompt_spec(active),
{
    let mut s = String::new();
    push_char(&mut s, ' ');
    if active {
        push_char(&mut s, '/');
    }
    assert(s@ =~= prompt_spec(active));
    s
}

/// The match count after the query while a filter is set:
/// ` ({n} match)`; nothing otherwise.
pub open spec fn match_count_spec(has_filter: bool, n: usize) -> Seq<char> {
    if has_filter {
        seq![' ', '('] + decimal(n as nat) + seq![' ', 'm', 'a', 't', 'c', 'h', ')']
    } else {
        Seq::empty()
    }
}

/// The match count of the search bar.
pub fn match_count(has_filter: bool, n: usize) -> (s: String)
    ensures
        s@ == match_count_spec(has_filter, n),
{
    let mut s = String::new();
    if has_filter {
        push_chars(&mut s, &[' ', '(']);
        push_str(&mut s, decimal_string(n).as_str());
        push_chars(&mut s, &[' ', 'm', 'a', 't', 'c', 'h', ')']);
    }
    assert(s@ =~= match_count_spec(has_filter, n));
    s
}

/// `{name}={size}` for each dimension, names and sizes paired in order
/// (as many as both lists have).
pub open spec fn dim_pairs(names: Seq<String>, sizes: Seq<usize>) -> Seq<Seq<char>> {
    let n = if names.len() <= sizes.len() {
        names.len()
    } else {
        sizes.len()
    };
    Seq::new(n, |i: int| names[i]@ + seq!['='] + decimal(sizes[i] as nat))
}

/// The dimensions shown after a matched variable: `  [{d}={n}, ...]`.
pub open spec fn result_dims_spec(v: VarInfo) -> Seq<char> {
    seq![' ', ' ', '['] + join(dim_pairs(v.dim_names@, v.dim_sizes@), seq![',', ' ']) + seq![']']
}

/// Appending a part to a joined list.
proof fn lemma_join_push(parts: Seq<Seq<char>>, sep: Seq<char>, k: int)
    requires
        0 <= k < parts.len(),
    ensures
        join(parts.take(k + 1), sep) == (if k == 0 {
            parts[0]
        } else {
            join(parts.take(k), sep) + sep + parts[k]
        }),
{
    assert(parts.take(k + 1).drop_last() =~= parts.take(k));
}

/// The dimension list of a search result line.
pub fn result_dims(v: &VarInfo) -> (s: String)
    ensures
        s@ == result_dims_spec(*v),
{
    let n = if v.dim_names.len() <= v.dim_sizes.len() {
        v.dim_names.len()
    } else {
        v.dim_sizes.len()
    };
    let ghost parts = dim_pairs(v.dim_names@, v.dim_sizes@);
    let mut s = String::new();
    push_chars(&mut s, &[' ', ' ', '[']);
    let ghost start = s@;
    let mut i: usize = 0;
    assert(parts.take(0) =~= Seq::<Seq<char>>::empty());
    while i < n
        invariant
            n == parts.len(),
            n <= v.dim_names@.len(),
            n <= v.dim_sizes@.len(),
            parts == dim_pairs(v.dim_names@, v.dim_sizes@),
            i <= n,
            s@ == start + join(parts.take(i as int), seq![',', ' ']),
        decreases n - i,
    {
        proof {
            lemma_join_push(parts, seq![',', ' '], i as int);
        }
        if i > 0 {
            push_chars(&mut s, &[',', ' ']);
        }
        push_str(&mut s, v.dim_names[i].as_str());
        push_char(&mut s, '=');
        push_str(&mut s, decimal_string(v.dim_sizes[i]).as_str());
        assert(parts[i as int] =~= v.dim_names@[i as int]@ + seq!['='] + decimal(
            v.dim_sizes@[i as int] as nat,
        ));
        assert(s@ =~= start + join(parts.take(i + 1), seq![',', ' ']));
        i = i + 1;
    }
    assert(parts.take(n as int) =~= parts);
    push_char(&mut s, ']');
    assert(s@ =~= result_dims_spec(*v));
    s
}

// ---------------------------------------------------------------------------
// Status bar and titles
// ---------------------------------------------------------------------------
/// The file part of the status bar: ` {path} `.
pub open spec fn file_label_spec(path: Seq<char>) -> Seq<char> {
    seq![' '] + path + seq![' ']
}

/// The file part of the status bar.
pub fn file_label(path: &str) -> (s: String)
    ensures
        s@ == file_label_spec(path@),
{
    let mut s = String::new();
    push_char(&mut s, ' ');
    push_str(&mut s, path);
    push_char(&mut s, ' ');
    assert(s@ =~= file_label_spec(path@));
    s
}

/// The variable part of the status bar: ` | {var} ` once a variable is
/// loaded, nothing before.
pub open spec fn var_label_spec(var: Option<Seq<char>>) -> Seq<char> {
    match var {
        Some(v) => seq![' ', '|', ' '] + v + seq![' '],
        None => Seq::empty(),
    }
}

/// The variable part of the status bar.
pub fn var_label(var: &Option<String>) -> (s: String)
    ensures
        s@ == var_label_spec(
            match var {
                Some(v) => Some(v@),
                None => None,
            },
        ),
{
    let mut s = String::new();
    match var {
        Some(v) => {
            push_chars(&mut s, &[' ', '|', ' ']);
            push_str(&mut s, v.as_str());
            push_char(&mut s, ' ');
            assert(s@ =~= var_label_spec(Some(v@)));
        },
        None => {
            assert(s@ =~= var_label_spec(None));
        },
    }
    s
}

/// The message part of the status bar: ` | {msg} `, nothing for an empty
/// message.
pub open spec fn message_label_spec(msg: Seq<char>) -> Seq<char> {
    if msg.len() == 0 {
        Seq::empty()
    } else {
        seq![' ', '|', ' '] + msg + seq![' ']
    }
}

/// The message part of the status bar.
pub fn message_label(msg: &str) -> (s: String)
    ensures
        s@ == message_label_spec(msg@),
{
    let mut s = String::new();
    if !msg.is_empty() {
        push_chars(&mut s, &[' ', '|', ' ']);
        push_str(&mut s, msg);
        push_char(&mut s, ' ');
    }
    assert(s@ =~= message_label_spec(msg@));
    s
}

/// The histogram overlay's title: ` Histogram ({bins} bins, n={total}) `.
pub open spec fn histogram_title_spec(bins: usize, total: usize) -> Seq<char> {
    seq![' ', 'H', 'i', 's', 't', 'o', 'g', 'r', 'a', 'm', ' ', '('] + decimal(bins as nat) + seq![
        ' ',
        'b',
        'i',
        'n',
        's',
        ',',
        ' ',
        'n',
        '=',
    ] + decimal(total as nat) + seq![')', ' ']
}

/// The histogram overlay's title.
pub fn histogram_title(bins: usize, total: usize) -> (s: String)
    ensures
        s@ == histogram_title_spec(bins, total),
{
    let mut s = String::new();
    push_chars(&mut s, &[' ', 'H', 'i', 's', 't', 'o', 'g', 'r', 'a', 'm', ' ', '(']);
    push_str(&mut s, decimal_string(bins).as_str());
    push_chars(&mut s, &[' ', 'b', 'i', 'n', 's', ',', ' ', 'n', '=']);
    push_str(&mut s, decimal_string(total).as_str());
    push_chars(&mut s, &[')', ' ']);
    assert(s@ =~= histogram_title_spec(bins, total));
    s
}

/// The title of a one-dimensional table: `{var} [{dim}]`.
pub open spec fn table_title_1d_spec(var: Seq<char>, dim: Seq<char>) -> Seq<char> {
    var + seq![' ', '['] + dim + seq![']']
}

/// The title of a one-dimensional table.
pub fn table_title_1d(var: &str, dim: &str) -> (s: String)
    ensures
        s@ == table_title_1d_spec(var@, dim@),
{
    let mut s = string_of(var);
    push_chars(&mut s, &[' ', '[']);
    push_str(&mut s, dim);
    push_char(&mut s, ']');
    assert(s@ =~= table_title_1d_spec(var@, dim@));
    s
}

/// The title of a two-dimensional table: `{var} [{row} × {col}]`.
pub open spec fn table_title_2d_spec(var: Seq<char>, row: Seq<char>, col: Seq<char>) -> Seq<char> {
    var + seq![' ', '['] + row + seq![' ', '\u{00d7}', ' '] + col + seq![']']
}

/// The title of a two-dimensional table.
pub fn table_title_2d(var: &str, row: &str, col: &str) -> (s: String)
    ensures
        s@ == table_title_2d_spec(var@, row@, col@),
{
    let mut s = string_of(var);
    push_chars(&mut s, &[' ', '[']);
    push_str(&mut s, row);
    push_chars(&mut s, &[' ', '\u{00d7}', ' ']);
    push_str(&mut s, col);
    push_char(&mut s, ']');
    assert(s@ =~= table_title_2d_spec(var@, row@, col@));
    s
}

/// The labels `0`, `1`, ..., `n - 1`.
pub fn index_labels(n: usize) -> (labels: Vec<String>)
    ensures
        labels@.len() == n,
        forall|i: int| 0 <= i < n ==> (#[trigger] labels@[i])@ == decimal(i as nat),
{
    let mut labels: Vec<String> = Vec::new();
    let mut i: usize = 0;
    while i < n
        invariant
            i <= n,
            labels@.len() == i,
            forall|j: int| 0 <= j < i ==> (#[trigger] labels@[j])@ == decimal(j as nat),
        decreases n - i,
    {
        labels.push(decimal_string(i));
        i = i + 1;
    }
    labels
}

} // verus!
