//! The viewer's interaction logic: which panel has focus, which overlay is
//! open, what each key press does in each state, what selecting a tree row
//! loads, and the status messages shown for it.
use vstd::prelude::*;

use indexmap::IndexMap;

use crate::dataset::{clone_sizes, clone_strings, VarMeta};
use crate::ordered_map::{meta_entries, meta_get, meta_lookup};
use crate::slice_picker::{
    fixed_entries, heatmap_role, join, DimRole, SlicePicker, SliceSpec,
};
use crate::text::{decimal, decimal_string, push_char, push_chars, push_str, string_of};
use crate::tree::{RowKind, TreeNavigator};

verus! {

/// Which panel has keyboard focus.
#[derive(Debug, Clone, Copy, PartialEq, Eq, Structural)]
pub enum Focus {
    Tree,
    Search,
}

/// Which modal overlay is active (at most one).
#[derive(Debug, Clone, Copy, PartialEq, Eq, Structural)]
pub enum Modal {
    Closed,
    Histogram,
    Table,
    SlicePicker,
    Help,
}

/// A key, as far as the viewer distinguishes keys.
#[derive(Debug, Clone, Copy, PartialEq, Eq, Structural)]
pub enum Key {
    Char(char),
    Enter,
    Esc,
    Backspace,
    Up,
    Down,
    Left,
    Right,
    PageUp,
    PageDown,
    Other,
}

/// A key press: the key and whether Control was held.
#[derive(Debug, Clone, Copy, PartialEq, Eq, Structural)]
pub struct KeyPress {
    pub key: Key,
    pub ctrl: bool,
}

/// What the key dispatch needs to know of the viewer's state.
#[derive(Debug, Clone, Copy, PartialEq, Eq, Structural)]
pub struct KeyContext {
    pub modal: Modal,
    pub focus: Focus,
    /// A table preview exists.
    pub has_table: bool,
    /// A slice picker exists.
    pub has_picker: bool,
    /// The number of free dimensions in the slice picker's spec.
    pub picker_free_dims: usize,
    /// A variable has been loaded.
    pub has_current_var: bool,
    /// The search has a query or a dimension filter.
    pub has_filter: bool,
}

/// What a key press asks the viewer to do.
#[derive(Debug, Clone, Copy, PartialEq, Eq, Structural)]
pub enum Command {
    Nothing,
    Quit,
    CloseHelp,
    CloseHistogram,
    MoreBins,
    FewerBins,
    CloseTable,
    TableScrollDown(usize),
    TableScrollUp(usize),
    TableScrollRight(usize),
    TableScrollLeft(usize),
    ClosePicker,
    /// Enter in the slice picker with exactly two free dimensions.
    ConfirmSlice,
    /// Enter in the slice picker without exactly two free dimensions.
    NeedTwoAxes,
    PickerDown,
    PickerUp,
    PickerAssign(DimRole),
    PickerIncrement,
    PickerDecrement,
    SearchCancel,
    SearchAccept,
    SearchPop,
    SearchPush(char),
    OpenHelp,
    OpenSearch,
    ClearFilter,
    TreeDown,
    TreeUp,
    TreeTop,
    TreeBottom,
    LoadSelected,
    ShowHistogram,
    ShowTable,
    OpenSlicer,
}

/// The command for a key press in the help overlay.
pub open spec fn help_command(k: Key) -> Command {
    match k {
        Key::Esc | Key::Char('?') | Key::Char('q') => Command::CloseHelp,
        _ => Command::Nothing,
    }
}

/// The command for a key press in the histogram overlay.
pub open spec fn histogram_command(k: Key) -> Command {
    match k {
        Key::Esc | Key::Char('h') => Command::CloseHistogram,
        Key::Char('+') | Key::Char('=') => Command::MoreBins,
        Key::Char('-') => Command::FewerBins,
        _ => Command::Nothing,
    }
}

/// The command for a key press in the table overlay.
pub open spec fn table_command(k: Key) -> Command {
    match k {
        Key::Esc | Key::Char('t') => Command::CloseTable,
        Key::Down | Key::Char('j') => Command::TableScrollDown(1),
        Key::Up | Key::Char('k') => Command::TableScrollUp(1),
        Key::Right | Key::Char('l') => Command::TableScrollRight(1),
        Key::Left | Key::Char('h') => Command::TableScrollLeft(1),
        Key::PageDown => Command::TableScrollDown(20),
        Key::PageUp => Command::TableScrollUp(20),
        _ => Command::Nothing,
    }
}

/// The command for a key press in the slice picker.
pub open spec fn picker_command(k: Key, free_dims: usize) -> Command {
    match k {
        Key::Esc => Command::ClosePicker,
        Key::Enter => if free_dims == 2 {
            Command::ConfirmSlice
        } else {
            Command::NeedTwoAxes
        },
        Key::Down | Key::Char('j') => Command::PickerDown,
        Key::Up | Key::Char('k') => Command::PickerUp,
        Key::Char('x') => Command::PickerAssign(DimRole::AxisX),
        Key::Char('y') => Command::PickerAssign(DimRole::AxisY),
        Key::Char('f') => Command::PickerAssign(DimRole::Fixed(0)),
        Key::Char('l') | Key::Right => Command::PickerIncrement,
        Key::Char('h') | Key::Left => Command::PickerDecrement,
        _ => Command::Nothing,
    }
}

/// The command for a key press while the search bar has focus.
pub open spec fn search_command(k: Key) -> Command {
    match k {
        Key::Esc => Command::SearchCancel,
        Key::Enter => Command::SearchAccept,
        Key::Backspace => Command::SearchPop,
        Key::Char(ch) => Command::SearchPush(ch),
        _ => Command::Nothing,
    }
}

/// The command for a key press while the tree has focus and no overlay
/// is open.
pub open spec fn tree_command(k: Key, ctx: KeyContext) -> Command {
    match k {
        Key::Char('q') => Command::Quit,
        Key::Char('?') => Command::OpenHelp,
        Key::Char('/') => Command::OpenSearch,
        Key::Esc => if ctx.has_filter {
            Command::ClearFilter
        } else {
            Command::Nothing
        },
        Key::Down | Key::Char('j') => Command::TreeDown,
        Key::Up | Key::Char('k') => Command::TreeUp,
        Key::Char('g') => Command::TreeTop,
        Key::Char('G') => Command::TreeBottom,
        Key::Enter | Key::Char(' ') => Command::LoadSelected,
        Key::Char('h') => if ctx.has_current_var {
            Command::ShowHistogram
        } else {
            Command::Nothing
        },
        Key::Char('t') => if ctx.has_table {
            Command::ShowTable
        } else {
            Command::Nothing
        },
        Key::Char('s') => Command::OpenSlicer,
        _ => Command::Nothing,
    }
}

/// Key dispatch: Control-C always quits; an open overlay takes every key
/// (the table and slice-picker overlays only act while their widget
/// exists); otherwise the focused panel decides.
pub open spec fn command_spec(ctx: KeyContext, press: KeyPress) -> Command {
    if press.ctrl && press.key == Key::Char('c') {
        Command::Quit
    } else {
        match ctx.modal {
            Modal::Help => help_command(press.key),
            Modal::Histogram => histogram_command(press.key),
            Modal::Table => if ctx.has_table {
                table_command(press.key)
            } else {
                Command::Nothing
            },
            Modal::SlicePicker => if ctx.has_picker {
                picker_command(press.key, ctx.picker_free_dims)
            } else {
                Command::Nothing
            },
            Modal::Closed => if ctx.focus == Focus::Search {
                search_command(press.key)
            } else {
                tree_command(press.key, ctx)
            },
        }
    }
}

/// The command for a key press in the given state.
pub fn command_for(ctx: KeyContext, press: KeyPress) -> (c: Command)
    ensures
        c == command_spec(ctx, press),
{
    if press.ctrl && press.key == Key::Char('c') {
        return Command::Quit;
    }
    let k = press.key;
    match ctx.modal {
        Modal::Help => match k {
            Key::Esc | Key::Char('?') | Key::Char('q') => Command::CloseHelp,
            _ => Command::Nothing,
        },
        Modal::Histogram => match k {
            Key::Esc | Key::Char('h') => Command::CloseHistogram,
            Key::Char('+') | Key::Char('=') => Command::MoreBins,
            Key::Char('-') => Command::FewerBins,
            _ => Command::Nothing,
        },
        Modal::Table => {
            if !ctx.has_table {
                return Command::Nothing;
            }
            match k {
                Key::Esc | Key::Char('t') => Command::CloseTable,
                Key::Down | Key::Char('j') => Command::TableScrollDown(1),
                Key::Up | Key::Char('k') => Command::TableScrollUp(1),
                Key::Right | Key::Char('l') => Command::TableScrollRight(1),
                Key::Left | Key::Char('h') => Command::TableScrollLeft(1),
                Key::PageDown => Command::TableScrollDown(20),
                Key::PageUp => Command::TableScrollUp(20),
                _ => Command::Nothing,
            }
        },
        Modal::SlicePicker => {
            if !ctx.has_picker {
                return Command::Nothing;
            }
            match k {
                Key::Esc => Command::ClosePicker,
                Key::Enter => if ctx.picker_free_dims == 2 {
                    Command::ConfirmSlice
                } else {
                    Command::NeedTwoAxes
                },
                Key::Down | Key::Char('j') => Command::PickerDown,
                Key::Up | Key::Char('k') => Command::PickerUp,
                Key::Char('x') => Command::PickerAssign(DimRole::AxisX),
                Key::Char('y') => Command::PickerAssign(DimRole::AxisY),
                Key::Char('f') => Command::PickerAssign(DimRole::Fixed(0)),
                Key::Char('l') | Key::Right => Command::PickerIncrement,
                Key::Char('h') | Key::Left => Command::PickerDecrement,
                _ => Command::Nothing,
            }
        },
        Modal::Closed => {
            if ctx.focus == Focus::Search {
                match k {
                    Key::Esc => Command::SearchCancel,
                    Key::Enter => Command::SearchAccept,
                    Key::Backspace => Command::SearchPop,
                    Key::Char(ch) => Command::SearchPush(ch),
                    _ => Command::Nothing,
                }
            } else {
                match k {
                    Key::Char('q') => Command::Quit,
                    Key::Char('?') => Command::OpenHelp,
                    Key::Char('/') => Command::OpenSearch,
                    Key::Esc => if ctx.has_filter {
                        Command::ClearFilter
                    } else {
                        Command::Nothing
                    },
                    Key::Down | Key::Char('j') => Command::TreeDown,
                    Key::Up | Key::Char('k') => Command::TreeUp,
                    Key::Char('g') => Command::TreeTop,
                    Key::Char('G') => Command::TreeBottom,
                    Key::Enter | Key::Char(' ') => Command::LoadSelected,
                    Key::Char('h') => if ctx.has_current_var {
                        Command::ShowHistogram
                    } else {
                        Command::Nothing
                    },
                    Key::Char('t') => if ctx.has_table {
                        Command::ShowTable
                    } else {
                        Command::Nothing
                    },
                    Key::Char('s') => Command::OpenSlicer,
                    _ => Command::Nothing,
                }
            }
        },
    }
}

/// Law: Control-C quits in every state.
pub proof fn lemma_ctrl_c_always_quits(ctx: KeyContext)
    ensures
        command_spec(ctx, KeyPress { key: Key::Char('c'), ctrl: true }) == Command::Quit,
{
}

/// Law: Escape never quits; in every state it closes, cancels or clears
/// what is open (or does nothing).
pub proof fn lemma_escape_never_quits(ctx: KeyContext, ctrl: bool)
    ensures
        command_spec(ctx, KeyPress { key: Key::Esc, ctrl }) != Command::Quit,
{
}

/// Law: while the search bar has focus and no overlay is open, every
/// character key other than Control-C is typed into the query (so `q`
/// does not quit there).
pub proof fn lemma_search_types_characters(ctx: KeyContext, ch: char, ctrl: bool)
    requires
        ctx.modal == Modal::Closed,
        ctx.focus == Focus::Search,
        !(ctrl && ch == 'c'),
    ensures
        command_spec(ctx, KeyPress { key: Key::Char(ch), ctrl }) == Command::SearchPush(ch),
{
}

/// Law: while an overlay is open, no key but Control-C quits, and the
/// tree never moves.
pub proof fn lemma_overlay_captures_keys(ctx: KeyContext, press: KeyPress)
    requires
        ctx.modal != Modal::Closed,
        !(press.ctrl && press.key == Key::Char('c')),
    ensures
        command_spec(ctx, press) != Command::Quit,
        command_spec(ctx, press) != Command::TreeDown,
        command_spec(ctx, press) != Command::TreeUp,
        command_spec(ctx, press) != Command::LoadSelected,
{
}

/// A plain key press (Control not held).
pub open spec fn plain(k: Key) -> KeyPress {
    KeyPress { key: k, ctrl: false }
}

/// Law: the slice picker's key bindings. `x` makes the selected dimension
/// the X axis and `y` the Y axis (so the two keys assign different roles),
/// `f` fixes it at index 0, `l`/Right and `h`/Left step its fixed index,
/// `j`/Down and `k`/Up move the selection, Enter applies the slice when
/// exactly two dimensions are free, and Escape closes the picker.
pub proof fn lemma_picker_keys(ctx: KeyContext)
    requires
        ctx.modal == Modal::SlicePicker,
        ctx.has_picker,
    ensures
        command_spec(ctx, plain(Key::Char('x'))) == Command::PickerAssign(DimRole::AxisX),
        command_spec(ctx, plain(Key::Char('y'))) == Command::PickerAssign(DimRole::AxisY),
        command_spec(ctx, plain(Key::Char('x'))) != command_spec(ctx, plain(Key::Char('y'))),
        command_spec(ctx, plain(Key::Char('f'))) == Command::PickerAssign(DimRole::Fixed(0)),
        command_spec(ctx, plain(Key::Char('l'))) == Command::PickerIncrement,
        command_spec(ctx, plain(Key::Right)) == Command::PickerIncrement,
        command_spec(ctx, plain(Key::Char('h'))) == Command::PickerDecrement,
        command_spec(ctx, plain(Key::Left)) == Command::PickerDecrement,
        command_spec(ctx, plain(Key::Char('j'))) == Command::PickerDown,
        command_spec(ctx, plain(Key::Down)) == Command::PickerDown,
        command_spec(ctx, plain(Key::Char('k'))) == Command::PickerUp,
        command_spec(ctx, plain(Key::Up)) == Command::PickerUp,
        command_spec(ctx, plain(Key::Esc)) == Command::ClosePicker,
        ctx.picker_free_dims == 2 ==> command_spec(ctx, plain(Key::Enter)) == Command::ConfirmSlice,
        ctx.picker_free_dims != 2 ==> command_spec(ctx, plain(Key::Enter)) == Command::NeedTwoAxes,
{
}

/// Law: the tree's key bindings, with no overlay open and the tree focused:
/// `q` quits, `?` opens help, `/` opens the search, `j`/Down and `k`/Up
/// move, `g` and `G` jump to the top and bottom, Enter and Space load the
/// selected row, `s` opens the slicer, `h` shows the histogram once a
/// variable is loaded, `t` the table once there is one, and Escape clears
/// an active filter.
pub proof fn lemma_tree_keys(ctx: KeyContext)
    requires
        ctx.modal == Modal::Closed,
        ctx.focus == Focus::Tree,
    ensures
        command_spec(ctx, plain(Key::Char('q'))) == Command::Quit,
        command_spec(ctx, plain(Key::Char('?'))) == Command::OpenHelp,
        command_spec(ctx, plain(Key::Char('/'))) == Command::OpenSearch,
        command_spec(ctx, plain(Key::Char('j'))) == Command::TreeDown,
        command_spec(ctx, plain(Key::Down)) == Command::TreeDown,
        command_spec(ctx, plain(Key::Char('k'))) == Command::TreeUp,
        command_spec(ctx, plain(Key::Up)) == Command::TreeUp,
        command_spec(ctx, plain(Key::Char('g'))) == Command::TreeTop,
        command_spec(ctx, plain(Key::Char('G'))) == Command::TreeBottom,
        command_spec(ctx, plain(Key::Enter)) == Command::LoadSelected,
        command_spec(ctx, plain(Key::Char(' '))) == Command::LoadSelected,
        command_spec(ctx, plain(Key::Char('s'))) == Command::OpenSlicer,
        command_spec(ctx, plain(Key::Char('h'))) == (if ctx.has_current_var {
            Command::ShowHistogram
        } else {
            Command::Nothing
        }),
        command_spec(ctx, plain(Key::Char('t'))) == (if ctx.has_table {
            Command::ShowTable
        } else {
            Command::Nothing
        }),
        command_spec(ctx, plain(Key::Esc)) == (if ctx.has_filter {
            Command::ClearFilter
        } else {
            Command::Nothing
        }),
{
}

/// Law: the bindings of the search bar and of the help, histogram and
/// table overlays. In the search bar Escape cancels, Enter accepts and
/// Backspace deletes; the help overlay closes on Escape, `?` and `q`; the
/// histogram closes on Escape and `h`, `+`/`=` add bins and `-` removes
/// them; the table scrolls one row or column with the arrows and
/// `j`/`k`/`l`/`h`, twenty rows with Page Down/Up, and closes on Escape and
/// `t`.
pub proof fn lemma_other_keys(ctx: KeyContext)
    ensures
        ctx.modal == Modal::Closed && ctx.focus == Focus::Search ==> {
            &&& command_spec(ctx, plain(Key::Esc)) == Command::SearchCancel
            &&& command_spec(ctx, plain(Key::Enter)) == Command::SearchAccept
            &&& command_spec(ctx, plain(Key::Backspace)) == Command::SearchPop
        },
        ctx.modal == Modal::Help ==> {
            &&& command_spec(ctx, plain(Key::Esc)) == Command::CloseHelp
            &&& command_spec(ctx, plain(Key::Char('?'))) == Command::CloseHelp
            &&& command_spec(ctx, plain(Key::Char('q'))) == Command::CloseHelp
        },
        ctx.modal == Modal::Histogram ==> {
            &&& command_spec(ctx, plain(Key::Esc)) == Command::CloseHistogram
            &&& command_spec(ctx, plain(Key::Char('h'))) == Command::CloseHistogram
            &&& command_spec(ctx, plain(Key::Char('+'))) == Command::MoreBins
            &&& command_spec(ctx, plain(Key::Char('='))) == Command::MoreBins
            &&& command_spec(ctx, plain(Key::Char('-'))) == Command::FewerBins
        },
        ctx.modal == Modal::Table && ctx.has_table ==> {
            &&& command_spec(ctx, plain(Key::Esc)) == Command::CloseTable
            &&& command_spec(ctx, plain(Key::Char('t'))) == Command::CloseTable
            &&& command_spec(ctx, plain(Key::Down)) == Command::TableScrollDown(1)
            &&& command_spec(ctx, plain(Key::Char('j'))) == Command::TableScrollDown(1)
            &&& command_spec(ctx, plain(Key::Up)) == Command::TableScrollUp(1)
            &&& command_spec(ctx, plain(Key::Char('k'))) == Command::TableScrollUp(1)
            &&& command_spec(ctx, plain(Key::Right)) == Command::TableScrollRight(1)
            &&& command_spec(ctx, plain(Key::Char('l'))) == Command::TableScrollRight(1)
            &&& command_spec(ctx, plain(Key::Left)) == Command::TableScrollLeft(1)
            &&& command_spec(ctx, plain(Key::Char('h'))) == Command::TableScrollLeft(1)
            &&& command_spec(ctx, plain(Key::PageDown)) == Command::TableScrollDown(20)
            &&& command_spec(ctx, plain(Key::PageUp)) == Command::TableScrollUp(20)
        },
{
}

// ---------------------------------------------------------------------------
// Histogram bin count
// ---------------------------------------------------------------------------
/// Bin count after `+`: four more, at most 80.
pub open spec fn more_bins_spec(n: usize) -> usize {
    if n + 4 <= 80 {
        (n + 4) as usize
    } else {
        80
    }
}

/// Bin count after `-`: four fewer, at least 4.
pub open spec fn fewer_bins_spec(n: usize) -> usize {
    if n >= 8 {
        (n - 4) as usize
    } else {
        4
    }
}

/// Four more bins, at most 80.
pub fn more_bins(n: usize) -> (r: usize)
    requires
        n + 4 <= usize::MAX,
    ensures
        r == more_bins_spec(n),
{
    let m = n + 4;
    if m <= 80 {
        m
    } else {
        80
    }
}

/// Four fewer bins, at least 4.
pub fn fewer_bins(n: usize) -> (r: usize)
    ensures
        r == fewer_bins_spec(n),
{
    let m = if n >= 4 {
        n - 4
    } else {
        0
    };
    if m >= 4 {
        m
    } else {
        4
    }
}

/// Law: from any count in the range 4..=80, one `+` or one `-` keeps the
/// count in that range.
pub proof fn lemma_bins_stay_in_range(n: usize)
    requires
        4 <= n <= 80,
    ensures
        4 <= more_bins_spec(n) <= 80,
        4 <= fewer_bins_spec(n) <= 80,
{
}

/// Law: `+` adds exactly four bins unless that passes 80, where it stops;
/// `-` removes exactly four unless that goes below 4, where it stops.
pub proof fn lemma_bins_steps(n: usize)
    ensures
        n + 4 <= 80 ==> more_bins_spec(n) == n + 4,
        n + 4 > 80 ==> more_bins_spec(n) == 80,
        n >= 8 ==> fewer_bins_spec(n) == n - 4,
        n < 8 ==> fewer_bins_spec(n) == 4,
{
}

/// Law: from any count in 4..=76 (where `+` is not stopped by the cap),
/// `+` then `-` restores it.
pub proof fn lemma_bins_round_trip(n: usize)
    requires
        4 <= n <= 76,
    ensures
        fewer_bins_spec(more_bins_spec(n)) == n,
{
}

// ---------------------------------------------------------------------------
// Slice picker navigation
// ---------------------------------------------------------------------------
impl SlicePicker {
    /// Move the selection to the next dimension (stays on the last).
    pub fn select_next(&mut self)
        ensures
            final(self).selected == (if old(self).selected + 1 < old(self).spec.dims@.len() {
                (old(self).selected + 1) as usize
            } else {
                old(self).selected
            }),
            final(self).spec == old(self).spec,
            final(self).visible == old(self).visible,
    {
        let n = self.spec.dims.len();
        if n > 0 && self.selected < n - 1 {
            self.selected = self.selected + 1;
        }
    }

    /// Move the selection to the previous dimension (stays on the first).
    pub fn select_prev(&mut self)
        ensures
            final(self).selected == (if old(self).selected > 0 {
                (old(self).selected - 1) as usize
            } else {
                0
            }),
            final(self).spec == old(self).spec,
            final(self).visible == old(self).visible,
    {
        if self.selected > 0 {
            self.selected = self.selected - 1;
        }
    }
}

// ---------------------------------------------------------------------------
// Loading the selected variable
// ---------------------------------------------------------------------------
/// What selecting the current tree row asks for.
pub enum LoadPlan {
    /// No row is selected.
    Nothing,
    /// The row is a group: expand or collapse it.
    ToggleGroup,
    /// The variable has no metadata; show the status message.
    MissingMeta { status: String },
    /// The variable has more than two dimensions: open the slice picker on
    /// it and show the status message.
    PickSlice { picker: SlicePicker, status: String },
    /// Read the variable's data from `var_path`.
    Read { var_name: String, var_path: String, meta: VarMeta },
}

/// `No metadata for {var}`.
pub open spec fn no_meta_message(var: Seq<char>) -> Seq<char> {
    seq!['N', 'o', ' ', 'm', 'e', 't', 'a', 'd', 'a', 't', 'a', ' ', 'f', 'o', 'r', ' '] + var
}

/// `{var}: pick a 2D slice`.
pub open spec fn pick_slice_message(var: Seq<char>) -> Seq<char> {
    var + seq![
        ':',
        ' ',
        'p',
        'i',
        'c',
        'k',
        ' ',
        'a',
        ' ',
        '2',
        'D',
        ' ',
        's',
        'l',
        'i',
        'c',
        'e',
    ]
}

/// A freshly opened slice picker on `var`: visible, on the first
/// dimension, with the variable's dimensions in their default heatmap
/// roles.
pub open spec fn picker_opened(picker: SlicePicker, var: Seq<char>, meta: VarMeta) -> bool {
    &&& picker.visible
    &&& picker.selected == 0
    &&& picker.spec.var_name@ == var
    &&& picker.spec.dims@.len() == (if meta.dim_names@.len() <= meta.dim_sizes@.len() {
        meta.dim_names@.len()
    } else {
        meta.dim_sizes@.len()
    })
    &&& forall|i: int|
        0 <= i < picker.spec.dims@.len() ==> (#[trigger] picker.spec.dims@[i]).name@
            == meta.dim_names@[i]@ && picker.spec.dims@[i].size == meta.dim_sizes@[i]
            && picker.spec.dims@[i].role == heatmap_role(meta.dim_names@.len() as int, i)
}

/// What selecting row `selected` of `rows` asks for, given the variables'
/// metadata.
pub open spec fn load_plan_matches(
    plan: LoadPlan,
    rows: Seq<(Seq<char>, Seq<char>, RowKind, int)>,
    selected: usize,
    metas: Seq<(Seq<char>, VarMeta)>,
) -> bool {
    if selected >= rows.len() {
        plan is Nothing
    } else {
        let row = rows[selected as int];
        if row.2 is Group {
            plan is ToggleGroup
        } else {
            match meta_lookup(metas, row.0) {
                None => plan matches LoadPlan::MissingMeta { status } && status@ == no_meta_message(
                    row.0,
                ),
                Some(meta) => if meta.dim_names@.len() > 2 {
                    plan matches LoadPlan::PickSlice { picker, status } && picker_opened(
                        picker,
                        row.0,
                        meta,
                    ) && status@ == pick_slice_message(row.0)
                } else {
                    plan matches LoadPlan::Read { var_name, var_path, meta: m } && var_name@
                        == row.0 && var_path@ == row.1 && m.name@ == meta.name@
                        && m.dim_names.deep_view() == meta.dim_names.deep_view() && m.dim_sizes@
                        == meta.dim_sizes@
                },
            }
        }
    }
}

/// Law: what selecting a row does, by the row and its metadata. Past the
/// rows nothing happens; a group row toggles; a variable row without
/// metadata reports it; a variable of more than two dimensions opens the
/// slice picker on it; every other variable (rank 0, 1 or 2) is read from
/// the row's path with its own name and metadata. A variable row is never
/// answered by doing nothing or by toggling.
pub proof fn lemma_load_plan_cases(
    plan: LoadPlan,
    rows: Seq<(Seq<char>, Seq<char>, RowKind, int)>,
    selected: usize,
    metas: Seq<(Seq<char>, VarMeta)>,
)
    requires
        load_plan_matches(plan, rows, selected, metas),
    ensures
        selected >= rows.len() ==> plan is Nothing,
        selected < rows.len() && rows[selected as int].2 is Group ==> plan is ToggleGroup,
        selected < rows.len() && rows[selected as int].2 is Variable ==> !(plan is Nothing)
            && !(plan is ToggleGroup),
        selected < rows.len() && rows[selected as int].2 is Variable && meta_lookup(
            metas,
            rows[selected as int].0,
        ) is None ==> plan is MissingMeta,
        selected < rows.len() && rows[selected as int].2 is Variable ==> (meta_lookup(
            metas,
            rows[selected as int].0,
        ) matches Some(m) ==> (m.dim_names@.len() > 2 ==> (plan matches LoadPlan::PickSlice {
            picker,
            status,
        } && picker.spec.var_name@ == rows[selected as int].0))),
        selected < rows.len() && rows[selected as int].2 is Variable ==> (meta_lookup(
            metas,
            rows[selected as int].0,
        ) matches Some(m) ==> (m.dim_names@.len() <= 2 ==> (plan matches LoadPlan::Read {
            var_name,
            var_path,
            meta,
        } && var_name@ == rows[selected as int].0 && var_path@ == rows[selected as int].1
            && meta.name@ == m.name@ && meta.dim_names.deep_view() == m.dim_names.deep_view()
            && meta.dim_sizes@ == m.dim_sizes@))),
{
}

fn copy_meta(m: &VarMeta) -> (c: VarMeta)
    ensures
        c.name@ == m.name@,
        c.dim_names.deep_view() == m.dim_names.deep_view(),
        c.dim_names@.map_values(|s: String| s@) == m.dim_names@.map_values(|s: String| s@),
        c.dim_sizes@ == m.dim_sizes@,
{
    VarMeta { name: m.name.clone(), dim_names: clone_strings(&m.dim_names), dim_sizes: clone_sizes(&m.dim_sizes) }
}

/// Decide what selecting the current tree row does.
pub fn plan_load(tree: &TreeNavigator, var_meta: &IndexMap<String, VarMeta>) -> (plan: LoadPlan)
    ensures
        load_plan_matches(plan, tree.rows_model(), tree.selected_index(), meta_entries(*var_meta)),
{
    let row = match tree.selected_row() {
        None => {
            return LoadPlan::Nothing;
        },
        Some(r) => r,
    };
    let is_group = match row.kind {
        RowKind::Group { .. } => true,
        _ => false,
    };
    if is_group {
        return LoadPlan::ToggleGroup;
    }
    match meta_get(var_meta, &row.label) {
        None => {
            let mut status = String::new();
            push_chars(
                &mut status,
                &['N', 'o', ' ', 'm', 'e', 't', 'a', 'd', 'a', 't', 'a', ' ', 'f', 'o', 'r', ' '],
            );
            push_str(&mut status, row.label.as_str());
            assert(status@ =~= no_meta_message(row.label@));
            LoadPlan::MissingMeta { status }
        },
        Some(meta) => {
            if meta.dim_names.len() > 2 {
                let (picker, status) = open_picker(&row.label, meta);
                LoadPlan::PickSlice { picker, status }
            } else {
                LoadPlan::Read {
                    var_name: row.label.clone(),
                    var_path: row.path.clone(),
                    meta: copy_meta(meta),
                }
            }
        },
    }
}

/// What `s` on row `selected` opens: when the row's label names a
/// variable of more than two dimensions, a slice picker on it and the
/// status message; otherwise nothing.
pub open spec fn slicer_plan_matches(
    r: Option<(SlicePicker, String)>,
    rows: Seq<(Seq<char>, Seq<char>, RowKind, int)>,
    selected: usize,
    metas: Seq<(Seq<char>, VarMeta)>,
) -> bool {
    if selected >= rows.len() {
        r is None
    } else {
        let label = rows[selected as int].0;
        match meta_lookup(metas, label) {
            Some(meta) => if meta.dim_names@.len() > 2 {
                r matches Some(p) && picker_opened(p.0, label, meta) && p.1@ == pick_slice_message(
                    label,
                )
            } else {
                r is None
            },
            None => r is None,
        }
    }
}

fn open_picker(var: &String, meta: &VarMeta) -> (r: (SlicePicker, String))
    requires
        meta.dim_names@.len() > 2,
    ensures
        picker_opened(r.0, var@, *meta),
        r.1@ == pick_slice_message(var@),
{
    let spec = SliceSpec::default_for(var.as_str(), meta.dim_names.as_slice(), meta.dim_sizes.as_slice());
    let picker = SlicePicker::new(spec);
    let mut status = string_of(var.as_str());
    push_chars(
        &mut status,
        &[':', ' ', 'p', 'i', 'c', 'k', ' ', 'a', ' ', '2', 'D', ' ', 's', 'l', 'i', 'c', 'e'],
    );
    assert(status@ =~= pick_slice_message(var@));
    (picker, status)
}

/// The slice picker that `s` opens on the current tree row, if any.
pub fn plan_open_slicer(tree: &TreeNavigator, var_meta: &IndexMap<String, VarMeta>) -> (r: Option<(SlicePicker, String)>)
    ensures
        slicer_plan_matches(r, tree.rows_model(), tree.selected_index(), meta_entries(*var_meta)),
{
    let row = match tree.selected_row() {
        None => {
            return None;
        },
        Some(r) => r,
    };
    match meta_get(var_meta, &row.label) {
        None => None,
        Some(meta) => {
            if meta.dim_names.len() > 2 {
                Some(open_picker(&row.label, meta))
            } else {
                None
            }
        },
    }
}

// ---------------------------------------------------------------------------
// Status messages after loading
// ---------------------------------------------------------------------------
/// `{name}={size}`.
pub open spec fn dim_label(name: Seq<char>, size: usize) -> Seq<char> {
    name + seq!['='] + decimal(size as nat)
}

/// The status after loading a variable of rank 0, 1 or 2:
/// `{var}: scalar value`, `{var} [{dim}={n}]` or
/// `{var} [{row}={nrows}, {col}={ncols}]`.
pub open spec fn loaded_message(var: Seq<char>, meta: VarMeta) -> Seq<char> {
    if meta.dim_names@.len() == 0 {
        var + seq![':', ' ', 's', 'c', 'a', 'l', 'a', 'r', ' ', 'v', 'a', 'l', 'u', 'e']
    } else if meta.dim_names@.len() == 1 {
        var + seq![' ', '['] + dim_label(meta.dim_names@[0]@, meta.dim_sizes@[0]) + seq![']']
    } else {
        var + seq![' ', '['] + dim_label(meta.dim_names@[0]@, meta.dim_sizes@[0]) + seq![',', ' ']
            + dim_label(meta.dim_names@[1]@, meta.dim_sizes@[1]) + seq![']']
    }
}

fn push_dim_label(s: &mut String, name: &String, size: usize)
    ensures
        final(s)@ == old(s)@ + dim_label(name@, size),
{
    let ghost start = s@;
    push_str(s, name.as_str());
    push_char(s, '=');
    let d = decimal_string(size);
    push_str(s, d.as_str());
    assert(s@ =~= start + dim_label(name@, size));
}

/// The status shown after loading a variable of rank at most 2.
pub fn loaded_status(var: &str, meta: &VarMeta) -> (s: String)
    requires
        meta.dim_names@.len() <= 2,
        meta.dim_sizes@.len() >= meta.dim_names@.len(),
    ensures
        s@ == loaded_message(var@, *meta),
{
    let mut s = string_of(var);
    let nd = meta.dim_names.len();
    if nd == 0 {
        push_chars(&mut s, &[':', ' ', 's', 'c', 'a', 'l', 'a', 'r', ' ', 'v', 'a', 'l', 'u', 'e']);
    } else {
        push_chars(&mut s, &[' ', '[']);
        push_dim_label(&mut s, &meta.dim_names[0], meta.dim_sizes[0]);
        if nd == 2 {
            push_chars(&mut s, &[',', ' ']);
            push_dim_label(&mut s, &meta.dim_names[1], meta.dim_sizes[1]);
        }
        push_char(&mut s, ']');
    }
    assert(s@ =~= loaded_message(var@, *meta));
    s
}

/// The status after applying a slice:
/// `{var} [{row}={nrows}, {col}={ncols}]`, followed by ` ({fixed dims})`
/// when some dimensions are fixed.
pub open spec fn slice_message(
    var: Seq<char>,
    row_dim: Seq<char>,
    y_size: usize,
    col_dim: Seq<char>,
    x_size: usize,
    spec: SliceSpec,
) -> Seq<char> {
    let fixed = fixed_entries(spec.dims@);
    var + seq![' ', '['] + dim_label(row_dim, y_size) + seq![',', ' '] + dim_label(col_dim, x_size)
        + seq![']'] + if fixed.len() == 0 {
        Seq::empty()
    } else {
        seq![' ', '('] + join(fixed, seq![',', ' ']) + seq![')']
    }
}

/// The status shown after applying a slice.
pub fn slice_status(
    var: &str,
    row_dim: &String,
    y_size: usize,
    col_dim: &String,
    x_size: usize,
    spec: &SliceSpec,
) -> (s: String)
    ensures
        s@ == slice_message(var@, row_dim@, y_size, col_dim@, x_size, *spec),
{
    let mut s = string_of(var);
    push_chars(&mut s, &[' ', '[']);
    push_dim_label(&mut s, row_dim, y_size);
    push_chars(&mut s, &[',', ' ']);
    push_dim_label(&mut s, col_dim, x_size);
    push_char(&mut s, ']');
    let summary = spec.fixed_summary();
    let ghost fixed = fixed_entries(spec.dims@);
    if fixed_count_positive(spec) {
        push_chars(&mut s, &[' ', '(']);
        push_str(&mut s, summary.as_str());
        push_char(&mut s, ')');
    }
    assert(s@ =~= slice_message(var@, row_dim@, y_size, col_dim@, x_size, *spec));
    s
}

/// Whether some dimension is fixed.
fn fixed_count_positive(spec: &SliceSpec) -> (r: bool)
    ensures
        r == (fixed_entries(spec.dims@).len() > 0),
{
    let n = spec.dims.len();
    let mut i: usize = 0;
    assert(spec.dims@.take(0) =~= Seq::<crate::slice_picker::DimState>::empty());
    while i < n
        invariant
            n == spec.dims@.len(),
            i <= n,
            fixed_entries(spec.dims@.take(i as int)).len() == 0,
        decreases n - i,
    {
        assert(spec.dims@.take(i + 1).drop_last() =~= spec.dims@.take(i as int));
        assert(spec.dims@.take(i + 1).last() == spec.dims@[i as int]);
        match spec.dims[i].role {
            DimRole::Fixed(_) => {
                proof {
                    lemma_fixed_entries_grow(spec.dims@, (i + 1) as int);
                }
                return true;
            },
            _ => {},
        }
        i = i + 1;
    }
    assert(spec.dims@.take(n as int) =~= spec.dims@);
    false
}

/// Once a prefix has a fixed entry, every longer prefix does too.
proof fn lemma_fixed_entries_grow(dims: Seq<crate::slice_picker::DimState>, k: int)
    requires
        0 < k <= dims.len(),
        fixed_entries(dims.take(k)).len() > 0,
    ensures
        fixed_entries(dims).len() > 0,
    decreases dims.len() - k,
{
    if k < dims.len() {
        assert(dims.take(k + 1).drop_last() =~= dims.take(k));
        lemma_fixed_entries_grow(dims, k + 1);
    } else {
        assert(dims.take(k) =~= dims);
    }
}

} // verus!
