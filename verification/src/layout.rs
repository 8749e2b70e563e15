//! Screen geometry of the viewer: where the centred overlays go, how wide
//! the histogram's bars are, which slice of the tree is scrolled into view,
//! and which datum each cell of the heatmap shows.
use vstd::prelude::*;

verus! {

/// A screen rectangle, in terminal cells.
#[derive(Debug, Clone, Copy, PartialEq, Eq, Structural)]
pub struct Area {
    pub x: u16,
    pub y: u16,
    pub width: u16,
    pub height: u16,
}

/// The rectangle's far edges are addressable cell coordinates.
pub open spec fn on_screen(a: Area) -> bool {
    a.x + a.width <= u16::MAX && a.y + a.height <= u16::MAX
}

/// `avail` brought into `lo..=hi`: first capped at `hi`, then raised to `lo`.
pub open spec fn fit_spec(avail: u16, lo: u16, hi: u16) -> u16 {
    let m = if avail <= hi {
        avail
    } else {
        hi
    };
    if m >= lo {
        m
    } else {
        lo
    }
}

/// `a - b`, or 0 when `b > a`.
pub open spec fn sub_or_zero(a: u16, b: u16) -> u16 {
    if a >= b {
        (a - b) as u16
    } else {
        0
    }
}

/// A `w` by `h` rectangle centred in `area` (left/top margin rounded down).
pub open spec fn centered_spec(area: Area, w: u16, h: u16) -> Area {
    Area {
        x: (area.x + sub_or_zero(area.width, w) / 2) as u16,
        y: (area.y + sub_or_zero(area.height, h) / 2) as u16,
        width: w,
        height: h,
    }
}

/// Cap `avail` at `hi`, then raise it to `lo`.
pub fn fit(avail: u16, lo: u16, hi: u16) -> (r: u16)
    ensures
        r == fit_spec(avail, lo, hi),
{
    let m = if avail <= hi {
        avail
    } else {
        hi
    };
    if m >= lo {
        m
    } else {
        lo
    }
}

/// A `w` by `h` rectangle centred in `area`.
pub fn centered(area: Area, w: u16, h: u16) -> (r: Area)
    requires
        on_screen(area),
    ensures
        r == centered_spec(area, w, h),
{
    let mx = if area.width >= w {
        area.width - w
    } else {
        0
    };
    let my = if area.height >= h {
        area.height - h
    } else {
        0
    };
    Area { x: area.x + mx / 2, y: area.y + my / 2, width: w, height: h }
}

/// Law: a rectangle no larger than the area, centred in it, lies inside it,
/// and its left (top) margin is its right (bottom) margin or one less.
pub proof fn lemma_centered_inside(area: Area, w: u16, h: u16)
    requires
        on_screen(area),
        w <= area.width,
        h <= area.height,
    ensures
        ({
            let r = centered_spec(area, w, h);
            &&& area.x <= r.x
            &&& r.x + w <= area.x + area.width
            &&& area.y <= r.y
            &&& r.y + h <= area.y + area.height
            &&& (r.x - area.x) <= (area.x + area.width) - (r.x + w) <= (r.x - area.x) + 1
            &&& (r.y - area.y) <= (area.y + area.height) - (r.y + h) <= (r.y - area.y) + 1
        }),
{
}

/// An overlay's extent along one axis: `avail` brought into `lo..=hi`,
/// but never more than `avail`, so that the overlay stays inside its area.
pub open spec fn extent_spec(avail: u16, lo: u16, hi: u16) -> u16 {
    let f = fit_spec(avail, lo, hi);
    if f <= avail {
        f
    } else {
        avail
    }
}

/// An overlay's extent along one axis.
pub fn extent(avail: u16, lo: u16, hi: u16) -> (r: u16)
    ensures
        r == extent_spec(avail, lo, hi),
{
    let f = fit(avail, lo, hi);
    if f <= avail {
        f
    } else {
        avail
    }
}

/// The help overlay: 30 to 60 columns by 10 to 24 rows, centred (it
/// spills over an area smaller than 30 by 10).
pub open spec fn help_modal_spec(area: Area) -> Area {
    centered_spec(area, fit_spec(area.width, 30, 60), fit_spec(area.height, 10, 24))
}

/// Where the help overlay goes.
pub fn help_modal(area: Area) -> (r: Area)
    requires
        on_screen(area),
    ensures
        r == help_modal_spec(area),
{
    centered(area, fit(area.width, 30, 60), fit(area.height, 10, 24))
}

/// The histogram overlay, drawn only in an area of at least 12 by 6:
/// 20 to 60 columns by 8 to 20 rows, within the area, centred.
pub open spec fn histogram_modal_spec(area: Area) -> Option<Area> {
    if area.width < 12 || area.height < 6 {
        None
    } else {
        Some(centered_spec(area, extent_spec(area.width, 20, 60), extent_spec(area.height, 8, 20)))
    }
}

/// Where the histogram overlay goes, if the area is large enough.
pub fn histogram_modal(area: Area) -> (r: Option<Area>)
    requires
        on_screen(area),
    ensures
        r == histogram_modal_spec(area),
{
    if area.width < 12 || area.height < 6 {
        None
    } else {
        Some(centered(area, extent(area.width, 20, 60), extent(area.height, 8, 20)))
    }
}

/// The table overlay, drawn only in an area of at least 16 by 6:
/// 24 to 76 columns by 8 to 30 rows, centred (it spills over an area
/// narrower than 24 or shorter than 8).
pub open spec fn table_modal_spec(area: Area) -> Option<Area> {
    if area.width < 16 || area.height < 6 {
        None
    } else {
        Some(centered_spec(area, fit_spec(area.width, 24, 76), fit_spec(area.height, 8, 30)))
    }
}

/// Where the table overlay goes, if the area is large enough.
pub fn table_modal(area: Area) -> (r: Option<Area>)
    requires
        on_screen(area),
    ensures
        r == table_modal_spec(area),
{
    if area.width < 16 || area.height < 6 {
        None
    } else {
        Some(centered(area, fit(area.width, 24, 76), fit(area.height, 8, 30)))
    }
}

/// The slice-picker overlay, drawn only in an area of at least 10 by 6:
/// 30 to 56 columns (spilling over an area narrower than 30), and six rows more than there are dimensions (the
/// count taken modulo 2^16, as a terminal row count), at most the area's
/// height.
pub open spec fn picker_modal_spec(area: Area, ndims: usize) -> Option<Area> {
    if area.width < 10 || area.height < 6 {
        None
    } else {
        let want = (ndims as u16) + 6;
        let h = if want <= area.height {
            want as u16
        } else {
            area.height
        };
        Some(centered_spec(area, fit_spec(area.width, 30, 56), h))
    }
}

/// Where the slice-picker overlay goes, if the area is large enough.
pub fn picker_modal(area: Area, ndims: usize) -> (r: Option<Area>)
    requires
        on_screen(area),
        (ndims as u16) + 6 <= u16::MAX,
    ensures
        r == picker_modal_spec(area, ndims),
{
    if area.width < 10 || area.height < 6 {
        None
    } else {
        let want = (ndims as u16) + 6;
        let h = if want <= area.height {
            want
        } else {
            area.height
        };
        Some(centered(area, fit(area.width, 30, 56), h))
    }
}

/// `inner` lies within `outer`.
pub open spec fn inside(inner: Area, outer: Area) -> bool {
    &&& outer.x <= inner.x
    &&& inner.x + inner.width <= outer.x + outer.width
    &&& outer.y <= inner.y
    &&& inner.y + inner.height <= outer.y + outer.height
}

/// Law: the histogram overlay is always drawn inside the area it is given;
/// the help, table and slice-picker overlays are whenever the area is at
/// least their smallest size (30 by 10, 24 by 8, and 30 columns).
pub proof fn lemma_overlays_inside(area: Area, ndims: usize)
    requires
        on_screen(area),
    ensures
        area.width >= 30 && area.height >= 10 ==> inside(help_modal_spec(area), area),
        histogram_modal_spec(area) matches Some(r) ==> inside(r, area),
        area.width >= 24 && area.height >= 8 ==> (table_modal_spec(area) matches Some(r) ==> inside(
            r,
            area,
        )),
        area.width >= 30 ==> (picker_modal_spec(area, ndims) matches Some(r) ==> inside(r, area)),
{
    if area.width >= 30 && area.height >= 10 {
        lemma_centered_inside(area, fit_spec(area.width, 30, 60), fit_spec(area.height, 10, 24));
    }
    lemma_centered_inside(area, extent_spec(area.width, 20, 60), extent_spec(area.height, 8, 20));
    if area.width >= 24 && area.height >= 8 {
        lemma_centered_inside(area, fit_spec(area.width, 24, 76), fit_spec(area.height, 8, 30));
    }
    if area.width >= 30 {
        let want = (ndims as u16) + 6;
        let h: u16 = if want <= area.height {
            want as u16
        } else {
            area.height
        };
        lemma_centered_inside(area, fit_spec(area.width, 30, 56), h);
    }
}

// ---------------------------------------------------------------------------
// Histogram bars
// ---------------------------------------------------------------------------
/// The width of each histogram bar: the inner width shared among the bins
/// (the bin count taken as at least 1), at least one column.
pub open spec fn bar_width_spec(inner_width: u16, bins: usize) -> int {
    let n: int = if bins >= 1 {
        bins as int
    } else {
        1
    };
    let w = inner_width as int / n;
    if w >= 1 {
        w
    } else {
        1
    }
}

/// The width of each histogram bar.
pub fn bar_width(inner_width: u16, bins: usize) -> (w: usize)
    ensures
        w == bar_width_spec(inner_width, bins),
{
    let n = if bins >= 1 {
        bins
    } else {
        1
    };
    let w = inner_width as usize / n;
    if w >= 1 {
        w
    } else {
        1
    }
}

/// Law: when there are no more bins than columns, the bars side by side
/// fit in the inner width.
pub proof fn lemma_bars_fit(inner_width: u16, bins: usize)
    requires
        1 <= bins <= inner_width,
    ensures
        bar_width_spec(inner_width, bins) * bins <= inner_width,
{
    let w = inner_width as int;
    let n = bins as int;
    assert(w / n >= 1) by (nonlinear_arith)
        requires
            1 <= n <= w,
    ;
    assert((w / n) * n <= w) by (nonlinear_arith)
        requires
            n >= 1,
            w >= 0,
    ;
}

/// Law: with no more bins than columns, each bar is as wide as possible:
/// one column more per bar would overflow the inner width.
pub proof fn lemma_bars_widest(inner_width: u16, bins: usize)
    requires
        1 <= bins <= inner_width,
    ensures
        (bar_width_spec(inner_width, bins) + 1) * bins > inner_width,
{
    let w = inner_width as int;
    let n = bins as int;
    assert(w / n >= 1) by (nonlinear_arith)
        requires
            1 <= n <= w,
    ;
    assert((w / n + 1) * n > w) by (nonlinear_arith)
        requires
            n >= 1,
            w >= 0,
    ;
}

/// Law: an extent within its bounds is kept as it is; outside them it is
/// brought to the nearer bound (when `lo <= hi`).
pub proof fn lemma_fit_bounds(avail: u16, lo: u16, hi: u16)
    requires
        lo <= hi,
    ensures
        lo <= fit_spec(avail, lo, hi) <= hi,
        lo <= avail <= hi ==> fit_spec(avail, lo, hi) == avail,
        avail < lo ==> fit_spec(avail, lo, hi) == lo,
        avail > hi ==> fit_spec(avail, lo, hi) == hi,
        extent_spec(avail, lo, hi) == (if avail <= hi {
            avail
        } else {
            hi
        }),
{
}

// ---------------------------------------------------------------------------
// Tree scrolling
// ---------------------------------------------------------------------------
/// The first tree row shown when `visible` rows fit: the selection is kept
/// on the last visible row once it would fall below the panel.
pub open spec fn scroll_offset_spec(selected: usize, visible: usize) -> usize {
    if selected >= visible {
        (selected - visible + 1) as usize
    } else {
        0
    }
}

/// The first tree row shown (the tree is drawn only when a row fits).
pub fn scroll_offset(selected: usize, visible: usize) -> (r: usize)
    requires
        visible > 0,
    ensures
        r == scroll_offset_spec(selected, visible),
{
    if selected >= visible {
        selected - (visible - 1)
    } else {
        0
    }
}

/// Law: whenever at least one row fits, the selected row is among the
/// rows shown.
pub proof fn lemma_selection_visible(selected: usize, visible: usize)
    requires
        visible > 0,
    ensures
        scroll_offset_spec(selected, visible) <= selected < scroll_offset_spec(selected, visible)
            + visible,
{
}

/// Law: the tree scrolls no further than it must: it stays at the top
/// while the selection fits on screen, and otherwise puts the selection on
/// the last visible row.
pub proof fn lemma_scroll_is_minimal(selected: usize, visible: usize)
    requires
        visible > 0,
    ensures
        selected < visible ==> scroll_offset_spec(selected, visible) == 0,
        selected >= visible ==> scroll_offset_spec(selected, visible) + visible == selected + 1,
{
}

// ---------------------------------------------------------------------------
// Heatmap sampling
// ---------------------------------------------------------------------------
/// The data index drawn at screen cell `t` when `n` data cells are shown in
/// `span` screen cells: `t * n / span` (span taken as at least 1), at most
/// `n - 1`.
pub open spec fn sample_index_spec(t: nat, n: nat, span: nat) -> nat {
    let d = if span >= 1 {
        span
    } else {
        1
    };
    let v = t * n / d;
    if v + 1 <= n {
        v
    } else {
        (n - 1) as nat
    }
}

/// The data index drawn at screen cell `t`.
pub fn sample_index(t: usize, n: usize, span: usize) -> (r: usize)
    requires
        n > 0,
        t * n <= usize::MAX,
    ensures
        r == sample_index_spec(t as nat, n as nat, span as nat),
{
    let d = if span >= 1 {
        span
    } else {
        1
    };
    let v = t * n / d;
    if v < n {
        v
    } else {
        n - 1
    }
}

/// Law: the sampled index is a valid data index, and sampling never goes
/// backwards as the screen cell advances.
pub proof fn lemma_sample_index_monotone(t1: nat, t2: nat, n: nat, span: nat)
    requires
        n > 0,
        t1 <= t2,
    ensures
        sample_index_spec(t1, n, span) < n,
        sample_index_spec(t1, n, span) <= sample_index_spec(t2, n, span),
{
    let d: nat = if span >= 1 {
        span
    } else {
        1
    };
    assert(t1 * n <= t2 * n) by (nonlinear_arith)
        requires
            t1 <= t2,
    ;
    assert((t1 * n) / d <= (t2 * n) / d) by (nonlinear_arith)
        requires
            t1 * n <= t2 * n,
            d >= 1,
    ;
}

/// Law: when the panel has exactly one screen cell per data cell, every
/// cell shows its own datum.
pub proof fn lemma_sample_index_identity(t: nat, n: nat)
    requires
        t < n,
    ensures
        sample_index_spec(t, n, n) == t,
{
    assert(t * n / n == t) by (nonlinear_arith)
        requires
            n > 0,
    ;
}

/// Law: a screen cell `t` inside a span of `span` cells shows the datum
/// `floor(t * n / span)`: the cells split the `n` data evenly. Cell 0
/// shows datum 0, and when the span is no larger than the data, distinct
/// cells show distinct data.
pub proof fn lemma_sample_index_floor(t: nat, t2: nat, n: nat, span: nat)
    requires
        t < span,
        span >= 1,
        n >= 1,
    ensures
        sample_index_spec(t, n, span) * span <= t * n,
        t * n < (sample_index_spec(t, n, span) + 1) * span,
        sample_index_spec(0, n, span) == 0,
        span <= n && t < t2 < span ==> sample_index_spec(t, n, span) < sample_index_spec(t2, n, span),
{
    let v = t * n / span;
    assert(v * span <= t * n && t * n < (v + 1) * span) by (nonlinear_arith)
        requires
            v == t * n / span,
            span >= 1,
    ;
    assert(v < n) by (nonlinear_arith)
        requires
            v * span <= t * n,
            t < span,
            n >= 1,
    ;
    assert(0 * n / span == 0) by (nonlinear_arith)
        requires
            span >= 1,
    ;
    if span <= n && t < t2 && t2 < span {
        let v2 = t2 * n / span;
        assert(v2 * span <= t2 * n && t2 * n < (v2 + 1) * span) by (nonlinear_arith)
            requires
                v2 == t2 * n / span,
                span >= 1,
        ;
        assert(v2 < n) by (nonlinear_arith)
            requires
                v2 * span <= t2 * n,
                t2 < span,
                n >= 1,
        ;
        assert(v < v2) by (nonlinear_arith)
            requires
                v * span <= t * n,
                t2 * n < (v2 + 1) * span,
                v2 * span <= t2 * n,
                t * n < (v + 1) * span,
                t + 1 <= t2,
                span <= n,
                span >= 1,
        ;
    }
}

/// What the heatmap panel draws in an inner area of `width` by `height`:
/// a plot area that leaves 9 columns for the legend and one row for the
/// axis label, and how many rows and columns of cells are drawn: one per
/// datum when the data fits, otherwise the whole plot area.
#[derive(Debug, Clone, Copy, PartialEq, Eq, Structural)]
pub struct HeatmapGrid {
    pub plot_w: u16,
    pub plot_h: u16,
    pub rows_drawn: u16,
    pub cols_drawn: u16,
}

/// Cells drawn along an axis of `plot` cells for `n` data cells.
pub open spec fn drawn_spec(plot: u16, n: usize) -> u16 {
    if n <= plot {
        n as u16
    } else {
        plot
    }
}

pub open spec fn heatmap_grid_spec(width: u16, height: u16, nrows: usize, ncols: usize) -> HeatmapGrid {
    let plot_w = sub_or_zero(width, 9);
    let plot_h = sub_or_zero(height, 1);
    HeatmapGrid {
        plot_w,
        plot_h,
        rows_drawn: drawn_spec(plot_h, nrows),
        cols_drawn: drawn_spec(plot_w, ncols),
    }
}

/// The heatmap's plot area and drawn extent.
pub fn heatmap_grid(width: u16, height: u16, nrows: usize, ncols: usize) -> (g: HeatmapGrid)
    ensures
        g == heatmap_grid_spec(width, height, nrows, ncols),
{
    let plot_w = if width >= 9 {
        width - 9
    } else {
        0
    };
    let plot_h = if height >= 1 {
        height - 1
    } else {
        0
    };
    HeatmapGrid {
        plot_w,
        plot_h,
        rows_drawn: if nrows <= plot_h as usize {
            nrows as u16
        } else {
            plot_h
        },
        cols_drawn: if ncols <= plot_w as usize {
            ncols as u16
        } else {
            plot_w
        },
    }
}

/// The datum `(row, column)` drawn at screen cell `(ty, tx)`: each axis
/// samples its data over the cells drawn along it.
pub open spec fn heatmap_cell_spec(g: HeatmapGrid, ty: nat, tx: nat, nrows: nat, ncols: nat) -> (
    nat,
    nat,
) {
    (
        sample_index_spec(ty, nrows, g.rows_drawn as nat),
        sample_index_spec(tx, ncols, g.cols_drawn as nat),
    )
}

/// The datum drawn at screen cell `(ty, tx)`.
pub fn heatmap_cell(g: HeatmapGrid, ty: u16, tx: u16, nrows: usize, ncols: usize) -> (r: (
    usize,
    usize,
))
    requires
        nrows > 0,
        ncols > 0,
        ty * nrows <= usize::MAX,
        tx * ncols <= usize::MAX,
    ensures
        r.0 == heatmap_cell_spec(g, ty as nat, tx as nat, nrows as nat, ncols as nat).0,
        r.1 == heatmap_cell_spec(g, ty as nat, tx as nat, nrows as nat, ncols as nat).1,
{
    (
        sample_index(ty as usize, nrows, g.rows_drawn as usize),
        sample_index(tx as usize, ncols, g.cols_drawn as usize),
    )
}

/// Law: the heatmap never draws past its plot area, every drawn cell shows
/// a datum of the array, and a dimension that fits in the plot area is
/// shown cell for cell: every datum along it is drawn, in its own cell.
pub proof fn lemma_heatmap_cells(width: u16, height: u16, nrows: usize, ncols: usize, ty: nat, tx: nat)
    requires
        nrows > 0,
        ncols > 0,
    ensures
        ({
            let g = heatmap_grid_spec(width, height, nrows, ncols);
            let cell = heatmap_cell_spec(g, ty, tx, nrows as nat, ncols as nat);
            &&& g.rows_drawn <= g.plot_h
            &&& g.cols_drawn <= g.plot_w
            &&& cell.0 < nrows
            &&& cell.1 < ncols
            &&& (nrows <= g.plot_h ==> g.rows_drawn == nrows && (ty < nrows ==> cell.0 == ty))
            &&& (ncols <= g.plot_w ==> g.cols_drawn == ncols && (tx < ncols ==> cell.1 == tx))
        }),
{
    let g = heatmap_grid_spec(width, height, nrows, ncols);
    lemma_sample_index_monotone(ty, ty, nrows as nat, g.rows_drawn as nat);
    lemma_sample_index_monotone(tx, tx, ncols as nat, g.cols_drawn as nat);
    if nrows <= g.plot_h && ty < nrows {
        lemma_sample_index_identity(ty, nrows as nat);
    }
    if ncols <= g.plot_w && tx < ncols {
        lemma_sample_index_identity(tx, ncols as nat);
    }
}

} // verus!
