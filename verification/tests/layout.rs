use nctui::layout::{
    bar_width, centered, heatmap_cell, fit, heatmap_grid, help_modal, histogram_modal, picker_modal, sample_index,
    scroll_offset, table_modal, Area, HeatmapGrid,
};

fn area(x: u16, y: u16, width: u16, height: u16) -> Area {
    Area { x, y, width, height }
}

#[test]
fn fit_caps_then_raises() {
    assert_eq!(fit(100, 30, 60), 60);
    assert_eq!(fit(45, 30, 60), 45);
    assert_eq!(fit(10, 30, 60), 30);
}

#[test]
fn centering() {
    assert_eq!(centered(area(0, 0, 60, 24), 30, 10), area(15, 7, 30, 10));
    assert_eq!(centered(area(5, 2, 11, 5), 4, 2), area(8, 3, 4, 2));
    // Wider than the area: placed at the area's origin.
    assert_eq!(centered(area(3, 3, 10, 4), 20, 8), area(3, 3, 20, 8));
}

#[test]
fn help_overlay_geometry() {
    assert_eq!(help_modal(area(0, 0, 60, 24)), area(0, 0, 60, 24));
    assert_eq!(help_modal(area(0, 0, 100, 40)), area(20, 8, 60, 24));
    assert_eq!(help_modal(area(0, 0, 20, 5)), area(0, 0, 30, 10));
    assert_eq!(help_modal(area(0, 0, 40, 9)), area(0, 0, 40, 10));
}

#[test]
fn histogram_overlay_geometry() {
    assert_eq!(histogram_modal(area(0, 0, 11, 20)), None);
    assert_eq!(histogram_modal(area(0, 0, 100, 5)), None);
    assert_eq!(histogram_modal(area(0, 0, 60, 20)), Some(area(0, 0, 60, 20)));
    assert_eq!(histogram_modal(area(0, 0, 80, 30)), Some(area(10, 5, 60, 20)));
    assert_eq!(histogram_modal(area(0, 0, 16, 6)), Some(area(0, 0, 16, 6)));
    // A narrow area keeps the overlay inside it.
    assert_eq!(histogram_modal(area(0, 0, 15, 10)), Some(area(0, 0, 15, 10)));
}

#[test]
fn table_overlay_geometry() {
    assert_eq!(table_modal(area(0, 0, 15, 20)), None);
    assert_eq!(table_modal(area(0, 0, 40, 14)), Some(area(0, 0, 40, 14)));
    assert_eq!(table_modal(area(0, 0, 100, 40)), Some(area(12, 5, 76, 30)));
    assert_eq!(table_modal(area(0, 0, 80, 7)), Some(area(2, 0, 76, 8)));
}

#[test]
fn picker_overlay_geometry() {
    assert_eq!(picker_modal(area(0, 0, 9, 20), 3), None);
    assert_eq!(picker_modal(area(0, 0, 60, 20), 3), Some(area(2, 5, 56, 9)));
    assert_eq!(picker_modal(area(0, 0, 60, 22), 4), Some(area(2, 6, 56, 10)));
    assert_eq!(picker_modal(area(0, 0, 40, 8), 5), Some(area(0, 0, 40, 8)));
}

#[test]
fn tree_scrolling() {
    assert_eq!(scroll_offset(0, 10), 0);
    assert_eq!(scroll_offset(9, 10), 0);
    assert_eq!(scroll_offset(10, 10), 1);
    assert_eq!(scroll_offset(25, 10), 16);
    assert_eq!(scroll_offset(3, 1), 3);
}

#[test]
fn heatmap_sampling() {
    // 100 data rows on 10 screen rows: every tenth row.
    let rows: Vec<usize> = (0..10).map(|t| sample_index(t, 100, 10)).collect();
    assert_eq!(rows, vec![0, 10, 20, 30, 40, 50, 60, 70, 80, 90]);
    // As many screen cells as data: identity.
    let same: Vec<usize> = (0..5).map(|t| sample_index(t, 5, 5)).collect();
    assert_eq!(same, vec![0, 1, 2, 3, 4]);
    // A zero span is taken as one and the index is kept in range.
    assert_eq!(sample_index(3, 4, 0), 3);
    assert_eq!(sample_index(7, 4, 1), 3);
}

#[test]
fn heatmap_grid_sizes() {
    assert_eq!(
        heatmap_grid(28, 8, 3, 100),
        HeatmapGrid { plot_w: 19, plot_h: 7, rows_drawn: 3, cols_drawn: 19 }
    );
    assert_eq!(
        heatmap_grid(5, 0, 10, 10),
        HeatmapGrid { plot_w: 0, plot_h: 0, rows_drawn: 0, cols_drawn: 0 }
    );
}

#[test]
fn histogram_bar_widths() {
    assert_eq!(bar_width(58, 20), 2);
    assert_eq!(bar_width(58, 4), 14);
    assert_eq!(bar_width(10, 80), 1);
    assert_eq!(bar_width(10, 0), 10);
}

#[test]
fn heatmap_that_fits_is_shown_cell_for_cell() {
    // A 4 x 6 grid in a 28 x 8 inner area: a 19 x 7 plot area.
    let g = heatmap_grid(28, 8, 4, 6);
    assert_eq!(g, HeatmapGrid { plot_w: 19, plot_h: 7, rows_drawn: 4, cols_drawn: 6 });
    let mut seen = Vec::new();
    for ty in 0..g.rows_drawn {
        for tx in 0..g.cols_drawn {
            seen.push(heatmap_cell(g, ty, tx, 4, 6));
        }
    }
    let all: Vec<(usize, usize)> = (0..4).flat_map(|r| (0..6).map(move |c| (r, c))).collect();
    assert_eq!(seen, all);
    // A grid larger than the plot area is sampled down.
    let g = heatmap_grid(28, 8, 70, 6);
    assert_eq!(g.rows_drawn, 7);
    assert_eq!(heatmap_cell(g, 6, 0, 70, 6), (60, 0));
}
