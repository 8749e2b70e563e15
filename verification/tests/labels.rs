use nctui::labels::{
    file_label, filter_tag, histogram_title, index_label, index_labels, match_count,
    message_label, picker_title, prompt, result_dims, role_label, table_title_1d,
    table_title_2d, tree_row_text, var_label,
};
use nctui::search::{DimFilter, VarInfo};
use nctui::slice_picker::{DimRole, PlotMode};
use nctui::tree::{Row, RowKind};

fn row(label: &str, kind: RowKind, indent: usize) -> Row {
    Row { label: label.to_string(), path: String::new(), kind, indent }
}

#[test]
fn tree_row_texts() {
    assert_eq!(
        tree_row_text(&row("atmosphere", RowKind::Group { expanded: false }, 0), true),
        "\u{203a} \u{25b6} atmosphere"
    );
    assert_eq!(
        tree_row_text(&row("atmosphere", RowKind::Group { expanded: true }, 0), false),
        "  \u{25bc} atmosphere"
    );
    assert_eq!(
        tree_row_text(&row("lat", RowKind::Variable { is_coord: true }, 1), false),
        "    \u{25c6} lat"
    );
    assert_eq!(
        tree_row_text(&row("sst", RowKind::Variable { is_coord: false }, 2), true),
        "\u{203a}       sst"
    );
}

#[test]
fn picker_cells_and_title() {
    assert_eq!(role_label(DimRole::Fixed(3)), "Fixed");
    assert_eq!(role_label(DimRole::AxisX), "X-axis");
    assert_eq!(role_label(DimRole::AxisY), "Y-axis");
    assert_eq!(index_label(DimRole::Fixed(42)), "42");
    assert_eq!(index_label(DimRole::AxisY), "-");
    assert_eq!(picker_title("temp", PlotMode::Heatmap), " Slice: temp \u{2192} heatmap ");
    assert_eq!(picker_title("t", PlotMode::Line), " Slice: t \u{2192} line plot ");
    assert_eq!(picker_title("t", PlotMode::FixAll), " Slice: t \u{2192} fix all dims ");
    assert_eq!(picker_title("t", PlotMode::NeedFree), " Slice: t \u{2192} need 1 or 2 free ");
}

#[test]
fn search_bar_pieces() {
    assert_eq!(filter_tag(&None), "");
    assert_eq!(filter_tag(&Some(DimFilter::HasDim("depth".into()))), " [dim:depth]");
    assert_eq!(filter_tag(&Some(DimFilter::NDim(3))), " [3D]");
    assert_eq!(prompt(true), " /");
    assert_eq!(prompt(false), " ");
    assert_eq!(match_count(true, 12), " (12 match)");
    assert_eq!(match_count(false, 12), "");
}

#[test]
fn search_result_dims() {
    let v = VarInfo {
        name: "sst".into(),
        group: "/".into(),
        dim_names: vec!["lat".into(), "lon".into()],
        dim_sizes: vec![180, 360],
        is_coord: false,
    };
    assert_eq!(result_dims(&v), "  [lat=180, lon=360]");
    let scalar = VarInfo {
        name: "s".into(),
        group: "/".into(),
        dim_names: vec![],
        dim_sizes: vec![],
        is_coord: false,
    };
    assert_eq!(result_dims(&scalar), "  []");
}

#[test]
fn status_bar_pieces() {
    assert_eq!(file_label("data.nc"), " data.nc ");
    assert_eq!(var_label(&Some("sst".to_string())), " | sst ");
    assert_eq!(var_label(&None), "");
    assert_eq!(message_label("done"), " | done ");
    assert_eq!(message_label(""), "");
}

#[test]
fn titles() {
    assert_eq!(histogram_title(20, 100), " Histogram (20 bins, n=100) ");
    assert_eq!(table_title_1d("temperature", "lat"), "temperature [lat]");
    assert_eq!(table_title_2d("sst", "lat", "lon"), "sst [lat \u{00d7} lon]");
}

#[test]
fn numbered_labels() {
    assert_eq!(index_labels(3), vec!["0", "1", "2"]);
    assert!(index_labels(0).is_empty());
    assert_eq!(index_labels(12)[11], "11");
}
