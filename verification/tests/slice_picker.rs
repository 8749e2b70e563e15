use nctui::slice_picker::{DimRole, PlotMode, SlicePicker, SliceSpec};

fn names(v: &[&str]) -> Vec<String> {
    v.iter().map(|s| s.to_string()).collect()
}

#[test]
fn test_default_spec_2d() {
    let spec = SliceSpec::default_for("temp", &["lat".into(), "lon".into()], &[180, 360]);
    assert_eq!(spec.free_dim_count(), 2);
    assert_eq!(spec.dims[0].role, DimRole::AxisY);
    assert_eq!(spec.dims[1].role, DimRole::AxisX);
    assert!(spec.is_valid_plot());
}

#[test]
fn test_default_spec_3d() {
    let spec = SliceSpec::default_for(
        "temp",
        &["time".into(), "lat".into(), "lon".into()],
        &[12, 180, 360],
    );
    assert_eq!(spec.free_dim_count(), 2);
    assert_eq!(spec.dims[0].role, DimRole::Fixed(0));
    assert_eq!(spec.dims[1].role, DimRole::AxisY);
    assert_eq!(spec.dims[2].role, DimRole::AxisX);
}

#[test]
fn test_default_spec_4d() {
    let spec = SliceSpec::default_for(
        "temp",
        &["time".into(), "level".into(), "lat".into(), "lon".into()],
        &[12, 10, 180, 360],
    );
    assert_eq!(spec.free_dim_count(), 2);
    assert_eq!(spec.dims[0].role, DimRole::Fixed(0));
    assert_eq!(spec.dims[1].role, DimRole::Fixed(0));
    assert!(spec.is_valid_plot());
}

#[test]
fn test_default_spec_5d() {
    let names = [
        "ens".into(),
        "time".into(),
        "level".into(),
        "lat".into(),
        "lon".into(),
    ];
    let sizes = [3usize, 12, 10, 180, 360];
    let spec = SliceSpec::default_for("temp", &names, &sizes);
    assert_eq!(spec.dims.len(), 5);
    assert_eq!(spec.free_dim_count(), 2);
    assert_eq!(spec.dims[0].role, DimRole::Fixed(0));
    assert_eq!(spec.dims[1].role, DimRole::Fixed(0));
    assert_eq!(spec.dims[2].role, DimRole::Fixed(0));
    assert_eq!(spec.dims[3].role, DimRole::AxisY);
    assert_eq!(spec.dims[4].role, DimRole::AxisX);
}

#[test]
fn test_line_mode_3d() {
    let mut spec = SliceSpec::default_for(
        "temp",
        &["time".into(), "lat".into(), "lon".into()],
        &[12, 180, 360],
    );
    spec.set_line_mode();
    assert_eq!(spec.free_dim_count(), 1);
    assert_eq!(spec.line_axis(), Some(2));
    assert!(spec.is_valid_plot());
    assert!(spec.xy_axes().is_none());
}

#[test]
fn test_line_mode_5d() {
    let names = [
        "ens".into(),
        "time".into(),
        "level".into(),
        "lat".into(),
        "lon".into(),
    ];
    let sizes = [3usize, 12, 10, 180, 360];
    let spec = SliceSpec::default_line_for("temp", &names, &sizes);
    assert_eq!(spec.free_dim_count(), 1);
    assert_eq!(spec.line_axis(), Some(4));
    assert_eq!(spec.dims[0].role, DimRole::Fixed(0));
    assert_eq!(spec.dims[4].role, DimRole::AxisX);
}

#[test]
fn test_heatmap_mode_from_line() {
    let mut spec = SliceSpec::default_line_for(
        "temp",
        &["time".into(), "lat".into(), "lon".into()],
        &[12, 180, 360],
    );
    assert_eq!(spec.free_dim_count(), 1);
    spec.set_heatmap_mode();
    assert_eq!(spec.free_dim_count(), 2);
    assert!(spec.xy_axes().is_some());
}

#[test]
fn test_assign_axis_bumps_existing() {
    let mut spec = SliceSpec::default_for(
        "temp",
        &["time".into(), "lat".into(), "lon".into()],
        &[12, 180, 360],
    );
    spec.assign_axis(0, DimRole::AxisX);
    assert_eq!(spec.dims[0].role, DimRole::AxisX);
    assert_eq!(spec.dims[2].role, DimRole::Fixed(0));
    assert_eq!(spec.free_dim_count(), 2);
}

#[test]
fn test_increment_decrement_fixed() {
    let mut spec = SliceSpec::default_for(
        "temp",
        &["time".into(), "lat".into(), "lon".into()],
        &[12, 180, 360],
    );
    assert_eq!(spec.dims[0].role, DimRole::Fixed(0));
    spec.increment_fixed(0);
    assert_eq!(spec.dims[0].role, DimRole::Fixed(1));
    spec.decrement_fixed(0);
    assert_eq!(spec.dims[0].role, DimRole::Fixed(0));
    spec.decrement_fixed(0);
    assert_eq!(spec.dims[0].role, DimRole::Fixed(11));
}

#[test]
fn test_xy_axes() {
    let spec = SliceSpec::default_for(
        "temp",
        &["time".into(), "lat".into(), "lon".into()],
        &[12, 180, 360],
    );
    let (y, x) = spec.xy_axes().unwrap();
    assert_eq!(y, 1);
    assert_eq!(x, 2);
}

#[test]
fn test_fixed_summary() {
    let mut spec = SliceSpec::default_for(
        "temp",
        &["time".into(), "level".into(), "lat".into(), "lon".into()],
        &[12, 10, 180, 360],
    );
    spec.increment_fixed(1);
    assert_eq!(spec.fixed_summary(), "time=0, level=1");
}

#[test]
fn test_invalid_when_zero_or_three_free() {
    let mut spec = SliceSpec::default_for("temp", &["a".into(), "b".into(), "c".into()], &[2, 3, 4]);
    spec.assign_axis(1, DimRole::Fixed(0));
    spec.assign_axis(2, DimRole::Fixed(0));
    assert_eq!(spec.free_dim_count(), 0);
    assert!(!spec.is_valid_plot());
}

// ---------------------------------------------------------------------------
// Further cases
// ---------------------------------------------------------------------------

#[test]
fn default_spec_keeps_names_and_sizes() {
    let spec = SliceSpec::default_for("v", &names(&["a", "b", "c"]), &[2, 3, 4]);
    assert_eq!(spec.var_name, "v");
    let got: Vec<(String, usize)> = spec.dims.iter().map(|d| (d.name.clone(), d.size)).collect();
    assert_eq!(got, vec![("a".to_string(), 2), ("b".to_string(), 3), ("c".to_string(), 4)]);
}

#[test]
fn default_spec_for_one_and_zero_dims() {
    let one = SliceSpec::default_for("v", &names(&["t"]), &[5]);
    assert_eq!(one.dims[0].role, DimRole::AxisX);
    assert_eq!(one.free_dim_count(), 1);
    assert_eq!(one.plot_mode(), PlotMode::Line);
    let none = SliceSpec::default_for("v", &[], &[]);
    assert_eq!(none.dims.len(), 0);
    assert_eq!(none.plot_mode(), PlotMode::FixAll);
    assert!(!none.is_valid_plot());
}

#[test]
fn increment_wraps_at_size() {
    let mut spec = SliceSpec::default_for("v", &names(&["t", "y", "x"]), &[3, 4, 5]);
    spec.increment_fixed(0);
    spec.increment_fixed(0);
    assert_eq!(spec.dims[0].role, DimRole::Fixed(2));
    spec.increment_fixed(0);
    assert_eq!(spec.dims[0].role, DimRole::Fixed(0));
}

#[test]
fn increment_on_axis_changes_nothing() {
    let mut spec = SliceSpec::default_for("v", &names(&["t", "y", "x"]), &[3, 4, 5]);
    spec.increment_fixed(1);
    spec.decrement_fixed(2);
    assert_eq!(spec.dims[1].role, DimRole::AxisY);
    assert_eq!(spec.dims[2].role, DimRole::AxisX);
}

#[test]
fn assign_y_moves_y_axis() {
    let mut spec = SliceSpec::default_for("v", &names(&["t", "y", "x"]), &[3, 4, 5]);
    spec.assign_axis(0, DimRole::AxisY);
    assert_eq!(spec.dims[0].role, DimRole::AxisY);
    assert_eq!(spec.dims[1].role, DimRole::Fixed(0));
    assert_eq!(spec.dims[2].role, DimRole::AxisX);
    assert_eq!(spec.xy_axes(), Some((0, 2)));
}

#[test]
fn plot_modes() {
    let mut spec = SliceSpec::default_for("v", &names(&["t", "y", "x"]), &[3, 4, 5]);
    assert_eq!(spec.plot_mode(), PlotMode::Heatmap);
    spec.set_line_mode();
    assert_eq!(spec.plot_mode(), PlotMode::Line);
    spec.assign_axis(2, DimRole::Fixed(0));
    assert_eq!(spec.plot_mode(), PlotMode::FixAll);
}

#[test]
fn fixed_summary_empty_when_nothing_fixed() {
    let spec = SliceSpec::default_for("v", &names(&["y", "x"]), &[4, 5]);
    assert_eq!(spec.fixed_summary(), "");
}

#[test]
fn picker_starts_visible_on_first_dim() {
    let spec = SliceSpec::default_for("v", &names(&["t", "y", "x"]), &[3, 4, 5]);
    let mut picker = SlicePicker::new(spec);
    assert!(picker.visible);
    assert_eq!(picker.selected, 0);
    picker.select_prev();
    assert_eq!(picker.selected, 0);
    picker.select_next();
    picker.select_next();
    picker.select_next();
    assert_eq!(picker.selected, 2);
    picker.select_prev();
    assert_eq!(picker.selected, 1);
}
