use indexmap::IndexMap;
use nctui::dataset::{catalog_of, DatasetInfo, VarMeta};
use nctui::search::SearchState;
use nctui::session::{
    command_for, fewer_bins, loaded_status, more_bins, plan_load, plan_open_slicer, slice_status,
    Command, Focus, Key, KeyContext, KeyPress, LoadPlan, Modal,
};
use nctui::slice_picker::{DimRole, SliceSpec};
use nctui::tree::TreeNavigator;

fn meta(name: &str, dims: &[&str], sizes: &[usize]) -> VarMeta {
    VarMeta {
        name: name.to_string(),
        dim_names: dims.iter().map(|d| d.to_string()).collect(),
        dim_sizes: sizes.to_vec(),
    }
}

fn stub_info() -> DatasetInfo {
    let mut groups = IndexMap::new();
    groups.insert("/".to_string(), vec!["temperature".to_string(), "lat".to_string()]);

    let mut variables = IndexMap::new();
    variables.insert("temperature".to_string(), vec!["lat".to_string(), "lon".to_string()]);
    variables.insert("lat".to_string(), vec!["lat".to_string()]);

    let mut var_meta = IndexMap::new();
    var_meta.insert("temperature".to_string(), meta("temperature", &["lat", "lon"], &[4, 6]));
    var_meta.insert("lat".to_string(), meta("lat", &["lat"], &[4]));

    let mut coord_vars = IndexMap::new();
    coord_vars.insert("lat".to_string(), "lat".to_string());

    DatasetInfo { groups, variables, var_meta, coord_vars }
}

fn ctx(modal: Modal, focus: Focus) -> KeyContext {
    KeyContext {
        modal,
        focus,
        has_table: true,
        has_picker: true,
        picker_free_dims: 2,
        has_current_var: true,
        has_filter: true,
    }
}

fn key(k: Key) -> KeyPress {
    KeyPress { key: k, ctrl: false }
}

// ---------------------------------------------------------------------------
// The application-state scenarios, through the library's pieces
// ---------------------------------------------------------------------------

#[test]
fn test_search_catalog_populated() {
    let info = stub_info();
    let mut search = SearchState::new();
    search.set_catalog(catalog_of(&info));
    assert_eq!(search.catalog().len(), 2);
}

#[test]
fn test_tree_expand_on_group_select() {
    let info = stub_info();
    let mut tree = TreeNavigator::new(info.groups.clone(), info.variables.clone());
    // Selected row 0 is the "/" group
    assert_eq!(tree.rows.len(), 1);
    assert!(matches!(plan_load(&tree, &info.var_meta), LoadPlan::ToggleGroup));
    tree.toggle_expand();
    assert!(tree.rows.len() > 1);
}

// ---------------------------------------------------------------------------
// Key dispatch
// ---------------------------------------------------------------------------

#[test]
fn ctrl_c_quits_everywhere() {
    let press = KeyPress { key: Key::Char('c'), ctrl: true };
    for modal in [Modal::Closed, Modal::Help, Modal::Histogram, Modal::Table, Modal::SlicePicker] {
        for focus in [Focus::Tree, Focus::Search] {
            assert_eq!(command_for(ctx(modal, focus), press), Command::Quit);
        }
    }
}

#[test]
fn tree_keys() {
    let c = ctx(Modal::Closed, Focus::Tree);
    assert_eq!(command_for(c, key(Key::Char('q'))), Command::Quit);
    assert_eq!(command_for(c, key(Key::Char('?'))), Command::OpenHelp);
    assert_eq!(command_for(c, key(Key::Char('/'))), Command::OpenSearch);
    assert_eq!(command_for(c, key(Key::Down)), Command::TreeDown);
    assert_eq!(command_for(c, key(Key::Char('k'))), Command::TreeUp);
    assert_eq!(command_for(c, key(Key::Char('g'))), Command::TreeTop);
    assert_eq!(command_for(c, key(Key::Char('G'))), Command::TreeBottom);
    assert_eq!(command_for(c, key(Key::Char(' '))), Command::LoadSelected);
    assert_eq!(command_for(c, key(Key::Enter)), Command::LoadSelected);
    assert_eq!(command_for(c, key(Key::Char('h'))), Command::ShowHistogram);
    assert_eq!(command_for(c, key(Key::Char('t'))), Command::ShowTable);
    assert_eq!(command_for(c, key(Key::Char('s'))), Command::OpenSlicer);
    assert_eq!(command_for(c, key(Key::Esc)), Command::ClearFilter);
    assert_eq!(command_for(c, key(Key::Char('z'))), Command::Nothing);
}

#[test]
fn tree_keys_need_their_widgets() {
    let mut c = ctx(Modal::Closed, Focus::Tree);
    c.has_current_var = false;
    c.has_table = false;
    c.has_filter = false;
    assert_eq!(command_for(c, key(Key::Char('h'))), Command::Nothing);
    assert_eq!(command_for(c, key(Key::Char('t'))), Command::Nothing);
    assert_eq!(command_for(c, key(Key::Esc)), Command::Nothing);
}

#[test]
fn search_keys() {
    let c = ctx(Modal::Closed, Focus::Search);
    assert_eq!(command_for(c, key(Key::Char('q'))), Command::SearchPush('q'));
    assert_eq!(command_for(c, key(Key::Backspace)), Command::SearchPop);
    assert_eq!(command_for(c, key(Key::Enter)), Command::SearchAccept);
    assert_eq!(command_for(c, key(Key::Esc)), Command::SearchCancel);
    assert_eq!(command_for(c, key(Key::Down)), Command::Nothing);
}

#[test]
fn overlay_keys() {
    let help = ctx(Modal::Help, Focus::Tree);
    assert_eq!(command_for(help, key(Key::Char('q'))), Command::CloseHelp);
    assert_eq!(command_for(help, key(Key::Char('j'))), Command::Nothing);

    let hist = ctx(Modal::Histogram, Focus::Tree);
    assert_eq!(command_for(hist, key(Key::Char('+'))), Command::MoreBins);
    assert_eq!(command_for(hist, key(Key::Char('='))), Command::MoreBins);
    assert_eq!(command_for(hist, key(Key::Char('-'))), Command::FewerBins);
    assert_eq!(command_for(hist, key(Key::Char('h'))), Command::CloseHistogram);

    let table = ctx(Modal::Table, Focus::Tree);
    assert_eq!(command_for(table, key(Key::PageDown)), Command::TableScrollDown(20));
    assert_eq!(command_for(table, key(Key::Char('k'))), Command::TableScrollUp(1));
    assert_eq!(command_for(table, key(Key::Left)), Command::TableScrollLeft(1));
    assert_eq!(command_for(table, key(Key::Char('t'))), Command::CloseTable);
    let mut no_table = table;
    no_table.has_table = false;
    assert_eq!(command_for(no_table, key(Key::Esc)), Command::Nothing);

    let picker = ctx(Modal::SlicePicker, Focus::Tree);
    assert_eq!(command_for(picker, key(Key::Enter)), Command::ConfirmSlice);
    assert_eq!(command_for(picker, key(Key::Char('x'))), Command::PickerAssign(DimRole::AxisX));
    assert_eq!(command_for(picker, key(Key::Char('f'))), Command::PickerAssign(DimRole::Fixed(0)));
    assert_eq!(command_for(picker, key(Key::Right)), Command::PickerIncrement);
    assert_eq!(command_for(picker, key(Key::Char('h'))), Command::PickerDecrement);
    let mut one_free = picker;
    one_free.picker_free_dims = 1;
    assert_eq!(command_for(one_free, key(Key::Enter)), Command::NeedTwoAxes);
}

// ---------------------------------------------------------------------------
// Histogram bins
// ---------------------------------------------------------------------------

#[test]
fn test_bin_adjustment() {
    let mut n_bins = 20;
    assert_eq!(n_bins, 20);
    n_bins = more_bins(n_bins);
    assert_eq!(n_bins, 24);
    n_bins = fewer_bins(n_bins);
    assert_eq!(n_bins, 20);
    for _ in 0..10 {
        n_bins = fewer_bins(n_bins);
    }
    assert_eq!(n_bins, 4);
}

#[test]
fn bins_are_capped_at_eighty() {
    assert_eq!(more_bins(76), 80);
    assert_eq!(more_bins(78), 80);
    assert_eq!(more_bins(80), 80);
    assert_eq!(fewer_bins(5), 4);
    assert_eq!(fewer_bins(0), 4);
    assert_eq!(fewer_bins(more_bins(40)), 40);
}

// ---------------------------------------------------------------------------
// Loading the selected row
// ---------------------------------------------------------------------------

fn loaded_tree(info: &DatasetInfo) -> TreeNavigator {
    let mut tree = TreeNavigator::new(info.groups.clone(), info.variables.clone());
    tree.toggle_expand();
    tree
}

#[test]
fn loading_a_variable_reads_its_path() {
    let info = stub_info();
    let mut tree = loaded_tree(&info);
    tree.selected = 1;
    match plan_load(&tree, &info.var_meta) {
        LoadPlan::Read { var_name, var_path, meta } => {
            assert_eq!(var_name, "temperature");
            assert_eq!(var_path, "///temperature");
            assert_eq!(meta.dim_sizes, vec![4, 6]);
        }
        _ => panic!("expected a read"),
    }
}

#[test]
fn loading_past_the_rows_does_nothing() {
    let info = stub_info();
    let mut tree = loaded_tree(&info);
    tree.selected = 9;
    assert!(matches!(plan_load(&tree, &info.var_meta), LoadPlan::Nothing));
}

#[test]
fn loading_without_metadata_reports_it() {
    let mut info = stub_info();
    info.var_meta.clear();
    let mut tree = loaded_tree(&info);
    tree.selected = 2;
    match plan_load(&tree, &info.var_meta) {
        LoadPlan::MissingMeta { status } => assert_eq!(status, "No metadata for lat"),
        _ => panic!("expected missing metadata"),
    }
}

#[test]
fn loading_a_3d_variable_opens_the_picker() {
    let mut info = stub_info();
    info.groups.insert("/".to_string(), vec!["cube".to_string()]);
    info.variables.insert("cube".to_string(), vec!["t".into(), "y".into(), "x".into()]);
    info.var_meta.insert("cube".to_string(), meta("cube", &["t", "y", "x"], &[2, 3, 4]));
    let mut tree = loaded_tree(&info);
    tree.selected = 1;
    match plan_load(&tree, &info.var_meta) {
        LoadPlan::PickSlice { picker, status } => {
            assert_eq!(status, "cube: pick a 2D slice");
            assert!(picker.visible);
            assert_eq!(picker.selected, 0);
            assert_eq!(picker.spec.var_name, "cube");
            assert_eq!(picker.spec.dims[0].role, DimRole::Fixed(0));
            assert_eq!(picker.spec.dims[1].role, DimRole::AxisY);
            assert_eq!(picker.spec.dims[2].role, DimRole::AxisX);
        }
        _ => panic!("expected the slice picker"),
    }
    let (picker, status) = plan_open_slicer(&tree, &info.var_meta).unwrap();
    assert_eq!(status, "cube: pick a 2D slice");
    assert_eq!(picker.spec.dims.len(), 3);
}

#[test]
fn slicer_needs_more_than_two_dims() {
    let info = stub_info();
    let mut tree = loaded_tree(&info);
    tree.selected = 1;
    assert!(plan_open_slicer(&tree, &info.var_meta).is_none());
    tree.selected = 0;
    assert!(plan_open_slicer(&tree, &info.var_meta).is_none());
}

// ---------------------------------------------------------------------------
// Status messages
// ---------------------------------------------------------------------------

#[test]
fn loaded_status_messages() {
    assert_eq!(loaded_status("t", &meta("t", &[], &[])), "t: scalar value");
    assert_eq!(loaded_status("lat", &meta("lat", &["lat"], &[180])), "lat [lat=180]");
    assert_eq!(
        loaded_status("sst", &meta("sst", &["lat", "lon"], &[4, 6])),
        "sst [lat=4, lon=6]"
    );
}

#[test]
fn slice_status_messages() {
    let mut spec = SliceSpec::default_for(
        "temp",
        &["time".into(), "level".into(), "lat".into(), "lon".into()],
        &[12, 10, 180, 360],
    );
    spec.increment_fixed(1);
    assert_eq!(
        slice_status("temp", &"lat".to_string(), 180, &"lon".to_string(), 360, &spec),
        "temp [lat=180, lon=360] (time=0, level=1)"
    );
    let flat = SliceSpec::default_for("sst", &["lat".into(), "lon".into()], &[4, 6]);
    assert_eq!(
        slice_status("sst", &"lat".to_string(), 4, &"lon".to_string(), 6, &flat),
        "sst [lat=4, lon=6]"
    );
}

#[test]
fn escape_never_quits() {
    for modal in [Modal::Closed, Modal::Help, Modal::Histogram, Modal::Table, Modal::SlicePicker] {
        for focus in [Focus::Tree, Focus::Search] {
            for ctrl in [false, true] {
                let press = KeyPress { key: Key::Esc, ctrl };
                assert_ne!(command_for(ctx(modal, focus), press), Command::Quit);
            }
        }
    }
}

#[test]
fn overlays_keep_the_tree_still() {
    for modal in [Modal::Help, Modal::Histogram, Modal::Table, Modal::SlicePicker] {
        for k in [Key::Char('q'), Key::Char('j'), Key::Down, Key::Enter, Key::Char(' ')] {
            let c = command_for(ctx(modal, Focus::Tree), key(k));
            assert!(!matches!(
                c,
                Command::Quit | Command::TreeDown | Command::TreeUp | Command::LoadSelected
            ));
        }
    }
}
