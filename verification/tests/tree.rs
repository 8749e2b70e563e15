use indexmap::IndexMap;
use nctui::tree::{RowKind, TreeNavigator};

fn stub_tree() -> TreeNavigator {
    let mut groups = IndexMap::new();
    groups.insert(
        "atmosphere".to_string(),
        vec![
            "temperature".to_string(),
            "pressure".to_string(),
            "lat".to_string(),
        ],
    );
    groups.insert("ocean".to_string(), vec!["salinity".to_string()]);

    let mut vars = IndexMap::new();
    vars.insert(
        "temperature".to_string(),
        vec!["lat".to_string(), "lon".to_string(), "time".to_string()],
    );
    vars.insert("pressure".to_string(), vec!["lat".to_string(), "lon".to_string()]);
    vars.insert("lat".to_string(), vec!["lat".to_string()]);
    vars.insert("salinity".to_string(), vec!["depth".to_string()]);

    TreeNavigator::new(groups, vars)
}

#[test]
fn test_initial_rows_all_collapsed() {
    let tree = stub_tree();
    assert_eq!(tree.rows.len(), 2);
    assert!(matches!(tree.rows[0].kind, RowKind::Group { expanded: false }));
    assert!(matches!(tree.rows[1].kind, RowKind::Group { expanded: false }));
}

#[test]
fn test_expand_group_rebuilds_rows() {
    let mut tree = stub_tree();
    tree.toggle_expand();
    assert_eq!(tree.rows.len(), 5);
    assert!(matches!(tree.rows[0].kind, RowKind::Group { expanded: true }));
    assert!(matches!(tree.rows[1].kind, RowKind::Variable { is_coord: false }));
}

#[test]
fn test_collapse_restores_row_count() {
    let mut tree = stub_tree();
    tree.toggle_expand();
    assert_eq!(tree.rows.len(), 5);
    tree.selected = 0;
    tree.toggle_expand();
    assert_eq!(tree.rows.len(), 2);
}

#[test]
fn test_coord_detection() {
    let mut tree = stub_tree();
    tree.toggle_expand();
    let lat_row = tree.rows.iter().find(|r| r.label == "lat").unwrap();
    assert!(matches!(lat_row.kind, RowKind::Variable { is_coord: true }));
}

#[test]
fn test_selection_clamp_on_collapse() {
    let mut tree = stub_tree();
    tree.toggle_expand();
    tree.selected = 4;
    tree.selected = 0;
    tree.toggle_expand();
    assert!(tree.selected < tree.rows.len());
}

#[test]
fn test_move_down_up() {
    let mut tree = stub_tree();
    assert_eq!(tree.selected, 0);
    tree.move_down();
    assert_eq!(tree.selected, 1);
    tree.move_down();
    assert_eq!(tree.selected, 1);
    tree.move_up();
    assert_eq!(tree.selected, 0);
    tree.move_up();
    assert_eq!(tree.selected, 0);
}

#[test]
fn test_jump_top_bottom() {
    let mut tree = stub_tree();
    tree.toggle_expand();
    tree.jump_bottom();
    assert_eq!(tree.selected, tree.rows.len() - 1);
    tree.jump_top();
    assert_eq!(tree.selected, 0);
}

// ---------------------------------------------------------------------------
// Further cases
// ---------------------------------------------------------------------------

#[test]
fn rows_carry_paths_and_indent() {
    let mut tree = stub_tree();
    tree.toggle_expand();
    let got: Vec<(String, String, usize)> = tree
        .rows
        .iter()
        .map(|r| (r.label.clone(), r.path.clone(), r.indent))
        .collect();
    assert_eq!(
        got,
        vec![
            ("atmosphere".to_string(), "/atmosphere".to_string(), 0),
            ("temperature".to_string(), "/atmosphere/temperature".to_string(), 1),
            ("pressure".to_string(), "/atmosphere/pressure".to_string(), 1),
            ("lat".to_string(), "/atmosphere/lat".to_string(), 1),
            ("ocean".to_string(), "/ocean".to_string(), 0),
        ]
    );
    assert_eq!(tree.expanded, vec!["/atmosphere".to_string()]);
}

#[test]
fn toggling_twice_restores_the_rows() {
    let mut tree = stub_tree();
    tree.selected = 1;
    let before: Vec<String> = tree.rows.iter().map(|r| r.path.clone()).collect();
    tree.toggle_expand();
    assert_eq!(tree.rows.len(), 3);
    tree.toggle_expand();
    let after: Vec<String> = tree.rows.iter().map(|r| r.path.clone()).collect();
    assert_eq!(before, after);
    assert!(tree.expanded.is_empty());
}

#[test]
fn toggle_on_a_variable_row_changes_nothing() {
    let mut tree = stub_tree();
    tree.toggle_expand();
    tree.selected = 2;
    tree.toggle_expand();
    assert_eq!(tree.rows.len(), 5);
    assert_eq!(tree.selected, 2);
}

#[test]
fn children_without_metadata_are_not_shown() {
    let mut groups = IndexMap::new();
    groups.insert("g".to_string(), vec!["known".to_string(), "unknown".to_string()]);
    let mut vars = IndexMap::new();
    vars.insert("known".to_string(), vec!["x".to_string()]);
    let mut tree = TreeNavigator::new(groups, vars);
    tree.toggle_expand();
    let labels: Vec<&str> = tree.rows.iter().map(|r| r.label.as_str()).collect();
    assert_eq!(labels, vec!["g", "known"]);
}

#[test]
fn selected_row_follows_selection() {
    let mut tree = stub_tree();
    assert_eq!(tree.selected_row().unwrap().label, "atmosphere");
    tree.move_down();
    assert_eq!(tree.selected_row().unwrap().label, "ocean");
    tree.selected = 7;
    assert!(tree.selected_row().is_none());
}

#[test]
fn empty_tree_has_no_rows() {
    let mut tree = TreeNavigator::new(IndexMap::new(), IndexMap::new());
    assert!(tree.rows.is_empty());
    tree.jump_bottom();
    assert_eq!(tree.selected, 0);
    tree.move_down();
    assert_eq!(tree.selected, 0);
    tree.toggle_expand();
    assert!(tree.rows.is_empty());
}

#[test]
fn accessors_follow_the_fields() {
    let mut tree = stub_tree();
    tree.toggle_expand();
    assert_eq!(tree.visible_rows().len(), 5);
    assert_eq!(tree.selection(), 0);
    assert_eq!(tree.expanded_list(), &vec!["/atmosphere".to_string()]);
}
