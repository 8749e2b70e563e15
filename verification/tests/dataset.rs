use indexmap::IndexMap;
use nctui::tree::{RowKind, TreeNavigator};
use nctui::dataset::{
    build_info, catalog_of, coord_var_paths, group_name_of, is_coordinate_variable,
    path_in_group_exec, split_var_path, var_path_of, DatasetInfo, GroupListing, VarMeta,
};

fn meta(name: &str, dims: &[&str], sizes: &[usize]) -> VarMeta {
    VarMeta {
        name: name.to_string(),
        dim_names: dims.iter().map(|d| d.to_string()).collect(),
        dim_sizes: sizes.to_vec(),
    }
}

fn strings(v: &[&str]) -> Vec<String> {
    v.iter().map(|s| s.to_string()).collect()
}

fn listed_info() -> DatasetInfo {
    let root = vec![meta("lat", &["lat"], &[4]), meta("sst", &["lat", "lon"], &[4, 6])];
    let groups = vec![
        GroupListing { name: "ocean".into(), vars: vec![meta("salinity", &["depth"], &[50])] },
        GroupListing { name: "empty".into(), vars: vec![] },
        GroupListing {
            name: "atmosphere".into(),
            vars: vec![meta("depth", &["depth"], &[50]), meta("wind", &["lat"], &[4])],
        },
    ];
    build_info(&root, &groups)
}

#[test]
fn build_info_lists_groups_in_order() {
    let info = listed_info();
    let groups: Vec<(String, Vec<String>)> =
        info.groups.iter().map(|(k, v)| (k.clone(), v.clone())).collect();
    assert_eq!(
        groups,
        vec![
            ("/".to_string(), strings(&["lat", "sst"])),
            ("ocean".to_string(), strings(&["salinity"])),
            ("atmosphere".to_string(), strings(&["depth", "wind"])),
        ]
    );
}

#[test]
fn build_info_records_every_variable() {
    let info = listed_info();
    let names: Vec<&String> = info.variables.keys().collect();
    assert_eq!(names, vec!["lat", "sst", "salinity", "depth", "wind"]);
    assert_eq!(info.variables["sst"], strings(&["lat", "lon"]));
    assert_eq!(info.var_meta["salinity"].dim_sizes, vec![50]);
    assert_eq!(info.var_meta["wind"].name, "wind");
}

#[test]
fn build_info_detects_coordinate_variables() {
    let info = listed_info();
    let coords: Vec<(String, String)> =
        info.coord_vars.iter().map(|(k, v)| (k.clone(), v.clone())).collect();
    assert_eq!(
        coords,
        vec![("lat".to_string(), "lat".to_string()), ("depth".to_string(), "depth".to_string())]
    );
}

#[test]
fn build_info_without_root_variables() {
    let groups = vec![GroupListing { name: "g".into(), vars: vec![meta("v", &[], &[])] }];
    let info = build_info(&vec![], &groups);
    let names: Vec<&String> = info.groups.keys().collect();
    assert_eq!(names, vec!["g"]);
    assert!(info.coord_vars.is_empty());
}

#[test]
fn build_info_repeated_name_keeps_first_place() {
    let root = vec![meta("x", &["a"], &[1]), meta("y", &["b"], &[2])];
    let groups = vec![GroupListing { name: "g".into(), vars: vec![meta("x", &["c"], &[3])] }];
    let info = build_info(&root, &groups);
    let names: Vec<&String> = info.var_meta.keys().collect();
    assert_eq!(names, vec!["x", "y"]);
    assert_eq!(info.var_meta["x"].dim_sizes, vec![3]);
}

#[test]
fn catalog_entries() {
    let info = listed_info();
    let cat = catalog_of(&info);
    assert_eq!(cat.len(), 5);
    assert_eq!(cat[0].name, "lat");
    assert_eq!(cat[0].group, "/");
    assert!(cat[0].is_coord);
    assert_eq!(cat[2].group, "ocean");
    assert_eq!(cat[4].group, "atmosphere");
    assert_eq!(cat[4].dim_names, strings(&["lat"]));
    assert!(!cat[4].is_coord);
}

#[test]
fn group_and_path_of_variables() {
    let info = listed_info();
    assert_eq!(group_name_of(&info.groups, &"salinity".to_string()), "ocean");
    assert_eq!(group_name_of(&info.groups, &"nowhere".to_string()), "/");
    assert_eq!(var_path_of(&info.groups, &"sst".to_string()), "/sst");
    assert_eq!(var_path_of(&info.groups, &"wind".to_string()), "/atmosphere/wind");
    assert_eq!(var_path_of(&info.groups, &"nowhere".to_string()), "/nowhere");
    assert_eq!(path_in_group_exec(&"/".to_string(), &"v".to_string()), "/v");
    assert_eq!(path_in_group_exec(&"g".to_string(), &"v".to_string()), "/g/v");
}

#[test]
fn coordinate_paths() {
    let info = listed_info();
    assert_eq!(coord_var_paths(&info, &"lat".to_string()), vec!["/lat".to_string()]);
    assert_eq!(
        coord_var_paths(&info, &"depth".to_string()),
        vec!["/atmosphere/depth".to_string()]
    );
    assert!(coord_var_paths(&info, &"lon".to_string()).is_empty());
}

#[test]
fn coordinate_paths_need_metadata() {
    let mut coord_vars = IndexMap::new();
    coord_vars.insert("t".to_string(), "t".to_string());
    let mut groups = IndexMap::new();
    groups.insert("/".to_string(), strings(&["t"]));
    let info = DatasetInfo {
        groups,
        variables: IndexMap::new(),
        var_meta: IndexMap::new(),
        coord_vars,
    };
    assert!(coord_var_paths(&info, &"t".to_string()).is_empty());
}

#[test]
fn coordinate_variable_rule() {
    assert!(is_coordinate_variable(&"lat".to_string(), &strings(&["lat"])));
    assert!(!is_coordinate_variable(&"lat".to_string(), &strings(&["lon"])));
    assert!(!is_coordinate_variable(&"lat".to_string(), &strings(&["lat", "lon"])));
    assert!(!is_coordinate_variable(&"lat".to_string(), &strings(&[])));
}

#[test]
fn splitting_variable_paths() {
    let vp = split_var_path("/ocean/salinity");
    assert_eq!(vp.group.as_deref(), Some("ocean"));
    assert_eq!(vp.var, "salinity");
    let vp = split_var_path("/temperature");
    assert_eq!(vp.group, None);
    assert_eq!(vp.var, "temperature");
    let vp = split_var_path("///temperature");
    assert_eq!(vp.group, None);
    assert_eq!(vp.var, "temperature");
    let vp = split_var_path("a/b/c");
    assert_eq!(vp.group.as_deref(), Some("a"));
    assert_eq!(vp.var, "b/c");
}

#[test]
fn catalog_and_tree_agree_on_coordinates() {
    let info = listed_info();
    let cat = catalog_of(&info);
    let mut tree = TreeNavigator::new(info.groups.clone(), info.variables.clone());
    // Expand every group, from the last row up so the selection stays on headers.
    let mut i = tree.rows.len();
    while i > 0 {
        i -= 1;
        tree.selected = i;
        tree.toggle_expand();
    }
    let mut checked = 0;
    for row in &tree.rows {
        if let RowKind::Variable { is_coord } = row.kind {
            let entry = cat.iter().find(|v| v.name == row.label).unwrap();
            assert_eq!(entry.is_coord, is_coord, "{}", row.label);
            checked += 1;
        }
    }
    assert_eq!(checked, 5);
}
