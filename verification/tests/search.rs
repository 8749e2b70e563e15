use nctui::search::{fuzzy_match, fuzzy_score, score_lowered, DimFilter, SearchState, VarInfo};

fn sample_catalog() -> Vec<VarInfo> {
    vec![
        VarInfo {
            name: "temperature".into(),
            group: "atmosphere".into(),
            dim_names: vec!["lat".into(), "lon".into(), "time".into()],
            dim_sizes: vec![180, 360, 12],
            is_coord: false,
        },
        VarInfo {
            name: "pressure".into(),
            group: "atmosphere".into(),
            dim_names: vec!["lat".into(), "lon".into()],
            dim_sizes: vec![180, 360],
            is_coord: false,
        },
        VarInfo {
            name: "lat".into(),
            group: "atmosphere".into(),
            dim_names: vec!["lat".into()],
            dim_sizes: vec![180],
            is_coord: true,
        },
        VarInfo {
            name: "salinity".into(),
            group: "ocean".into(),
            dim_names: vec!["depth".into()],
            dim_sizes: vec![50],
            is_coord: false,
        },
    ]
}

fn names(ss: &SearchState) -> Vec<String> {
    ss.matches().iter().map(|v| v.name.clone()).collect()
}

#[test]
fn test_empty_query_matches_all() {
    let mut ss = SearchState::new();
    ss.set_catalog(sample_catalog());
    assert_eq!(ss.matching_indices().len(), 4);
}

#[test]
fn test_substring_filter() {
    let mut ss = SearchState::new();
    ss.set_catalog(sample_catalog());
    ss.push_char('t');
    ss.push_char('e');
    ss.push_char('m');
    ss.push_char('p');
    assert!(ss.matches().iter().any(|v| v.name == "temperature"));
}

#[test]
fn test_fuzzy_filter() {
    let mut ss = SearchState::new();
    ss.set_catalog(sample_catalog());
    for ch in "tpr".chars() {
        ss.push_char(ch);
    }
    let names: Vec<&str> = ss.matches().iter().map(|v| v.name.as_str()).collect();
    assert!(names.contains(&"temperature"));
}

#[test]
fn test_dim_filter_has_dim() {
    let mut ss = SearchState::new();
    ss.set_catalog(sample_catalog());
    ss.set_dim_filter(Some(DimFilter::HasDim("depth".into())));
    assert_eq!(ss.matches().len(), 1);
    assert_eq!(ss.matches()[0].name, "salinity");
}

#[test]
fn test_dim_filter_ndim() {
    let mut ss = SearchState::new();
    ss.set_catalog(sample_catalog());
    ss.set_dim_filter(Some(DimFilter::NDim(2)));
    let names: Vec<&str> = ss.matches().iter().map(|v| v.name.as_str()).collect();
    assert_eq!(names, vec!["pressure"]);
}

#[test]
fn test_combined_text_and_dim_filter() {
    let mut ss = SearchState::new();
    ss.set_catalog(sample_catalog());
    for ch in "lat".chars() {
        ss.push_char(ch);
    }
    ss.set_dim_filter(Some(DimFilter::NDim(1)));
    let names: Vec<&str> = ss.matches().iter().map(|v| v.name.as_str()).collect();
    assert_eq!(names, vec!["lat"]);
}

#[test]
fn test_clear_resets_everything() {
    let mut ss = SearchState::new();
    ss.set_catalog(sample_catalog());
    ss.push_char('x');
    ss.set_dim_filter(Some(DimFilter::NDim(5)));
    assert_eq!(ss.matches().len(), 0);
    ss.clear();
    assert_eq!(ss.matches().len(), 4);
    assert!(!ss.has_filter());
}

#[test]
fn test_pop_char() {
    let mut ss = SearchState::new();
    ss.set_catalog(sample_catalog());
    ss.push_char('z');
    ss.push_char('z');
    assert_eq!(ss.matches().len(), 0);
    ss.pop_char();
    ss.pop_char();
    assert_eq!(ss.matches().len(), 4);
}

#[test]
fn test_group_search() {
    let mut ss = SearchState::new();
    ss.set_catalog(sample_catalog());
    for ch in "ocean".chars() {
        ss.push_char(ch);
    }
    let names: Vec<&str> = ss.matches().iter().map(|v| v.name.as_str()).collect();
    assert_eq!(names, vec!["salinity"]);
}

#[test]
fn test_dim_name_search() {
    let mut ss = SearchState::new();
    ss.set_catalog(sample_catalog());
    for ch in "depth".chars() {
        ss.push_char(ch);
    }
    let names: Vec<&str> = ss.matches().iter().map(|v| v.name.as_str()).collect();
    assert!(names.contains(&"salinity"));
}

#[test]
fn test_fuzzy_match_fn() {
    assert!(fuzzy_match("temperature", "temp"));
    assert!(fuzzy_match("temperature", "tpr"));
    assert!(fuzzy_match("temperature", "tmprtr"));
    assert!(!fuzzy_match("temperature", "xyz"));
    assert!(fuzzy_match("anything", ""));
}

#[test]
fn test_fuzzy_score() {
    assert_eq!(fuzzy_score("temp", "temp"), 1000);
    assert!(fuzzy_score("temperature", "temp") > fuzzy_score("temperature", "tpr"));
    assert_eq!(fuzzy_score("abc", "xyz"), 0);
}

#[test]
fn test_var_info_helpers() {
    let v = VarInfo {
        name: "temp".into(),
        group: "/".into(),
        dim_names: vec!["lat".into(), "lon".into()],
        dim_sizes: vec![180, 360],
        is_coord: false,
    };
    assert_eq!(v.ndim(), 2);
    assert_eq!(v.total_elements(), 64800);
}

// ---------------------------------------------------------------------------
// Further cases
// ---------------------------------------------------------------------------

#[test]
fn search_is_case_insensitive() {
    let mut ss = SearchState::new();
    ss.set_catalog(sample_catalog());
    for ch in "TEMP".chars() {
        ss.push_char(ch);
    }
    assert_eq!(names(&ss), vec!["temperature"]);
}

#[test]
fn search_keeps_catalog_order() {
    let mut ss = SearchState::new();
    ss.set_catalog(sample_catalog());
    for ch in "lat".chars() {
        ss.push_char(ch);
    }
    // Names fuzzy-matching or dims containing "lat", in catalog order.
    assert_eq!(names(&ss), vec!["temperature", "pressure", "lat"]);
    assert_eq!(ss.matching_indices(), &[0usize, 1, 2][..]);
}

#[test]
fn adding_a_filter_narrows_results() {
    let mut ss = SearchState::new();
    ss.set_catalog(sample_catalog());
    let before = ss.matches().len();
    ss.set_dim_filter(Some(DimFilter::HasDim("lat".into())));
    let after = ss.matches().len();
    assert!(after <= before);
    assert_eq!(names(&ss), vec!["temperature", "pressure", "lat"]);
}

#[test]
fn has_filter_reflects_query_and_dim_filter() {
    let mut ss = SearchState::new();
    assert!(!ss.has_filter());
    ss.push_char('a');
    assert!(ss.has_filter());
    ss.pop_char();
    assert!(!ss.has_filter());
    ss.set_dim_filter(Some(DimFilter::NDim(1)));
    assert!(ss.has_filter());
}

#[test]
fn pop_char_on_empty_query_is_harmless() {
    let mut ss = SearchState::new();
    ss.set_catalog(sample_catalog());
    ss.pop_char();
    assert_eq!(ss.query, "");
    assert_eq!(ss.matches().len(), 4);
}

#[test]
fn catalog_is_kept_as_given() {
    let mut ss = SearchState::new();
    ss.set_catalog(sample_catalog());
    let cat = ss.catalog();
    assert_eq!(cat.len(), 4);
    assert_eq!(cat[3].name, "salinity");
}

#[test]
fn fuzzy_score_values() {
    // Exact match, prefix, substring, subsequence, none.
    assert_eq!(fuzzy_score("Temp", "tEMP"), 1000);
    assert_eq!(fuzzy_score("temperature", "temp"), 500);
    assert_eq!(fuzzy_score("air_temp", "temp"), 200);
    assert_eq!(fuzzy_score("temperature", "tpr"), 50);
    assert_eq!(fuzzy_score("temperature", "xyz"), 0);
}

#[test]
fn fuzzy_match_needs_order() {
    assert!(!fuzzy_match("temperature", "rpt"));
    // Matching is case-sensitive; the search lowers both sides first.
    assert!(!fuzzy_match("Temperature", "TEMP"));
    assert!(!fuzzy_match("", "a"));
}

#[test]
fn total_elements_of_scalar_and_empty() {
    let scalar = VarInfo {
        name: "s".into(),
        group: "/".into(),
        dim_names: vec![],
        dim_sizes: vec![],
        is_coord: false,
    };
    assert_eq!(scalar.total_elements(), 1);
    assert_eq!(scalar.ndim(), 0);
    let empty = VarInfo {
        name: "e".into(),
        group: "/".into(),
        dim_names: vec!["t".into()],
        dim_sizes: vec![0],
        is_coord: false,
    };
    assert_eq!(empty.total_elements(), 0);
}

#[test]
fn lowered_scores() {
    assert_eq!(score_lowered("temp", "temp"), 1000);
    assert_eq!(score_lowered("temperature", "temp"), 500);
    assert_eq!(score_lowered("air_temp", "temp"), 200);
    assert_eq!(score_lowered("temperature", "tpr"), 50);
    assert_eq!(score_lowered("temperature", "xyz"), 0);
    // No lower-casing here: case must already agree.
    assert_eq!(score_lowered("temp", "TEMP"), 0);
}

#[test]
fn typing_more_never_adds_matches() {
    let mut ss = SearchState::new();
    ss.set_catalog(sample_catalog());
    let mut before: Vec<usize> = ss.matching_indices().to_vec();
    for ch in "lat".chars() {
        ss.push_char(ch);
        let after = ss.matching_indices().to_vec();
        assert!(after.iter().all(|i| before.contains(i)));
        before = after;
    }
    assert_eq!(ss.query_text(), "lat");
    assert!(!ss.bar_active());
    assert!(ss.current_filter().is_none());
}
