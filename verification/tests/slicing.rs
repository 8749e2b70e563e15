use nctui::slice_picker::{DimRole, SliceSpec};
use nctui::slicing::{
    checked_strides, chunk_rows, extract_slice, flatten_rows, plan_slice, row_major_strides,
    slice_offset, SlicePlan, SlicePlanning,
};

fn planned(p: SlicePlanning) -> SlicePlan {
    match p {
        SlicePlanning::Planned(plan) => plan,
        other => panic!("expected a plan, got {:?}", other),
    }
}

fn strings(v: &[&str]) -> Vec<String> {
    v.iter().map(|s| s.to_string()).collect()
}

#[test]
fn strides_are_row_major() {
    assert_eq!(row_major_strides(&[12, 180, 360]), vec![64800, 360, 1]);
    assert_eq!(row_major_strides(&[5]), vec![1]);
    assert_eq!(row_major_strides(&[2, 0, 3]), vec![0, 3, 1]);
}

#[test]
fn plan_for_default_3d_spec() {
    let mut spec = SliceSpec::default_for("v", &strings(&["t", "y", "x"]), &[2, 3, 4]);
    spec.increment_fixed(0);
    let plan = planned(plan_slice(&spec, &[2, 3, 4]));
    assert_eq!((plan.y_idx, plan.x_idx), (1, 2));
    assert_eq!((plan.y_size, plan.x_size), (3, 4));
    assert_eq!(plan.strides, vec![12, 4, 1]);
    assert_eq!(plan.base_offset, 12);
    assert_eq!(slice_offset(&plan, 2, 3), 12 + 8 + 3);
}

#[test]
fn no_plan_without_two_axes() {
    let mut spec = SliceSpec::default_for("v", &strings(&["t", "y", "x"]), &[2, 3, 4]);
    spec.set_line_mode();
    assert!(matches!(plan_slice(&spec, &[2, 3, 4]), SlicePlanning::NoAxes));
}

#[test]
fn extract_a_slice_of_a_cube() {
    // Values 0..24 laid out as [t=2][y=3][x=4].
    let data: Vec<u32> = (0..24).collect();
    let mut spec = SliceSpec::default_for("v", &strings(&["t", "y", "x"]), &[2, 3, 4]);
    spec.increment_fixed(0);
    let plan = planned(plan_slice(&spec, &[2, 3, 4]));
    let rows = extract_slice(&data, &plan, 999);
    assert_eq!(
        rows,
        vec![vec![12, 13, 14, 15], vec![16, 17, 18, 19], vec![20, 21, 22, 23]]
    );
    assert_eq!(flatten_rows(&rows), (12..24).collect::<Vec<u32>>());
}

#[test]
fn extract_with_swapped_axes() {
    // X on the first dimension, Y on the last: a transposed view.
    let data: Vec<u32> = (0..6).collect(); // shape [2][3]
    let mut spec = SliceSpec::default_for("v", &strings(&["a", "b"]), &[2, 3]);
    spec.assign_axis(0, DimRole::AxisX);
    spec.assign_axis(1, DimRole::AxisY);
    let plan = planned(plan_slice(&spec, &[2, 3]));
    let rows = extract_slice(&data, &plan, 999);
    assert_eq!(rows, vec![vec![0, 3], vec![1, 4], vec![2, 5]]);
}

#[test]
fn extract_fills_past_the_data() {
    let data: Vec<u32> = vec![7, 8];
    let spec = SliceSpec::default_for("v", &strings(&["y", "x"]), &[2, 2]);
    let plan = planned(plan_slice(&spec, &[2, 2]));
    let rows = extract_slice(&data, &plan, 0);
    assert_eq!(rows, vec![vec![7, 8], vec![0, 0]]);
}

#[test]
fn chunking_rows() {
    let data: Vec<u8> = (1..=7).collect();
    assert_eq!(chunk_rows(&data, 3), vec![vec![1, 2, 3], vec![4, 5, 6], vec![7]]);
    assert_eq!(chunk_rows(&data, 7), vec![data.clone()]);
    assert!(chunk_rows::<u8>(&[], 4).is_empty());
}

#[test]
fn flatten_then_chunk_round_trip() {
    let rows = vec![vec![1, 2], vec![3, 4], vec![5, 6]];
    let flat = flatten_rows(&rows);
    assert_eq!(flat, vec![1, 2, 3, 4, 5, 6]);
    assert_eq!(chunk_rows(&flat, 2), rows);
}

#[test]
fn oversized_shapes_are_refused() {
    // The stride of the first dimension would be usize::MAX * 2.
    let spec = SliceSpec::default_for("v", &strings(&["t", "y", "x"]), &[0, usize::MAX, 2]);
    assert!(matches!(plan_slice(&spec, &[0, usize::MAX, 2]), SlicePlanning::TooLarge));
    assert!(checked_strides(&[0, usize::MAX, 2]).is_none());
    assert_eq!(checked_strides(&[4, 5]), Some(vec![5, 1]));
    // A fixed index whose offset overflows.
    let mut spec = SliceSpec::default_for("v", &strings(&["t", "y", "x"]), &[usize::MAX, 2, 2]);
    spec.decrement_fixed(0);
    assert!(matches!(plan_slice(&spec, &[usize::MAX, 2, 2]), SlicePlanning::TooLarge));
}

#[test]
fn every_cell_of_a_slice_is_inside_the_data() {
    let sizes = [3usize, 4, 5];
    let mut spec = SliceSpec::default_for("v", &strings(&["t", "y", "x"]), &sizes);
    for _ in 0..3 {
        let plan = planned(plan_slice(&spec, &sizes));
        for r in 0..plan.y_size {
            for c in 0..plan.x_size {
                assert!(slice_offset(&plan, r, c) < 60);
            }
        }
        spec.increment_fixed(0);
    }
}
