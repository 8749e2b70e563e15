//! Row-major indexing of a flat n-dimensional array: strides, the offset of
//! a 2D slice's cells, and extraction of the slice (or of the rows of a 2D
//! array) from the flat data.
use vstd::prelude::*;

use crate::slice_picker::{has_role, is_first_role, DimRole, DimState, SliceSpec};

verus! {

/// Product of `sizes[i..]` (1 when `i` is at or past the end).
pub open spec fn suffix_product(sizes: Seq<usize>, i: int) -> int
    decreases sizes.len() - i,
{
    if i >= sizes.len() || i < 0 {
        1
    } else {
        sizes[i] * suffix_product(sizes, i + 1)
    }
}

/// Every stride of `sizes` fits in a `usize`.
pub open spec fn strides_fit(sizes: Seq<usize>) -> bool {
    forall|i: int| 1 <= i <= sizes.len() ==> #[trigger] suffix_product(sizes, i) <= usize::MAX
}

/// The row-major stride of dimension `i`: the product of the sizes after it.
pub open spec fn stride(sizes: Seq<usize>, i: int) -> int {
    suffix_product(sizes, i + 1)
}

/// Sum of `index * stride` over the fixed dimensions among the first `k`.
pub open spec fn fixed_offset(dims: Seq<DimState>, sizes: Seq<usize>, k: int) -> int
    decreases k,
{
    if k <= 0 {
        0
    } else {
        fixed_offset(dims, sizes, k - 1) + match dims[k - 1].role {
            DimRole::Fixed(idx) => idx * stride(sizes, k - 1),
            _ => 0,
        }
    }
}

/// The running sums of the fixed offset fit in a `usize`.
pub open spec fn fixed_offset_fits(dims: Seq<DimState>, sizes: Seq<usize>) -> bool {
    forall|k: int| 0 <= k <= dims.len() ==> #[trigger] fixed_offset(dims, sizes, k) <= usize::MAX
}

/// What is needed to read a slice out of the flat data: the row (Y) and
/// column (X) dimensions, their sizes, the strides, and the offset of the
/// fixed dimensions.
#[derive(Debug, Clone)]
pub struct SlicePlan {
    pub y_idx: usize,
    pub x_idx: usize,
    pub y_size: usize,
    pub x_size: usize,
    pub strides: Vec<usize>,
    pub base_offset: usize,
}

/// Offset of slice cell `(r, c)` in the flat data.
pub open spec fn cell_offset(plan: SlicePlan, r: int, c: int) -> int {
    plan.base_offset + r * plan.strides@[plan.y_idx as int] + c * plan.strides@[plan.x_idx as int]
}

/// Every offset of the slice fits in a `usize`.
pub open spec fn offsets_fit(plan: SlicePlan) -> bool {
    forall|r: int, c: int|
        0 <= r < plan.y_size && 0 <= c < plan.x_size ==> #[trigger] cell_offset(plan, r, c)
            <= usize::MAX
}

/// The plan for slicing `spec` out of data shaped `sizes`.
pub open spec fn plan_matches(plan: SlicePlan, spec_dims: Seq<DimState>, sizes: Seq<usize>) -> bool {
    &&& is_first_role(spec_dims, DimRole::AxisY, plan.y_idx as int)
    &&& is_first_role(spec_dims, DimRole::AxisX, plan.x_idx as int)
    &&& plan.y_size == sizes[plan.y_idx as int]
    &&& plan.x_size == sizes[plan.x_idx as int]
    &&& plan.strides@.len() == sizes.len()
    &&& forall|i: int| 0 <= i < sizes.len() ==> #[trigger] plan.strides@[i] == stride(sizes, i)
    &&& plan.base_offset == fixed_offset(spec_dims, sizes, spec_dims.len() as int)
}

/// Row-major strides of an array shaped `sizes`: the last is 1, each earlier
/// one is the next stride times the next size.
pub fn row_major_strides(sizes: &[usize]) -> (strides: Vec<usize>)
    requires
        sizes@.len() >= 1,
        strides_fit(sizes@),
    ensures
        strides@.len() == sizes@.len(),
        forall|i: int| 0 <= i < sizes@.len() ==> #[trigger] strides@[i] == stride(sizes@, i),
{
    let n = sizes.len();
    let mut strides: Vec<usize> = Vec::new();
    let mut k: usize = 0;
    while k < n
        invariant
            n == sizes@.len(),
            k <= n,
            strides@.len() == k,
            forall|i: int| 0 <= i < k ==> #[trigger] strides@[i] == 1,
        decreases n - k,
    {
        strides.push(1);
        k = k + 1;
    }
    // Fill from the back: strides[i] = strides[i + 1] * sizes[i + 1].
    let mut i: usize = n - 1;
    assert(stride(sizes@, (n - 1) as int) == 1);
    while i > 0
        invariant
            n == sizes@.len(),
            n >= 1,
            i < n,
            strides_fit(sizes@),
            strides@.len() == n,
            forall|j: int| i <= j < n ==> #[trigger] strides@[j] == stride(sizes@, j),
        decreases i,
    {
        let next = strides[i];
        let sz = sizes[i];
        assert(suffix_product(sizes@, i as int) <= usize::MAX);
        assert(stride(sizes@, i - 1) == sz * stride(sizes@, i as int));
        assert(next * sz == stride(sizes@, i - 1)) by (nonlinear_arith)
            requires
                next == stride(sizes@, i as int),
                stride(sizes@, i - 1) == sz * stride(sizes@, i as int),
        ;
        let v = next * sz;
        strides.set(i - 1, v);
        i = i - 1;
    }
    strides
}

/// Sum of `index * stride` over the fixed dimensions.
pub fn fixed_base_offset(dims: &[DimState], strides: &[usize], sizes: Ghost<Seq<usize>>) -> (off: usize)
    requires
        dims@.len() <= strides@.len(),
        forall|i: int| 0 <= i < strides@.len() ==> #[trigger] strides@[i] == stride(sizes@, i),
        fixed_offset_fits(dims@, sizes@),
    ensures
        off == fixed_offset(dims@, sizes@, dims@.len() as int),
{
    let n = dims.len();
    let mut off: usize = 0;
    let mut i: usize = 0;
    while i < n
        invariant
            n == dims@.len(),
            n <= strides@.len(),
            i <= n,
            forall|j: int| 0 <= j < strides@.len() ==> #[trigger] strides@[j] == stride(sizes@, j),
            fixed_offset_fits(dims@, sizes@),
            off == fixed_offset(dims@, sizes@, i as int),
        decreases n - i,
    {
        match dims[i].role {
            DimRole::Fixed(idx) => {
                assert(fixed_offset(dims@, sizes@, i + 1) <= usize::MAX);
                assert(fixed_offset(dims@, sizes@, i + 1) == off + idx * strides@[i as int]);
                assert(idx * strides@[i as int] <= usize::MAX);
                off = off + idx * strides[i];
            },
            _ => {},
        }
        i = i + 1;
    }
    off
}

/// Every cell of the slice selected by `dims` (rows along the first Y
/// axis, columns along the first X axis) has an offset that fits in a
/// `usize`.
pub open spec fn cells_fit(dims: Seq<DimState>, sizes: Seq<usize>) -> bool {
    forall|y: int, x: int, r: int, c: int|
        #![trigger is_first_role(dims, DimRole::AxisY, y), is_first_role(dims, DimRole::AxisX, x), r * stride(sizes, y), c * stride(sizes, x)]
        is_first_role(dims, DimRole::AxisY, y) && is_first_role(dims, DimRole::AxisX, x) && 0 <= r
            < sizes[y] && 0 <= c < sizes[x] ==> fixed_offset(dims, sizes, dims.len() as int) + r
            * stride(sizes, y) + c * stride(sizes, x) <= usize::MAX
}

/// Every dimension holds at least one element.
pub open spec fn all_positive(sizes: Seq<usize>) -> bool {
    forall|i: int| 0 <= i < sizes.len() ==> #[trigger] sizes[i] > 0
}

/// Every fixed index lies inside its dimension.
pub open spec fn fixed_in_range(dims: Seq<DimState>, sizes: Seq<usize>) -> bool {
    forall|i: int|
        0 <= i < dims.len() ==> match (#[trigger] dims[i]).role {
            DimRole::Fixed(k) => k < sizes[i],
            _ => true,
        }
}

/// The index along dimension `i` of cell `(r, c)` of the slice whose rows
/// run along `y` and columns along `x`: `r` on `y`, `c` on `x`, the fixed
/// index on a fixed dimension, 0 anywhere else.
pub open spec fn slice_coord(dims: Seq<DimState>, y: int, x: int, r: int, c: int, i: int) -> int {
    if i == y {
        r
    } else if i == x {
        c
    } else if 0 <= i < dims.len() {
        match dims[i].role {
            DimRole::Fixed(k) => k as int,
            _ => 0,
        }
    } else {
        0
    }
}

/// Sum of index times stride over the first `k` dimensions.
pub open spec fn weighted_offset(
    dims: Seq<DimState>,
    sizes: Seq<usize>,
    y: int,
    x: int,
    r: int,
    c: int,
    k: int,
) -> int
    decreases k,
{
    if k <= 0 {
        0
    } else {
        weighted_offset(dims, sizes, y, x, r, c, k - 1) + slice_coord(dims, y, x, r, c, k - 1)
            * stride(sizes, k - 1)
    }
}

/// Suffix products shrink (weakly) along non-empty dimensions.
proof fn lemma_suffix_product_monotone(sizes: Seq<usize>, i: int, j: int)
    requires
        all_positive(sizes),
        0 <= i <= j,
    ensures
        suffix_product(sizes, j) <= suffix_product(sizes, i),
    decreases j - i,
{
    if i < j {
        lemma_suffix_product_monotone(sizes, i + 1, j);
        lemma_suffix_product_nonneg(sizes, i + 1);
        if i < sizes.len() {
            assert(sizes[i] > 0);
            assert(sizes[i] * suffix_product(sizes, i + 1) >= suffix_product(sizes, i + 1))
                by (nonlinear_arith)
                requires
                    sizes[i] >= 1,
                    suffix_product(sizes, i + 1) >= 0,
            ;
        }
    }
}

/// With every index inside its dimension, the weighted offset of the first
/// `k` dimensions plus the number of elements from `k` on is at most the
/// number of elements.
proof fn lemma_weighted_bound(
    dims: Seq<DimState>,
    sizes: Seq<usize>,
    y: int,
    x: int,
    r: int,
    c: int,
    k: int,
)
    requires
        0 <= k <= sizes.len(),
        forall|i: int|
            0 <= i < sizes.len() ==> 0 <= #[trigger] slice_coord(dims, y, x, r, c, i) < sizes[i],
    ensures
        weighted_offset(dims, sizes, y, x, r, c, k) + suffix_product(sizes, k) <= suffix_product(
            sizes,
            0,
        ),
    decreases k,
{
    if k > 0 {
        lemma_weighted_bound(dims, sizes, y, x, r, c, k - 1);
        let i = k - 1;
        let v = slice_coord(dims, y, x, r, c, i);
        let rest = suffix_product(sizes, k);
        lemma_suffix_product_nonneg(sizes, k);
        assert(suffix_product(sizes, i) == sizes[i] * rest);
        assert(v * rest + rest <= sizes[i] * rest) by (nonlinear_arith)
            requires
                0 <= v < sizes[i],
                rest >= 0,
        ;
    }
}

/// The row term of the weighted offset of the first `k` dimensions.
pub open spec fn axis_term(axis: int, v: int, sizes: Seq<usize>, k: int) -> int {
    if 0 <= axis < k {
        v * stride(sizes, axis)
    } else {
        0
    }
}

/// The weighted offset splits into the fixed offset and the row and column
/// terms.
proof fn lemma_weighted_split(
    dims: Seq<DimState>,
    sizes: Seq<usize>,
    y: int,
    x: int,
    r: int,
    c: int,
    k: int,
)
    requires
        0 <= k <= sizes.len(),
        dims.len() <= sizes.len(),
        0 <= y < dims.len() ==> !(dims[y].role is Fixed),
        0 <= x < dims.len() ==> !(dims[x].role is Fixed),
        y != x || !(0 <= y < sizes.len()),
        0 <= y < sizes.len() ==> y < dims.len(),
        0 <= x < sizes.len() ==> x < dims.len(),
    ensures
        weighted_offset(dims, sizes, y, x, r, c, k) == fixed_offset(
            dims,
            sizes,
            if k <= dims.len() {
                k
            } else {
                dims.len() as int
            },
        ) + axis_term(y, r, sizes, k) + axis_term(x, c, sizes, k),
    decreases k,
{
    if k > 0 {
        let i = k - 1;
        lemma_weighted_split(dims, sizes, y, x, r, c, i);
        let w0 = weighted_offset(dims, sizes, y, x, r, c, i);
        let v = slice_coord(dims, y, x, r, c, i);
        assert(weighted_offset(dims, sizes, y, x, r, c, k) == w0 + v * stride(sizes, i));
        if i < dims.len() {
            let f0 = fixed_offset(dims, sizes, i);
            let term = match dims[i].role {
                DimRole::Fixed(idx) => idx * stride(sizes, i),
                _ => 0,
            };
            assert(fixed_offset(dims, sizes, k) == f0 + term);
            assert(w0 == f0 + axis_term(y, r, sizes, i) + axis_term(x, c, sizes, i));
            if i == y {
                assert(!(dims[i].role is Fixed));
                assert(term == 0);
                assert(v == r);
                assert(x != i);
                assert(axis_term(y, r, sizes, k) == axis_term(y, r, sizes, i) + r * stride(sizes, i));
                assert(axis_term(x, c, sizes, k) == axis_term(x, c, sizes, i));
            } else if i == x {
                assert(!(dims[i].role is Fixed));
                assert(term == 0);
                assert(v == c);
                assert(axis_term(y, r, sizes, k) == axis_term(y, r, sizes, i));
                assert(axis_term(x, c, sizes, k) == axis_term(x, c, sizes, i) + c * stride(sizes, i));
            } else {
                assert(axis_term(y, r, sizes, k) == axis_term(y, r, sizes, i));
                assert(axis_term(x, c, sizes, k) == axis_term(x, c, sizes, i));
                match dims[i].role {
                    DimRole::Fixed(idx) => {
                        assert(v == idx);
                        assert(v * stride(sizes, i) == term);
                    },
                    _ => {
                        assert(v == 0);
                        assert(v * stride(sizes, i) == 0);
                    },
                }
            }
        } else {
            assert(i != y && i != x);
            assert(v == 0);
            assert(v * stride(sizes, i) == 0);
            assert(axis_term(y, r, sizes, k) == axis_term(y, r, sizes, i));
            assert(axis_term(x, c, sizes, k) == axis_term(x, c, sizes, i));
        }
    }
}

/// Law: with every dimension non-empty and every fixed index inside its
/// dimension, each cell of a planned slice lies inside the data: its offset
/// is below the number of elements.
pub proof fn lemma_cells_within_data(plan: SlicePlan, dims: Seq<DimState>, sizes: Seq<usize>, r: int, c: int)
    requires
        plan_matches(plan, dims, sizes),
        dims.len() <= sizes.len(),
        all_positive(sizes),
        fixed_in_range(dims, sizes),
        0 <= r < plan.y_size,
        0 <= c < plan.x_size,
    ensures
        0 <= cell_offset(plan, r, c) < suffix_product(sizes, 0),
{
    let y = plan.y_idx as int;
    let x = plan.x_idx as int;
    let n = sizes.len() as int;
    assert forall|i: int| 0 <= i < n implies 0 <= #[trigger] slice_coord(dims, y, x, r, c, i)
        < sizes[i] by {
        assert(sizes[i] > 0);
        if i != y && i != x && i < dims.len() {
            assert(fixed_in_range(dims, sizes));
            let d = dims[i];
            assert(match d.role {
                DimRole::Fixed(k) => k < sizes[i],
                _ => true,
            });
        }
    }
    lemma_weighted_bound(dims, sizes, y, x, r, c, n);
    lemma_weighted_split(dims, sizes, y, x, r, c, n);
    lemma_suffix_product_nonneg(sizes, n);
    lemma_fixed_offset_nonneg(dims, sizes, dims.len() as int);
    lemma_suffix_product_nonneg(sizes, y + 1);
    lemma_suffix_product_nonneg(sizes, x + 1);
    assert(r * stride(sizes, y) >= 0) by (nonlinear_arith)
        requires
            r >= 0,
            stride(sizes, y) >= 0,
    ;
    assert(c * stride(sizes, x) >= 0) by (nonlinear_arith)
        requires
            c >= 0,
            stride(sizes, x) >= 0,
    ;
}

/// The fixed offset is never negative.
proof fn lemma_fixed_offset_nonneg(dims: Seq<DimState>, sizes: Seq<usize>, k: int)
    ensures
        fixed_offset(dims, sizes, k) >= 0,
    decreases k,
{
    if k > 0 {
        lemma_fixed_offset_nonneg(dims, sizes, k - 1);
        lemma_suffix_product_nonneg(sizes, k);
        match dims[k - 1].role {
            DimRole::Fixed(idx) => {
                assert(idx * stride(sizes, k - 1) >= 0) by (nonlinear_arith)
                    requires
                        idx >= 0,
                        stride(sizes, k - 1) >= 0,
                ;
            },
            _ => {},
        }
    }
}

/// Law: when the number of elements fits in a `usize` (as it does for data
/// held in memory), every dimension is non-empty and every fixed index is
/// inside its dimension, every stride, fixed offset and cell offset fits,
/// so planning never reports the slice too large.
pub proof fn lemma_planning_fits(dims: Seq<DimState>, sizes: Seq<usize>)
    requires
        dims.len() <= sizes.len(),
        all_positive(sizes),
        fixed_in_range(dims, sizes),
        suffix_product(sizes, 0) <= usize::MAX,
    ensures
        strides_fit(sizes),
        fixed_offset_fits(dims, sizes),
        cells_fit(dims, sizes),
{
    let n = sizes.len() as int;
    assert forall|i: int| 1 <= i <= n implies #[trigger] suffix_product(sizes, i) <= usize::MAX by {
        lemma_suffix_product_monotone(sizes, 0, i);
    }
    // Fixed offsets: the weighted offset with no axes.
    assert forall|i: int| 0 <= i < n implies 0 <= #[trigger] slice_coord(dims, -1, -1, 0, 0, i)
        < sizes[i] by {
        assert(sizes[i] > 0);
        if i < dims.len() {
            let d = dims[i];
            assert(match d.role {
                DimRole::Fixed(k) => k < sizes[i],
                _ => true,
            });
        }
    }
    assert forall|k: int| 0 <= k <= dims.len() implies #[trigger] fixed_offset(dims, sizes, k)
        <= usize::MAX by {
        lemma_weighted_bound(dims, sizes, -1, -1, 0, 0, k);
        lemma_weighted_split(dims, sizes, -1, -1, 0, 0, k);
        lemma_suffix_product_nonneg(sizes, k);
    }
    assert forall|y: int, x: int, r: int, c: int|
        #![trigger is_first_role(dims, DimRole::AxisY, y), is_first_role(dims, DimRole::AxisX, x), r * stride(sizes, y), c * stride(sizes, x)]
        is_first_role(dims, DimRole::AxisY, y) && is_first_role(dims, DimRole::AxisX, x) && 0 <= r
            < sizes[y] && 0 <= c < sizes[x] implies fixed_offset(dims, sizes, dims.len() as int) + r
        * stride(sizes, y) + c * stride(sizes, x) <= usize::MAX by {
        assert forall|i: int| 0 <= i < n implies 0 <= #[trigger] slice_coord(dims, y, x, r, c, i)
            < sizes[i] by {
            assert(sizes[i] > 0);
            if i != y && i != x && i < dims.len() {
                let d = dims[i];
                assert(match d.role {
                    DimRole::Fixed(k) => k < sizes[i],
                    _ => true,
                });
            }
        }
        lemma_weighted_bound(dims, sizes, y, x, r, c, n);
        lemma_weighted_split(dims, sizes, y, x, r, c, n);
        lemma_suffix_product_nonneg(sizes, n);
    }
}

/// Law: the strides are row-major: the last dimension's stride is 1 and
/// each earlier stride is the next one times the next dimension's size.
pub proof fn lemma_strides_row_major(sizes: Seq<usize>, i: int)
    requires
        0 <= i < sizes.len(),
    ensures
        i == sizes.len() - 1 ==> stride(sizes, i) == 1,
        i + 1 < sizes.len() ==> stride(sizes, i) == sizes[i + 1] * stride(sizes, i + 1),
{
}

/// Law: with rows along the second-to-last dimension and columns along the
/// last (the default heatmap roles), a slice is one contiguous block read
/// row by row: cell `(r, c)` lies `r * x_size + c` past the fixed offset.
pub proof fn lemma_default_slice_contiguous(plan: SlicePlan, dims: Seq<DimState>, sizes: Seq<usize>, r: int, c: int)
    requires
        plan_matches(plan, dims, sizes),
        sizes.len() >= 2,
        plan.x_idx == sizes.len() - 1,
        plan.y_idx == sizes.len() - 2,
    ensures
        cell_offset(plan, r, c) == plan.base_offset + r * plan.x_size + c,
{
    let n = sizes.len() as int;
    assert(plan.strides@[n - 1] == stride(sizes, n - 1));
    assert(plan.strides@[n - 2] == stride(sizes, n - 2));
    assert(suffix_product(sizes, n) == 1);
    assert(stride(sizes, n - 1) == 1);
    assert(stride(sizes, n - 2) == sizes[n - 1] * 1);
}

/// The outcome of planning a slice.
#[derive(Debug, Clone)]
pub enum SlicePlanning {
    /// The spec lacks a Y or an X axis.
    NoAxes,
    /// Some stride, the fixed offset, or a cell's offset would not fit in a
    /// `usize`.
    TooLarge,
    /// The plan for reading the slice.
    Planned(SlicePlan),
}

/// Row-major strides of `sizes`, or `None` when one of them does not fit in
/// a `usize`.
pub fn checked_strides(sizes: &[usize]) -> (r: Option<Vec<usize>>)
    requires
        sizes@.len() >= 1,
    ensures
        r is Some <==> strides_fit(sizes@),
        r matches Some(strides) ==> strides@.len() == sizes@.len() && forall|i: int|
            0 <= i < sizes@.len() ==> #[trigger] strides@[i] == stride(sizes@, i),
{
    let n = sizes.len();
    // acc == suffix_product(sizes, k); every suffix product from k on fits.
    let mut acc: usize = 1;
    let mut k: usize = n;
    while k > 1
        invariant
            n == sizes@.len(),
            1 <= k <= n,
            acc == suffix_product(sizes@, k as int),
            forall|i: int| k <= i <= n ==> #[trigger] suffix_product(sizes@, i) <= usize::MAX,
        decreases k,
    {
        let sz = sizes[k - 1];
        assert(suffix_product(sizes@, k - 1) == sz * acc);
        match acc.checked_mul(sz) {
            Some(v) => {
                acc = v;
                k = k - 1;
            },
            None => {
                assert(!strides_fit(sizes@)) by {
                    assert(suffix_product(sizes@, k - 1) > usize::MAX) by (nonlinear_arith)
                        requires
                            suffix_product(sizes@, k - 1) == sz * acc,
                            acc * sz > usize::MAX,
                    ;
                }
                return None;
            },
        }
    }
    assert(strides_fit(sizes@));
    Some(row_major_strides(sizes))
}

/// The fixed offset of `dims`, or `None` when one of its running sums does
/// not fit in a `usize`.
pub fn checked_fixed_offset(dims: &[DimState], strides: &[usize], sizes: Ghost<Seq<usize>>) -> (r:
    Option<usize>)
    requires
        dims@.len() <= strides@.len(),
        forall|i: int| 0 <= i < strides@.len() ==> #[trigger] strides@[i] == stride(sizes@, i),
    ensures
        r is Some <==> fixed_offset_fits(dims@, sizes@),
        r matches Some(off) ==> off == fixed_offset(dims@, sizes@, dims@.len() as int),
{
    let n = dims.len();
    let mut off: usize = 0;
    let mut i: usize = 0;
    while i < n
        invariant
            n == dims@.len(),
            n <= strides@.len(),
            i <= n,
            forall|j: int| 0 <= j < strides@.len() ==> #[trigger] strides@[j] == stride(sizes@, j),
            off == fixed_offset(dims@, sizes@, i as int),
            forall|k: int| 0 <= k <= i ==> #[trigger] fixed_offset(dims@, sizes@, k) <= usize::MAX,
        decreases n - i,
    {
        assert(stride(sizes@, i as int) >= 0) by {
            lemma_suffix_product_nonneg(sizes@, i + 1);
        }
        match dims[i].role {
            DimRole::Fixed(idx) => {
                let st = strides[i];
                assert(fixed_offset(dims@, sizes@, i + 1) == off + idx * st);
                match idx.checked_mul(st) {
                    Some(term) => {
                        match off.checked_add(term) {
                            Some(v) => {
                                off = v;
                            },
                            None => {
                                assert(!fixed_offset_fits(dims@, sizes@)) by {
                                    assert(fixed_offset(dims@, sizes@, i + 1) > usize::MAX);
                                }
                                return None;
                            },
                        }
                    },
                    None => {
                        assert(!fixed_offset_fits(dims@, sizes@)) by {
                            assert(off + idx * st > usize::MAX) by (nonlinear_arith)
                                requires
                                    idx * st > usize::MAX,
                                    off >= 0,
                            ;
                            assert(fixed_offset(dims@, sizes@, i + 1) > usize::MAX);
                        }
                        return None;
                    },
                }
            },
            _ => {},
        }
        i = i + 1;
    }
    Some(off)
}

/// Suffix products of sizes are never negative.
proof fn lemma_suffix_product_nonneg(sizes: Seq<usize>, i: int)
    ensures
        suffix_product(sizes, i) >= 0,
    decreases sizes.len() - i,
{
    if i < sizes.len() && i >= 0 {
        lemma_suffix_product_nonneg(sizes, i + 1);
        assert(sizes[i] * suffix_product(sizes, i + 1) >= 0) by (nonlinear_arith)
            requires
                sizes[i] >= 0,
                suffix_product(sizes, i + 1) >= 0,
        ;
    }
}

/// Whether every cell `(r, c)` with `r < y_size`, `c < x_size` has an
/// offset `base + r * sy + c * sx` that fits: it suffices that the last
/// cell's does.
fn last_cell_fits(base: usize, y_size: usize, sy: usize, x_size: usize, sx: usize) -> (ok: bool)
    ensures
        ok <==> forall|r: int, c: int|
            #![trigger r * sy, c * sx]
            0 <= r < y_size && 0 <= c < x_size ==> base + r * sy + c * sx <= usize::MAX,
{
    if y_size == 0 || x_size == 0 {
        return true;
    }
    let ry = y_size - 1;
    let cx = x_size - 1;
    let a = match ry.checked_mul(sy) {
        Some(v) => v,
        None => {
            assert(base + ry * sy + cx * sx > usize::MAX) by (nonlinear_arith)
                requires
                    ry * sy > usize::MAX,
                    cx * sx >= 0,
            ;
            return false;
        },
    };
    let b = match cx.checked_mul(sx) {
        Some(v) => v,
        None => {
            assert(base + ry * sy + cx * sx > usize::MAX) by (nonlinear_arith)
                requires
                    cx * sx > usize::MAX,
                    ry * sy >= 0,
            ;
            return false;
        },
    };
    let ok = match base.checked_add(a) {
        Some(v) => v.checked_add(b).is_some(),
        None => false,
    };
    if ok {
        assert forall|r: int, c: int|
            #![trigger r * sy, c * sx]
            0 <= r < y_size && 0 <= c < x_size implies base + r * sy + c * sx <= usize::MAX by {
            assert(r * sy <= ry * sy) by (nonlinear_arith)
                requires
                    0 <= r <= ry,
                    sy >= 0,
            ;
            assert(c * sx <= cx * sx) by (nonlinear_arith)
                requires
                    0 <= c <= cx,
                    sx >= 0,
            ;
        }
    }
    ok
}

/// Plan the 2D slice selected by `spec` out of data shaped `sizes`: no
/// plan when the spec does not have both a Y and an X axis, nor when the
/// offsets of the slice would not fit in a `usize`.
pub fn plan_slice(spec: &SliceSpec, sizes: &[usize]) -> (r: SlicePlanning)
    requires
        spec.dims@.len() <= sizes@.len(),
    ensures
        r is NoAxes <==> !(has_role(spec.dims@, DimRole::AxisY) && has_role(
            spec.dims@,
            DimRole::AxisX,
        )),
        r is TooLarge <==> has_role(spec.dims@, DimRole::AxisY) && has_role(
            spec.dims@,
            DimRole::AxisX,
        ) && !(strides_fit(sizes@) && fixed_offset_fits(spec.dims@, sizes@) && cells_fit(
            spec.dims@,
            sizes@,
        )),
        r matches SlicePlanning::Planned(plan) ==> plan_matches(plan, spec.dims@, sizes@)
            && offsets_fit(plan),
{
    let (y_idx, x_idx) = match spec.xy_axes() {
        Some(pair) => pair,
        None => return SlicePlanning::NoAxes,
    };
    let strides = match checked_strides(sizes) {
        Some(s) => s,
        None => return SlicePlanning::TooLarge,
    };
    let base_offset = match checked_fixed_offset(spec.dims.as_slice(), strides.as_slice(), Ghost(sizes@)) {
        Some(off) => off,
        None => return SlicePlanning::TooLarge,
    };
    let y_size = sizes[y_idx];
    let x_size = sizes[x_idx];
    let sy = strides[y_idx];
    let sx = strides[x_idx];
    let ghost dims = spec.dims@;
    let ghost sz = sizes@;
    proof {
        lemma_first_role_unique(dims, DimRole::AxisY, y_idx as int);
        lemma_first_role_unique(dims, DimRole::AxisX, x_idx as int);
    }
    if !last_cell_fits(base_offset, y_size, sy, x_size, sx) {
        assert(!cells_fit(dims, sz)) by {
            let (r, c) = choose|r: int, c: int|
                0 <= r < y_size && 0 <= c < x_size && #[trigger] (r * sy) + #[trigger] (c * sx)
                    + base_offset > usize::MAX;
            assert(is_first_role(dims, DimRole::AxisY, y_idx as int));
            assert(is_first_role(dims, DimRole::AxisX, x_idx as int));
            assert(r * stride(sz, y_idx as int) == r * sy);
            assert(c * stride(sz, x_idx as int) == c * sx);
        }
        return SlicePlanning::TooLarge;
    }
    let plan = SlicePlan { y_idx, x_idx, y_size, x_size, strides, base_offset };
    assert(cells_fit(dims, sz)) by {
        assert forall|y: int, x: int, r: int, c: int|
            #![trigger is_first_role(dims, DimRole::AxisY, y), is_first_role(dims, DimRole::AxisX, x), r * stride(sz, y), c * stride(sz, x)]
            is_first_role(dims, DimRole::AxisY, y) && is_first_role(dims, DimRole::AxisX, x) && 0
                <= r < sz[y] && 0 <= c < sz[x] implies fixed_offset(dims, sz, dims.len() as int) + r
            * stride(sz, y) + c * stride(sz, x) <= usize::MAX by {
            assert(y == y_idx);
            assert(x == x_idx);
            assert(r * sy + c * sx + base_offset <= usize::MAX);
        }
    }
    assert(offsets_fit(plan)) by {
        assert forall|r: int, c: int|
            0 <= r < plan.y_size && 0 <= c < plan.x_size implies #[trigger] cell_offset(plan, r, c)
            <= usize::MAX by {
            assert(r * sy + c * sx + base_offset <= usize::MAX);
        }
    }
    SlicePlanning::Planned(plan)
}

/// The first position holding a role is unique.
proof fn lemma_first_role_unique(dims: Seq<DimState>, role: DimRole, i: int)
    requires
        is_first_role(dims, role, i),
    ensures
        forall|j: int| #[trigger] is_first_role(dims, role, j) ==> j == i,
{
    assert forall|j: int| #[trigger] is_first_role(dims, role, j) implies j == i by {
        if j < i {
            assert(dims[j].role != role);
        } else if j > i {
            assert(dims[i].role != role);
        }
    }
}

/// Offset of slice cell `(r, c)`.
pub fn slice_offset(plan: &SlicePlan, r: usize, c: usize) -> (off: usize)
    requires
        plan.y_idx < plan.strides@.len(),
        plan.x_idx < plan.strides@.len(),
        r < plan.y_size,
        c < plan.x_size,
        offsets_fit(*plan),
    ensures
        off == cell_offset(*plan, r as int, c as int),
{
    assert(cell_offset(*plan, r as int, c as int) <= usize::MAX);
    let sy = plan.strides[plan.y_idx];
    let sx = plan.strides[plan.x_idx];
    assert(r * sy <= usize::MAX) by (nonlinear_arith)
        requires
            plan.base_offset + r * sy + c * sx <= usize::MAX,
            c * sx >= 0,
    ;
    assert(c * sx <= usize::MAX) by (nonlinear_arith)
        requires
            plan.base_offset + r * sy + c * sx <= usize::MAX,
            r * sy >= 0,
    ;
    plan.base_offset + r * sy + c * sx
}

/// The value at `off`, or `fill` past the end of the data.
pub open spec fn value_at<T>(all: Seq<T>, off: int, fill: T) -> T {
    if 0 <= off < all.len() {
        all[off]
    } else {
        fill
    }
}

/// Read the slice planned by `plan` out of the flat data: row `r`, column
/// `c` holds the value at the cell's offset, or `fill` where the offset is
/// past the end of the data.
pub fn extract_slice<T: Copy>(all: &[T], plan: &SlicePlan, fill: T) -> (out: Vec<Vec<T>>)
    requires
        plan.y_idx < plan.strides@.len(),
        plan.x_idx < plan.strides@.len(),
        offsets_fit(*plan),
    ensures
        out@.len() == plan.y_size,
        forall|r: int| 0 <= r < plan.y_size ==> (#[trigger] out@[r])@.len() == plan.x_size,
        forall|r: int, c: int|
            0 <= r < plan.y_size && 0 <= c < plan.x_size ==> #[trigger] out@[r]@[c] == value_at(
                all@,
                cell_offset(*plan, r, c),
                fill,
            ),
{
    let mut out: Vec<Vec<T>> = Vec::new();
    let mut r: usize = 0;
    while r < plan.y_size
        invariant
            r <= plan.y_size,
            plan.y_idx < plan.strides@.len(),
            plan.x_idx < plan.strides@.len(),
            offsets_fit(*plan),
            out@.len() == r,
            forall|i: int| 0 <= i < r ==> (#[trigger] out@[i])@.len() == plan.x_size,
            forall|i: int, c: int|
                0 <= i < r && 0 <= c < plan.x_size ==> #[trigger] out@[i]@[c] == value_at(
                    all@,
                    cell_offset(*plan, i, c),
                    fill,
                ),
        decreases plan.y_size - r,
    {
        let mut row: Vec<T> = Vec::new();
        let mut c: usize = 0;
        while c < plan.x_size
            invariant
                r < plan.y_size,
                c <= plan.x_size,
                plan.y_idx < plan.strides@.len(),
                plan.x_idx < plan.strides@.len(),
                offsets_fit(*plan),
                row@.len() == c,
                forall|j: int| 0 <= j < c ==> #[trigger] row@[j] == value_at(
                    all@,
                    cell_offset(*plan, r as int, j),
                    fill,
                ),
            decreases plan.x_size - c,
        {
            let off = slice_offset(plan, r, c);
            let v = if off < all.len() {
                all[off]
            } else {
                fill
            };
            row.push(v);
            c = c + 1;
        }
        out.push(row);
        r = r + 1;
    }
    out
}

/// The rows of a 2D array concatenated, row after row.
pub open spec fn flatten<T>(rows: Seq<Seq<T>>) -> Seq<T>
    decreases rows.len(),
{
    if rows.len() == 0 {
        Seq::empty()
    } else {
        flatten(rows.drop_last()) + rows.last()
    }
}

/// Concatenate the rows of a 2D array.
pub fn flatten_rows<T: Copy>(rows: &Vec<Vec<T>>) -> (flat: Vec<T>)
    ensures
        flat@ == flatten(rows@.map_values(|r: Vec<T>| r@)),
{
    let n = rows.len();
    let mut flat: Vec<T> = Vec::new();
    let mut i: usize = 0;
    let ghost views = rows@.map_values(|r: Vec<T>| r@);
    while i < n
        invariant
            n == rows@.len(),
            i <= n,
            views == rows@.map_values(|r: Vec<T>| r@),
            flat@ == flatten(views.take(i as int)),
        decreases n - i,
    {
        assert(views.take(i + 1).drop_last() =~= views.take(i as int));
        let row = &rows[i];
        let m = row.len();
        let ghost start = flat@;
        let mut j: usize = 0;
        while j < m
            invariant
                m == row@.len(),
                j <= m,
                flat@ == start + row@.take(j as int),
            decreases m - j,
        {
            flat.push(row[j]);
            assert(row@.take(j + 1) =~= row@.take(j as int).push(row@[j as int]));
            j = j + 1;
        }
        assert(row@.take(m as int) =~= row@);
        assert(views.take(i + 1).last() == row@);
        i = i + 1;
    }
    assert(views.take(n as int) =~= views);
    flat
}

/// Split flat data into rows of `ncols` values (the last row holds what is
/// left over).
pub fn chunk_rows<T: Copy>(data: &[T], ncols: usize) -> (rows: Vec<Vec<T>>)
    requires
        ncols > 0,
    ensures
        rows@.len() == (data@.len() + ncols - 1) / (ncols as int),
        forall|r: int|
            0 <= r < rows@.len() ==> (#[trigger] rows@[r])@ == data@.subrange(
                r * ncols,
                if (r + 1) * ncols <= data@.len() {
                    (r + 1) * ncols
                } else {
                    data@.len() as int
                },
            ),
{
    let n = data.len();
    let mut rows: Vec<Vec<T>> = Vec::new();
    let mut start: usize = 0;
    assert(0 * ncols == 0) by (nonlinear_arith);
    while start < n
        invariant
            n == data@.len(),
            ncols > 0,
            start <= n,
            start == 0 || start < n,
            start == rows@.len() * ncols,
            forall|r: int|
                0 <= r < rows@.len() ==> (#[trigger] rows@[r])@ == data@.subrange(
                    r * ncols,
                    if (r + 1) * ncols <= n {
                        (r + 1) * ncols
                    } else {
                        n as int
                    },
                ),
            rows@.len() * ncols <= n,
        decreases n - start,
    {
        let end = if n - start >= ncols {
            start + ncols
        } else {
            n
        };
        let mut row: Vec<T> = Vec::new();
        let mut j: usize = start;
        while j < end
            invariant
                start <= j <= end,
                end <= n,
                n == data@.len(),
                row@ == data@.subrange(start as int, j as int),
            decreases end - j,
        {
            row.push(data[j]);
            assert(data@.subrange(start as int, j + 1) =~= data@.subrange(start as int, j as int).push(
                data@[j as int],
            ));
            j = j + 1;
        }
        let ghost k = rows@.len();
        rows.push(row);
        proof {
            assert(start == k * ncols);
            assert((k + 1) * ncols == k * ncols + ncols) by (nonlinear_arith);
        }
        if end == n {
            assert(rows@.len() * ncols >= n) by (nonlinear_arith)
                requires
                    rows@.len() == k + 1,
                    (k + 1) * ncols == k * ncols + ncols,
                    start == k * ncols,
                    n - start <= ncols,
            ;
            proof {
                let total = rows@.len();
                assert((n + ncols - 1) / (ncols as int) == total) by (nonlinear_arith)
                    requires
                        total * ncols >= n,
                        (total - 1) * ncols < n,
                        ncols > 0,
                        total >= 1,
                ;
            }
            return rows;
        }
        start = end;
        assert(start == rows@.len() * ncols);
    }
    assert(n == 0);
    assert(rows@.len() == 0) by (nonlinear_arith)
        requires
            rows@.len() * ncols == 0,
            ncols > 0,
    ;
    assert((n + ncols - 1) / (ncols as int) == 0) by (nonlinear_arith)
        requires
            n == 0,
            ncols > 0,
    ;
    rows
}

} // verus!
