//! Hyperslab specification for viewing an n-dimensional variable as a 1D
//! line plot (one free axis) or a 2D heatmap (free X and Y axes), with the
//! remaining dimensions fixed at chosen indices.
use vstd::prelude::*;

use crate::text::{decimal, decimal_string, push_char, push_str};

verus! {

/// Role assigned to a dimension in a slice specification.
#[derive(Debug, Clone, Copy, PartialEq, Eq, Structural)]
pub enum DimRole {
    Fixed(usize),
    AxisX,
    AxisY,
}

/// Per-dimension state within a slice spec.
#[derive(Debug, Clone)]
pub struct DimState {
    pub name: String,
    pub size: usize,
    pub role: DimRole,
}

/// Complete hyperslab specification for slicing an nD variable to 1D or 2D.
///
/// - **1 free axis** (X or Y) → line plot along that dimension
/// - **2 free axes** (X and Y) → 2D heatmap
///
/// Remaining dimensions are fixed at a chosen index. Works for any rank.
#[derive(Debug, Clone)]
pub struct SliceSpec {
    pub var_name: String,
    pub dims: Vec<DimState>,
}

/// What the current role assignment can be shown as.
#[derive(Debug, Clone, Copy, PartialEq, Eq, Structural)]
pub enum PlotMode {
    /// Exactly one free axis.
    Line,
    /// Exactly two free axes, one X and one Y.
    Heatmap,
    /// No free axis.
    FixAll,
    /// Any other assignment.
    NeedFree,
}

// ---------------------------------------------------------------------------
// Specifications
// ---------------------------------------------------------------------------
/// Heatmap-oriented role of dimension `i` among `n`: last → X, second-last
/// → Y, the rest fixed at 0; a rank-1 variable's sole dimension is X.
pub open spec fn heatmap_role(n: int, i: int) -> DimRole {
    if n == 1 && i == 0 {
        DimRole::AxisX
    } else if n >= 2 && i == n - 1 {
        DimRole::AxisX
    } else if n >= 2 && i == n - 2 {
        DimRole::AxisY
    } else {
        DimRole::Fixed(0)
    }
}

/// Line-oriented role of dimension `i` among `n`: last → X, the rest fixed
/// at 0.
pub open spec fn line_role(n: int, i: int) -> DimRole {
    if n >= 1 && i == n - 1 {
        DimRole::AxisX
    } else {
        DimRole::Fixed(0)
    }
}

/// A role is free when it is an axis.
pub open spec fn is_free(r: DimRole) -> bool {
    !(r is Fixed)
}

/// Number of free dimensions.
pub open spec fn free_count(dims: Seq<DimState>) -> nat
    decreases dims.len(),
{
    if dims.len() == 0 {
        0
    } else {
        free_count(dims.drop_last()) + if is_free(dims.last().role) {
            1nat
        } else {
            0nat
        }
    }
}

/// `i` is the first position holding a role satisfying `p`.
pub open spec fn is_first_free(dims: Seq<DimState>, i: int) -> bool {
    &&& 0 <= i < dims.len()
    &&& is_free(dims[i].role)
    &&& forall|j: int| 0 <= j < i ==> !is_free(#[trigger] dims[j].role)
}

/// `i` is the first position holding role `r`.
pub open spec fn is_first_role(dims: Seq<DimState>, r: DimRole, i: int) -> bool {
    &&& 0 <= i < dims.len()
    &&& dims[i].role == r
    &&& forall|j: int| 0 <= j < i ==> #[trigger] dims[j].role != r
}

/// Some dimension holds role `r`.
pub open spec fn has_role(dims: Seq<DimState>, r: DimRole) -> bool {
    exists|j: int| 0 <= j < dims.len() && #[trigger] dims[j].role == r
}

/// The plot mode of a role assignment.
pub open spec fn plot_mode_spec(dims: Seq<DimState>) -> PlotMode {
    if free_count(dims) == 1 {
        PlotMode::Line
    } else if free_count(dims) == 2 && has_role(dims, DimRole::AxisX) && has_role(
        dims,
        DimRole::AxisY,
    ) {
        PlotMode::Heatmap
    } else if free_count(dims) == 0 {
        PlotMode::FixAll
    } else {
        PlotMode::NeedFree
    }
}

/// Role after stepping a fixed index forward (wrapping at `size`); axes
/// are unchanged.
pub open spec fn inc_role(r: DimRole, size: usize) -> DimRole {
    match r {
        DimRole::Fixed(k) => DimRole::Fixed(((k + 1) % (size as int)) as usize),
        _ => r,
    }
}

/// Role after stepping a fixed index backward (wrapping to `size - 1`);
/// axes are unchanged.
pub open spec fn dec_role(r: DimRole, size: usize) -> DimRole {
    match r {
        DimRole::Fixed(k) => DimRole::Fixed(
            if k == 0 {
                (size - 1) as usize
            } else {
                (k - 1) as usize
            },
        ),
        _ => r,
    }
}

/// Role of a dimension after `assign_axis(dim_idx, role)`.
pub open spec fn assigned_role(old: DimRole, j: int, dim_idx: int, role: DimRole) -> DimRole {
    if j == dim_idx {
        role
    } else if is_free(role) && old == role {
        DimRole::Fixed(0)
    } else {
        old
    }
}

/// The `name=index` entries of the fixed dimensions, in order.
pub open spec fn fixed_entries(dims: Seq<DimState>) -> Seq<Seq<char>>
    decreases dims.len(),
{
    if dims.len() == 0 {
        Seq::empty()
    } else {
        let prev = fixed_entries(dims.drop_last());
        match dims.last().role {
            DimRole::Fixed(k) => prev.push(dims.last().name@ + seq!['='] + decimal(k as nat)),
            _ => prev,
        }
    }
}

/// `parts` joined with separator `sep`.
pub open spec fn join(parts: Seq<Seq<char>>, sep: Seq<char>) -> Seq<char>
    decreases parts.len(),
{
    if parts.len() == 0 {
        Seq::empty()
    } else if parts.len() == 1 {
        parts[0]
    } else {
        join(parts.drop_last(), sep) + sep + parts.last()
    }
}

/// Names and sizes of the dimensions are as given by the two lists, zipped.
pub open spec fn dims_from(dims: Seq<DimState>, names: Seq<String>, sizes: Seq<usize>) -> bool {
    &&& dims.len() == (if names.len() <= sizes.len() { names.len() } else { sizes.len() })
    &&& forall|i: int|
        0 <= i < dims.len() ==> (#[trigger] dims[i]).name@ == names[i]@ && dims[i].size == sizes[i]
}

/// Same names and sizes, position by position.
pub open spec fn same_shape(a: Seq<DimState>, b: Seq<DimState>) -> bool {
    &&& a.len() == b.len()
    &&& forall|i: int|
        0 <= i < a.len() ==> (#[trigger] a[i]).name == b[i].name && a[i].size == b[i].size
}

// ---------------------------------------------------------------------------
// Laws
// ---------------------------------------------------------------------------
/// Free dimensions are counted exactly once each.
pub proof fn lemma_free_count_bounds(dims: Seq<DimState>)
    ensures
        free_count(dims) <= dims.len(),
        free_count(dims) == 0 <==> forall|j: int| 0 <= j < dims.len() ==> !is_free(
            #[trigger] dims[j].role,
        ),
    decreases dims.len(),
{
    if dims.len() > 0 {
        lemma_free_count_bounds(dims.drop_last());
        if free_count(dims) == 0 {
            assert forall|j: int| 0 <= j < dims.len() implies !is_free(#[trigger] dims[j].role) by {
                if j < dims.len() - 1 {
                    assert(dims.drop_last()[j] == dims[j]);
                }
            }
        }
        if forall|j: int| 0 <= j < dims.len() ==> !is_free(#[trigger] dims[j].role) {
            assert forall|j: int| 0 <= j < dims.drop_last().len() implies !is_free(
                #[trigger] dims.drop_last()[j].role,
            ) by {
                assert(dims.drop_last()[j] == dims[j]);
            }
            assert(!is_free(dims[dims.len() - 1].role));
        }
    }
}

/// The free count only depends on the roles.
pub proof fn lemma_free_count_roles(a: Seq<DimState>, b: Seq<DimState>)
    requires
        a.len() == b.len(),
        forall|i: int| 0 <= i < a.len() ==> #[trigger] a[i].role == b[i].role,
    ensures
        free_count(a) == free_count(b),
    decreases a.len(),
{
    if a.len() > 0 {
        lemma_free_count_roles(a.drop_last(), b.drop_last());
    }
}

/// A heatmap-mode assignment of rank `n` has `min(n, 2)` free axes.
pub proof fn lemma_heatmap_free_count(dims: Seq<DimState>, n: int, k: int)
    requires
        0 <= k <= dims.len(),
        dims.len() <= n,
        forall|i: int| 0 <= i < dims.len() ==> #[trigger] dims[i].role == heatmap_role(n, i),
    ensures
        free_count(dims.take(k)) == (if n == 1 {
            if k >= 1 { 1int } else { 0int }
        } else if n >= 2 && k >= n { 2int } else if n >= 2 && k == n - 1 { 1int } else { 0int }),
    decreases k,
{
    if k > 0 {
        lemma_heatmap_free_count(dims, n, k - 1);
        assert(dims.take(k).drop_last() =~= dims.take(k - 1));
        assert(dims.take(k).last() == dims[k - 1]);
    }
}

/// A line-mode assignment has exactly one free axis (when rank ≥ 1).
pub proof fn lemma_line_free_count(dims: Seq<DimState>, n: int, k: int)
    requires
        0 <= k <= dims.len(),
        dims.len() <= n,
        forall|i: int| 0 <= i < dims.len() ==> #[trigger] dims[i].role == line_role(n, i),
    ensures
        free_count(dims.take(k)) == (if k >= n && n >= 1 { 1int } else { 0int }),
    decreases k,
{
    if k > 0 {
        lemma_line_free_count(dims, n, k - 1);
        assert(dims.take(k).drop_last() =~= dims.take(k - 1));
        assert(dims.take(k).last() == dims[k - 1]);
    }
}

/// Law: a heatmap-mode assignment over all `n >= 2` dimensions has
/// exactly two free axes, an X and a Y, so it plots as a heatmap; over a
/// single dimension it plots as a line.
pub proof fn lemma_heatmap_mode_plots(dims: Seq<DimState>)
    requires
        dims.len() >= 1,
        forall|i: int| 0 <= i < dims.len() ==> #[trigger] dims[i].role == heatmap_role(dims.len() as int, i),
    ensures
        dims.len() >= 2 ==> plot_mode_spec(dims) == PlotMode::Heatmap,
        dims.len() == 1 ==> plot_mode_spec(dims) == PlotMode::Line,
{
    let n = dims.len() as int;
    lemma_heatmap_free_count(dims, n, n);
    assert(dims.take(n) =~= dims);
    if n >= 2 {
        assert(dims[n - 1].role == DimRole::AxisX);
        assert(dims[n - 2].role == DimRole::AxisY);
    }
}

/// Law: a line-mode assignment over `n >= 1` dimensions has exactly one
/// free axis, the last dimension, so it plots as a line.
pub proof fn lemma_line_mode_plots(dims: Seq<DimState>)
    requires
        dims.len() >= 1,
        forall|i: int| 0 <= i < dims.len() ==> #[trigger] dims[i].role == line_role(dims.len() as int, i),
    ensures
        plot_mode_spec(dims) == PlotMode::Line,
        is_first_free(dims, dims.len() - 1),
{
    let n = dims.len() as int;
    lemma_line_free_count(dims, n, n);
    assert(dims.take(n) =~= dims);
}

/// Law: stepping a fixed index forward and then backward (or backward and
/// then forward) restores it, for any index inside the dimension.
pub proof fn lemma_inc_dec_inverse(k: usize, size: usize)
    requires
        k < size,
    ensures
        dec_role(inc_role(DimRole::Fixed(k), size), size) == DimRole::Fixed(k),
        inc_role(dec_role(DimRole::Fixed(k), size), size) == DimRole::Fixed(k),
{
    if k + 1 < size {
        assert((k + 1) % (size as int) == k + 1) by (nonlinear_arith)
            requires
                k + 1 < size,
        ;
    } else {
        assert((k + 1) % (size as int) == 0) by (nonlinear_arith)
            requires
                k + 1 == size,
        ;
    }
    if k == 0 {
        assert(((size - 1) + 1) % (size as int) == 0) by (nonlinear_arith)
            requires
                size > 0,
        ;
    } else {
        assert(((k - 1) + 1) % (size as int) == k) by (nonlinear_arith)
            requires
                0 < k < size,
        ;
    }
}

/// Law: stepping keeps a fixed index inside the dimension.
pub proof fn lemma_step_stays_in_range(k: usize, size: usize)
    requires
        k < size,
    ensures
        (inc_role(DimRole::Fixed(k), size) matches DimRole::Fixed(j) && j < size),
        (dec_role(DimRole::Fixed(k), size) matches DimRole::Fixed(j) && j < size),
{
}

/// Law: after assigning an axis role to a dimension, that dimension is the
/// only one holding the role.
pub proof fn lemma_assign_axis_unique(dims: Seq<DimState>, dim_idx: int, role: DimRole, j: int)
    requires
        is_free(role),
        0 <= dim_idx < dims.len(),
        0 <= j < dims.len(),
        j != dim_idx,
    ensures
        assigned_role(dims[j].role, j, dim_idx, role) != role,
{
}

// ---------------------------------------------------------------------------
// Operations
// ---------------------------------------------------------------------------
fn heatmap_role_exec(n: usize, i: usize) -> (r: DimRole)
    ensures
        r == heatmap_role(n as int, i as int),
{
    if n == 1 && i == 0 {
        DimRole::AxisX
    } else if n >= 2 && i == n - 1 {
        DimRole::AxisX
    } else if n >= 2 && i == n - 2 {
        DimRole::AxisY
    } else {
        DimRole::Fixed(0)
    }
}

fn line_role_exec(n: usize, i: usize) -> (r: DimRole)
    ensures
        r == line_role(n as int, i as int),
{
    if n >= 1 && i == n - 1 {
        DimRole::AxisX
    } else {
        DimRole::Fixed(0)
    }
}

/// Zip names and sizes into dimension states, with roles from `heatmap`
/// (true) or line mode (false) for rank `names.len()`.
fn zip_dims(dim_names: &[String], dim_sizes: &[usize], heatmap: bool) -> (dims: Vec<DimState>)
    ensures
        dims_from(dims@, dim_names@, dim_sizes@),
        forall|i: int|
            0 <= i < dims@.len() ==> #[trigger] dims@[i].role == (if heatmap {
                heatmap_role(dim_names@.len() as int, i)
            } else {
                line_role(dim_names@.len() as int, i)
            }),
{
    let n = dim_names.len();
    let m = if n <= dim_sizes.len() {
        n
    } else {
        dim_sizes.len()
    };
    let mut dims: Vec<DimState> = Vec::new();
    let mut i: usize = 0;
    while i < m
        invariant
            n == dim_names@.len(),
            m <= n,
            m <= dim_sizes@.len(),
            m == (if n <= dim_sizes@.len() { n as nat } else { dim_sizes@.len() }),
            i <= m,
            dims@.len() == i,
            forall|k: int|
                0 <= k < i ==> (#[trigger] dims@[k]).name@ == dim_names@[k]@ && dims@[k].size
                    == dim_sizes@[k] && dims@[k].role == (if heatmap {
                    heatmap_role(n as int, k)
                } else {
                    line_role(n as int, k)
                }),
        decreases m - i,
    {
        let role = if heatmap {
            heatmap_role_exec(n, i)
        } else {
            line_role_exec(n, i)
        };
        let name = dim_names[i].clone();
        dims.push(DimState { name, size: dim_sizes[i], role });
        i = i + 1;
    }
    dims
}

impl SliceSpec {
    /// Create a default heatmap-oriented spec: last dim → X, second-last → Y,
    /// rest fixed at 0. For rank-1 variables the sole dim is X (line plot).
    pub fn default_for(var_name: &str, dim_names: &[String], dim_sizes: &[usize]) -> (s: Self)
        ensures
            s.var_name@ == var_name@,
            dims_from(s.dims@, dim_names@, dim_sizes@),
            forall|i: int|
                0 <= i < s.dims@.len() ==> #[trigger] s.dims@[i].role == heatmap_role(
                    dim_names@.len() as int,
                    i,
                ),
    {
        let dims = zip_dims(dim_names, dim_sizes, true);
        Self { var_name: crate::text::string_of(var_name), dims }
    }

    /// Line-plot mode: last dimension free (X), every earlier dim fixed at 0.
    pub fn default_line_for(var_name: &str, dim_names: &[String], dim_sizes: &[usize]) -> (s: Self)
        ensures
            s.var_name@ == var_name@,
            dims_from(s.dims@, dim_names@, dim_sizes@),
            forall|i: int|
                0 <= i < s.dims@.len() ==> #[trigger] s.dims@[i].role == line_role(
                    dim_names@.len() as int,
                    i,
                ),
    {
        let dims = zip_dims(dim_names, dim_sizes, false);
        Self { var_name: crate::text::string_of(var_name), dims }
    }

    fn set_roles(&mut self, heatmap: bool)
        ensures
            final(self).var_name == old(self).var_name,
            same_shape(final(self).dims@, old(self).dims@),
            forall|i: int|
                0 <= i < final(self).dims@.len() ==> #[trigger] final(self).dims@[i].role == (
                if heatmap {
                    heatmap_role(old(self).dims@.len() as int, i)
                } else {
                    line_role(old(self).dims@.len() as int, i)
                }),
    {
        let n = self.dims.len();
        let ghost old_dims = self.dims@;
        let mut i: usize = 0;
        while i < n
            invariant
                n == self.dims@.len(),
                n == old_dims.len(),
                i <= n,
                self.var_name == old(self).var_name,
                same_shape(self.dims@, old_dims),
                forall|k: int|
                    0 <= k < n ==> #[trigger] self.dims@[k].role == (if k < i {
                        if heatmap {
                            heatmap_role(n as int, k)
                        } else {
                            line_role(n as int, k)
                        }
                    } else {
                        old_dims[k].role
                    }),
            decreases n - i,
        {
            let role = if heatmap {
                heatmap_role_exec(n, i)
            } else {
                line_role_exec(n, i)
            };
            let mut d = self.dims.remove(i);
            d.role = role;
            self.dims.insert(i, d);
            i = i + 1;
        }
    }

    /// Reset roles to heatmap mode (2 free axes when rank ≥ 2).
    pub fn set_heatmap_mode(&mut self)
        ensures
            final(self).var_name == old(self).var_name,
            same_shape(final(self).dims@, old(self).dims@),
            forall|i: int|
                0 <= i < final(self).dims@.len() ==> #[trigger] final(self).dims@[i].role
                    == heatmap_role(old(self).dims@.len() as int, i),
    {
        self.set_roles(true);
    }

    /// Reset roles to line mode (1 free axis: last dim).
    pub fn set_line_mode(&mut self)
        ensures
            final(self).var_name == old(self).var_name,
            same_shape(final(self).dims@, old(self).dims@),
            forall|i: int|
                0 <= i < final(self).dims@.len() ==> #[trigger] final(self).dims@[i].role
                    == line_role(old(self).dims@.len() as int, i),
    {
        self.set_roles(false);
    }

    /// Count of free (non-fixed) dimensions.
    pub fn free_dim_count(&self) -> (c: usize)
        ensures
            c == free_count(self.dims@),
    {
        let n = self.dims.len();
        let mut c: usize = 0;
        let mut i: usize = 0;
        while i < n
            invariant
                n == self.dims@.len(),
                i <= n,
                c == free_count(self.dims@.take(i as int)),
                c <= i,
            decreases n - i,
        {
            assert(self.dims@.take(i + 1).drop_last() =~= self.dims@.take(i as int));
            match self.dims[i].role {
                DimRole::Fixed(_) => {},
                _ => {
                    c = c + 1;
                },
            }
            i = i + 1;
        }
        assert(self.dims@.take(n as int) =~= self.dims@);
        c
    }

    /// Position of the first free dimension, if any.
    fn first_free(&self) -> (r: Option<usize>)
        ensures
            r matches Some(i) ==> is_first_free(self.dims@, i as int),
            r is None ==> forall|j: int| 0 <= j < self.dims@.len() ==> !is_free(#[trigger] self.dims@[j].role),
    {
        let n = self.dims.len();
        for i in 0..n
            invariant
                n == self.dims@.len(),
                forall|j: int| 0 <= j < i ==> !is_free(#[trigger] self.dims@[j].role),
        {
            match self.dims[i].role {
                DimRole::Fixed(_) => {},
                _ => {
                    return Some(i);
                },
            }
        }
        None
    }

    /// Position of the first dimension holding `role`, if any.
    fn position_of(&self, role: DimRole) -> (r: Option<usize>)
        ensures
            r matches Some(i) ==> is_first_role(self.dims@, role, i as int),
            r is None <==> !has_role(self.dims@, role),
    {
        let n = self.dims.len();
        for i in 0..n
            invariant
                n == self.dims@.len(),
                forall|j: int| 0 <= j < i ==> #[trigger] self.dims@[j].role != role,
        {
            if self.dims[i].role == role {
                return Some(i);
            }
        }
        None
    }

    /// Whether the current free-axis assignment is valid for plotting:
    /// exactly one free axis (line), or exactly two free axes that are an
    /// X and a Y (heatmap).
    pub fn is_valid_plot(&self) -> (r: bool)
        ensures
            r == (free_count(self.dims@) == 1 || (free_count(self.dims@) == 2 && has_role(
                self.dims@,
                DimRole::AxisX,
            ) && has_role(self.dims@, DimRole::AxisY))),
    {
        let c = self.free_dim_count();
        if c == 1 {
            let r = self.line_axis();
            r.is_some()
        } else if c == 2 {
            self.xy_axes().is_some()
        } else {
            false
        }
    }

    /// Return the free axis index when exactly one dimension is free.
    pub fn line_axis(&self) -> (r: Option<usize>)
        ensures
            free_count(self.dims@) != 1 ==> r is None,
            free_count(self.dims@) == 1 ==> (r matches Some(i) && is_first_free(self.dims@, i as int)),
    {
        if self.free_dim_count() != 1 {
            return None;
        }
        let r = self.first_free();
        proof {
            lemma_free_count_bounds(self.dims@);
        }
        r
    }

    /// Return `(row_axis_idx, col_axis_idx)`: the first Y axis and the
    /// first X axis, when both exist.
    pub fn xy_axes(&self) -> (r: Option<(usize, usize)>)
        ensures
            r is None <==> !(has_role(self.dims@, DimRole::AxisY) && has_role(
                self.dims@,
                DimRole::AxisX,
            )),
            r matches Some((y, x)) ==> is_first_role(self.dims@, DimRole::AxisY, y as int)
                && is_first_role(self.dims@, DimRole::AxisX, x as int),
    {
        let y = match self.position_of(DimRole::AxisY) {
            Some(y) => y,
            None => return None,
        };
        let x = match self.position_of(DimRole::AxisX) {
            Some(x) => x,
            None => return None,
        };
        Some((y, x))
    }

    /// What the current role assignment can be plotted as.
    pub fn plot_mode(&self) -> (m: PlotMode)
        ensures
            m == plot_mode_spec(self.dims@),
    {
        let c = self.free_dim_count();
        if c == 1 {
            PlotMode::Line
        } else if c == 2 && self.xy_axes().is_some() {
            PlotMode::Heatmap
        } else if c == 0 {
            PlotMode::FixAll
        } else {
            PlotMode::NeedFree
        }
    }

    /// Assign a dimension to a given role, bumping any existing holder of
    /// that axis role to `Fixed(0)`.
    pub fn assign_axis(&mut self, dim_idx: usize, role: DimRole)
        requires
            dim_idx < old(self).dims@.len(),
        ensures
            final(self).var_name == old(self).var_name,
            same_shape(final(self).dims@, old(self).dims@),
            forall|j: int|
                0 <= j < final(self).dims@.len() ==> #[trigger] final(self).dims@[j].role
                    == assigned_role(old(self).dims@[j].role, j, dim_idx as int, role),
    {
        let n = self.dims.len();
        let ghost old_dims = self.dims@;
        let axis = match role {
            DimRole::Fixed(_) => false,
            _ => true,
        };
        if axis {
            let mut i: usize = 0;
            while i < n
                invariant
                    n == self.dims@.len(),
                    n == old_dims.len(),
                    i <= n,
                    self.var_name == old(self).var_name,
                    axis == is_free(role),
                    same_shape(self.dims@, old_dims),
                    forall|k: int|
                        0 <= k < n ==> #[trigger] self.dims@[k].role == (if k < i && old_dims[k].role
                            == role {
                            DimRole::Fixed(0)
                        } else {
                            old_dims[k].role
                        }),
                decreases n - i,
            {
                if self.dims[i].role == role {
                    let mut d = self.dims.remove(i);
                    d.role = DimRole::Fixed(0);
                    self.dims.insert(i, d);
                }
                i = i + 1;
            }
        }
        let mut d = self.dims.remove(dim_idx);
        d.role = role;
        self.dims.insert(dim_idx, d);
    }

    /// Increment the fixed index of a dimension (wraps at size).
    pub fn increment_fixed(&mut self, dim_idx: usize)
        requires
            dim_idx < old(self).dims@.len(),
            old(self).dims@[dim_idx as int].role matches DimRole::Fixed(k) ==> old(
                self,
            ).dims@[dim_idx as int].size > 0 && k < usize::MAX,
        ensures
            final(self).var_name == old(self).var_name,
            same_shape(final(self).dims@, old(self).dims@),
            forall|j: int|
                0 <= j < final(self).dims@.len() ==> #[trigger] final(self).dims@[j].role == (
                if j == dim_idx {
                    inc_role(old(self).dims@[j].role, old(self).dims@[j].size)
                } else {
                    old(self).dims@[j].role
                }),
    {
        let size = self.dims[dim_idx].size;
        match self.dims[dim_idx].role {
            DimRole::Fixed(idx) => {
                let mut d = self.dims.remove(dim_idx);
                d.role = DimRole::Fixed((idx + 1) % size);
                self.dims.insert(dim_idx, d);
            },
            _ => {},
        }
    }

    /// Decrement the fixed index of a dimension (wraps at size).
    pub fn decrement_fixed(&mut self, dim_idx: usize)
        requires
            dim_idx < old(self).dims@.len(),
            old(self).dims@[dim_idx as int].role == DimRole::Fixed(0) ==> old(
                self,
            ).dims@[dim_idx as int].size > 0,
        ensures
            final(self).var_name == old(self).var_name,
            same_shape(final(self).dims@, old(self).dims@),
            forall|j: int|
                0 <= j < final(self).dims@.len() ==> #[trigger] final(self).dims@[j].role == (
                if j == dim_idx {
                    dec_role(old(self).dims@[j].role, old(self).dims@[j].size)
                } else {
                    old(self).dims@[j].role
                }),
    {
        let size = self.dims[dim_idx].size;
        match self.dims[dim_idx].role {
            DimRole::Fixed(idx) => {
                let new_idx = if idx == 0 {
                    size - 1
                } else {
                    idx - 1
                };
                let mut d = self.dims.remove(dim_idx);
                d.role = DimRole::Fixed(new_idx);
                self.dims.insert(dim_idx, d);
            },
            _ => {},
        }
    }

    /// Human-readable summary of fixed dimensions, e.g. `time=0, level=3`.
    pub fn fixed_summary(&self) -> (s: String)
        ensures
            s@ == join(fixed_entries(self.dims@), seq![',', ' ']),
    {
        let n = self.dims.len();
        let mut s = String::new();
        let mut any = false;
        let mut i: usize = 0;
        assert(self.dims@.take(0) =~= Seq::<DimState>::empty());
        while i < n
            invariant
                n == self.dims@.len(),
                i <= n,
                any == (fixed_entries(self.dims@.take(i as int)).len() > 0),
                s@ == join(fixed_entries(self.dims@.take(i as int)), seq![',', ' ']),
            decreases n - i,
        {
            let ghost prev = fixed_entries(self.dims@.take(i as int));
            assert(self.dims@.take(i + 1).drop_last() =~= self.dims@.take(i as int));
            assert(self.dims@.take(i + 1).last() == self.dims@[i as int]);
            match self.dims[i].role {
                DimRole::Fixed(idx) => {
                    let ghost entry = self.dims@[i as int].name@ + seq!['='] + decimal(idx as nat);
                    let ghost before = s@;
                    if any {
                        push_char(&mut s, ',');
                        push_char(&mut s, ' ');
                    }
                    push_str(&mut s, self.dims[i].name.as_str());
                    push_char(&mut s, '=');
                    let digits = decimal_string(idx);
                    push_str(&mut s, digits.as_str());
                    any = true;
                    proof {
                        let cur = prev.push(entry);
                        assert(fixed_entries(self.dims@.take(i + 1)) == cur);
                        assert(cur.drop_last() =~= prev);
                        if prev.len() > 0 {
                            assert(s@ =~= before + seq![',', ' '] + entry);
                        } else {
                            assert(s@ =~= entry);
                            assert(prev =~= Seq::<Seq<char>>::empty());
                        }
                    }
                },
                _ => {},
            }
            i = i + 1;
        }
        assert(self.dims@.take(n as int) =~= self.dims@);
        s
    }
}

/// Modal widget state for the slice picker.
pub struct SlicePicker {
    pub visible: bool,
    pub spec: SliceSpec,
    pub selected: usize,
}

impl SlicePicker {
    pub fn new(spec: SliceSpec) -> (p: Self)
        ensures
            p.visible,
            p.spec == spec,
            p.selected == 0,
    {
        Self { visible: true, spec, selected: 0 }
    }
}

} // verus!
