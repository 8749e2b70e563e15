//! Variable search: a text query (fuzzy on names, substring on groups and
//! dimension names, case-insensitive) combined with an optional dimension
//! filter, over a catalog of variables.
use vstd::prelude::*;

use crate::text::{
    chars_of, chars_equal, contains_chars, contains_spec, is_subsequence, is_subsequence_chars,
    lemma_empty_is_subsequence, lemma_prefix_is_substring, lemma_self_is_prefix,
    lemma_prefix_of_subsequence, lemma_prefix_of_substring, lemma_substring_is_subsequence,
    lowercase, starts_with_chars, starts_with_spec, to_lower, ascii_lower,
    is_ascii_seq, lemma_ascii_lower_push,
};

verus! {

/// Metadata about a variable used for filtering and display.
#[derive(Debug, Clone)]
pub struct VarInfo {
    pub name: String,
    pub group: String,
    pub dim_names: Vec<String>,
    pub dim_sizes: Vec<usize>,
    pub is_coord: bool,
}

/// Dimension filter: match variables that use a specific dimension.
#[derive(Debug, Clone)]
pub enum DimFilter {
    /// Variable must use a dimension with this name.
    HasDim(String),
    /// Variable must have exactly this many dimensions.
    NDim(usize),
}

/// Product of a sequence of sizes (1 for the empty sequence).
pub open spec fn product(s: Seq<usize>) -> int
    decreases s.len(),
{
    if s.len() == 0 {
        1
    } else {
        product(s.drop_last()) * s.last()
    }
}

/// Every running product of `s`, taken left to right, fits in a `usize`.
pub open spec fn running_products_fit(s: Seq<usize>) -> bool {
    forall|k: int| 0 <= k <= s.len() ==> #[trigger] product(s.take(k)) <= usize::MAX
}

impl VarInfo {
    /// Total number of elements in this variable: the product of the
    /// dimension sizes (1 for a scalar, 0 when some dimension is empty).
    pub fn total_elements(&self) -> (n: usize)
        requires
            running_products_fit(self.dim_sizes@),
        ensures
            n == product(self.dim_sizes@),
    {
        let len = self.dim_sizes.len();
        let mut acc: usize = 1;
        let mut i: usize = 0;
        assert(self.dim_sizes@.take(0) =~= Seq::<usize>::empty());
        while i < len
            invariant
                len == self.dim_sizes@.len(),
                i <= len,
                running_products_fit(self.dim_sizes@),
                acc == product(self.dim_sizes@.take(i as int)),
            decreases len - i,
        {
            assert(self.dim_sizes@.take(i + 1).drop_last() =~= self.dim_sizes@.take(i as int));
            assert(product(self.dim_sizes@.take(i + 1)) <= usize::MAX);
            acc = acc * self.dim_sizes[i];
            i = i + 1;
        }
        assert(self.dim_sizes@.take(len as int) =~= self.dim_sizes@);
        acc
    }

    /// Number of dimensions.
    pub fn ndim(&self) -> (n: usize)
        ensures
            n == self.dim_names@.len(),
    {
        self.dim_names.len()
    }
}

// ---------------------------------------------------------------------------
// Filter specification
// ---------------------------------------------------------------------------
/// The text part of the filter, for an already lower-cased query `ql`:
/// an empty query accepts everything; otherwise the query must be an
/// in-order subsequence of the lower-cased name, or a substring of the
/// lower-cased group or of some lower-cased dimension name.
pub open spec fn text_matches(v: VarInfo, ql: Seq<char>) -> bool {
    ||| ql.len() == 0
    ||| is_subsequence(ql, lowercase(v.name@))
    ||| contains_spec(lowercase(v.group@), ql)
    ||| exists|j: int|
        0 <= j < v.dim_names@.len() && #[trigger] contains_spec(lowercase(v.dim_names@[j]@), ql)
}

/// The dimension part of the filter.
pub open spec fn dim_matches(v: VarInfo, f: Option<DimFilter>) -> bool {
    match f {
        None => true,
        Some(DimFilter::HasDim(name)) => exists|j: int|
            0 <= j < v.dim_names@.len() && #[trigger] v.dim_names@[j]@ == name@,
        Some(DimFilter::NDim(n)) => v.dim_names@.len() == n,
    }
}

/// A variable passes the search for the raw query `q` and filter `f`.
pub open spec fn var_matches(v: VarInfo, q: Seq<char>, f: Option<DimFilter>) -> bool {
    text_matches(v, lowercase(q)) && dim_matches(v, f)
}

/// The indices `0..k` of the catalog that pass the search, in increasing
/// order.
pub open spec fn matching_upto(cat: Seq<VarInfo>, q: Seq<char>, f: Option<DimFilter>, k: int) -> Seq<
    usize,
>
    decreases k,
{
    if k <= 0 {
        Seq::empty()
    } else if var_matches(cat[k - 1], q, f) {
        matching_upto(cat, q, f, k - 1).push((k - 1) as usize)
    } else {
        matching_upto(cat, q, f, k - 1)
    }
}

/// The indices of the catalog that pass the search, in increasing order.
pub open spec fn matching(cat: Seq<VarInfo>, q: Seq<char>, f: Option<DimFilter>) -> Seq<usize> {
    matching_upto(cat, q, f, cat.len() as int)
}

/// Strictly increasing.
pub open spec fn strictly_increasing(s: Seq<usize>) -> bool {
    forall|a: int, b: int| 0 <= a < b < s.len() ==> #[trigger] s[a] < #[trigger] s[b]
}

/// The matching indices below `k` are exactly the `i < k` that pass, and
/// they are listed in increasing order without repetition.
pub proof fn lemma_matching_upto(cat: Seq<VarInfo>, q: Seq<char>, f: Option<DimFilter>, k: int)
    requires
        0 <= k <= cat.len(),
        cat.len() <= usize::MAX,
    ensures
        strictly_increasing(matching_upto(cat, q, f, k)),
        forall|i: int|
            0 <= i < matching_upto(cat, q, f, k).len() ==> #[trigger] matching_upto(
                cat,
                q,
                f,
                k,
            )[i] < k,
        forall|i: usize|
            #[trigger] matching_upto(cat, q, f, k).contains(i) <==> (i < k && var_matches(
                cat[i as int],
                q,
                f,
            )),
    decreases k,
{
    if k > 0 {
        lemma_matching_upto(cat, q, f, k - 1);
        let prev = matching_upto(cat, q, f, k - 1);
        if var_matches(cat[k - 1], q, f) {
            let cur = prev.push((k - 1) as usize);
            assert forall|i: usize| #[trigger] cur.contains(i) <==> (i < k && var_matches(
                cat[i as int],
                q,
                f,
            )) by {
                if cur.contains(i) {
                    let j = choose|j: int| 0 <= j < cur.len() && cur[j] == i;
                    if j < prev.len() {
                        assert(prev.contains(i));
                    }
                }
                if i < k && var_matches(cat[i as int], q, f) {
                    if i < k - 1 {
                        assert(prev.contains(i));
                        let j = choose|j: int| 0 <= j < prev.len() && prev[j] == i;
                        assert(cur[j] == i);
                    } else {
                        assert(cur[prev.len() as int] == i);
                    }
                }
            }
        } else {
            assert forall|i: usize| #[trigger] prev.contains(i) <==> (i < k && var_matches(
                cat[i as int],
                q,
                f,
            )) by {
                if i < k && var_matches(cat[i as int], q, f) {
                    assert(i != k - 1);
                }
            }
        }
    }
}

/// Law: with an empty query and no dimension filter, every catalog entry
/// matches, in catalog order.
pub proof fn lemma_no_filter_matches_all(cat: Seq<VarInfo>, q: Seq<char>, k: int)
    requires
        lowercase(q).len() == 0,
        0 <= k <= cat.len(),
    ensures
        matching_upto(cat, q, None, k) == Seq::new(k as nat, |i: int| i as usize),
    decreases k,
{
    if k > 0 {
        lemma_no_filter_matches_all(cat, q, k - 1);
        assert(matching_upto(cat, q, None, k) =~= Seq::new(k as nat, |i: int| i as usize));
    }
}

/// Law: under the filter `HasDim(d)`, a catalog index is a result exactly
/// when its text part matches and some dimension of the variable, at any
/// position, is named `d`.
pub proof fn lemma_has_dim_filter(cat: Seq<VarInfo>, q: Seq<char>, d: String, i: usize)
    requires
        cat.len() <= usize::MAX,
    ensures
        matching(cat, q, Some(DimFilter::HasDim(d))).contains(i) <==> (i < cat.len()
            && text_matches(cat[i as int], lowercase(q)) && exists|j: int|
            0 <= j < cat[i as int].dim_names@.len() && cat[i as int].dim_names@[j]@ == d@),
{
    lemma_matching_upto(cat, q, Some(DimFilter::HasDim(d)), cat.len() as int);
}

/// Law: under the filter `NDim(k)`, a catalog index is a result exactly
/// when its text part matches and the variable has exactly `k` dimensions.
pub proof fn lemma_ndim_filter(cat: Seq<VarInfo>, q: Seq<char>, k: usize, i: usize)
    requires
        cat.len() <= usize::MAX,
    ensures
        matching(cat, q, Some(DimFilter::NDim(k))).contains(i) <==> (i < cat.len() && text_matches(
            cat[i as int],
            lowercase(q),
        ) && cat[i as int].dim_names@.len() == k),
{
    lemma_matching_upto(cat, q, Some(DimFilter::NDim(k)), cat.len() as int);
}

/// Law: adding a dimension filter only removes results — every index
/// matching with the filter also matches without it.
pub proof fn lemma_dim_filter_narrows(cat: Seq<VarInfo>, q: Seq<char>, f: DimFilter, i: usize)
    requires
        cat.len() <= usize::MAX,
        matching(cat, q, Some(f)).contains(i),
    ensures
        matching(cat, q, None).contains(i),
{
    lemma_matching_upto(cat, q, Some(f), cat.len() as int);
    lemma_matching_upto(cat, q, None, cat.len() as int);
}

/// A lowered query that extends another passes no variable that the
/// shorter one rejects.
proof fn lemma_text_matches_narrows(v: VarInfo, p: Seq<char>, q: Seq<char>)
    requires
        starts_with_spec(q, p),
        text_matches(v, q),
    ensures
        text_matches(v, p),
{
    if p.len() != 0 {
        if is_subsequence(q, lowercase(v.name@)) {
            lemma_prefix_of_subsequence(p, q, lowercase(v.name@));
        } else if contains_spec(lowercase(v.group@), q) {
            lemma_prefix_of_substring(p, q, lowercase(v.group@));
        } else {
            let j = choose|j: int|
                0 <= j < v.dim_names@.len() && #[trigger] contains_spec(lowercase(v.dim_names@[j]@), q);
            lemma_prefix_of_substring(p, q, lowercase(v.dim_names@[j]@));
        }
    }
}

/// Law: typing more never adds matches. Whenever the lower-cased longer
/// query `q2` starts with the lower-cased shorter query `q1` (as it does
/// for ASCII text; lower-casing is not a character-by-character map in
/// general, e.g. a final capital sigma), every catalog index matching `q2`
/// also matches `q1`, under the same dimension filter.
pub proof fn lemma_longer_query_narrows(
    cat: Seq<VarInfo>,
    q1: Seq<char>,
    q2: Seq<char>,
    f: Option<DimFilter>,
    i: usize,
)
    requires
        cat.len() <= usize::MAX,
        starts_with_spec(lowercase(q2), lowercase(q1)),
        matching(cat, q2, f).contains(i),
    ensures
        matching(cat, q1, f).contains(i),
{
    lemma_matching_upto(cat, q2, f, cat.len() as int);
    lemma_matching_upto(cat, q1, f, cat.len() as int);
    lemma_text_matches_narrows(cat[i as int], lowercase(q1), lowercase(q2));
}

/// The lower-casing of an ASCII query is its ASCII lower-casing.
pub open spec fn lowering_known(q: Seq<char>) -> bool {
    is_ascii_seq(q) ==> lowercase(q) == ascii_lower(q)
}

// ---------------------------------------------------------------------------
// Search state
// ---------------------------------------------------------------------------
/// Search state for the variable tree.
pub struct SearchState {
    /// Current search query text (user-typed).
    pub query: String,
    /// Whether the search bar is active / focused.
    pub active: bool,
    /// Optional dimension filter applied alongside the text query.
    pub dim_filter: Option<DimFilter>,
    /// Full catalog of variables (populated once from the dataset).
    catalog: Vec<VarInfo>,
    /// Cached results of the last filter operation.
    results: Vec<usize>,
}

impl SearchState {
    /// The full catalog (spec view).
    pub closed spec fn catalog_view(&self) -> Seq<VarInfo> {
        self.catalog@
    }

    /// The query text (spec view).
    pub closed spec fn query_seq(&self) -> Seq<char> {
        self.query@
    }

    /// Whether the search bar is active (spec view).
    pub closed spec fn is_active(&self) -> bool {
        self.active
    }

    /// The dimension filter (spec view).
    pub closed spec fn filter(&self) -> Option<DimFilter> {
        self.dim_filter
    }

    /// The cached result indices (spec view).
    pub closed spec fn results_view(&self) -> Seq<usize> {
        self.results@
    }

    /// Well-formedness: the cached results are exactly the catalog indices
    /// matching the current query and dimension filter, and the query's
    /// lower-casing (computed for the filter) is known to be the ASCII one
    /// when the query is ASCII.
    pub open spec fn wf(&self) -> bool {
        &&& self.results_view() == matching(self.catalog_view(), self.query_seq(), self.filter())
        &&& lowering_known(self.query_seq())
    }

    pub fn new() -> (s: Self)
        ensures
            s.wf(),
            s.query_seq().len() == 0,
            !s.is_active(),
            s.filter() is None,
            s.catalog_view().len() == 0,
            s.results_view().len() == 0,
    {
        let mut s = Self {
            query: String::new(),
            active: false,
            dim_filter: None,
            catalog: Vec::new(),
            results: Vec::new(),
        };
        s.refilter();
        s
    }

    /// Populate the variable catalog from a dataset.
    pub fn set_catalog(&mut self, vars: Vec<VarInfo>)
        ensures
            final(self).wf(),
            final(self).catalog_view() == vars@,
            final(self).query_seq() == old(self).query_seq(),
            final(self).is_active() == old(self).is_active(),
            final(self).filter() == old(self).filter(),
    {
        self.catalog = vars;
        self.refilter();
    }

    /// Push a character into the query.
    pub fn push_char(&mut self, ch: char)
        ensures
            final(self).wf(),
            final(self).query_seq() == old(self).query_seq().push(ch),
            final(self).catalog_view() == old(self).catalog_view(),
            final(self).is_active() == old(self).is_active(),
            final(self).filter() == old(self).filter(),
            // Typing an ASCII character after an ASCII query never adds a match.
            old(self).wf() && is_ascii_seq(old(self).query_seq()) && (ch as u32) < 128 ==> forall|
                i: usize,
            |
                #[trigger] final(self).results_view().contains(i) ==> old(
                    self,
                ).results_view().contains(i),
    {
        let ghost before = *self;
        let _n = self.catalog.len();
        crate::text::push_char(&mut self.query, ch);
        self.refilter();
        proof {
            if before.wf() && is_ascii_seq(before.query_seq()) && (ch as u32) < 128 {
                assert forall|i: usize| #[trigger] self.results_view().contains(i) implies before.results_view().contains(i) by {
                    SearchState::lemma_push_char_narrows(before, *self, ch, i);
                }
            }
        }
    }

    /// Delete the last character from the query.
    pub fn pop_char(&mut self)
        ensures
            final(self).wf(),
            final(self).query_seq() == (if old(self).query_seq().len() == 0 {
                old(self).query_seq()
            } else {
                old(self).query_seq().drop_last()
            }),
            final(self).catalog_view() == old(self).catalog_view(),
            final(self).is_active() == old(self).is_active(),
            final(self).filter() == old(self).filter(),
    {
        let _ = crate::text::pop_char(&mut self.query);
        self.refilter();
    }

    /// Clear the query and filter: afterwards every catalog entry matches.
    pub fn clear(&mut self)
        ensures
            final(self).wf(),
            final(self).query_seq().len() == 0,
            final(self).filter() is None,
            final(self).catalog_view() == old(self).catalog_view(),
            final(self).is_active() == old(self).is_active(),
            final(self).results_view() == Seq::new(
                old(self).catalog_view().len(),
                |i: int| i as usize,
            ),
    {
        self.query = String::new();
        self.dim_filter = None;
        self.refilter();
        proof {
            assert(self.query@.len() == 0);
            assert(lowercase(self.query@).len() == 0);
            lemma_no_filter_matches_all(self.catalog@, self.query@, self.catalog@.len() as int);
        }
    }

    /// Set the dimension filter.
    pub fn set_dim_filter(&mut self, filter: Option<DimFilter>)
        ensures
            final(self).wf(),
            final(self).filter() == filter,
            final(self).query_seq() == old(self).query_seq(),
            final(self).catalog_view() == old(self).catalog_view(),
            final(self).is_active() == old(self).is_active(),
    {
        self.dim_filter = filter;
        self.refilter();
    }

    /// Returns indices into the catalog that match the current query + filter.
    pub fn matching_indices(&self) -> (r: &[usize])
        ensures
            r@ == self.results_view(),
    {
        self.results.as_slice()
    }

    /// Returns matching variable infos, in catalog order.
    pub fn matches(&self) -> (r: Vec<&VarInfo>)
        requires
            self.wf(),
        ensures
            r@.len() == self.results_view().len(),
            forall|k: int|
                0 <= k < r@.len() ==> *#[trigger] r@[k] == self.catalog_view()[self.results_view()[k] as int],
    {
        let _cn = self.catalog.len();
        proof {
            lemma_matching_upto(self.catalog@, self.query@, self.dim_filter, self.catalog@.len() as int);
        }
        let mut out: Vec<&VarInfo> = Vec::new();
        let n = self.results.len();
        for k in 0..n
            invariant
                n == self.results@.len(),
                self.wf(),
                forall|i: int| 0 <= i < self.results@.len() ==> #[trigger] self.results@[i] < self.catalog@.len(),
                out@.len() == k,
                forall|j: int| 0 <= j < k ==> *#[trigger] out@[j] == self.catalog@[self.results@[j] as int],
        {
            let idx = self.results[k];
            out.push(&self.catalog[idx]);
        }
        out
    }

    /// The query text, as held in `query`.
    pub fn query_text(&self) -> (r: &String)
        ensures
            r@ == self.query_seq(),
    {
        &self.query
    }

    /// Whether the search bar is active, as held in `active`.
    pub fn bar_active(&self) -> (r: bool)
        ensures
            r == self.is_active(),
    {
        self.active
    }

    /// The dimension filter, as held in `dim_filter`.
    pub fn current_filter(&self) -> (r: &Option<DimFilter>)
        ensures
            *r == self.filter(),
    {
        &self.dim_filter
    }

    /// The full catalog.
    pub fn catalog(&self) -> (r: &[VarInfo])
        ensures
            r@ == self.catalog_view(),
    {
        self.catalog.as_slice()
    }

    /// Whether any filter is active.
    pub fn has_filter(&self) -> (r: bool)
        ensures
            r == (self.query_seq().len() != 0 || self.filter() is Some),
    {
        !self.query.as_str().is_empty() || self.dim_filter.is_some()
    }

    /// Law: typing an ASCII character after an ASCII query never adds a
    /// match: the results after `push_char` are among those before it.
    pub proof fn lemma_push_char_narrows(before: SearchState, after: SearchState, ch: char, i: usize)
        requires
            before.wf(),
            after.wf(),
            after.query_seq() == before.query_seq().push(ch),
            after.catalog_view() == before.catalog_view(),
            after.filter() == before.filter(),
            before.catalog_view().len() <= usize::MAX,
            is_ascii_seq(before.query_seq()),
            (ch as u32) < 128,
            after.results_view().contains(i),
        ensures
            before.results_view().contains(i),
    {
        let q = before.query_seq();
        lemma_ascii_lower_push(q, ch);
        assert(ascii_lower(q.push(ch)).subrange(0, ascii_lower(q).len() as int) =~= ascii_lower(q));
        lemma_longer_query_narrows(
            before.catalog_view(),
            before.query_seq(),
            after.query_seq(),
            before.filter(),
            i,
        );
    }

    /// Law: with an empty query and no dimension filter, every catalog
    /// entry matches, in catalog order.
    pub proof fn lemma_unfiltered_matches_all(s: SearchState)
        requires
            s.wf(),
            s.query_seq().len() == 0,
            s.filter() is None,
        ensures
            s.results_view() == Seq::new(s.catalog_view().len(), |i: int| i as usize),
    {
        assert(is_ascii_seq(s.query_seq()));
        assert(ascii_lower(s.query_seq()) =~= Seq::<char>::empty());
        lemma_no_filter_matches_all(s.catalog_view(), s.query_seq(), s.catalog_view().len() as int);
    }

    fn refilter(&mut self)
        ensures
            final(self).wf(),
            final(self).query == old(self).query,
            final(self).catalog == old(self).catalog,
            final(self).active == old(self).active,
            final(self).dim_filter == old(self).dim_filter,
            final(self).query@.len() == 0 ==> lowercase(final(self).query@).len() == 0,
    {
        let ql = to_lower(self.query.as_str());
        assert(lowering_known(self.query@));
        let qc = chars_of(ql.as_str());
        let n = self.catalog.len();
        let mut results: Vec<usize> = Vec::new();
        for i in 0..n
            invariant
                n == self.catalog@.len(),
                qc@ == lowercase(self.query@),
                results@ == matching_upto(self.catalog@, self.query@, self.dim_filter, i as int),
        {
            let v = &self.catalog[i];
            let ok = text_ok(v, qc.as_slice()) && dim_ok(v, &self.dim_filter);
            if ok {
                results.push(i);
            }
        }
        self.results = results;
    }
}

fn text_ok(v: &VarInfo, ql: &[char]) -> (r: bool)
    ensures
        r == text_matches(*v, ql@),
{
    if ql.len() == 0 {
        return true;
    }
    let name_l = to_lower(v.name.as_str());
    let name_c = chars_of(name_l.as_str());
    if fuzzy_match_chars(name_c.as_slice(), ql) {
        return true;
    }
    let group_l = to_lower(v.group.as_str());
    let group_c = chars_of(group_l.as_str());
    if contains_chars(group_c.as_slice(), ql) {
        return true;
    }
    let nd = v.dim_names.len();
    for j in 0..nd
        invariant
            nd == v.dim_names@.len(),
            ql@.len() != 0,
            !is_subsequence(ql@, lowercase(v.name@)),
            !contains_spec(lowercase(v.group@), ql@),
            forall|k: int| 0 <= k < j ==> !#[trigger] contains_spec(lowercase(v.dim_names@[k]@), ql@),
    {
        let d_l = to_lower(v.dim_names[j].as_str());
        let d_c = chars_of(d_l.as_str());
        if contains_chars(d_c.as_slice(), ql) {
            return true;
        }
    }
    false
}

fn dim_ok(v: &VarInfo, f: &Option<DimFilter>) -> (r: bool)
    ensures
        r == dim_matches(*v, *f),
{
    match f {
        None => true,
        Some(DimFilter::HasDim(name)) => {
            let nd = v.dim_names.len();
            for j in 0..nd
                invariant
                    nd == v.dim_names@.len(),
                    *f == Some(DimFilter::HasDim(*name)),
                    forall|k: int| 0 <= k < j ==> #[trigger] v.dim_names@[k]@ != name@,
            {
                let same = v.dim_names[j] == *name;
                assert(same == (v.dim_names@[j as int]@ == name@));
                if same {
                    assert(v.dim_names@[j as int]@ == name@);
                    return true;
                }
            }
            false
        },
        Some(DimFilter::NDim(n)) => v.dim_names.len() == *n,
    }
}

// ---------------------------------------------------------------------------
// Fuzzy matching
// ---------------------------------------------------------------------------
fn fuzzy_match_chars(text: &[char], pattern: &[char]) -> (r: bool)
    ensures
        r == is_subsequence(pattern@, text@),
{
    if pattern.len() == 0 {
        proof {
            assert(pattern@ =~= Seq::<char>::empty());
            lemma_empty_is_subsequence(text@);
        }
        return true;
    }
    // Fast path: exact substring.
    if contains_chars(text, pattern) {
        proof {
            lemma_substring_is_subsequence(text@, pattern@);
        }
        return true;
    }
    // Subsequence match: all pattern chars appear in order.
    is_subsequence_chars(pattern, text)
}

/// Simple fuzzy substring matcher.
///
/// Returns `true` exactly when all characters in `pattern` appear in `text`
/// in order (not necessarily contiguous).
pub fn fuzzy_match(text: &str, pattern: &str) -> (r: bool)
    ensures
        r == is_subsequence(pattern@, text@),
{
    let t = chars_of(text);
    let p = chars_of(pattern);
    fuzzy_match_chars(t.as_slice(), p.as_slice())
}

/// The score of an already lower-cased text and pattern: 1000 for
/// equality, 500 for a prefix, 200 for a substring, 50 for an in-order
/// subsequence, 0 else.
pub open spec fn lowered_score_spec(tl: Seq<char>, pl: Seq<char>) -> u32 {
    if tl == pl {
        1000
    } else if starts_with_spec(tl, pl) {
        500
    } else if contains_spec(tl, pl) {
        200
    } else if is_subsequence(pl, tl) {
        50
    } else {
        0
    }
}

/// The score that `fuzzy_score` assigns: 1 for an empty pattern; otherwise
/// the score of the lower-cased text and pattern.
pub open spec fn fuzzy_score_spec(text: Seq<char>, pattern: Seq<char>) -> u32 {
    if pattern.len() == 0 {
        1
    } else {
        lowered_score_spec(lowercase(text), lowercase(pattern))
    }
}

/// The ranking of an already lower-cased text `tl` against a lower-cased
/// pattern `pl` (higher = better match, 0 for no match).
pub fn score_lowered(tl: &str, pl: &str) -> (r: u32)
    ensures
        r == lowered_score_spec(tl@, pl@),
{
    let tc = chars_of(tl);
    let pc = chars_of(pl);
    if chars_equal(tc.as_slice(), pc.as_slice()) {
        return 1000;
    }
    if starts_with_chars(tc.as_slice(), pc.as_slice()) {
        return 500;
    }
    if contains_chars(tc.as_slice(), pc.as_slice()) {
        return 200;
    }
    if fuzzy_match_chars(tc.as_slice(), pc.as_slice()) {
        return 50;
    }
    0
}

/// Compute a simple fuzzy match score (higher = better match).
/// Returns 0 for no match. Used for ranking results.
pub fn fuzzy_score(text: &str, pattern: &str) -> (r: u32)
    ensures
        r == fuzzy_score_spec(text@, pattern@),
{
    if pattern.is_empty() {
        return 1;
    }
    let text_lower = to_lower(text);
    let pat_lower = to_lower(pattern);
    score_lowered(text_lower.as_str(), pat_lower.as_str())
}

/// Law: the score is zero exactly when the (lower-cased) pattern is
/// non-empty and not an in-order subsequence of the (lower-cased) text.
pub proof fn lemma_fuzzy_score_zero_iff_no_match(text: Seq<char>, pattern: Seq<char>)
    ensures
        (fuzzy_score_spec(text, pattern) == 0) <==> (pattern.len() != 0 && !is_subsequence(
            lowercase(pattern),
            lowercase(text),
        )),
{
    if pattern.len() != 0 {
        let tl = lowercase(text);
        let pl = lowercase(pattern);
        if tl == pl {
            lemma_self_is_prefix(tl);
            lemma_prefix_is_substring(tl, pl);
            lemma_substring_is_subsequence(tl, pl);
        } else if starts_with_spec(tl, pl) {
            lemma_prefix_is_substring(tl, pl);
            lemma_substring_is_subsequence(tl, pl);
        } else if contains_spec(tl, pl) {
            lemma_substring_is_subsequence(tl, pl);
        }
    }
}

/// Law: ranking follows the kind of match: against the same text, a
/// pattern that (lower-cased) starts the text outranks one that does not
/// occur in it contiguously.
pub proof fn lemma_prefix_outranks_scattered(text: Seq<char>, p1: Seq<char>, p2: Seq<char>)
    requires
        p1.len() != 0,
        p2.len() != 0,
        starts_with_spec(lowercase(text), lowercase(p1)),
        !contains_spec(lowercase(text), lowercase(p2)),
    ensures
        fuzzy_score_spec(text, p1) >= 500,
        fuzzy_score_spec(text, p2) <= 50,
        fuzzy_score_spec(text, p1) > fuzzy_score_spec(text, p2),
{
    let tl = lowercase(text);
    if tl == lowercase(p2) {
        lemma_self_is_prefix(tl);
        lemma_prefix_is_substring(tl, tl);
    }
    if starts_with_spec(tl, lowercase(p2)) {
        lemma_prefix_is_substring(tl, lowercase(p2));
    }
}

} // verus!
