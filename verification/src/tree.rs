//! Left-panel tree navigator: groups (collapsible) and the variables they
//! contain, flattened into the list of visible rows.
use vstd::prelude::*;

use indexmap::IndexMap;

use crate::ordered_map::{lookup, map_entry, map_get, map_len, name_lists};
use crate::text::{push_char, push_str};

verus! {

/// Kind of row in the tree navigator.
#[derive(Debug, Clone, Copy, PartialEq, Eq, Structural)]
pub enum RowKind {
    Group { expanded: bool },
    Variable { is_coord: bool },
}

/// A single visible row in the flattened tree.
#[derive(Debug, Clone)]
pub struct Row {
    pub label: String,
    pub path: String,
    pub kind: RowKind,
    pub indent: usize,
}

/// The content of a row: label, path, kind and indentation.
pub type RowModel = (Seq<char>, Seq<char>, RowKind, int);

pub open spec fn row_view(r: Row) -> RowModel {
    (r.label@, r.path@, r.kind, r.indent as int)
}

pub open spec fn rows_view(rows: Seq<Row>) -> Seq<RowModel> {
    rows.map_values(|r: Row| row_view(r))
}

/// The path of a top-level group.
pub open spec fn group_path(name: Seq<char>) -> Seq<char> {
    seq!['/'] + name
}

/// The path of a variable inside a group.
pub open spec fn var_path(group: Seq<char>, var: Seq<char>) -> Seq<char> {
    seq!['/'] + group + seq!['/'] + var
}

/// A variable is a coordinate variable when it has exactly one dimension
/// and that dimension is named like the variable.
pub open spec fn is_coord_dims(name: Seq<char>, dims: Seq<Seq<char>>) -> bool {
    dims.len() == 1 && dims[0] == name
}

/// The rows for the children of an expanded group: one per child that is a
/// known variable, in order.
pub open spec fn child_rows(
    group: Seq<char>,
    children: Seq<Seq<char>>,
    vars: Seq<(Seq<char>, Seq<Seq<char>>)>,
) -> Seq<RowModel>
    decreases children.len(),
{
    if children.len() == 0 {
        Seq::empty()
    } else {
        let prev = child_rows(group, children.drop_last(), vars);
        let c = children.last();
        match lookup(vars, c) {
            Some(dims) => prev.push(
                (c, var_path(group, c), RowKind::Variable { is_coord: is_coord_dims(c, dims) }, 1),
            ),
            None => prev,
        }
    }
}

/// The rows of one group: its header row, followed by its children's rows
/// when its path is expanded.
pub open spec fn group_rows(
    group: Seq<char>,
    children: Seq<Seq<char>>,
    vars: Seq<(Seq<char>, Seq<Seq<char>>)>,
    expanded: Set<Seq<char>>,
) -> Seq<RowModel> {
    let open = expanded.contains(group_path(group));
    seq![(group, group_path(group), RowKind::Group { expanded: open }, 0)] + if open {
        child_rows(group, children, vars)
    } else {
        Seq::empty()
    }
}

/// All visible rows, group by group in insertion order.
pub open spec fn tree_rows(
    groups: Seq<(Seq<char>, Seq<Seq<char>>)>,
    vars: Seq<(Seq<char>, Seq<Seq<char>>)>,
    expanded: Set<Seq<char>>,
) -> Seq<RowModel>
    decreases groups.len(),
{
    if groups.len() == 0 {
        Seq::empty()
    } else {
        tree_rows(groups.drop_last(), vars, expanded) + group_rows(
            groups.last().0,
            groups.last().1,
            vars,
            expanded,
        )
    }
}

/// The set of paths listed.
pub open spec fn path_set(paths: Seq<String>) -> Set<Seq<char>> {
    Set::new(|p: Seq<char>| exists|i: int| 0 <= i < paths.len() && #[trigger] paths[i]@ == p)
}

/// No path is listed twice.
pub open spec fn no_dup(paths: Seq<String>) -> bool {
    forall|i: int, j: int| 0 <= i < j < paths.len() ==> #[trigger] paths[i]@ != #[trigger] paths[j]@
}

/// Selection after a rebuild: kept, but moved onto the last row when it
/// fell past the end.
pub open spec fn clamp_selection(selected: usize, n: nat) -> usize {
    if n > 0 && selected >= n {
        (n - 1) as usize
    } else {
        selected
    }
}

/// The expanded set after toggling `p`.
pub open spec fn toggled(exp: Set<Seq<char>>, p: Seq<char>) -> Set<Seq<char>> {
    if exp.contains(p) {
        exp.remove(p)
    } else {
        exp.insert(p)
    }
}

/// The group names are distinct (as the keys of an `IndexMap` are).
pub open spec fn distinct_keys(groups: Seq<(Seq<char>, Seq<Seq<char>>)>) -> bool {
    forall|i: int, j: int| 0 <= i < j < groups.len() ==> #[trigger] groups[i].0 != #[trigger] groups[j].0
}

/// Every row after a group's header row is a variable row.
proof fn lemma_child_rows_are_variables(
    group: Seq<char>,
    children: Seq<Seq<char>>,
    vars: Seq<(Seq<char>, Seq<Seq<char>>)>,
)
    ensures
        forall|k: int|
            0 <= k < child_rows(group, children, vars).len() ==> #[trigger] child_rows(
                group,
                children,
                vars,
            )[k].2 is Variable,
    decreases children.len(),
{
    if children.len() > 0 {
        lemma_child_rows_are_variables(group, children.drop_last(), vars);
    }
}

/// The rows only depend on which of the groups' own paths are expanded.
proof fn lemma_tree_rows_depend_on_group_paths(
    groups: Seq<(Seq<char>, Seq<Seq<char>>)>,
    vars: Seq<(Seq<char>, Seq<Seq<char>>)>,
    e1: Set<Seq<char>>,
    e2: Set<Seq<char>>,
)
    requires
        forall|i: int|
            0 <= i < groups.len() ==> e1.contains(group_path(#[trigger] groups[i].0)) == e2.contains(
                group_path(groups[i].0),
            ),
    ensures
        tree_rows(groups, vars, e1) == tree_rows(groups, vars, e2),
    decreases groups.len(),
{
    if groups.len() > 0 {
        let prefix = groups.drop_last();
        assert forall|i: int| 0 <= i < prefix.len() implies e1.contains(
            group_path(#[trigger] prefix[i].0),
        ) == e2.contains(group_path(prefix[i].0)) by {
            assert(prefix[i] == groups[i]);
        }
        lemma_tree_rows_depend_on_group_paths(prefix, vars, e1, e2);
        assert(groups.last() == groups[groups.len() - 1]);
    }
}

/// Law: with no group expanded, the rows are exactly the group headers, one
/// per group, in group order, each unindented, collapsed and at path
/// `/name`.
pub proof fn lemma_collapsed_rows(
    groups: Seq<(Seq<char>, Seq<Seq<char>>)>,
    vars: Seq<(Seq<char>, Seq<Seq<char>>)>,
    exp: Set<Seq<char>>,
)
    requires
        forall|i: int| 0 <= i < groups.len() ==> !exp.contains(group_path(#[trigger] groups[i].0)),
    ensures
        tree_rows(groups, vars, exp).len() == groups.len(),
        forall|k: int|
            0 <= k < groups.len() ==> #[trigger] tree_rows(groups, vars, exp)[k] == (
                groups[k].0,
                seq!['/'] + groups[k].0,
                RowKind::Group { expanded: false },
                0int,
            ),
    decreases groups.len(),
{
    if groups.len() > 0 {
        let prefix = groups.drop_last();
        assert forall|i: int| 0 <= i < prefix.len() implies !exp.contains(
            group_path(#[trigger] prefix[i].0),
        ) by {
            assert(prefix[i] == groups[i]);
        }
        lemma_collapsed_rows(prefix, vars, exp);
        assert(!exp.contains(group_path(groups[groups.len() - 1].0)));
        assert forall|k: int| 0 <= k < groups.len() implies #[trigger] tree_rows(groups, vars, exp)[k]
            == (groups[k].0, seq!['/'] + groups[k].0, RowKind::Group { expanded: false }, 0int) by {
            if k < prefix.len() {
                assert(prefix[k] == groups[k]);
            }
        }
    }
}

/// Law: toggling the group on the selected row twice restores the expanded
/// set (and hence every row): after the first toggle the selected row is
/// still that group's header, with the same path.
pub proof fn lemma_toggle_twice_restores(
    groups: Seq<(Seq<char>, Seq<Seq<char>>)>,
    vars: Seq<(Seq<char>, Seq<Seq<char>>)>,
    exp: Set<Seq<char>>,
    s: int,
)
    requires
        distinct_keys(groups),
        0 <= s < tree_rows(groups, vars, exp).len(),
        tree_rows(groups, vars, exp)[s].2 is Group,
    ensures
        ({
            let p = tree_rows(groups, vars, exp)[s].1;
            let rows1 = tree_rows(groups, vars, toggled(exp, p));
            &&& s < rows1.len()
            &&& rows1[s].2 is Group
            &&& rows1[s].1 == p
            &&& toggled(toggled(exp, p), p) == exp
        }),
    decreases groups.len(),
{
    let p = tree_rows(groups, vars, exp)[s].1;
    let exp1 = toggled(exp, p);
    assert(toggled(exp1, p) =~= exp);
    let prefix = groups.drop_last();
    let last = groups.last();
    let pre0 = tree_rows(prefix, vars, exp);
    let pre1 = tree_rows(prefix, vars, exp1);
    assert forall|i: int, j: int| 0 <= i < j < prefix.len() implies #[trigger] prefix[i].0
        != #[trigger] prefix[j].0 by {
        assert(prefix[i] == groups[i] && prefix[j] == groups[j]);
    }
    if s < pre0.len() {
        assert(tree_rows(groups, vars, exp)[s] == pre0[s]);
        lemma_toggle_twice_restores(prefix, vars, exp, s);
        assert(tree_rows(groups, vars, exp1)[s] == pre1[s]);
    } else {
        // The selected row lies in the last group's block: it is the header.
        let block = group_rows(last.0, last.1, vars, exp);
        assert(tree_rows(groups, vars, exp)[s] == block[s - pre0.len()]);
        lemma_child_rows_are_variables(last.0, last.1, vars);
        if s - pre0.len() > 0 {
            assert(block[s - pre0.len()] == child_rows(last.0, last.1, vars)[s - pre0.len() - 1]);
        }
        assert(s == pre0.len());
        assert(p == group_path(last.0));
        // No earlier group has that path, so the earlier rows are unchanged.
        assert forall|i: int| 0 <= i < prefix.len() implies exp.contains(
            group_path(#[trigger] prefix[i].0),
        ) == exp1.contains(group_path(prefix[i].0)) by {
            assert(prefix[i] == groups[i]);
            assert(groups[i].0 != groups[groups.len() - 1].0);
            assert(group_path(prefix[i].0).subrange(1, group_path(prefix[i].0).len() as int) =~= prefix[i].0);
            assert(p.subrange(1, p.len() as int) =~= last.0);
        }
        lemma_tree_rows_depend_on_group_paths(prefix, vars, exp, exp1);
        let block1 = group_rows(last.0, last.1, vars, exp1);
        assert(tree_rows(groups, vars, exp1)[s] == block1[0]);
    }
}

/// Left-panel tree navigator for variables and groups.
pub struct TreeNavigator {
    pub rows: Vec<Row>,
    pub selected: usize,
    /// Paths of the expanded groups.
    pub expanded: Vec<String>,
    groups: IndexMap<String, Vec<String>>,
    variables: IndexMap<String, Vec<String>>,
}

impl TreeNavigator {
    pub closed spec fn rows_model(&self) -> Seq<RowModel> {
        rows_view(self.rows@)
    }

    pub closed spec fn num_rows(&self) -> nat {
        self.rows@.len()
    }

    pub closed spec fn selected_index(&self) -> usize {
        self.selected
    }

    pub closed spec fn expanded_paths(&self) -> Seq<String> {
        self.expanded@
    }

    pub closed spec fn groups_view(&self) -> Seq<(Seq<char>, Seq<Seq<char>>)> {
        name_lists(self.groups)
    }

    pub closed spec fn vars_view(&self) -> Seq<(Seq<char>, Seq<Seq<char>>)> {
        name_lists(self.variables)
    }

    /// The rows shown are those of the groups and variables under the
    /// current expanded set, and no path is listed twice as expanded.
    pub open spec fn wf(&self) -> bool {
        &&& no_dup(self.expanded_paths())
        &&& self.rows_model() == tree_rows(
            self.groups_view(),
            self.vars_view(),
            path_set(self.expanded_paths()),
        )
    }

    /// Build a tree from group→children and variable→dims mappings; every
    /// group starts collapsed.
    pub fn new(groups: IndexMap<String, Vec<String>>, variables: IndexMap<String, Vec<String>>) -> (nav: Self)
        ensures
            nav.wf(),
            nav.groups_view() == name_lists(groups),
            nav.vars_view() == name_lists(variables),
            nav.expanded_paths().len() == 0,
            nav.selected_index() == 0,
    {
        let mut nav = Self {
            rows: Vec::new(),
            selected: 0,
            expanded: Vec::new(),
            groups,
            variables,
        };
        nav.rebuild_rows();
        nav
    }

    /// Whether `path` is listed as expanded.
    fn is_expanded(&self, path: &String) -> (r: Option<usize>)
        ensures
            r is None <==> !path_set(self.expanded@).contains(path@),
            r matches Some(i) ==> i < self.expanded@.len() && self.expanded@[i as int]@ == path@,
    {
        let n = self.expanded.len();
        for i in 0..n
            invariant
                n == self.expanded@.len(),
                forall|k: int| 0 <= k < i ==> #[trigger] self.expanded@[k]@ != path@,
        {
            if self.expanded[i] == *path {
                return Some(i);
            }
        }
        assert(!path_set(self.expanded@).contains(path@));
        None
    }

    /// Rebuild the flat visible-row list from the expanded set, keeping the
    /// selection on a row.
    pub fn rebuild_rows(&mut self)
        ensures
            final(self).rows_model() == tree_rows(
                final(self).groups_view(),
                final(self).vars_view(),
                path_set(old(self).expanded_paths()),
            ),
            final(self).expanded_paths() == old(self).expanded_paths(),
            final(self).groups_view() == old(self).groups_view(),
            final(self).vars_view() == old(self).vars_view(),
            final(self).selected_index() == clamp_selection(
                old(self).selected_index(),
                final(self).num_rows(),
            ),
    {
        let ghost groups = name_lists(self.groups);
        let ghost vars = name_lists(self.variables);
        let ghost exp = path_set(self.expanded@);
        let mut rows: Vec<Row> = Vec::new();
        let ng = map_len(&self.groups);
        let mut gi: usize = 0;
        while gi < ng
            invariant
                ng == groups.len(),
                groups == name_lists(self.groups),
                vars == name_lists(self.variables),
                exp == path_set(self.expanded@),
                gi <= ng,
                rows_view(rows@) == tree_rows(groups.take(gi as int), vars, exp),
            decreases ng - gi,
        {
            assert(groups.take(gi + 1).drop_last() =~= groups.take(gi as int));
            match map_entry(&self.groups, gi) {
                Some((name, children)) => {
                    let mut path = String::new();
                    push_char(&mut path, '/');
                    push_str(&mut path, name.as_str());
                    assert(path@ =~= group_path(name@));
                    let open = self.is_expanded(&path).is_some();
                    let ghost before = rows_view(rows@);
                    rows.push(
                        Row {
                            label: name.clone(),
                            path,
                            kind: RowKind::Group { expanded: open },
                            indent: 0,
                        },
                    );
                    assert(rows_view(rows@) =~= before + seq![
                        (name@, group_path(name@), RowKind::Group { expanded: open }, 0int),
                    ]);
                    if open {
                        self.push_child_rows(&mut rows, name, children);
                    }
                    proof {
                        assert(groups.take(gi + 1).last() == groups[gi as int]);
                        if open {
                            assert(rows_view(rows@) =~= before + group_rows(
                                name@,
                                children.deep_view(),
                                vars,
                                exp,
                            ));
                        } else {
                            assert(rows_view(rows@) =~= before + group_rows(
                                name@,
                                children.deep_view(),
                                vars,
                                exp,
                            ));
                        }
                    }
                },
                None => {},
            }
            gi = gi + 1;
        }
        assert(groups.take(ng as int) =~= groups);
        self.rows = rows;
        // Clamp selection
        if self.rows.len() > 0 && self.selected >= self.rows.len() {
            self.selected = self.rows.len() - 1;
        }
    }

    /// Append the rows of the known variables among `children` of `group`.
    fn push_child_rows(&self, rows: &mut Vec<Row>, group: &String, children: &Vec<String>)
        ensures
            rows_view(final(rows)@) == rows_view(old(rows)@) + child_rows(
                group@,
                children.deep_view(),
                name_lists(self.variables),
            ),
    {
        let ghost vars = name_lists(self.variables);
        let ghost start = rows_view(rows@);
        let nc = children.len();
        let mut ci: usize = 0;
        while ci < nc
            invariant
                nc == children@.len(),
                vars == name_lists(self.variables),
                ci <= nc,
                rows_view(rows@) == start + child_rows(
                    group@,
                    children.deep_view().take(ci as int),
                    vars,
                ),
            decreases nc - ci,
        {
            let ghost kids = children.deep_view();
            assert(kids.take(ci + 1).drop_last() =~= kids.take(ci as int));
            assert(kids.take(ci + 1).last() == children@[ci as int]@);
            let child = &children[ci];
            match map_get(&self.variables, child) {
                Some(dims) => {
                    let is_coord = dims.len() == 1 && dims[0] == *child;
                    let mut path = String::new();
                    push_char(&mut path, '/');
                    push_str(&mut path, group.as_str());
                    push_char(&mut path, '/');
                    push_str(&mut path, child.as_str());
                    assert(path@ =~= var_path(group@, child@));
                    proof {
                        if is_coord {
                            assert(dims.deep_view()[0] == dims@[0]@);
                        } else if dims.deep_view().len() == 1 {
                            assert(dims.deep_view()[0] == dims@[0]@);
                        }
                    }
                    let ghost before = rows_view(rows@);
                    rows.push(
                        Row {
                            label: child.clone(),
                            path,
                            kind: RowKind::Variable { is_coord },
                            indent: 1,
                        },
                    );
                    assert(rows_view(rows@) =~= before.push(
                        (
                            child@,
                            var_path(group@, child@),
                            RowKind::Variable { is_coord: is_coord_dims(child@, dims.deep_view()) },
                            1int,
                        ),
                    ));
                },
                None => {},
            }
            ci = ci + 1;
        }
        assert(children.deep_view().take(nc as int) =~= children.deep_view());
    }

    /// Toggle expand/collapse on the selected row if it is a group.
    pub fn toggle_expand(&mut self)
        requires
            no_dup(old(self).expanded_paths()),
        ensures
            no_dup(final(self).expanded_paths()),
            final(self).groups_view() == old(self).groups_view(),
            final(self).vars_view() == old(self).vars_view(),
            (old(self).selected_index() < old(self).num_rows() && old(
                self,
            ).rows_model()[old(self).selected_index() as int].2 is Group) ==> {
                let p = old(self).rows_model()[old(self).selected_index() as int].1;
                let exp = path_set(old(self).expanded_paths());
                let new_exp = if exp.contains(p) {
                    exp.remove(p)
                } else {
                    exp.insert(p)
                };
                &&& path_set(final(self).expanded_paths()) == new_exp
                &&& final(self).wf()
                &&& final(self).selected_index() == clamp_selection(
                    old(self).selected_index(),
                    final(self).num_rows(),
                )
            },
            !(old(self).selected_index() < old(self).num_rows() && old(
                self,
            ).rows_model()[old(self).selected_index() as int].2 is Group) ==> *final(self) == *old(
                self,
            ),
    {
        if self.selected < self.rows.len() {
            let is_group = match self.rows[self.selected].kind {
                RowKind::Group { .. } => true,
                _ => false,
            };
            if is_group {
                let path = self.rows[self.selected].path.clone();
                let ghost exp = path_set(self.expanded@);
                match self.is_expanded(&path) {
                    Some(i) => {
                        let ghost before = self.expanded@;
                        self.expanded.remove(i);
                        proof {
                            assert(path_set(self.expanded@) =~= exp.remove(path@)) by {
                                assert forall|q: Seq<char>| #[trigger] path_set(self.expanded@).contains(q)
                                    <==> exp.remove(path@).contains(q) by {
                                    if path_set(self.expanded@).contains(q) {
                                        let k = choose|k: int| 0 <= k < self.expanded@.len() && #[trigger] self.expanded@[k]@ == q;
                                        if k < i {
                                            assert(before[k] == self.expanded@[k]);
                                            assert(before[k]@ != before[i as int]@);
                                        } else {
                                            assert(before[k + 1] == self.expanded@[k]);
                                            assert(before[k + 1]@ != before[i as int]@);
                                        }
                                    }
                                    if exp.remove(path@).contains(q) {
                                        let k = choose|k: int| 0 <= k < before.len() && #[trigger] before[k]@ == q;
                                        assert(k != i);
                                        if k < i {
                                            assert(self.expanded@[k] == before[k]);
                                        } else {
                                            assert(self.expanded@[k - 1] == before[k]);
                                        }
                                    }
                                }
                            }
                            assert forall|a: int, b: int| 0 <= a < b < self.expanded@.len() implies #[trigger] self.expanded@[a]@
                                != #[trigger] self.expanded@[b]@ by {
                                let a0 = if a < i { a } else { a + 1 };
                                let b0 = if b < i { b } else { b + 1 };
                                assert(self.expanded@[a] == before[a0]);
                                assert(self.expanded@[b] == before[b0]);
                            }
                        }
                    },
                    None => {
                        let ghost before = self.expanded@;
                        let ghost pv = path@;
                        self.expanded.push(path);
                        proof {
                            assert(path_set(self.expanded@) =~= exp.insert(pv)) by {
                                assert forall|q: Seq<char>| #[trigger] path_set(self.expanded@).contains(q)
                                    <==> exp.insert(pv).contains(q) by {
                                    if path_set(self.expanded@).contains(q) {
                                        let k = choose|k: int| 0 <= k < self.expanded@.len() && #[trigger] self.expanded@[k]@ == q;
                                        if k < before.len() {
                                            assert(before[k] == self.expanded@[k]);
                                        }
                                    }
                                    if exp.insert(pv).contains(q) {
                                        if q == pv {
                                            assert(self.expanded@[before.len() as int]@ == q);
                                        } else {
                                            let k = choose|k: int| 0 <= k < before.len() && #[trigger] before[k]@ == q;
                                            assert(self.expanded@[k] == before[k]);
                                        }
                                    }
                                }
                            }
                            assert forall|a: int, b: int| 0 <= a < b < self.expanded@.len() implies #[trigger] self.expanded@[a]@
                                != #[trigger] self.expanded@[b]@ by {
                                assert(self.expanded@[a] == before[a] || a == before.len());
                                if b == before.len() {
                                    assert(self.expanded@[a] == before[a]);
                                    assert(exp.contains(before[a]@));
                                }
                            }
                        }
                    },
                }
                self.rebuild_rows();
            }
        }
    }

    /// Move selection down (stays on the last row).
    pub fn move_down(&mut self)
        ensures
            final(self).selected_index() == (if old(self).selected_index() + 1 < old(self).num_rows() {
                (old(self).selected_index() + 1) as usize
            } else {
                old(self).selected_index()
            }),
            final(self).rows_model() == old(self).rows_model(),
            final(self).num_rows() == old(self).num_rows(),
            final(self).expanded_paths() == old(self).expanded_paths(),
            final(self).groups_view() == old(self).groups_view(),
            final(self).vars_view() == old(self).vars_view(),
    {
        let n = self.rows.len();
        if n > 0 && self.selected < n - 1 {
            self.selected = self.selected + 1;
        }
    }

    /// Move selection up (stays on the first row).
    pub fn move_up(&mut self)
        ensures
            final(self).selected_index() == (if old(self).selected_index() > 0 {
                (old(self).selected_index() - 1) as usize
            } else {
                0
            }),
            final(self).rows_model() == old(self).rows_model(),
            final(self).num_rows() == old(self).num_rows(),
            final(self).expanded_paths() == old(self).expanded_paths(),
            final(self).groups_view() == old(self).groups_view(),
            final(self).vars_view() == old(self).vars_view(),
    {
        if self.selected > 0 {
            self.selected = self.selected - 1;
        }
    }

    /// Jump to first row.
    pub fn jump_top(&mut self)
        ensures
            final(self).selected_index() == 0,
            final(self).rows_model() == old(self).rows_model(),
            final(self).num_rows() == old(self).num_rows(),
            final(self).expanded_paths() == old(self).expanded_paths(),
            final(self).groups_view() == old(self).groups_view(),
            final(self).vars_view() == old(self).vars_view(),
    {
        self.selected = 0;
    }

    /// The visible rows, as held in `rows`.
    pub fn visible_rows(&self) -> (r: &Vec<Row>)
        ensures
            rows_view(r@) == self.rows_model(),
            r@.len() == self.num_rows(),
    {
        &self.rows
    }

    /// The selected row index, as held in `selected`.
    pub fn selection(&self) -> (r: usize)
        ensures
            r == self.selected_index(),
    {
        self.selected
    }

    /// The expanded group paths, as held in `expanded`.
    pub fn expanded_list(&self) -> (r: &Vec<String>)
        ensures
            r@ == self.expanded_paths(),
    {
        &self.expanded
    }

    /// The row under the selection, if the selection is on a row.
    pub fn selected_row(&self) -> (r: Option<&Row>)
        ensures
            r is None <==> self.selected_index() >= self.rows_model().len(),
            r matches Some(row) ==> row_view(*row) == self.rows_model()[self.selected_index() as int],
    {
        if self.selected < self.rows.len() {
            Some(&self.rows[self.selected])
        } else {
            None
        }
    }

    /// Jump to last row (no change when there are no rows).
    pub fn jump_bottom(&mut self)
        ensures
            final(self).selected_index() == (if old(self).num_rows() > 0 {
                (old(self).num_rows() - 1) as usize
            } else {
                old(self).selected_index()
            }),
            final(self).rows_model() == old(self).rows_model(),
            final(self).num_rows() == old(self).num_rows(),
            final(self).expanded_paths() == old(self).expanded_paths(),
            final(self).groups_view() == old(self).groups_view(),
            final(self).vars_view() == old(self).vars_view(),
    {
        if self.rows.len() > 0 {
            self.selected = self.rows.len() - 1;
        }
    }
}

} // verus!
