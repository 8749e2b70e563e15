//! The structure of an opened dataset (groups, variables, their dimensions,
//! coordinate variables) and the rules that derive from it: the search
//! catalog, variable paths, and which paths hold coordinate data.
use vstd::prelude::*;

use indexmap::IndexMap;

use crate::ordered_map::{
    has_key, insert_entry, key_index, lookup, map_entry, map_len, meta_entries, meta_entry, meta_get,
    meta_len, meta_lookup, meta_map_insert, name_lists, name_map_insert, new_meta_map,
    new_name_map, new_pair_map, pair_contains_key, pair_entries, pair_map_insert,
};
use crate::search::VarInfo;
use crate::tree::is_coord_dims;
use crate::text::{chars_of, push_char, push_chars, push_str};

verus! {

/// Metadata about a single variable as needed by the viewer.
#[derive(Debug, Clone)]
pub struct VarMeta {
    pub name: String,
    pub dim_names: Vec<String>,
    pub dim_sizes: Vec<usize>,
}

/// Everything the viewer needs from a NetCDF / HDF5 file.
#[derive(Debug)]
pub struct DatasetInfo {
    /// Group name → ordered list of variable names contained in it.
    pub groups: IndexMap<String, Vec<String>>,
    /// Variable name → ordered list of dimension names.
    pub variables: IndexMap<String, Vec<String>>,
    /// Variable name → full metadata (dims + sizes).
    pub var_meta: IndexMap<String, VarMeta>,
    /// Coordinate variables: dimension name → variable name.
    pub coord_vars: IndexMap<String, String>,
}

// ---------------------------------------------------------------------------
// Specifications
// ---------------------------------------------------------------------------
/// `names` lists `x`.
pub open spec fn lists(names: Seq<Seq<char>>, x: Seq<char>) -> bool {
    exists|i: int| 0 <= i < names.len() && #[trigger] names[i] == x
}

/// `i` is the first group whose variable list holds `var`.
pub open spec fn is_first_group_of(groups: Seq<(Seq<char>, Seq<Seq<char>>)>, var: Seq<char>, i: int) -> bool {
    &&& 0 <= i < groups.len()
    &&& lists(groups[i].1, var)
    &&& forall|j: int| 0 <= j < i ==> !lists(#[trigger] groups[j].1, var)
}

/// No group's variable list holds `var`.
pub open spec fn in_no_group(groups: Seq<(Seq<char>, Seq<Seq<char>>)>, var: Seq<char>) -> bool {
    forall|j: int| 0 <= j < groups.len() ==> !lists(#[trigger] groups[j].1, var)
}

/// The group reported for a variable: the first group listing it, or the
/// root `/`.
pub open spec fn group_of(groups: Seq<(Seq<char>, Seq<Seq<char>>)>, var: Seq<char>) -> Seq<char> {
    if exists|i: int| is_first_group_of(groups, var, i) {
        groups[choose|i: int| is_first_group_of(groups, var, i)].0
    } else {
        seq!['/']
    }
}

/// The path of variable `var` inside group `group`: `/var` at the root
/// group `/`, `/group/var` elsewhere.
pub open spec fn path_in_group(group: Seq<char>, var: Seq<char>) -> Seq<char> {
    if group == seq!['/'] {
        seq!['/'] + var
    } else {
        seq!['/'] + group + seq!['/'] + var
    }
}

/// A variable is a coordinate variable when it has exactly one dimension
/// named like itself.
pub open spec fn is_coordinate_spec(name: Seq<char>, dim_names: Seq<String>) -> bool {
    dim_names.len() == 1 && dim_names[0]@ == name
}

/// The catalog entry for metadata entry `(name, meta)`.
pub open spec fn catalog_entry_matches(
    v: VarInfo,
    name: Seq<char>,
    meta: VarMeta,
    groups: Seq<(Seq<char>, Seq<Seq<char>>)>,
    coords: Seq<(Seq<char>, Seq<char>)>,
) -> bool {
    &&& v.name@ == name
    &&& v.group@ == group_of(groups, name)
    &&& v.dim_names@.map_values(|s: String| s@) == meta.dim_names@.map_values(|s: String| s@)
    &&& v.dim_sizes@ == meta.dim_sizes@
    &&& v.is_coord == has_key(coords, name)
}

/// The paths under which a coordinate variable for dimension `dim` can be
/// read: none unless `dim` is a known coordinate variable with metadata;
/// otherwise one per group listing it, in group order.
pub open spec fn coord_paths_spec(
    groups: Seq<(Seq<char>, Seq<Seq<char>>)>,
    metas: Seq<(Seq<char>, VarMeta)>,
    coords: Seq<(Seq<char>, Seq<char>)>,
    dim: Seq<char>,
) -> Seq<Seq<char>> {
    if !has_key(coords, dim) || meta_lookup(metas, dim) is None {
        Seq::empty()
    } else {
        paths_listing(groups, dim)
    }
}

/// `path_in_group(g, var)` for each group `g` whose list holds `var`, in
/// order.
pub open spec fn paths_listing(groups: Seq<(Seq<char>, Seq<Seq<char>>)>, var: Seq<char>) -> Seq<Seq<char>>
    decreases groups.len(),
{
    if groups.len() == 0 {
        Seq::empty()
    } else {
        let prev = paths_listing(groups.drop_last(), var);
        if lists(groups.last().1, var) {
            prev.push(path_in_group(groups.last().0, var))
        } else {
            prev
        }
    }
}

// ---------------------------------------------------------------------------
// Operations
// ---------------------------------------------------------------------------
/// Whether `names` lists `x`.
pub fn lists_exec(names: &Vec<String>, x: &String) -> (r: bool)
    ensures
        r == lists(names.deep_view(), x@),
{
    let n = names.len();
    for i in 0..n
        invariant
            n == names@.len(),
            forall|k: int| 0 <= k < i ==> #[trigger] names@[k]@ != x@,
    {
        if names[i] == *x {
            assert(names.deep_view()[i as int] == x@);
            return true;
        }
    }
    assert forall|k: int| 0 <= k < names.deep_view().len() implies #[trigger] names.deep_view()[k] != x@ by {
        assert(names.deep_view()[k] == names@[k]@);
    }
    false
}

/// A copy of a list of strings.
pub fn clone_strings(v: &Vec<String>) -> (out: Vec<String>)
    ensures
        out@.map_values(|s: String| s@) == v@.map_values(|s: String| s@),
        out.deep_view() == v.deep_view(),
{
    let n = v.len();
    let mut out: Vec<String> = Vec::new();
    for i in 0..n
        invariant
            n == v@.len(),
            out@.len() == i,
            forall|k: int| 0 <= k < i ==> #[trigger] out@[k]@ == v@[k]@,
    {
        out.push(v[i].clone());
    }
    assert(out@.map_values(|s: String| s@) =~= v@.map_values(|s: String| s@));
    assert(out.deep_view() =~= v.deep_view());
    out
}

/// A copy of a list of sizes.
pub fn clone_sizes(v: &Vec<usize>) -> (out: Vec<usize>)
    ensures
        out@ == v@,
{
    let n = v.len();
    let mut out: Vec<usize> = Vec::new();
    for i in 0..n
        invariant
            n == v@.len(),
            out@ == v@.take(i as int),
    {
        out.push(v[i]);
        assert(v@.take(i + 1) =~= v@.take(i as int).push(v@[i as int]));
    }
    assert(v@.take(n as int) =~= v@);
    out
}

/// Position of the first group whose list holds `var`.
pub fn first_group_of(groups: &IndexMap<String, Vec<String>>, var: &String) -> (r: Option<usize>)
    ensures
        r matches Some(i) ==> is_first_group_of(name_lists(*groups), var@, i as int),
        r is None ==> in_no_group(name_lists(*groups), var@),
{
    let ghost gs = name_lists(*groups);
    let n = map_len(groups);
    let mut i: usize = 0;
    while i < n
        invariant
            n == gs.len(),
            gs == name_lists(*groups),
            i <= n,
            forall|j: int| 0 <= j < i ==> !lists(#[trigger] gs[j].1, var@),
        decreases n - i,
    {
        match map_entry(groups, i) {
            Some((_name, vars)) => {
                if lists_exec(vars, var) {
                    return Some(i);
                }
            },
            None => {},
        }
        i = i + 1;
    }
    None
}

/// `is_first_group_of` picks out one position.
proof fn lemma_first_group_unique(groups: Seq<(Seq<char>, Seq<Seq<char>>)>, var: Seq<char>, i: int, j: int)
    requires
        is_first_group_of(groups, var, i),
        is_first_group_of(groups, var, j),
    ensures
        i == j,
{
    if i < j {
        assert(!lists(groups[i].1, var));
    }
    if j < i {
        assert(!lists(groups[j].1, var));
    }
}

/// Law: a variable is reported in the first group whose list holds it
/// (a later group listing it too does not count), and in the root group
/// `/` when no group lists it.
pub proof fn lemma_group_of_first(groups: Seq<(Seq<char>, Seq<Seq<char>>)>, var: Seq<char>, i: int)
    ensures
        0 <= i < groups.len() && lists(groups[i].1, var) && (forall|j: int|
            0 <= j < i ==> !lists(#[trigger] groups[j].1, var)) ==> group_of(groups, var)
            == groups[i].0,
        (forall|j: int| 0 <= j < groups.len() ==> !lists(#[trigger] groups[j].1, var)) ==> group_of(
            groups,
            var,
        ) == seq!['/'],
{
    if 0 <= i < groups.len() && lists(groups[i].1, var) && (forall|j: int|
        0 <= j < i ==> !lists(#[trigger] groups[j].1, var)) {
        assert(is_first_group_of(groups, var, i));
        let c = choose|c: int| is_first_group_of(groups, var, c);
        lemma_first_group_unique(groups, var, i, c);
    }
}

/// The group reported for `var`: the first group listing it, or `/`.
pub fn group_name_of(groups: &IndexMap<String, Vec<String>>, var: &String) -> (g: String)
    ensures
        g@ == group_of(name_lists(*groups), var@),
{
    match first_group_of(groups, var) {
        Some(i) => {
            proof {
                let k = choose|k: int| is_first_group_of(name_lists(*groups), var@, k);
                lemma_first_group_unique(name_lists(*groups), var@, i as int, k);
            }
            match map_entry(groups, i) {
                Some((name, _vars)) => name.clone(),
                None => String::new(),
            }
        },
        None => {
            let mut g = String::new();
            push_char(&mut g, '/');
            assert(g@ =~= seq!['/']);
            g
        },
    }
}

/// The path of `var` inside `group`.
pub fn path_in_group_exec(group: &String, var: &String) -> (p: String)
    ensures
        p@ == path_in_group(group@, var@),
{
    let gc = chars_of(group.as_str());
    let is_root = gc.len() == 1 && gc[0] == '/';
    let mut p = String::new();
    push_char(&mut p, '/');
    if is_root {
        assert(group@ =~= seq!['/']);
    } else {
        assert(group@ != seq!['/']) by {
            if group@ == seq!['/'] {
                assert(gc@.len() == 1 && gc@[0] == '/');
            }
        }
        push_str(&mut p, group.as_str());
        push_char(&mut p, '/');
    }
    push_str(&mut p, var.as_str());
    if is_root {
        assert(p@ =~= seq!['/'] + var@);
    } else {
        assert(p@ =~= seq!['/'] + group@ + seq!['/'] + var@);
    }
    p
}

/// The path of a variable: inside the first group listing it, or at the
/// root when no group lists it.
pub fn var_path_of(groups: &IndexMap<String, Vec<String>>, var: &String) -> (p: String)
    ensures
        p@ == (if in_no_group(name_lists(*groups), var@) {
            seq!['/'] + var@
        } else {
            path_in_group(group_of(name_lists(*groups), var@), var@)
        }),
{
    match first_group_of(groups, var) {
        Some(_i) => {
            let g = group_name_of(groups, var);
            proof {
                assert(!in_no_group(name_lists(*groups), var@));
            }
            path_in_group_exec(&g, var)
        },
        None => {
            let mut p = String::new();
            push_char(&mut p, '/');
            push_str(&mut p, var.as_str());
            assert(p@ =~= seq!['/'] + var@);
            p
        },
    }
}

/// Whether a variable with these dimensions is a coordinate variable.
pub fn is_coordinate_variable(name: &String, dim_names: &Vec<String>) -> (r: bool)
    ensures
        r == is_coordinate_spec(name@, dim_names@),
{
    dim_names.len() == 1 && dim_names[0] == *name
}

/// The search catalog of a dataset: one entry per variable with metadata,
/// in metadata order.
pub fn catalog_of(info: &DatasetInfo) -> (cat: Vec<VarInfo>)
    ensures
        cat@.len() == meta_entries(info.var_meta).len(),
        forall|i: int|
            0 <= i < cat@.len() ==> catalog_entry_matches(
                #[trigger] cat@[i],
                meta_entries(info.var_meta)[i].0,
                meta_entries(info.var_meta)[i].1,
                name_lists(info.groups),
                pair_entries(info.coord_vars),
            ),
{
    let ghost metas = meta_entries(info.var_meta);
    let n = meta_len(&info.var_meta);
    let mut cat: Vec<VarInfo> = Vec::new();
    let mut i: usize = 0;
    while i < n
        invariant
            n == metas.len(),
            metas == meta_entries(info.var_meta),
            i <= n,
            cat@.len() == i,
            forall|k: int|
                0 <= k < i ==> catalog_entry_matches(
                    #[trigger] cat@[k],
                    metas[k].0,
                    metas[k].1,
                    name_lists(info.groups),
                    pair_entries(info.coord_vars),
                ),
        decreases n - i,
    {
        match meta_entry(&info.var_meta, i) {
            Some((name, meta)) => {
                let group = group_name_of(&info.groups, name);
                let v = VarInfo {
                    name: name.clone(),
                    group,
                    dim_names: clone_strings(&meta.dim_names),
                    dim_sizes: clone_sizes(&meta.dim_sizes),
                    is_coord: pair_contains_key(&info.coord_vars, name),
                };
                cat.push(v);
            },
            None => {},
        }
        i = i + 1;
    }
    cat
}

/// The paths under which coordinate data for dimension `dim` may be read,
/// in the order to try them.
pub fn coord_var_paths(info: &DatasetInfo, dim: &String) -> (paths: Vec<String>)
    ensures
        paths@.map_values(|p: String| p@) == coord_paths_spec(
            name_lists(info.groups),
            meta_entries(info.var_meta),
            pair_entries(info.coord_vars),
            dim@,
        ),
{
    let mut paths: Vec<String> = Vec::new();
    if !pair_contains_key(&info.coord_vars, dim) {
        assert(paths@.map_values(|p: String| p@) =~= Seq::<Seq<char>>::empty());
        return paths;
    }
    match meta_get(&info.var_meta, dim) {
        None => {
            assert(paths@.map_values(|p: String| p@) =~= Seq::<Seq<char>>::empty());
            return paths;
        },
        Some(_meta) => {},
    }
    let ghost gs = name_lists(info.groups);
    let n = map_len(&info.groups);
    let mut i: usize = 0;
    assert(gs.take(0) =~= Seq::<(Seq<char>, Seq<Seq<char>>)>::empty());
    while i < n
        invariant
            n == gs.len(),
            gs == name_lists(info.groups),
            i <= n,
            paths@.map_values(|p: String| p@) == paths_listing(gs.take(i as int), dim@),
        decreases n - i,
    {
        assert(gs.take(i + 1).drop_last() =~= gs.take(i as int));
        assert(gs.take(i + 1).last() == gs[i as int]);
        match map_entry(&info.groups, i) {
            Some((gname, vars)) => {
                if lists_exec(vars, dim) {
                    let p = path_in_group_exec(gname, dim);
                    let ghost before = paths@.map_values(|p: String| p@);
                    paths.push(p);
                    assert(paths@.map_values(|p: String| p@) =~= before.push(
                        path_in_group(gname@, dim@),
                    ));
                }
            },
            None => {},
        }
        i = i + 1;
    }
    assert(gs.take(n as int) =~= gs);
    paths
}

// ---------------------------------------------------------------------------
// Building the dataset description
// ---------------------------------------------------------------------------
/// A group as listed in a file: its name and its variables, in file order.
#[derive(Debug, Clone)]
pub struct GroupListing {
    pub name: String,
    pub vars: Vec<VarMeta>,
}

/// Metadata taken by its characters: name, dimension names, sizes.
pub type MetaView = (Seq<char>, Seq<Seq<char>>, Seq<usize>);

pub open spec fn meta_view(m: VarMeta) -> MetaView {
    (m.name@, m.dim_names.deep_view(), m.dim_sizes@)
}

/// The entries of a name → metadata map, each metadata taken by its view.
pub open spec fn meta_views(entries: Seq<(Seq<char>, VarMeta)>) -> Seq<(Seq<char>, MetaView)> {
    entries.map_values(|e: (Seq<char>, VarMeta)| (e.0, meta_view(e.1)))
}

/// The names of listed variables.
pub open spec fn listing_names(vars: Seq<VarMeta>) -> Seq<Seq<char>> {
    vars.map_values(|v: VarMeta| v.name@)
}

/// Every listed variable, root variables first, then each group's in
/// group order.
pub open spec fn all_listed(root: Seq<VarMeta>, groups: Seq<GroupListing>) -> Seq<VarMeta>
    decreases groups.len(),
{
    if groups.len() == 0 {
        root
    } else {
        all_listed(root, groups.drop_last()) + groups.last().vars@
    }
}

/// Group → variable names: the root variables under `/` when there are
/// any, then each group with variables, inserted in order.
pub open spec fn groups_built(root: Seq<VarMeta>, groups: Seq<GroupListing>) -> Seq<
    (Seq<char>, Seq<Seq<char>>),
>
    decreases groups.len(),
{
    if groups.len() == 0 {
        if root.len() > 0 {
            seq![(seq!['/'], listing_names(root))]
        } else {
            Seq::empty()
        }
    } else {
        let prev = groups_built(root, groups.drop_last());
        let g = groups.last();
        if g.vars@.len() > 0 {
            insert_entry(prev, g.name@, listing_names(g.vars@))
        } else {
            prev
        }
    }
}

/// Variable → dimension names, inserted variable by variable.
pub open spec fn dims_built(ls: Seq<VarMeta>) -> Seq<(Seq<char>, Seq<Seq<char>>)>
    decreases ls.len(),
{
    if ls.len() == 0 {
        Seq::empty()
    } else {
        insert_entry(dims_built(ls.drop_last()), ls.last().name@, ls.last().dim_names.deep_view())
    }
}

/// Variable → metadata, inserted variable by variable.
pub open spec fn metas_built(ls: Seq<VarMeta>) -> Seq<(Seq<char>, MetaView)>
    decreases ls.len(),
{
    if ls.len() == 0 {
        Seq::empty()
    } else {
        insert_entry(metas_built(ls.drop_last()), ls.last().name@, meta_view(ls.last()))
    }
}

/// Coordinate variable → itself, for each listed coordinate variable.
pub open spec fn coords_built(ls: Seq<VarMeta>) -> Seq<(Seq<char>, Seq<char>)>
    decreases ls.len(),
{
    if ls.len() == 0 {
        Seq::empty()
    } else {
        let prev = coords_built(ls.drop_last());
        let l = ls.last();
        if is_coordinate_spec(l.name@, l.dim_names@) {
            insert_entry(prev, l.name@, l.name@)
        } else {
            prev
        }
    }
}

/// Mapping the values of entries keeps the position of each key.
proof fn lemma_key_index_map<V, W>(entries: Seq<(Seq<char>, V)>, f: spec_fn(V) -> W, key: Seq<char>)
    ensures
        key_index(entries.map_values(|e: (Seq<char>, V)| (e.0, f(e.1))), key) == key_index(
            entries,
            key,
        ),
        key_index(entries, key) matches Some(i) ==> 0 <= i < entries.len() && entries[i].0 == key,
    decreases entries.len(),
{
    let mapped = entries.map_values(|e: (Seq<char>, V)| (e.0, f(e.1)));
    if entries.len() > 0 {
        assert(mapped.drop_first() =~= entries.drop_first().map_values(
            |e: (Seq<char>, V)| (e.0, f(e.1)),
        ));
        lemma_key_index_map(entries.drop_first(), f, key);
    }
}

/// Inserting into a metadata map and then taking views is taking views
/// and then inserting the view.
proof fn lemma_meta_views_insert(entries: Seq<(Seq<char>, VarMeta)>, key: Seq<char>, v: VarMeta)
    ensures
        meta_views(insert_entry(entries, key, v)) == insert_entry(
            meta_views(entries),
            key,
            meta_view(v),
        ),
{
    let f = |m: VarMeta| meta_view(m);
    lemma_key_index_map(entries, f, key);
    assert(meta_views(entries) =~= entries.map_values(|e: (Seq<char>, VarMeta)| (e.0, f(e.1))));
    assert(meta_views(insert_entry(entries, key, v)) =~= insert_entry(
        meta_views(entries),
        key,
        meta_view(v),
    ));
}

/// The names of a list of variables.
fn names_of(vars: &Vec<VarMeta>) -> (names: Vec<String>)
    ensures
        names.deep_view() == listing_names(vars@),
{
    let mut names: Vec<String> = Vec::new();
    let mut i: usize = 0;
    while i < vars.len()
        invariant
            i <= vars@.len(),
            names@.len() == i,
            forall|k: int| 0 <= k < i ==> #[trigger] names@[k]@ == vars@[k].name@,
        decreases vars@.len() - i,
    {
        names.push(vars[i].name.clone());
        i = i + 1;
    }
    assert(names.deep_view() =~= listing_names(vars@));
    names
}

/// Record one listed variable in the dimension, metadata and coordinate
/// maps.
fn add_var(
    dims: &mut IndexMap<String, Vec<String>>,
    metas: &mut IndexMap<String, VarMeta>,
    coords: &mut IndexMap<String, String>,
    l: &VarMeta,
)
    ensures
        name_lists(*final(dims)) == insert_entry(name_lists(*old(dims)), l.name@, l.dim_names.deep_view()),
        meta_views(meta_entries(*final(metas))) == insert_entry(
            meta_views(meta_entries(*old(metas))),
            l.name@,
            meta_view(*l),
        ),
        pair_entries(*final(coords)) == (if is_coordinate_spec(l.name@, l.dim_names@) {
            insert_entry(pair_entries(*old(coords)), l.name@, l.name@)
        } else {
            pair_entries(*old(coords))
        }),
{
    if is_coordinate_variable(&l.name, &l.dim_names) {
        pair_map_insert(coords, l.name.clone(), l.name.clone());
    }
    name_map_insert(dims, l.name.clone(), clone_strings(&l.dim_names));
    let ghost before = meta_entries(*metas);
    let m = VarMeta {
        name: l.name.clone(),
        dim_names: clone_strings(&l.dim_names),
        dim_sizes: clone_sizes(&l.dim_sizes),
    };
    meta_map_insert(metas, l.name.clone(), m);
    proof {
        lemma_meta_views_insert(before, l.name@, m);
        assert(meta_view(m) == meta_view(*l));
    }
}

/// The description of a dataset from its listing: the root variables and
/// the groups with their variables, each in file order. The root group is
/// named `/` and listed only when it has variables, as is a named group;
/// a variable listed twice keeps its first place with its last metadata.
pub fn build_info(root: &Vec<VarMeta>, groups: &Vec<GroupListing>) -> (info: DatasetInfo)
    ensures
        name_lists(info.groups) == groups_built(root@, groups@),
        name_lists(info.variables) == dims_built(all_listed(root@, groups@)),
        meta_views(meta_entries(info.var_meta)) == metas_built(all_listed(root@, groups@)),
        pair_entries(info.coord_vars) == coords_built(all_listed(root@, groups@)),
{
    let mut gmap = new_name_map();
    let mut dims = new_name_map();
    let mut metas = new_meta_map();
    let mut coords = new_pair_map();
    if root.len() > 0 {
        let mut slash = String::new();
        push_char(&mut slash, '/');
        name_map_insert(&mut gmap, slash, names_of(root));
        assert(insert_entry(Seq::<(Seq<char>, Seq<Seq<char>>)>::empty(), seq!['/'], listing_names(root@))
            =~= seq![(seq!['/'], listing_names(root@))]);
    }
    assert(meta_views(Seq::<(Seq<char>, VarMeta)>::empty()) =~= Seq::<(Seq<char>, MetaView)>::empty());
    assert(groups@.take(0) =~= Seq::<GroupListing>::empty());
    assert(name_lists(gmap) == groups_built(root@, groups@.take(0)));
    // Root variables.
    let mut i: usize = 0;
    assert(root@.take(0) =~= Seq::<VarMeta>::empty());
    while i < root.len()
        invariant
            i <= root@.len(),
            name_lists(dims) == dims_built(root@.take(i as int)),
            meta_views(meta_entries(metas)) == metas_built(root@.take(i as int)),
            pair_entries(coords) == coords_built(root@.take(i as int)),
        decreases root@.len() - i,
    {
        add_var(&mut dims, &mut metas, &mut coords, &root[i]);
        assert(root@.take(i + 1).drop_last() =~= root@.take(i as int));
        i = i + 1;
    }
    assert(root@.take(root@.len() as int) =~= root@);
    // Named groups.
    let mut gi: usize = 0;
    while gi < groups.len()
        invariant
            gi <= groups@.len(),
            name_lists(gmap) == groups_built(root@, groups@.take(gi as int)),
            name_lists(dims) == dims_built(all_listed(root@, groups@.take(gi as int))),
            meta_views(meta_entries(metas)) == metas_built(all_listed(root@, groups@.take(gi as int))),
            pair_entries(coords) == coords_built(all_listed(root@, groups@.take(gi as int))),
        decreases groups@.len() - gi,
    {
        let g = &groups[gi];
        assert(groups@.take(gi + 1).drop_last() =~= groups@.take(gi as int));
        if g.vars.len() > 0 {
            name_map_insert(&mut gmap, g.name.clone(), names_of(&g.vars));
        }
        let ghost done = all_listed(root@, groups@.take(gi as int));
        let mut vi: usize = 0;
        assert(done + g.vars@.take(0) =~= done);
        while vi < g.vars.len()
            invariant
                vi <= g.vars@.len(),
                name_lists(dims) == dims_built(done + g.vars@.take(vi as int)),
                meta_views(meta_entries(metas)) == metas_built(done + g.vars@.take(vi as int)),
                pair_entries(coords) == coords_built(done + g.vars@.take(vi as int)),
            decreases g.vars@.len() - vi,
        {
            add_var(&mut dims, &mut metas, &mut coords, &g.vars[vi]);
            assert((done + g.vars@.take(vi + 1)).drop_last() =~= done + g.vars@.take(vi as int));
            assert((done + g.vars@.take(vi + 1)).last() == g.vars@[vi as int]);
            vi = vi + 1;
        }
        assert(done + g.vars@.take(g.vars@.len() as int) =~= all_listed(root@, groups@.take(gi + 1)));
        gi = gi + 1;
    }
    assert(groups@.take(groups@.len() as int) =~= groups@);
    DatasetInfo { groups: gmap, variables: dims, var_meta: metas, coord_vars: coords }
}

/// No two listed variables share a name.
pub open spec fn distinct_names(ls: Seq<VarMeta>) -> bool {
    forall|i: int, j: int| 0 <= i < j < ls.len() ==> #[trigger] ls[i].name@ != #[trigger] ls[j].name@
}

/// `key_index` finds an entry with the key, and finds none only when no
/// entry has it.
proof fn lemma_key_index<V>(e: Seq<(Seq<char>, V)>, k: Seq<char>)
    ensures
        key_index(e, k) matches Some(i) ==> 0 <= i < e.len() && e[i].0 == k,
        key_index(e, k) is None <==> forall|i: int| 0 <= i < e.len() ==> #[trigger] e[i].0 != k,
    decreases e.len(),
{
    if e.len() > 0 {
        lemma_key_index(e.drop_first(), k);
        if e[0].0 != k {
            assert forall|i: int| 0 <= i < e.len() && #[trigger] e[i].0 == k implies i > 0
                && e.drop_first()[i - 1].0 == k by {}
        }
    }
}

/// Inserting a key adds it to the keys of a name → name map, and keeps the
/// others.
proof fn lemma_insert_has_key(e: Seq<(Seq<char>, Seq<char>)>, k: Seq<char>, v: Seq<char>, k2: Seq<char>)
    ensures
        has_key(insert_entry(e, k, v), k2) <==> has_key(e, k2) || k2 == k,
{
    lemma_key_index(e, k);
    let e2 = insert_entry(e, k, v);
    match key_index(e, k) {
        Some(i) => {
            if has_key(e2, k2) {
                let j = choose|j: int| 0 <= j < e2.len() && #[trigger] e2[j].0 == k2;
                if j != i {
                    assert(e[j].0 == k2);
                }
            }
            if has_key(e, k2) {
                let j = choose|j: int| 0 <= j < e.len() && #[trigger] e[j].0 == k2;
                assert(e2[j].0 == k2);
            }
            if k2 == k {
                assert(e2[i].0 == k2);
            }
        },
        None => {
            if has_key(e2, k2) {
                let j = choose|j: int| 0 <= j < e2.len() && #[trigger] e2[j].0 == k2;
                if j < e.len() {
                    assert(e[j].0 == k2);
                }
            }
            if has_key(e, k2) {
                let j = choose|j: int| 0 <= j < e.len() && #[trigger] e[j].0 == k2;
                assert(e2[j].0 == k2);
            }
            if k2 == k {
                assert(e2[e.len() as int].0 == k2);
            }
        },
    }
}

/// A name is in the coordinate map exactly when some listed variable of
/// that name is a coordinate variable.
proof fn lemma_coords_built_keys(ls: Seq<VarMeta>, k: Seq<char>)
    ensures
        has_key(coords_built(ls), k) <==> exists|j: int|
            0 <= j < ls.len() && #[trigger] ls[j].name@ == k && is_coordinate_spec(
                ls[j].name@,
                ls[j].dim_names@,
            ),
    decreases ls.len(),
{
    if ls.len() > 0 {
        let prefix = ls.drop_last();
        let l = ls.last();
        lemma_coords_built_keys(prefix, k);
        if is_coordinate_spec(l.name@, l.dim_names@) {
            lemma_insert_has_key(coords_built(prefix), l.name@, l.name@, k);
        }
        if exists|j: int|
            0 <= j < ls.len() && #[trigger] ls[j].name@ == k && is_coordinate_spec(
                ls[j].name@,
                ls[j].dim_names@,
            ) {
            let j = choose|j: int|
                0 <= j < ls.len() && #[trigger] ls[j].name@ == k && is_coordinate_spec(
                    ls[j].name@,
                    ls[j].dim_names@,
                );
            if j < prefix.len() {
                assert(prefix[j] == ls[j]);
            }
        }
        if exists|j: int|
            0 <= j < prefix.len() && #[trigger] prefix[j].name@ == k && is_coordinate_spec(
                prefix[j].name@,
                prefix[j].dim_names@,
            ) {
            let j = choose|j: int|
                0 <= j < prefix.len() && #[trigger] prefix[j].name@ == k && is_coordinate_spec(
                    prefix[j].name@,
                    prefix[j].dim_names@,
                );
            assert(ls[j] == prefix[j]);
        }
    }
}

/// With no name repeated, the dimension map holds one entry per listed
/// variable, in order.
proof fn lemma_dims_built_distinct(ls: Seq<VarMeta>)
    requires
        distinct_names(ls),
    ensures
        dims_built(ls) == ls.map_values(|l: VarMeta| (l.name@, l.dim_names.deep_view())),
    decreases ls.len(),
{
    if ls.len() > 0 {
        let prefix = ls.drop_last();
        assert forall|i: int, j: int| 0 <= i < j < prefix.len() implies #[trigger] prefix[i].name@
            != #[trigger] prefix[j].name@ by {
            assert(prefix[i] == ls[i] && prefix[j] == ls[j]);
        }
        lemma_dims_built_distinct(prefix);
        let e = dims_built(prefix);
        let l = ls.last();
        lemma_key_index(e, l.name@);
        assert forall|i: int| 0 <= i < e.len() implies #[trigger] e[i].0 != l.name@ by {
            assert(e[i].0 == prefix[i].name@);
            assert(prefix[i] == ls[i]);
            assert(ls[i].name@ != ls[ls.len() - 1].name@);
        }
        assert(dims_built(ls) =~= ls.map_values(|l: VarMeta| (l.name@, l.dim_names.deep_view())));
    }
}

/// The value found for a key is that of the first entry holding it.
proof fn lemma_lookup_first(e: Seq<(Seq<char>, Seq<Seq<char>>)>, j: int)
    requires
        0 <= j < e.len(),
        forall|i: int| 0 <= i < j ==> #[trigger] e[i].0 != e[j].0,
    ensures
        lookup(e, e[j].0) == Some(e[j].1),
    decreases j,
{
    if j > 0 {
        let t = e.drop_first();
        assert forall|i: int| 0 <= i < j - 1 implies #[trigger] t[i].0 != t[j - 1].0 by {
            assert(t[i] == e[i + 1]);
        }
        lemma_lookup_first(t, j - 1);
        assert(t[j - 1] == e[j]);
    }
}

/// Law: in a dataset listed with no name repeated, the search catalog and
/// the tree agree on coordinate variables: a listed variable is in the
/// coordinate map (which marks it in the catalog) exactly when the
/// dimension map gives it a single dimension named like itself (which
/// marks it in the tree).
pub proof fn lemma_coordinates_agree(ls: Seq<VarMeta>, j: int)
    requires
        distinct_names(ls),
        0 <= j < ls.len(),
    ensures
        lookup(dims_built(ls), ls[j].name@) == Some(ls[j].dim_names.deep_view()),
        has_key(coords_built(ls), ls[j].name@) <==> is_coord_dims(
            ls[j].name@,
            ls[j].dim_names.deep_view(),
        ),
{
    let l = ls[j];
    lemma_dims_built_distinct(ls);
    let e = dims_built(ls);
    assert(e[j] == (l.name@, l.dim_names.deep_view()));
    assert forall|i: int| 0 <= i < j implies #[trigger] e[i].0 != e[j].0 by {
        assert(e[i].0 == ls[i].name@);
    }
    lemma_lookup_first(e, j);
    lemma_coords_built_keys(ls, l.name@);
    if has_key(coords_built(ls), l.name@) {
        let i = choose|i: int|
            0 <= i < ls.len() && #[trigger] ls[i].name@ == l.name@ && is_coordinate_spec(
                ls[i].name@,
                ls[i].dim_names@,
            );
        if i < j {
            assert(ls[i].name@ != ls[j].name@);
        } else if i > j {
            assert(ls[j].name@ != ls[i].name@);
        }
    }
    if l.dim_names@.len() == 1 {
        assert(l.dim_names.deep_view()[0] == l.dim_names@[0]@);
    }
}

// ---------------------------------------------------------------------------
// Variable paths
// ---------------------------------------------------------------------------
/// Number of leading `/` characters.
pub open spec fn leading_slashes(s: Seq<char>) -> nat
    decreases s.len(),
{
    if s.len() > 0 && s[0] == '/' {
        1 + leading_slashes(s.drop_first())
    } else {
        0
    }
}

/// Position of the first `/`, if any.
pub open spec fn first_slash(s: Seq<char>) -> Option<int> {
    if exists|j: int| 0 <= j < s.len() && s[j] == '/' && forall|k: int| 0 <= k < j ==> #[trigger] s[k] != '/' {
        Some(choose|j: int| 0 <= j < s.len() && s[j] == '/' && forall|k: int| 0 <= k < j ==> #[trigger] s[k] != '/')
    } else {
        None
    }
}

/// A variable path split into its group (if any) and variable name.
#[derive(Debug, Clone)]
pub struct VarPath {
    pub group: Option<String>,
    pub var: String,
}

/// Split a path such as `/ocean/salinity` or `/temperature`: leading `/`s
/// are dropped, then the text before the first remaining `/` is the group
/// and the text after it the variable; without a `/` the whole text is the
/// variable.
pub open spec fn split_path_spec(path: Seq<char>) -> (Option<Seq<char>>, Seq<char>) {
    let t = path.subrange(leading_slashes(path) as int, path.len() as int);
    match first_slash(t) {
        Some(j) => (Some(t.subrange(0, j)), t.subrange(j + 1, t.len() as int)),
        None => (None, t),
    }
}

proof fn lemma_leading_slashes(s: Seq<char>)
    ensures
        leading_slashes(s) <= s.len(),
        forall|k: int| 0 <= k < leading_slashes(s) ==> #[trigger] s[k] == '/',
        leading_slashes(s) < s.len() ==> s[leading_slashes(s) as int] != '/',
    decreases s.len(),
{
    if s.len() > 0 && s[0] == '/' {
        lemma_leading_slashes(s.drop_first());
        assert forall|k: int| 0 <= k < leading_slashes(s) implies #[trigger] s[k] == '/' by {
            if k > 0 {
                assert(s[k] == s.drop_first()[k - 1]);
            }
        }
    }
}

/// Split a variable path into group and variable.
pub fn split_var_path(path: &str) -> (vp: VarPath)
    ensures
        (match vp.group {
            Some(g) => Some(g@),
            None => None,
        }) == split_path_spec(path@).0,
        vp.var@ == split_path_spec(path@).1,
{
    let cs = chars_of(path);
    let n = cs.len();
    // Skip leading slashes.
    let mut k: usize = 0;
    proof {
        lemma_leading_slashes(path@);
    }
    while k < n && cs[k] == '/'
        invariant
            n == cs@.len(),
            cs@ == path@,
            k <= leading_slashes(path@),
            leading_slashes(path@) <= n,
            forall|j: int| 0 <= j < leading_slashes(path@) ==> #[trigger] path@[j] == '/',
            leading_slashes(path@) < n ==> path@[leading_slashes(path@) as int] != '/',
        decreases n - k,
    {
        k = k + 1;
    }
    assert(k == leading_slashes(path@));
    let ghost t = path@.subrange(k as int, n as int);
    // Find the first slash after them.
    let mut j: usize = k;
    while j < n && cs[j] != '/'
        invariant
            n == cs@.len(),
            cs@ == path@,
            k <= j <= n,
            t == path@.subrange(k as int, n as int),
            forall|m: int| 0 <= m < j - k ==> #[trigger] t[m] != '/',
        decreases n - j,
    {
        j = j + 1;
    }
    if j < n {
        let ghost jj = (j - k) as int;
        assert(t[jj] == '/');
        assert(first_slash(t) == Some(jj)) by {
            let c = choose|c: int| 0 <= c < t.len() && t[c] == '/' && forall|m: int| 0 <= m < c ==> #[trigger] t[m] != '/';
            if c < jj {
                assert(t[c] != '/');
            }
            if jj < c {
                assert(t[jj] != '/');
            }
        }
        let mut g = String::new();
        push_chars(&mut g, slice_range(cs.as_slice(), k, j).as_slice());
        let mut v = String::new();
        push_chars(&mut v, slice_range(cs.as_slice(), j + 1, n).as_slice());
        assert(g@ =~= t.subrange(0, jj));
        assert(v@ =~= t.subrange(jj + 1, t.len() as int));
        VarPath { group: Some(g), var: v }
    } else {
        assert(first_slash(t) is None) by {
            assert forall|c: int| !(0 <= c < t.len() && t[c] == '/' && forall|m: int| 0 <= m < c ==> #[trigger] t[m] != '/') by {
                if 0 <= c < t.len() {
                    assert(t[c] != '/');
                }
            }
        }
        let mut v = String::new();
        push_chars(&mut v, slice_range(cs.as_slice(), k, n).as_slice());
        assert(v@ =~= t);
        VarPath { group: None, var: v }
    }
}

/// The characters `cs[from..to]`.
fn slice_range(cs: &[char], from: usize, to: usize) -> (out: Vec<char>)
    requires
        from <= to <= cs@.len(),
    ensures
        out@ == cs@.subrange(from as int, to as int),
{
    let mut out: Vec<char> = Vec::new();
    let mut i: usize = from;
    while i < to
        invariant
            from <= i <= to,
            to <= cs@.len(),
            out@ == cs@.subrange(from as int, i as int),
        decreases to - i,
    {
        out.push(cs[i]);
        assert(cs@.subrange(from as int, i + 1) =~= cs@.subrange(from as int, i as int).push(cs@[i as int]));
        i = i + 1;
    }
    out
}

} // verus!
