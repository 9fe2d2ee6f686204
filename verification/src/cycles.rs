//! Depth-first search for cycles among local feature references.

use vstd::prelude::*;

use crate::model::{
    contains_string, feature_index, lemma_feature_index, local_name, FeatureManifest,
    FeatureModel, RefModel,
};
use crate::order::strs_less;
use crate::text::{owned, views};

verus! {

/// The state of the search: names already visited, the current path from the
/// starting feature, and the cycles found so far.
#[verifier::ext_equal]
pub struct DfsState {
    pub seen: Seq<Seq<char>>,
    pub path: Seq<Seq<char>>,
    pub cycles: Seq<Seq<Seq<char>>>,
}

/// Index of the first occurrence of `x` in `s` (or `s.len()` when absent).
pub open spec fn first_position(s: Seq<Seq<char>>, x: Seq<char>) -> int
    decreases s.len(),
{
    if s.len() == 0 {
        0
    } else if s[0] == x {
        0
    } else {
        first_position(s.drop_first(), x) + 1
    }
}

/// The first occurrence is in range and holds `x` when `x` occurs.
pub proof fn lemma_first_position(s: Seq<Seq<char>>, x: Seq<char>)
    ensures
        0 <= first_position(s, x) <= s.len(),
        s.contains(x) ==> first_position(s, x) < s.len() && s[first_position(s, x)] == x,
    decreases s.len(),
{
    if s.len() > 0 {
        lemma_first_position(s.drop_first(), x);
        if s[0] != x && s.contains(x) {
            let k = choose|k: int| 0 <= k < s.len() && s[k] == x;
            assert(s.drop_first()[k - 1] == x);
        }
    }
}

/// The cycle closed by reaching `name` again: the path from its first
/// occurrence, followed by `name`.
pub open spec fn closed_cycle(path: Seq<Seq<char>>, name: Seq<char>) -> Seq<Seq<char>> {
    path.subrange(first_position(path, name), path.len() as int).push(name)
}

/// Visits `name`. A name on the current path closes a cycle;
/// a name seen before is skipped; otherwise it is marked seen and, when it is a
/// declared feature, its local references are visited with the name on the
/// path. `fuel` bounds the depth of the path; the path only holds distinct
/// declared features, so a fuel of `fs.len()` is never exhausted.
pub open spec fn dfs_visit(fs: Seq<FeatureModel>, fuel: nat, name: Seq<char>, st: DfsState) -> DfsState
    decreases fuel, 0int,
{
    if st.path.contains(name) {
        DfsState { cycles: st.cycles.push(closed_cycle(st.path, name)), ..st }
    } else if st.seen.contains(name) {
        st
    } else {
        let marked = DfsState { seen: st.seen.push(name), ..st };
        match feature_index(fs, name) {
            None => marked,
            Some(i) => if fuel == 0 {
                marked
            } else {
                let inner = dfs_refs(
                    fs,
                    (fuel - 1) as nat,
                    fs[i].enables,
                    0,
                    DfsState { path: marked.path.push(name), ..marked },
                );
                DfsState { path: inner.path.drop_last(), ..inner }
            },
        }
    }
}

/// Visits the local references `refs[k..]` in order.
pub open spec fn dfs_refs(
    fs: Seq<FeatureModel>,
    fuel: nat,
    refs: Seq<RefModel>,
    k: int,
    st: DfsState,
) -> DfsState
    decreases fuel, refs.len() - k + 1,
{
    if k < 0 || k >= refs.len() {
        st
    } else {
        let next = match local_name(refs[k]) {
            Some(n) => dfs_visit(fs, fuel, n, st),
            None => st,
        };
        dfs_refs(fs, fuel, refs, k + 1, next)
    }
}

/// Visits every declared feature from `fs[k..]` in order.
pub open spec fn dfs_all(fs: Seq<FeatureModel>, k: int, st: DfsState) -> DfsState
    decreases fs.len() - k,
{
    if k < 0 || k >= fs.len() {
        st
    } else {
        dfs_all(fs, k + 1, dfs_visit(fs, fs.len(), fs[k].name, st))
    }
}

/// `list` with the path `x` added in order unless already present.
pub open spec fn path_insert(list: Seq<Seq<Seq<char>>>, x: Seq<Seq<char>>) -> Seq<Seq<Seq<char>>> {
    if list.contains(x) {
        list
    } else {
        list.insert(path_insert_pos(list, x), x)
    }
}

/// Position of the first path not below `x`.
pub open spec fn path_insert_pos(list: Seq<Seq<Seq<char>>>, x: Seq<Seq<char>>) -> int
    decreases list.len(),
{
    if list.len() == 0 {
        0
    } else if strs_less(list[0], x) {
        path_insert_pos(list.drop_first(), x) + 1
    } else {
        0
    }
}

/// The paths of `s` in lexicographic order without repeats (sort, then dedup).
pub open spec fn sorted_paths(s: Seq<Seq<Seq<char>>>) -> Seq<Seq<Seq<char>>>
    decreases s.len(),
{
    if s.len() == 0 {
        Seq::empty()
    } else {
        path_insert(sorted_paths(s.drop_last()), s.last())
    }
}

/// The cycles among local feature references, sorted and without repeats.
pub open spec fn feature_cycles(fs: Seq<FeatureModel>) -> Seq<Seq<Seq<char>>> {
    sorted_paths(
        dfs_all(fs, 0, DfsState { seen: Seq::empty(), path: Seq::empty(), cycles: Seq::empty() }).cycles,
    )
}

/// Character views of a list of paths.
pub open spec fn path_views(v: Seq<Vec<String>>) -> Seq<Seq<Seq<char>>> {
    v.map_values(|p: Vec<String>| views(p@))
}

/// The search state held by the three vectors.
pub open spec fn state_of(seen: Seq<String>, path: Seq<String>, cycles: Seq<Vec<String>>) -> DfsState {
    DfsState { seen: views(seen), path: views(path), cycles: path_views(cycles) }
}

/// A repeat-free list of declared feature names is no longer than the feature list.
pub proof fn lemma_path_bound(fs: Seq<FeatureModel>, s: Seq<Seq<char>>)
    requires
        s.no_duplicates(),
        forall|j: int| 0 <= j < s.len() ==> #[trigger] feature_index(fs, s[j]) is Some,
    ensures
        s.len() <= fs.len(),
{
    let names = fs.map_values(|f: FeatureModel| f.name);
    assert forall|x: Seq<char>| s.to_set().contains(x) implies names.to_set().contains(x) by {
        let j = choose|j: int| 0 <= j < s.len() && s[j] == x;
        assert(feature_index(fs, s[j]) is Some);
        lemma_feature_index(fs, x);
        let i = feature_index(fs, x)->0;
        assert(names[i] == x);
    }
    s.unique_seq_to_set();
    names.lemma_cardinality_of_set();
    vstd::set_lib::lemma_len_subset(s.to_set(), names.to_set());
}

/// Index of the first occurrence of `name` in `path`.
fn position_of(path: &Vec<String>, name: &str) -> (r: usize)
    requires
        views(path@).contains(name@),
    ensures
        r == first_position(views(path@), name@),
        r < path@.len(),
{
    proof {
        lemma_first_position(views(path@), name@);
    }
    let mut i: usize = 0;
    assert(views(path@).skip(0) == views(path@));
    while i < path.len() && !crate::text::str_eq(path[i].as_str(), name)
        invariant
            i <= path@.len(),
            first_position(views(path@), name@) == first_position(views(path@).skip(i as int), name@)
                + i,
            first_position(views(path@), name@) < path@.len(),
        decreases path@.len() - i,
    {
        assert(views(path@).skip(i as int)[0] == path@[i as int]@);
        assert(views(path@).skip(i as int).drop_first() == views(path@).skip(i as int + 1));
        i = i + 1;
    }
    if i == path.len() {
        assert(views(path@).skip(i as int).len() == 0);
    } else {
        assert(views(path@).skip(i as int)[0] == path@[i as int]@);
    }
    i
}

/// Executable form of [`dfs_visit`].
fn visit_feature(
    m: &FeatureManifest,
    name: &str,
    fuel: usize,
    seen: &mut Vec<String>,
    path: &mut Vec<String>,
    cycles: &mut Vec<Vec<String>>,
)
    requires
        fuel + old(path)@.len() == m@.features.len(),
        views(old(path)@).no_duplicates(),
        forall|j: int| 0 <= j < old(path)@.len() ==> #[trigger] feature_index(m@.features, views(old(path)@)[j]) is Some,
    ensures
        views(final(path)@) == views(old(path)@),
        state_of(final(seen)@, final(path)@, final(cycles)@) == dfs_visit(
            m@.features,
            fuel as nat,
            name@,
            state_of(old(seen)@, old(path)@, old(cycles)@),
        ),
    decreases fuel,
{
    let ghost st = state_of(seen@, path@, cycles@);
    if contains_string(path, name) {
        let pos = position_of(path, name);
        let mut cycle: Vec<String> = Vec::new();
        let mut k: usize = pos;
        while k < path.len()
            invariant
                pos <= k <= path@.len(),
                views(cycle@) == views(path@).subrange(pos as int, k as int),
            decreases path@.len() - k,
        {
            let ghost before = cycle@;
            let item = path[k].clone();
            assert(item@ == views(path@)[k as int]);
            cycle.push(item);
            assert(views(cycle@) =~= views(before).push(views(path@)[k as int]));
            assert(views(cycle@) =~= views(path@).subrange(pos as int, k as int + 1));
            k = k + 1;
        }
        cycle.push(owned(name));
        let ghost before = cycles@;
        cycles.push(cycle);
        assert(views(cycle@) == closed_cycle(views(path@), name@));
        assert(path_views(cycles@) =~= path_views(before).push(closed_cycle(views(path@), name@)));
        return;
    }
    if contains_string(seen, name) {
        return;
    }
    let ghost seen_before = seen@;
    seen.push(owned(name));
    assert(views(seen@) =~= views(seen_before).push(name@));
    proof {
        lemma_feature_index(m@.features, name@);
    }
    match m.feature(name) {
        None => {
            return;
        },
        Some(f) => {
            let ghost i = feature_index(m@.features, name@)->0;
            proof {
                let ext = views(path@).push(name@);
                assert forall|a: int, b: int| 0 <= a < ext.len() && 0 <= b < ext.len() && a != b
                    implies ext[a] != ext[b] by {
                    if a < path@.len() && b < path@.len() {
                        assert(views(path@)[a] != views(path@)[b]);
                    } else if a < path@.len() {
                        assert(views(path@)[a] != name@);
                    } else if b < path@.len() {
                        assert(views(path@)[b] != name@);
                    }
                }
                assert forall|j: int| 0 <= j < ext.len() implies #[trigger] feature_index(
                    m@.features,
                    ext[j],
                ) is Some by {
                    if j < path@.len() {
                        assert(ext[j] == views(path@)[j]);
                    }
                }
                lemma_path_bound(m@.features, ext);
            }
            let ghost path_before = path@;
            path.push(owned(name));
            assert(views(path@) =~= views(path_before).push(name@));
            let ghost start = state_of(seen@, path@, cycles@);
            let ghost refs = m@.features[i].enables;
            assert(f@.enables == refs);
            let mut k: usize = 0;
            while k < f.enables.len()
                invariant
                    k <= f.enables@.len(),
                    refs == crate::model::ref_views(f.enables@),
                    fuel >= 1,
                    (fuel - 1) + path@.len() == m@.features.len(),
                    views(path@) == views(path_before).push(name@),
                    views(path@).no_duplicates(),
                    forall|j: int| 0 <= j < path@.len() ==> #[trigger] feature_index(
                        m@.features,
                        views(path@)[j],
                    ) is Some,
                    dfs_refs(m@.features, (fuel - 1) as nat, refs, 0, start) == dfs_refs(
                        m@.features,
                        (fuel - 1) as nat,
                        refs,
                        k as int,
                        state_of(seen@, path@, cycles@),
                    ),
                decreases f.enables@.len() - k,
            {
                assert(refs[k as int] == f.enables@[k as int]@);
                match f.enables[k].local_feature_name() {
                    Some(next) => {
                        visit_feature(m, next, fuel - 1, seen, path, cycles);
                    },
                    None => {},
                }
                k = k + 1;
            }
            let ghost inner = state_of(seen@, path@, cycles@);
            let ghost path_full = path@;
            path.pop();
            assert(views(path@) =~= views(path_full).drop_last());
            assert(views(path@) =~= views(path_before));
        },
    }
}

/// Executable form of [`feature_cycles`].
pub fn detect_feature_cycles(m: &FeatureManifest) -> (r: Vec<Vec<String>>)
    ensures
        path_views(r@) == feature_cycles(m@.features),
{
    let mut seen: Vec<String> = Vec::new();
    let mut path: Vec<String> = Vec::new();
    let mut cycles: Vec<Vec<String>> = Vec::new();
    let ghost init = DfsState { seen: Seq::empty(), path: Seq::empty(), cycles: Seq::empty() };
    assert(state_of(seen@, path@, cycles@) =~= init);
    let mut i: usize = 0;
    while i < m.features.len()
        invariant
            i <= m.features@.len(),
            path@.len() == 0,
            dfs_all(m@.features, 0, init) == dfs_all(
                m@.features,
                i as int,
                state_of(seen@, path@, cycles@),
            ),
        decreases m.features@.len() - i,
    {
        assert(m@.features[i as int].name == m.features@[i as int].name@);
        visit_feature(m, m.features[i].name.as_str(), m.features.len(), &mut seen, &mut path, &mut cycles);
        assert(path@.len() == 0);
        i = i + 1;
    }
    sort_paths(&cycles)
}

/// Executable form of [`path_insert`].
fn path_insert_exec(list: &mut Vec<Vec<String>>, x: Vec<String>)
    ensures
        path_views(final(list)@) == path_insert(path_views(old(list)@), views(x@)),
{
    let ghost before = list@;
    let mut j: usize = 0;
    while j < list.len()
        invariant
            j <= list@.len(),
            list@ == before,
            forall|k: int| 0 <= k < j ==> path_views(list@)[k] != views(x@),
        decreases list@.len() - j,
    {
        if crate::order::strs_eq_exec(&list[j], &x) {
            assert(path_views(list@)[j as int] == views(x@));
            return;
        }
        j = j + 1;
    }
    assert(!path_views(list@).contains(views(x@))) by {
        if path_views(list@).contains(views(x@)) {
            let k = choose|k: int| 0 <= k < path_views(list@).len() && path_views(list@)[k] == views(x@);
            assert(path_views(list@)[k] != views(x@));
        }
    }
    let mut i: usize = 0;
    assert(path_views(list@).skip(0) == path_views(list@));
    proof {
        lemma_path_insert_pos(path_views(list@), views(x@));
    }
    while i < list.len() && crate::order::strs_less_exec(&list[i], &x)
        invariant
            i <= list@.len(),
            path_insert_pos(path_views(list@), views(x@)) == path_insert_pos(
                path_views(list@).skip(i as int),
                views(x@),
            ) + i,
        decreases list@.len() - i,
    {
        assert(path_views(list@).skip(i as int)[0] == views(list@[i as int]@));
        assert(path_views(list@).skip(i as int).drop_first() == path_views(list@).skip(i as int + 1));
        i = i + 1;
    }
    if i < list.len() {
        assert(path_views(list@).skip(i as int)[0] == views(list@[i as int]@));
    } else {
        assert(path_views(list@).skip(i as int).len() == 0);
    }
    let ghost xv = views(x@);
    list.insert(i, x);
    assert(path_views(list@) =~= path_views(before).insert(i as int, xv));
}

/// The insertion position is within bounds.
pub proof fn lemma_path_insert_pos(list: Seq<Seq<Seq<char>>>, x: Seq<Seq<char>>)
    ensures
        0 <= path_insert_pos(list, x) <= list.len(),
    decreases list.len(),
{
    if list.len() > 0 {
        lemma_path_insert_pos(list.drop_first(), x);
    }
}

/// Executable form of [`sorted_paths`].
fn sort_paths(s: &Vec<Vec<String>>) -> (r: Vec<Vec<String>>)
    ensures
        path_views(r@) == sorted_paths(path_views(s@)),
{
    let mut r: Vec<Vec<String>> = Vec::new();
    let mut i: usize = 0;
    while i < s.len()
        invariant
            i <= s@.len(),
            path_views(r@) == sorted_paths(path_views(s@).take(i as int)),
        decreases s@.len() - i,
    {
        assert(path_views(s@).take(i as int + 1).drop_last() == path_views(s@).take(i as int));
        assert(path_views(s@).take(i as int + 1).last() == views(s@[i as int]@));
        path_insert_exec(&mut r, crate::model::copy_strings(&s[i]));
        i = i + 1;
    }
    assert(path_views(s@).take(s@.len() as int) == path_views(s@));
    r
}

/// Whether the declared feature `x` lists the local feature `y` among the
/// features it enables.
pub open spec fn enables_name(fs: Seq<FeatureModel>, x: Seq<char>, y: Seq<char>) -> bool {
    match feature_index(fs, x) {
        Some(i) => exists|k: int|
            0 <= k < fs[i].enables.len() && #[trigger] local_name(fs[i].enables[k]) == Some(y),
        None => false,
    }
}

/// Whether each name of `p` enables the next one.
pub open spec fn is_chain(fs: Seq<FeatureModel>, p: Seq<Seq<char>>) -> bool {
    forall|k: int| 0 <= k < p.len() - 1 ==> #[trigger] enables_name(fs, p[k], p[k + 1])
}

/// Whether `c` is a cycle of enabling references: a chain of at least two
/// names that ends where it starts.
pub open spec fn is_cycle(fs: Seq<FeatureModel>, c: Seq<Seq<char>>) -> bool {
    c.len() >= 2 && c[0] == c.last() && is_chain(fs, c)
}

/// Whether every path of `cs` is a cycle of enabling references.
pub open spec fn all_cycles(fs: Seq<FeatureModel>, cs: Seq<Seq<Seq<char>>>) -> bool {
    forall|j: int| 0 <= j < cs.len() ==> #[trigger] is_cycle(fs, cs[j])
}

/// Visiting a name reached by an enabling reference keeps the path and adds
/// only genuine cycles.
pub proof fn lemma_visit_cycles(fs: Seq<FeatureModel>, fuel: nat, name: Seq<char>, st: DfsState)
    requires
        is_chain(fs, st.path),
        st.path.len() > 0 ==> enables_name(fs, st.path.last(), name),
        all_cycles(fs, st.cycles),
    ensures
        dfs_visit(fs, fuel, name, st).path == st.path,
        all_cycles(fs, dfs_visit(fs, fuel, name, st).cycles),
    decreases fuel, 0int,
{
    let path = st.path;
    if path.contains(name) {
        lemma_first_position(path, name);
        let f = first_position(path, name);
        let c = closed_cycle(path, name);
        assert(c.len() == path.len() - f + 1);
        assert forall|k: int| 0 <= k < c.len() - 1 implies #[trigger] enables_name(fs, c[k], c[k + 1]) by {
            if k < c.len() - 2 {
                assert(c[k] == path[f + k]);
                assert(c[k + 1] == path[f + k + 1]);
                assert(enables_name(fs, path[f + k], path[f + k + 1]));
            } else {
                assert(c[k] == path.last());
                assert(c[k + 1] == name);
            }
        }
        assert(c[0] == path[f]);
        let cycles = st.cycles.push(c);
        assert forall|j: int| 0 <= j < cycles.len() implies #[trigger] is_cycle(fs, cycles[j]) by {
            if j < st.cycles.len() {
                assert(cycles[j] == st.cycles[j]);
            }
        }
    } else if st.seen.contains(name) {
    } else {
        let marked = DfsState { seen: st.seen.push(name), ..st };
        match feature_index(fs, name) {
            None => {},
            Some(i) => {
                if fuel > 0 {
                    let pushed = path.push(name);
                    assert forall|k: int| 0 <= k < pushed.len() - 1 implies #[trigger] enables_name(
                        fs,
                        pushed[k],
                        pushed[k + 1],
                    ) by {
                        if k < path.len() - 1 {
                            assert(pushed[k] == path[k] && pushed[k + 1] == path[k + 1]);
                            assert(enables_name(fs, path[k], path[k + 1]));
                        } else {
                            assert(pushed[k] == path.last());
                        }
                    }
                    let st2 = DfsState { path: pushed, ..marked };
                    lemma_refs_cycles(fs, (fuel - 1) as nat, fs[i].enables, 0, st2);
                    assert(pushed.drop_last() == path);
                }
            },
        }
    }
}

/// Visiting the references of the feature at the end of the path keeps the
/// path and adds only genuine cycles.
pub proof fn lemma_refs_cycles(fs: Seq<FeatureModel>, fuel: nat, refs: Seq<RefModel>, k: int, st: DfsState)
    requires
        is_chain(fs, st.path),
        st.path.len() > 0,
        feature_index(fs, st.path.last()) matches Some(i) && fs[i].enables == refs,
        all_cycles(fs, st.cycles),
    ensures
        dfs_refs(fs, fuel, refs, k, st).path == st.path,
        all_cycles(fs, dfs_refs(fs, fuel, refs, k, st).cycles),
    decreases fuel, refs.len() - k + 1,
{
    if 0 <= k < refs.len() {
        match local_name(refs[k]) {
            Some(n) => {
                assert(enables_name(fs, st.path.last(), n));
                lemma_visit_cycles(fs, fuel, n, st);
                lemma_refs_cycles(fs, fuel, refs, k + 1, dfs_visit(fs, fuel, n, st));
            },
            None => {
                lemma_refs_cycles(fs, fuel, refs, k + 1, st);
            },
        }
    }
}

/// Visiting every declared feature from an empty path adds only genuine cycles.
pub proof fn lemma_all_cycles(fs: Seq<FeatureModel>, k: int, st: DfsState)
    requires
        st.path.len() == 0,
        all_cycles(fs, st.cycles),
    ensures
        all_cycles(fs, dfs_all(fs, k, st).cycles),
    decreases fs.len() - k,
{
    if 0 <= k < fs.len() {
        lemma_visit_cycles(fs, fs.len(), fs[k].name, st);
        lemma_all_cycles(fs, k + 1, dfs_visit(fs, fs.len(), fs[k].name, st));
    }
}

/// Sorting and removing repeats keeps only paths of the input.
pub proof fn lemma_sorted_paths_from(s: Seq<Seq<Seq<char>>>)
    ensures
        forall|j: int| 0 <= j < sorted_paths(s).len() ==> s.contains(#[trigger] sorted_paths(s)[j]),
    decreases s.len(),
{
    if s.len() > 0 {
        let prev = sorted_paths(s.drop_last());
        lemma_sorted_paths_from(s.drop_last());
        lemma_path_insert_pos(prev, s.last());
        let pos = path_insert_pos(prev, s.last());
        assert forall|j: int| 0 <= j < sorted_paths(s).len() implies s.contains(#[trigger] sorted_paths(s)[j]) by {
            let r = sorted_paths(s);
            if prev.contains(s.last()) {
                assert(r == prev);
                assert(s.drop_last().contains(r[j]));
                let m = choose|m: int| 0 <= m < s.drop_last().len() && s.drop_last()[m] == r[j];
                assert(s[m] == r[j]);
            } else if j == pos {
                assert(r[j] == s.last());
                assert(s[s.len() - 1] == s.last());
            } else {
                let o = if j < pos {
                    j
                } else {
                    j - 1
                };
                assert(r[j] == prev[o]);
                assert(s.drop_last().contains(prev[o]));
                let m = choose|m: int| 0 <= m < s.drop_last().len() && s.drop_last()[m] == prev[o];
                assert(s[m] == r[j]);
            }
        }
    }
}

/// Every reported cycle is genuine: it starts and ends at the same feature,
/// and each of its features is declared and enables the next one.
pub proof fn law_reported_cycles_are_genuine(fs: Seq<FeatureModel>)
    ensures
        forall|j: int| 0 <= j < feature_cycles(fs).len() ==> is_cycle(fs, #[trigger] feature_cycles(fs)[j]),
{
    let init = DfsState { seen: Seq::empty(), path: Seq::empty(), cycles: Seq::empty() };
    lemma_all_cycles(fs, 0, init);
    let found = dfs_all(fs, 0, init).cycles;
    lemma_sorted_paths_from(found);
    assert forall|j: int| 0 <= j < feature_cycles(fs).len() implies is_cycle(fs, #[trigger] feature_cycles(fs)[j]) by {
        assert(found.contains(feature_cycles(fs)[j]));
        let m = choose|m: int| 0 <= m < found.len() && found[m] == feature_cycles(fs)[j];
        assert(is_cycle(fs, found[m]));
    }
}

/// Whether the search has finished with `x`: it was reached and is no longer
/// on the path.
pub open spec fn is_done(st: DfsState, x: Seq<char>) -> bool {
    st.seen.contains(x) && !st.path.contains(x)
}

/// Whether every feature the search has finished with enables only features
/// it has finished with.
pub open spec fn done_closed(fs: Seq<FeatureModel>, st: DfsState) -> bool {
    forall|u: Seq<char>, v: Seq<char>| is_done(st, u) && #[trigger] enables_name(fs, u, v) ==> is_done(st, v)
}

/// Whether no cycle lies wholly among the features the search has finished with.
pub open spec fn no_done_cycle(fs: Seq<FeatureModel>, st: DfsState) -> bool {
    forall|c: Seq<Seq<char>>| #[trigger] is_cycle(fs, c) ==> exists|j: int| 0 <= j < c.len() && !is_done(st, #[trigger] c[j])
}

/// The search's bookkeeping: the path holds distinct declared features that
/// were all reached, and the fuel covers the features not on the path.
pub open spec fn well_kept(fs: Seq<FeatureModel>, fuel: nat, st: DfsState) -> bool {
    &&& st.path.no_duplicates()
    &&& forall|j: int| 0 <= j < st.path.len() ==> #[trigger] feature_index(fs, st.path[j]) is Some
    &&& forall|j: int| 0 <= j < st.path.len() ==> st.seen.contains(#[trigger] st.path[j])
    &&& fuel + st.path.len() == fs.len()
}

/// Every name on a cycle is a declared feature.
pub proof fn lemma_cycle_declared(fs: Seq<FeatureModel>, c: Seq<Seq<char>>)
    requires
        is_cycle(fs, c),
    ensures
        forall|k: int| 0 <= k < c.len() ==> #[trigger] feature_index(fs, c[k]) is Some,
{
    assert forall|k: int| 0 <= k < c.len() implies #[trigger] feature_index(fs, c[k]) is Some by {
        if k < c.len() - 1 {
            assert(enables_name(fs, c[k], c[k + 1]));
        } else {
            let z: int = 0;
            assert(enables_name(fs, c[z], c[z + 1]));
            assert(c[k] == c[z]);
        }
    }
}

/// A visit keeps the path, and only adds reached names and cycles.
pub proof fn lemma_visit_grows(fs: Seq<FeatureModel>, fuel: nat, name: Seq<char>, st: DfsState)
    requires
        forall|j: int| 0 <= j < st.path.len() ==> st.seen.contains(#[trigger] st.path[j]),
    ensures
        dfs_visit(fs, fuel, name, st).path == st.path,
        dfs_visit(fs, fuel, name, st).cycles.len() >= st.cycles.len(),
        forall|x: Seq<char>| st.seen.contains(x) ==> #[trigger] dfs_visit(fs, fuel, name, st).seen.contains(x),
        dfs_visit(fs, fuel, name, st).seen.contains(name),
    decreases fuel, 0int,
{
    if st.path.contains(name) {
        let j = choose|j: int| 0 <= j < st.path.len() && st.path[j] == name;
        assert(st.seen.contains(st.path[j]));
    } else if st.seen.contains(name) {
    } else {
        let marked = DfsState { seen: st.seen.push(name), ..st };
        assert(marked.seen[st.seen.len() as int] == name);
        assert forall|x: Seq<char>| st.seen.contains(x) implies #[trigger] marked.seen.contains(x) by {
            let j = choose|j: int| 0 <= j < st.seen.len() && st.seen[j] == x;
            assert(marked.seen[j] == x);
        }
        match feature_index(fs, name) {
            None => {},
            Some(i) => {
                if fuel > 0 {
                    let st2 = DfsState { path: marked.path.push(name), ..marked };
                    assert forall|j: int| 0 <= j < st2.path.len() implies st2.seen.contains(#[trigger] st2.path[j]) by {
                        if j < st.path.len() {
                            assert(st2.path[j] == st.path[j]);
                            assert(st.seen.contains(st.path[j]));
                        }
                    }
                    lemma_refs_grows(fs, (fuel - 1) as nat, fs[i].enables, 0, st2);
                    assert(st2.path.drop_last() == st.path);
                }
            },
        }
    }
}

/// Visiting references keeps the path, and only adds reached names and cycles.
pub proof fn lemma_refs_grows(fs: Seq<FeatureModel>, fuel: nat, refs: Seq<RefModel>, k: int, st: DfsState)
    requires
        forall|j: int| 0 <= j < st.path.len() ==> st.seen.contains(#[trigger] st.path[j]),
    ensures
        dfs_refs(fs, fuel, refs, k, st).path == st.path,
        dfs_refs(fs, fuel, refs, k, st).cycles.len() >= st.cycles.len(),
        forall|x: Seq<char>| st.seen.contains(x) ==> #[trigger] dfs_refs(fs, fuel, refs, k, st).seen.contains(x),
    decreases fuel, refs.len() - k + 1,
{
    if 0 <= k < refs.len() {
        match local_name(refs[k]) {
            Some(n) => {
                lemma_visit_grows(fs, fuel, n, st);
                let next = dfs_visit(fs, fuel, n, st);
                assert forall|j: int| 0 <= j < next.path.len() implies next.seen.contains(#[trigger] next.path[j]) by {
                    assert(st.seen.contains(st.path[j]));
                }
                lemma_refs_grows(fs, fuel, refs, k + 1, next);
            },
            None => {
                lemma_refs_grows(fs, fuel, refs, k + 1, st);
            },
        }
    }
}

/// Visiting every declared feature keeps the path, and only adds reached
/// names and cycles.
pub proof fn lemma_all_grows(fs: Seq<FeatureModel>, k: int, st: DfsState)
    requires
        forall|j: int| 0 <= j < st.path.len() ==> st.seen.contains(#[trigger] st.path[j]),
    ensures
        dfs_all(fs, k, st).path == st.path,
        dfs_all(fs, k, st).cycles.len() >= st.cycles.len(),
        forall|x: Seq<char>| st.seen.contains(x) ==> #[trigger] dfs_all(fs, k, st).seen.contains(x),
    decreases fs.len() - k,
{
    if 0 <= k < fs.len() {
        lemma_visit_grows(fs, fs.len(), fs[k].name, st);
        let next = dfs_visit(fs, fs.len(), fs[k].name, st);
        assert forall|j: int| 0 <= j < next.path.len() implies next.seen.contains(#[trigger] next.path[j]) by {
            assert(st.seen.contains(st.path[j]));
        }
        lemma_all_grows(fs, k + 1, next);
    }
}

/// A visit that records no cycle leaves the finished features closed under
/// enabling and free of cycles, and does not start from the path.
pub proof fn lemma_visit_complete(fs: Seq<FeatureModel>, fuel: nat, name: Seq<char>, st: DfsState)
    requires
        well_kept(fs, fuel, st),
        done_closed(fs, st),
        no_done_cycle(fs, st),
    ensures
        dfs_visit(fs, fuel, name, st).cycles.len() == st.cycles.len() ==> {
            &&& done_closed(fs, dfs_visit(fs, fuel, name, st))
            &&& no_done_cycle(fs, dfs_visit(fs, fuel, name, st))
            &&& !st.path.contains(name)
        },
    decreases fuel, 0int,
{
    lemma_visit_grows(fs, fuel, name, st);
    let r = dfs_visit(fs, fuel, name, st);
    if st.path.contains(name) {
    } else if st.seen.contains(name) {
    } else {
        let marked = DfsState { seen: st.seen.push(name), ..st };
        assert(marked.seen[st.seen.len() as int] == name);
        assert forall|x: Seq<char>| #[trigger] is_done(marked, x) == (is_done(st, x) || x == name) by {
            if marked.seen.contains(x) && x != name {
                let j = choose|j: int| 0 <= j < marked.seen.len() && marked.seen[j] == x;
                assert(j < st.seen.len());
                assert(st.seen[j] == x);
            }
            if st.seen.contains(x) {
                let j = choose|j: int| 0 <= j < st.seen.len() && st.seen[j] == x;
                assert(marked.seen[j] == x);
            }
        }
        lemma_feature_index(fs, name);
        match feature_index(fs, name) {
            None => {
                assert forall|u: Seq<char>, v: Seq<char>| is_done(marked, u) && #[trigger] enables_name(fs, u, v) implies is_done(marked, v) by {
                    if u != name {
                        assert(is_done(st, u));
                    }
                }
                assert forall|c: Seq<Seq<char>>| #[trigger] is_cycle(fs, c) implies exists|j: int| 0 <= j < c.len() && !is_done(marked, #[trigger] c[j]) by {
                    lemma_cycle_declared(fs, c);
                    let j = choose|j: int| 0 <= j < c.len() && !is_done(st, #[trigger] c[j]);
                    assert(feature_index(fs, c[j]) is Some);
                    assert(c[j] != name);
                    assert(!is_done(marked, c[j]));
                }
            },
            Some(i) => {
                let ext = st.path.push(name);
                assert forall|a: int, b: int| 0 <= a < ext.len() && 0 <= b < ext.len() && a != b implies ext[a] != ext[b] by {
                    if a < st.path.len() && b < st.path.len() {
                        assert(st.path[a] != st.path[b]);
                    } else if a < st.path.len() {
                        assert(ext[a] == st.path[a]);
                    } else if b < st.path.len() {
                        assert(ext[b] == st.path[b]);
                    }
                }
                assert forall|j: int| 0 <= j < ext.len() implies #[trigger] feature_index(fs, ext[j]) is Some by {
                    if j < st.path.len() {
                        assert(ext[j] == st.path[j]);
                    }
                }
                lemma_path_bound(fs, ext);
                assert(fuel > 0);
                let st2 = DfsState { path: ext, ..marked };
                assert forall|x: Seq<char>| #[trigger] is_done(st2, x) == is_done(st, x) by {
                    if ext.contains(x) && !st.path.contains(x) {
                        let j = choose|j: int| 0 <= j < ext.len() && ext[j] == x;
                        if j < st.path.len() {
                            assert(ext[j] == st.path[j]);
                        }
                        assert(x == name);
                    }
                    if st.path.contains(x) {
                        let j = choose|j: int| 0 <= j < st.path.len() && st.path[j] == x;
                        assert(ext[j] == x);
                    }
                    assert(is_done(marked, x) == (is_done(st, x) || x == name));
                    if x == name {
                        assert(ext[st.path.len() as int] == name);
                    }
                }
                assert(well_kept(fs, (fuel - 1) as nat, st2)) by {
                    assert forall|j: int| 0 <= j < st2.path.len() implies st2.seen.contains(#[trigger] st2.path[j]) by {
                        if j < st.path.len() {
                            assert(st2.path[j] == st.path[j]);
                            assert(st.seen.contains(st.path[j]));
                            let m = choose|m: int| 0 <= m < st.seen.len() && st.seen[m] == st.path[j];
                            assert(marked.seen[m] == st.path[j]);
                        } else {
                            assert(st2.path[j] == name);
                        }
                    }
                }
                assert(done_closed(fs, st2)) by {
                    assert forall|u: Seq<char>, v: Seq<char>| is_done(st2, u) && #[trigger] enables_name(fs, u, v) implies is_done(st2, v) by {
                        assert(is_done(st, u));
                        assert(is_done(st, v));
                    }
                }
                assert(no_done_cycle(fs, st2)) by {
                    assert forall|c: Seq<Seq<char>>| #[trigger] is_cycle(fs, c) implies exists|j: int| 0 <= j < c.len() && !is_done(st2, #[trigger] c[j]) by {
                        let j = choose|j: int| 0 <= j < c.len() && !is_done(st, #[trigger] c[j]);
                        assert(!is_done(st2, c[j]));
                    }
                }
                let refs = fs[i].enables;
                lemma_refs_complete(fs, (fuel - 1) as nat, refs, 0, st2);
                lemma_refs_grows(fs, (fuel - 1) as nat, refs, 0, st2);
                let inner = dfs_refs(fs, (fuel - 1) as nat, refs, 0, st2);
                assert(r == DfsState { path: inner.path.drop_last(), ..inner });
                assert(inner.path.drop_last() == st.path);
                if r.cycles.len() == st.cycles.len() {
                    assert(inner.seen.contains(name));
                    assert forall|x: Seq<char>| #[trigger] is_done(r, x) == (is_done(inner, x) || x == name) by {
                        if x == name {
                            assert(!st.path.contains(name));
                        }
                        if inner.path.contains(x) && !st.path.contains(x) {
                            let j = choose|j: int| 0 <= j < inner.path.len() && inner.path[j] == x;
                            if j < st.path.len() {
                                assert(inner.path[j] == st.path[j]);
                            }
                        }
                        if st.path.contains(x) {
                            let j = choose|j: int| 0 <= j < st.path.len() && st.path[j] == x;
                            assert(inner.path[j] == x);
                        }
                    }
                    assert forall|v: Seq<char>| #[trigger] enables_name(fs, name, v) implies is_done(r, v) by {
                        let k = choose|k: int| 0 <= k < fs[i].enables.len() && #[trigger] local_name(fs[i].enables[k]) == Some(v);
                        assert(inner.seen.contains(v) && !ext.contains(v));
                        assert(!st.path.contains(v)) by {
                            if st.path.contains(v) {
                                let j = choose|j: int| 0 <= j < st.path.len() && st.path[j] == v;
                                assert(ext[j] == v);
                            }
                        }
                    }
                    assert forall|u: Seq<char>, v: Seq<char>| is_done(r, u) && #[trigger] enables_name(fs, u, v) implies is_done(r, v) by {
                        if u != name {
                            assert(is_done(inner, u));
                            assert(is_done(inner, v));
                        }
                    }
                    assert forall|c: Seq<Seq<char>>| #[trigger] is_cycle(fs, c) implies exists|j: int| 0 <= j < c.len() && !is_done(r, #[trigger] c[j]) by {
                        if forall|j: int| 0 <= j < c.len() ==> is_done(r, #[trigger] c[j]) {
                            let j0 = choose|j: int| 0 <= j < c.len() && !is_done(inner, #[trigger] c[j]);
                            assert(is_done(r, c[j0]));
                            assert(c[j0] == name);
                            let at = if j0 == 0 {
                                c.len() - 1
                            } else {
                                j0
                            };
                            assert(c[at] == name);
                            let w = c[at - 1];
                            assert(enables_name(fs, c[at - 1], c[(at - 1) + 1]));
                            assert(enables_name(fs, w, name));
                            assert(is_done(r, w));
                            if w == name {
                                let k = choose|k: int| 0 <= k < fs[i].enables.len() && #[trigger] local_name(fs[i].enables[k]) == Some(name);
                                assert(!ext.contains(name));
                                assert(ext[st.path.len() as int] == name);
                            } else {
                                assert(is_done(inner, w));
                                assert(is_done(inner, name));
                                assert(inner.path[st.path.len() as int] == name);
                            }
                        }
                    }
                }
            },
        }
    }
}

/// Visiting references that records no cycle leaves the finished features
/// closed under enabling and free of cycles, and finishes every referenced
/// local feature, none of which is on the path.
pub proof fn lemma_refs_complete(fs: Seq<FeatureModel>, fuel: nat, refs: Seq<RefModel>, k: int, st: DfsState)
    requires
        well_kept(fs, fuel, st),
        done_closed(fs, st),
        no_done_cycle(fs, st),
        0 <= k,
    ensures
        dfs_refs(fs, fuel, refs, k, st).cycles.len() == st.cycles.len() ==> {
            &&& done_closed(fs, dfs_refs(fs, fuel, refs, k, st))
            &&& no_done_cycle(fs, dfs_refs(fs, fuel, refs, k, st))
            &&& forall|j: int|
                k <= j < refs.len() && (#[trigger] local_name(refs[j])) is Some ==> dfs_refs(
                    fs,
                    fuel,
                    refs,
                    k,
                    st,
                ).seen.contains(local_name(refs[j])->0) && !st.path.contains(local_name(refs[j])->0)
        },
    decreases fuel, refs.len() - k + 1,
{
    lemma_refs_grows(fs, fuel, refs, k, st);
    if k < refs.len() {
        let next = match local_name(refs[k]) {
            Some(n) => dfs_visit(fs, fuel, n, st),
            None => st,
        };
        match local_name(refs[k]) {
            Some(n) => {
                lemma_visit_grows(fs, fuel, n, st);
                lemma_visit_complete(fs, fuel, n, st);
            },
            None => {},
        }
        assert(well_kept(fs, fuel, next)) by {
            assert forall|j: int| 0 <= j < next.path.len() implies next.seen.contains(#[trigger] next.path[j]) by {
                assert(st.seen.contains(st.path[j]));
            }
        }
        lemma_refs_grows(fs, fuel, refs, k + 1, next);
        let r = dfs_refs(fs, fuel, refs, k + 1, next);
        if r.cycles.len() == st.cycles.len() {
            assert(next.cycles.len() == st.cycles.len());
            lemma_refs_complete(fs, fuel, refs, k + 1, next);
            assert forall|j: int| k <= j < refs.len() && (#[trigger] local_name(refs[j])) is Some implies r.seen.contains(local_name(refs[j])->0) && !st.path.contains(local_name(refs[j])->0) by {
                if j == k {
                    assert(next.seen.contains(local_name(refs[j])->0));
                }
            }
        }
    }
}

/// Visiting every declared feature from an empty path without recording a
/// cycle reaches them all and leaves no cycle among the finished features.
pub proof fn lemma_all_complete(fs: Seq<FeatureModel>, k: int, st: DfsState)
    requires
        st.path.len() == 0,
        done_closed(fs, st),
        no_done_cycle(fs, st),
        0 <= k,
    ensures
        dfs_all(fs, k, st).cycles.len() == st.cycles.len() ==> {
            &&& no_done_cycle(fs, dfs_all(fs, k, st))
            &&& forall|j: int| k <= j < fs.len() ==> dfs_all(fs, k, st).seen.contains(#[trigger] fs[j].name)
        },
    decreases fs.len() - k,
{
    lemma_all_grows(fs, k, st);
    if k < fs.len() {
        let name = fs[k].name;
        lemma_visit_grows(fs, fs.len(), name, st);
        lemma_visit_complete(fs, fs.len(), name, st);
        let next = dfs_visit(fs, fs.len(), name, st);
        lemma_all_grows(fs, k + 1, next);
        let r = dfs_all(fs, k + 1, next);
        if r.cycles.len() == st.cycles.len() {
            assert(next.cycles.len() == st.cycles.len());
            lemma_all_complete(fs, k + 1, next);
            assert forall|j: int| k <= j < fs.len() implies r.seen.contains(#[trigger] fs[j].name) by {
                if j == k {
                    assert(next.seen.contains(name));
                }
            }
        }
    }
}

/// Sorting and removing repeats keeps a non-empty list non-empty.
pub proof fn lemma_sorted_paths_nonempty(s: Seq<Seq<Seq<char>>>)
    requires
        s.len() > 0,
    ensures
        sorted_paths(s).len() > 0,
{
    let prev = sorted_paths(s.drop_last());
    if !prev.contains(s.last()) {
        lemma_path_insert_pos(prev, s.last());
    }
}

/// The cycle lint fires exactly when local feature references form a cycle:
/// some cycle is reported if and only if some declared feature reaches
/// itself through the features it enables.
pub proof fn law_cycles_reported_iff_present(fs: Seq<FeatureModel>)
    ensures
        (feature_cycles(fs).len() > 0) == (exists|c: Seq<Seq<char>>| #[trigger] is_cycle(fs, c)),
{
    law_reported_cycles_are_genuine(fs);
    if feature_cycles(fs).len() > 0 {
        assert(is_cycle(fs, feature_cycles(fs)[0]));
    }
    if exists|c: Seq<Seq<char>>| #[trigger] is_cycle(fs, c) {
        let c = choose|c: Seq<Seq<char>>| #[trigger] is_cycle(fs, c);
        let init = DfsState { seen: Seq::empty(), path: Seq::empty(), cycles: Seq::empty() };
        assert(no_done_cycle(fs, init)) by {
            assert forall|d: Seq<Seq<char>>| #[trigger] is_cycle(fs, d) implies exists|j: int| 0 <= j < d.len() && !is_done(init, #[trigger] d[j]) by {
                assert(!is_done(init, d[0]));
            }
        }
        lemma_all_complete(fs, 0, init);
        lemma_all_grows(fs, 0, init);
        let r = dfs_all(fs, 0, init);
        if r.cycles.len() == 0 {
            lemma_cycle_declared(fs, c);
            assert forall|j: int| 0 <= j < c.len() implies is_done(r, #[trigger] c[j]) by {
                lemma_feature_index(fs, c[j]);
                let i = feature_index(fs, c[j])->0;
                assert(fs[i].name == c[j]);
                assert(r.seen.contains(fs[i].name));
            }
            let j = choose|j: int| 0 <= j < c.len() && !is_done(r, #[trigger] c[j]);
            assert(false);
        }
        lemma_sorted_paths_nonempty(r.cycles);
    }
}

} // verus!
