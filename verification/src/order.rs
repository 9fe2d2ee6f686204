//! Orderings and ordered keyed lists that stand in for `BTreeMap` and `BTreeSet`.

use vstd::prelude::*;

use crate::text::{str_eq, views};

verus! {

/// Lexicographic order on characters by code point, which is the byte order of
/// UTF-8 strings (`str::cmp`).
pub open spec fn str_less(a: Seq<char>, b: Seq<char>) -> bool
    decreases a.len(),
{
    if a.len() == 0 {
        b.len() > 0
    } else if b.len() == 0 {
        false
    } else if a[0] != b[0] {
        (a[0] as u32) < (b[0] as u32)
    } else {
        str_less(a.drop_first(), b.drop_first())
    }
}

/// Executable form of [`str_less`] on character vectors, from index `i` on.
fn chars_less_from(a: &Vec<char>, b: &Vec<char>, i: usize) -> (r: bool)
    requires
        i <= a@.len(),
        i <= b@.len(),
    ensures
        r == str_less(a@.skip(i as int), b@.skip(i as int)),
    decreases a@.len() - i,
{
    if i == a.len() {
        assert(a@.skip(i as int).len() == 0);
        return i < b.len();
    }
    if i == b.len() {
        return false;
    }
    assert(a@.skip(i as int)[0] == a@[i as int]);
    assert(b@.skip(i as int)[0] == b@[i as int]);
    if a[i] != b[i] {
        return (a[i] as u32) < (b[i] as u32);
    }
    assert(a@.skip(i as int).drop_first() == a@.skip(i as int + 1));
    assert(b@.skip(i as int).drop_first() == b@.skip(i as int + 1));
    chars_less_from(a, b, i + 1)
}

/// Executable form of [`str_less`].
pub fn str_less_exec(a: &str, b: &str) -> (r: bool)
    ensures
        r == str_less(a@, b@),
{
    let x = crate::text::chars_of(a);
    let y = crate::text::chars_of(b);
    assert(x@.skip(0) == x@);
    assert(y@.skip(0) == y@);
    chars_less_from(&x, &y, 0)
}

/// Lexicographic order on lists of strings (`Vec<String>::cmp`).
pub open spec fn strs_less(a: Seq<Seq<char>>, b: Seq<Seq<char>>) -> bool
    decreases a.len(),
{
    if a.len() == 0 {
        b.len() > 0
    } else if b.len() == 0 {
        false
    } else if a[0] != b[0] {
        str_less(a[0], b[0])
    } else {
        strs_less(a.drop_first(), b.drop_first())
    }
}

/// Executable form of [`strs_less`].
pub fn strs_less_exec(a: &Vec<String>, b: &Vec<String>) -> (r: bool)
    ensures
        r == strs_less(views(a@), views(b@)),
{
    let mut i: usize = 0;
    assert(views(a@).skip(0) == views(a@));
    assert(views(b@).skip(0) == views(b@));
    while i < a.len() && i < b.len() && str_eq(a[i].as_str(), b[i].as_str())
        invariant
            i <= a@.len(),
            i <= b@.len(),
            strs_less(views(a@), views(b@)) == strs_less(
                views(a@).skip(i as int),
                views(b@).skip(i as int),
            ),
        decreases a@.len() - i,
    {
        assert(views(a@).skip(i as int).drop_first() == views(a@).skip(i as int + 1));
        assert(views(b@).skip(i as int).drop_first() == views(b@).skip(i as int + 1));
        i = i + 1;
    }
    if i == a.len() {
        assert(views(a@).skip(i as int).len() == 0);
        return i < b.len();
    }
    if i == b.len() {
        return false;
    }
    assert(views(a@).skip(i as int)[0] == a@[i as int]@);
    assert(views(b@).skip(i as int)[0] == b@[i as int]@);
    str_less_exec(a[i].as_str(), b[i].as_str())
}

/// Whether two lists of strings are equal, element by element.
pub fn strs_eq_exec(a: &Vec<String>, b: &Vec<String>) -> (r: bool)
    ensures
        r == (views(a@) == views(b@)),
{
    if a.len() != b.len() {
        assert(views(a@).len() != views(b@).len());
        return false;
    }
    let mut i: usize = 0;
    while i < a.len()
        invariant
            i <= a@.len(),
            a@.len() == b@.len(),
            forall|j: int| 0 <= j < i ==> a@[j]@ == b@[j]@,
        decreases a@.len() - i,
    {
        if !str_eq(a[i].as_str(), b[i].as_str()) {
            assert(views(a@)[i as int] != views(b@)[i as int]);
            return false;
        }
        i = i + 1;
    }
    assert(views(a@) =~= views(b@));
    true
}

/// Keys of a keyed list seen through their characters.
pub open spec fn pairs<T>(m: Seq<(String, T)>) -> Seq<(Seq<char>, T)> {
    m.map_values(|e: (String, T)| (e.0@, e.1))
}

/// Index of the first entry whose key is `k`.
pub open spec fn key_index<T>(m: Seq<(Seq<char>, T)>, k: Seq<char>) -> Option<int>
    decreases m.len(),
{
    if m.len() == 0 {
        None
    } else if m[0].0 == k {
        Some(0)
    } else {
        match key_index(m.drop_first(), k) {
            Some(i) => Some(i + 1),
            None => None,
        }
    }
}

/// A found key index is in range, holds the key, and is the first such index.
pub proof fn lemma_key_index<T>(m: Seq<(Seq<char>, T)>, k: Seq<char>)
    ensures
        key_index(m, k) matches Some(i) ==> 0 <= i < m.len() && m[i].0 == k && forall|j: int|
            0 <= j < i ==> m[j].0 != k,
        key_index(m, k) is None ==> forall|j: int| 0 <= j < m.len() ==> m[j].0 != k,
    decreases m.len(),
{
    if m.len() > 0 {
        lemma_key_index(m.drop_first(), k);
        assert forall|j: int| 0 < j < m.len() implies m[j] == m.drop_first()[j - 1] by {}
    }
}

/// The value stored under `k` (`BTreeMap::get`).
pub open spec fn key_value<T>(m: Seq<(Seq<char>, T)>, k: Seq<char>) -> Option<T> {
    match key_index(m, k) {
        Some(i) => Some(m[i].1),
        None => None,
    }
}

/// Position of the first entry whose key is not below `k`.
pub open spec fn insert_pos<T>(m: Seq<(Seq<char>, T)>, k: Seq<char>) -> int
    decreases m.len(),
{
    if m.len() == 0 {
        0
    } else if str_less(m[0].0, k) {
        insert_pos(m.drop_first(), k) + 1
    } else {
        0
    }
}

/// `m` with `v` stored under `k`: replacing the value of an existing key, else
/// inserting in key order (`BTreeMap::insert`).
pub open spec fn key_insert<T>(m: Seq<(Seq<char>, T)>, k: Seq<char>, v: T) -> Seq<(Seq<char>, T)> {
    match key_index(m, k) {
        Some(i) => m.update(i, (k, v)),
        None => m.insert(insert_pos(m, k), (k, v)),
    }
}

/// Executable form of [`key_index`].
pub fn key_find<T>(m: &Vec<(String, T)>, k: &str) -> (r: Option<usize>)
    ensures
        match r {
            Some(i) => key_index(pairs(m@), k@) == Some(i as int) && i < m@.len(),
            None => key_index(pairs(m@), k@) is None,
        },
{
    proof {
        lemma_key_index(pairs(m@), k@);
    }
    let mut i: usize = 0;
    while i < m.len()
        invariant
            i <= m@.len(),
            forall|j: int| 0 <= j < i ==> m@[j].0@ != k@,
        decreases m@.len() - i,
    {
        proof {
            lemma_key_index(pairs(m@), k@);
        }
        if str_eq(m[i].0.as_str(), k) {
            assert(pairs(m@)[i as int].0 == k@);
            return Some(i);
        }
        i = i + 1;
    }
    proof {
        lemma_key_index(pairs(m@), k@);
        assert forall|j: int| 0 <= j < m@.len() implies pairs(m@)[j].0 != k@ by {
            assert(pairs(m@)[j].0 == m@[j].0@);
        }
    }
    None
}

/// The insertion position is within bounds.
pub proof fn lemma_insert_pos<T>(m: Seq<(Seq<char>, T)>, k: Seq<char>)
    ensures
        0 <= insert_pos(m, k) <= m.len(),
    decreases m.len(),
{
    if m.len() > 0 {
        lemma_insert_pos(m.drop_first(), k);
    }
}

/// Executable form of [`insert_pos`].
pub fn find_insert_pos<T>(m: &Vec<(String, T)>, k: &str) -> (r: usize)
    ensures
        r as int == insert_pos(pairs(m@), k@),
        r <= m@.len(),
{
    proof {
        lemma_insert_pos(pairs(m@), k@);
    }
    let mut i: usize = 0;
    assert(pairs(m@).skip(0) == pairs(m@));
    while i < m.len() && str_less_exec(m[i].0.as_str(), k)
        invariant
            i <= m@.len(),
            insert_pos(pairs(m@), k@) == insert_pos(pairs(m@).skip(i as int), k@) + i,
        decreases m@.len() - i,
    {
        assert(pairs(m@).skip(i as int)[0] == pairs(m@)[i as int]);
        assert(pairs(m@).skip(i as int).drop_first() == pairs(m@).skip(i as int + 1));
        i = i + 1;
    }
    if i < m.len() {
        assert(pairs(m@).skip(i as int)[0] == pairs(m@)[i as int]);
    } else {
        assert(pairs(m@).skip(i as int).len() == 0);
    }
    i
}

/// Executable form of [`key_insert`].
pub fn key_insert_exec<T>(m: &mut Vec<(String, T)>, k: String, v: T)
    ensures
        pairs(final(m)@) == key_insert(pairs(old(m)@), k@, v),
{
    match key_find(m, k.as_str()) {
        Some(i) => {
            let ghost before = m@;
            m.remove(i);
            m.insert(i, (k, v));
            assert(pairs(m@) =~= key_insert(pairs(before), k@, v));
        },
        None => {
            let p = find_insert_pos(m, k.as_str());
            let ghost before = m@;
            let ghost kv = k@;
            m.insert(p, (k, v));
            assert(pairs(m@) =~= pairs(before).insert(p as int, (kv, v)));
        },
    }
}

/// Executable form of [`key_value`] for copyable values.
pub fn key_get<T: Copy>(m: &Vec<(String, T)>, k: &str) -> (r: Option<T>)
    ensures
        r == key_value(pairs(m@), k@),
{
    match key_find(m, k) {
        Some(i) => {
            assert(pairs(m@)[i as int].1 == m@[i as int].1);
            Some(m[i].1)
        },
        None => None,
    }
}

/// `list` with `x` added in order unless already present (`BTreeSet::insert`).
pub open spec fn set_insert(list: Seq<Seq<char>>, x: Seq<char>) -> Seq<Seq<char>> {
    if list.contains(x) {
        list
    } else {
        list.insert(set_insert_pos(list, x), x)
    }
}

/// Position of the first element not below `x`.
pub open spec fn set_insert_pos(list: Seq<Seq<char>>, x: Seq<char>) -> int
    decreases list.len(),
{
    if list.len() == 0 {
        0
    } else if str_less(list[0], x) {
        set_insert_pos(list.drop_first(), x) + 1
    } else {
        0
    }
}

/// The elements of `s` in order without repeats (`BTreeSet::from_iter`).
pub open spec fn sorted_set(s: Seq<Seq<char>>) -> Seq<Seq<char>>
    decreases s.len(),
{
    if s.len() == 0 {
        Seq::empty()
    } else {
        set_insert(sorted_set(s.drop_last()), s.last())
    }
}

/// The set insertion position is within bounds.
pub proof fn lemma_set_insert_pos(list: Seq<Seq<char>>, x: Seq<char>)
    ensures
        0 <= set_insert_pos(list, x) <= list.len(),
    decreases list.len(),
{
    if list.len() > 0 {
        lemma_set_insert_pos(list.drop_first(), x);
    }
}

/// Executable form of [`set_insert`].
pub fn set_insert_exec(list: &mut Vec<String>, x: String)
    ensures
        views(final(list)@) == set_insert(views(old(list)@), x@),
{
    if crate::model::contains_string(list, x.as_str()) {
        return;
    }
    proof {
        lemma_set_insert_pos(views(list@), x@);
    }
    let mut i: usize = 0;
    assert(views(list@).skip(0) == views(list@));
    while i < list.len() && str_less_exec(list[i].as_str(), x.as_str())
        invariant
            i <= list@.len(),
            set_insert_pos(views(list@), x@) == set_insert_pos(views(list@).skip(i as int), x@)
                + i,
        decreases list@.len() - i,
    {
        assert(views(list@).skip(i as int)[0] == list@[i as int]@);
        assert(views(list@).skip(i as int).drop_first() == views(list@).skip(i as int + 1));
        i = i + 1;
    }
    if i < list.len() {
        assert(views(list@).skip(i as int)[0] == list@[i as int]@);
    } else {
        assert(views(list@).skip(i as int).len() == 0);
    }
    let ghost before = list@;
    list.insert(i, x);
    assert(views(list@) =~= views(before).insert(i as int, x@));
}

/// Executable form of [`sorted_set`].
pub fn sorted_set_exec(s: &Vec<String>) -> (r: Vec<String>)
    ensures
        views(r@) == sorted_set(views(s@)),
{
    let mut r: Vec<String> = Vec::new();
    let mut i: usize = 0;
    while i < s.len()
        invariant
            i <= s@.len(),
            views(r@) == sorted_set(views(s@).take(i as int)),
        decreases s@.len() - i,
    {
        assert(views(s@).take(i as int + 1).drop_last() == views(s@).take(i as int));
        assert(views(s@).take(i as int + 1).last() == s@[i as int]@);
        set_insert_exec(&mut r, s[i].clone());
        i = i + 1;
    }
    assert(views(s@).take(s@.len() as int) == views(s@));
    r
}

/// Key lookups and insertion positions depend on the keys alone.
pub proof fn lemma_same_keys<T, U>(m: Seq<(Seq<char>, T)>, n: Seq<(Seq<char>, U)>, k: Seq<char>)
    requires
        m.len() == n.len(),
        forall|i: int| 0 <= i < m.len() ==> #[trigger] m[i].0 == n[i].0,
    ensures
        key_index(m, k) == key_index(n, k),
        insert_pos(m, k) == insert_pos(n, k),
    decreases m.len(),
{
    if m.len() > 0 {
        assert forall|i: int| 0 <= i < m.drop_first().len() implies #[trigger] m.drop_first()[i].0
            == n.drop_first()[i].0 by {
            assert(m[i + 1].0 == n[i + 1].0);
        }
        lemma_same_keys(m.drop_first(), n.drop_first(), k);
        assert(m[0].0 == n[0].0);
    }
}

/// No text is below itself.
pub proof fn lemma_str_less_irreflexive(a: Seq<char>)
    ensures
        !str_less(a, a),
    decreases a.len(),
{
    if a.len() > 0 {
        lemma_str_less_irreflexive(a.drop_first());
    }
}

/// The order on texts is transitive.
pub proof fn lemma_str_less_transitive(a: Seq<char>, b: Seq<char>, c: Seq<char>)
    requires
        str_less(a, b),
        str_less(b, c),
    ensures
        str_less(a, c),
    decreases a.len(),
{
    if a.len() > 0 && b.len() > 0 && c.len() > 0 && a[0] == b[0] && b[0] == c[0] {
        lemma_str_less_transitive(a.drop_first(), b.drop_first(), c.drop_first());
    }
}

/// Of two different texts, one is below the other.
pub proof fn lemma_str_less_total(a: Seq<char>, b: Seq<char>)
    requires
        a != b,
    ensures
        str_less(a, b) || str_less(b, a),
    decreases a.len(),
{
    if a.len() > 0 && b.len() > 0 && a[0] == b[0] {
        if a.drop_first() == b.drop_first() {
            assert(a =~= seq![a[0]] + a.drop_first());
            assert(b =~= seq![b[0]] + b.drop_first());
        }
        lemma_str_less_total(a.drop_first(), b.drop_first());
    } else if a.len() == 0 && b.len() == 0 {
        assert(a =~= b);
    } else if a.len() > 0 && b.len() > 0 {
        let x = a[0];
        let y = b[0];
        vstd::utf8::char_u32_cast(x, x as u32);
        vstd::utf8::char_u32_cast(y, y as u32);
        assert((x as u32) != (y as u32));
    }
}

/// Whether the keys of a keyed list are strictly ascending.
pub open spec fn keys_sorted<T>(m: Seq<(Seq<char>, T)>) -> bool {
    forall|i: int, j: int| 0 <= i < j < m.len() ==> str_less(#[trigger] m[i].0, #[trigger] m[j].0)
}

/// The entries before the insertion position are below the key, and the one
/// at it is not.
pub proof fn lemma_insert_pos_bounds<T>(m: Seq<(Seq<char>, T)>, k: Seq<char>)
    ensures
        forall|i: int| 0 <= i < insert_pos(m, k) ==> str_less(#[trigger] m[i].0, k),
        insert_pos(m, k) < m.len() ==> !str_less(m[insert_pos(m, k)].0, k),
    decreases m.len(),
{
    lemma_insert_pos(m, k);
    if m.len() > 0 && str_less(m[0].0, k) {
        lemma_insert_pos_bounds(m.drop_first(), k);
        assert forall|i: int| 0 <= i < insert_pos(m, k) implies str_less(#[trigger] m[i].0, k) by {
            if i > 0 {
                assert(m[i] == m.drop_first()[i - 1]);
            }
        }
        lemma_insert_pos(m.drop_first(), k);
        let q = insert_pos(m.drop_first(), k);
        assert(insert_pos(m, k) == q + 1);
        if q + 1 < m.len() {
            assert(m[q + 1] == m.drop_first()[q]);
        }
    }
}

/// Storing under a key keeps the keys strictly ascending.
pub proof fn lemma_key_insert_sorted<T>(m: Seq<(Seq<char>, T)>, k: Seq<char>, v: T)
    requires
        keys_sorted(m),
    ensures
        keys_sorted(key_insert(m, k, v)),
{
    lemma_key_index(m, k);
    match key_index(m, k) {
        Some(i) => {
            let r = m.update(i, (k, v));
            assert forall|a: int, b: int| 0 <= a < b < r.len() implies str_less(#[trigger] r[a].0, #[trigger] r[b].0) by {
                assert(r[a].0 == m[a].0);
                assert(r[b].0 == m[b].0);
            }
        },
        None => {
            let p = insert_pos(m, k);
            lemma_insert_pos(m, k);
            lemma_insert_pos_bounds(m, k);
            let r = m.insert(p, (k, v));
            if p < m.len() {
                assert(m[p].0 != k);
                lemma_str_less_total(m[p].0, k);
            }
            assert forall|a: int, b: int| 0 <= a < b < r.len() implies str_less(#[trigger] r[a].0, #[trigger] r[b].0) by {
                if b < p {
                    assert(r[a] == m[a] && r[b] == m[b]);
                } else if b == p {
                    assert(r[a] == m[a]);
                } else if a == p {
                    assert(r[b] == m[b - 1]);
                    if b - 1 > p {
                        assert(str_less(m[p].0, m[b - 1].0));
                        lemma_str_less_transitive(k, m[p].0, m[b - 1].0);
                    }
                } else if a < p {
                    assert(r[a] == m[a] && r[b] == m[b - 1]);
                    if a < b - 1 {
                    } else {
                        assert(false);
                    }
                } else {
                    assert(r[a] == m[a - 1] && r[b] == m[b - 1]);
                }
            }
        },
    }
}

} // verus!
