//! `/`-separated paths seen through their components, as `std::path` reads
//! them on Unix.

use vstd::prelude::*;

use crate::model::{find, find_from_exec};
use crate::text::{chars_of, join, join_strings, owned, string_of_range, views};

verus! {

/// The pieces of `s` between `/` separators, empty pieces included.
pub open spec fn segments(s: Seq<char>) -> Seq<Seq<char>>
    decreases s.len(),
{
    match find(s, seq!['/']) {
        Some(i) => if 0 <= i < s.len() {
            seq![s.take(i)] + segments(s.skip(i + 1))
        } else {
            seq![s]
        },
        None => seq![s],
    }
}

/// The named pieces: neither empty nor `.`.
pub open spec fn named_segments(ps: Seq<Seq<char>>) -> Seq<Seq<char>>
    decreases ps.len(),
{
    if ps.len() == 0 {
        Seq::empty()
    } else {
        named_segments(ps.drop_last()) + if ps.last().len() == 0 || ps.last() == seq!['.'] {
            Seq::empty()
        } else {
            seq![ps.last()]
        }
    }
}

/// The components of a path (`Path::components`): `/` for a root, `.` for a
/// leading current directory, then every named piece.
pub open spec fn components(p: Seq<char>) -> Seq<Seq<char>> {
    (if p.len() > 0 && p[0] == '/' {
        seq![seq!['/']]
    } else if p == seq!['.'] || (p.len() >= 2 && p[0] == '.' && p[1] == '/') {
        seq![seq!['.']]
    } else {
        Seq::empty()
    }) + named_segments(segments(p))
}

/// The components of a path's parent (`Path::parent`): none for an empty path
/// or a root.
pub open spec fn parent_components(cs: Seq<Seq<char>>) -> Option<Seq<Seq<char>>> {
    if cs.len() == 0 || cs.last() == seq!['/'] {
        None
    } else {
        Some(cs.drop_last())
    }
}

/// A path relative to a root directory when it lies under it
/// (`Path::strip_prefix`), as components.
pub open spec fn relative_components(root: Seq<Seq<char>>, path: Seq<Seq<char>>) -> Seq<Seq<char>> {
    if root.len() <= path.len() && path.take(root.len() as int) == root {
        path.skip(root.len() as int)
    } else {
        path
    }
}

/// The directory of a workspace's root manifest (`.` when it has none).
pub open spec fn root_directory(root_manifest: Seq<char>) -> Seq<Seq<char>> {
    match parent_components(components(root_manifest)) {
        Some(cs) => cs,
        None => seq![seq!['.']],
    }
}

/// A path shown relative to the workspace root, its components joined with `/`.
pub open spec fn portable_path(root_manifest: Seq<char>, path: Seq<char>) -> Seq<char> {
    join(relative_components(root_directory(root_manifest), components(path)), "/"@)
}

/// The separator strings as characters.
pub proof fn lemma_separators()
    ensures
        "/"@ == seq!['/'],
        "."@ == seq!['.'],
{
    reveal_strlit("/");
    reveal_strlit(".");
    assert("/"@ =~= seq!['/']);
    assert("."@ =~= seq!['.']);
}

/// Executable form of [`segments`].
fn split_segments(s: &str) -> (r: Vec<String>)
    ensures
        views(r@) == segments(s@),
{
    let v = chars_of(s);
    let slash = chars_of("/");
    proof {
        reveal_strlit("/");
        assert(slash@ =~= seq!['/']);
    }
    let mut r: Vec<String> = Vec::new();
    let mut start: usize = 0;
    assert(v@.skip(0) =~= v@);
    loop
        invariant
            start <= v@.len(),
            v@ == s@,
            slash@ == seq!['/'],
            views(r@) + segments(v@.skip(start as int)) == segments(v@),
        decreases v@.len() - start,
    {
        let ghost rest = v@.skip(start as int);
        let ghost before = views(r@);
        match find_from_exec(&v, &slash, start) {
            Some(k) => {
                proof {
                    crate::model::lemma_find_from(v@, slash@, start as int);
                    crate::model::lemma_find_from(rest, slash@, 0);
                    assert forall|j: int| 0 <= j < rest.len() implies crate::model::occurs_at(rest, slash@, j)
                        == crate::model::occurs_at(v@, slash@, start + j) by {
                        assert(rest.subrange(j, j + 1) =~= v@.subrange(start + j, start + j + 1));
                    }
                    assert(crate::model::occurs_at(rest, slash@, k - start));
                    assert(find(rest, slash@) == Some(k - start)) by {
                        if find(rest, slash@) != Some(k - start) {
                            match find(rest, slash@) {
                                Some(q) => {
                                    assert(crate::model::occurs_at(v@, slash@, start + q));
                                },
                                None => {},
                            }
                        }
                    }
                }
                assert(crate::model::occurs_at(v@, slash@, k as int));
                assert(k + 1 <= v@.len());
                assert(v@.len() == v.len());
                let piece = string_of_range(&v, start, k);
                assert(piece@ =~= rest.take(k - start));
                r.push(piece);
                assert(rest.skip(k - start + 1) =~= v@.skip(k + 1));
                assert(views(r@) =~= before.push(rest.take(k - start)));
                start = k + 1;
            },
            None => {
                proof {
                    crate::model::lemma_find_from(v@, slash@, start as int);
                    crate::model::lemma_find_from(rest, slash@, 0);
                    assert(find(rest, slash@) is None) by {
                        match find(rest, slash@) {
                            Some(q) => {
                                assert(rest.subrange(q, q + 1) =~= v@.subrange(start + q, start + q + 1));
                                assert(crate::model::occurs_at(v@, slash@, start + q));
                            },
                            None => {},
                        }
                    }
                }
                let piece = string_of_range(&v, start, v.len());
                assert(piece@ =~= rest);
                r.push(piece);
                assert(views(r@) =~= before.push(rest));
                assert(views(r@) =~= segments(v@));
                return r;
            },
        }
    }
}

/// Executable form of [`components`].
pub fn path_components(p: &str) -> (r: Vec<String>)
    ensures
        views(r@) == components(p@),
{
    let v = chars_of(p);
    let mut r: Vec<String> = Vec::new();
    if v.len() > 0 && v[0] == '/' {
        r.push(owned("/"));
    } else if (v.len() == 1 && v[0] == '.') || (v.len() >= 2 && v[0] == '.' && v[1] == '/') {
        r.push(owned("."));
    }
    proof {
        lemma_separators();
        if v@ == seq!['.'] {
            assert(v@.len() == 1 && v@[0] == '.');
        }
        if v@.len() == 1 && v@[0] == '.' {
            assert(v@ =~= seq!['.']);
        }
    }
    let ghost head = views(r@);
    assert(head =~= (if p@.len() > 0 && p@[0] == '/' {
        seq![seq!['/']]
    } else if p@ == seq!['.'] || (p@.len() >= 2 && p@[0] == '.' && p@[1] == '/') {
        seq![seq!['.']]
    } else {
        Seq::<Seq<char>>::empty()
    }));
    let pieces = split_segments(p);
    let ghost ps = views(pieces@);
    let mut i: usize = 0;
    while i < pieces.len()
        invariant
            i <= pieces@.len(),
            ps == views(pieces@),
            views(r@) == head + named_segments(ps.take(i as int)),
        decreases pieces@.len() - i,
    {
        assert(ps.take(i as int + 1).drop_last() == ps.take(i as int));
        assert(ps.take(i as int + 1).last() == pieces@[i as int]@);
        let piece = &pieces[i];
        let ghost before = views(r@);
        let is_dot = crate::text::str_eq(piece.as_str(), ".");
        proof {
            lemma_separators();
        }
        if !(piece.as_str().is_empty() || is_dot) {
            r.push(piece.clone());
            assert(views(r@) =~= before.push(piece@));
        }
        assert(views(r@) =~= head + named_segments(ps.take(i as int + 1)));
        i = i + 1;
    }
    assert(ps.take(pieces@.len() as int) == ps);
    r
}

/// A path shown relative to the workspace root.
pub fn portable_relative_path(root_manifest: &str, path: &str) -> (r: String)
    ensures
        r@ == portable_path(root_manifest@, path@),
{
    let mut root = path_components(root_manifest);
    if root.len() == 0 || crate::text::str_eq(root[root.len() - 1].as_str(), "/") {
        root = vec![owned(".")];
        proof {
            lemma_separators();
        }
        assert(views(root@) =~= seq![seq!['.']]);
    } else {
        proof {
            lemma_separators();
        }
        let ghost before = views(root@);
        root.pop();
        assert(views(root@) =~= before.drop_last());
    }
    assert(views(root@) == root_directory(root_manifest@));
    let comps = path_components(path);
    let mut prefix = root.len() <= comps.len();
    if prefix {
        let mut j: usize = 0;
        while j < root.len()
            invariant
                j <= root@.len() <= comps@.len(),
                prefix == forall|x: int| 0 <= x < j ==> #[trigger] comps@[x]@ == root@[x]@,
            decreases root@.len() - j,
        {
            if !crate::text::str_eq(comps[j].as_str(), root[j].as_str()) {
                prefix = false;
            }
            j = j + 1;
        }
        if prefix {
            assert(views(comps@).take(root@.len() as int) =~= views(root@));
        } else {
            let ghost x = choose|x: int| 0 <= x < root@.len() && comps@[x]@ != root@[x]@;
            assert(views(comps@).take(root@.len() as int)[x] != views(root@)[x]);
        }
    }
    let mut relative: Vec<String> = Vec::new();
    let from: usize = if prefix {
        root.len()
    } else {
        0
    };
    let mut k: usize = from;
    while k < comps.len()
        invariant
            from <= k <= comps@.len(),
            views(relative@) == views(comps@).subrange(from as int, k as int),
        decreases comps@.len() - k,
    {
        let ghost before = views(relative@);
        let c = comps[k].clone();
        relative.push(c);
        assert(views(relative@) =~= before.push(comps@[k as int]@));
        assert(views(relative@) =~= views(comps@).subrange(from as int, k as int + 1));
        k = k + 1;
    }
    assert(views(relative@) =~= relative_components(views(root@), views(comps@)));
    join_strings(&relative, "/")
}

} // verus!
