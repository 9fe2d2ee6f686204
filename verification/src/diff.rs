//! Line diffs of a manifest before and after synchronization.

use vstd::prelude::*;

use crate::text::{decimal, decimal_string, lines_exec, lines_of, owned, views};

verus! {

/// Length of a longest common subsequence of `b[i..]` and `a[j..]`.
pub open spec fn lcs(b: Seq<Seq<char>>, a: Seq<Seq<char>>, i: int, j: int) -> nat
    decreases b.len() - i + a.len() - j,
{
    if i < 0 || j < 0 || i >= b.len() || j >= a.len() {
        0
    } else if b[i] == a[j] {
        lcs(b, a, i + 1, j + 1) + 1
    } else {
        let down = lcs(b, a, i + 1, j);
        let right = lcs(b, a, i, j + 1);
        if down >= right {
            down
        } else {
            right
        }
    }
}

/// The common subsequence is no longer than what is left of `b`.
pub proof fn lemma_lcs_bound(b: Seq<Seq<char>>, a: Seq<Seq<char>>, i: int, j: int)
    requires
        0 <= i <= b.len(),
        0 <= j <= a.len(),
    ensures
        lcs(b, a, i, j) <= b.len() - i,
    decreases b.len() - i + a.len() - j,
{
    if i < b.len() && j < a.len() {
        lemma_lcs_bound(b, a, i + 1, j + 1);
        lemma_lcs_bound(b, a, i + 1, j);
        lemma_lcs_bound(b, a, i, j + 1);
    }
}

/// One line of a diff.
#[derive(Debug, Clone, PartialEq, Eq)]
pub enum DiffLine {
    /// A line kept from before.
    Unchanged(String),
    /// A line only before.
    Removed(String),
    /// A line only after.
    Added(String),
}

/// The characters of a [`DiffLine`].
pub enum DiffModel {
    Unchanged(Seq<char>),
    Removed(Seq<char>),
    Added(Seq<char>),
}

impl View for DiffLine {
    type V = DiffModel;

    open spec fn view(&self) -> DiffModel {
        match self {
            DiffLine::Unchanged(l) => DiffModel::Unchanged(l@),
            DiffLine::Removed(l) => DiffModel::Removed(l@),
            DiffLine::Added(l) => DiffModel::Added(l@),
        }
    }
}

/// The edit script from `b[i..]` to `a[j..]`: equal lines are kept, and
/// otherwise an added line comes first unless dropping the line of `b` keeps a
/// longer common subsequence.
pub open spec fn diff_script(b: Seq<Seq<char>>, a: Seq<Seq<char>>, i: int, j: int) -> Seq<DiffModel>
    decreases b.len() - i + a.len() - j,
{
    if i < 0 || j < 0 || i > b.len() || j > a.len() {
        Seq::empty()
    } else if i < b.len() && j < a.len() && b[i] == a[j] {
        seq![DiffModel::Unchanged(b[i])] + diff_script(b, a, i + 1, j + 1)
    } else if j < a.len() && (i == b.len() || lcs(b, a, i, j + 1) >= lcs(b, a, i + 1, j)) {
        seq![DiffModel::Added(a[j])] + diff_script(b, a, i, j + 1)
    } else if i < b.len() {
        seq![DiffModel::Removed(b[i])] + diff_script(b, a, i + 1, j)
    } else {
        Seq::empty()
    }
}

/// Views of a list of diff lines.
pub open spec fn diff_views(v: Seq<DiffLine>) -> Seq<DiffModel> {
    v.map_values(|d: DiffLine| d@)
}

/// Builds the table of [`lcs`] values for every pair of suffixes.
fn lcs_table(b: &Vec<String>, a: &Vec<String>) -> (t: Vec<Vec<usize>>)
    requires
        b@.len() < usize::MAX,
        a@.len() < usize::MAX,
    ensures
        t@.len() == b@.len() + 1,
        forall|i: int| 0 <= i <= b@.len() ==> #[trigger] t@[i]@.len() == a@.len() + 1,
        forall|i: int, j: int|
            0 <= i <= b@.len() && 0 <= j <= a@.len() ==> #[trigger] t@[i]@[j] == lcs(views(b@), views(a@), i, j),
{
    let ghost bv = views(b@);
    let ghost av = views(a@);
    let bl = b.len();
    let al = a.len();
    let mut rows: Vec<Vec<usize>> = Vec::new();
    let mut r: usize = 0;
    while r <= bl
        invariant
            r <= bl + 1,
            bl == b@.len(),
            al == a@.len(),
            bl < usize::MAX,
            al < usize::MAX,
            rows@.len() == r,
            forall|i: int| 0 <= i < r ==> #[trigger] rows@[i]@.len() == al + 1,
            forall|i: int, j: int| 0 <= i < r && 0 <= j <= al ==> #[trigger] rows@[i]@[j] == 0,
        decreases bl + 1 - r,
    {
        let mut row: Vec<usize> = Vec::new();
        let mut c: usize = 0;
        while c <= al
            invariant
                c <= al + 1,
                al == a@.len(),
                al < usize::MAX,
                row@.len() == c,
                forall|j: int| 0 <= j < c ==> row@[j] == 0,
            decreases al + 1 - c,
        {
            row.push(0);
            c = c + 1;
        }
        rows.push(row);
        r = r + 1;
    }
    let mut i: usize = bl;
    while i > 0
        invariant
            i <= bl,
            bl == b@.len(),
            al == a@.len(),
            bv == views(b@),
            av == views(a@),
            rows@.len() == bl + 1,
            forall|x: int| 0 <= x <= bl ==> #[trigger] rows@[x]@.len() == al + 1,
            forall|x: int, y: int|
                i <= x <= bl && 0 <= y <= al ==> #[trigger] rows@[x]@[y] == lcs(bv, av, x, y),
            forall|x: int, y: int| 0 <= x < i && 0 <= y <= al ==> #[trigger] rows@[x]@[y] == 0,
        decreases i,
    {
        let bi = i - 1;
        let mut j: usize = al;
        while j > 0
            invariant
                bi < bl,
                j <= al,
                bl == b@.len(),
                al == a@.len(),
                bv == views(b@),
                av == views(a@),
                rows@.len() == bl + 1,
                forall|x: int| 0 <= x <= bl ==> #[trigger] rows@[x]@.len() == al + 1,
                forall|x: int, y: int|
                    bi < x <= bl && 0 <= y <= al ==> #[trigger] rows@[x]@[y] == lcs(bv, av, x, y),
                forall|y: int| j <= y <= al ==> #[trigger] rows@[bi as int]@[y] == lcs(bv, av, bi as int, y),
                forall|x: int, y: int| 0 <= x < bi && 0 <= y <= al ==> #[trigger] rows@[x]@[y] == 0,
            decreases j,
        {
            let aj = j - 1;
            proof {
                lemma_lcs_bound(bv, av, bi as int + 1, aj as int + 1);
                lemma_lcs_bound(bv, av, bi as int + 1, aj as int);
                lemma_lcs_bound(bv, av, bi as int, aj as int + 1);
            }
            let value = if crate::text::str_eq(b[bi].as_str(), a[aj].as_str()) {
                rows[bi + 1][aj + 1] + 1
            } else {
                let down = rows[bi + 1][aj];
                let right = rows[bi][aj + 1];
                if down >= right {
                    down
                } else {
                    right
                }
            };
            assert(bv[bi as int] == b@[bi as int]@);
            assert(av[aj as int] == a@[aj as int]@);
            assert(value == lcs(bv, av, bi as int, aj as int));
            let ghost old_rows = rows@;
            let mut row = rows[bi].clone();
            row.set(aj, value);
            rows.set(bi, row);
            assert forall|x: int, y: int|
                bi < x <= bl && 0 <= y <= al implies #[trigger] rows@[x]@[y] == lcs(bv, av, x, y) by {
                assert(rows@[x] == old_rows[x]);
            }
            assert forall|x: int, y: int| 0 <= x < bi && 0 <= y <= al implies #[trigger] rows@[x]@[y]
                == 0 by {
                assert(rows@[x] == old_rows[x]);
            }
            assert forall|x: int| 0 <= x <= bl implies #[trigger] rows@[x]@.len() == al + 1 by {
                if x != bi {
                    assert(rows@[x] == old_rows[x]);
                }
            }
            j = aj;
        }
        assert(rows@[bi as int]@[al as int] == lcs(bv, av, bi as int, al as int));
        i = bi;
    }
    rows
}

/// The diff from `before` to `after`.
pub fn diff_lines(before: &Vec<String>, after: &Vec<String>) -> (r: Vec<DiffLine>)
    requires
        before@.len() < usize::MAX,
        after@.len() < usize::MAX,
    ensures
        diff_views(r@) == diff_script(views(before@), views(after@), 0, 0),
{
    let ghost bv = views(before@);
    let ghost av = views(after@);
    let table = lcs_table(before, after);
    let bl = before.len();
    let al = after.len();
    let mut ops: Vec<DiffLine> = Vec::new();
    let mut i: usize = 0;
    let mut j: usize = 0;
    while i < bl || j < al
        invariant
            i <= bl,
            j <= al,
            bl == before@.len(),
            al == after@.len(),
            bv == views(before@),
            av == views(after@),
            table@.len() == bl + 1,
            forall|x: int| 0 <= x <= bl ==> #[trigger] table@[x]@.len() == al + 1,
            forall|x: int, y: int|
                0 <= x <= bl && 0 <= y <= al ==> #[trigger] table@[x]@[y] == lcs(bv, av, x, y),
            diff_views(ops@) + diff_script(bv, av, i as int, j as int) == diff_script(bv, av, 0, 0),
        decreases bl - i + al - j,
    {
        let ghost prev = diff_views(ops@);
        if i < bl && j < al && crate::text::str_eq(before[i].as_str(), after[j].as_str()) {
            assert(bv[i as int] == before@[i as int]@ && av[j as int] == after@[j as int]@);
            ops.push(DiffLine::Unchanged(before[i].clone()));
            assert(diff_views(ops@) =~= prev.push(DiffModel::Unchanged(bv[i as int])));
            i = i + 1;
            j = j + 1;
        } else if j < al && (i == bl || table[i][j + 1] >= table[i + 1][j]) {
            assert(av[j as int] == after@[j as int]@);
            proof {
                if i < bl && j < al {
                    assert(bv[i as int] == before@[i as int]@);
                }
            }
            ops.push(DiffLine::Added(after[j].clone()));
            assert(diff_views(ops@) =~= prev.push(DiffModel::Added(av[j as int])));
            j = j + 1;
        } else {
            assert(i < bl);
            assert(bv[i as int] == before@[i as int]@);
            proof {
                if j < al {
                    assert(av[j as int] == after@[j as int]@);
                }
            }
            ops.push(DiffLine::Removed(before[i].clone()));
            assert(diff_views(ops@) =~= prev.push(DiffModel::Removed(bv[i as int])));
            i = i + 1;
        }
        assert(diff_views(ops@) + diff_script(bv, av, i as int, j as int) =~= diff_script(bv, av, 0, 0));
    }
    assert(diff_script(bv, av, i as int, j as int) =~= Seq::<DiffModel>::empty());
    assert(diff_views(ops@) + Seq::<DiffModel>::empty() =~= diff_views(ops@));
    ops
}

/// One diff line as printed: a marker character, the line, and a line break.
pub open spec fn diff_line_text(d: DiffModel) -> Seq<char> {
    match d {
        DiffModel::Unchanged(l) => seq![' '] + l + "\n"@,
        DiffModel::Removed(l) => seq!['-'] + l + "\n"@,
        DiffModel::Added(l) => seq!['+'] + l + "\n"@,
    }
}

/// The printed diff lines, in order.
pub open spec fn diff_body(ds: Seq<DiffModel>) -> Seq<char>
    decreases ds.len(),
{
    if ds.len() == 0 {
        Seq::empty()
    } else {
        diff_body(ds.drop_last()) + diff_line_text(ds.last())
    }
}

/// A compact unified diff of a manifest: file headers, one hunk header
/// covering every line, then the diff lines.
pub open spec fn sync_diff_text(path: Seq<char>, before: Seq<char>, after: Seq<char>) -> Seq<char> {
    "--- a/"@ + path + "\n+++ b/"@ + path + "\n@@ -1,"@ + decimal(lines_of(before).len()) + " +1,"@
        + decimal(lines_of(after).len()) + " @@\n"@ + diff_body(
        diff_script(lines_of(before), lines_of(after), 0, 0),
    )
}

/// Renders a compact unified diff for a manifest preview.
pub fn render_sync_diff(path: &str, before: &str, after: &str) -> (r: String)
    requires
        lines_of(before@).len() < usize::MAX,
        lines_of(after@).len() < usize::MAX,
    ensures
        r@ == sync_diff_text(path@, before@, after@),
{
    let bl = lines_exec(before);
    let al = lines_exec(after);
    let mut out = owned("--- a/");
    out.append(path);
    out.append("\n+++ b/");
    out.append(path);
    out.append("\n@@ -1,");
    out.append(decimal_string(bl.len()).as_str());
    out.append(" +1,");
    out.append(decimal_string(al.len()).as_str());
    out.append(" @@\n");
    let ops = diff_lines(&bl, &al);
    let ghost head = out@;
    let ghost ds = diff_views(ops@);
    let mut k: usize = 0;
    while k < ops.len()
        invariant
            k <= ops@.len(),
            ds == diff_views(ops@),
            out@ == head + diff_body(ds.take(k as int)),
        decreases ops@.len() - k,
    {
        assert(ds.take(k as int + 1).drop_last() == ds.take(k as int));
        assert(ds.take(k as int + 1).last() == ops@[k as int]@);
        match &ops[k] {
            DiffLine::Unchanged(l) => {
                out.append(" ");
                out.append(l.as_str());
            },
            DiffLine::Removed(l) => {
                out.append("-");
                out.append(l.as_str());
            },
            DiffLine::Added(l) => {
                out.append("+");
                out.append(l.as_str());
            },
        }
        out.append("\n");
        proof {
            reveal_strlit(" ");
            reveal_strlit("-");
            reveal_strlit("+");
        }
        assert(out@ =~= head + diff_body(ds.take(k as int + 1)));
        k = k + 1;
    }
    assert(ds.take(ops@.len() as int) == ds);
    out
}

/// The lines a diff keeps from the old text: unchanged and removed lines.
pub open spec fn old_side(ds: Seq<DiffModel>) -> Seq<Seq<char>>
    decreases ds.len(),
{
    if ds.len() == 0 {
        Seq::empty()
    } else {
        match ds[0] {
            DiffModel::Unchanged(l) => seq![l] + old_side(ds.skip(1)),
            DiffModel::Removed(l) => seq![l] + old_side(ds.skip(1)),
            DiffModel::Added(_) => old_side(ds.skip(1)),
        }
    }
}

/// The lines a diff gives the new text: unchanged and added lines.
pub open spec fn new_side(ds: Seq<DiffModel>) -> Seq<Seq<char>>
    decreases ds.len(),
{
    if ds.len() == 0 {
        Seq::empty()
    } else {
        match ds[0] {
            DiffModel::Unchanged(l) => seq![l] + new_side(ds.skip(1)),
            DiffModel::Added(l) => seq![l] + new_side(ds.skip(1)),
            DiffModel::Removed(_) => new_side(ds.skip(1)),
        }
    }
}

/// A diff is a faithful edit script: reading its unchanged and removed lines
/// gives the old lines, and its unchanged and added lines give the new ones.
pub proof fn law_diff_replays(b: Seq<Seq<char>>, a: Seq<Seq<char>>, i: int, j: int)
    requires
        0 <= i <= b.len(),
        0 <= j <= a.len(),
    ensures
        old_side(diff_script(b, a, i, j)) == b.skip(i),
        new_side(diff_script(b, a, i, j)) == a.skip(j),
    decreases b.len() - i + a.len() - j,
{
    let d = diff_script(b, a, i, j);
    if i < b.len() && j < a.len() && b[i] == a[j] {
        law_diff_replays(b, a, i + 1, j + 1);
        assert(d.skip(1) =~= diff_script(b, a, i + 1, j + 1));
        assert(b.skip(i) =~= seq![b[i]] + b.skip(i + 1));
        assert(a.skip(j) =~= seq![a[j]] + a.skip(j + 1));
    } else if j < a.len() && (i == b.len() || lcs(b, a, i, j + 1) >= lcs(b, a, i + 1, j)) {
        law_diff_replays(b, a, i, j + 1);
        assert(d.skip(1) =~= diff_script(b, a, i, j + 1));
        assert(a.skip(j) =~= seq![a[j]] + a.skip(j + 1));
    } else if i < b.len() {
        law_diff_replays(b, a, i + 1, j);
        assert(d.skip(1) =~= diff_script(b, a, i + 1, j));
        assert(b.skip(i) =~= seq![b[i]] + b.skip(i + 1));
    } else {
        assert(b.skip(i) =~= Seq::<Seq<char>>::empty());
        assert(a.skip(j) =~= Seq::<Seq<char>>::empty());
    }
}

} // verus!
