//! Character-level helpers shared by the parsers and renderers.

use vstd::prelude::*;

verus! {

/// Whitespace as `char::is_whitespace` defines it (the Unicode `White_Space` property).
pub open spec fn is_space(c: char) -> bool {
    ||| ('\u{9}' <= c && c <= '\u{d}')
    ||| c == ' '
    ||| c == '\u{85}'
    ||| c == '\u{a0}'
    ||| c == '\u{1680}'
    ||| ('\u{2000}' <= c && c <= '\u{200a}')
    ||| c == '\u{2028}'
    ||| c == '\u{2029}'
    ||| c == '\u{202f}'
    ||| c == '\u{205f}'
    ||| c == '\u{3000}'
}

/// Executable form of [`is_space`].
pub fn char_is_space(c: char) -> (b: bool)
    ensures
        b == is_space(c),
{
    ('\u{9}' <= c && c <= '\u{d}') || c == ' ' || c == '\u{85}' || c == '\u{a0}' || c
        == '\u{1680}' || ('\u{2000}' <= c && c <= '\u{200a}') || c == '\u{2028}' || c
        == '\u{2029}' || c == '\u{202f}' || c == '\u{205f}' || c == '\u{3000}'
}

/// ASCII letters and digits, as `char::is_ascii_alphanumeric` defines them.
pub open spec fn is_ascii_alnum(c: char) -> bool {
    ||| ('a' <= c && c <= 'z')
    ||| ('A' <= c && c <= 'Z')
    ||| ('0' <= c && c <= '9')
}

/// Executable form of [`is_ascii_alnum`].
pub fn char_is_ascii_alnum(c: char) -> (b: bool)
    ensures
        b == is_ascii_alnum(c),
{
    ('a' <= c && c <= 'z') || ('A' <= c && c <= 'Z') || ('0' <= c && c <= '9')
}

/// The characters of a string slice, in order.
pub fn chars_of(s: &str) -> (v: Vec<char>)
    ensures
        v@ == s@,
{
    let mut v: Vec<char> = Vec::new();
    for c in it: s.chars()
        invariant
            it.seq() == s@,
            v@ == it.seq().take(it.index() as int),
    {
        v.push(c);
        assert(it.seq().take(it.index() as int + 1) == v@);
    }
    v
}

/// Appends one character to a string by `String::push`; the contract claims
/// what std documents: the string afterwards is the old one followed by the
/// character.
#[verifier::external_body]
pub(crate) fn push_char(s: &mut String, c: char)
    ensures
        final(s)@ == old(s)@.push(c),
{
    s.push(c);
}


/// Builds a string from characters.
pub fn string_of(chars: &[char]) -> (s: String)
    ensures
        s@ == chars@,
{
    let mut s = String::new();
    let mut i: usize = 0;
    while i < chars.len()
        invariant
            i <= chars@.len(),
            s@ == chars@.take(i as int),
        decreases chars@.len() - i,
    {
        push_char(&mut s, chars[i]);
        assert(chars@.take(i as int + 1) == chars@.take(i as int).push(chars@[i as int]));
        i = i + 1;
    }
    assert(chars@.take(chars@.len() as int) == chars@);
    s
}

/// Copies a string slice into an owned string.
pub fn owned(s: &str) -> (r: String)
    ensures
        r@ == s@,
{
    s.to_owned()
}

/// Character views of a sequence of strings.
pub open spec fn views(v: Seq<String>) -> Seq<Seq<char>> {
    v.map_values(|s: String| s@)
}

/// `parts` joined with `sep` between consecutive parts (`[&str]::join`).
pub open spec fn join(parts: Seq<Seq<char>>, sep: Seq<char>) -> Seq<char>
    decreases parts.len(),
{
    if parts.len() == 0 {
        Seq::empty()
    } else if parts.len() == 1 {
        parts[0]
    } else {
        join(parts.drop_last(), sep) + sep + parts.last()
    }
}

/// Executable form of [`join`].
pub fn join_strings(parts: &Vec<String>, sep: &str) -> (r: String)
    ensures
        r@ == join(views(parts@), sep@),
{
    let mut r = String::new();
    let mut i: usize = 0;
    while i < parts.len()
        invariant
            i <= parts@.len(),
            r@ == join(views(parts@).take(i as int), sep@),
        decreases parts@.len() - i,
    {
        if i > 0 {
            r.append(sep);
        }
        r.append(parts[i].as_str());
        assert(views(parts@).take(i as int + 1).drop_last() == views(parts@).take(i as int));
        i = i + 1;
    }
    assert(views(parts@).take(parts@.len() as int) == views(parts@));
    r
}

/// Whether every character of `s` is whitespace.
pub open spec fn all_space(s: Seq<char>) -> bool {
    forall|i: int| 0 <= i < s.len() ==> #[trigger] is_space(s[i])
}

/// `s` without leading whitespace (`str::trim_start`).
pub open spec fn trim_start(s: Seq<char>) -> Seq<char>
    decreases s.len(),
{
    if s.len() > 0 && is_space(s[0]) {
        trim_start(s.drop_first())
    } else {
        s
    }
}

/// `s` without trailing whitespace (`str::trim_end`).
pub open spec fn trim_end(s: Seq<char>) -> Seq<char>
    decreases s.len(),
{
    if s.len() > 0 && is_space(s.last()) {
        trim_end(s.drop_last())
    } else {
        s
    }
}

/// `s` without leading and trailing whitespace (`str::trim`).
pub open spec fn trim(s: Seq<char>) -> Seq<char> {
    trim_end(trim_start(s))
}

/// Skipping `k` leading spaces leaves the same trimmed start.
pub proof fn lemma_trim_start_skip(s: Seq<char>, k: int)
    requires
        0 <= k <= s.len(),
        forall|j: int| 0 <= j < k ==> #[trigger] is_space(s[j]),
    ensures
        trim_start(s) == trim_start(s.skip(k)),
    decreases k,
{
    if k > 0 {
        assert(s.drop_first().skip(k - 1) == s.skip(k));
        lemma_trim_start_skip(s.drop_first(), k - 1);
    } else {
        assert(s.skip(0) == s);
    }
}

/// Dropping `k` trailing spaces leaves the same trimmed end.
pub proof fn lemma_trim_end_take(s: Seq<char>, k: int)
    requires
        0 <= k <= s.len(),
        forall|j: int| k <= j < s.len() ==> #[trigger] is_space(s[j]),
    ensures
        trim_end(s) == trim_end(s.take(k)),
    decreases s.len() - k,
{
    if k < s.len() {
        assert(s.drop_last().take(k) == s.take(k));
        lemma_trim_end_take(s.drop_last(), k);
    } else {
        assert(s.take(k) == s);
    }
}

/// A string of spaces trims to nothing, and only such a string does.
pub proof fn lemma_trim_empty(s: Seq<char>)
    ensures
        (trim(s).len() == 0) == all_space(s),
        (trim_start(s).len() == 0) == all_space(s),
    decreases s.len(),
{
    if s.len() > 0 {
        lemma_trim_empty(s.drop_first());
        if is_space(s[0]) {
            assert(all_space(s) == all_space(s.drop_first())) by {
                if all_space(s.drop_first()) {
                    assert forall|i: int| 0 <= i < s.len() implies #[trigger] is_space(s[i]) by {
                        if i > 0 {
                            assert(s[i] == s.drop_first()[i - 1]);
                        }
                    }
                }
            }
        } else {
            lemma_trim_end_nonempty(s);
        }
    }
}

/// Trimming the end of a string that starts with a non-space keeps that start.
pub proof fn lemma_trim_end_nonempty(s: Seq<char>)
    requires
        s.len() > 0,
        !is_space(s[0]),
    ensures
        trim_end(s).len() > 0,
        trim_end(s)[0] == s[0],
    decreases s.len(),
{
    if is_space(s.last()) {
        lemma_trim_end_nonempty(s.drop_last());
    }
}

/// Trimming the start of text that holds a non-space only touches its head.
pub proof fn lemma_trim_start_append(x: Seq<char>, y: Seq<char>)
    requires
        !all_space(x),
    ensures
        trim_start(x + y) == trim_start(x) + y,
    decreases x.len(),
{
    assert(x.len() > 0);
    assert((x + y)[0] == x[0]);
    if is_space(x[0]) {
        assert(!all_space(x.drop_first())) by {
            let k = choose|k: int| 0 <= k < x.len() && !is_space(#[trigger] x[k]);
            assert(k > 0);
            assert(x.drop_first()[k - 1] == x[k]);
        }
        lemma_trim_start_append(x.drop_first(), y);
        assert((x + y).drop_first() =~= x.drop_first() + y);
    }
}

/// The end that [`trim_end`] keeps: a prefix followed only by spaces.
pub proof fn lemma_trim_end_prefix(s: Seq<char>) -> (k: int)
    ensures
        0 <= k <= s.len(),
        trim_end(s) == s.take(k),
        forall|j: int| k <= j < s.len() ==> #[trigger] is_space(s[j]),
    decreases s.len(),
{
    if s.len() > 0 && is_space(s.last()) {
        let k = lemma_trim_end_prefix(s.drop_last());
        assert(s.drop_last().take(k) =~= s.take(k));
        assert forall|j: int| k <= j < s.len() implies #[trigger] is_space(s[j]) by {
            if j < s.len() - 1 {
                assert(s[j] == s.drop_last()[j]);
            }
        }
        k
    } else {
        assert(s.take(s.len() as int) =~= s);
        s.len() as int
    }
}

/// Trimming both ends ignores a trimmed end.
pub proof fn lemma_trim_of_trim_end(s: Seq<char>)
    ensures
        trim(trim_end(s)) == trim(s),
{
    let k = lemma_trim_end_prefix(s);
    let x = s.take(k);
    let y = s.skip(k);
    assert(s =~= x + y);
    if all_space(x) {
        assert(all_space(s)) by {
            assert forall|i: int| 0 <= i < s.len() implies #[trigger] is_space(s[i]) by {
                if i < k {
                    assert(s[i] == x[i]);
                }
            }
        }
        lemma_trim_empty(s);
        lemma_trim_empty(x);
        assert(trim(s) =~= trim(x));
    } else {
        lemma_trim_start_append(x, y);
        let z = trim_start(x);
        assert(trim_start(s) == z + y);
        assert forall|j: int| z.len() <= j < (z + y).len() implies #[trigger] is_space((z + y)[j]) by {
            assert((z + y)[j] == y[j - z.len()]);
            assert(y[j - z.len()] == s[k + j - z.len()]);
        }
        lemma_trim_end_take(z + y, z.len() as int);
        assert((z + y).take(z.len() as int) =~= z);
    }
}

/// Whitespace around text does not change how it trims.
pub proof fn lemma_trim_padded(w1: Seq<char>, x: Seq<char>, w2: Seq<char>)
    requires
        all_space(w1),
        all_space(w2),
    ensures
        trim(w1 + x + w2) == trim(x),
{
    let s = w1 + x + w2;
    assert forall|j: int| 0 <= j < w1.len() implies #[trigger] is_space(s[j]) by {
        assert(s[j] == w1[j]);
    }
    lemma_trim_start_skip(s, w1.len() as int);
    assert(s.skip(w1.len() as int) =~= x + w2);
    if all_space(x) {
        assert(all_space(x + w2)) by {
            assert forall|i: int| 0 <= i < (x + w2).len() implies #[trigger] is_space((x + w2)[i]) by {
                if i < x.len() {
                    assert((x + w2)[i] == x[i]);
                } else {
                    assert((x + w2)[i] == w2[i - x.len()]);
                }
            }
        }
        lemma_trim_empty(x + w2);
        lemma_trim_empty(x);
        assert(trim(s) =~= trim(x));
    } else {
        lemma_trim_start_append(x, w2);
        let z = trim_start(x);
        assert forall|j: int| z.len() <= j < (z + w2).len() implies #[trigger] is_space((z + w2)[j]) by {
            assert((z + w2)[j] == w2[j - z.len()]);
        }
        lemma_trim_end_take(z + w2, z.len() as int);
        assert((z + w2).take(z.len() as int) =~= z);
    }
}

/// Index of the first non-space character, or the length when there is none.
fn first_non_space(v: &Vec<char>) -> (i: usize)
    ensures
        i <= v@.len(),
        forall|j: int| 0 <= j < i ==> #[trigger] is_space(v@[j]),
        i < v@.len() ==> !is_space(v@[i as int]),
{
    let mut i: usize = 0;
    while i < v.len() && char_is_space(v[i])
        invariant
            i <= v@.len(),
            forall|j: int| 0 <= j < i ==> #[trigger] is_space(v@[j]),
        decreases v@.len() - i,
    {
        i = i + 1;
    }
    i
}

/// Copies `v[from..to]` into a string.
pub fn string_of_range(v: &Vec<char>, from: usize, to: usize) -> (s: String)
    requires
        from <= to <= v@.len(),
    ensures
        s@ == v@.subrange(from as int, to as int),
{
    let mut s = String::new();
    let mut i: usize = from;
    while i < to
        invariant
            from <= i <= to <= v@.len(),
            s@ == v@.subrange(from as int, i as int),
        decreases to - i,
    {
        push_char(&mut s, v[i]);
        assert(v@.subrange(from as int, i as int + 1) == v@.subrange(from as int, i as int).push(
            v@[i as int],
        ));
        i = i + 1;
    }
    s
}

/// Bounds `(start, end)` of the trimmed part of `v`.
fn trim_bounds(v: &Vec<char>) -> (r: (usize, usize))
    ensures
        r.0 <= r.1 <= v@.len(),
        v@.subrange(r.0 as int, r.1 as int) == trim(v@),
        trim_start(v@) == v@.skip(r.0 as int),
{
    let start = first_non_space(v);
    proof {
        lemma_trim_start_skip(v@, start as int);
        assert(v@.skip(start as int).skip(0) == v@.skip(start as int));
        if start < v@.len() {
            assert(trim_start(v@.skip(start as int)) == v@.skip(start as int));
        } else {
            assert(v@.skip(start as int).len() == 0);
        }
    }
    let mut end: usize = v.len();
    while end > start && char_is_space(v[end - 1])
        invariant
            start <= end <= v@.len(),
            forall|j: int| end <= j < v@.len() ==> #[trigger] is_space(v@[j]),
        decreases end,
    {
        end = end - 1;
    }
    proof {
        let t = v@.skip(start as int);
        lemma_trim_end_take(t, end - start);
        assert(t.take(end - start) == v@.subrange(start as int, end as int));
        let u = v@.subrange(start as int, end as int);
        if u.len() > 0 {
            assert(u.last() == v@[end - 1]);
        }
    }
    (start, end)
}

/// Executable form of [`trim`].
pub fn trim_str(s: &str) -> (r: String)
    ensures
        r@ == trim(s@),
{
    let v = chars_of(s);
    let (start, end) = trim_bounds(&v);
    string_of_range(&v, start, end)
}

/// Executable form of [`trim_end`].
pub fn trim_end_str(s: &str) -> (r: String)
    ensures
        r@ == trim_end(s@),
{
    let v = chars_of(s);
    let mut end: usize = v.len();
    while end > 0 && char_is_space(v[end - 1])
        invariant
            end <= v@.len(),
            forall|j: int| end <= j < v@.len() ==> #[trigger] is_space(v@[j]),
        decreases end,
    {
        end = end - 1;
    }
    proof {
        lemma_trim_end_take(v@, end as int);
        assert(v@.take(end as int) == v@.subrange(0, end as int));
    }
    string_of_range(&v, 0, end)
}

/// Whether `s` is empty or only whitespace.
pub fn is_blank(s: &str) -> (b: bool)
    ensures
        b == (trim(s@).len() == 0),
        b == all_space(s@),
{
    proof {
        lemma_trim_empty(s@);
    }
    let v = chars_of(s);
    let i = first_non_space(&v);
    i == v.len()
}

/// Character-wise equality of two string slices.
pub fn str_eq(a: &str, b: &str) -> (r: bool)
    ensures
        r == (a@ == b@),
{
    let x = a.to_owned();
    let y = b.to_owned();
    x == y
}


/// The decimal digit character for `d < 10`.
pub open spec fn digit_char(d: nat) -> char {
    ((d + 48) as u32) as char
}

/// Decimal notation of a natural number (`usize::to_string`).
pub open spec fn decimal(n: nat) -> Seq<char>
    decreases n,
{
    if n < 10 {
        seq![digit_char(n)]
    } else {
        decimal(n / 10).push(digit_char(n % 10))
    }
}

/// Executable form of [`decimal`].
pub fn decimal_string(n: usize) -> (s: String)
    ensures
        s@ == decimal(n as nat),
    decreases n,
{
    let d = (n % 10) as u8;
    let c = (d + 48) as char;
    assert(c == digit_char((n % 10) as nat));
    if n < 10 {
        let mut s = String::new();
        push_char(&mut s, c);
        assert(s@ =~= seq![c]);
        s
    } else {
        let mut s = decimal_string(n / 10);
        push_char(&mut s, c);
        s
    }
}

/// Concatenation of two string slices.
pub fn concat2(a: &str, b: &str) -> (r: String)
    ensures
        r@ == a@ + b@,
{
    let mut r = a.to_owned();
    r.append(b);
    r
}

/// Concatenation of three string slices.
pub fn concat3(a: &str, b: &str, c: &str) -> (r: String)
    ensures
        r@ == a@ + b@ + c@,
{
    let mut r = a.to_owned();
    r.append(b);
    r.append(c);
    r
}

/// Concatenation of five string slices.
pub fn concat5(a: &str, b: &str, c: &str, d: &str, e: &str) -> (r: String)
    ensures
        r@ == a@ + b@ + c@ + d@ + e@,
{
    let mut r = a.to_owned();
    r.append(b);
    r.append(c);
    r.append(d);
    r.append(e);
    r
}

/// A line without the carriage return that ended it.
pub open spec fn strip_cr(line: Seq<char>) -> Seq<char> {
    if line.len() > 0 && line.last() == '\r' {
        line.drop_last()
    } else {
        line
    }
}

/// The lines of a text (`str::lines`): split at `\n`, each line losing a `\r`
/// just before its `\n`, with no empty line after a final line break.
pub open spec fn lines_of(s: Seq<char>) -> Seq<Seq<char>>
    decreases s.len(),
{
    match crate::model::find(s, seq!['\n']) {
        Some(i) => if 0 <= i < s.len() {
            seq![strip_cr(s.take(i))] + lines_of(s.skip(i + 1))
        } else {
            Seq::empty()
        },
        None => if s.len() == 0 {
            Seq::empty()
        } else {
            seq![s]
        },
    }
}

/// Executable form of [`lines_of`].
pub fn lines_exec(s: &str) -> (r: Vec<String>)
    ensures
        views(r@) == lines_of(s@),
{
    let v = chars_of(s);
    let nl = chars_of("\n");
    proof {
        reveal_strlit("\n");
        assert(nl@ =~= seq!['\n']);
    }
    let mut r: Vec<String> = Vec::new();
    let mut start: usize = 0;
    assert(v@.skip(0) =~= v@);
    while start < v.len()
        invariant
            start <= v@.len(),
            v@ == s@,
            nl@ == seq!['\n'],
            views(r@) + lines_of(v@.skip(start as int)) == lines_of(v@),
        decreases v@.len() - start,
    {
        let ghost rest = v@.skip(start as int);
        let ghost before = views(r@);
        match crate::model::find_from_exec(&v, &nl, start) {
            Some(k) => {
                proof {
                    crate::model::lemma_find_from(v@, nl@, start as int);
                    crate::model::lemma_find_from(rest, nl@, 0);
                    assert forall|j: int| 0 <= j < rest.len() implies crate::model::occurs_at(rest, nl@, j)
                        == crate::model::occurs_at(v@, nl@, start + j) by {
                        assert(rest.subrange(j, j + 1) =~= v@.subrange(start + j, start + j + 1));
                    }
                    assert(crate::model::occurs_at(rest, nl@, k - start));
                    assert(crate::model::find(rest, nl@) == Some(k - start)) by {
                        if crate::model::find(rest, nl@) != Some(k - start) {
                            match crate::model::find(rest, nl@) {
                                Some(q) => {
                                    assert(crate::model::occurs_at(v@, nl@, start + q));
                                },
                                None => {},
                            }
                        }
                    }
                }
                let mut end = k;
                if end > start && v[end - 1] == '\r' {
                    end = end - 1;
                }
                let line = string_of_range(&v, start, end);
                assert(line@ == strip_cr(rest.take(k - start)));
                r.push(line);
                assert(rest.skip(k - start + 1) =~= v@.skip(k + 1));
                assert(views(r@) =~= before.push(strip_cr(rest.take(k - start))));
                start = k + 1;
            },
            None => {
                proof {
                    crate::model::lemma_find_from(v@, nl@, start as int);
                    crate::model::lemma_find_from(rest, nl@, 0);
                    assert(crate::model::find(rest, nl@) is None) by {
                        match crate::model::find(rest, nl@) {
                            Some(q) => {
                                assert(rest.subrange(q, q + 1) =~= v@.subrange(start + q, start + q + 1));
                                assert(crate::model::occurs_at(v@, nl@, start + q));
                            },
                            None => {},
                        }
                    }
                }
                let line = string_of_range(&v, start, v.len());
                assert(line@ =~= rest);
                r.push(line);
                assert(views(r@) =~= before.push(rest));
                assert(v@.skip(v@.len() as int) =~= Seq::<char>::empty());
                assert(lines_of(Seq::<char>::empty()) =~= Seq::<Seq<char>>::empty()) by {
                    assert(crate::model::find(Seq::<char>::empty(), nl@) is None);
                }
                start = v.len();
            },
        }
    }
    assert(v@.skip(start as int) =~= Seq::<char>::empty());
    assert(lines_of(Seq::<char>::empty()) =~= Seq::<Seq<char>>::empty()) by {
        assert(crate::model::find(Seq::<char>::empty(), nl@) is None);
    }
    assert(views(r@) + Seq::<Seq<char>>::empty() =~= views(r@));
    r
}

} // verus!
