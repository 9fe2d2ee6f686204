//! Best-effort locations of diagnostics inside a manifest's text.

use vstd::prelude::*;

use crate::model::{find, split_once, split_once_exec};
use crate::text::{chars_of, concat3, is_space, lines_exec, lines_of, owned, str_eq, trim, trim_str, views};
use crate::validate::{Issue, IssueModel};

verus! {

/// Best-effort source location inside a manifest file.
#[derive(Debug, Clone, Copy, PartialEq, Eq)]
pub struct SourceSpan {
    /// One-based line number.
    pub line: usize,
    /// One-based byte column of the key.
    pub column: usize,
}

/// Lightweight source map for locating feature-manifest diagnostics in TOML.
#[derive(Debug, Clone, Copy)]
pub struct ManifestSourceMap<'a> {
    source: &'a str,
}

/// The number of bytes of a character in UTF-8.
pub open spec fn utf8_width(c: char) -> nat {
    if (c as u32) < 0x80 {
        1
    } else if (c as u32) < 0x800 {
        2
    } else if (c as u32) < 0x10000 {
        3
    } else {
        4
    }
}

/// The number of bytes of a text in UTF-8.
pub open spec fn utf8_len(s: Seq<char>) -> nat
    decreases s.len(),
{
    if s.len() == 0 {
        0
    } else {
        utf8_len(s.drop_last()) + utf8_width(s.last())
    }
}

/// `s` without leading and trailing `c` (`str::trim_matches` with a character).
pub open spec fn strip_char(s: Seq<char>, c: char) -> Seq<char> {
    strip_char_end(strip_char_start(s, c), c)
}

/// `s` without leading `c`.
pub open spec fn strip_char_start(s: Seq<char>, c: char) -> Seq<char>
    decreases s.len(),
{
    if s.len() > 0 && s[0] == c {
        strip_char_start(s.drop_first(), c)
    } else {
        s
    }
}

/// `s` without trailing `c`.
pub open spec fn strip_char_end(s: Seq<char>, c: char) -> Seq<char>
    decreases s.len(),
{
    if s.len() > 0 && s.last() == c {
        strip_char_end(s.drop_last(), c)
    } else {
        s
    }
}

/// Index of the first non-space character.
pub open spec fn first_non_space_index(s: Seq<char>) -> Option<int>
    decreases s.len(),
{
    if s.len() == 0 {
        None
    } else if !is_space(s[0]) {
        Some(0)
    } else {
        match first_non_space_index(s.drop_first()) {
            Some(i) => Some(i + 1),
            None => None,
        }
    }
}

/// The key written before `=` on a line and the byte column where it starts,
/// unless the line is a comment or has no key.
pub open spec fn key_on_line(line: Seq<char>) -> Option<(Seq<char>, nat)> {
    match split_once(line, "="@) {
        None => None,
        Some((raw_key, _)) => match first_non_space_index(raw_key) {
            None => None,
            Some(t) => {
                let key = trim(raw_key.skip(t));
                if key.len() == 0 || key[0] == '#' {
                    None
                } else {
                    Some((trim(strip_char(strip_char(key, '"'), '\'')), utf8_len(raw_key.take(t)) + 1))
                }
            },
        }
    }
}

/// Whether a line holds `value` as a quoted string.
pub open spec fn has_string_value(line: Seq<char>, value: Seq<char>) -> bool {
    find(line, "\""@ + value + "\""@) is Some || find(line, "'"@ + value + "'"@) is Some
}

/// What a scan looks for: a key in some sections, or a group's `name` line.
pub enum SpanQuery {
    Key(Seq<Seq<char>>, Seq<char>),
    GroupName(Seq<char>),
}

/// Whether a section header opens the region the query looks in.
pub open spec fn opens_region(q: SpanQuery, header: Seq<char>) -> bool {
    match q {
        SpanQuery::Key(sections, _) => sections.contains(header),
        SpanQuery::GroupName(_) => header == "[[package.metadata.feature-manifest.groups]]"@ || header
            == "[[package.metadata.feature-docs.groups]]"@,
    }
}

/// Whether a key line inside the region is the one the query looks for.
pub open spec fn line_matches(q: SpanQuery, line: Seq<char>, key: Seq<char>) -> bool {
    match q {
        SpanQuery::Key(_, name) => key == name,
        SpanQuery::GroupName(group) => key == "name"@ && has_string_value(line, group),
    }
}

/// The first matching line from `lines[k..]`, as a one-based line number and a
/// column; lines whose trimmed text starts with `[` are section headers.
pub open spec fn scan_lines(lines: Seq<Seq<char>>, k: int, inside: bool, q: SpanQuery) -> Option<(nat, nat)>
    decreases lines.len() - k,
{
    if k < 0 || k >= lines.len() {
        None
    } else {
        let t = trim(lines[k]);
        if t.len() > 0 && t[0] == '[' {
            scan_lines(lines, k + 1, opens_region(q, t), q)
        } else {
            match key_on_line(lines[k]) {
                Some((key, col)) => if inside && line_matches(q, lines[k], key) {
                    Some(((k + 1) as nat, col))
                } else {
                    scan_lines(lines, k + 1, inside, q)
                },
                None => scan_lines(lines, k + 1, inside, q),
            }
        }
    }
}

/// A count held in a `usize`: a column past `usize::MAX` bytes cannot occur
/// in a text held in memory, and is shown as `usize::MAX`.
pub open spec fn capped(n: nat) -> usize {
    if n > usize::MAX {
        usize::MAX
    } else {
        n as usize
    }
}

/// The span of a scan result.
pub open spec fn span_of(r: Option<(nat, nat)>) -> Option<SourceSpan> {
    match r {
        Some((l, c)) => Some(SourceSpan { line: capped(l), column: capped(c) }),
        None => None,
    }
}

/// The sections that hold feature metadata.
pub open spec fn metadata_sections() -> Seq<Seq<char>> {
    seq![
        "[package.metadata.feature-manifest.features]"@,
        "[package.metadata.feature-manifest]"@,
        "[package.metadata.feature-docs.features]"@,
        "[package.metadata.feature-docs]"@,
    ]
}

/// Whether a lint code is reported against a group.
pub open spec fn group_code(code: Seq<char>) -> bool {
    code == "small-group"@ || code == "duplicate-group-member"@ || code == "unknown-group-member"@
        || code == "mutually-exclusive-default"@
}

/// Where an issue points: its group's `name` line, its metadata key, or its
/// feature key (else its metadata key).
pub open spec fn issue_span(source: Seq<char>, i: IssueModel) -> Option<(nat, nat)> {
    match i.feature {
        None => None,
        Some(name) => {
            let lines = lines_of(source);
            if group_code(i.code) {
                scan_lines(lines, 0, false, SpanQuery::GroupName(name))
            } else if i.code == "unknown-metadata"@ {
                scan_lines(lines, 0, false, SpanQuery::Key(metadata_sections(), name))
            } else {
                match scan_lines(lines, 0, false, SpanQuery::Key(seq!["[features]"@], name)) {
                    Some(s) => Some(s),
                    None => scan_lines(lines, 0, false, SpanQuery::Key(metadata_sections(), name)),
                }
            }
        },
    }
}

/// A scan finds a line of the text, at a column from one on.
pub proof fn lemma_scan_bounds(lines: Seq<Seq<char>>, k: int, inside: bool, q: SpanQuery)
    ensures
        scan_lines(lines, k, inside, q) matches Some((l, c)) ==> k + 1 <= l <= lines.len() && c >= 1,
    decreases lines.len() - k,
{
    if 0 <= k < lines.len() {
        let t = trim(lines[k]);
        if t.len() > 0 && t[0] == '[' {
            lemma_scan_bounds(lines, k + 1, opens_region(q, t), q);
        } else {
            lemma_scan_bounds(lines, k + 1, inside, q);
        }
    }
}

/// Where an issue points is a line of the manifest text, at a column from
/// one on.
pub proof fn law_issue_span_in_text(source: Seq<char>, i: IssueModel)
    ensures
        issue_span(source, i) matches Some((l, c)) ==> 1 <= l <= lines_of(source).len() && c >= 1,
{
    let lines = lines_of(source);
    if let Some(name) = i.feature {
        lemma_scan_bounds(lines, 0, false, SpanQuery::GroupName(name));
        lemma_scan_bounds(lines, 0, false, SpanQuery::Key(metadata_sections(), name));
        lemma_scan_bounds(lines, 0, false, SpanQuery::Key(seq!["[features]"@], name));
    }
}

/// Executable form of [`strip_char`].
fn strip_char_exec(s: &str, c: char) -> (r: String)
    ensures
        r@ == strip_char(s@, c),
{
    let v = chars_of(s);
    let mut a: usize = 0;
    assert(v@.skip(0) == v@);
    while a < v.len() && v[a] == c
        invariant
            a <= v@.len(),
            strip_char_start(v@, c) == strip_char_start(v@.skip(a as int), c),
        decreases v@.len() - a,
    {
        assert(v@.skip(a as int).drop_first() == v@.skip(a as int + 1));
        a = a + 1;
    }
    let ghost mid = v@.skip(a as int);
    assert(strip_char_start(v@, c) == mid);
    let mut b: usize = v.len();
    assert(mid.take(mid.len() as int) == mid);
    while b > a && v[b - 1] == c
        invariant
            a <= b <= v@.len(),
            mid == v@.skip(a as int),
            strip_char_end(mid, c) == strip_char_end(v@.subrange(a as int, b as int), c),
        decreases b,
    {
        assert(v@.subrange(a as int, b as int).drop_last() == v@.subrange(a as int, b as int - 1));
        b = b - 1;
    }
    crate::text::string_of_range(&v, a, b)
}

/// Executable form of [`first_non_space_index`].
fn first_non_space_at(v: &Vec<char>, to: usize) -> (r: Option<usize>)
    requires
        to <= v@.len(),
    ensures
        match r {
            Some(i) => first_non_space_index(v@.take(to as int)) == Some(i as int) && i < to,
            None => first_non_space_index(v@.take(to as int)) is None,
        },
{
    let ghost s = v@.take(to as int);
    let mut i: usize = 0;
    assert(s.skip(0) == s);
    while i < to && crate::text::char_is_space(v[i])
        invariant
            i <= to <= v@.len(),
            s == v@.take(to as int),
            first_non_space_index(s) == match first_non_space_index(s.skip(i as int)) {
                Some(j) => Some(j + i),
                None => None,
            },
        decreases to - i,
    {
        assert(s.skip(i as int)[0] == v@[i as int]);
        assert(s.skip(i as int).drop_first() == s.skip(i as int + 1));
        i = i + 1;
    }
    if i < to {
        assert(s.skip(i as int)[0] == v@[i as int]);
        Some(i)
    } else {
        assert(s.skip(i as int).len() == 0);
        None
    }
}

/// The UTF-8 length of `v[..t]`, saturated at `usize::MAX`.
fn utf8_prefix_len(v: &Vec<char>, t: usize) -> (r: usize)
    requires
        t <= v@.len(),
    ensures
        r == capped(utf8_len(v@.take(t as int))),
{
    let mut n: usize = 0;
    let mut i: usize = 0;
    while i < t
        invariant
            i <= t <= v@.len(),
            n == capped(utf8_len(v@.take(i as int))),
        decreases t - i,
    {
        let c = v[i];
        let w: usize = if (c as u32) < 0x80 {
            1
        } else if (c as u32) < 0x800 {
            2
        } else if (c as u32) < 0x10000 {
            3
        } else {
            4
        };
        assert(v@.take(i as int + 1).drop_last() == v@.take(i as int));
        assert(w == utf8_width(c));
        n = n.saturating_add(w);
        i = i + 1;
    }
    n
}

/// Executable form of [`key_on_line`], the column saturated.
fn toml_key_span(line: &str) -> (r: Option<(String, usize)>)
    ensures
        match key_on_line(line@) {
            Some((k, c)) => r matches Some((x, y)) && x@ == k && y == capped(c),
            None => r is None,
        },
{
    let v = chars_of(line);
    let eq = chars_of("=");
    let (raw_key, _) = match split_once_exec(&v, &eq) {
        Some(parts) => parts,
        None => {
            return None;
        },
    };
    let rk = chars_of(raw_key.as_str());
    let t = match first_non_space_at(&rk, rk.len()) {
        Some(t) => t,
        None => {
            assert(rk@.take(rk@.len() as int) == rk@);
            return None;
        },
    };
    assert(rk@.take(rk@.len() as int) == rk@);
    let rest = crate::text::string_of_range(&rk, t, rk.len());
    assert(rk@.subrange(t as int, rk@.len() as int) == rk@.skip(t as int));
    let key = trim_str(rest.as_str());
    let kc = chars_of(key.as_str());
    if kc.len() == 0 || kc[0] == '#' {
        return None;
    }
    let inner = strip_char_exec(strip_char_exec(key.as_str(), '"').as_str(), '\'');
    let width = utf8_prefix_len(&rk, t);
    let column = width.saturating_add(1);
    proof {
        assert(capped(utf8_len(rk@.take(t as int)) + 1) == column);
    }
    Some((trim_str(inner.as_str()), column))
}

/// Executable form of [`has_string_value`].
fn line_has_string_value(line: &str, value: &str) -> (b: bool)
    ensures
        b == has_string_value(line@, value@),
{
    let v = chars_of(line);
    let dq = chars_of(concat3("\"", value, "\"").as_str());
    let sq = chars_of(concat3("'", value, "'").as_str());
    crate::model::find_from_exec(&v, &dq, 0).is_some() || crate::model::find_from_exec(&v, &sq, 0).is_some()
}

/// Scans lines for the first key line the query looks for.
fn scan_exec(lines: &Vec<String>, sections: &Vec<&str>, name: &str, group: bool) -> (r: Option<SourceSpan>)
    ensures
        r == span_of(
            scan_lines(
                views(lines@),
                0,
                false,
                if group {
                    SpanQuery::GroupName(name@)
                } else {
                    SpanQuery::Key(crate::model::str_views(sections@), name@)
                },
            ),
        ),
{
    let ghost q = if group {
        SpanQuery::GroupName(name@)
    } else {
        SpanQuery::Key(crate::model::str_views(sections@), name@)
    };
    let ghost ls = views(lines@);
    let mut inside = false;
    let mut k: usize = 0;
    while k < lines.len()
        invariant
            k <= lines@.len(),
            ls == views(lines@),
            q == (if group {
                SpanQuery::GroupName(name@)
            } else {
                SpanQuery::Key(crate::model::str_views(sections@), name@)
            }),
            scan_lines(ls, 0, false, q) == scan_lines(ls, k as int, inside, q),
        decreases lines@.len() - k,
    {
        let line = lines[k].as_str();
        assert(ls[k as int] == line@);
        let t = trim_str(line);
        let tc = chars_of(t.as_str());
        if tc.len() > 0 && tc[0] == '[' {
            inside = if group {
                str_eq(t.as_str(), "[[package.metadata.feature-manifest.groups]]") || str_eq(
                    t.as_str(),
                    "[[package.metadata.feature-docs.groups]]",
                )
            } else {
                let mut found = false;
                let mut j: usize = 0;
                while j < sections.len()
                    invariant
                        j <= sections@.len(),
                        found == crate::model::str_views(sections@).take(j as int).contains(t@),
                    decreases sections@.len() - j,
                {
                    let ghost prev = crate::model::str_views(sections@).take(j as int);
                    assert(crate::model::str_views(sections@).take(j as int + 1) == prev.push(sections@[j as int]@));
                    if str_eq(sections[j], t.as_str()) {
                        found = true;
                        assert(prev.push(sections@[j as int]@)[j as int] == t@);
                    } else if found {
                        let ghost w = choose|w: int| 0 <= w < prev.len() && prev[w] == t@;
                        assert(prev.push(sections@[j as int]@)[w] == t@);
                    } else {
                        assert forall|w: int| 0 <= w < prev.len() + 1 implies prev.push(sections@[j as int]@)[w] != t@ by {
                            if w < prev.len() {
                                assert(prev.push(sections@[j as int]@)[w] == prev[w]);
                            }
                        }
                    }
                    j = j + 1;
                }
                assert(crate::model::str_views(sections@).take(sections@.len() as int)
                    == crate::model::str_views(sections@));
                found
            };
        } else {
            match toml_key_span(line) {
                Some((key, column)) => {
                    let hit = inside && if group {
                        str_eq(key.as_str(), "name") && line_has_string_value(line, name)
                    } else {
                        str_eq(key.as_str(), name)
                    };
                    if hit {
                        assert(k + 1 <= usize::MAX);
                        return Some(SourceSpan { line: k + 1, column });
                    }
                },
                None => {},
            }
        }
        k = k + 1;
    }
    None
}

impl<'a> ManifestSourceMap<'a> {
    /// The text being mapped.
    pub closed spec fn text(self) -> Seq<char> {
        self.source@
    }

    /// A source map over a manifest's text.
    pub fn new(source: &'a str) -> (r: Self)
        ensures
            r.text() == source@,
    {
        ManifestSourceMap { source }
    }

    /// Where an issue points in the manifest.
    pub fn span_for_issue(&self, issue: &Issue) -> (r: Option<SourceSpan>)
        ensures
            r == span_of(issue_span(self.text(), issue@)),
    {
        let name = match &issue.feature {
            Some(n) => n.as_str(),
            None => {
                return None;
            },
        };
        let code = issue.code;
        if str_eq(code, "small-group") || str_eq(code, "duplicate-group-member") || str_eq(
            code,
            "unknown-group-member",
        ) || str_eq(code, "mutually-exclusive-default") {
            self.group_name_span(name)
        } else if str_eq(code, "unknown-metadata") {
            self.metadata_key_span(name)
        } else {
            match self.feature_key_span(name) {
                Some(s) => Some(s),
                None => self.metadata_key_span(name),
            }
        }
    }

    /// Where a key of `[features]` is written.
    pub fn feature_key_span(&self, name: &str) -> (r: Option<SourceSpan>)
        ensures
            r == span_of(scan_lines(lines_of(self.text()), 0, false, SpanQuery::Key(seq!["[features]"@], name@))),
    {
        let sections: Vec<&str> = vec!["[features]"];
        assert(crate::model::str_views(sections@) =~= seq!["[features]"@]);
        self.key_span_in_sections(&sections, name)
    }

    /// Where a feature's metadata key is written.
    pub fn metadata_key_span(&self, name: &str) -> (r: Option<SourceSpan>)
        ensures
            r == span_of(scan_lines(lines_of(self.text()), 0, false, SpanQuery::Key(metadata_sections(), name@))),
    {
        let sections: Vec<&str> = vec![
            "[package.metadata.feature-manifest.features]",
            "[package.metadata.feature-manifest]",
            "[package.metadata.feature-docs.features]",
            "[package.metadata.feature-docs]",
        ];
        assert(crate::model::str_views(sections@) =~= metadata_sections());
        self.key_span_in_sections(&sections, name)
    }

    /// Where a group's `name` line is written.
    pub fn group_name_span(&self, group_name: &str) -> (r: Option<SourceSpan>)
        ensures
            r == span_of(scan_lines(lines_of(self.text()), 0, false, SpanQuery::GroupName(group_name@))),
    {
        let lines = lines_exec(self.source);
        let sections: Vec<&str> = Vec::new();
        scan_exec(&lines, &sections, group_name, true)
    }

    /// Where a key is written in one of the given sections.
    fn key_span_in_sections(&self, sections: &Vec<&str>, name: &str) -> (r: Option<SourceSpan>)
        ensures
            r == span_of(
                scan_lines(
                    lines_of(self.text()),
                    0,
                    false,
                    SpanQuery::Key(crate::model::str_views(sections@), name@),
                ),
            ),
    {
        let lines = lines_exec(self.source);
        scan_exec(&lines, sections, name, false)
    }
}

} // verus!
