//! Generated-document handling: marker regions, injection, and output checks.

use vstd::prelude::*;

use crate::model::{occurs_at, occurs_at_exec};
use crate::text::{
    all_space, chars_of, concat2, concat3, lemma_trim_of_trim_end, lemma_trim_padded, owned, push_char,
    string_of_range, trim, trim_end, trim_end_str, trim_str,
};

verus! {

/// Marker pair used for injecting generated content into an existing file.
#[derive(Debug, Clone, PartialEq, Eq)]
pub struct InjectionMarkers {
    /// Marker that starts the generated region.
    pub start: String,
    /// Marker that ends the generated region.
    pub end: String,
}

impl Default for InjectionMarkers {
    fn default() -> (m: Self)
        ensures
            m.start@ == "<!-- feature-manifest:start -->"@,
            m.end@ == "<!-- feature-manifest:end -->"@,
    {
        InjectionMarkers {
            start: owned("<!-- feature-manifest:start -->"),
            end: owned("<!-- feature-manifest:end -->"),
        }
    }
}

/// Result of a marker-based document injection.
#[derive(Debug, Clone, PartialEq, Eq)]
pub struct InjectionReport {
    /// Path that was updated.
    pub path: String,
}

/// Marker discovery details for a generated documentation region.
#[derive(Debug, Clone, PartialEq, Eq)]
pub struct MarkerReport {
    /// Path that was inspected.
    pub path: String,
    /// Number of start markers found.
    pub start_count: usize,
    /// Number of end markers found.
    pub end_count: usize,
    /// Whether the first start marker appears before the first end marker.
    pub ordered: bool,
}

impl MarkerReport {
    /// Whether exactly one ordered marker pair exists.
    pub fn ready(&self) -> (b: bool)
        ensures
            b == (self.start_count == 1 && self.end_count == 1 && self.ordered),
    {
        self.start_count == 1 && self.end_count == 1 && self.ordered
    }
}

/// Start indices of the non-overlapping occurrences of `p` in `s` at or after
/// `i`, scanning left to right (`str::match_indices`); an empty pattern
/// matches at every position, the end included.
pub open spec fn positions_from(s: Seq<char>, p: Seq<char>, i: int) -> Seq<int>
    decreases s.len() + 1 - i,
{
    if i < 0 || i > s.len() {
        Seq::empty()
    } else if occurs_at(s, p, i) {
        seq![i] + positions_from(s, p, i + if p.len() == 0 {
            1
        } else {
            p.len() as int
        })
    } else {
        positions_from(s, p, i + 1)
    }
}

/// Start indices of the occurrences of `p` in `s`.
pub open spec fn positions(s: Seq<char>, p: Seq<char>) -> Seq<int> {
    positions_from(s, p, 0)
}

/// The positions found from `i` are at least `i` and within the text.
pub proof fn lemma_positions_range(s: Seq<char>, p: Seq<char>, i: int)
    ensures
        forall|k: int| 0 <= k < positions_from(s, p, i).len() ==> i <= #[trigger] positions_from(s, p, i)[k] <= s.len(),
        positions_from(s, p, i).len() <= s.len() + 1 - i || positions_from(s, p, i).len() == 0,
    decreases s.len() + 1 - i,
{
    if i < 0 || i > s.len() {
    } else if occurs_at(s, p, i) {
        let next = i + if p.len() == 0 {
            1
        } else {
            p.len() as int
        };
        lemma_positions_range(s, p, next);
        let rest = positions_from(s, p, next);
        assert forall|k: int| 0 <= k < positions_from(s, p, i).len() implies i
            <= #[trigger] positions_from(s, p, i)[k] <= s.len() by {
            if k > 0 {
                assert(positions_from(s, p, i)[k] == rest[k - 1]);
            }
        }
    } else {
        lemma_positions_range(s, p, i + 1);
    }
}

/// Executable form of [`positions`].
pub fn marker_positions(source: &Vec<char>, marker: &Vec<char>) -> (r: Vec<usize>)
    ensures
        r@.map_values(|x: usize| x as int) == positions(source@, marker@),
{
    let mut r: Vec<usize> = Vec::new();
    let mut i: usize = 0;
    while i < source.len()
        invariant
            i <= source@.len(),
            r@.map_values(|x: usize| x as int) + positions_from(source@, marker@, i as int)
                == positions(source@, marker@),
        decreases source@.len() - i,
    {
        let ghost before = r@.map_values(|x: usize| x as int);
        if occurs_at_exec(source, marker, i) {
            r.push(i);
            let next = if marker.len() == 0 {
                i + 1
            } else {
                i + marker.len()
            };
            assert(r@.map_values(|x: usize| x as int) =~= before.push(i as int));
            assert(before.push(i as int) + positions_from(source@, marker@, next as int) =~= before
                + positions_from(source@, marker@, i as int));
            i = next;
        } else {
            i = i + 1;
        }
    }
    let ghost before = r@.map_values(|x: usize| x as int);
    if i == source.len() && occurs_at_exec(source, marker, i) {
        r.push(i);
        assert(r@.map_values(|x: usize| x as int) =~= before.push(i as int));
        assert(positions_from(source@, marker@, i as int + 1) =~= Seq::<int>::empty());
    } else {
        assert(positions_from(source@, marker@, i as int + 1) =~= Seq::<int>::empty());
    }
    assert(r@.map_values(|x: usize| x as int) =~= positions(source@, marker@));
    r
}

/// Whether the first start marker comes before the first end marker.
pub open spec fn markers_ordered(s: Seq<char>, start: Seq<char>, end: Seq<char>) -> bool {
    positions(s, start).len() > 0 && positions(s, end).len() > 0 && positions(s, start)[0]
        < positions(s, end)[0]
}

/// Inspects a document's marker pair.
pub fn inspect_marker_source(path: &str, source: &str, markers: &InjectionMarkers) -> (r: MarkerReport)
    ensures
        r.path@ == path@,
        r.start_count == positions(source@, markers.start@).len(),
        r.end_count == positions(source@, markers.end@).len(),
        r.ordered == markers_ordered(source@, markers.start@, markers.end@),
{
    let v = chars_of(source);
    let starts = marker_positions(&v, &chars_of(markers.start.as_str()));
    let ends = marker_positions(&v, &chars_of(markers.end.as_str()));
    assert(starts@.map_values(|x: usize| x as int).len() == starts@.len());
    assert(ends@.map_values(|x: usize| x as int).len() == ends@.len());
    let ordered = if starts.len() > 0 && ends.len() > 0 {
        assert(starts@.map_values(|x: usize| x as int)[0] == starts@[0] as int);
        assert(ends@.map_values(|x: usize| x as int)[0] == ends@[0] as int);
        starts[0] < ends[0]
    } else {
        false
    };
    MarkerReport { path: owned(path), start_count: starts.len(), end_count: ends.len(), ordered }
}

/// Why a marker region could not be located.
#[derive(Debug, Clone, Copy, PartialEq, Eq)]
pub enum MarkerError {
    /// The start marker does not occur.
    MissingStart,
    /// The end marker does not occur.
    MissingEnd,
    /// A marker occurs more than once.
    Duplicate,
    /// The end marker comes first.
    Misordered,
}

/// The first problem with a document's markers, if any.
pub open spec fn marker_problem(s: Seq<char>, start: Seq<char>, end: Seq<char>) -> Option<MarkerError> {
    if positions(s, start).len() == 0 {
        Some(MarkerError::MissingStart)
    } else if positions(s, end).len() == 0 {
        Some(MarkerError::MissingEnd)
    } else if positions(s, start).len() > 1 || positions(s, end).len() > 1 {
        Some(MarkerError::Duplicate)
    } else if !markers_ordered(s, start, end) {
        Some(MarkerError::Misordered)
    } else {
        None
    }
}

/// Whether the region after the start marker ends no earlier than it begins:
/// true of every document whose markers are in order, unless the start marker
/// overlaps the end marker.
pub open spec fn region_well_formed(s: Seq<char>, start: Seq<char>, end: Seq<char>) -> bool {
    marker_problem(s, start, end) is None ==> positions(s, start)[0] + start.len() <= positions(
        s,
        end,
    )[0]
}

impl MarkerError {
    /// The error as one line of text, naming the document.
    pub fn message(&self, path: &str, markers: &InjectionMarkers) -> (r: String)
        ensures
            r@ == marker_error_text(*self, path@, markers.start@, markers.end@),
    {
        match self {
            MarkerError::MissingStart => {
                let mut r = concat3("start marker `", markers.start.as_str(), "` was not found in `");
                r.append(path);
                r.append("`");
                r
            },
            MarkerError::MissingEnd => {
                let mut r = concat3("end marker `", markers.end.as_str(), "` was not found in `");
                r.append(path);
                r.append("`");
                r
            },
            MarkerError::Duplicate => concat3(
                "document `",
                path,
                "` has duplicate feature-manifest markers",
            ),
            MarkerError::Misordered => concat3(
                "marker order is invalid in `",
                path,
                "`; the end marker appears before the start marker",
            ),
        }
    }
}

/// How a marker error reads.
pub open spec fn marker_error_text(e: MarkerError, path: Seq<char>, start: Seq<char>, end: Seq<char>) -> Seq<char> {
    match e {
        MarkerError::MissingStart => "start marker `"@ + start + "` was not found in `"@ + path
            + "`"@,
        MarkerError::MissingEnd => "end marker `"@ + end + "` was not found in `"@ + path + "`"@,
        MarkerError::Duplicate => "document `"@ + path + "` has duplicate feature-manifest markers"@,
        MarkerError::Misordered => "marker order is invalid in `"@ + path
            + "`; the end marker appears before the start marker"@,
    }
}

/// The indices of the start and end markers.
pub fn marker_bounds(source: &Vec<char>, markers: &InjectionMarkers) -> (r: Result<(usize, usize), MarkerError>)
    ensures
        match r {
            Ok((a, b)) => marker_problem(source@, markers.start@, markers.end@) is None && a
                == positions(source@, markers.start@)[0] && b == positions(
                source@,
                markers.end@,
            )[0] && a < b && b <= source@.len(),
            Err(e) => marker_problem(source@, markers.start@, markers.end@) == Some(e),
        },
{
    let starts = marker_positions(source, &chars_of(markers.start.as_str()));
    let ends = marker_positions(source, &chars_of(markers.end.as_str()));
    let ghost sp = positions(source@, markers.start@);
    let ghost ep = positions(source@, markers.end@);
    assert(starts@.map_values(|x: usize| x as int).len() == starts@.len());
    assert(ends@.map_values(|x: usize| x as int).len() == ends@.len());
    if starts.len() == 0 {
        return Err(MarkerError::MissingStart);
    }
    if ends.len() == 0 {
        return Err(MarkerError::MissingEnd);
    }
    if starts.len() > 1 || ends.len() > 1 {
        return Err(MarkerError::Duplicate);
    }
    assert(starts@.map_values(|x: usize| x as int)[0] == starts@[0] as int);
    assert(ends@.map_values(|x: usize| x as int)[0] == ends@[0] as int);
    if !(starts[0] < ends[0]) {
        return Err(MarkerError::Misordered);
    }
    proof {
        lemma_positions_range(source@, markers.end@, 0);
        assert(ep[0] <= source@.len());
    }
    Ok((starts[0], ends[0]))
}

/// The text between the markers.
pub fn marker_region(source: &str, markers: &InjectionMarkers) -> (r: Result<String, MarkerError>)
    requires
        region_well_formed(source@, markers.start@, markers.end@),
    ensures
        match r {
            Ok(region) => marker_problem(source@, markers.start@, markers.end@) is None && region@
                == source@.subrange(
                positions(source@, markers.start@)[0] + markers.start@.len(),
                positions(source@, markers.end@)[0],
            ),
            Err(e) => marker_problem(source@, markers.start@, markers.end@) == Some(e),
        },
{
    let v = chars_of(source);
    match marker_bounds(&v, markers) {
        Ok((a, b)) => {
            let start_len = chars_of(markers.start.as_str()).len();
            let from = a + start_len;
            Ok(string_of_range(&v, from, b))
        },
        Err(e) => Err(e),
    }
}

/// `s` with a final line break added when it lacks one.
pub open spec fn with_trailing_newline(s: Seq<char>) -> Seq<char> {
    if s.len() > 0 && s.last() == '\n' {
        s
    } else {
        s.push('\n')
    }
}

/// Line endings made uniform: each `\r\n` and each lone `\r` becomes `\n`.
pub open spec fn normalized(s: Seq<char>) -> Seq<char>
    decreases s.len(),
{
    if s.len() == 0 {
        Seq::empty()
    } else if s[0] == '\r' && s.len() > 1 && s[1] == '\n' {
        seq!['\n'] + normalized(s.skip(2))
    } else if s[0] == '\r' {
        seq!['\n'] + normalized(s.skip(1))
    } else {
        seq![s[0]] + normalized(s.skip(1))
    }
}

/// Ensures generated text ends with a line break.
pub fn ensure_trailing_newline(contents: &str) -> (r: String)
    ensures
        r@ == with_trailing_newline(contents@),
{
    let v = chars_of(contents);
    let mut r = owned(contents);
    if v.len() > 0 && v[v.len() - 1] == '\n' {
        r
    } else {
        push_char(&mut r, '\n');
        r
    }
}

/// Makes line endings uniform (`\r\n` and `\r` become `\n`).
pub fn normalize_line_endings(contents: &str) -> (r: String)
    ensures
        r@ == normalized(contents@),
{
    let v = chars_of(contents);
    let mut r = String::new();
    let mut i: usize = 0;
    assert(v@.skip(0) =~= v@);
    assert(r@ + normalized(v@) =~= normalized(v@));
    while i < v.len()
        invariant
            i <= v@.len(),
            v@ == contents@,
            r@ + normalized(v@.skip(i as int)) == normalized(v@),
        decreases v@.len() - i,
    {
        let ghost before = r@;
        let ghost rest = v@.skip(i as int);
        assert(rest[0] == v@[i as int]);
        if v[i] == '\r' && i + 1 < v.len() && v[i + 1] == '\n' {
            assert(rest[1] == v@[i + 1]);
            assert(rest.skip(2) =~= v@.skip(i + 2));
            push_char(&mut r, '\n');
            i = i + 2;
        } else {
            assert(rest.skip(1) =~= v@.skip(i + 1));
            if v[i] == '\r' {
                push_char(&mut r, '\n');
            } else {
                push_char(&mut r, v[i]);
            }
            i = i + 1;
        }
        assert(r@ + normalized(v@.skip(i as int)) =~= before + normalized(rest));
    }
    assert(v@.skip(i as int) =~= Seq::<char>::empty());
    assert(r@ + Seq::<char>::empty() =~= r@);
    r
}

/// Whether existing generated output already matches the expected contents,
/// line endings aside.
pub fn output_text_matches(existing: &str, contents: &str) -> (b: bool)
    ensures
        b == (normalized(existing@) == normalized(with_trailing_newline(contents@))),
{
    let a = normalize_line_endings(existing);
    let b = normalize_line_endings(ensure_trailing_newline(contents).as_str());
    crate::text::str_eq(a.as_str(), b.as_str())
}

/// A document with the region between its markers replaced by `contents`:
/// the text through the start marker, a blank line, the contents without
/// trailing whitespace, a line break, and the text from the end marker on.
pub open spec fn injected_text(s: Seq<char>, start: Seq<char>, end: Seq<char>, contents: Seq<char>) -> Seq<char> {
    s.take(positions(s, start)[0] + start.len()) + "\n\n"@ + trim_end(with_trailing_newline(contents))
        + "\n"@ + s.skip(positions(s, end)[0])
}

/// Replaces the region between two markers, keeping the markers: the text
/// to write back to the document.
pub fn inject_text(existing: &str, contents: &str, markers: &InjectionMarkers) -> (r: Result<String, MarkerError>)
    ensures
        match r {
            Ok(text) => marker_problem(existing@, markers.start@, markers.end@) is None && text@
                == injected_text(existing@, markers.start@, markers.end@, contents@),
            Err(e) => marker_problem(existing@, markers.start@, markers.end@) == Some(e),
        },
{
    let v = chars_of(existing);
    match marker_bounds(&v, markers) {
        Ok((a, b)) => {
            let start_len = chars_of(markers.start.as_str()).len();
            proof {
                lemma_positions_occur(v@, markers.start@, 0);
                assert(positions(v@, markers.start@).len() == 1);
                assert(occurs_at(v@, markers.start@, positions_from(v@, markers.start@, 0)[0]));
                assert(a + start_len <= v@.len());
            }
            let total = v.len();
            assert(a + start_len <= total);
            let mut text = string_of_range(&v, 0, a + start_len);
            text.append("\n\n");
            text.append(trim_end_str(ensure_trailing_newline(contents).as_str()).as_str());
            text.append("\n");
            text.append(string_of_range(&v, b, v.len()).as_str());
            assert(v@.subrange(0, a + start_len) =~= v@.take(a + start_len));
            assert(v@.subrange(b as int, v@.len() as int) =~= v@.skip(b as int));
            Ok(text)
        },
        Err(e) => Err(e),
    }
}

/// Whether the region between the markers already holds `contents`, surrounding
/// whitespace and line endings aside.
pub fn region_matches(existing: &str, contents: &str, markers: &InjectionMarkers) -> (r: Result<bool, MarkerError>)
    requires
        region_well_formed(existing@, markers.start@, markers.end@),
    ensures
        match r {
            Ok(b) => marker_problem(existing@, markers.start@, markers.end@) is None && b == (
            normalized(
                trim(
                    existing@.subrange(
                        positions(existing@, markers.start@)[0] + markers.start@.len(),
                        positions(existing@, markers.end@)[0],
                    ),
                ),
            ) == normalized(trim(contents@))),
            Err(e) => marker_problem(existing@, markers.start@, markers.end@) == Some(e),
        },
{
    match marker_region(existing, markers) {
        Ok(region) => {
            let a = normalize_line_endings(trim_str(region.as_str()).as_str());
            let b = normalize_line_endings(trim_str(contents).as_str());
            Ok(crate::text::str_eq(a.as_str(), b.as_str()))
        },
        Err(e) => Err(e),
    }
}

/// A document with a marker pair appended under `heading` (the text written
/// back when a document has no markers yet).
pub open spec fn with_markers(s: Seq<char>, start: Seq<char>, end: Seq<char>, heading: Seq<char>) -> Seq<char> {
    (if trim_end(s).len() > 0 {
        trim_end(s) + "\n\n"@
    } else {
        Seq::empty()
    }) + heading + "\n\n"@ + start + "\n"@ + end + "\n"@
}

/// Executable form of [`with_markers`].
pub fn append_markers(existing: &str, markers: &InjectionMarkers, heading: &str) -> (r: String)
    ensures
        r@ == with_markers(existing@, markers.start@, markers.end@, heading@),
{
    let mut r = trim_end_str(existing);
    if r.as_str().is_empty() == false {
        r.append("\n\n");
    }
    r.append(heading);
    r.append("\n\n");
    r.append(markers.start.as_str());
    r.append("\n");
    r.append(markers.end.as_str());
    r.append("\n");
    r
}

/// What preparing a read document for injection does.
#[derive(Debug, Clone, PartialEq, Eq)]
pub enum MarkerSetup {
    /// The document already holds one ordered marker pair.
    Ready,
    /// The document holds some markers, but not one ordered pair.
    Partial,
    /// The document holds no marker; holds the text to write, with a marker
    /// pair appended.
    Append(String),
}

/// Decides how to prepare a document for injection: keep it when its markers
/// are ready, refuse it when it holds only some of them, else append a pair
/// under `heading`.
pub fn marker_setup(existing: &str, markers: &InjectionMarkers, heading: &str) -> (r: MarkerSetup)
    ensures
        ({
            let starts = positions(existing@, markers.start@).len();
            let ends = positions(existing@, markers.end@).len();
            if starts == 1 && ends == 1 && markers_ordered(existing@, markers.start@, markers.end@) {
                r == MarkerSetup::Ready
            } else if starts != 0 || ends != 0 {
                r == MarkerSetup::Partial
            } else {
                r matches MarkerSetup::Append(text) && text@ == with_markers(
                    existing@,
                    markers.start@,
                    markers.end@,
                    heading@,
                )
            }
        }),
{
    let report = inspect_marker_source("", existing, markers);
    if report.ready() {
        MarkerSetup::Ready
    } else if report.start_count != 0 || report.end_count != 0 {
        MarkerSetup::Partial
    } else {
        MarkerSetup::Append(append_markers(existing, markers, heading))
    }
}

/// Text with every line break written as `\r\n`, as a checkout on Windows may
/// store it.
pub open spec fn crlf(s: Seq<char>) -> Seq<char>
    decreases s.len(),
{
    if s.len() == 0 {
        Seq::empty()
    } else if s[0] == '\n' {
        "\r\n"@ + crlf(s.skip(1))
    } else {
        seq![s[0]] + crlf(s.skip(1))
    }
}

/// Whether a text holds a `\r\n` line break.
pub open spec fn has_crlf(s: Seq<char>) -> bool {
    exists|k: int| 0 <= k && k + 1 < s.len() && #[trigger] s[k] == '\r' && s[k + 1] == '\n'
}

/// Text without carriage returns is unchanged by normalization.
pub proof fn law_plain_text_normalized(s: Seq<char>)
    requires
        !s.contains('\r'),
    ensures
        normalized(s) == s,
    decreases s.len(),
{
    if s.len() > 0 {
        let rest = s.skip(1);
        assert(!rest.contains('\r')) by {
            if rest.contains('\r') {
                let k = choose|k: int| 0 <= k < rest.len() && rest[k] == '\r';
                assert(s[k + 1] == '\r');
            }
        }
        law_plain_text_normalized(rest);
        assert(s[0] != '\r') by {
            if s[0] == '\r' {
                assert(s.contains('\r'));
            }
        }
        assert(normalized(s) =~= seq![s[0]] + normalized(rest));
        assert(seq![s[0]] + rest =~= s);
    }
}

/// Storing a text with its line breaks written as `\r\n` does not change it
/// once normalized, unless the text already held a `\r\n`: generated-output
/// checks ignore platform line endings.
pub proof fn law_line_endings_ignored(s: Seq<char>)
    requires
        !has_crlf(s),
    ensures
        normalized(crlf(s)) == normalized(s),
    decreases s.len(),
{
    if s.len() > 0 {
        let rest = s.skip(1);
        assert(!has_crlf(rest)) by {
            if has_crlf(rest) {
                let k = choose|k: int| 0 <= k && k + 1 < rest.len() && #[trigger] rest[k] == '\r' && rest[k + 1] == '\n';
                assert(s[k + 1] == '\r' && s[k + 2] == '\n');
            }
        }
        law_line_endings_ignored(rest);
        reveal_strlit("\r\n");
        if s[0] == '\n' {
            let t = "\r\n"@ + crlf(rest);
            assert(t[0] == '\r' && t[1] == '\n');
            assert(t.skip(2) =~= crlf(rest));
            assert(normalized(t) =~= seq!['\n'] + normalized(crlf(rest)));
            assert(normalized(s) =~= seq!['\n'] + normalized(rest));
        } else {
            let t = seq![s[0]] + crlf(rest);
            assert(t.skip(1) =~= crlf(rest));
            if s[0] == '\r' {
                if rest.len() > 0 {
                    assert(s[1] != '\n');
                    assert(rest[0] == s[1]);
                    assert(crlf(rest)[0] == rest[0]);
                    assert(t[1] == s[1]);
                } else {
                    assert(crlf(rest) =~= Seq::<char>::empty());
                }
                assert(normalized(t) =~= seq!['\n'] + normalized(crlf(rest)));
                assert(normalized(s) =~= seq!['\n'] + normalized(rest));
            } else {
                assert(normalized(t) =~= seq![s[0]] + normalized(crlf(rest)));
                assert(normalized(s) =~= seq![s[0]] + normalized(rest));
            }
        }
    }
}

/// Output written for some contents still matches them after its line breaks
/// were rewritten as `\r\n`, unless the contents held a `\r\n` or ended with
/// a carriage return (to which writing adds a line break).
pub proof fn law_written_output_matches(contents: Seq<char>)
    requires
        !has_crlf(contents),
        !(contents.len() > 0 && contents.last() == '\r'),
    ensures
        normalized(crlf(with_trailing_newline(contents))) == normalized(
            with_trailing_newline(contents),
        ),
{
    let w = with_trailing_newline(contents);
    assert(!has_crlf(w)) by {
        if has_crlf(w) {
            let k = choose|k: int| 0 <= k && k + 1 < w.len() && #[trigger] w[k] == '\r' && w[k + 1] == '\n';
            assert(w[k] == contents[k]);
            if k + 1 < contents.len() {
                assert(contents[k + 1] == '\n');
            } else {
                assert(k == contents.len() - 1);
            }
        }
    }
    law_line_endings_ignored(w);
}

/// Every position found is an occurrence.
pub proof fn lemma_positions_occur(s: Seq<char>, p: Seq<char>, i: int)
    ensures
        forall|k: int| 0 <= k < positions_from(s, p, i).len() ==> occurs_at(s, p, #[trigger] positions_from(s, p, i)[k]),
    decreases s.len() + 1 - i,
{
    if i < 0 || i > s.len() {
    } else if occurs_at(s, p, i) {
        let next = i + if p.len() == 0 {
            1
        } else {
            p.len() as int
        };
        lemma_positions_occur(s, p, next);
        let rest = positions_from(s, p, next);
        assert forall|k: int| 0 <= k < positions_from(s, p, i).len() implies occurs_at(s, p, #[trigger] positions_from(s, p, i)[k]) by {
            assert(positions_from(s, p, i) == seq![i] + rest);
            if k > 0 {
                assert(positions_from(s, p, i)[k] == rest[k - 1]);
            } else {
                assert(positions_from(s, p, i)[0] == i);
            }
        }
    } else {
        lemma_positions_occur(s, p, i + 1);
        assert(positions_from(s, p, i) == positions_from(s, p, i + 1));
    }
}

/// The default start marker holds `<` only as its first character.
pub proof fn lemma_start_marker_chars(k: int)
    requires
        1 <= k < "<!-- feature-manifest:start -->"@.len(),
    ensures
        "<!-- feature-manifest:start -->"@[k] != '<',
        "<!-- feature-manifest:start -->"@.len() == 31,
{
    reveal_strlit("<!-- feature-manifest:start -->");
    assert(k == 1 || k == 2 || k == 3 || k == 4 || k == 5 || k == 6 || k == 7 || k == 8 || k == 9 || k == 10 || k == 11 || k == 12 || k == 13 || k == 14 || k == 15 || k == 16 || k == 17 || k == 18 || k == 19 || k == 20 || k == 21 || k == 22 || k == 23 || k == 24 || k == 25 || k == 26 || k == 27 || k == 28 || k == 29 || k == 30);
}

/// With the default markers, the region between them is never inverted: the
/// end marker cannot start inside the start marker.
pub proof fn lemma_default_markers_well_formed(s: Seq<char>)
    ensures
        region_well_formed(s, "<!-- feature-manifest:start -->"@, "<!-- feature-manifest:end -->"@),
{
    let start = "<!-- feature-manifest:start -->"@;
    let end = "<!-- feature-manifest:end -->"@;
    if marker_problem(s, start, end) is None {
        lemma_positions_occur(s, start, 0);
        lemma_positions_occur(s, end, 0);
        let a = positions(s, start)[0];
        let b = positions(s, end)[0];
        assert(occurs_at(s, start, a));
        assert(occurs_at(s, end, b));
        reveal_strlit("<!-- feature-manifest:end -->");
        reveal_strlit("<!-- feature-manifest:start -->");
        if b < a + start.len() {
            assert(end[0] == '<');
            assert(s.subrange(b, b + end.len())[0] == s[b]);
            assert(s[b] == '<');
            assert(s.subrange(a, a + start.len())[b - a] == s[b]);
            lemma_start_marker_chars(b - a);
        }
    }
}

/// Whether `p` occurs anywhere in `s`.
pub open spec fn mentions(s: Seq<char>, p: Seq<char>) -> bool {
    exists|j: int| occurs_at(s, p, j)
}

/// No position is found from `i` when `p` occurs nowhere from `i` on.
pub proof fn lemma_positions_none(s: Seq<char>, p: Seq<char>, i: int)
    requires
        forall|j: int| j >= i ==> !#[trigger] occurs_at(s, p, j),
    ensures
        positions_from(s, p, i) == Seq::<int>::empty(),
    decreases s.len() + 1 - i,
{
    if 0 <= i <= s.len() {
        assert(!occurs_at(s, p, i));
        lemma_positions_none(s, p, i + 1);
    }
}

/// When nothing is found from `i`, `p` occurs nowhere from `i` on.
pub proof fn lemma_positions_empty_inv(s: Seq<char>, p: Seq<char>, i: int)
    requires
        0 <= i,
        positions_from(s, p, i).len() == 0,
    ensures
        forall|j: int| j >= i ==> !#[trigger] occurs_at(s, p, j),
    decreases s.len() + 1 - i,
{
    if i <= s.len() {
        assert(!occurs_at(s, p, i));
        lemma_positions_empty_inv(s, p, i + 1);
    }
}

/// A single match from `i` is the first occurrence from `i`, and `p` occurs
/// nowhere after it.
pub proof fn lemma_positions_one_inv(s: Seq<char>, p: Seq<char>, i: int)
    requires
        0 <= i,
        p.len() > 0,
        positions_from(s, p, i).len() == 1,
    ensures
        i <= positions_from(s, p, i)[0],
        occurs_at(s, p, positions_from(s, p, i)[0]),
        forall|j: int| i <= j < positions_from(s, p, i)[0] ==> !#[trigger] occurs_at(s, p, j),
        forall|j: int| j >= positions_from(s, p, i)[0] + p.len() ==> !#[trigger] occurs_at(s, p, j),
    decreases s.len() + 1 - i,
{
    if i <= s.len() {
        if occurs_at(s, p, i) {
            let rest = positions_from(s, p, i + p.len());
            assert(positions_from(s, p, i) == seq![i] + rest);
            assert(rest.len() == 0);
            lemma_positions_empty_inv(s, p, i + p.len());
        } else {
            lemma_positions_one_inv(s, p, i + 1);
        }
    }
}

/// The only match from `i` is `f` when `f` is the first occurrence from `i`
/// and `p` occurs nowhere after it.
pub proof fn lemma_positions_single(s: Seq<char>, p: Seq<char>, i: int, f: int)
    requires
        p.len() > 0,
        0 <= i <= f,
        occurs_at(s, p, f),
        forall|j: int| i <= j < f ==> !#[trigger] occurs_at(s, p, j),
        forall|j: int| j >= f + p.len() ==> !#[trigger] occurs_at(s, p, j),
    ensures
        positions_from(s, p, i) == seq![f],
    decreases f - i,
{
    if i < f {
        assert(!occurs_at(s, p, i));
        lemma_positions_single(s, p, i + 1, f);
    } else {
        lemma_positions_none(s, p, f + p.len());
        assert(positions_from(s, p, f) == seq![f] + positions_from(s, p, f + p.len()));
    }
}

/// An empty pattern is found at every position from `i` to the end.
pub proof fn lemma_positions_empty_pattern(s: Seq<char>, p: Seq<char>, i: int)
    requires
        p.len() == 0,
        0 <= i <= s.len() + 1,
    ensures
        positions_from(s, p, i).len() == s.len() + 1 - i,
    decreases s.len() + 1 - i,
{
    if i <= s.len() {
        assert(s.subrange(i, i) =~= p);
        lemma_positions_empty_pattern(s, p, i + 1);
    }
}

/// Both markers of a document with one ordered pair are non-empty.
pub proof fn lemma_markers_nonempty(s: Seq<char>, start: Seq<char>, end: Seq<char>)
    requires
        marker_problem(s, start, end) is None,
    ensures
        start.len() > 0,
        end.len() > 0,
{
    if start.len() == 0 {
        lemma_positions_empty_pattern(s, start, 0);
        lemma_positions_occur(s, end, 0);
        lemma_positions_occur(s, start, 0);
    }
    if end.len() == 0 {
        lemma_positions_empty_pattern(s, end, 0);
        lemma_positions_occur(s, start, 0);
        lemma_positions_occur(s, end, 0);
    }
}

/// Where a pattern without line breaks can occur in a document whose marker
/// region was replaced: only inside the kept text before or after the region.
pub proof fn lemma_injected_occurrence(s: Seq<char>, head: int, tail: int, c: Seq<char>, p: Seq<char>, j: int)
    requires
        0 <= head <= tail <= s.len(),
        p.len() > 0,
        !p.contains('\n'),
        !mentions(c, p),
        occurs_at(s.take(head) + "\n\n"@ + c + "\n"@ + s.skip(tail), p, j),
    ensures
        (j + p.len() <= head && occurs_at(s, p, j)) || (j >= head + 3 + c.len() && occurs_at(
            s,
            p,
            j - (head + 3 + c.len()) + tail,
        )),
{
    reveal_strlit("\n\n");
    reveal_strlit("\n");
    let t = s.take(head) + "\n\n"@ + c + "\n"@ + s.skip(tail);
    let moved = head + 3 + c.len();
    assert(t.len() == moved + s.len() - tail);
    assert(t.subrange(j, j + p.len()) == p);
    assert forall|k: int| 0 <= k < p.len() implies #[trigger] p[k] == t[j + k] by {
        assert(t.subrange(j, j + p.len())[k] == t[j + k]);
    }
    if j + p.len() <= head {
        assert(s.subrange(j, j + p.len()) =~= p) by {
            assert forall|k: int| 0 <= k < p.len() implies s.subrange(j, j + p.len())[k] == p[k] by {
                assert(t[j + k] == s[j + k]);
            }
        }
    } else if j >= moved {
        let o = j - moved + tail;
        assert(s.subrange(o, o + p.len()) =~= p) by {
            assert forall|k: int| 0 <= k < p.len() implies s.subrange(o, o + p.len())[k] == p[k] by {
                assert(t[j + k] == s[o + k]);
            }
        }
    } else if j < head + 2 {
        let at = if j < head {
            head
        } else {
            j
        };
        assert(t[at] == '\n');
        assert(p[at - j] == '\n');
        assert(p.contains('\n'));
    } else if j + p.len() <= head + 2 + c.len() {
        let o = j - head - 2;
        assert(c.subrange(o, o + p.len()) =~= p) by {
            assert forall|k: int| 0 <= k < p.len() implies c.subrange(o, o + p.len())[k] == p[k] by {
                assert(t[j + k] == c[o + k]);
            }
        }
        assert(occurs_at(c, p, o));
    } else {
        let at = head + 2 + c.len();
        assert(t[at] == '\n');
        assert(p[at - j] == '\n');
        assert(p.contains('\n'));
    }
}

/// Occurrences in the kept text before and after a replaced region survive
/// the replacement.
pub proof fn lemma_injected_keeps(s: Seq<char>, head: int, tail: int, c: Seq<char>, p: Seq<char>, j: int)
    requires
        0 <= head <= tail <= s.len(),
        occurs_at(s, p, j),
    ensures
        j + p.len() <= head ==> occurs_at(s.take(head) + "\n\n"@ + c + "\n"@ + s.skip(tail), p, j),
        j >= tail ==> occurs_at(
            s.take(head) + "\n\n"@ + c + "\n"@ + s.skip(tail),
            p,
            j - tail + head + 3 + c.len(),
        ),
{
    reveal_strlit("\n\n");
    reveal_strlit("\n");
    let t = s.take(head) + "\n\n"@ + c + "\n"@ + s.skip(tail);
    let moved = head + 3 + c.len();
    assert(t.len() == moved + s.len() - tail);
    assert forall|k: int| 0 <= k < p.len() implies #[trigger] p[k] == s[j + k] by {
        assert(s.subrange(j, j + p.len())[k] == s[j + k]);
    }
    if j + p.len() <= head {
        assert(t.subrange(j, j + p.len()) =~= p) by {
            assert forall|k: int| 0 <= k < p.len() implies t.subrange(j, j + p.len())[k] == p[k] by {
                assert(t[j + k] == s[j + k]);
            }
        }
    }
    if j >= tail {
        let o = j - tail + moved;
        assert(t.subrange(o, o + p.len()) =~= p) by {
            assert forall|k: int| 0 <= k < p.len() implies t.subrange(o, o + p.len())[k] == p[k] by {
                assert(t[o + k] == s[j + k]);
            }
        }
    }
}

/// Injecting contents between a document's markers and then reading the
/// region back gives those contents, surrounding whitespace and line endings
/// aside; the document keeps exactly one ordered marker pair, and the text
/// through the start marker and from the end marker on is kept. This holds
/// when the markers hold no line break and the contents do not mention them.
pub proof fn law_injection_round_trip(s: Seq<char>, start: Seq<char>, end: Seq<char>, contents: Seq<char>)
    requires
        marker_problem(s, start, end) is None,
        region_well_formed(s, start, end),
        !start.contains('\n'),
        !end.contains('\n'),
        !mentions(trim_end(contents), start),
        !mentions(trim_end(contents), end),
    ensures
        ({
            let t = injected_text(s, start, end, contents);
            &&& marker_problem(t, start, end) is None
            &&& region_well_formed(t, start, end)
            &&& normalized(
                trim(
                    t.subrange(positions(t, start)[0] + start.len(), positions(t, end)[0]),
                ),
            ) == normalized(trim(contents))
            &&& t.take(positions(s, start)[0] + start.len()) == s.take(positions(s, start)[0] + start.len())
            &&& t.skip(positions(t, end)[0]) == s.skip(positions(s, end)[0])
        }),
{
    reveal_strlit("\n\n");
    reveal_strlit("\n");
    lemma_markers_nonempty(s, start, end);
    lemma_positions_one_inv(s, start, 0);
    lemma_positions_one_inv(s, end, 0);
    let a = positions(s, start)[0];
    let e = positions(s, end)[0];
    let head = a + start.len();
    let c = trim_end(with_trailing_newline(contents));
    assert(c == trim_end(contents)) by {
        if !(contents.len() > 0 && contents.last() == '\n') {
            let w = contents.push('\n');
            assert(w.last() == '\n');
            assert(w.drop_last() =~= contents);
        }
    }
    lemma_positions_occur(s, end, 0);
    lemma_positions_range(s, end, 0);
    assert(e <= s.len());
    assert(e + end.len() <= s.len());
    let t = injected_text(s, start, end, contents);
    assert(t == s.take(head) + "\n\n"@ + c + "\n"@ + s.skip(e));
    let moved = head + 3 + c.len();
    // The start marker: found where it was, and nowhere else.
    lemma_injected_keeps(s, head, e, c, start, a);
    assert forall|j: int| 0 <= j < a implies !#[trigger] occurs_at(t, start, j) by {
        if occurs_at(t, start, j) {
            lemma_injected_occurrence(s, head, e, c, start, j);
        }
    }
    assert forall|j: int| j >= a + start.len() implies !#[trigger] occurs_at(t, start, j) by {
        if occurs_at(t, start, j) {
            lemma_injected_occurrence(s, head, e, c, start, j);
        }
    }
    lemma_positions_single(t, start, 0, a);
    // The end marker: moved by the length change, and nowhere else.
    lemma_injected_keeps(s, head, e, c, end, e);
    assert forall|j: int| 0 <= j < moved implies !#[trigger] occurs_at(t, end, j) by {
        if occurs_at(t, end, j) {
            lemma_injected_occurrence(s, head, e, c, end, j);
        }
    }
    assert forall|j: int| j >= moved + end.len() implies !#[trigger] occurs_at(t, end, j) by {
        if occurs_at(t, end, j) {
            lemma_injected_occurrence(s, head, e, c, end, j);
        }
    }
    lemma_positions_single(t, end, 0, moved);
    assert(positions(t, start) == seq![a]);
    assert(positions(t, end) == seq![moved]);
    // The region reads back as the contents.
    let region = t.subrange(head, moved);
    assert(region =~= "\n\n"@ + c + "\n"@);
    assert(all_space("\n\n"@));
    assert(all_space("\n"@));
    lemma_trim_padded("\n\n"@, c, "\n"@);
    lemma_trim_of_trim_end(contents);
    assert(t.take(head) =~= s.take(head));
    assert(t.skip(moved) =~= s.skip(e));
}


/// The default end marker holds `<` only as its first character.
pub proof fn lemma_end_marker_chars(k: int)
    requires
        1 <= k < "<!-- feature-manifest:end -->"@.len(),
    ensures
        "<!-- feature-manifest:end -->"@[k] != '<',
        "<!-- feature-manifest:end -->"@.len() == 29,
{
    reveal_strlit("<!-- feature-manifest:end -->");
    assert(k == 1 || k == 2 || k == 3 || k == 4 || k == 5 || k == 6 || k == 7 || k == 8 || k == 9 || k == 10 || k == 11 || k == 12 || k == 13 || k == 14 || k == 15 || k == 16 || k == 17 || k == 18 || k == 19 || k == 20 || k == 21 || k == 22 || k == 23 || k == 24 || k == 25 || k == 26 || k == 27 || k == 28);
}

/// A marker with `<` only as its first character, found exactly once, is
/// found where it occurs.
pub proof fn lemma_single_marker_at(s: Seq<char>, m: Seq<char>, i: int)
    requires
        m.len() > 0,
        m[0] == '<',
        forall|k: int| 1 <= k < m.len() ==> #[trigger] m[k] != '<',
        occurs_at(s, m, i),
        positions(s, m).len() == 1,
    ensures
        positions(s, m)[0] == i,
{
    lemma_positions_one_inv(s, m, 0);
    let a = positions(s, m)[0];
    assert(occurs_at(s, m, a));
    if i != a {
        assert(a < i < a + m.len());
        assert(s.subrange(i, i + m.len())[0] == s[i]);
        assert(s.subrange(a, a + m.len())[i - a] == s[i]);
        assert(m[i - a] != '<');
    }
}

/// A document made of text, the default start marker, the old region, the
/// default end marker, and more text.
pub open spec fn marked_document(before: Seq<char>, old: Seq<char>, after: Seq<char>) -> Seq<char> {
    before + "<!-- feature-manifest:start -->"@ + old + "<!-- feature-manifest:end -->"@ + after
}

/// Injecting contents into a document that holds each default marker once
/// keeps the text before the start marker and after the end marker, puts a
/// blank line, the contents without trailing whitespace, and a line break
/// between the markers, and reads back as those contents, when the contents
/// do not mention either marker.
pub proof fn law_injection_between_default_markers(
    before: Seq<char>,
    old: Seq<char>,
    after: Seq<char>,
    contents: Seq<char>,
)
    requires
        positions(marked_document(before, old, after), "<!-- feature-manifest:start -->"@).len() == 1,
        positions(marked_document(before, old, after), "<!-- feature-manifest:end -->"@).len() == 1,
        !mentions(contents, "<!-- feature-manifest:start -->"@),
        !mentions(contents, "<!-- feature-manifest:end -->"@),
    ensures
        marker_problem(
            marked_document(before, old, after),
            "<!-- feature-manifest:start -->"@,
            "<!-- feature-manifest:end -->"@,
        ) is None,
        injected_text(
            marked_document(before, old, after),
            "<!-- feature-manifest:start -->"@,
            "<!-- feature-manifest:end -->"@,
            contents,
        ) == before + "<!-- feature-manifest:start -->"@ + "\n\n"@ + trim_end(contents) + "\n"@
            + "<!-- feature-manifest:end -->"@ + after,
        ({
            let t = injected_text(
                marked_document(before, old, after),
                "<!-- feature-manifest:start -->"@,
                "<!-- feature-manifest:end -->"@,
                contents,
            );
            normalized(
                trim(
                    t.subrange(
                        positions(t, "<!-- feature-manifest:start -->"@)[0] + "<!-- feature-manifest:start -->"@.len(),
                        positions(t, "<!-- feature-manifest:end -->"@)[0],
                    ),
                ),
            ) == normalized(trim(contents))
        }),
{
    let start = "<!-- feature-manifest:start -->"@;
    let end = "<!-- feature-manifest:end -->"@;
    let s = marked_document(before, old, after);
    reveal_strlit("<!-- feature-manifest:start -->");
    reveal_strlit("<!-- feature-manifest:end -->");
    assert forall|k: int| 1 <= k < start.len() implies #[trigger] start[k] != '<' by {
        lemma_start_marker_chars(k);
    }
    assert forall|k: int| 1 <= k < end.len() implies #[trigger] end[k] != '<' by {
        lemma_end_marker_chars(k);
    }
    let a = before.len() as int;
    let e = a + start.len() + old.len();
    assert(s.subrange(a, a + start.len()) =~= start);
    assert(s.subrange(e, e + end.len()) =~= end);
    lemma_single_marker_at(s, start, a);
    lemma_single_marker_at(s, end, e);
    assert(marker_problem(s, start, end) is None);
    lemma_default_markers_well_formed(s);
    let k = crate::text::lemma_trim_end_prefix(contents);
    assert(!mentions(trim_end(contents), start)) by {
        if mentions(trim_end(contents), start) {
            let j = choose|j: int| occurs_at(trim_end(contents), start, j);
            assert(contents.subrange(j, j + start.len()) =~= trim_end(contents).subrange(j, j + start.len()));
            assert(occurs_at(contents, start, j));
        }
    }
    assert(!mentions(trim_end(contents), end)) by {
        if mentions(trim_end(contents), end) {
            let j = choose|j: int| occurs_at(trim_end(contents), end, j);
            assert(contents.subrange(j, j + end.len()) =~= trim_end(contents).subrange(j, j + end.len()));
            assert(occurs_at(contents, end, j));
        }
    }
    assert(!start.contains('\n')) by {
        if start.contains('\n') {
            let j = choose|j: int| 0 <= j < start.len() && start[j] == '\n';
            assert(j == 0 || j == 1 || j == 2 || j == 3 || j == 4 || j == 5 || j == 6 || j == 7 || j == 8 || j == 9 || j == 10 || j == 11 || j == 12 || j == 13 || j == 14 || j == 15 || j == 16 || j == 17 || j == 18 || j == 19 || j == 20 || j == 21 || j == 22 || j == 23 || j == 24 || j == 25 || j == 26 || j == 27 || j == 28 || j == 29 || j == 30);
        }
    }
    assert(!end.contains('\n')) by {
        if end.contains('\n') {
            let j = choose|j: int| 0 <= j < end.len() && end[j] == '\n';
            assert(j == 0 || j == 1 || j == 2 || j == 3 || j == 4 || j == 5 || j == 6 || j == 7 || j == 8 || j == 9 || j == 10 || j == 11 || j == 12 || j == 13 || j == 14 || j == 15 || j == 16 || j == 17 || j == 18 || j == 19 || j == 20 || j == 21 || j == 22 || j == 23 || j == 24 || j == 25 || j == 26 || j == 27 || j == 28);
        }
    }
    law_injection_round_trip(s, start, end, contents);
    assert(trim_end(with_trailing_newline(contents)) == trim_end(contents)) by {
        if !(contents.len() > 0 && contents.last() == '\n') {
            let w = contents.push('\n');
            assert(w.last() == '\n');
            assert(w.drop_last() =~= contents);
        }
    }
    assert(s.take(a + start.len()) =~= before + start);
    assert(s.skip(e) =~= end + after);
    reveal_strlit("\n\n");
    reveal_strlit("\n");
    assert(injected_text(s, start, end, contents) =~= before + start + "\n\n"@ + trim_end(contents) + "\n"@ + end + after);
}

} // verus!
