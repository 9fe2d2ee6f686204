//! Escaping and summary helpers shared by the renderers.

use vstd::prelude::*;

use crate::model::{ref_text, ref_views, status_labels, str_views, FeatureMetadata, FeatureRef, MetadataModel, RefModel};
use crate::text::{chars_of, join, owned, push_char};

verus! {

/// How one character reads inside Markdown inline text and table cells.
pub open spec fn markdown_char(c: char) -> Seq<char> {
    if c == '\\' {
        "\\\\"@
    } else if c == '|' {
        "\\|"@
    } else if c == '\r' {
        Seq::empty()
    } else if c == '\n' {
        "<br>"@
    } else {
        seq![c]
    }
}

/// Backslashes doubled, pipes escaped, carriage returns dropped, and line
/// breaks turned into `<br>`.
pub open spec fn escape_markdown(s: Seq<char>) -> Seq<char>
    decreases s.len(),
{
    if s.len() == 0 {
        Seq::empty()
    } else {
        escape_markdown(s.drop_last()) + markdown_char(s.last())
    }
}

/// How one character reads inside a quoted Mermaid label.
pub open spec fn mermaid_char(c: char) -> Seq<char> {
    if c == '\\' {
        "\\\\"@
    } else if c == '"' {
        "\\\""@
    } else if c == '\r' {
        Seq::empty()
    } else if c == '\n' {
        "\\n"@
    } else {
        seq![c]
    }
}

/// Backslashes and quotes escaped, carriage returns dropped, and line breaks
/// written as `\n`.
pub open spec fn escape_mermaid(s: Seq<char>) -> Seq<char>
    decreases s.len(),
{
    if s.len() == 0 {
        Seq::empty()
    } else {
        escape_mermaid(s.drop_last()) + mermaid_char(s.last())
    }
}

/// Every character that is not an ASCII letter or digit replaced by `_`.
pub open spec fn sanitize(s: Seq<char>) -> Seq<char> {
    s.map_values(|c: char| if crate::text::is_ascii_alnum(c) { c } else { '_' })
}

/// A reference between backticks, escaped for Markdown.
pub open spec fn quoted_reference(r: RefModel) -> Seq<char> {
    "`"@ + escape_markdown(ref_text(r)) + "`"@
}

/// The references of a feature as a comma-separated list, or `—` when there are none.
pub open spec fn reference_summary_text(rs: Seq<RefModel>) -> Seq<char> {
    if rs.len() == 0 {
        "—"@
    } else {
        join(rs.map_values(|r: RefModel| quoted_reference(r)), ", "@)
    }
}

/// The status labels joined with `, `.
pub open spec fn status_text(m: MetadataModel) -> Seq<char> {
    join(status_labels(m), ", "@)
}

/// `public` or `private`.
pub open spec fn visibility_text(m: MetadataModel) -> Seq<char> {
    if m.public {
        "public"@
    } else {
        "private"@
    }
}

/// `yes` or `no`.
pub open spec fn yes_no_text(b: bool) -> Seq<char> {
    if b {
        "yes"@
    } else {
        "no"@
    }
}

/// Appends `s` escaped by `escape_markdown` (or `escape_mermaid` when `mermaid`).
fn append_escaped(out: &mut String, s: &str, mermaid: bool)
    ensures
        final(out)@ == old(out)@ + if mermaid {
            escape_mermaid(s@)
        } else {
            escape_markdown(s@)
        },
{
    let v = chars_of(s);
    let ghost start = out@;
    let mut i: usize = 0;
    while i < v.len()
        invariant
            i <= v@.len(),
            v@ == s@,
            out@ == start + if mermaid {
                escape_mermaid(v@.take(i as int))
            } else {
                escape_markdown(v@.take(i as int))
            },
        decreases v@.len() - i,
    {
        let c = v[i];
        assert(v@.take(i as int + 1).drop_last() == v@.take(i as int));
        assert(v@.take(i as int + 1).last() == c);
        let ghost before = out@;
        if c == '\\' {
            out.append("\\\\");
        } else if c == '\r' {
        } else if c == '\n' {
            if mermaid {
                out.append("\\n");
            } else {
                out.append("<br>");
            }
        } else if mermaid && c == '"' {
            out.append("\\\"");
        } else if !mermaid && c == '|' {
            out.append("\\|");
        } else {
            push_char(out, c);
        }
        proof {
            if mermaid {
                assert(out@ == before + mermaid_char(c));
            } else {
                assert(out@ == before + markdown_char(c));
            }
        }
        assert(out@ =~= start + if mermaid {
            escape_mermaid(v@.take(i as int + 1))
        } else {
            escape_markdown(v@.take(i as int + 1))
        });
        i = i + 1;
    }
    assert(v@.take(v@.len() as int) == v@);
}

/// Escapes text for Markdown inline content.
pub fn escape_markdown_inline(value: &str) -> (r: String)
    ensures
        r@ == escape_markdown(value@),
{
    let mut r = String::new();
    append_escaped(&mut r, value, false);
    r
}

/// Escapes text for a Markdown table cell.
pub fn escape_markdown_cell(value: &str) -> (r: String)
    ensures
        r@ == escape_markdown(value@),
{
    escape_markdown_inline(value)
}

/// Escapes text for a quoted Mermaid label.
pub fn escape_mermaid_label(value: &str) -> (r: String)
    ensures
        r@ == escape_mermaid(value@),
{
    let mut r = String::new();
    append_escaped(&mut r, value, true);
    r
}

/// Turns arbitrary text into a Mermaid node identifier fragment.
pub fn sanitize_id(raw: &str) -> (r: String)
    ensures
        r@ == sanitize(raw@),
{
    let v = chars_of(raw);
    let mut r = String::new();
    let mut i: usize = 0;
    while i < v.len()
        invariant
            i <= v@.len(),
            v@ == raw@,
            r@ == sanitize(v@).take(i as int),
        decreases v@.len() - i,
    {
        let c = v[i];
        if crate::text::char_is_ascii_alnum(c) {
            push_char(&mut r, c);
        } else {
            push_char(&mut r, '_');
        }
        assert(r@ =~= sanitize(v@).take(i as int + 1));
        i = i + 1;
    }
    assert(sanitize(v@).take(v@.len() as int) =~= sanitize(v@));
    r
}

/// The references of a feature as a comma-separated list of escaped code spans.
pub fn reference_summary(references: &Vec<FeatureRef>) -> (r: String)
    ensures
        r@ == reference_summary_text(ref_views(references@)),
{
    if references.len() == 0 {
        return owned("—");
    }
    let ghost parts = ref_views(references@).map_values(|x: RefModel| quoted_reference(x));
    let mut r = String::new();
    let mut i: usize = 0;
    while i < references.len()
        invariant
            i <= references@.len(),
            parts == ref_views(references@).map_values(|x: RefModel| quoted_reference(x)),
            r@ == join(parts.take(i as int), ", "@),
        decreases references@.len() - i,
    {
        if i > 0 {
            r.append(", ");
        }
        r.append("`");
        let raw = references[i].raw();
        append_escaped(&mut r, raw.as_str(), false);
        r.append("`");
        assert(parts.take(i as int + 1).drop_last() == parts.take(i as int));
        assert(parts[i as int] == quoted_reference(references@[i as int]@));
        assert(r@ =~= join(parts.take(i as int + 1), ", "@));
        i = i + 1;
    }
    assert(parts.take(references@.len() as int) == parts);
    r
}

/// Status labels of some metadata, joined with `, `.
pub fn status_summary(metadata: &FeatureMetadata) -> (r: String)
    ensures
        r@ == status_text(metadata@),
{
    let labels = metadata.status_labels();
    let mut r = String::new();
    let mut i: usize = 0;
    while i < labels.len()
        invariant
            i <= labels@.len(),
            str_views(labels@) == status_labels(metadata@),
            r@ == join(str_views(labels@).take(i as int), ", "@),
        decreases labels@.len() - i,
    {
        if i > 0 {
            r.append(", ");
        }
        r.append(labels[i]);
        assert(str_views(labels@).take(i as int + 1).drop_last() == str_views(labels@).take(i as int));
        i = i + 1;
    }
    assert(str_views(labels@).take(labels@.len() as int) == str_views(labels@));
    r
}

/// `public` or `private`.
pub fn visibility_label(metadata: &FeatureMetadata) -> (r: &'static str)
    ensures
        r@ == visibility_text(metadata@),
{
    if metadata.public {
        "public"
    } else {
        "private"
    }
}

/// `yes` or `no`.
pub fn yes_no(value: bool) -> (r: &'static str)
    ensures
        r@ == yes_no_text(value),
{
    if value {
        "yes"
    } else {
        "no"
    }
}

} // verus!
