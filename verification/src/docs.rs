//! The generated lint and command-line references.

use vstd::prelude::*;

use crate::source_map::utf8_len;
use crate::text::{chars_of, concat3, is_space, join, join_strings, owned, push_char, trim_end, trim_end_str, views};
use crate::validate::{doc_model, lint_doc_models, lint_docs, severity_text, LintDoc, LintDocModel};

verus! {

/// Words of text being split: finished words, the word in progress, and
/// whether a code span is open.
#[verifier::ext_equal]
pub struct WordState {
    pub words: Seq<Seq<char>>,
    pub current: Seq<char>,
    pub in_code: bool,
}

/// The state after one more character: a backtick is kept and opens or closes
/// a code span; whitespace outside code spans ends a word; anything else is
/// kept.
pub open spec fn word_step(st: WordState, c: char) -> WordState {
    if c == '`' {
        WordState { current: st.current.push(c), in_code: !st.in_code, ..st }
    } else if is_space(c) && !st.in_code {
        if st.current.len() > 0 {
            WordState { words: st.words.push(st.current), current: Seq::empty(), ..st }
        } else {
            st
        }
    } else {
        WordState { current: st.current.push(c), ..st }
    }
}

/// The state after the characters of `s`.
pub open spec fn word_scan(s: Seq<char>) -> WordState
    decreases s.len(),
{
    if s.len() == 0 {
        WordState { words: Seq::empty(), current: Seq::empty(), in_code: false }
    } else {
        word_step(word_scan(s.drop_last()), s.last())
    }
}

/// The words of a text, code spans kept whole.
pub open spec fn markdown_word_list(s: Seq<char>) -> Seq<Seq<char>> {
    let st = word_scan(s);
    if st.current.len() > 0 {
        st.words.push(st.current)
    } else {
        st.words
    }
}

/// Splits text into words, keeping code spans whole.
pub fn markdown_words(value: &str) -> (r: Vec<String>)
    ensures
        views(r@) == markdown_word_list(value@),
{
    let v = chars_of(value);
    let mut words: Vec<String> = Vec::new();
    let mut current = String::new();
    let mut in_code = false;
    let mut i: usize = 0;
    assert(views(words@) =~= Seq::<Seq<char>>::empty());
    assert(current@ =~= Seq::<char>::empty());
    while i < v.len()
        invariant
            i <= v@.len(),
            v@ == value@,
            word_scan(v@.take(i as int)) == (WordState { words: views(words@), current: current@, in_code }),
        decreases v@.len() - i,
    {
        let c = v[i];
        assert(v@.take(i as int + 1).drop_last() == v@.take(i as int));
        assert(v@.take(i as int + 1).last() == c);
        if c == '`' {
            push_char(&mut current, c);
            in_code = !in_code;
        } else if crate::text::char_is_space(c) && !in_code {
            if !current.as_str().is_empty() {
                let ghost before = views(words@);
                let ghost cur = current@;
                words.push(current);
                current = String::new();
                assert(views(words@) =~= before.push(cur));
            }
        } else {
            push_char(&mut current, c);
        }
        i = i + 1;
    }
    assert(v@.take(v@.len() as int) == v@);
    if !current.as_str().is_empty() {
        let ghost before = views(words@);
        let ghost cur = current@;
        words.push(current);
        assert(views(words@) =~= before.push(cur));
    }
    words
}

/// Lines being filled: finished lines and the line in progress.
#[verifier::ext_equal]
pub struct WrapState {
    pub lines: Seq<Seq<char>>,
    pub current: Seq<char>,
}

/// The state after one more word: it starts a new line when the current line
/// is not empty and would grow past `max` bytes, else joins it after a space.
pub open spec fn wrap_step(st: WrapState, word: Seq<char>, max: nat) -> WrapState {
    let next = if st.current.len() == 0 {
        utf8_len(word)
    } else {
        utf8_len(st.current) + 1 + utf8_len(word)
    };
    if next > max && st.current.len() > 0 {
        WrapState { lines: st.lines.push(st.current), current: word }
    } else if st.current.len() == 0 {
        WrapState { current: word, ..st }
    } else {
        WrapState { current: st.current + " "@ + word, ..st }
    }
}

/// The state after the words `ws`.
pub open spec fn wrap_scan(ws: Seq<Seq<char>>, max: nat) -> WrapState
    decreases ws.len(),
{
    if ws.len() == 0 {
        WrapState { lines: Seq::empty(), current: Seq::empty() }
    } else {
        wrap_step(wrap_scan(ws.drop_last(), max), ws.last(), max)
    }
}

/// Text wrapped to lines of at most `max` bytes where words allow.
pub open spec fn wrapped_text(s: Seq<char>, max: nat) -> Seq<char> {
    let st = wrap_scan(markdown_word_list(s), max);
    join(
        if st.current.len() > 0 {
            st.lines.push(st.current)
        } else {
            st.lines
        },
        "\\n"@,
    )
}

/// The UTF-8 length of joined texts is the sum of their lengths.
pub proof fn lemma_utf8_len_concat(a: Seq<char>, b: Seq<char>)
    ensures
        utf8_len(a + b) == utf8_len(a) + utf8_len(b),
    decreases b.len(),
{
    if b.len() == 0 {
        assert(a + b =~= a);
    } else {
        lemma_utf8_len_concat(a, b.drop_last());
        assert((a + b).drop_last() =~= a + b.drop_last());
        assert((a + b).last() == b.last());
    }
}

/// Whether a filled line fits within `max` bytes, or is a single word of
/// `ws` that is too long to fit anywhere.
pub open spec fn line_fits(line: Seq<char>, ws: Seq<Seq<char>>, max: nat) -> bool {
    utf8_len(line) <= max || ws.contains(line)
}

/// Whether a break after `line` was forced: the line is not empty, and the
/// text `next` of the following line opens with a word of `ws` that would
/// have grown `line` past `max` bytes.
pub open spec fn break_forced(line: Seq<char>, next: Seq<char>, ws: Seq<Seq<char>>, max: nat) -> bool {
    line.len() > 0 && exists|w: Seq<char>|
        #[trigger] ws.contains(w) && w.len() <= next.len() && next.take(w.len() as int) == w && utf8_len(line) + 1
            + utf8_len(w) > max
}

/// The text of the line after finished line `i`: the next finished line, or
/// the line in progress.
pub open spec fn line_after(st: WrapState, i: int) -> Seq<char> {
    if i + 1 < st.lines.len() {
        st.lines[i + 1]
    } else {
        st.current
    }
}

/// What greedy filling keeps: every line fits unless it is one overlong word,
/// and every break was forced by the word that opens the next line.
pub open spec fn filled_greedily(st: WrapState, ws: Seq<Seq<char>>, max: nat) -> bool {
    &&& forall|i: int| 0 <= i < st.lines.len() ==> line_fits(#[trigger] st.lines[i], ws, max)
    &&& line_fits(st.current, ws, max)
    &&& forall|i: int| 0 <= i < st.lines.len() ==> break_forced(#[trigger] st.lines[i], line_after(st, i), ws, max)
}

/// Filling a prefix of `all` keeps the greedy properties over the words of `all`.
pub proof fn lemma_wrap_greedy_prefix(ws: Seq<Seq<char>>, all: Seq<Seq<char>>, max: nat)
    requires
        ws.len() <= all.len(),
        ws =~= all.take(ws.len() as int),
    ensures
        filled_greedily(wrap_scan(ws, max), all, max),
    decreases ws.len(),
{
    if ws.len() == 0 {
        let st = wrap_scan(ws, max);
        assert(utf8_len(st.current) == 0);
    } else {
        let init = ws.drop_last();
        let word = ws.last();
        assert(init =~= all.take(init.len() as int));
        lemma_wrap_greedy_prefix(init, all, max);
        let st = wrap_scan(init, max);
        let nx = wrap_step(st, word, max);
        assert(nx == wrap_scan(ws, max));
        assert(all[ws.len() - 1] == word);
        assert(all.contains(word));
        lemma_utf8_len_concat(st.current, " "@);
        lemma_utf8_len_concat(st.current + " "@, word);
        assert(utf8_len(" "@) == 1) by {
            reveal_strlit(" ");
            assert(" "@.drop_last() =~= Seq::<char>::empty());
            assert(" "@.last() == ' ');
            assert((' ' as u32) == 32);
            assert(utf8_len(Seq::<char>::empty()) == 0);
        }
        let next = if st.current.len() == 0 {
            utf8_len(word)
        } else {
            utf8_len(st.current) + 1 + utf8_len(word)
        };
        if next > max && st.current.len() > 0 {
            assert forall|i: int| 0 <= i < nx.lines.len() implies line_fits(#[trigger] nx.lines[i], all, max) by {
                if i < st.lines.len() {
                    assert(nx.lines[i] == st.lines[i]);
                }
            }
            assert forall|i: int| 0 <= i < nx.lines.len() implies break_forced(#[trigger] nx.lines[i], line_after(nx, i), all, max) by {
                if i + 1 < st.lines.len() {
                    assert(nx.lines[i] == st.lines[i] && line_after(nx, i) == line_after(st, i));
                } else if i + 1 == st.lines.len() {
                    assert(nx.lines[i] == st.lines[i] && line_after(nx, i) == st.current);
                    assert(line_after(st, i) == st.current);
                } else {
                    assert(nx.lines[i] == st.current && line_after(nx, i) == word);
                    assert(word.take(word.len() as int) =~= word);
                }
            }
        } else if st.current.len() == 0 {
            assert forall|i: int| 0 <= i < nx.lines.len() implies break_forced(#[trigger] nx.lines[i], line_after(nx, i), all, max) by {
                assert(nx.lines[i] == st.lines[i]);
                if i + 1 == st.lines.len() {
                    assert(break_forced(st.lines[i], st.current, all, max));
                    let w = choose|w: Seq<char>|
                        #[trigger] all.contains(w) && w.len() <= st.current.len() && st.current.take(w.len() as int) == w
                            && utf8_len(st.lines[i]) + 1 + utf8_len(w) > max;
                    assert(w.len() == 0);
                    assert(word.take(0) =~= w);
                } else {
                    assert(line_after(nx, i) == line_after(st, i));
                }
            }
        } else {
            let joined = st.current + " "@ + word;
            assert(nx.current == joined);
            assert(utf8_len(joined) == next);
            assert forall|i: int| 0 <= i < nx.lines.len() implies break_forced(#[trigger] nx.lines[i], line_after(nx, i), all, max) by {
                assert(nx.lines[i] == st.lines[i]);
                if i + 1 == st.lines.len() {
                    assert(break_forced(st.lines[i], st.current, all, max));
                    let w = choose|w: Seq<char>|
                        #[trigger] all.contains(w) && w.len() <= st.current.len() && st.current.take(w.len() as int) == w
                            && utf8_len(st.lines[i]) + 1 + utf8_len(w) > max;
                    assert(joined.take(w.len() as int) =~= st.current.take(w.len() as int));
                } else {
                    assert(line_after(nx, i) == line_after(st, i));
                }
            }
        }
    }
}

/// Wrapping fills lines greedily: every line fits within `max` bytes unless it
/// is a single word too long to fit, and a line ends only where the word that
/// opens the next line would have grown it past `max` bytes.
pub proof fn law_wrap_fills_greedily(ws: Seq<Seq<char>>, max: nat)
    ensures
        filled_greedily(wrap_scan(ws, max), ws, max),
{
    lemma_wrap_greedy_prefix(ws, ws, max);
}

/// The UTF-8 length of a text, as a wide integer.
fn byte_len(s: &str) -> (r: u128)
    ensures
        r == utf8_len(s@),
        r <= 4 * (usize::MAX as u128),
{
    let v = chars_of(s);
    let mut n: u128 = 0;
    let mut i: usize = 0;
    while i < v.len()
        invariant
            i <= v@.len(),
            v@ == s@,
            n == utf8_len(v@.take(i as int)),
            n <= 4 * i,
        decreases v@.len() - i,
    {
        let c = v[i];
        let w: u128 = if (c as u32) < 0x80 {
            1
        } else if (c as u32) < 0x800 {
            2
        } else if (c as u32) < 0x10000 {
            3
        } else {
            4
        };
        assert(v@.take(i as int + 1).drop_last() == v@.take(i as int));
        assert(w == crate::source_map::utf8_width(c));
        n = n + w;
        i = i + 1;
    }
    assert(v@.take(v@.len() as int) == v@);
    n
}

/// Wraps text to lines of at most `max_width` bytes where words allow.
pub fn wrap_markdown_text(value: &str, max_width: usize) -> (r: String)
    ensures
        r@ == wrapped_text(value@, max_width as nat),
{
    let words = markdown_words(value);
    let ghost ws = views(words@);
    let mut lines: Vec<String> = Vec::new();
    let mut current = String::new();
    let mut i: usize = 0;
    assert(views(lines@) =~= Seq::<Seq<char>>::empty());
    assert(current@ =~= Seq::<char>::empty());
    while i < words.len()
        invariant
            i <= words@.len(),
            ws == views(words@),
            wrap_scan(ws.take(i as int), max_width as nat) == (WrapState { lines: views(lines@), current: current@ }),
        decreases words@.len() - i,
    {
        assert(ws.take(i as int + 1).drop_last() == ws.take(i as int));
        assert(ws.take(i as int + 1).last() == words@[i as int]@);
        let word = &words[i];
        let word_len = byte_len(word.as_str());
        let current_len = byte_len(current.as_str());
        let next_len: u128 = if current.as_str().is_empty() {
            word_len
        } else {
            current_len + 1 + word_len
        };
        if next_len > max_width as u128 && !current.as_str().is_empty() {
            let ghost before = views(lines@);
            let ghost cur = current@;
            lines.push(current);
            current = word.clone();
            assert(views(lines@) =~= before.push(cur));
        } else {
            if !current.as_str().is_empty() {
                current.append(" ");
            }
            current.append(word.as_str());
        }
        i = i + 1;
    }
    assert(ws.take(words@.len() as int) == ws);
    if !current.as_str().is_empty() {
        let ghost before = views(lines@);
        let ghost cur = current@;
        lines.push(current);
        assert(views(lines@) =~= before.push(cur));
    }
    join_strings(&lines, "\\n")
}

/// The opening of the lint reference.
pub open spec fn lint_header() -> Seq<char> {
    "# Lint Reference\n\nGenerated from the feature-manifest lint registry.\n\nUpdate this file with:\n\n```text\ncargo fm lints --markdown > docs/lints.md\n```\n\n"@
}

/// The section of one lint: its code, default severity, and wrapped summary
/// and fix.
pub open spec fn lint_section(d: LintDocModel) -> Seq<char> {
    "## `"@ + d.code + "`\n\n"@ + "Default: `"@ + severity_text(d.default_severity) + "`\n\n"@
        + wrapped_text(d.summary, 88) + "\n\n"@ + wrapped_text("Fix: "@ + d.guidance, 88)
        + "\n\n"@
}

/// The sections of some lints, in order.
pub open spec fn lint_sections(ds: Seq<LintDocModel>) -> Seq<char>
    decreases ds.len(),
{
    if ds.len() == 0 {
        Seq::empty()
    } else {
        lint_sections(ds.drop_last()) + lint_section(ds.last())
    }
}

/// The lint reference: the header and every lint's section, ending in one
/// line break.
pub open spec fn lint_markdown_text() -> Seq<char> {
    trim_end(lint_header() + lint_sections(lint_doc_models())) + "\n"@
}

/// Renders the lint reference (`docs/lints.md`).
pub fn render_lint_markdown() -> (r: String)
    ensures
        r@ == lint_markdown_text(),
{
    let mut output = owned("# Lint Reference\n\nGenerated from the feature-manifest lint registry.\n\nUpdate this file with:\n\n```text\ncargo fm lints --markdown > docs/lints.md\n```\n\n");
    let docs = lint_docs();
    let ghost models = docs@.map_values(|d: LintDoc| doc_model(d));
    let mut i: usize = 0;
    while i < docs.len()
        invariant
            i <= docs@.len(),
            models == docs@.map_values(|d: LintDoc| doc_model(d)),
            output@ == lint_header() + lint_sections(models.take(i as int)),
        decreases docs@.len() - i,
    {
        assert(models.take(i as int + 1).drop_last() == models.take(i as int));
        assert(models.take(i as int + 1).last() == doc_model(docs@[i as int]));
        let d = docs[i];
        let ghost before = output@;
        output.append("## `");
        output.append(d.code);
        output.append("`\n\n");
        output.append("Default: `");
        output.append(d.default_severity.as_str());
        output.append("`\n\n");
        output.append(wrap_markdown_text(d.summary, 88).as_str());
        output.append("\n\n");
        let fix = crate::text::concat2("Fix: ", d.guidance);
        output.append(wrap_markdown_text(fix.as_str(), 88).as_str());
        output.append("\n\n");
        assert(output@ =~= before + lint_section(doc_model(d)));
        i = i + 1;
    }
    assert(models.take(docs@.len() as int) == models);
    let mut r = trim_end_str(output.as_str());
    r.append("\n");
    r
}

/// The opening of the command-line reference.
pub open spec fn cli_header() -> Seq<char> {
    "# CLI Reference\n\nGenerated from the Clap command definitions.\n\nUpdate this file with:\n\n```text\ncargo fm help-markdown > docs/cli.md\n```\n\n"@
}

/// The section of one command: a heading and its help text in a code block.
pub open spec fn command_section(title: Seq<char>, help: Seq<char>) -> Seq<char> {
    "## `"@ + title + "`\n\n"@ + "```text\n"@ + trim_end(help) + "\n```\n\n"@
}

/// The sections of some commands, in order.
pub open spec fn command_sections(cs: Seq<(Seq<char>, Seq<char>)>) -> Seq<char>
    decreases cs.len(),
{
    if cs.len() == 0 {
        Seq::empty()
    } else {
        command_sections(cs.drop_last()) + command_section(cs.last().0, cs.last().1)
    }
}

/// Assembles the command-line reference from each command's title and long
/// help (the help comes from the command-line parser).
pub fn cli_markdown(commands: &Vec<(String, String)>) -> (r: String)
    ensures
        r@ == cli_header() + command_sections(commands@.map_values(|c: (String, String)| (c.0@, c.1@))),
{
    let ghost cs = commands@.map_values(|c: (String, String)| (c.0@, c.1@));
    let mut output = owned("# CLI Reference\n\nGenerated from the Clap command definitions.\n\nUpdate this file with:\n\n```text\ncargo fm help-markdown > docs/cli.md\n```\n\n");
    let mut i: usize = 0;
    while i < commands.len()
        invariant
            i <= commands@.len(),
            cs == commands@.map_values(|c: (String, String)| (c.0@, c.1@)),
            output@ == cli_header() + command_sections(cs.take(i as int)),
        decreases commands@.len() - i,
    {
        assert(cs.take(i as int + 1).drop_last() == cs.take(i as int));
        assert(cs.take(i as int + 1).last() == (commands@[i as int].0@, commands@[i as int].1@));
        let ghost before = output@;
        output.append("## `");
        output.append(commands[i].0.as_str());
        output.append("`\n\n");
        output.append("```text\n");
        output.append(trim_end_str(commands[i].1.as_str()).as_str());
        output.append("\n```\n\n");
        assert(output@ =~= before + command_section(commands@[i as int].0@, commands@[i as int].1@));
        i = i + 1;
    }
    assert(cs.take(commands@.len() as int) == cs);
    output
}

} // verus!
