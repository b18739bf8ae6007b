//! Markdown: the raw text and the table of contents of its headings.

use crate::projection::{
    Confidence, Fetch, Fetched, Projection, ProjectionError, ProjectionOutput, Resource, TocEntry,
    TocEntryView,
};
use crate::text::{
    classify, drop_space, glyphs_of, lemma_drop_space_bounds, lemma_run_len_bound,
    lemma_skip_space_bounds, letters, letters_of, run_end, run_len, skip_space, string_of,
    trim_span, unicode_lowercase, Glyph,
};
use vstd::prelude::*;

verus! {

pub struct TextMarkdown;

/// A heading as it stands in a text: its level and its title.
#[derive(Debug, Clone)]
pub struct Heading {
    pub level: u8,
    pub text: String,
}

/// The first index in `from..to` whose character is no `#`, or `to`.
pub open spec fn skip_hashes(g: Seq<Glyph>, from: int, to: int) -> int
    decreases to - from,
{
    if 0 <= from < to && from < g.len() && g[from].ch == '#' {
        skip_hashes(g, from + 1, to)
    } else {
        from
    }
}

/// The heading that the line `from..to` holds, if it holds one: the line
/// without the white space around it starts with one to six `#`, and
/// something other than white space follows them. The title is what
/// follows, without the white space around it.
pub open spec fn heading_at(g: Seq<Glyph>, from: int, to: int) -> Option<(u8, Seq<char>)> {
    let a = skip_space(g, from, to);
    let b = drop_space(g, a, to);
    let h = skip_hashes(g, a, b);
    let t = skip_space(g, h, b);
    if a < h <= a + 6 && t < b {
        Some(((h - a) as u8, letters_of(g.subrange(t, b))))
    } else {
        None
    }
}

/// Where the line that starts at `from` ends, its line ending left out: a
/// line feed, or a carriage return and a line feed.
pub open spec fn line_stop(s: Seq<char>, from: int) -> int {
    let end = from + run_len(s, from, '\n');
    if from < end < s.len() && s[end - 1] == '\r' {
        end - 1
    } else {
        end
    }
}

/// The headings of the lines that start at `from` or later, in the order of
/// the text.
pub open spec fn headings_from(g: Seq<Glyph>, from: int) -> Seq<(u8, Seq<char>)>
    decreases g.len() + 1 - from,
{
    if from < 0 || from >= g.len() {
        Seq::empty()
    } else {
        let s = letters_of(g);
        let end = from + run_len(s, from, '\n');
        proof {
            lemma_run_len_bound(s, from, '\n');
        }
        let rest = headings_from(g, end + 1);
        match heading_at(g, from, line_stop(s, from)) {
            Some(h) => seq![h] + rest,
            None => rest,
        }
    }
}

/// Skipping `#` stays inside the span.
pub proof fn lemma_skip_hashes_bounds(g: Seq<Glyph>, from: int, to: int)
    requires
        from <= to,
    ensures
        from <= skip_hashes(g, from, to) <= to,
    decreases to - from,
{
    if 0 <= from < to && from < g.len() && g[from].ch == '#' {
        lemma_skip_hashes_bounds(g, from + 1, to);
    }
}

/// A heading has a level from 1 to 6 and a title that is not empty: a line
/// of `#` alone is no heading.
pub proof fn lemma_heading_has_title(g: Seq<Glyph>, from: int, to: int)
    requires
        0 <= from <= to <= g.len(),
    ensures
        heading_at(g, from, to) matches Some(h) ==> 1 <= h.0 <= 6 && h.1.len() > 0,
{
    let a = skip_space(g, from, to);
    lemma_skip_space_bounds(g, from, to);
    let b = drop_space(g, a, to);
    lemma_drop_space_bounds(g, a, to);
    let h = skip_hashes(g, a, b);
    lemma_skip_hashes_bounds(g, a, b);
    let t = skip_space(g, h, b);
    lemma_skip_space_bounds(g, h, b);
}

/// Every heading found in a text has a level from 1 to 6 and a title that
/// is not empty.
pub proof fn lemma_headings_have_titles(g: Seq<Glyph>, from: int)
    ensures
        forall|i: int|
            0 <= i < headings_from(g, from).len() ==> 1 <= (#[trigger] headings_from(g, from)[i]).0
                <= 6 && headings_from(g, from)[i].1.len() > 0,
    decreases g.len() + 1 - from,
{
    if 0 <= from < g.len() {
        let s = letters_of(g);
        let end = from + run_len(s, from, '\n');
        lemma_run_len_bound(s, from, '\n');
        let stop = line_stop(s, from);
        lemma_heading_has_title(g, from, stop);
        lemma_headings_have_titles(g, end + 1);
        let rest = headings_from(g, end + 1);
        let here = headings_from(g, from);
        assert forall|i: int| 0 <= i < here.len() implies 1 <= (#[trigger] here[i]).0 <= 6
            && here[i].1.len() > 0 by {
            match heading_at(g, from, stop) {
                Some(h) => {
                    assert(here == seq![h] + rest);
                    if i > 0 {
                        assert(here[i] == rest[i - 1]);
                    }
                },
                None => {},
            }
        }
    }
}

/// Reads the heading of the line `from..to`.
fn heading_in(glyphs: &Vec<Glyph>, chars: &Vec<char>, from: usize, to: usize) -> (r: Option<
    Heading,
>)
    requires
        from <= to <= glyphs.len(),
        chars@ == letters_of(glyphs@),
    ensures
        match heading_at(glyphs@, from as int, to as int) {
            Some(h) => r matches Some(found) && found.level == h.0 && found.text@ == h.1,
            None => r is None,
        },
{
    let (a, b) = trim_span(glyphs, from, to);
    let mut h: usize = a;
    while h < b && glyphs[h].ch == '#'
        invariant
            a <= h <= b <= glyphs.len(),
            skip_hashes(glyphs@, a as int, b as int) == skip_hashes(glyphs@, h as int, b as int),
        decreases b - h,
    {
        h += 1;
    }
    let mut t: usize = h;
    while t < b && glyphs[t].space
        invariant
            h <= t <= b <= glyphs.len(),
            skip_space(glyphs@, h as int, b as int) == skip_space(glyphs@, t as int, b as int),
        decreases b - t,
    {
        t += 1;
    }
    if a < h && h - a <= 6 && t < b {
        let text = string_of(chars, t, b);
        proof {
            assert(chars@.subrange(t as int, b as int) =~= letters_of(
                glyphs@.subrange(t as int, b as int),
            ));
        }
        Some(Heading { level: (h - a) as u8, text })
    } else {
        None
    }
}

/// The headings of a text, in the order of the text.
pub fn headings(glyphs: &Vec<Glyph>) -> (found: Vec<Heading>)
    ensures
        found@.len() == headings_from(glyphs@, 0).len(),
        forall|i: int|
            0 <= i < found@.len() ==> found@[i].level == (#[trigger] headings_from(glyphs@, 0)[i]).0
                && found@[i].text@ == headings_from(glyphs@, 0)[i].1,
{
    let chars = letters(glyphs);
    let mut found: Vec<Heading> = Vec::new();
    let mut start: usize = 0;
    let ghost all = headings_from(glyphs@, 0);
    while start < glyphs.len()
        invariant
            start <= glyphs.len(),
            chars@ == letters_of(glyphs@),
            all == headings_from(glyphs@, 0),
            found@.len() + headings_from(glyphs@, start as int).len() == all.len(),
            forall|i: int|
                0 <= i < found@.len() ==> found@[i].level == (#[trigger] all[i]).0
                    && found@[i].text@ == all[i].1,
            forall|i: int|
                0 <= i < headings_from(glyphs@, start as int).len() ==> all[found@.len() + i]
                    == #[trigger] headings_from(glyphs@, start as int)[i],
        decreases glyphs.len() - start,
    {
        let end = run_end(&chars, start, '\n');
        let stop = if start < end && end < chars.len() && chars[end - 1] == '\r' {
            end - 1
        } else {
            end
        };
        let ghost rest = headings_from(glyphs@, end as int + 1);
        let ghost here = headings_from(glyphs@, start as int);
        match heading_in(glyphs, &chars, start, stop) {
            Some(h) => {
                proof {
                    let spec_h = heading_at(glyphs@, start as int, stop as int)->0;
                    assert(here == seq![spec_h] + rest);
                    assert(here[0] == spec_h);
                    assert(all[found@.len() as int] == here[0]);
                    assert forall|i: int| 0 <= i < rest.len() implies all[found@.len() + 1 + i]
                        == #[trigger] rest[i] by {
                        assert(here[i + 1] == rest[i]);
                    }
                }
                found.push(h);
            },
            None => {
                proof {
                    assert(here == rest);
                }
            },
        }
        if end == glyphs.len() {
            proof {
                assert(rest.len() == 0);
            }
            start = end;
        } else {
            start = end + 1;
        }
    }
    found
}

/// What a glyph of a lowercase title gives to the slug: letters, digits,
/// `-` and `_` stay, a space becomes `-`, everything else is left out.
pub open spec fn slug_char(g: Glyph) -> Option<char> {
    if g.word || g.ch == '-' || g.ch == '_' {
        Some(g.ch)
    } else if g.ch == ' ' {
        Some('-')
    } else {
        None
    }
}

/// The slug of a title that is already in lowercase.
pub open spec fn slug_of(g: Seq<Glyph>) -> Seq<char>
    decreases g.len(),
{
    if g.len() == 0 {
        Seq::empty()
    } else {
        match slug_char(g.last()) {
            Some(c) => slug_of(g.drop_last()).push(c),
            None => slug_of(g.drop_last()),
        }
    }
}

/// The slug of a title: that of its lowercase form.
pub open spec fn slug_for(text: Seq<char>) -> Seq<char> {
    slug_of(glyphs_of(unicode_lowercase(text)))
}

/// The table of contents of a text: one entry for each heading, in the
/// order of the text.
pub open spec fn toc_of(raw: Seq<char>) -> Seq<TocEntryView> {
    headings_from(glyphs_of(raw), 0).map_values(
        |h: (u8, Seq<char>)| TocEntryView { level: h.0, text: h.1, slug: slug_for(h.1) },
    )
}

/// Every entry of a table of contents stands for a heading with a title:
/// its level is from 1 to 6 and its text is not empty, so a line that
/// holds `#` and nothing else gives no entry.
pub proof fn lemma_toc_entries_have_titles(raw: Seq<char>)
    ensures
        forall|i: int|
            0 <= i < toc_of(raw).len() ==> 1 <= (#[trigger] toc_of(raw)[i]).level <= 6 && toc_of(
                raw,
            )[i].text.len() > 0,
{
    lemma_headings_have_titles(glyphs_of(raw), 0);
}

/// Builds the slug of a title from the glyphs of its lowercase form.
pub fn slug_from(glyphs: &Vec<Glyph>) -> (slug: String)
    ensures
        slug@ == slug_of(glyphs@),
{
    let mut slug = String::new();
    let mut i: usize = 0;
    while i < glyphs.len()
        invariant
            i <= glyphs.len(),
            slug@ == slug_of(glyphs@.take(i as int)),
        decreases glyphs.len() - i,
    {
        proof {
            assert(glyphs@.take(i + 1).drop_last() =~= glyphs@.take(i as int));
        }
        let g = glyphs[i];
        if g.word || g.ch == '-' || g.ch == '_' {
            slug.push(g.ch);
        } else if g.ch == ' ' {
            slug.push('-');
        }
        i += 1;
    }
    proof {
        assert(glyphs@.take(i as int) =~= glyphs@);
    }
    slug
}

impl TextMarkdown {
    /// The table of contents of a Markdown text.
    pub fn extract_toc(raw: &str) -> (toc: Vec<TocEntry>)
        ensures
            toc@.map_values(|e: TocEntry| e@) == toc_of(raw@),
    {
        let glyphs = classify(raw);
        let found = headings(&glyphs);
        let ghost all = headings_from(glyphs@, 0);
        let mut toc: Vec<TocEntry> = Vec::new();
        let mut i: usize = 0;
        while i < found.len()
            invariant
                i <= found.len(),
                found@.len() == all.len(),
                forall|k: int|
                    0 <= k < found@.len() ==> found@[k].level == (#[trigger] all[k]).0
                        && found@[k].text@ == all[k].1,
                toc@.len() == i,
                forall|k: int|
                    0 <= k < i ==> (#[trigger] toc@[k])@ == (TocEntryView {
                        level: all[k].0,
                        text: all[k].1,
                        slug: slug_for(all[k].1),
                    }),
            decreases found.len() - i,
        {
            let text = found[i].text.clone();
            let lower = text.as_str().to_lowercase();
            let slug = slug_from(&classify(lower.as_str()));
            assert(all[i as int].1 == text@);
            toc.push(TocEntry { level: found[i].level, text, slug });
            i += 1;
        }
        proof {
            assert(toc@.map_values(|e: TocEntry| e@) =~= toc_of(raw@));
        }
        toc
    }
}

/// The score of the Markdown projection: 1000 for a file whose extension
/// is `md` or `markdown`, 0 otherwise.
pub open spec fn markdown_score(is_dir: bool, extension: Option<Seq<char>>) -> nat {
    if is_dir {
        0
    } else {
        match extension {
            Some(ext) => if ext == "md"@ || ext == "markdown"@ {
                1000
            } else {
                0
            },
            None => 0,
        }
    }
}

impl TextMarkdown {
    /// Renders a Markdown text: the text itself and its table of contents.
    pub fn render(raw: String) -> (out: ProjectionOutput)
        ensures
            out matches ProjectionOutput::Markdown { raw: kept, toc } && kept@ == raw@
                && toc@.map_values(|e: TocEntry| e@) == toc_of(raw@),
    {
        let toc = TextMarkdown::extract_toc(raw.as_str());
        ProjectionOutput::Markdown { raw, toc }
    }
}

impl Projection for TextMarkdown {
    fn id(&self) -> (r: &str)
        ensures
            r@ == "text.markdown"@,
    {
        "text.markdown"
    }

    fn name(&self) -> (r: &str)
        ensures
            r@ == "Markdown"@,
    {
        "Markdown"
    }

    fn confidence(&self, resource: &Resource) -> (c: Confidence)
        ensures
            c.value() == markdown_score(resource.is_dir, resource.extension_text()),
    {
        if resource.is_dir {
            return Confidence::from_permille(0);
        }
        match &resource.extension {
            Some(ext) => {
                if ext.as_str().eq("md") || ext.as_str().eq("markdown") {
                    Confidence::from_permille(1000)
                } else {
                    Confidence::from_permille(0)
                }
            },
            None => Confidence::from_permille(0),
        }
    }

    fn needs(&self, resource: &Resource) -> (f: Fetch)
        ensures
            f == Fetch::Text,
    {
        Fetch::Text
    }

    fn project(&self, resource: &Resource, fetched: Fetched) -> (r: Result<
        ProjectionOutput,
        ProjectionError,
    >)
        ensures
            fetched is Text <==> r is Ok,
            r matches Err(e) ==> e is Unsupported,
            r matches Ok(out) ==> (out matches ProjectionOutput::Markdown { raw, toc } && raw@
                == fetched->Text_0@ && toc@.map_values(|e: TocEntry| e@) == toc_of(raw@)),
    {
        match fetched {
            Fetched::Text(raw) => Ok(TextMarkdown::render(raw)),
            _ => Err(ProjectionError::Unsupported),
        }
    }
}

} // verus!
