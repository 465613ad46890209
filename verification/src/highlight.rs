//! Syntax highlighting of diff content, done by syntect through the
//! two-face syntax and theme sets, kept as plain styled text.

use vstd::prelude::*;
use two_face::re_exports::syntect::easy::HighlightLines;
use two_face::re_exports::syntect::parsing::SyntaxSet;
use two_face::theme::{EmbeddedLazyThemeSet, EmbeddedThemeName};
use crate::repo::{CommitDetails, Hunk};
use crate::text::{chars_of, copy_string, string_of};

verus! {

broadcast use vstd::string::group_string_axioms;

#[verifier::external_type_specification]
#[verifier::external_body]
pub struct ExSyntaxSet(SyntaxSet);

#[verifier::external_type_specification]
#[verifier::external_body]
pub struct ExEmbeddedLazyThemeSet(EmbeddedLazyThemeSet);

#[verifier::external_type_specification]
#[verifier::external_body]
pub struct ExSyntectStyle(two_face::re_exports::syntect::highlighting::Style);

/// A colour with its alpha channel.
#[derive(Clone, Copy, PartialEq, Eq, Structural, Debug)]
pub struct Rgba {
    pub r: u8,
    pub g: u8,
    pub b: u8,
    pub a: u8,
}

/// How a piece of highlighted code is drawn: its colours, and its font
/// style as bits (bold 1, underline 2, italic 4).
#[derive(Clone, Copy, PartialEq, Eq, Structural, Debug)]
pub struct SyntaxStyle {
    pub foreground: Rgba,
    pub background: Rgba,
    pub font_style: u8,
}

/// Cached syntax-highlighted lines for a file
pub struct HighlightedFile {
    pub lines: Vec<Vec<(SyntaxStyle, String)>>,
}

/// Cached syntax highlighting for all files in a commit
pub struct HighlightCache {
    pub files: Vec<HighlightedFile>,
}

/// The syntax definitions and colour themes that two-face embeds.
pub struct Highlighter {
    syntax_set: SyntaxSet,
    theme_set: EmbeddedLazyThemeSet,
}

/// A highlighted line as plain values.
pub open spec fn styled_line(l: Vec<(SyntaxStyle, String)>) -> Seq<(SyntaxStyle, Seq<char>)> {
    l@.map_values(|p: (SyntaxStyle, String)| (p.0, p.1@))
}

/// Highlighted lines as plain values.
pub open spec fn styled_lines(ls: Seq<Vec<(SyntaxStyle, String)>>) -> Seq<
    Seq<(SyntaxStyle, Seq<char>)>,
> {
    ls.map_values(|l: Vec<(SyntaxStyle, String)>| styled_line(l))
}

/// What syntect makes of `lines` in the syntax for `extension` (plain
/// text when none has it) and the Catppuccin Frappé theme: the styled
/// pieces of each line.
pub uninterp spec fn highlighted(lines: Seq<Seq<char>>, extension: Seq<char>) -> Seq<
    Seq<(SyntaxStyle, Seq<char>)>,
>;

/// The syntect style as plain values.
#[verifier::external_body]
fn syntax_style(s: two_face::re_exports::syntect::highlighting::Style) -> SyntaxStyle {
    let (f, b) = (s.foreground, s.background);
    SyntaxStyle {
        foreground: Rgba { r: f.r, g: f.g, b: f.b, a: f.a },
        background: Rgba { r: b.r, g: b.g, b: b.b, a: b.a },
        font_style: s.font_style.bits(),
    }
}

/// Scanning a path back from its end: the text after the last `.` of its
/// file name (the part after the last `/`), or `None` when a `/` or the
/// start of the path comes before any `.`.
pub open spec fn dot_suffix(path: Seq<char>) -> Option<Seq<char>>
    decreases path.len(),
{
    if path.len() == 0 {
        None
    } else if path.last() == '.' {
        Some(Seq::empty())
    } else if path.last() == '/' {
        None
    } else {
        match dot_suffix(path.drop_last()) {
            Some(e) => Some(e.push(path.last())),
            None => None,
        }
    }
}

/// The extension of the file a path names: what follows the last `.` of
/// its file name, and nothing when the file name has no `.`.
pub open spec fn extension_of(path: Seq<char>) -> Seq<char> {
    match dot_suffix(path) {
        Some(e) => e,
        None => Seq::empty(),
    }
}

/// The code lines of some hunks, hunk after hunk.
pub open spec fn hunk_code(hunks: Seq<Hunk>) -> Seq<Seq<char>>
    decreases hunks.len(),
{
    if hunks.len() == 0 {
        Seq::empty()
    } else {
        hunk_code(hunks.drop_last()) + hunks.last().lines@.map_values(
            |d: crate::repo::DiffLine| d.content@,
        )
    }
}

/// The highlighting of a file's hunks: none without hunks.
pub open spec fn file_highlight(hunks: Seq<Hunk>, path: Seq<char>) -> Seq<
    Seq<(SyntaxStyle, Seq<char>)>,
> {
    if hunks.len() == 0 {
        Seq::empty()
    } else {
        highlighted(hunk_code(hunks), extension_of(path))
    }
}

impl Highlighter {
    /// The expanded syntax set (with newlines) and theme set of two-face.
    #[verifier::external_body]
    pub fn new() -> Highlighter {
        Highlighter {
            syntax_set: two_face::syntax::extra_newlines(),
            theme_set: two_face::theme::extra(),
        }
    }

    /// Highlight multiple lines of code, preserving syntax state across
    /// lines: syntect's `HighlightLines` run over the lines in turn (a line
    /// it fails on has no pieces). The result is named by `highlighted`,
    /// which does not depend on the highlighter: `new` is the only way to
    /// make one, and it always loads the same embedded sets.
    #[verifier::external_body]
    pub fn highlight_lines(&self, lines: &Vec<String>, extension: &str) -> (r: Vec<
        Vec<(SyntaxStyle, String)>,
    >)
        ensures
            styled_lines(r@) == highlighted(lines@.map_values(|s: String| s@), extension@),
            r@.len() == lines@.len(),
    {
        let set = &self.syntax_set;
        let syntax = set.find_syntax_by_extension(extension).unwrap_or_else(
            || set.find_syntax_plain_text(),
        );
        let mut h = HighlightLines::new(syntax, self.theme_set.get(EmbeddedThemeName::CatppuccinFrappe));
        lines.iter().map(
            |l| h.highlight_line(l, set).unwrap_or_default().into_iter().map(
                |(s, t)| (syntax_style(s), t.to_string()),
            ).collect(),
        ).collect()
    }

    /// Get the extension from a file path
    pub fn extension_from_path(path: &str) -> (r: String)
        ensures
            r@ == extension_of(path@),
    {
        let p = chars_of(path);
        let mut start: usize = p.len();
        proof {
            assert(p@.take(p@.len() as int) =~= p@);
            assert(p@.skip(p@.len() as int) =~= Seq::<char>::empty());
            assert(p@ + Seq::<char>::empty() =~= p@);
            match dot_suffix(p@) {
                Some(e) => assert(e + Seq::<char>::empty() =~= e),
                None => {},
            }
        }
        while start > 0 && p[start - 1] != '.' && p[start - 1] != '/'
            invariant
                start <= p.len(),
                dot_suffix(p@) == match dot_suffix(p@.take(start as int)) {
                    Some(e) => Some(e + p@.skip(start as int)),
                    None => None,
                },
            decreases start,
        {
            proof {
                let t = p@.take(start as int);
                assert(t.drop_last() =~= p@.take(start - 1));
                assert(t.last() == p@[start - 1]);
                match dot_suffix(p@.take(start - 1)) {
                    Some(e) => {
                        assert(e.push(p@[start - 1]) + p@.skip(start as int) =~= e + p@.skip(start - 1));
                    },
                    None => {},
                }
            }
            start -= 1;
        }
        let found = start > 0 && p[start - 1] == '.';
        proof {
            if start == 0 {
                assert(p@.take(0) =~= Seq::<char>::empty());
            } else {
                assert(p@.take(start as int).last() == p@[start - 1]);
            }
            if found {
                assert(Seq::<char>::empty() + p@.skip(start as int) =~= p@.skip(start as int));
            }
        }
        if !found {
            let none: Vec<char> = Vec::new();
            return string_of(&none);
        }
        let mut r: Vec<char> = Vec::new();
        let mut k: usize = start;
        while k < p.len()
            invariant
                start <= k <= p.len(),
                r@ == p@.subrange(start as int, k as int),
            decreases p.len() - k,
        {
            r.push(p[k]);
            proof {
                assert(p@.subrange(start as int, k + 1) =~= p@.subrange(start as int, k as int).push(
                    p@[k as int],
                ));
            }
            k += 1;
        }
        proof {
            assert(p@.subrange(start as int, p@.len() as int) =~= p@.skip(start as int));
        }
        string_of(&r)
    }

    /// Highlight hunks for a single file (used by staging view)
    pub fn highlight_hunks(&self, hunks: &Vec<Hunk>, file_path: &str) -> (r: HighlightedFile)
        ensures
            styled_lines(r.lines@) == file_highlight(hunks@, file_path@),
            r.lines@.len() == hunk_code(hunks@).len(),
    {
        if hunks.len() == 0 {
            let r = HighlightedFile { lines: Vec::new() };
            proof {
                assert(styled_lines(r.lines@) =~= Seq::<Seq<(SyntaxStyle, Seq<char>)>>::empty());
            }
            return r;
        }
        let ext = Self::extension_from_path(file_path);
        let code = code_lines(hunks);
        let lines = self.highlight_lines(&code, ext.as_str());
        proof {
            assert(code@.map_values(|s: String| s@).len() == code@.len());
        }
        HighlightedFile { lines }
    }

    /// Pre-compute syntax highlighting for all files in a commit
    pub fn highlight_commit(&self, details: &CommitDetails) -> (r: HighlightCache)
        ensures
            r.files@.len() == details.files@.len(),
            forall|i: int|
                0 <= i < details.files@.len() ==> styled_lines(#[trigger] r.files@[i].lines@)
                    == file_highlight(details.files@[i].hunks@, details.files@[i].path@)
                    && r.files@[i].lines@.len() == hunk_code(details.files@[i].hunks@).len(),
    {
        let mut files: Vec<HighlightedFile> = Vec::new();
        let mut k: usize = 0;
        while k < details.files.len()
            invariant
                k <= details.files.len(),
                files@.len() == k,
                forall|i: int|
                    0 <= i < k ==> styled_lines(#[trigger] files@[i].lines@) == file_highlight(
                        details.files@[i].hunks@,
                        details.files@[i].path@,
                    ) && files@[i].lines@.len() == hunk_code(details.files@[i].hunks@).len(),
            decreases details.files.len() - k,
        {
            let file = &details.files[k];
            files.push(self.highlight_hunks(&file.hunks, file.path.as_str()));
            k += 1;
        }
        HighlightCache { files }
    }
}

/// The code lines of some hunks as strings.
fn code_lines(hunks: &Vec<Hunk>) -> (r: Vec<String>)
    ensures
        r@.map_values(|s: String| s@) == hunk_code(hunks@),
{
    let mut r: Vec<String> = Vec::new();
    let mut k: usize = 0;
    while k < hunks.len()
        invariant
            k <= hunks.len(),
            r@.map_values(|s: String| s@) == hunk_code(hunks@.take(k as int)),
        decreases hunks.len() - k,
    {
        let ghost base = r@.map_values(|s: String| s@);
        let lines = &hunks[k].lines;
        let mut j: usize = 0;
        while j < lines.len()
            invariant
                j <= lines.len(),
                lines@ == hunks@[k as int].lines@,
                r@.map_values(|s: String| s@) == base + lines@.take(j as int).map_values(
                    |d: crate::repo::DiffLine| d.content@,
                ),
            decreases lines.len() - j,
        {
            let ghost before = r@;
            r.push(copy_string(&lines[j].content));
            proof {
                assert(r@.map_values(|s: String| s@) =~= before.map_values(|s: String| s@).push(
                    lines@[j as int].content@,
                ));
                assert(lines@.take(j + 1) =~= lines@.take(j as int).push(lines@[j as int]));
                assert(r@.map_values(|s: String| s@) =~= base + lines@.take(j + 1).map_values(
                    |d: crate::repo::DiffLine| d.content@,
                ));
            }
            j += 1;
        }
        proof {
            assert(lines@.take(lines@.len() as int) =~= lines@);
            assert(hunks@.take(k + 1).drop_last() =~= hunks@.take(k as int));
            assert(hunks@.take(k + 1).last() == hunks@[k as int]);
        }
        k += 1;
    }
    proof {
        assert(hunks@.take(hunks@.len() as int) =~= hunks@);
    }
    r
}

} // verus!
