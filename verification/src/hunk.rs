//! Applying a diff hunk to a file's text, as staging and unstaging a single
//! hunk do, and turning a hunk around; and reading a hunk from the lines of
//! a patch.

use vstd::prelude::*;
use crate::repo::{DiffLine, Hunk};
use crate::text::{
    chars_of, copy_chars, extend_chars, join, joined, lines_of, lines_scan, same_chars, split_lines,
    string_of, strip_cr,
};

verus! {

// ---------------------------------------------------------------------------
// Specification
// ---------------------------------------------------------------------------

/// The lines a hunk expects to find: its context and removed lines.
pub open spec fn old_side(h: Seq<DiffLine>) -> Seq<Seq<char>>
    decreases h.len(),
{
    if h.len() == 0 {
        Seq::empty()
    } else {
        let r = old_side(h.drop_last());
        let d = h.last();
        if d.origin == ' ' || d.origin == '-' {
            r.push(d.content@)
        } else {
            r
        }
    }
}

/// The lines a hunk leaves behind: its context and added lines.
pub open spec fn new_side(h: Seq<DiffLine>) -> Seq<Seq<char>>
    decreases h.len(),
{
    if h.len() == 0 {
        Seq::empty()
    } else {
        let r = new_side(h.drop_last());
        let d = h.last();
        if d.origin == ' ' || d.origin == '+' {
            r.push(d.content@)
        } else {
            r
        }
    }
}

/// `pat` stands in `lines` from line `i` on.
pub open spec fn fits_at(lines: Seq<Seq<char>>, pat: Seq<Seq<char>>, i: int) -> bool {
    0 <= i && i + pat.len() <= lines.len() && lines.subrange(i, i + pat.len()) == pat
}

/// The first line below `n` from which `pat` stands in `lines`.
pub open spec fn first_fit_upto(lines: Seq<Seq<char>>, pat: Seq<Seq<char>>, n: int) -> Option<int>
    decreases n,
{
    if n <= 0 {
        None
    } else {
        match first_fit_upto(lines, pat, n - 1) {
            Some(k) => Some(k),
            None => if fits_at(lines, pat, n - 1) {
                Some(n - 1)
            } else {
                None
            },
        }
    }
}

/// The first line from which `pat` stands in `lines`, if any.
pub open spec fn first_fit(lines: Seq<Seq<char>>, pat: Seq<Seq<char>>) -> Option<int> {
    first_fit_upto(lines, pat, lines.len() as int + 1)
}

pub open spec fn newline() -> Seq<char> {
    seq!['\n']
}

/// The text after applying a hunk, or `None` when the lines it expects are
/// nowhere in the text. The hunk goes where its old side first stands; the
/// text keeps a final newline when it had one or when neither it nor the
/// result is empty. An empty text with a hunk of added lines only becomes
/// those lines, each ended by a newline.
pub open spec fn applied(content: Seq<char>, h: Seq<DiffLine>) -> Option<Seq<char>> {
    let lines = lines_of(content);
    let old = old_side(h);
    let new = new_side(h);
    if old.len() == 0 && content.len() == 0 {
        Some(
            joined(new, newline()) + if new.len() == 0 {
                Seq::empty()
            } else {
                newline()
            },
        )
    } else {
        match first_fit(lines, old) {
            None => None,
            Some(i) => {
                let out = joined(lines.take(i) + new + lines.skip(i + old.len()), newline());
                Some(
                    if (content.len() > 0 && content.last() == '\n') || (content.len() > 0
                        && out.len() > 0) {
                        out.push('\n')
                    } else {
                        out
                    },
                )
            },
        }
    }
}

/// The message of a hunk that does not fit the text.
pub open spec fn no_fit_message() -> Seq<char> {
    "could not find hunk location in file"@
}

/// The origin a line has in the reversed hunk.
pub open spec fn flipped(origin: char) -> char {
    if origin == '+' {
        '-'
    } else if origin == '-' {
        '+'
    } else {
        origin
    }
}

/// A diff line seen by its origin, text and line number.
pub open spec fn line_view(d: DiffLine) -> (char, Seq<char>, Option<u32>) {
    (d.origin, d.content@, d.new_line_no)
}

pub open spec fn hunk_view(h: Hunk) -> Seq<(char, Seq<char>, Option<u32>)> {
    h.lines@.map_values(|d: DiffLine| line_view(d))
}

// ---------------------------------------------------------------------------
// Implementation
// ---------------------------------------------------------------------------

/// The two sides of a hunk: the lines it expects and the lines it leaves.
fn sides(h: &Hunk) -> (r: (Vec<Vec<char>>, Vec<Vec<char>>))
    ensures
        r.0.deep_view() == old_side(h.lines@),
        r.1.deep_view() == new_side(h.lines@),
{
    let mut old: Vec<Vec<char>> = Vec::new();
    let mut new: Vec<Vec<char>> = Vec::new();
    let mut i: usize = 0;
    while i < h.lines.len()
        invariant
            i <= h.lines.len(),
            old.deep_view() == old_side(h.lines@.take(i as int)),
            new.deep_view() == new_side(h.lines@.take(i as int)),
        decreases h.lines.len() - i,
    {
        let d = &h.lines[i];
        let ghost old0 = old.deep_view();
        let ghost new0 = new.deep_view();
        proof {
            assert(h.lines@.take(i + 1).drop_last() =~= h.lines@.take(i as int));
            assert(h.lines@.take(i + 1).last() == *d);
        }
        if d.origin == ' ' || d.origin == '-' {
            let c = chars_of(d.content.as_str());
            proof {
                assert(c.deep_view() =~= c@);
            }
            old.push(c);
            proof {
                assert(old.deep_view() =~= old0.push(d.content@));
            }
        }
        if d.origin == ' ' || d.origin == '+' {
            let c = chars_of(d.content.as_str());
            proof {
                assert(c.deep_view() =~= c@);
            }
            new.push(c);
            proof {
                assert(new.deep_view() =~= new0.push(d.content@));
            }
        }
        i += 1;
    }
    proof {
        assert(h.lines@.take(h.lines@.len() as int) =~= h.lines@);
    }
    (old, new)
}

proof fn lemma_deep_index(v: Vec<Vec<char>>, k: int)
    requires
        0 <= k < v@.len(),
    ensures
        v.deep_view()[k] == v@[k]@,
{
    assert(v@[k].deep_view() =~= v@[k]@);
}

/// The first line from which `pat` stands in `lines`.
fn find_fit(lines: &Vec<Vec<char>>, pat: &Vec<Vec<char>>) -> (r: Option<usize>)
    ensures
        match r {
            Some(k) => first_fit(lines.deep_view(), pat.deep_view()) == Some(k as int),
            None => first_fit(lines.deep_view(), pat.deep_view()) is None,
        },
{
    let mut i: usize = 0;
    while i < lines.len()
        invariant
            i <= lines.len(),
            first_fit_upto(lines.deep_view(), pat.deep_view(), i as int) is None,
        decreases lines.len() - i,
    {
        if fits(lines, pat, i) {
            proof {
                lemma_first_fit_stable(lines.deep_view(), pat.deep_view(), i + 1, lines.len() + 1);
            }
            return Some(i);
        }
        i += 1;
    }
    if fits(lines, pat, lines.len()) {
        return Some(lines.len());
    }
    None
}

/// Whether `pat` stands in `lines` from line `i` on.
fn fits(lines: &Vec<Vec<char>>, pat: &Vec<Vec<char>>, i: usize) -> (r: bool)
    ensures
        r == fits_at(lines.deep_view(), pat.deep_view(), i as int),
{
    if pat.len() > lines.len() || i > lines.len() - pat.len() {
        return false;
    }
    let mut j: usize = 0;
    while j < pat.len()
        invariant
            i + pat.len() <= lines.len(),
            j <= pat.len(),
            forall|k: int| 0 <= k < j ==> lines.deep_view()[i + k] == pat.deep_view()[k],
        decreases pat.len() - j,
    {
        proof {
            lemma_deep_index(*lines, i + j);
            lemma_deep_index(*pat, j as int);
        }
        if !same_chars(&lines[i + j], &pat[j]) {
            proof {
                assert(lines.deep_view().subrange(i as int, i + pat.len())[j as int]
                    != pat.deep_view()[j as int]);
            }
            return false;
        }
        j += 1;
    }
    proof {
        assert(lines.deep_view().subrange(i as int, i + pat.len()) =~= pat.deep_view());
    }
    true
}

/// Appends copies of `src[from..to]` to `dst`.
fn extend_lines(dst: &mut Vec<Vec<char>>, src: &Vec<Vec<char>>, from: usize, to: usize)
    requires
        from <= to <= src.len(),
    ensures
        final(dst).deep_view() == old(dst).deep_view() + src.deep_view().subrange(
            from as int,
            to as int,
        ),
{
    let ghost orig = dst.deep_view();
    let mut k: usize = from;
    while k < to
        invariant
            from <= k <= to <= src.len(),
            dst.deep_view() == orig + src.deep_view().subrange(from as int, k as int),
        decreases to - k,
    {
        let ghost before = dst.deep_view();
        let line = copy_chars(&src[k]);
        proof {
            assert(line.deep_view() =~= line@);
        }
        dst.push(line);
        proof {
            assert(dst.deep_view() =~= before.push(src.deep_view()[k as int]));
            assert(src.deep_view().subrange(from as int, k + 1) =~= src.deep_view().subrange(
                from as int,
                k as int,
            ).push(src.deep_view()[k as int]));
        }
        k += 1;
    }
}

/// Applies a hunk to a file's text: the lines it expects are replaced by
/// the lines it leaves where they first stand.
pub fn apply_hunk_to_content(content: &str, hunk: &Hunk) -> (r: Result<String, String>)
    ensures
        match applied(content@, hunk.lines@) {
            Some(t) => r is Ok && r->Ok_0@ == t,
            None => r is Err && r->Err_0@ == no_fit_message(),
        },
{
    let text = chars_of(content);
    let lines = split_lines(&text);
    let (old, new) = sides(hunk);
    let mut nl: Vec<char> = Vec::new();
    nl.push('\n');
    proof {
        assert(nl@ =~= newline());
    }
    if old.len() == 0 && text.len() == 0 {
        let mut out = join(&new, &nl);
        if new.len() > 0 {
            out.push('\n');
        }
        proof {
            if new.len() == 0 {
                assert(out@ =~= joined(new.deep_view(), newline()) + Seq::<char>::empty());
            } else {
                assert(out@ =~= joined(new.deep_view(), newline()) + newline());
            }
        }
        return Ok(string_of(&out));
    }
    let found = find_fit(&lines, &old);
    match found {
        None => {
            proof {
                reveal_strlit("could not find hunk location in file");
            }
            Err(string_of(&chars_of("could not find hunk location in file")))
        },
        Some(at) => {
            proof {
                lemma_first_fit_fits(lines.deep_view(), old.deep_view(), lines.len() + 1);
            }
            let mut result: Vec<Vec<char>> = Vec::new();
            extend_lines(&mut result, &lines, 0, at);
            extend_lines(&mut result, &new, 0, new.len());
            extend_lines(&mut result, &lines, at + old.len(), lines.len());
            let ghost lv = lines.deep_view();
            proof {
                assert(lv.subrange(0, at as int) =~= lv.take(at as int));
                assert(new.deep_view().subrange(0, new.len() as int) =~= new.deep_view());
                assert(lv.subrange(at + old.len(), lv.len() as int) =~= lv.skip(at + old.len()));
                assert(result.deep_view() =~= lv.take(at as int) + new.deep_view() + lv.skip(
                    at + old.len(),
                ));
            }
            let mut out = join(&result, &nl);
            let ends_with_newline = text.len() > 0 && text[text.len() - 1] == '\n';
            if ends_with_newline || (text.len() > 0 && out.len() > 0) {
                out.push('\n');
            }
            Ok(string_of(&out))
        },
    }
}

proof fn lemma_first_fit_fits(lines: Seq<Seq<char>>, pat: Seq<Seq<char>>, n: int)
    requires
        first_fit_upto(lines, pat, n) is Some,
    ensures
        fits_at(lines, pat, first_fit_upto(lines, pat, n)->0),
    decreases n,
{
    if n > 0 && first_fit_upto(lines, pat, n - 1) is Some {
        lemma_first_fit_fits(lines, pat, n - 1);
    }
}

proof fn lemma_first_fit_stable(lines: Seq<Seq<char>>, pat: Seq<Seq<char>>, m: int, n: int)
    requires
        0 <= m <= n,
        first_fit_upto(lines, pat, m) is Some,
    ensures
        first_fit_upto(lines, pat, n) == first_fit_upto(lines, pat, m),
    decreases n - m,
{
    if n > m {
        lemma_first_fit_stable(lines, pat, m, n - 1);
    }
}

/// The hunk turned around: added lines become removed lines and removed
/// lines added ones. Unstaging a hunk applies it reversed.
pub fn reverse_hunk(hunk: &Hunk) -> (r: Hunk)
    ensures
        reverses(r.lines@, hunk.lines@),
{
    let mut lines: Vec<DiffLine> = Vec::new();
    let mut i: usize = 0;
    while i < hunk.lines.len()
        invariant
            i <= hunk.lines.len(),
            lines@.len() == i,
            forall|k: int|
                0 <= k < i ==> line_view(#[trigger] lines@[k]) == (
                    flipped(hunk.lines@[k].origin),
                    hunk.lines@[k].content@,
                    hunk.lines@[k].new_line_no,
                ),
        decreases hunk.lines.len() - i,
    {
        let line = &hunk.lines[i];
        let origin = if line.origin == '+' {
            '-'
        } else if line.origin == '-' {
            '+'
        } else {
            line.origin
        };
        lines.push(DiffLine { origin, content: line.content.clone(), new_line_no: line.new_line_no });
        i += 1;
    }
    Hunk { lines }
}

/// A copy of a hunk.
pub fn copy_hunk(hunk: &Hunk) -> (r: Hunk)
    ensures
        hunk_view(r) == hunk_view(*hunk),
{
    let mut lines: Vec<DiffLine> = Vec::new();
    let mut i: usize = 0;
    while i < hunk.lines.len()
        invariant
            i <= hunk.lines.len(),
            lines@.len() == i,
            forall|k: int| 0 <= k < i ==> line_view(#[trigger] lines@[k]) == line_view(hunk.lines@[k]),
        decreases hunk.lines.len() - i,
    {
        let line = &hunk.lines[i];
        lines.push(
            DiffLine { origin: line.origin, content: line.content.clone(), new_line_no: line.new_line_no },
        );
        i += 1;
    }
    let r = Hunk { lines };
    proof {
        assert(hunk_view(r) =~= hunk_view(*hunk));
    }
    r
}

// ---------------------------------------------------------------------------
// Laws
// ---------------------------------------------------------------------------

/// `r` is `h` turned around, line by line, as `reverse_hunk` gives it.
pub open spec fn reverses(r: Seq<DiffLine>, h: Seq<DiffLine>) -> bool {
    &&& r.len() == h.len()
    &&& forall|i: int|
        0 <= i < h.len() ==> line_view(#[trigger] r[i]) == (
            flipped(h[i].origin),
            h[i].content@,
            h[i].new_line_no,
        )
}

/// Turning a hunk around swaps its sides: unstaging a hunk expects the
/// lines that staging it left, and leaves the lines that staging expected.
pub proof fn law_reversal_swaps_sides(r: Seq<DiffLine>, h: Seq<DiffLine>)
    requires
        reverses(r, h),
    ensures
        old_side(r) == new_side(h),
        new_side(r) == old_side(h),
    decreases h.len(),
{
    if h.len() > 0 {
        assert(reverses(r.drop_last(), h.drop_last())) by {
            assert forall|i: int| 0 <= i < h.drop_last().len() implies line_view(
                #[trigger] r.drop_last()[i],
            ) == (
                flipped(h.drop_last()[i].origin),
                h.drop_last()[i].content@,
                h.drop_last()[i].new_line_no,
            ) by {
                assert(line_view(r[i]) == (flipped(h[i].origin), h[i].content@, h[i].new_line_no));
            }
        }
        law_reversal_swaps_sides(r.drop_last(), h.drop_last());
        assert(line_view(r[h.len() - 1]) == (
            flipped(h.last().origin),
            h.last().content@,
            h.last().new_line_no,
        ));
    }
}

/// Turning a hunk around twice gives the hunk back.
pub proof fn law_reverse_twice(r2: Seq<DiffLine>, r: Seq<DiffLine>, h: Seq<DiffLine>)
    requires
        reverses(r, h),
        reverses(r2, r),
    ensures
        r2.map_values(|d: DiffLine| line_view(d)) == h.map_values(|d: DiffLine| line_view(d)),
{
    assert forall|i: int| 0 <= i < h.len() implies #[trigger] line_view(r2[i]) == line_view(
        h[i],
    ) by {
        assert(line_view(r[i]) == (flipped(h[i].origin), h[i].content@, h[i].new_line_no));
        assert(line_view(r2[i]) == (flipped(r[i].origin), r[i].content@, r[i].new_line_no));
    }
    assert(r2.map_values(|d: DiffLine| line_view(d)) =~= h.map_values(
        |d: DiffLine| line_view(d),
    ));
}


// ---------------------------------------------------------------------------
// Reading hunks from a patch
// ---------------------------------------------------------------------------

/// One line of a patch as git gives it: its origin, its raw bytes read as
/// text (newline included), and its number in the new file.
pub struct PatchLine {
    pub origin: char,
    pub content: String,
    pub new_line_no: Option<u32>,
}

/// `s` without the newlines at its end.
pub open spec fn without_newlines(s: Seq<char>) -> Seq<char>
    decreases s.len(),
{
    if s.len() > 0 && s.last() == '\n' {
        without_newlines(s.drop_last())
    } else {
        s
    }
}

/// Whether a patch line belongs to the hunk shown: an added, removed or
/// context line (not a note such as "no newline at end of file").
pub open spec fn shown_origin(c: char) -> bool {
    c == '+' || c == '-' || c == ' '
}

/// The diff lines of a patch's lines: the shown ones, their text without
/// the trailing newlines.
pub open spec fn hunk_lines_of(p: Seq<PatchLine>) -> Seq<(char, Seq<char>, Option<u32>)>
    decreases p.len(),
{
    if p.len() == 0 {
        Seq::empty()
    } else {
        let r = hunk_lines_of(p.drop_last());
        let l = p.last();
        if shown_origin(l.origin) {
            r.push((l.origin, without_newlines(l.content@), l.new_line_no))
        } else {
            r
        }
    }
}

/// How many of the lines have origin `c`.
pub open spec fn count_origin(p: Seq<PatchLine>, c: char) -> nat
    decreases p.len(),
{
    if p.len() == 0 {
        0
    } else {
        count_origin(p.drop_last(), c) + if p.last().origin == c {
            1nat
        } else {
            0nat
        }
    }
}

/// A hunk's lines as plain values.
pub open spec fn diff_lines_view(h: Seq<DiffLine>) -> Seq<(char, Seq<char>, Option<u32>)> {
    h.map_values(|d: DiffLine| (d.origin, d.content@, d.new_line_no))
}

fn trim_newlines(s: &str) -> (r: String)
    ensures
        r@ == without_newlines(s@),
{
    let v = chars_of(s);
    let mut n = v.len();
    proof {
        assert(v@.take(n as int) =~= v@);
    }
    while n > 0 && v[n - 1] == '\n'
        invariant
            n <= v@.len(),
            without_newlines(v@.take(n as int)) == without_newlines(s@),
            v@ == s@,
        decreases n,
    {
        proof {
            assert(v@.take(n as int).drop_last() =~= v@.take(n - 1));
        }
        n -= 1;
    }
    proof {
        assert(v@.subrange(0, n as int) =~= v@.take(n as int));
    }
    string_of(&crate::text::slice_chars(&v, 0, n))
}

/// The hunk a patch's lines make, with its counts of added and removed
/// lines (notes about the patch are counted by neither and not kept).
pub fn hunk_from_lines(lines: &Vec<PatchLine>) -> (r: (Hunk, usize, usize))
    ensures
        diff_lines_view(r.0.lines@) == hunk_lines_of(lines@),
        r.1 == count_origin(lines@, '+'),
        r.2 == count_origin(lines@, '-'),
{
    let mut out: Vec<DiffLine> = Vec::new();
    let mut adds: usize = 0;
    let mut dels: usize = 0;
    let mut k: usize = 0;
    while k < lines.len()
        invariant
            k <= lines@.len(),
            diff_lines_view(out@) == hunk_lines_of(lines@.take(k as int)),
            adds == count_origin(lines@.take(k as int), '+'),
            dels == count_origin(lines@.take(k as int), '-'),
            adds <= k,
            dels <= k,
        decreases lines.len() - k,
    {
        let l = &lines[k];
        proof {
            assert(lines@.take(k + 1).drop_last() =~= lines@.take(k as int));
            assert(lines@.take(k + 1).last() == lines@[k as int]);
        }
        if l.origin == '+' {
            adds += 1;
        } else if l.origin == '-' {
            dels += 1;
        }
        if l.origin == '+' || l.origin == '-' || l.origin == ' ' {
            let ghost before = out@;
            out.push(DiffLine { origin: l.origin, content: trim_newlines(l.content.as_str()), new_line_no: l.new_line_no });
            proof {
                assert(diff_lines_view(out@) =~= diff_lines_view(before).push(
                    (l.origin, without_newlines(l.content@), l.new_line_no),
                ));
            }
        }
        k += 1;
    }
    proof {
        assert(lines@.take(k as int) =~= lines@);
    }
    (Hunk { lines: out }, adds, dels)
}


// ---------------------------------------------------------------------------
// Unstaging undoes staging
// ---------------------------------------------------------------------------

/// A line of text with no newline in it and no carriage return at its end
/// (which reading lines would drop).
pub open spec fn clean_line(l: Seq<char>) -> bool {
    !l.contains('\n') && !(l.len() > 0 && l.last() == '\r')
}

/// Scanning a text with no carriage return gives back its lines: the text
/// is the finished lines joined, a newline, and the open line.
proof fn lemma_scan_rebuilds(s: Seq<char>)
    requires
        !s.contains('\r'),
    ensures
        ({
            let (d, o) = lines_scan(s);
            &&& s == (if d.len() == 0 { o } else { joined(d, newline()) + newline() + o })
            &&& forall|k: int| 0 <= k < d.len() ==> clean_line(#[trigger] d[k])
            &&& !o.contains('\n')
            &&& !o.contains('\r')
        }),
    decreases s.len(),
{
    if s.len() > 0 {
        let t = s.drop_last();
        assert(!t.contains('\r')) by {
            if t.contains('\r') {
                let k = choose|k: int| 0 <= k < t.len() && t[k] == '\r';
                assert(s[k] == '\r');
            }
        }
        lemma_scan_rebuilds(t);
        let (d1, o1) = lines_scan(t);
        let ch = s.last();
        assert(s == t.push(ch));
        if ch == '\n' {
            assert(strip_cr(o1) == o1) by {
                if o1.len() > 0 {
                    assert(o1.contains(o1.last()));
                }
            }
            let d = d1.push(o1);
            if d1.len() == 0 {
                assert(d =~= seq![o1]);
                assert(joined(d, newline()) == o1);
                assert(s =~= joined(d, newline()) + newline() + Seq::<char>::empty());
            } else {
                assert(d.drop_last() =~= d1);
                assert(joined(d, newline()) == joined(d1, newline()) + newline() + o1);
                assert(s =~= joined(d, newline()) + newline() + Seq::<char>::empty());
            }
            assert forall|k: int| 0 <= k < d.len() implies clean_line(#[trigger] d[k]) by {
                if k < d1.len() {
                    assert(d[k] == d1[k]);
                }
            }
        } else {
            let o = o1.push(ch);
            assert(!o.contains('\n')) by {
                if o.contains('\n') {
                    let k = choose|k: int| 0 <= k < o.len() && o[k] == '\n';
                    if k < o1.len() {
                        assert(o1[k] == '\n');
                    }
                }
            }
            assert(!o.contains('\r')) by {
                if o.contains('\r') {
                    let k = choose|k: int| 0 <= k < o.len() && o[k] == '\r';
                    if k < o1.len() {
                        assert(o1[k] == '\r');
                    } else {
                        assert(s[s.len() - 1] == '\r');
                    }
                }
            }
            if d1.len() == 0 {
                assert(s =~= o);
            } else {
                assert(s =~= joined(d1, newline()) + newline() + o);
            }
        }
    }
}

/// A text ending with a newline and with no carriage return is its lines,
/// joined, and a newline; its lines are clean.
proof fn lemma_text_is_its_lines(c: Seq<char>)
    requires
        c.len() > 0,
        c.last() == '\n',
        !c.contains('\r'),
    ensures
        lines_of(c).len() > 0,
        c == joined(lines_of(c), newline()) + newline(),
        forall|k: int| 0 <= k < lines_of(c).len() ==> clean_line(#[trigger] lines_of(c)[k]),
{
    lemma_scan_rebuilds(c);
    let (d, o) = lines_scan(c);
    let (d1, o1) = lines_scan(c.drop_last());
    assert(o.len() == 0);
    assert(d.len() == d1.len() + 1);
    assert(lines_of(c) == d);
    assert(c =~= joined(d, newline()) + newline() + o);
}

/// Scanning a clean line and a newline after a text that ended its lines.
proof fn lemma_scan_line(s: Seq<char>, l: Seq<char>, n: int)
    requires
        lines_scan(s).1.len() == 0,
        clean_line(l),
        0 <= n <= l.len(),
    ensures
        lines_scan(s + l.take(n)) == (lines_scan(s).0, l.take(n)),
    decreases n,
{
    if n == 0 {
        assert(s + l.take(0) =~= s);
        assert(l.take(0) =~= Seq::<char>::empty());
    } else {
        lemma_scan_line(s, l, n - 1);
        assert((s + l.take(n)).drop_last() =~= s + l.take(n - 1));
        assert(l.contains(l[n - 1]));
        assert(l.take(n - 1).push(l[n - 1]) =~= l.take(n));
    }
}

/// Clean lines, joined and ended by a newline, read back as
/// the same lines.
proof fn lemma_lines_of_text(ls: Seq<Seq<char>>)
    requires
        ls.len() > 0,
        forall|k: int| 0 <= k < ls.len() ==> clean_line(#[trigger] ls[k]),
    ensures
        lines_scan(joined(ls, newline()) + newline()) == (ls, Seq::<char>::empty()),
        lines_of(joined(ls, newline()) + newline()) == ls,
    decreases ls.len(),
{
    let l = ls.last();
    assert(clean_line(l));
    let s = if ls.len() == 1 {
        Seq::<char>::empty()
    } else {
        joined(ls.drop_last(), newline()) + newline()
    };
    if ls.len() == 1 {
        assert(lines_scan(s) == (Seq::<Seq<char>>::empty(), Seq::<char>::empty()));
    } else {
        assert forall|k: int| 0 <= k < ls.drop_last().len() implies clean_line(#[trigger] ls.drop_last()[k]) by {
            assert(ls.drop_last()[k] == ls[k]);
        }
        lemma_lines_of_text(ls.drop_last());
    }
    lemma_scan_line(s, l, l.len() as int);
    assert(l.take(l.len() as int) =~= l);
    let t = joined(ls, newline()) + newline();
    assert(t =~= (s + l).push('\n')) by {
        if ls.len() == 1 {
            assert(joined(ls, newline()) == l);
        } else {
            assert(joined(ls, newline()) == joined(ls.drop_last(), newline()) + newline() + l);
        }
    }
    assert(t.drop_last() =~= s + l);
    assert(strip_cr(l) == l) by {
        if l.len() > 0 {
            assert(l.contains(l.last()));
        }
    }
    if ls.len() == 1 {
        assert(Seq::<Seq<char>>::empty().push(l) =~= ls);
    } else {
        assert(ls.drop_last().push(l) =~= ls);
    }
}

/// Unstaging a hunk undoes staging it. Staging puts the hunk's new side
/// where its old side first stands; the reversed hunk then puts the old
/// side back, provided it finds the new side first at that same line. This
/// is for a text that ends with a newline and holds no carriage return,
/// for new lines with no newline and no carriage return at their end, and
/// for a staged text that keeps at least one line.
pub proof fn law_unstage_undoes_stage(c: Seq<char>, h: Seq<DiffLine>, r: Seq<DiffLine>, i: int)
    requires
        reverses(r, h),
        c.len() > 0,
        c.last() == '\n',
        !c.contains('\r'),
        forall|k: int| 0 <= k < new_side(h).len() ==> clean_line(#[trigger] new_side(h)[k]),
        first_fit(lines_of(c), old_side(h)) == Some(i),
        ({
            let lines = lines_of(c);
            let staged = lines.take(i) + new_side(h) + lines.skip(i + old_side(h).len());
            staged.len() > 0 && first_fit(staged, new_side(h)) == Some(i)
        }),
    ensures
        applied(c, h) matches Some(c2) && applied(c2, r) == Some(c),
{
    let lines = lines_of(c);
    let old = old_side(h);
    let new = new_side(h);
    lemma_text_is_its_lines(c);
    lemma_first_fit_fits(lines, old, lines.len() as int + 1);
    let staged = lines.take(i) + new + lines.skip(i + old.len());
    assert forall|k: int| 0 <= k < staged.len() implies clean_line(#[trigger] staged[k]) by {
        if k < i {
            assert(staged[k] == lines[k]);
        } else if k < i + new.len() {
            assert(staged[k] == new[k - i]);
        } else {
            assert(staged[k] == lines[k - new.len() + old.len()]);
        }
    }
    let out = joined(staged, newline());
    let c2 = out.push('\n');
    assert(applied(c, h) == Some(c2));
    assert(c2 =~= joined(staged, newline()) + newline());
    lemma_lines_of_text(staged);
    law_reversal_swaps_sides(r, h);
    assert(old_side(r) == new && new_side(r) == old);
    lemma_first_fit_fits(staged, new, staged.len() as int + 1);
    assert(staged.take(i) =~= lines.take(i));
    assert(staged.skip(i + new.len()) =~= lines.skip(i + old.len()));
    assert(lines.subrange(i, i + old.len()) == old);
    assert(lines.take(i) + old + lines.skip(i + old.len()) =~= lines);
    assert(c2.len() > 0 && c2.last() == '\n');
}

/// A pattern that stands somewhere below `n` is found below `n`.
proof fn lemma_fit_is_found(lines: Seq<Seq<char>>, pat: Seq<Seq<char>>, i: int, n: int)
    requires
        fits_at(lines, pat, i),
        i < n,
    ensures
        first_fit_upto(lines, pat, n) is Some,
    decreases n,
{
    if i < n - 1 {
        lemma_fit_is_found(lines, pat, i, n - 1);
    }
}

/// Unstaging a hunk gives back the text it was staged into. Take a text
/// that ends with a newline and holds no carriage return, and a hunk whose
/// new lines hold no newline nor end in a carriage return, and that leaves
/// the text at least one line. If staging the hunk gives `c2`, and its new lines stand at one
/// place only in `c2`, then applying the reversed hunk to `c2` gives the
/// text back.
pub proof fn law_unstage_restores_text(c: Seq<char>, h: Seq<DiffLine>, r: Seq<DiffLine>, c2: Seq<char>)
    requires
        reverses(r, h),
        c.len() > 0,
        c.last() == '\n',
        !c.contains('\r'),
        forall|k: int| 0 <= k < new_side(h).len() ==> clean_line(#[trigger] new_side(h)[k]),
        lines_of(c).len() + new_side(h).len() > old_side(h).len(),
        applied(c, h) == Some(c2),
        forall|j1: int, j2: int|
            fits_at(lines_of(c2), new_side(h), j1) && fits_at(lines_of(c2), new_side(h), j2) ==> j1 == j2,
    ensures
        applied(c2, r) == Some(c),
{
    let lines = lines_of(c);
    let old = old_side(h);
    let new = new_side(h);
    lemma_text_is_its_lines(c);
    let i = first_fit(lines, old)->0;
    lemma_first_fit_fits(lines, old, lines.len() as int + 1);
    let staged = lines.take(i) + new + lines.skip(i + old.len());
    assert forall|k: int| 0 <= k < staged.len() implies clean_line(#[trigger] staged[k]) by {
        if k < i {
            assert(staged[k] == lines[k]);
        } else if k < i + new.len() {
            assert(staged[k] == new[k - i]);
        } else {
            assert(staged[k] == lines[k - new.len() + old.len()]);
        }
    }
    assert(c2 =~= joined(staged, newline()) + newline());
    lemma_lines_of_text(staged);
    assert(lines_of(c2) == staged);
    assert(staged.subrange(i, i + new.len()) =~= new);
    assert(fits_at(staged, new, i));
    lemma_fit_is_found(staged, new, i, staged.len() as int + 1);
    lemma_first_fit_fits(staged, new, staged.len() as int + 1);
    assert(first_fit(staged, new) == Some(i));
    law_unstage_undoes_stage(c, h, r, i);
}

} // verus!
