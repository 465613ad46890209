//! The panels of the staging view. The diff panel shows the hunks of the
//! file looked at, each line with its gutter and highlighted code, the
//! first line of each hunk with what can be done to it, and a sticky header
//! while a hunk's first line is scrolled away. The file lists show each
//! file in the colour of its status, with its counts of changed lines.

use vstd::prelude::*;
use crate::highlight::{styled_line, styled_lines, SyntaxStyle};
use crate::layout::{
    cached_at, code_pieces, code_pieces_exec, diff_line_look, diff_line_style, extend_row, fg,
    line_prefix, line_prefix_exec, pieces_len, pieces_view, plain, push_span, row_view, rows_view,
    spaces, spaces_exec, Color, RowView, Span, SpanStyle,
};
use crate::repo::{DiffLine, FileStatus, Hunk, WorktreeFile};
use crate::staging::{find_file, first_with_path};
use crate::state::{CommitViewPanel, CommitViewState};
use crate::text::{chars_of, decimal, decimal_chars};

verus! {

broadcast use vstd::string::group_string_axioms;

/// A style on a background, when the line has one.
pub open spec fn with_bg(s: SpanStyle, bg: Option<Color>) -> SpanStyle {
    match bg {
        Some(c) => SpanStyle { bg: Some(c), ..s },
        None => s,
    }
}

/// A diff line as the staging view draws it: the gutter, then the code in
/// its syntax colours, or the plain text when it was not highlighted.
pub open spec fn line_body(d: DiffLine, hl: Seq<(SyntaxStyle, Seq<char>)>) -> RowView {
    let (ps, bg) = diff_line_look(d.origin);
    seq![(line_prefix(d), ps)] + if hl.len() == 0 {
        seq![(d.content@, with_bg(ps, bg))]
    } else {
        code_pieces(hl, Seq::empty(), bg)
    }
}

/// What the hunks of the panel can be given: staged, or unstaged.
pub open spec fn action_text(unstaged: bool) -> Seq<char> {
    if unstaged {
        "(s)tage"@
    } else {
        "(u)nstage"@
    }
}

/// The hunk acted on next is shown underlined in colour; the others grey.
pub open spec fn action_style(active: bool) -> SpanStyle {
    if active {
        SpanStyle { fg: Some(Color::Cyan), bg: None, bold: true, underlined: true }
    } else {
        fg(Color::DarkGray)
    }
}

pub open spec fn discard_style(active: bool) -> SpanStyle {
    if active {
        SpanStyle { fg: Some(Color::Red), bg: None, bold: true, underlined: true }
    } else {
        fg(Color::DarkGray)
    }
}

/// The labels at the right of a hunk's first line.
pub open spec fn label_tail(unstaged: bool, discard: bool, active: bool) -> RowView {
    seq![(action_text(unstaged), action_style(active))] + if discard {
        seq![("  "@, plain()), ("(d)iscard"@, discard_style(active))]
    } else {
        Seq::empty()
    }
}

/// How many columns the labels take.
pub open spec fn labels_len(unstaged: bool, discard: bool) -> int {
    action_text(unstaged).len() + if discard {
        11int
    } else {
        0int
    }
}

/// A row of the panel: a diff line, and on the first line of a hunk the
/// labels pushed to the right edge of `width` columns.
pub open spec fn line_row(
    d: DiffLine,
    hl: Seq<(SyntaxStyle, Seq<char>)>,
    first: bool,
    active: bool,
    unstaged: bool,
    discard: bool,
    width: int,
) -> RowView {
    let body = line_body(d, hl);
    if first {
        let used = pieces_len(body, body.len() as int) + labels_len(unstaged, discard) + 1;
        let pad = if width > used {
            width - used
        } else {
            0
        };
        body + seq![(spaces(pad as nat), plain())] + label_tail(unstaged, discard, active)
    } else {
        body
    }
}

fn push_str(row: &mut Vec<Span>, text: &str, style: SpanStyle)
    ensures
        row_view(*final(row)) == row_view(*old(row)).push((text@, style)),
{
    push_span(row, &chars_of(text), style);
}

/// The number of characters of a row, counted up to `usize::MAX`.
fn row_len(row: &Vec<Span>) -> (r: usize)
    ensures
        r as int == crate::details::saturated(pieces_len(row_view(*row), row@.len() as int)),
{
    let ghost rv = row_view(*row);
    let mut r: usize = 0;
    let mut k: usize = 0;
    while k < row.len()
        invariant
            k <= row@.len(),
            rv == row_view(*row),
            rv.len() == row@.len(),
            r as int == crate::details::saturated(pieces_len(rv, k as int)),
            forall|j: int| 0 <= j <= k ==> pieces_len(rv, j) >= 0,
        decreases row.len() - k,
    {
        let n = chars_of(row[k].text.as_str()).len();
        proof {
            assert(rv[k as int] == (row@[k as int].text@, row@[k as int].style));
            assert(pieces_len(rv, k + 1) == pieces_len(rv, k as int) + rv[k as int].0.len());
        }
        r = r.saturating_add(n);
        k += 1;
    }
    r
}

fn body_exec(d: &DiffLine, hl: &Vec<(SyntaxStyle, String)>) -> (r: Vec<Span>)
    ensures
        row_view(r) == line_body(*d, styled_line(*hl)),
{
    let (ps, bg) = diff_line_style(d.origin);
    let mut row: Vec<Span> = Vec::new();
    push_span(&mut row, &line_prefix_exec(d), ps);
    let ghost first = row_view(row);
    if hl.len() == 0 {
        let style = match bg {
            Some(c) => SpanStyle { bg: Some(c), ..ps },
            None => ps,
        };
        push_span(&mut row, &chars_of(d.content.as_str()), style);
        proof {
            assert(row_view(row) =~= line_body(*d, styled_line(*hl)));
        }
    } else {
        let pieces = code_pieces_exec(hl, "", bg);
        let ghost pv = pieces_view(pieces@);
        let mut k: usize = 0;
        while k < pieces.len()
            invariant
                k <= pieces@.len(),
                pv == pieces_view(pieces@),
                row_view(row) == first + pv.take(k as int),
            decreases pieces.len() - k,
        {
            push_span(&mut row, &pieces[k].0, pieces[k].1);
            proof {
                assert(pv.take(k + 1) =~= pv.take(k as int).push(pv[k as int]));
            }
            k += 1;
        }
        proof {
            reveal_strlit("");
            assert(""@ =~= Seq::<char>::empty());
            assert(pv.take(k as int) =~= pv);
            assert(row_view(row) =~= line_body(*d, styled_line(*hl)));
        }
    }
    row
}

fn push_label_tail(row: &mut Vec<Span>, unstaged: bool, discard: bool, active: bool)
    ensures
        row_view(*final(row)) == row_view(*old(row)) + label_tail(unstaged, discard, active),
{
    let ghost start = row_view(*row);
    let on = if unstaged { "(s)tage" } else { "(u)nstage" };
    let action_style = if active {
        SpanStyle { fg: Some(Color::Cyan), bg: None, bold: true, underlined: true }
    } else {
        SpanStyle { fg: Some(Color::DarkGray), bg: None, bold: false, underlined: false }
    };
    push_str(row, on, action_style);
    if discard {
        push_str(row, "  ", SpanStyle { fg: None, bg: None, bold: false, underlined: false });
        let discard_style = if active {
            SpanStyle { fg: Some(Color::Red), bg: None, bold: true, underlined: true }
        } else {
            SpanStyle { fg: Some(Color::DarkGray), bg: None, bold: false, underlined: false }
        };
        push_str(row, "(d)iscard", discard_style);
    }
    proof {
        assert(row_view(*row) =~= start + label_tail(unstaged, discard, active));
    }
}

/// One row of the panel.
pub fn line_row_exec(
    d: &DiffLine,
    hl: &Vec<(SyntaxStyle, String)>,
    first: bool,
    active: bool,
    unstaged: bool,
    discard: bool,
    width: usize,
) -> (r: Vec<Span>)
    ensures
        row_view(r) == line_row(*d, styled_line(*hl), first, active, unstaged, discard, width as int),
{
    let mut row = body_exec(d, hl);
    if !first {
        return row;
    }
    let ghost body = row_view(row);
    let used_body = row_len(&row);
    let labels: usize = if unstaged { 7 } else { 9 };
    let labels: usize = if discard { labels + 11 } else { labels };
    proof {
        reveal_strlit("(s)tage");
        reveal_strlit("(u)nstage");
        assert(labels as int == labels_len(unstaged, discard));
        assert(pieces_len(body, body.len() as int) >= 0) by {
            lemma_pieces_len_nonneg(body, body.len() as int);
        }
    }
    let used = used_body.saturating_add(labels).saturating_add(1);
    let pad: usize = if width > used { width - used } else { 0 };
    push_span(&mut row, &spaces_exec(pad), SpanStyle { fg: None, bg: None, bold: false, underlined: false });
    let ghost after_pad = row_view(row);
    push_label_tail(&mut row, unstaged, discard, active);
    proof {
        let total = pieces_len(body, body.len() as int) + labels_len(unstaged, discard) + 1;
        assert(pad as int == (if width > total { width - total } else { 0 }));
        assert(row_view(row) =~= line_row(*d, styled_line(*hl), first, active, unstaged, discard, width as int));
    }
    row
}

proof fn lemma_pieces_len_nonneg(p: RowView, n: int)
    ensures
        pieces_len(p, n) >= 0,
    decreases n,
{
    if n > 0 {
        lemma_pieces_len_nonneg(p, n - 1);
    }
}

/// How many code lines the hunks before the `k`-th have: where the
/// highlighting of the `k`-th hunk starts.
pub open spec fn code_base(hs: Seq<Hunk>, k: int) -> int
    decreases k,
{
    if k <= 0 {
        0
    } else {
        code_base(hs, k - 1) + hs[k - 1].lines@.len()
    }
}

/// The rows of one hunk, its lines highlighted from `base` on.
pub open spec fn hunk_rows(
    h: Hunk,
    cached: Seq<Seq<(SyntaxStyle, Seq<char>)>>,
    base: int,
    active: bool,
    unstaged: bool,
    discard: bool,
    width: int,
) -> Seq<RowView> {
    Seq::new(
        h.lines@.len(),
        |j: int| line_row(h.lines@[j], cached_at(cached, base + j), j == 0, active, unstaged, discard, width),
    )
}

/// The rows of the first `n` hunks, a blank row between two hunks; the
/// `current` one is the hunk acted on.
pub open spec fn all_rows(
    hs: Seq<Hunk>,
    cached: Seq<Seq<(SyntaxStyle, Seq<char>)>>,
    current: int,
    unstaged: bool,
    discard: bool,
    width: int,
    n: int,
) -> Seq<RowView>
    decreases n,
{
    if n <= 0 {
        Seq::empty()
    } else {
        all_rows(hs, cached, current, unstaged, discard, width, n - 1) + (if n > 1 {
            seq![Seq::<(Seq<char>, SpanStyle)>::empty()]
        } else {
            Seq::empty()
        }) + hunk_rows(hs[n - 1], cached, code_base(hs, n - 1), n - 1 == current, unstaged, discard, width)
    }
}

/// The row where the `k`-th hunk starts.
pub open spec fn row_start(hs: Seq<Hunk>, k: int) -> int
    decreases k,
{
    if k <= 0 {
        0
    } else {
        row_start(hs, k - 1) + hs[k - 1].lines@.len() + 1
    }
}

/// The last hunk from the `k`-th on that starts at or above row `scroll`
/// (the hunk the scroll position is in).
pub open spec fn current_from(hs: Seq<Hunk>, scroll: int, k: int) -> int
    decreases hs.len() - k,
{
    if k + 1 < hs.len() && row_start(hs, k + 1) <= scroll {
        current_from(hs, scroll, k + 1)
    } else {
        k
    }
}

/// `count` items of `s` from `from` on, as many as there are.
pub open spec fn window<A>(s: Seq<A>, from: int, count: int) -> Seq<A> {
    let a = if from < s.len() { from } else { s.len() as int };
    let b = if a + count < s.len() { a + count } else { s.len() as int };
    s.subrange(a, b)
}

/// The header kept at the top while the current hunk's first line is
/// scrolled away: its labels at the right edge.
pub open spec fn sticky_row(unstaged: bool, discard: bool, width: int) -> RowView {
    let total = labels_len(unstaged, discard);
    let pad = if width > total {
        width - total
    } else {
        0
    };
    seq![(spaces(pad as nat), plain())] + label_tail(unstaged, discard, true)
}

/// The rows the panel shows of non-empty hunks, scrolled to `scroll`, in
/// `height` rows of `width` columns.
pub open spec fn visible_rows(
    hs: Seq<Hunk>,
    cached: Seq<Seq<(SyntaxStyle, Seq<char>)>>,
    unstaged: bool,
    discard: bool,
    scroll: int,
    width: int,
    height: int,
) -> Seq<RowView> {
    let cur = current_from(hs, scroll, 0);
    let all = all_rows(hs, cached, cur, unstaged, discard, width, hs.len() as int);
    if scroll > row_start(hs, cur) {
        let start = if cur + 1 < hs.len() && scroll + 1 > row_start(hs, cur + 1) {
            row_start(hs, cur + 1)
        } else {
            scroll + 1
        };
        seq![sticky_row(unstaged, discard, width)] + window(all, start, if height >= 1 { height - 1 } else { 0 })
    } else {
        window(all, scroll, height)
    }
}

/// The hunk the scroll position is in, and the row it starts at.
pub(crate) fn current_hunk(hs: &Vec<Hunk>, scroll: usize) -> (r: (usize, usize))
    requires
        hs@.len() > 0,
    ensures
        r.0 as int == current_from(hs@, scroll as int, 0),
        r.1 as int == row_start(hs@, r.0 as int),
        r.0 < hs@.len(),
        r.1 <= scroll,
        r.0 + 1 < hs@.len() ==> row_start(hs@, r.0 + 1) > scroll,
{
    let mut k: usize = 0;
    let mut start: usize = 0;
    while k < hs.len() - 1 && hs[k].lines.len() < scroll - start
        invariant
            hs@.len() > 0,
            k < hs@.len(),
            start as int == row_start(hs@, k as int),
            start <= scroll,
            current_from(hs@, scroll as int, k as int) == current_from(hs@, scroll as int, 0),
        decreases hs.len() - k,
    {
        start = start + hs[k].lines.len() + 1;
        k += 1;
    }
    (k, start)
}

/// The rows of `v` in a window of `count` from `from` on.
fn take_window(v: Vec<Vec<Span>>, from: usize, count: usize) -> (r: Vec<Vec<Span>>)
    ensures
        rows_view(r@) == window(rows_view(v@), from as int, count as int),
{
    let ghost orig = v@;
    let mut v = v;
    let a = if from < v.len() { from } else { v.len() };
    let mut tail = v.split_off(a);
    let ghost t0 = tail@;
    tail.truncate(count);
    proof {
        assert(t0 == orig.subrange(a as int, orig.len() as int));
        let b = if a + count < orig.len() { a + count } else { orig.len() as int };
        assert(tail@ =~= orig.subrange(a as int, b));
        assert(rows_view(tail@) =~= window(rows_view(orig), from as int, count as int));
    }
    tail
}

proof fn lemma_code_base_nonneg(hs: Seq<Hunk>, k: int)
    ensures
        code_base(hs, k) >= 0,
    decreases k,
{
    if k > 0 {
        lemma_code_base_nonneg(hs, k - 1);
    }
}

/// The rows of all the hunks.
fn all_rows_exec(
    hs: &Vec<Hunk>,
    cached: &Vec<Vec<(SyntaxStyle, String)>>,
    current: usize,
    unstaged: bool,
    discard: bool,
    width: usize,
) -> (r: Vec<Vec<Span>>)
    ensures
        rows_view(r@) == all_rows(hs@, styled_lines(cached@), current as int, unstaged, discard, width as int, hs@.len() as int),
{
    let ghost cv = styled_lines(cached@);
    let none: Vec<(SyntaxStyle, String)> = Vec::new();
    let mut out: Vec<Vec<Span>> = Vec::new();
    let clen = cached.len();
    let mut base: usize = 0;
    let mut k: usize = 0;
    while k < hs.len()
        invariant
            clen == cached@.len(),
            k <= hs@.len(),
            cv == styled_lines(cached@),
            none@.len() == 0,
            base as int == crate::details::saturated(code_base(hs@, k as int)),
            rows_view(out@) == all_rows(hs@, cv, current as int, unstaged, discard, width as int, k as int),
        decreases hs.len() - k,
    {
        let ghost prev = rows_view(out@);
        if k > 0 {
            let e: Vec<Span> = Vec::new();
            let ghost ev = row_view(e);
            let ghost b = out@;
            out.push(e);
            proof {
                assert(ev =~= Seq::<(Seq<char>, SpanStyle)>::empty());
                assert(rows_view(out@) =~= rows_view(b).push(ev));
            }
        }
        let ghost sep = if k + 1 > 1 {
            seq![Seq::<(Seq<char>, SpanStyle)>::empty()]
        } else {
            Seq::<RowView>::empty()
        };
        proof {
            assert(rows_view(out@) =~= prev + sep);
        }
        let ghost hr = hunk_rows(hs@[k as int], cv, code_base(hs@, k as int), k == current, unstaged, discard, width as int);
        let lines = &hs[k].lines;
        let mut j: usize = 0;
        while j < lines.len()
            invariant
                clen == cached@.len(),
                j <= lines@.len(),
                lines == hs@[k as int].lines,
                k < hs@.len(),
                cv == styled_lines(cached@),
                none@.len() == 0,
                base as int == crate::details::saturated(code_base(hs@, k as int)),
                hr == hunk_rows(hs@[k as int], cv, code_base(hs@, k as int), k == current, unstaged, discard, width as int),
                hr.len() == lines@.len(),
                rows_view(out@) == prev + sep + hr.take(j as int),
            decreases lines.len() - j,
        {
            let idx = base.saturating_add(j);
            proof {
                lemma_code_base_nonneg(hs@, k as int);
                let t = code_base(hs@, k as int) + j;
                assert(cv.len() == cached@.len());
                assert(cached_at(cv, idx as int) == cached_at(cv, t)) by {
                    if t > usize::MAX {
                        assert(idx == usize::MAX);
                    } else {
                        assert(idx as int == t);
                    }
                }
            }
            let hl = crate::layout::cached_line(cached, idx, &none);
            let row = line_row_exec(&lines[j], hl, j == 0, k == current, unstaged, discard, width);
            let ghost before = out@;
            out.push(row);
            proof {
                assert(rows_view(out@) =~= rows_view(before).push(row_view(row)));
                assert(hr[j as int] == row_view(row));
                assert(hr.take(j + 1) =~= hr.take(j as int).push(hr[j as int]));
            }
            j += 1;
        }
        proof {
            assert(hr.take(j as int) =~= hr);
            assert(all_rows(hs@, cv, current as int, unstaged, discard, width as int, k + 1) == prev + sep + hr);
            lemma_code_base_nonneg(hs@, k as int);
        }
        base = base.saturating_add(lines.len());
        k += 1;
    }
    out
}

fn sticky_row_exec(unstaged: bool, discard: bool, width: usize) -> (r: Vec<Span>)
    ensures
        row_view(r) == sticky_row(unstaged, discard, width as int),
{
    let labels: usize = if unstaged { 7 } else { 9 };
    let labels: usize = if discard { labels + 11 } else { labels };
    proof {
        reveal_strlit("(s)tage");
        reveal_strlit("(u)nstage");
        assert(labels as int == labels_len(unstaged, discard));
    }
    let pad = width.saturating_sub(labels);
    let mut row: Vec<Span> = Vec::new();
    push_span(&mut row, &spaces_exec(pad), SpanStyle { fg: None, bg: None, bold: false, underlined: false });
    let ghost first = row_view(row);
    push_label_tail(&mut row, unstaged, discard, true);
    proof {
        assert(first =~= seq![(spaces(pad as nat), plain())]);
        assert(row_view(row) =~= sticky_row(unstaged, discard, width as int));
    }
    row
}

/// The rows the panel shows of non-empty hunks.
pub fn visible_rows_exec(
    hs: &Vec<Hunk>,
    cached: &Vec<Vec<(SyntaxStyle, String)>>,
    unstaged: bool,
    discard: bool,
    scroll: usize,
    width: usize,
    height: usize,
) -> (r: Vec<Vec<Span>>)
    requires
        hs@.len() > 0,
    ensures
        rows_view(r@) == visible_rows(
            hs@,
            styled_lines(cached@),
            unstaged,
            discard,
            scroll as int,
            width as int,
            height as int,
        ),
{
    let (cur, start) = current_hunk(hs, scroll);
    let all = all_rows_exec(hs, cached, cur, unstaged, discard, width);
    let ghost av = rows_view(all@);
    let alen = all.len();
    if scroll > start {
        let from = scroll.saturating_add(1);
        let count = height.saturating_sub(1);
        let shown = take_window(all, from, count);
        proof {
            assert(av.len() == alen);
            assert(window(av, from as int, count as int) =~= window(av, scroll + 1, count as int));
        }
        let mut out: Vec<Vec<Span>> = Vec::new();
        let sticky = sticky_row_exec(unstaged, discard, width);
        crate::layout::push_row(&mut out, sticky);
        crate::layout::append_rows(&mut out, shown);
        proof {
            assert(rows_view(out@) =~= visible_rows(
                hs@,
                styled_lines(cached@),
                unstaged,
                discard,
                scroll as int,
                width as int,
                height as int,
            ));
        }
        out
    } else {
        take_window(all, scroll, height)
    }
}

/// The file whose diff the panel shows, and whether its unstaged hunks are
/// shown: the file looked at, found first in the active panel's list.
pub open spec fn shown_file(cv: CommitViewState) -> Option<(WorktreeFile, bool)> {
    match cv.viewing_file {
        None => None,
        Some(p) => {
            let (first, first_unstaged) = match cv.active_panel {
                CommitViewPanel::UnstagedFiles => (cv.unstaged_files@, true),
                CommitViewPanel::StagedFiles => (cv.staged_files@, false),
            };
            let second = if first_unstaged { cv.staged_files@ } else { cv.unstaged_files@ };
            match first_with_path(first, p@, 0) {
                Some(k) => Some((first[k], first_unstaged)),
                None => match first_with_path(second, p@, 0) {
                    Some(k) => Some((second[k], !first_unstaged)),
                    None => None,
                },
            }
        },
    }
}

/// The highlighted lines kept for the file looked at (none when they are
/// for another file).
pub open spec fn panel_cache(cv: CommitViewState, unstaged: bool) -> Seq<Seq<(SyntaxStyle, Seq<char>)>> {
    match cv.staging_highlight {
        Some(h) => if cv.viewing_file matches Some(p) && p@ == h.file_path@ {
            styled_lines(if unstaged { h.unstaged.lines@ } else { h.staged.lines@ })
        } else {
            Seq::empty()
        },
        None => Seq::empty(),
    }
}

/// What the diff panel shows in `height` rows of `width` columns: a hint
/// when no file is looked at, a note when it has no hunks on its side,
/// else its hunks.
pub open spec fn diff_panel_rows(cv: CommitViewState, width: int, height: int) -> Seq<RowView> {
    match shown_file(cv) {
        None => seq![seq![("Select a file from the lists below to view its diff"@, fg(Color::DarkGray))]],
        Some((f, unstaged)) => {
            let hs = if unstaged { f.unstaged_hunks@ } else { f.staged_hunks@ };
            if hs.len() == 0 {
                seq![seq![(if unstaged { "No unstaged changes"@ } else { "No staged changes"@ }, fg(Color::DarkGray))]]
            } else {
                visible_rows(
                    hs,
                    panel_cache(cv, unstaged),
                    unstaged,
                    unstaged && f.status != FileStatus::Untracked,
                    cv.diff_scroll as int,
                    width,
                    height,
                )
            }
        },
    }
}

fn note_rows(text: &str) -> (r: Vec<Vec<Span>>)
    ensures
        rows_view(r@) == seq![seq![(text@, fg(Color::DarkGray))]],
{
    let mut row: Vec<Span> = Vec::new();
    push_str(&mut row, text, SpanStyle { fg: Some(Color::DarkGray), bg: None, bold: false, underlined: false });
    let ghost rv = row_view(row);
    proof {
        assert(rv =~= seq![(text@, fg(Color::DarkGray))]);
    }
    let mut rows: Vec<Vec<Span>> = Vec::new();
    proof {
        assert(rows_view(rows@) =~= Seq::<RowView>::empty());
    }
    crate::layout::push_row(&mut rows, row);
    proof {
        assert(rows_view(rows@) =~= seq![rv]);
    }
    rows
}

/// The rows of the diff panel of the staging view.
pub fn diff_panel(cv: &CommitViewState, width: usize, height: usize) -> (r: Vec<Vec<Span>>)
    ensures
        rows_view(r@) == diff_panel_rows(*cv, width as int, height as int),
{
    let path = match &cv.viewing_file {
        Some(p) => p,
        None => {
            return note_rows("Select a file from the lists below to view its diff");
        },
    };
    let first_unstaged = match cv.active_panel {
        CommitViewPanel::UnstagedFiles => true,
        CommitViewPanel::StagedFiles => false,
    };
    let (first, second) = if first_unstaged {
        (&cv.unstaged_files, &cv.staged_files)
    } else {
        (&cv.staged_files, &cv.unstaged_files)
    };
    let (file, unstaged) = match find_file(first, path) {
        Some(k) => (&first[k], first_unstaged),
        None => match find_file(second, path) {
            Some(k) => (&second[k], !first_unstaged),
            None => {
                return note_rows("Select a file from the lists below to view its diff");
            },
        },
    };
    let hunks = if unstaged { &file.unstaged_hunks } else { &file.staged_hunks };
    if hunks.len() == 0 {
        return if unstaged {
            note_rows("No unstaged changes")
        } else {
            note_rows("No staged changes")
        };
    }
    let none: Vec<Vec<(SyntaxStyle, String)>> = Vec::new();
    let cached = match &cv.staging_highlight {
        Some(h) => if crate::text::same_chars(&chars_of(path.as_str()), &chars_of(h.file_path.as_str())) {
            if unstaged { &h.unstaged.lines } else { &h.staged.lines }
        } else {
            &none
        },
        None => &none,
    };
    proof {
        assert(styled_lines(none@) =~= Seq::<Seq<(SyntaxStyle, Seq<char>)>>::empty());
    }
    let untracked = match file.status {
        FileStatus::Untracked => true,
        _ => false,
    };
    visible_rows_exec(hunks, cached, unstaged, unstaged && !untracked, cv.diff_scroll, width, height)
}

/// The hunk whose labels are lit is the one the scroll position is in: it
/// starts at or above the scroll row, and the next hunk starts below it.
pub proof fn law_current_hunk_holds_scroll(hs: Seq<Hunk>, scroll: int)
    requires
        hs.len() > 0,
        scroll >= 0,
    ensures
        0 <= current_from(hs, scroll, 0) < hs.len(),
        row_start(hs, current_from(hs, scroll, 0)) <= scroll,
        current_from(hs, scroll, 0) + 1 < hs.len() ==> row_start(hs, current_from(hs, scroll, 0) + 1)
            > scroll,
{
    lemma_current_from(hs, scroll, 0);
}

proof fn lemma_current_from(hs: Seq<Hunk>, scroll: int, k: int)
    requires
        0 <= k < hs.len(),
        row_start(hs, k) <= scroll,
    ensures
        k <= current_from(hs, scroll, k) < hs.len(),
        row_start(hs, current_from(hs, scroll, k)) <= scroll,
        current_from(hs, scroll, k) + 1 < hs.len() ==> row_start(hs, current_from(hs, scroll, k) + 1)
            > scroll,
    decreases hs.len() - k,
{
    if k + 1 < hs.len() && row_start(hs, k + 1) <= scroll {
        lemma_current_from(hs, scroll, k + 1);
    }
}

/// The colour a file's path is drawn in, by its status.
pub open spec fn status_color(s: FileStatus) -> Color {
    match s {
        FileStatus::Added => Color::Green,
        FileStatus::Modified => Color::Yellow,
        FileStatus::Deleted => Color::Red,
        _ => Color::White,
    }
}

/// A row of a file list: the path (on a dark background when it is the
/// selected file of the focused list), and the counts of added and removed
/// lines.
pub open spec fn file_row(f: WorktreeFile, selected: bool, focused: bool) -> (RowView, RowView) {
    let c = status_color(f.status);
    let path_style = if selected && focused {
        SpanStyle { fg: Some(c), bg: Some(Color::DarkGray), bold: false, underlined: false }
    } else {
        fg(c)
    };
    (
        seq![(f.path@, path_style)],
        seq![
            ("+"@ + decimal(f.additions as nat), fg(Color::Green)),
            (" "@, plain()),
            ("-"@ + decimal(f.deletions as nat), fg(Color::Red)),
        ],
    )
}

/// The rows a file list shows: `visible` files from `scroll` on.
pub open spec fn file_list_rows(
    files: Seq<WorktreeFile>,
    selected: int,
    scroll: int,
    focused: bool,
    visible: int,
) -> Seq<(RowView, RowView)> {
    let a = if scroll < files.len() { scroll } else { files.len() as int };
    let b = if a + visible < files.len() { a + visible } else { files.len() as int };
    Seq::new((b - a) as nat, |j: int| file_row(files[a + j], a + j == selected, focused))
}

/// The view of a file list's rows.
pub open spec fn cells_view(r: Seq<(Vec<Span>, Vec<Span>)>) -> Seq<(RowView, RowView)> {
    r.map_values(|c: (Vec<Span>, Vec<Span>)| (row_view(c.0), row_view(c.1)))
}

fn status_color_exec(s: FileStatus) -> (r: Color)
    ensures
        r == status_color(s),
{
    match s {
        FileStatus::Added => Color::Green,
        FileStatus::Modified => Color::Yellow,
        FileStatus::Deleted => Color::Red,
        _ => Color::White,
    }
}

fn count_text(sign: char, n: usize) -> (r: Vec<char>)
    ensures
        r@ == seq![sign] + decimal(n as nat),
{
    let mut v: Vec<char> = Vec::new();
    v.push(sign);
    let digits = decimal_chars(n as u64);
    crate::text::extend_chars(&mut v, &digits);
    proof {
        assert(v@ =~= seq![sign] + decimal(n as nat));
    }
    v
}

fn file_row_exec(f: &WorktreeFile, selected: bool, focused: bool) -> (r: (Vec<Span>, Vec<Span>))
    ensures
        (row_view(r.0), row_view(r.1)) == file_row(*f, selected, focused),
{
    let c = status_color_exec(f.status);
    let path_style = if selected && focused {
        SpanStyle { fg: Some(c), bg: Some(Color::DarkGray), bold: false, underlined: false }
    } else {
        SpanStyle { fg: Some(c), bg: None, bold: false, underlined: false }
    };
    let mut path: Vec<Span> = Vec::new();
    push_span(&mut path, &chars_of(f.path.as_str()), path_style);
    let mut stats: Vec<Span> = Vec::new();
    push_span(&mut stats, &count_text('+', f.additions), SpanStyle { fg: Some(Color::Green), bg: None, bold: false, underlined: false });
    push_str(&mut stats, " ", SpanStyle { fg: None, bg: None, bold: false, underlined: false });
    push_span(&mut stats, &count_text('-', f.deletions), SpanStyle { fg: Some(Color::Red), bg: None, bold: false, underlined: false });
    proof {
        reveal_strlit("+");
        reveal_strlit("-");
        assert("+"@ =~= seq!['+']);
        assert("-"@ =~= seq!['-']);
        assert(row_view(path) =~= file_row(*f, selected, focused).0);
        assert(row_view(stats) =~= file_row(*f, selected, focused).1);
    }
    (path, stats)
}

/// The rows of a file list, scrolled to `scroll`, `visible` rows high.
pub fn file_list(
    files: &Vec<WorktreeFile>,
    selected: usize,
    scroll: usize,
    focused: bool,
    visible: usize,
) -> (r: Vec<(Vec<Span>, Vec<Span>)>)
    ensures
        cells_view(r@) == file_list_rows(files@, selected as int, scroll as int, focused, visible as int),
{
    let a = if scroll < files.len() { scroll } else { files.len() };
    let b = if visible < files.len() - a { a + visible } else { files.len() };
    let ghost goal = file_list_rows(files@, selected as int, scroll as int, focused, visible as int);
    let mut out: Vec<(Vec<Span>, Vec<Span>)> = Vec::new();
    let mut k = a;
    while k < b
        invariant
            a <= k <= b,
            b <= files@.len(),
            goal == file_list_rows(files@, selected as int, scroll as int, focused, visible as int),
            goal.len() == b - a,
            forall|j: int| 0 <= j < goal.len() ==> #[trigger] goal[j] == file_row(files@[a + j], a + j == selected, focused),
            cells_view(out@) == goal.take(k - a),
        decreases b - k,
    {
        let row = file_row_exec(&files[k], k == selected, focused);
        let ghost before = out@;
        out.push(row);
        proof {
            assert(cells_view(out@) =~= cells_view(before).push((row_view(row.0), row_view(row.1))));
            assert(goal.take(k + 1 - a) =~= goal.take(k - a).push(goal[k - a]));
        }
        k += 1;
    }
    proof {
        assert(goal.take(b - a) =~= goal);
    }
    out
}

} // verus!
