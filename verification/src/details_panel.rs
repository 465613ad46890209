//! What the details panel shows of its rows: the rows from the scroll
//! position on, a sticky header naming the file whose diff is under it,
//! and the selected search match painted apart from the others.

use vstd::prelude::*;
use crate::layout::{
    extend_row, highlight_matches, highlight_spans, law_highlight_keeps_text, lemma_row_text_concat,
    push_row, row_text, row_view, rows_view, sections_view, Color, FileSection, RowView, Span,
    SpanStyle,
};
use crate::text::{chars_of, mixed_case};
use crate::viewport::FILE_HEADER_HEIGHT;

verus! {

broadcast use vstd::string::group_string_axioms;

/// The selected match is painted on teal.
pub open spec fn selected_match() -> SpanStyle {
    SpanStyle { fg: Some(Color::Black), bg: Some(Color::Cyan), bold: false, underlined: false }
}

/// The sticky header: the file's name, bold white on grey.
pub open spec fn sticky_header_style() -> SpanStyle {
    SpanStyle { fg: Some(Color::White), bg: Some(Color::DarkGray), bold: true, underlined: false }
}

/// The last of the first `n` sections whose header is at or above row
/// `scroll`.
pub open spec fn section_at(s: Seq<(int, Seq<char>)>, scroll: int, n: int) -> Option<int>
    decreases n,
{
    if n <= 0 {
        None
    } else if scroll >= s[n - 1].0 {
        Some(n - 1)
    } else {
        section_at(s, scroll, n - 1)
    }
}

/// How many rows the sticky header takes: one while a file's header is
/// scrolled past, none as the next header reaches the top.
pub open spec fn sticky_height(s: Seq<(int, Seq<char>)>, scroll: int) -> int {
    match section_at(s, scroll, s.len() as int) {
        Some(i) => if i + 1 < s.len() {
            let space = if s[i + 1].0 > scroll { s[i + 1].0 - scroll } else { 0 };
            if space < FILE_HEADER_HEIGHT { space } else { FILE_HEADER_HEIGHT as int }
        } else {
            FILE_HEADER_HEIGHT as int
        },
        None => 0,
    }
}

/// A row with the search matches in it painted as the selected match,
/// the rest of each piece keeping its style.
pub open spec fn rehighlighted(row: RowView, term: Seq<char>) -> RowView
    decreases row.len(),
{
    if row.len() == 0 {
        Seq::empty()
    } else {
        rehighlighted(row.drop_last(), term) + highlight_spans(row.last().0, term, row.last().1, selected_match())
    }
}

/// Row `idx` as shown: repainted when it holds the selected match.
pub open spec fn shown_row(row: RowView, idx: int, selected: Option<usize>, term: Seq<char>) -> RowView {
    if selected == Some(idx as usize) && 0 <= idx <= usize::MAX && term.len() > 0 {
        rehighlighted(row, term)
    } else {
        row
    }
}

/// `count` rows from `from` on (as many as there are), each as shown.
pub open spec fn shown_window(rows: Seq<RowView>, from: int, count: int, selected: Option<usize>, term: Seq<char>) -> Seq<
    RowView,
> {
    let a = if from < rows.len() { from } else { rows.len() as int };
    let b = if a + count < rows.len() { a + count } else { rows.len() as int };
    Seq::new((b - a) as nat, |j: int| shown_row(rows[a + j], a + j, selected, term))
}

/// What the details panel shows in `height` rows, scrolled to `scroll`.
pub open spec fn panel_rows(
    rows: Seq<RowView>,
    s: Seq<(int, Seq<char>)>,
    scroll: int,
    height: int,
    selected: Option<usize>,
    term: Seq<char>,
) -> Seq<RowView> {
    let sh = sticky_height(s, scroll);
    if sh > 0 {
        let i = section_at(s, scroll, s.len() as int)->0;
        let start = if i + 1 < s.len() && scroll + FILE_HEADER_HEIGHT > s[i + 1].0 {
            s[i + 1].0
        } else {
            scroll + FILE_HEADER_HEIGHT
        };
        seq![seq![(s[i].1, sticky_header_style())]] + shown_window(
            rows,
            start,
            if height >= sh { height - sh } else { 0 },
            selected,
            term,
        )
    } else {
        shown_window(rows, scroll, height, selected, term)
    }
}

fn rehighlight_exec(row: Vec<Span>, term: &str) -> (r: Vec<Span>)
    ensures
        row_view(r) == rehighlighted(row_view(row), term@),
{
    let ghost rv = row_view(row);
    let sel = SpanStyle { fg: Some(Color::Black), bg: Some(Color::Cyan), bold: false, underlined: false };
    let mut out: Vec<Span> = Vec::new();
    let mut k: usize = 0;
    while k < row.len()
        invariant
            k <= row@.len(),
            rv == row_view(row),
            rv.len() == row@.len(),
            sel == selected_match(),
            row_view(out) == rehighlighted(rv.take(k as int), term@),
        decreases row.len() - k,
    {
        let piece = highlight_matches(row[k].text.as_str(), term, row[k].style, sel);
        let ghost before = row_view(out);
        extend_row(&mut out, piece);
        proof {
            assert(rv.take(k + 1).drop_last() =~= rv.take(k as int));
            assert(rv[k as int] == (row@[k as int].text@, row@[k as int].style));
        }
        k += 1;
    }
    proof {
        assert(rv.take(k as int) =~= rv);
    }
    out
}

fn section_at_exec(s: &Vec<FileSection>, scroll: usize) -> (r: Option<usize>)
    ensures
        match r {
            Some(i) => section_at(sections_view(s@), scroll as int, s@.len() as int) == Some(i as int) && i < s@.len(),
            None => section_at(sections_view(s@), scroll as int, s@.len() as int) is None,
        },
{
    let ghost sv = sections_view(s@);
    let mut n = s.len();
    while n > 0
        invariant
            n <= s@.len(),
            sv == sections_view(s@),
            section_at(sv, scroll as int, n as int) == section_at(sv, scroll as int, s@.len() as int),
        decreases n,
    {
        if scroll >= s[n - 1].header_line_idx {
            return Some(n - 1);
        }
        n -= 1;
    }
    None
}

/// The rows of a window, moved out of `rows`, each as shown.
fn shown_window_exec(
    rows: Vec<Vec<Span>>,
    from: usize,
    count: usize,
    selected: Option<usize>,
    term: &str,
) -> (r: Vec<Vec<Span>>)
    ensures
        rows_view(r@) == shown_window(rows_view(rows@), from as int, count as int, selected, term@),
{
    let ghost rv = rows_view(rows@);
    let nonempty = chars_of(term).len() > 0;
    let a = if from < rows.len() { from } else { rows.len() };
    let b = if count < rows.len() - a { a + count } else { rows.len() };
    let mut rows = rows;
    let mut tail = rows.split_off(a);
    tail.truncate(b - a);
    assert(tail@.len() == b - a);
    let ghost tv = rows_view(tail@);
    proof {
        assert(tv =~= rv.subrange(a as int, b as int));
        assert(tv.skip(0) =~= tv);
    }
    let ghost goal = shown_window(rv, from as int, count as int, selected, term@);
    let mut out: Vec<Vec<Span>> = Vec::new();
    let mut k: usize = 0;
    while k < b - a
        invariant
            k <= b - a,
            a <= b <= rv.len(),
            tv.len() == b - a,
            tv =~= rv.subrange(a as int, b as int),
            nonempty == (term@.len() > 0),
            rows_view(tail@) == tv.skip(k as int),
            tail@.len() == b - a - k,
            goal == shown_window(rv, from as int, count as int, selected, term@),
            goal.len() == b - a,
            forall|j: int| 0 <= j < goal.len() ==> #[trigger] goal[j] == shown_row(rv[a + j], a + j, selected, term@),
            rows_view(out@) == goal.take(k as int),
        decreases b - a - k,
    {
        let ghost before_tail = tail@;
        let row = tail.remove(0);
        proof {
            assert(rows_view(before_tail)[0] == row_view(before_tail[0]));
            assert(row_view(row) == tv[k as int]);
            assert(tail@ =~= before_tail.subrange(1, before_tail.len() as int));
            assert forall|j: int| 0 <= j < rows_view(tail@).len() implies #[trigger] rows_view(tail@)[j]
                == tv.skip(k + 1)[j] by {
                assert(rows_view(tail@)[j] == row_view(tail@[j]));
                assert(tail@[j] == before_tail[j + 1]);
                assert(rows_view(before_tail)[j + 1] == row_view(before_tail[j + 1]));
            }
            assert(rows_view(tail@) =~= tv.skip(k + 1));
        }
        let idx = a + k;
        let shown = if nonempty && selected == Some(idx) {
            rehighlight_exec(row, term)
        } else {
            row
        };
        push_row(&mut out, shown);
        proof {
            assert(rv[a + k] == tv[k as int]);
            assert(goal[k as int] == shown_row(rv[a + k], a + k, selected, term@));
            assert(goal.take(k + 1) =~= goal.take(k as int).push(goal[k as int]));
        }
        k += 1;
    }
    proof {
        assert(goal.take(k as int) =~= goal);
    }
    out
}

/// The rows the details panel shows of `rows`, whose file headers are
/// `sections`, in `height` rows scrolled to `scroll`, with the row of the
/// selected match repainted.
pub fn panel_rows_exec(
    rows: Vec<Vec<Span>>,
    sections: &Vec<FileSection>,
    scroll: usize,
    height: usize,
    selected: Option<usize>,
    term: &str,
) -> (r: Vec<Vec<Span>>)
    ensures
        rows_view(r@) == panel_rows(rows_view(rows@), sections_view(sections@), scroll as int, height as int, selected, term@),
{
    let ghost sv = sections_view(sections@);
    let ghost rv = rows_view(rows@);
    let rlen = rows.len();
    let cur = section_at_exec(sections, scroll);
    let sh: usize = match cur {
        Some(i) => if i < sections.len() - 1 {
            let next = sections[i + 1].header_line_idx;
            let space = if next > scroll { next - scroll } else { 0 };
            if space < FILE_HEADER_HEIGHT { space } else { FILE_HEADER_HEIGHT }
        } else {
            FILE_HEADER_HEIGHT
        },
        None => 0,
    };
    proof {
        assert(sh as int == sticky_height(sv, scroll as int));
    }
    match cur {
        Some(i) if sh > 0 => {
            let start: usize = if i < sections.len() - 1 && scroll.saturating_add(FILE_HEADER_HEIGHT)
                > sections[i + 1].header_line_idx {
                sections[i + 1].header_line_idx
            } else {
                scroll.saturating_add(FILE_HEADER_HEIGHT)
            };
            let shown = shown_window_exec(rows, start, height.saturating_sub(sh), selected, term);
            proof {
                assert(rv.len() == rlen);
                let exact = if i + 1 < sv.len() && scroll + FILE_HEADER_HEIGHT > sv[i + 1].0 {
                    sv[i + 1].0
                } else {
                    scroll + FILE_HEADER_HEIGHT
                };
                assert(shown_window(rv, start as int, (if height >= sh { height - sh } else { 0 }) as int, selected, term@)
                    =~= shown_window(rv, exact, (if height >= sh { height - sh } else { 0 }) as int, selected, term@));
            }
            let mut header: Vec<Span> = Vec::new();
            crate::layout::push_span(
                &mut header,
                &chars_of(sections[i].header_text.as_str()),
                SpanStyle { fg: Some(Color::White), bg: Some(Color::DarkGray), bold: true, underlined: false },
            );
            let ghost hv0 = row_view(header);
            let ghost shv = rows_view(shown@);
            let mut out: Vec<Vec<Span>> = Vec::new();
            proof {
                assert(rows_view(out@) =~= Seq::<RowView>::empty());
            }
            push_row(&mut out, header);
            crate::layout::append_rows(&mut out, shown);
            proof {
                let hv = seq![(sv[i as int].1, sticky_header_style())];
                assert(sv[i as int].1 == sections@[i as int].header_text@);
                assert(hv0 =~= hv);
                assert(rows_view(out@) =~= seq![hv] + shv);
                assert(section_at(sv, scroll as int, sv.len() as int) == Some(i as int));
                assert(rows_view(out@) =~= panel_rows(rv, sv, scroll as int, height as int, selected, term@));
            }
            out
        },
        _ => shown_window_exec(rows, scroll, height, selected, term),
    }
}

/// Painting the selected match changes how a row looks, not what it says:
/// the repainted row has the same text (for a term in mixed case, which is
/// matched as written).
pub proof fn law_repaint_keeps_text(row: RowView, term: Seq<char>)
    requires
        term.len() == 0 || mixed_case(term),
    ensures
        row_text(rehighlighted(row, term)) == row_text(row),
    decreases row.len(),
{
    if row.len() > 0 {
        law_repaint_keeps_text(row.drop_last(), term);
        let last = row.last();
        lemma_row_text_concat(
            rehighlighted(row.drop_last(), term),
            highlight_spans(last.0, term, last.1, selected_match()),
        );
        law_highlight_keeps_text(last.0, term, last.1, selected_match());
    }
}

} // verus!
