//! The rows of text the interface draws, as styled pieces: search matches
//! picked out, diff lines coloured and wrapped, and the rows of the
//! details panel.

use vstd::prelude::*;
use crate::file_tree::{lemma_nodes_view, node_view, nodes_view, FileTreeNode, NodeView};
use crate::highlight::{styled_line, styled_lines, HighlightCache, SyntaxStyle};
use crate::repo::{CommitDetails, DiffLine, FileChange, Hunk};
use crate::sha::hex_of;
use crate::text::{
    chars_of, copy_chars, decimal, decimal_chars, extend_chars, lower_chars, lowercase, matches_at,
    mixed_case, occurs_at, slice_chars, string_of,
};

verus! {

broadcast use vstd::string::group_string_axioms;

/// A terminal colour.
#[derive(Clone, Copy, PartialEq, Eq, Structural, Debug)]
pub enum Color {
    Black,
    Red,
    Green,
    Yellow,
    Blue,
    Magenta,
    Cyan,
    Gray,
    DarkGray,
    White,
    Rgb(u8, u8, u8),
}

/// How a piece of text is drawn: its colours, when set, and whether bold
/// or underlined.
#[derive(Clone, Copy, PartialEq, Eq, Structural, Debug)]
pub struct SpanStyle {
    pub fg: Option<Color>,
    pub bg: Option<Color>,
    pub bold: bool,
    pub underlined: bool,
}

/// A piece of a row with its style.
pub struct Span {
    pub text: String,
    pub style: SpanStyle,
}

/// A piece of a row as plain values.
pub open spec fn span_view(s: Span) -> (Seq<char>, SpanStyle) {
    (s.text@, s.style)
}

/// A row as plain values.
pub open spec fn row_view(r: Vec<Span>) -> Seq<(Seq<char>, SpanStyle)> {
    r@.map_values(|s: Span| span_view(s))
}

/// Rows as plain values.
pub open spec fn rows_view(rows: Seq<Vec<Span>>) -> Seq<Seq<(Seq<char>, SpanStyle)>> {
    rows.map_values(|r: Vec<Span>| row_view(r))
}

/// No colours, not bold.
pub open spec fn plain() -> SpanStyle {
    SpanStyle { fg: None, bg: None, bold: false, underlined: false }
}

/// Text in a foreground colour.
pub open spec fn fg(c: Color) -> SpanStyle {
    SpanStyle { fg: Some(c), bg: None, bold: false, underlined: false }
}

/// What the panel paints on text matching the search term.
pub open spec fn search_match() -> SpanStyle {
    SpanStyle { fg: Some(Color::Black), bg: Some(Color::Yellow), bold: false, underlined: false }
}

/// What the panel paints on text matching the search term.
pub fn search_match_style() -> (r: SpanStyle)
    ensures
        r == search_match(),
{
    SpanStyle { fg: Some(Color::Black), bg: Some(Color::Yellow), bold: false, underlined: false }
}

/// The colour syntect gave a piece of code, as its foreground.
pub open spec fn code_style(s: SyntaxStyle) -> SpanStyle {
    fg(Color::Rgb(s.foreground.r, s.foreground.g, s.foreground.b))
}

/// Convert syntect SpanStyle to a terminal style: its foreground colour.
pub fn syntect_to_ratatui_style(s: &SyntaxStyle) -> (r: SpanStyle)
    ensures
        r == code_style(*s),
{
    SpanStyle { fg: Some(Color::Rgb(s.foreground.r, s.foreground.g, s.foreground.b)), bg: None, bold: false, underlined: false }
}

/// How a diff line reads: the style of its gutter, and the background the
/// line sits on: green on dark green for added lines, red on dark red for
/// removed ones, bold magenta on purple for conflict lines, grey with no
/// background for the rest.
pub open spec fn diff_line_look(origin: char) -> (SpanStyle, Option<Color>) {
    if origin == '+' {
        (fg(Color::Green), Some(Color::Rgb(0, 20, 0)))
    } else if origin == '-' {
        (fg(Color::Red), Some(Color::Rgb(35, 0, 0)))
    } else if origin == '!' {
        (SpanStyle { fg: Some(Color::Magenta), bg: None, bold: true, underlined: false }, Some(Color::Rgb(30, 0, 30)))
    } else {
        (fg(Color::DarkGray), None)
    }
}

/// How a diff line reads: the colour of its `+`/`-` gutter, and the
/// background the line sits on. The staging view and the commit details
/// view both draw diffs with it.
pub fn diff_line_style(origin: char) -> (r: (SpanStyle, Option<Color>))
    ensures
        r == diff_line_look(origin),
{
    if origin == '+' {
        (SpanStyle { fg: Some(Color::Green), bg: None, bold: false, underlined: false }, Some(Color::Rgb(0, 20, 0)))
    } else if origin == '-' {
        (SpanStyle { fg: Some(Color::Red), bg: None, bold: false, underlined: false }, Some(Color::Rgb(35, 0, 0)))
    } else if origin == '!' {
        (SpanStyle { fg: Some(Color::Magenta), bg: None, bold: true, underlined: false }, Some(Color::Rgb(30, 0, 30)))
    } else {
        (SpanStyle { fg: Some(Color::DarkGray), bg: None, bold: false, underlined: false }, None)
    }
}

/// A piece of text with a style.
pub fn span(text: &Vec<char>, style: SpanStyle) -> (r: Span)
    ensures
        span_view(r) == (text@, style),
{
    Span { text: string_of(text), style }
}

// ---------------------------------------------------------------------------
// Search matches
// ---------------------------------------------------------------------------

/// The first position from `pos` on where `p` occurs in `t`.
pub open spec fn next_occurrence(t: Seq<char>, p: Seq<char>, pos: int) -> Option<int>
    decreases t.len() + 1 - pos,
{
    if pos < 0 || pos + p.len() > t.len() {
        None
    } else if occurs_at(t, p, pos) {
        Some(pos)
    } else {
        next_occurrence(t, p, pos + 1)
    }
}

/// The characters of `t` from `a` to `b`, both kept within `t`.
pub open spec fn clip(t: Seq<char>, a: int, b: int) -> Seq<char> {
    let n = t.len() as int;
    let a2 = if a < 0 {
        0
    } else if a > n {
        n
    } else {
        a
    };
    let b2 = if b < a2 {
        a2
    } else if b > n {
        n
    } else {
        b
    };
    t.subrange(a2, b2)
}

/// The pieces of `text` from `last_end` on, the matches of `sq` in `st`
/// (the text searched, position for position) found from `pos` on: the
/// text between matches in `base`, each match (`qlen` characters) in
/// `hl`.
pub open spec fn match_pieces(
    text: Seq<char>,
    st: Seq<char>,
    sq: Seq<char>,
    qlen: int,
    pos: int,
    last_end: int,
    base: SpanStyle,
    hl: SpanStyle,
) -> Seq<(Seq<char>, SpanStyle)>
    decreases st.len() + 1 - pos,
{
    if sq.len() == 0 {
        Seq::empty()
    } else {
        match next_occurrence(st, sq, pos) {
            None => if last_end < text.len() {
                seq![(clip(text, last_end, text.len() as int), base)]
            } else {
                Seq::empty()
            },
            Some(i) => if i < pos || i + sq.len() > st.len() {
                Seq::empty()
            } else {
                (if i > last_end {
                    seq![(clip(text, last_end, i), base)]
                } else {
                    Seq::empty()
                }) + seq![(clip(text, i, i + qlen), hl)] + match_pieces(
                    text,
                    st,
                    sq,
                    qlen,
                    i + sq.len(),
                    if i + qlen <= text.len() {
                        i + qlen
                    } else {
                        text.len() as int
                    },
                    base,
                    hl,
                )
            },
        }
    }
}

/// The pieces of `text` with the matches of `query` in `hl` and the rest
/// in `base`: a query with upper and lower case letters matches as it is,
/// any other one ignoring case. Without a query, or a match, the text is
/// one piece.
pub open spec fn highlight_spans(text: Seq<char>, query: Seq<char>, base: SpanStyle, hl: SpanStyle) -> Seq<
    (Seq<char>, SpanStyle),
> {
    if query.len() == 0 {
        seq![(text, base)]
    } else {
        let (st, sq) = if mixed_case(query) {
            (text, query)
        } else {
            (lowercase(text), lowercase(query))
        };
        let pieces = match_pieces(text, st, sq, query.len() as int, 0, 0, base, hl);
        if pieces.len() == 0 {
            seq![(text, base)]
        } else {
            pieces
        }
    }
}

/// The characters of `t` from `a` to `b`, both kept within `t`.
fn clip_exec(t: &Vec<char>, a: usize, b: usize) -> (r: Vec<char>)
    ensures
        r@ == clip(t@, a as int, b as int),
{
    let n = t.len();
    let a2 = if a > n {
        n
    } else {
        a
    };
    let b2 = if b < a2 {
        a2
    } else if b > n {
        n
    } else {
        b
    };
    slice_chars(t, a2, b2)
}

/// The first position from `pos` on where `p` occurs in `t`.
fn find_from(t: &Vec<char>, p: &Vec<char>, pos: usize) -> (r: Option<usize>)
    ensures
        match r {
            Some(i) => next_occurrence(t@, p@, pos as int) == Some(i as int) && pos <= i && i
                + p@.len() <= t@.len(),
            None => next_occurrence(t@, p@, pos as int) is None,
        },
{
    if p.len() > t.len() {
        return None;
    }
    let mut i = pos;
    while i <= t.len() - p.len()
        invariant
            p@.len() <= t@.len(),
            next_occurrence(t@, p@, pos as int) == next_occurrence(t@, p@, i as int),
            pos <= i,
        decreases t.len() + 1 - i,
    {
        if p.len() == 0 {
            proof {
                assert(t@.subrange(i as int, i as int) =~= p@);
            }
            return Some(i);
        }
        if matches_at(t, p, i) {
            return Some(i);
        }
        i += 1;
    }
    None
}

/// Appends pieces to a row.
pub(crate) fn push_span(row: &mut Vec<Span>, text: &Vec<char>, style: SpanStyle)
    ensures
        row_view(*final(row)) == row_view(*old(row)).push((text@, style)),
{
    let ghost before = row@;
    row.push(span(text, style));
    proof {
        assert(row_view(*row) =~= row_view_seq(before).push((text@, style)));
    }
}

pub open spec fn row_view_seq(r: Seq<Span>) -> Seq<(Seq<char>, SpanStyle)> {
    r.map_values(|s: Span| span_view(s))
}

/// Helper to highlight search matches in text
pub fn highlight_matches(text: &str, query: &str, base_style: SpanStyle, highlight_style: SpanStyle) -> (r: Vec<Span>)
    ensures
        row_view(r) == highlight_spans(text@, query@, base_style, highlight_style),
{
    let t = chars_of(text);
    let q = chars_of(query);
    let mut spans: Vec<Span> = Vec::new();
    if q.len() == 0 {
        push_span(&mut spans, &t, base_style);
        proof {
            assert(row_view(spans) =~= seq![(text@, base_style)]);
        }
        return spans;
    }
    let case_sensitive = crate::text::has_mixed_case(query);
    let (st, sq) = if case_sensitive {
        (copy_chars(&t), copy_chars(&q))
    } else {
        (lower_chars(&t), lower_chars(&q))
    };
    let ghost pieces = match_pieces(t@, st@, sq@, q@.len() as int, 0, 0, base_style, highlight_style);
    if sq.len() > 0 {
        let mut pos: usize = 0;
        let mut last_end: usize = 0;
        proof {
            assert(row_view(spans) =~= Seq::<(Seq<char>, SpanStyle)>::empty());
            assert(row_view(spans) + pieces =~= pieces);
        }
        loop
            invariant_except_break
                sq@.len() > 0,
                row_view(spans) + match_pieces(
                    t@,
                    st@,
                    sq@,
                    q@.len() as int,
                    pos as int,
                    last_end as int,
                    base_style,
                    highlight_style,
                ) == pieces,
                pos <= st@.len() + 1,
            ensures
                row_view(spans) == pieces,
            decreases st@.len() + 1 - pos,
        {
            let ghost before = row_view(spans);
            match find_from(&st, &sq, pos) {
                None => {
                    if last_end < t.len() {
                        let piece = clip_exec(&t, last_end, t.len());
                        push_span(&mut spans, &piece, base_style);
                    }
                    proof {
                        assert(row_view(spans) =~= pieces);
                    }
                    break;
                },
                Some(i) => {
                    if i > last_end {
                        let piece = clip_exec(&t, last_end, i);
                        push_span(&mut spans, &piece, base_style);
                    }
                    let end = if i <= t.len() && q.len() <= t.len() - i {
                        i + q.len()
                    } else {
                        t.len()
                    };
                    let hit = clip_exec(&t, i, end);
                    push_span(&mut spans, &hit, highlight_style);
                    proof {
                        assert(clip(t@, i as int, end as int) == clip(t@, i as int, i + q@.len()));
                        assert(row_view(spans) =~= before + ((if i > last_end {
                            seq![(clip(t@, last_end as int, i as int), base_style)]
                        } else {
                            Seq::empty()
                        }) + seq![(clip(t@, i as int, i + q@.len()), highlight_style)]));
                    }
                    let stl = st.len();
                    assert(i + sq@.len() <= stl);
                    pos = i + sq.len();
                    last_end = end;
                },
            }
        }
    }
    if spans.len() == 0 {
        push_span(&mut spans, &t, base_style);
    }
    spans
}


// ---------------------------------------------------------------------------
// Wrapping
// ---------------------------------------------------------------------------

/// Rows being filled: those done, the one being filled, how many
/// characters of content it holds, and whether it is the first.
#[verifier::ext_equal]
pub struct Wrapping {
    pub rows: Seq<Seq<(Seq<char>, SpanStyle)>>,
    pub current: Seq<(Seq<char>, SpanStyle)>,
    pub len: int,
    pub first: bool,
}

/// A piece of text put into rows `width` characters wide: what fits goes
/// on the row being filled, a full row is closed and the next starts with
/// `cont`.
pub open spec fn wrap_piece(
    w: Wrapping,
    text: Seq<char>,
    style: SpanStyle,
    width: int,
    cont: (Seq<char>, SpanStyle),
) -> Wrapping
    decreases text.len(), (if w.len >= width {
        1int
    } else {
        0int
    }),
{
    if text.len() == 0 || width <= 0 {
        w
    } else if w.len >= width {
        wrap_piece(
            Wrapping { rows: w.rows.push(w.current), current: seq![cont], len: 0, first: false },
            text,
            style,
            width,
            cont,
        )
    } else if text.len() <= width - w.len {
        Wrapping {
            current: w.current.push((text, style)),
            len: w.len + text.len(),
            ..w
        }
    } else {
        let avail = width - w.len;
        wrap_piece(
            Wrapping {
                rows: w.rows.push(w.current.push((text.take(avail), style))),
                current: seq![cont],
                len: 0,
                first: false,
            },
            text.skip(avail),
            style,
            width,
            cont,
        )
    }
}

/// The first `n` pieces put into rows.
pub open spec fn wrap_pieces(
    w: Wrapping,
    pieces: Seq<(Seq<char>, SpanStyle)>,
    n: int,
    width: int,
    cont: (Seq<char>, SpanStyle),
) -> Wrapping
    decreases n,
{
    if n <= 0 {
        w
    } else {
        let p = pieces[n - 1];
        wrap_piece(wrap_pieces(w, pieces, n - 1, width, cont), p.0, p.1, width, cont)
    }
}

/// The rows a line of pieces takes at `width` characters (after its
/// `prefix`): one when it fits (or there is no room at all), else the
/// pieces wrapped onto rows that start with `cont`.
pub open spec fn wrapped_rows(
    prefix: (Seq<char>, SpanStyle),
    pieces: Seq<(Seq<char>, SpanStyle)>,
    width: int,
    cont: (Seq<char>, SpanStyle),
) -> Seq<Seq<(Seq<char>, SpanStyle)>> {
    if width == 0 || crate::details::saturated(pieces_len(pieces, pieces.len() as int)) <= width {
        seq![seq![prefix] + pieces]
    } else {
        let w = wrap_pieces(
            Wrapping { rows: Seq::empty(), current: seq![prefix], len: 0, first: true },
            pieces,
            pieces.len() as int,
            width,
            cont,
        );
        if w.current.len() > 1 || (w.current.len() == 1 && !w.first) {
            w.rows.push(w.current)
        } else {
            w.rows
        }
    }
}

/// The characters in the first `n` pieces.
pub open spec fn pieces_len(pieces: Seq<(Seq<char>, SpanStyle)>, n: int) -> int
    decreases n,
{
    if n <= 0 {
        0
    } else {
        pieces_len(pieces, n - 1) + pieces[n - 1].0.len()
    }
}

/// Rows being filled, held by the code.
struct WrapRows {
    rows: Vec<Vec<Span>>,
    current: Vec<Span>,
    len: usize,
    first: bool,
}

spec fn wrap_view(w: WrapRows) -> Wrapping {
    Wrapping { rows: rows_view(w.rows@), current: row_view(w.current), len: w.len as int, first: w.first }
}

fn close_row(w: &mut WrapRows, cont: &Vec<char>, cont_style: SpanStyle)
    ensures
        wrap_view(*final(w)) == (Wrapping {
            rows: wrap_view(*old(w)).rows.push(wrap_view(*old(w)).current),
            current: seq![(cont@, cont_style)],
            len: 0,
            first: false,
        }),
{
    let mut fresh: Vec<Span> = Vec::new();
    push_span(&mut fresh, cont, cont_style);
    proof {
        assert(row_view(fresh) =~= seq![(cont@, cont_style)]);
    }
    let ghost before = w.rows@;
    let mut cur = fresh;
    std::mem::swap(&mut cur, &mut w.current);
    let ghost cv = row_view(cur);
    w.rows.push(cur);
    w.len = 0;
    w.first = false;
    proof {
        assert(rows_view(w.rows@) =~= rows_view(before).push(cv));
    }
}

fn wrap_piece_exec(w: &mut WrapRows, text: &Vec<char>, style: SpanStyle, width: usize, cont: &Vec<char>, cont_style: SpanStyle)
    requires
        old(w).len <= width,
    ensures
        wrap_view(*final(w)) == wrap_piece(wrap_view(*old(w)), text@, style, width as int, (cont@, cont_style)),
        final(w).len <= width,
    decreases text@.len(), (if old(w).len >= width {
        1int
    } else {
        0int
    }),
{
    if text.len() == 0 || width == 0 {
        return;
    }
    if w.len >= width {
        close_row(w, cont, cont_style);
        wrap_piece_exec(w, text, style, width, cont, cont_style);
    } else if text.len() <= width - w.len {
        push_span(&mut w.current, text, style);
        w.len = w.len + text.len();
    } else {
        let avail = width - w.len;
        let head = slice_chars(text, 0, avail);
        let tail = slice_chars(text, avail, text.len());
        proof {
            assert(head@ =~= text@.take(avail as int));
            assert(tail@ =~= text@.skip(avail as int));
        }
        push_span(&mut w.current, &head, style);
        close_row(w, cont, cont_style);
        wrap_piece_exec(w, &tail, style, width, cont, cont_style);
    }
}

/// The characters in some pieces, at most `usize::MAX`.
fn pieces_len_exec(pieces: &Vec<(Vec<char>, SpanStyle)>) -> (r: usize)
    ensures
        r as int == crate::details::saturated(pieces_len(pieces_view(pieces@), pieces@.len() as int)),
{
    let mut r: usize = 0;
    let mut k: usize = 0;
    while k < pieces.len()
        invariant
            k <= pieces.len(),
            r as int == crate::details::saturated(pieces_len(pieces_view(pieces@), k as int)),
            forall|j: int| 0 <= j <= k ==> pieces_len(pieces_view(pieces@), j) >= 0,
        decreases pieces.len() - k,
    {
        r = r.saturating_add(pieces[k].0.len());
        k += 1;
        proof {
            assert(pieces_len(pieces_view(pieces@), k as int) >= 0);
        }
    }
    r
}

/// Pieces held by the code, as plain values.
pub open spec fn pieces_view(p: Seq<(Vec<char>, SpanStyle)>) -> Seq<(Seq<char>, SpanStyle)> {
    p.map_values(|x: (Vec<char>, SpanStyle)| (x.0@, x.1))
}

/// The rows a line of pieces takes, wrapped at `width` characters.
pub fn wrap_line(
    prefix: &Vec<char>,
    prefix_style: SpanStyle,
    pieces: &Vec<(Vec<char>, SpanStyle)>,
    width: usize,
    cont: &Vec<char>,
) -> (r: Vec<Vec<Span>>)
    ensures
        rows_view(r@) == wrapped_rows(
            (prefix@, prefix_style),
            pieces_view(pieces@),
            width as int,
            (cont@, prefix_style),
        ),
{
    let ghost pv = pieces_view(pieces@);
    let total = pieces_len_exec(pieces);
    let mut first_row: Vec<Span> = Vec::new();
    proof {
        assert(row_view(first_row) =~= Seq::<(Seq<char>, SpanStyle)>::empty());
    }
    push_span(&mut first_row, prefix, prefix_style);
    if width == 0 || total <= width {
        let mut k: usize = 0;
        while k < pieces.len()
            invariant
                k <= pieces.len(),
                pv == pieces_view(pieces@),
                row_view(first_row) == seq![(prefix@, prefix_style)] + pv.take(k as int),
            decreases pieces.len() - k,
        {
            push_span(&mut first_row, &pieces[k].0, pieces[k].1);
            proof {
                assert(pv.take(k + 1) =~= pv.take(k as int).push(pv[k as int]));
            }
            k += 1;
        }
        proof {
            assert(pv.take(pv.len() as int) =~= pv);
        }
        let mut rows: Vec<Vec<Span>> = Vec::new();
        rows.push(first_row);
        proof {
            assert(rows_view(rows@) =~= seq![row_view(first_row)]);
        }
        return rows;
    }
    proof {
        assert(crate::details::saturated(pieces_len(pv, pv.len() as int)) > width);
    }
    let mut w = WrapRows { rows: Vec::new(), current: first_row, len: 0, first: true };
    proof {
        assert(rows_view(w.rows@) =~= Seq::<Seq<(Seq<char>, SpanStyle)>>::empty());
    }
    let ghost start = wrap_view(w);
    proof {
        assert(row_view(w.current) =~= seq![(prefix@, prefix_style)]);
        assert(start =~= Wrapping {
            rows: Seq::empty(),
            current: seq![(prefix@, prefix_style)],
            len: 0,
            first: true,
        });
    }
    let mut k: usize = 0;
    while k < pieces.len()
        invariant
            k <= pieces.len(),
            pv == pieces_view(pieces@),
            w.len <= width,
            wrap_view(w) == wrap_pieces(start, pv, k as int, width as int, (cont@, prefix_style)),
        decreases pieces.len() - k,
    {
        wrap_piece_exec(&mut w, &pieces[k].0, pieces[k].1, width, cont, prefix_style);
        k += 1;
    }
    let mut rows = w.rows;
    if w.current.len() > 1 || (w.current.len() == 1 && !w.first) {
        let ghost before = rows@;
        let ghost cv = row_view(w.current);
        rows.push(w.current);
        proof {
            assert(rows_view(rows@) =~= rows_view(before).push(cv));
        }
    }
    rows
}

proof fn lemma_pieces_len_nonneg(p: Seq<(Seq<char>, SpanStyle)>, n: int)
    ensures
        pieces_len(p, n) >= 0,
    decreases n,
{
    if n > 0 {
        lemma_pieces_len_nonneg(p, n - 1);
    }
}


// ---------------------------------------------------------------------------
// Rows
// ---------------------------------------------------------------------------

/// Appends a row.
pub fn push_row(rows: &mut Vec<Vec<Span>>, row: Vec<Span>)
    ensures
        rows_view(final(rows)@) == rows_view(old(rows)@).push(row_view(row)),
{
    let ghost before = rows@;
    let ghost rv = row_view(row);
    rows.push(row);
    proof {
        assert(rows_view(rows@) =~= rows_view(before).push(rv));
    }
}

/// Appends rows.
pub fn append_rows(rows: &mut Vec<Vec<Span>>, more: Vec<Vec<Span>>)
    ensures
        rows_view(final(rows)@) == rows_view(old(rows)@) + rows_view(more@),
{
    let ghost orig = rows_view(rows@);
    let ghost mv = rows_view(more@);
    let mut more = more;
    let mut taken: Vec<Vec<Span>> = Vec::new();
    // Reverse `more` into `taken`, then pop in order.
    while more.len() > 0
        invariant
            rows_view(more@) + rows_view(taken@).reverse() == mv,
            rows_view(rows@) == orig,
        decreases more@.len(),
    {
        let ghost m0 = more@;
        let ghost t0 = taken@;
        let r = more.pop().unwrap();
        proof {
            assert(m0 =~= more@.push(r));
            assert(rows_view(m0) =~= rows_view(more@).push(row_view(r)));
        }
        taken.push(r);
        proof {
            assert(rows_view(taken@) =~= rows_view(t0).push(row_view(r)));
            assert(rows_view(taken@).reverse() =~= seq![row_view(r)] + rows_view(t0).reverse());
            assert(rows_view(more@) + rows_view(taken@).reverse() =~= rows_view(m0) + rows_view(t0).reverse());
        }
    }
    proof {
        assert(rows_view(more@) =~= Seq::<Seq<(Seq<char>, SpanStyle)>>::empty());
        assert(rows_view(taken@).reverse() =~= mv);
    }
    while taken.len() > 0
        invariant
            rows_view(rows@) + rows_view(taken@).reverse() == orig + mv,
        decreases taken@.len(),
    {
        let ghost t0 = taken@;
        let ghost r0 = rows_view(rows@);
        let r = taken.pop().unwrap();
        proof {
            assert(t0 =~= taken@.push(r));
            assert(rows_view(t0) =~= rows_view(taken@).push(row_view(r)));
            assert(rows_view(t0).reverse() =~= seq![row_view(r)] + rows_view(taken@).reverse());
        }
        push_row(rows, r);
        proof {
            assert(rows_view(rows@) + rows_view(taken@).reverse() =~= r0 + rows_view(t0).reverse());
        }
    }
    proof {
        assert(rows_view(taken@).reverse() =~= Seq::<Seq<(Seq<char>, SpanStyle)>>::empty());
        assert(rows_view(rows@) =~= orig + mv);
    }
}

/// Appends pieces to a row.
pub(crate) fn extend_row(row: &mut Vec<Span>, more: Vec<Span>)
    ensures
        row_view(*final(row)) == row_view(*old(row)) + row_view(more),
{
    let ghost orig = row_view(*row);
    let ghost mv = row_view(more);
    let mut k: usize = 0;
    while k < more.len()
        invariant
            k <= more@.len(),
            mv == row_view(more),
            row_view(*row) == orig + mv.take(k as int),
        decreases more@.len() - k,
    {
        let ghost before = row@;
        let sp = Span { text: crate::text::copy_string(&more[k].text), style: more[k].style };
        row.push(sp);
        proof {
            assert(row_view(*row) =~= row_view_seq(before).push(mv[k as int]));
            assert(mv.take(k + 1) =~= mv.take(k as int).push(mv[k as int]));
        }
        k += 1;
    }
    proof {
        assert(mv.take(mv.len() as int) =~= mv);
    }
}

// ---------------------------------------------------------------------------
// The file tree
// ---------------------------------------------------------------------------

/// The colour of a file in the tree, by its status.
pub open spec fn status_color(status: char) -> Color {
    if status == 'A' {
        Color::Green
    } else if status == 'D' {
        Color::Red
    } else if status == 'M' {
        Color::Yellow
    } else if status == 'R' {
        Color::Blue
    } else {
        Color::Gray
    }
}

fn status_color_exec(status: char) -> (r: Color)
    ensures
        r == status_color(status),
{
    if status == 'A' {
        Color::Green
    } else if status == 'D' {
        Color::Red
    } else if status == 'M' {
        Color::Yellow
    } else if status == 'R' {
        Color::Blue
    } else {
        Color::Gray
    }
}

/// The pieces telling a file's added and deleted lines, when it has any.
pub open spec fn count_pieces(additions: nat, deletions: nat) -> Seq<(Seq<char>, SpanStyle)> {
    if additions > 0 || deletions > 0 {
        seq![(" "@, plain())] + (if additions > 0 {
            seq![("+"@ + decimal(additions), fg(Color::Green))]
        } else {
            Seq::empty()
        }) + (if deletions > 0 {
            (if additions > 0 {
                seq![(" "@, plain())]
            } else {
                Seq::empty()
            }) + seq![("-"@ + decimal(deletions), fg(Color::Red))]
        } else {
            Seq::empty()
        })
    } else {
        Seq::empty()
    }
}

/// The row of a node of the tree: the drawing on its left, then its name
/// (a directory's with a slash) coloured by what it is.
pub open spec fn node_row(n: NodeView, prefix: Seq<char>, term: Seq<char>, last: bool) -> Seq<
    (Seq<char>, SpanStyle),
> {
    seq![
        (prefix, fg(Color::DarkGray)),
        (if last {
            "\u{2514} "@
        } else {
            "\u{251c} "@
        }, fg(Color::DarkGray)),
    ] + match n.status {
        Some(st) => highlight_spans(n.name, term, fg(status_color(st)), search_match())
            + count_pieces(n.additions, n.deletions),
        None => highlight_spans(n.name + "/"@, term, fg(Color::Blue), search_match()),
    }
}

/// The rows of the nodes from the `k`-th on, each followed by the rows of
/// the nodes below it.
pub open spec fn tree_rows_from(nodes: Seq<NodeView>, prefix: Seq<char>, term: Seq<char>, k: int) -> Seq<
    Seq<(Seq<char>, SpanStyle)>,
>
    decreases nodes, nodes.len() - k,
{
    if k < 0 || k >= nodes.len() {
        Seq::empty()
    } else {
        node_rows(nodes[k], prefix, term, k == nodes.len() - 1) + tree_rows_from(
            nodes,
            prefix,
            term,
            k + 1,
        )
    }
}

/// The row of a node and the rows below it.
pub open spec fn node_rows(n: NodeView, prefix: Seq<char>, term: Seq<char>, last: bool) -> Seq<
    Seq<(Seq<char>, SpanStyle)>,
>
    decreases n, 0int,
{
    seq![node_row(n, prefix, term, last)] + if n.children.len() > 0 {
        tree_rows_from(
            n.children,
            prefix + if last {
                "  "@
            } else {
                "\u{2502} "@
            },
            term,
            0,
        )
    } else {
        Seq::empty()
    }
}

fn count_spans(additions: usize, deletions: usize) -> (r: Vec<Span>)
    ensures
        row_view(r) == count_pieces(additions as nat, deletions as nat),
{
    let mut r: Vec<Span> = Vec::new();
    proof {
        assert(row_view(r) =~= Seq::<(Seq<char>, SpanStyle)>::empty());
    }
    if additions > 0 || deletions > 0 {
        push_span(&mut r, &chars_of(" "), plain_style());
        if additions > 0 {
            let mut t = chars_of("+");
            extend_chars(&mut t, &decimal_chars(additions as u64));
            push_span(&mut r, &t, fg_style(Color::Green));
        }
        if deletions > 0 {
            if additions > 0 {
                push_span(&mut r, &chars_of(" "), plain_style());
            }
            let mut t = chars_of("-");
            extend_chars(&mut t, &decimal_chars(deletions as u64));
            push_span(&mut r, &t, fg_style(Color::Red));
        }
        proof {
            assert(row_view(r) =~= count_pieces(additions as nat, deletions as nat));
        }
    }
    r
}

/// No colours, not bold.
pub fn plain_style() -> (r: SpanStyle)
    ensures
        r == plain(),
{
    SpanStyle { fg: None, bg: None, bold: false, underlined: false }
}

/// Text in a foreground colour.
pub fn fg_style(c: Color) -> (r: SpanStyle)
    ensures
        r == fg(c),
{
    SpanStyle { fg: Some(c), bg: None, bold: false, underlined: false }
}

/// Render the file tree with tree-drawing characters
pub fn render_file_tree(nodes: &Vec<FileTreeNode>, prefix: &Vec<char>, rows: &mut Vec<Vec<Span>>, search_term: &str)
    ensures
        rows_view(final(rows)@) == rows_view(old(rows)@) + tree_rows_from(
            nodes_view(nodes@),
            prefix@,
            search_term@,
            0,
        ),
    decreases nodes@,
{
    let ghost nv = nodes_view(nodes@);
    let ghost orig = rows_view(rows@);
    proof {
        lemma_nodes_view(nodes@);
        assert(orig + tree_rows_from(nv, prefix@, search_term@, 0) == orig + tree_rows_from(nv, prefix@, search_term@, 0));
    }
    let mut i: usize = 0;
    while i < nodes.len()
        invariant
            i <= nodes@.len(),
            nv == nodes_view(nodes@),
            nv.len() == nodes@.len(),
            forall|j: int| 0 <= j < nodes@.len() ==> #[trigger] nv[j] == node_view(nodes@[j]),
            rows_view(rows@) + tree_rows_from(nv, prefix@, search_term@, i as int) == orig
                + tree_rows_from(nv, prefix@, search_term@, 0),
        decreases nodes@.len() - i,
    {
        let node = &nodes[i];
        let is_last = i == nodes.len() - 1;
        let ghost n = nv[i as int];
        let mut row: Vec<Span> = Vec::new();
        proof {
            assert(row_view(row) =~= Seq::<(Seq<char>, SpanStyle)>::empty());
        }
        push_span(&mut row, prefix, fg_style(Color::DarkGray));
        let connector = if is_last {
            chars_of("\u{2514} ")
        } else {
            chars_of("\u{251c} ")
        };
        push_span(&mut row, &connector, fg_style(Color::DarkGray));
        match node.status {
            Some(status) => {
                let name_spans = highlight_matches(
                    node.name.as_str(),
                    search_term,
                    fg_style(status_color_exec(status)),
                    search_match_style(),
                );
                extend_row(&mut row, name_spans);
                extend_row(&mut row, count_spans(node.additions, node.deletions));
            },
            None => {
                let mut dir = chars_of(node.name.as_str());
                dir.push('/');
                let dir_name = string_of(&dir);
                proof {
                    assert(dir_name@ == node.name@ + "/"@) by {
                        reveal_strlit("/");
                    }
                }
                let name_spans = highlight_matches(
                    dir_name.as_str(),
                    search_term,
                    fg_style(Color::Blue),
                    search_match_style(),
                );
                extend_row(&mut row, name_spans);
            },
        }
        proof {
            lemma_nodes_view(node.children@);
            assert(row_view(row) =~= node_row(n, prefix@, search_term@, is_last));
        }
        let ghost r0 = rows_view(rows@);
        push_row(rows, row);
        if node.children.len() > 0 {
            let mut child_prefix = copy_chars(prefix);
            if is_last {
                extend_chars(&mut child_prefix, &chars_of("  "));
            } else {
                extend_chars(&mut child_prefix, &chars_of("\u{2502} "));
            }
            proof {
                assert(decreases_to!(nodes@ => nodes@[i as int]));
            }
            render_file_tree(&node.children, &child_prefix, rows, search_term);
        }
        proof {
            assert(rows_view(rows@) =~= r0 + node_rows(n, prefix@, search_term@, is_last));
            assert(tree_rows_from(nv, prefix@, search_term@, i as int) =~= node_rows(
                n,
                prefix@,
                search_term@,
                is_last,
            ) + tree_rows_from(nv, prefix@, search_term@, i + 1));
        }
        i += 1;
    }
}


// ---------------------------------------------------------------------------
// The details panel
// ---------------------------------------------------------------------------

/// A row as plain values.
pub type RowView = Seq<(Seq<char>, SpanStyle)>;

/// `n` spaces.
pub open spec fn spaces(n: nat) -> Seq<char> {
    Seq::new(n, |i: int| ' ')
}

/// One of the three top rows: a message line on the left (the subject in
/// bold), a line of metadata in grey at the right edge.
pub open spec fn header_row(msg: Seq<char>, meta: Seq<char>, first: bool, term: Seq<char>, width: int) -> RowView {
    let style = if first {
        SpanStyle { fg: None, bg: None, bold: true, underlined: false }
    } else {
        plain()
    };
    let used = msg.len() + meta.len() + 1;
    let pad = if width > used {
        width - used
    } else {
        0
    };
    highlight_spans(msg, term, style, search_match()) + seq![
        (spaces((if pad > 1 {
            pad
        } else {
            1
        }) as nat), plain()),
        (meta, fg(Color::DarkGray)),
    ]
}

/// The `i`-th line of the message, or nothing.
pub open spec fn msg_line(lines: Seq<Seq<char>>, i: int) -> Seq<char> {
    if 0 <= i < lines.len() {
        lines[i]
    } else {
        Seq::empty()
    }
}

/// The metadata of the top rows: the full id, the author, the date.
pub open spec fn meta_of(d: CommitDetails, datetime: Seq<char>) -> Seq<Seq<char>> {
    seq![hex_of(d.sha.bytes@), d.author_name@ + " <"@ + d.author_email@ + ">"@, datetime]
}

/// The added (or deleted) lines of the first `n` files, at most
/// `usize::MAX`.
pub open spec fn total_changes(files: Seq<FileChange>, n: int, added: bool) -> int
    decreases n,
{
    if n <= 0 {
        0
    } else {
        crate::details::saturated(
            total_changes(files, n - 1, added) + if added {
                files[n - 1].additions as int
            } else {
                files[n - 1].deletions as int
            },
        )
    }
}

/// The summary row: how many files changed, and the lines added and
/// deleted, on a grey band.
pub open spec fn summary_row(files: Seq<FileChange>) -> RowView {
    let count = files.len();
    let adds = total_changes(files, count as int, true);
    let dels = total_changes(files, count as int, false);
    let band = Some(Color::DarkGray);
    seq![(
        decimal(count) + " "@ + (if count == 1 {
            "file"@
        } else {
            "files"@
        }) + " changed  "@,
        SpanStyle { fg: Some(Color::White), bg: band, bold: true, underlined: false },
    )] + (if adds > 0 {
        seq![("+"@ + decimal(adds as nat), SpanStyle { fg: Some(Color::Green), bg: band, bold: true, underlined: false })]
    } else {
        Seq::empty()
    }) + (if dels > 0 {
        (if adds > 0 {
            seq![(" "@, SpanStyle { fg: None, bg: band, bold: false, underlined: false })]
        } else {
            Seq::empty()
        }) + seq![("-"@ + decimal(dels as nat), SpanStyle { fg: Some(Color::Red), bg: band, bold: true, underlined: false })]
    } else {
        Seq::empty()
    })
}

/// The rows above the file tree: the three top rows, the rest of the
/// message, a blank row and the summary.
pub open spec fn head_rows(d: CommitDetails, datetime: Seq<char>, term: Seq<char>, width: int) -> Seq<RowView> {
    let lines = crate::text::lines_of(d.message@);
    let meta = meta_of(d, datetime);
    seq![
        header_row(msg_line(lines, 0), meta[0], true, term, width),
        header_row(msg_line(lines, 1), meta[1], false, term, width),
        header_row(msg_line(lines, 2), meta[2], false, term, width),
    ] + (if lines.len() > 3 {
        lines.skip(3).map_values(|l: Seq<char>| highlight_spans(l, term, plain(), search_match()))
    } else {
        Seq::empty()
    }) + seq![Seq::empty(), summary_row(d.files@)]
}

/// A number right-aligned in four columns.
pub open spec fn pad4(s: Seq<char>) -> Seq<char> {
    if s.len() < 4 {
        spaces((4 - s.len()) as nat) + s
    } else {
        s
    }
}

/// The gutter of a diff line: its origin, its line number right-aligned
/// in four columns (blank without one), a space.
pub open spec fn line_prefix(d: DiffLine) -> Seq<char> {
    seq![d.origin] + match d.new_line_no {
        Some(n) => pad4(decimal(n as nat)),
        None => "    "@,
    } + " "@
}

/// The text of highlighted pieces, run together.
pub open spec fn code_text(hl: Seq<(SyntaxStyle, Seq<char>)>) -> Seq<char>
    decreases hl.len(),
{
    if hl.len() == 0 {
        Seq::empty()
    } else {
        code_text(hl.drop_last()) + hl.last().1
    }
}

/// The style of a piece of code: the search highlight on a matching piece
/// of a line that matches, else its syntax colour on the line's
/// background.
pub open spec fn piece_style(p: (SyntaxStyle, Seq<char>), line_match: bool, term: Seq<char>, bg: Option<Color>) -> SpanStyle {
    if line_match && crate::text::occurs_in(lowercase(p.1), lowercase(term)) {
        search_match()
    } else {
        match bg {
            Some(c) => SpanStyle { bg: Some(c), ..code_style(p.0) },
            None => code_style(p.0),
        }
    }
}

/// The pieces of a highlighted diff line, styled.
pub open spec fn code_pieces(hl: Seq<(SyntaxStyle, Seq<char>)>, term: Seq<char>, bg: Option<Color>) -> RowView {
    let line_match = term.len() > 0 && crate::text::occurs_in(lowercase(code_text(hl)), lowercase(term));
    hl.map_values(|p: (SyntaxStyle, Seq<char>)| (p.1, piece_style(p, line_match, term, bg)))
}

/// The rows of a diff line: its gutter and its highlighted code, wrapped
/// at the panel's width (the gutter takes six columns).
pub open spec fn diff_line_rows(d: DiffLine, hl: Seq<(SyntaxStyle, Seq<char>)>, term: Seq<char>, width: int) -> Seq<RowView> {
    let (ps, bg) = diff_line_look(d.origin);
    wrapped_rows(
        (line_prefix(d), ps),
        code_pieces(hl, term, bg),
        if width > 6 {
            width - 6
        } else {
            0
        },
        ("      "@, ps),
    )
}

/// The highlighting of the `i`-th code line of a file, or none.
pub open spec fn cached_at(cached: Seq<Seq<(SyntaxStyle, Seq<char>)>>, i: int) -> Seq<(SyntaxStyle, Seq<char>)> {
    if 0 <= i < cached.len() {
        cached[i]
    } else {
        Seq::empty()
    }
}

/// The rows of the first `m` lines of a hunk whose first line is the
/// `base`-th code line of its file.
pub open spec fn lines_rows(
    lines: Seq<DiffLine>,
    cached: Seq<Seq<(SyntaxStyle, Seq<char>)>>,
    base: int,
    term: Seq<char>,
    width: int,
    m: int,
) -> Seq<RowView>
    decreases m,
{
    if m <= 0 {
        Seq::empty()
    } else {
        lines_rows(lines, cached, base, term, width, m - 1) + diff_line_rows(
            lines[m - 1],
            cached_at(cached, crate::details::saturated(base + m - 1)),
            term,
            width,
        )
    }
}

/// The code lines of the first `k` hunks.
pub open spec fn lines_before(hunks: Seq<Hunk>, k: int) -> int
    decreases k,
{
    if k <= 0 {
        0
    } else {
        lines_before(hunks, k - 1) + hunks[k - 1].lines@.len()
    }
}

/// The rows of the first `n` hunks of a file, a blank row between each two.
pub open spec fn hunks_rows(
    hunks: Seq<Hunk>,
    cached: Seq<Seq<(SyntaxStyle, Seq<char>)>>,
    term: Seq<char>,
    width: int,
    n: int,
) -> Seq<RowView>
    decreases n,
{
    if n <= 0 {
        Seq::empty()
    } else {
        hunks_rows(hunks, cached, term, width, n - 1) + (if n > 1 {
            seq![Seq::empty()]
        } else {
            Seq::empty()
        }) + lines_rows(
            hunks[n - 1].lines@,
            cached,
            lines_before(hunks, n - 1),
            term,
            width,
            hunks[n - 1].lines@.len() as int,
        )
    }
}

/// The style of a file's header row.
pub open spec fn file_header_style() -> SpanStyle {
    SpanStyle { fg: Some(Color::White), bg: Some(Color::DarkGray), bold: true, underlined: false }
}

/// The rows of a file's diff: its path on a grey band, its hunks, a blank
/// row; none for a file without hunks.
pub open spec fn file_rows(f: FileChange, cached: Seq<Seq<(SyntaxStyle, Seq<char>)>>, term: Seq<char>, width: int) -> Seq<RowView> {
    if f.hunks@.len() == 0 {
        Seq::empty()
    } else {
        seq![highlight_spans(f.path@, term, file_header_style(), search_match())] + hunks_rows(
            f.hunks@,
            cached,
            term,
            width,
            f.hunks@.len() as int,
        ) + seq![Seq::empty()]
    }
}

/// The highlighting of the `i`-th file, or none.
pub open spec fn file_cache(cache: Option<Seq<Seq<Seq<(SyntaxStyle, Seq<char>)>>>>, i: int) -> Seq<Seq<(SyntaxStyle, Seq<char>)>> {
    match cache {
        Some(c) => if 0 <= i < c.len() {
            c[i]
        } else {
            Seq::empty()
        },
        None => Seq::empty(),
    }
}

/// The rows of the diffs of the first `n` files.
pub open spec fn diff_rows_upto(
    files: Seq<FileChange>,
    cache: Option<Seq<Seq<Seq<(SyntaxStyle, Seq<char>)>>>>,
    term: Seq<char>,
    width: int,
    n: int,
) -> Seq<RowView>
    decreases n,
{
    if n <= 0 {
        Seq::empty()
    } else {
        diff_rows_upto(files, cache, term, width, n - 1) + file_rows(
            files[n - 1],
            file_cache(cache, n - 1),
            term,
            width,
        )
    }
}

/// Every row of the details panel, in order: the head, the file tree, a
/// blank row and the diffs; `datetime` is the date shown.
pub open spec fn details_rows(
    d: CommitDetails,
    cache: Option<Seq<Seq<Seq<(SyntaxStyle, Seq<char>)>>>>,
    term: Seq<char>,
    width: int,
    datetime: Seq<char>,
) -> Seq<RowView> {
    head_rows(d, datetime, term, width) + tree_rows_from(
        crate::file_tree::file_tree(d.files@),
        Seq::empty(),
        term,
        0,
    ) + seq![Seq::empty()] + diff_rows_upto(d.files@, cache, term, width, d.files@.len() as int)
}

/// The highlighting of a commit's files as plain values.
pub open spec fn owned_cache_view(c: Option<HighlightCache>) -> Option<Seq<Seq<Seq<(SyntaxStyle, Seq<char>)>>>> {
    match c {
        Some(c) => Some(c.files@.map_values(|f: crate::highlight::HighlightedFile| styled_lines(f.lines@))),
        None => None,
    }
}

/// The highlighting of a commit's files as plain values.
pub open spec fn cache_view(c: Option<&HighlightCache>) -> Option<Seq<Seq<Seq<(SyntaxStyle, Seq<char>)>>>> {
    match c {
        Some(c) => Some(c.files@.map_values(|f: crate::highlight::HighlightedFile| styled_lines(f.lines@))),
        None => None,
    }
}


/// `n` spaces.
pub(crate) fn spaces_exec(n: usize) -> (r: Vec<char>)
    ensures
        r@ == spaces(n as nat),
{
    let mut r: Vec<char> = Vec::new();
    let mut k: usize = 0;
    while k < n
        invariant
            k <= n,
            r@ == spaces(k as nat),
        decreases n - k,
    {
        r.push(' ');
        proof {
            assert(r@ =~= spaces((k + 1) as nat));
        }
        k += 1;
    }
    r
}

fn header_row_exec(msg: &Vec<char>, meta: &Vec<char>, first: bool, term: &str, width: u16) -> (r: Vec<Span>)
    ensures
        row_view(r) == header_row(msg@, meta@, first, term@, width as int),
{
    let style = if first {
        SpanStyle { fg: None, bg: None, bold: true, underlined: false }
    } else {
        plain_style()
    };
    let mut row = highlight_matches(string_of(msg).as_str(), term, style, search_match_style());
    let used = msg.len().saturating_add(meta.len()).saturating_add(1);
    let w = width as usize;
    let pad = w.saturating_sub(used);
    let pad = if pad > 1 {
        pad
    } else {
        1
    };
    push_span(&mut row, &spaces_exec(pad), plain_style());
    push_span(&mut row, meta, fg_style(Color::DarkGray));
    proof {
        assert(row_view(row) =~= header_row(msg@, meta@, first, term@, width as int));
    }
    row
}

/// The added (or deleted) lines of all files, at most `usize::MAX`.
fn total_changes_exec(files: &Vec<FileChange>, added: bool) -> (r: usize)
    ensures
        r as int == total_changes(files@, files@.len() as int, added),
{
    let mut r: usize = 0;
    let mut k: usize = 0;
    while k < files.len()
        invariant
            k <= files.len(),
            r as int == total_changes(files@, k as int, added),
        decreases files.len() - k,
    {
        let n = if added {
            files[k].additions
        } else {
            files[k].deletions
        };
        r = r.saturating_add(n);
        k += 1;
    }
    r
}

fn number_text(sign: &str, n: usize) -> (r: Vec<char>)
    ensures
        r@ == sign@ + decimal(n as nat),
{
    let mut t = chars_of(sign);
    extend_chars(&mut t, &decimal_chars(n as u64));
    t
}

fn summary_row_exec(files: &Vec<FileChange>) -> (r: Vec<Span>)
    ensures
        row_view(r) == summary_row(files@),
{
    let count = files.len();
    let adds = total_changes_exec(files, true);
    let dels = total_changes_exec(files, false);
    let band = Some(Color::DarkGray);
    let mut text = decimal_chars(count as u64);
    extend_chars(&mut text, &chars_of(" "));
    extend_chars(
        &mut text,
        &chars_of(
            if count == 1 {
                "file"
            } else {
                "files"
            },
        ),
    );
    extend_chars(&mut text, &chars_of(" changed  "));
    let mut row: Vec<Span> = Vec::new();
    proof {
        assert(row_view(row) =~= Seq::<(Seq<char>, SpanStyle)>::empty());
    }
    push_span(&mut row, &text, SpanStyle { fg: Some(Color::White), bg: band, bold: true, underlined: false });
    if adds > 0 {
        push_span(&mut row, &number_text("+", adds), SpanStyle { fg: Some(Color::Green), bg: band, bold: true, underlined: false });
    }
    if dels > 0 {
        if adds > 0 {
            push_span(&mut row, &chars_of(" "), SpanStyle { fg: None, bg: band, bold: false, underlined: false });
        }
        push_span(&mut row, &number_text("-", dels), SpanStyle { fg: Some(Color::Red), bg: band, bold: true, underlined: false });
    }
    proof {
        assert(row_view(row) =~= summary_row(files@));
    }
    row
}

fn head_rows_exec(d: &CommitDetails, datetime: &Vec<char>, term: &str, width: u16) -> (r: Vec<Vec<Span>>)
    ensures
        rows_view(r@) == head_rows(*d, datetime@, term@, width as int),
{
    let lines = crate::text::split_lines(&chars_of(d.message.as_str()));
    let ghost lv = lines.deep_view();
    let mut meta0 = d.sha.hex();
    let mut meta1 = chars_of(d.author_name.as_str());
    extend_chars(&mut meta1, &chars_of(" <"));
    extend_chars(&mut meta1, &chars_of(d.author_email.as_str()));
    extend_chars(&mut meta1, &chars_of(">"));
    let ghost meta = meta_of(*d, datetime@);
    let mut rows: Vec<Vec<Span>> = Vec::new();
    proof {
        assert(rows_view(rows@) =~= Seq::<RowView>::empty());
    }
    let mut i: usize = 0;
    while i < 3
        invariant
            i <= 3,
            lv == lines.deep_view(),
            lv == crate::text::lines_of(d.message@),
            meta == meta_of(*d, datetime@),
            meta0@ == meta[0],
            meta1@ == meta[1],
            rows_view(rows@) == seq![
                header_row(msg_line(lv, 0), meta[0], true, term@, width as int),
                header_row(msg_line(lv, 1), meta[1], false, term@, width as int),
                header_row(msg_line(lv, 2), meta[2], false, term@, width as int),
            ].take(i as int),
        decreases 3 - i,
    {
        let msg = if i < lines.len() {
            proof {
                crate::complete::lemma_deep_index(lines, i as int);
            }
            copy_chars(&lines[i])
        } else {
            Vec::new()
        };
        proof {
            assert(msg@ =~= msg_line(lv, i as int));
        }
        let row = if i == 0 {
            header_row_exec(&msg, &meta0, true, term, width)
        } else if i == 1 {
            header_row_exec(&msg, &meta1, false, term, width)
        } else {
            header_row_exec(&msg, datetime, false, term, width)
        };
        let ghost before = rows_view(rows@);
        push_row(&mut rows, row);
        proof {
            assert(rows_view(rows@) =~= seq![
                header_row(msg_line(lv, 0), meta[0], true, term@, width as int),
                header_row(msg_line(lv, 1), meta[1], false, term@, width as int),
                header_row(msg_line(lv, 2), meta[2], false, term@, width as int),
            ].take(i + 1));
        }
        i += 1;
    }
    let ghost top = rows_view(rows@);
    let ghost rest = if lv.len() > 3 {
        lv.skip(3).map_values(|l: Seq<char>| highlight_spans(l, term@, plain(), search_match()))
    } else {
        Seq::empty()
    };
    let mut k: usize = 3;
    while k < lines.len()
        invariant
            3 <= k,
            lv == lines.deep_view(),
            k <= lines@.len() || (lines@.len() <= 3 && k == 3),
            rows_view(rows@) == top + (if lv.len() > 3 {
                lv.subrange(3, k as int).map_values(
                    |l: Seq<char>| highlight_spans(l, term@, plain(), search_match()),
                )
            } else {
                Seq::empty()
            }),
        decreases lines.len() - k,
    {
        proof {
            crate::complete::lemma_deep_index(lines, k as int);
        }
        let row = highlight_matches(string_of(&lines[k]).as_str(), term, plain_style(), search_match_style());
        push_row(&mut rows, row);
        proof {
            assert(lv.subrange(3, k + 1) =~= lv.subrange(3, k as int).push(lv[k as int]));
            assert(rows_view(rows@) =~= top + lv.subrange(3, k + 1).map_values(
                |l: Seq<char>| highlight_spans(l, term@, plain(), search_match()),
            ));
        }
        k += 1;
    }
    proof {
        if lv.len() > 3 {
            assert(lv.subrange(3, lv.len() as int) =~= lv.skip(3));
        }
        assert(rows_view(rows@) == top + rest);
    }
    let blank: Vec<Span> = Vec::new();
    proof {
        assert(row_view(blank) =~= Seq::<(Seq<char>, SpanStyle)>::empty());
    }
    push_row(&mut rows, blank);
    push_row(&mut rows, summary_row_exec(&d.files));
    proof {
        assert(rows_view(rows@) =~= head_rows(*d, datetime@, term@, width as int));
    }
    rows
}


pub(crate) fn line_prefix_exec(d: &DiffLine) -> (r: Vec<char>)
    ensures
        r@ == line_prefix(*d),
{
    let mut v: Vec<char> = Vec::new();
    v.push(d.origin);
    match d.new_line_no {
        Some(n) => {
            let digits = decimal_chars(n as u64);
            if digits.len() < 4 {
                extend_chars(&mut v, &spaces_exec(4 - digits.len()));
            }
            extend_chars(&mut v, &digits);
        },
        None => {
            extend_chars(&mut v, &chars_of("    "));
        },
    }
    extend_chars(&mut v, &chars_of(" "));
    proof {
        assert(v@ =~= line_prefix(*d));
    }
    v
}

fn code_text_exec(hl: &Vec<(SyntaxStyle, String)>) -> (r: Vec<char>)
    ensures
        r@ == code_text(styled_line(*hl)),
{
    let ghost sv = styled_line(*hl);
    let mut r: Vec<char> = Vec::new();
    let mut k: usize = 0;
    while k < hl.len()
        invariant
            k <= hl@.len(),
            sv == styled_line(*hl),
            r@ == code_text(sv.take(k as int)),
        decreases hl@.len() - k,
    {
        extend_chars(&mut r, &chars_of(hl[k].1.as_str()));
        proof {
            assert(sv.take(k + 1).drop_last() =~= sv.take(k as int));
        }
        k += 1;
    }
    proof {
        assert(sv.take(sv.len() as int) =~= sv);
    }
    r
}

pub(crate) fn code_pieces_exec(hl: &Vec<(SyntaxStyle, String)>, term: &str, bg: Option<Color>) -> (r: Vec<(Vec<char>, SpanStyle)>)
    ensures
        pieces_view(r@) == code_pieces(styled_line(*hl), term@, bg),
{
    let ghost sv = styled_line(*hl);
    let t = chars_of(term);
    let lt = lower_chars(&t);
    let line_match = t.len() > 0 && crate::text::contains(&lower_chars(&code_text_exec(hl)), &lt);
    let mut r: Vec<(Vec<char>, SpanStyle)> = Vec::new();
    let mut k: usize = 0;
    while k < hl.len()
        invariant
            k <= hl@.len(),
            sv == styled_line(*hl),
            lt@ == lowercase(term@),
            line_match == (term@.len() > 0 && crate::text::occurs_in(lowercase(code_text(sv)), lowercase(term@))),
            pieces_view(r@) == code_pieces(sv, term@, bg).take(k as int),
        decreases hl@.len() - k,
    {
        let text = chars_of(hl[k].1.as_str());
        let base = syntect_to_ratatui_style(&hl[k].0);
        let style = if line_match && crate::text::contains(&lower_chars(&text), &lt) {
            search_match_style()
        } else {
            match bg {
                Some(c) => SpanStyle { bg: Some(c), ..base },
                None => base,
            }
        };
        let ghost before = r@;
        r.push((text, style));
        proof {
            assert(pieces_view(r@) =~= pieces_view(before).push(code_pieces(sv, term@, bg)[k as int]));
            assert(code_pieces(sv, term@, bg).take(k + 1) =~= code_pieces(sv, term@, bg).take(k as int).push(
                code_pieces(sv, term@, bg)[k as int],
            ));
        }
        k += 1;
    }
    proof {
        assert(code_pieces(sv, term@, bg).take(sv.len() as int) =~= code_pieces(sv, term@, bg));
    }
    r
}

fn diff_line_rows_exec(d: &DiffLine, hl: &Vec<(SyntaxStyle, String)>, term: &str, width: u16) -> (r: Vec<Vec<Span>>)
    ensures
        rows_view(r@) == diff_line_rows(*d, styled_line(*hl), term@, width as int),
{
    let (ps, bg) = diff_line_style(d.origin);
    let prefix = line_prefix_exec(d);
    let pieces = code_pieces_exec(hl, term, bg);
    let cw = (width as usize).saturating_sub(6);
    wrap_line(&prefix, ps, &pieces, cw, &chars_of("      "))
}

/// The highlighting of the `i`-th code line, or none.
pub(crate) fn cached_line<'a>(cached: &'a Vec<Vec<(SyntaxStyle, String)>>, i: usize, none: &'a Vec<(SyntaxStyle, String)>) -> (r: &'a Vec<(SyntaxStyle, String)>)
    requires
        none@.len() == 0,
    ensures
        styled_line(*r) == cached_at(styled_lines(cached@), i as int),
{
    if i < cached.len() {
        &cached[i]
    } else {
        proof {
            assert(styled_line(*none) =~= Seq::<(SyntaxStyle, Seq<char>)>::empty());
        }
        none
    }
}

fn file_rows_exec(f: &FileChange, cached: &Vec<Vec<(SyntaxStyle, String)>>, term: &str, width: u16) -> (r: Vec<Vec<Span>>)
    ensures
        rows_view(r@) == file_rows(*f, styled_lines(cached@), term@, width as int),
{
    let ghost cv = styled_lines(cached@);
    let mut rows: Vec<Vec<Span>> = Vec::new();
    proof {
        assert(rows_view(rows@) =~= Seq::<RowView>::empty());
    }
    if f.hunks.len() == 0 {
        return rows;
    }
    let none: Vec<(SyntaxStyle, String)> = Vec::new();
    push_row(&mut rows, highlight_matches(f.path.as_str(), term, SpanStyle { fg: Some(Color::White), bg: Some(Color::DarkGray), bold: true, underlined: false }, search_match_style()));
    let ghost top = rows_view(rows@);
    let mut h: usize = 0;
    let mut idx: usize = 0;
    while h < f.hunks.len()
        invariant
            h <= f.hunks@.len(),
            none@.len() == 0,
            cv == styled_lines(cached@),
            idx as int == crate::details::saturated(lines_before(f.hunks@, h as int)),
            lines_before(f.hunks@, h as int) >= 0,
            rows_view(rows@) == top + hunks_rows(f.hunks@, cv, term@, width as int, h as int),
        decreases f.hunks@.len() - h,
    {
        if h > 0 {
            let blank: Vec<Span> = Vec::new();
            proof {
                assert(row_view(blank) =~= Seq::<(Seq<char>, SpanStyle)>::empty());
            }
            push_row(&mut rows, blank);
        }
        let ghost mid = rows_view(rows@);
        let lines = &f.hunks[h].lines;
        let mut j: usize = 0;
        while j < lines.len()
            invariant
                j <= lines@.len(),
                lines@ == f.hunks@[h as int].lines@,
                none@.len() == 0,
                cv == styled_lines(cached@),
                idx as int == crate::details::saturated(lines_before(f.hunks@, h as int) + j),
                lines_before(f.hunks@, h as int) >= 0,
                rows_view(rows@) == mid + lines_rows(lines@, cv, lines_before(f.hunks@, h as int), term@, width as int, j as int),
            decreases lines@.len() - j,
        {
            let hl = cached_line(cached, idx, &none);
            let more = diff_line_rows_exec(&lines[j], hl, term, width);
            append_rows(&mut rows, more);
            proof {
                assert(rows_view(rows@) =~= mid + lines_rows(lines@, cv, lines_before(f.hunks@, h as int), term@, width as int, j + 1));
            }
            idx = idx.saturating_add(1);
            j += 1;
        }
        proof {
            assert(rows_view(rows@) =~= top + hunks_rows(f.hunks@, cv, term@, width as int, h + 1));
        }
        h += 1;
    }
    let blank: Vec<Span> = Vec::new();
    proof {
        assert(row_view(blank) =~= Seq::<(Seq<char>, SpanStyle)>::empty());
    }
    push_row(&mut rows, blank);
    proof {
        assert(rows_view(rows@) =~= file_rows(*f, cv, term@, width as int));
    }
    rows
}


/// Where a file's header row is, for the header that stays at the top
/// while its diff scrolls.
pub struct FileSection {
    pub header_line_idx: usize,
    pub header_text: String,
}

/// The header rows of the first `n` files with hunks: where each is
/// (counting from `start`, the first diff row) and the file's path.
pub open spec fn sections_upto(
    files: Seq<FileChange>,
    cache: Option<Seq<Seq<Seq<(SyntaxStyle, Seq<char>)>>>>,
    term: Seq<char>,
    width: int,
    start: int,
    n: int,
) -> Seq<(int, Seq<char>)>
    decreases n,
{
    if n <= 0 {
        Seq::empty()
    } else {
        sections_upto(files, cache, term, width, start, n - 1) + if files[n - 1].hunks@.len() > 0 {
            seq![(start + diff_rows_upto(files, cache, term, width, n - 1).len(), files[n - 1].path@)]
        } else {
            Seq::empty()
        }
    }
}

/// The rows above the diffs.
pub open spec fn rows_before_diffs(
    d: CommitDetails,
    term: Seq<char>,
    width: int,
    datetime: Seq<char>,
) -> Seq<RowView> {
    head_rows(d, datetime, term, width) + tree_rows_from(
        crate::file_tree::file_tree(d.files@),
        Seq::empty(),
        term,
        0,
    ) + seq![Seq::empty()]
}

/// The header rows of the files of the details panel.
pub open spec fn details_sections(
    d: CommitDetails,
    cache: Option<Seq<Seq<Seq<(SyntaxStyle, Seq<char>)>>>>,
    term: Seq<char>,
    width: int,
    datetime: Seq<char>,
) -> Seq<(int, Seq<char>)> {
    sections_upto(
        d.files@,
        cache,
        term,
        width,
        rows_before_diffs(d, term, width, datetime).len() as int,
        d.files@.len() as int,
    )
}

/// Sections as plain values.
pub open spec fn sections_view(s: Seq<FileSection>) -> Seq<(int, Seq<char>)> {
    s.map_values(|f: FileSection| (f.header_line_idx as int, f.header_text@))
}

/// The rows and sections of the details panel, the date shown being
/// `datetime`.
pub fn details_rows_exec(
    details: &CommitDetails,
    cache: Option<&HighlightCache>,
    search_term: &str,
    width: u16,
    datetime: &Vec<char>,
) -> (r: (Vec<Vec<Span>>, Vec<FileSection>))
    ensures
        rows_view(r.0@) == details_rows(*details, cache_view(cache), search_term@, width as int, datetime@),
        sections_view(r.1@) == details_sections(*details, cache_view(cache), search_term@, width as int, datetime@),
{
    let ghost cv = cache_view(cache);
    let mut rows = head_rows_exec(details, datetime, search_term, width);
    let tree = crate::file_tree::build_file_tree(&details.files);
    let no_prefix: Vec<char> = Vec::new();
    render_file_tree(&tree, &no_prefix, &mut rows, search_term);
    let blank: Vec<Span> = Vec::new();
    proof {
        assert(row_view(blank) =~= Seq::<(Seq<char>, SpanStyle)>::empty());
        assert(no_prefix@ =~= Seq::<char>::empty());
    }
    push_row(&mut rows, blank);
    let ghost top = rows_view(rows@);
    proof {
        assert(top =~= rows_before_diffs(*details, search_term@, width as int, datetime@));
    }
    let none_file: Vec<Vec<(SyntaxStyle, String)>> = Vec::new();
    let mut sections: Vec<FileSection> = Vec::new();
    proof {
        assert(sections_view(sections@) =~= Seq::<(int, Seq<char>)>::empty());
    }
    let mut i: usize = 0;
    while i < details.files.len()
        invariant
            i <= details.files@.len(),
            none_file@.len() == 0,
            cv == cache_view(cache),
            top == rows_before_diffs(*details, search_term@, width as int, datetime@),
            rows_view(rows@) == top + diff_rows_upto(details.files@, cv, search_term@, width as int, i as int),
            sections_view(sections@) == sections_upto(details.files@, cv, search_term@, width as int, top.len() as int, i as int),
        decreases details.files@.len() - i,
    {
        let file = &details.files[i];
        let cached = match cache {
            Some(c) => if i < c.files.len() {
                &c.files[i].lines
            } else {
                &none_file
            },
            None => &none_file,
        };
        proof {
            assert(styled_lines(none_file@) =~= Seq::<Seq<(SyntaxStyle, Seq<char>)>>::empty());
            assert(styled_lines(cached@) == file_cache(cv, i as int));
        }
        if file.hunks.len() > 0 {
            let ghost before = sections_view(sections@);
            let at = rows.len();
            sections.push(FileSection { header_line_idx: at, header_text: crate::text::copy_string(&file.path) });
            proof {
                assert(sections_view(sections@) =~= before.push((at as int, file.path@)));
            }
        }
        let more = file_rows_exec(file, cached, search_term, width);
        append_rows(&mut rows, more);
        proof {
            assert(rows_view(rows@) =~= top + diff_rows_upto(details.files@, cv, search_term@, width as int, i + 1));
            assert(sections_view(sections@) =~= sections_upto(details.files@, cv, search_term@, width as int, top.len() as int, i + 1));
        }
        i += 1;
    }
    proof {
        assert(rows_view(rows@) =~= details_rows(*details, cv, search_term@, width as int, datetime@));
    }
    (rows, sections)
}

/// Every row the details panel will draw, in render order, with where the
/// file headers are. The date shown is the commit's, in the local time
/// zone.
pub fn details_lines(
    details: &CommitDetails,
    highlight_cache: Option<&HighlightCache>,
    search_term: &str,
    width: u16,
) -> (r: (Vec<Vec<Span>>, Vec<FileSection>))
    ensures
        exists|datetime: Seq<char>|
            rows_view(r.0@) == details_rows(*details, cache_view(highlight_cache), search_term@, width as int, datetime)
                && sections_view(r.1@) == details_sections(*details, cache_view(highlight_cache), search_term@, width as int, datetime),
{
    let mut datetime = chars_of(crate::utils::format_date(details.timestamp).as_str());
    extend_chars(&mut datetime, &chars_of(" "));
    extend_chars(&mut datetime, &chars_of(crate::utils::format_time(details.timestamp).as_str()));
    details_rows_exec(details, highlight_cache, search_term, width, &datetime)
}

/// Whether a row holds a piece painted as a search match.
pub open spec fn has_search_match(row: RowView) -> bool {
    exists|j: int| 0 <= j < row.len() && (#[trigger] row[j]).1 == search_match()
}

/// The rows among the first `n` that hold a search match.
pub open spec fn match_rows(rows: Seq<RowView>, n: int) -> Seq<int>
    decreases n,
{
    if n <= 0 {
        Seq::empty()
    } else {
        match_rows(rows, n - 1) + if has_search_match(rows[n - 1]) {
            seq![n - 1]
        } else {
            Seq::empty()
        }
    }
}

/// The rows of the details panel that show a match of the search term;
/// none without a term. They do not depend on the date shown.
pub open spec fn details_match_rows(
    d: CommitDetails,
    cache: Option<Seq<Seq<Seq<(SyntaxStyle, Seq<char>)>>>>,
    term: Seq<char>,
    width: int,
) -> Seq<int> {
    if term.len() == 0 {
        Seq::empty()
    } else {
        let rows = details_rows(d, cache, term, width, Seq::empty());
        match_rows(rows, rows.len() as int)
    }
}

proof fn lemma_match_rows_congruent(a: Seq<RowView>, b: Seq<RowView>, n: int)
    requires
        0 <= n <= a.len(),
        a.len() == b.len(),
        forall|i: int| 0 <= i < a.len() ==> has_search_match(#[trigger] a[i]) == has_search_match(b[i]),
    ensures
        match_rows(a, n) == match_rows(b, n),
    decreases n,
{
    if n > 0 {
        lemma_match_rows_congruent(a, b, n - 1);
    }
}

proof fn lemma_header_match(msg: Seq<char>, meta: Seq<char>, first: bool, term: Seq<char>, width: int)
    ensures
        has_search_match(header_row(msg, meta, first, term, width)) == has_search_match(
            highlight_spans(
                msg,
                term,
                if first {
                    SpanStyle { fg: None, bg: None, bold: true, underlined: false }
                } else {
                    plain()
                },
                search_match(),
            ),
        ),
{
    let style = if first {
        SpanStyle { fg: None, bg: None, bold: true, underlined: false }
    } else {
        plain()
    };
    let hs = highlight_spans(msg, term, style, search_match());
    let row = header_row(msg, meta, first, term, width);
    assert(row.len() == hs.len() + 2);
    if has_search_match(row) {
        let j = choose|j: int| 0 <= j < row.len() && (#[trigger] row[j]).1 == search_match();
        assert(j < hs.len());
        assert(hs[j] == row[j]);
    }
    if has_search_match(hs) {
        let j = choose|j: int| 0 <= j < hs.len() && (#[trigger] hs[j]).1 == search_match();
        assert(row[j] == hs[j]);
    }
}

/// The rows of the details panel are as many, and match the search term
/// in the same places, whatever date it shows.
pub proof fn lemma_rows_independent_of_date(
    d: CommitDetails,
    cache: Option<Seq<Seq<Seq<(SyntaxStyle, Seq<char>)>>>>,
    term: Seq<char>,
    width: int,
    dt1: Seq<char>,
    dt2: Seq<char>,
)
    ensures
        details_rows(d, cache, term, width, dt1).len() == details_rows(d, cache, term, width, dt2).len(),
        match_rows(details_rows(d, cache, term, width, dt1), details_rows(d, cache, term, width, dt1).len() as int)
            == match_rows(details_rows(d, cache, term, width, dt2), details_rows(d, cache, term, width, dt2).len() as int),
        details_sections(d, cache, term, width, dt1) == details_sections(d, cache, term, width, dt2),
{
    let a = details_rows(d, cache, term, width, dt1);
    let b = details_rows(d, cache, term, width, dt2);
    let lines = crate::text::lines_of(d.message@);
    let m1 = meta_of(d, dt1);
    let m2 = meta_of(d, dt2);
    assert(a.len() == b.len());
    assert forall|i: int| 0 <= i < a.len() implies has_search_match(#[trigger] a[i]) == has_search_match(b[i]) by {
        if i < 3 {
            lemma_header_match(msg_line(lines, i), m1[i], i == 0, term, width);
            lemma_header_match(msg_line(lines, i), m2[i], i == 0, term, width);
        } else {
            assert(a[i] == b[i]);
        }
    }
    lemma_match_rows_congruent(a, b, a.len() as int);
    assert(rows_before_diffs(d, term, width, dt1).len() == rows_before_diffs(d, term, width, dt2).len());
}

/// The number of rows the details panel draws for a commit at the given
/// panel width. Counted from the rows themselves, so long diff lines that
/// wrap and the blank line under each file are included.
pub fn details_content_height(
    details: &CommitDetails,
    highlight_cache: Option<&HighlightCache>,
    search_term: &str,
    width: u16,
) -> (r: usize)
    ensures
        r == details_rows(*details, cache_view(highlight_cache), search_term@, width as int, Seq::empty()).len(),
{
    let (rows, _sections) = details_lines(details, highlight_cache, search_term, width);
    proof {
        let dt = choose|datetime: Seq<char>|
            rows_view(rows@) == details_rows(*details, cache_view(highlight_cache), search_term@, width as int, datetime)
                && sections_view(_sections@) == details_sections(*details, cache_view(highlight_cache), search_term@, width as int, datetime);
        lemma_rows_independent_of_date(*details, cache_view(highlight_cache), search_term@, width as int, dt, Seq::empty());
    }
    rows.len()
}

/// Which rows of the details panel hold a search match. A row counts as a
/// match when the panel painted one on it, so `n` and `N` land on the
/// highlights you can see.
pub fn details_match_lines(
    details: &CommitDetails,
    highlight_cache: Option<&HighlightCache>,
    search_term: &str,
    width: u16,
) -> (r: Vec<usize>)
    ensures
        r@.map_values(|x: usize| x as int) == details_match_rows(*details, cache_view(highlight_cache), search_term@, width as int),
{
    let mut r: Vec<usize> = Vec::new();
    if chars_of(search_term).len() == 0 {
        proof {
            assert(r@.map_values(|x: usize| x as int) =~= Seq::<int>::empty());
        }
        return r;
    }
    let (rows, _sections) = details_lines(details, highlight_cache, search_term, width);
    let ghost rv = rows_view(rows@);
    proof {
        let dt = choose|datetime: Seq<char>|
            rows_view(rows@) == details_rows(*details, cache_view(highlight_cache), search_term@, width as int, datetime)
                && sections_view(_sections@) == details_sections(*details, cache_view(highlight_cache), search_term@, width as int, datetime);
        lemma_rows_independent_of_date(*details, cache_view(highlight_cache), search_term@, width as int, dt, Seq::empty());
        assert(r@.map_values(|x: usize| x as int) =~= match_rows(rv, 0));
    }
    let hl = search_match_style();
    let mut i: usize = 0;
    while i < rows.len()
        invariant
            i <= rows@.len(),
            rv == rows_view(rows@),
            hl == search_match(),
            r@.map_values(|x: usize| x as int) == match_rows(rv, i as int),
        decreases rows@.len() - i,
    {
        let row = &rows[i];
        let mut found = false;
        let mut j: usize = 0;
        while j < row.len()
            invariant
                j <= row@.len(),
                row_view(*row) == rv[i as int],
                hl == search_match(),
                found == exists|k: int| 0 <= k < j && (#[trigger] rv[i as int][k]).1 == search_match(),
            decreases row@.len() - j,
        {
            if row[j].style == hl {
                found = true;
            }
            proof {
                assert(rv[i as int][j as int] == span_view(row@[j as int]));
            }
            j += 1;
        }
        let ghost before = r@.map_values(|x: usize| x as int);
        if found {
            r.push(i);
        }
        proof {
            assert(r@.map_values(|x: usize| x as int) =~= match_rows(rv, i + 1));
        }
        i += 1;
    }
    r
}


// ---------------------------------------------------------------------------
// Laws
// ---------------------------------------------------------------------------

/// The text of a row, piece after piece.
pub open spec fn row_text(row: RowView) -> Seq<char>
    decreases row.len(),
{
    if row.len() == 0 {
        Seq::empty()
    } else {
        row_text(row.drop_last()) + row.last().0
    }
}

proof fn lemma_row_text_single(p: (Seq<char>, SpanStyle))
    ensures
        row_text(seq![p]) == p.0,
{
    let e = Seq::<(Seq<char>, SpanStyle)>::empty();
    assert(seq![p].drop_last() =~= e);
    assert(row_text(e) == Seq::<char>::empty());
    assert(Seq::<char>::empty() + p.0 =~= p.0);
}

pub(crate) proof fn lemma_row_text_concat(a: RowView, b: RowView)
    ensures
        row_text(a + b) == row_text(a) + row_text(b),
    decreases b.len(),
{
    if b.len() == 0 {
        assert(a + b =~= a);
    } else {
        lemma_row_text_concat(a, b.drop_last());
        assert((a + b).drop_last() =~= a + b.drop_last());
    }
}

proof fn lemma_next_occurrence(t: Seq<char>, p: Seq<char>, pos: int)
    ensures
        next_occurrence(t, p, pos) matches Some(i) ==> pos <= i && occurs_at(t, p, i),
    decreases t.len() + 1 - pos,
{
    if !(pos < 0 || pos + p.len() > t.len()) && !occurs_at(t, p, pos) {
        lemma_next_occurrence(t, p, pos + 1);
    }
}

proof fn lemma_pieces_text(text: Seq<char>, q: Seq<char>, pos: int, base: SpanStyle, hl: SpanStyle)
    requires
        q.len() > 0,
        0 <= pos <= text.len(),
    ensures
        row_text(match_pieces(text, text, q, q.len() as int, pos, pos, base, hl)) == text.skip(pos),
    decreases text.len() + 1 - pos,
{
    lemma_next_occurrence(text, q, pos);
    let pieces = match_pieces(text, text, q, q.len() as int, pos, pos, base, hl);
    match next_occurrence(text, q, pos) {
        None => {
            if pos < text.len() {
                lemma_row_text_single((clip(text, pos, text.len() as int), base));
                assert(clip(text, pos, text.len() as int) =~= text.skip(pos));
            } else {
                assert(text.skip(pos) =~= Seq::<char>::empty());
            }
        },
        Some(i) => {
            let e = i + q.len();
            lemma_pieces_text(text, q, e, base, hl);
            let head = if i > pos {
                seq![(clip(text, pos, i), base)]
            } else {
                Seq::empty()
            };
            let hit = seq![(clip(text, i, e), hl)];
            let rest = match_pieces(text, text, q, q.len() as int, e, e, base, hl);
            assert(pieces == head + hit + rest);
            lemma_row_text_concat(head + hit, rest);
            lemma_row_text_concat(head, hit);
            lemma_row_text_single((clip(text, i, e), hl));
            assert(clip(text, i, e) =~= text.subrange(i, e));
            if i > pos {
                lemma_row_text_single((clip(text, pos, i), base));
                assert(clip(text, pos, i) =~= text.subrange(pos, i));
            } else {
                assert(row_text(head) == Seq::<char>::empty());
                assert(text.subrange(pos, i) =~= Seq::<char>::empty());
            }
            assert(text.skip(pos) =~= text.subrange(pos, i) + text.subrange(i, e) + text.skip(e));
        },
    }
}

/// Picking out the matches of a query that is matched as it is (one with
/// both upper and lower case letters), or of no query, splits the text
/// into pieces without losing or changing any of it.
pub proof fn law_highlight_keeps_text(text: Seq<char>, query: Seq<char>, base: SpanStyle, hl: SpanStyle)
    requires
        query.len() == 0 || mixed_case(query),
    ensures
        row_text(highlight_spans(text, query, base, hl)) == text,
{
    lemma_row_text_single((text, base));
    if query.len() > 0 {
        lemma_pieces_text(text, query, 0, base, hl);
        assert(text.skip(0) =~= text);
    }
}

/// The added lines of all of `files`, summed.
pub open spec fn sum_of_additions(files: Seq<FileChange>) -> int {
    files.map_values(|f: FileChange| f.additions as int).fold_left(0int, |a: int, b: int| a + b)
}

/// The deleted lines of all of `files`, summed.
pub open spec fn sum_of_deletions(files: Seq<FileChange>) -> int {
    files.map_values(|f: FileChange| f.deletions as int).fold_left(0int, |a: int, b: int| a + b)
}

proof fn lemma_sums_grow(files: Seq<FileChange>)
    ensures
        sum_of_additions(files) >= 0,
        sum_of_deletions(files) >= 0,
    decreases files.len(),
{
    if files.len() > 0 {
        let d = files.drop_last();
        lemma_sums_grow(d);
        assert(files.map_values(|f: FileChange| f.additions as int).drop_last() =~= d.map_values(
            |f: FileChange| f.additions as int,
        ));
        assert(files.map_values(|f: FileChange| f.deletions as int).drop_last() =~= d.map_values(
            |f: FileChange| f.deletions as int,
        ));
    }
}

/// The summary's totals are the sums of the files' added and of their
/// deleted lines (each capped at `usize::MAX`).
pub proof fn law_summary_totals_are_sums(files: Seq<FileChange>, n: int)
    requires
        0 <= n <= files.len(),
    ensures
        total_changes(files, n, true) == crate::details::saturated(sum_of_additions(files.take(n))),
        total_changes(files, n, false) == crate::details::saturated(sum_of_deletions(files.take(n))),
    decreases n,
{
    if n > 0 {
        law_summary_totals_are_sums(files, n - 1);
        let t = files.take(n);
        assert(t.drop_last() =~= files.take(n - 1));
        assert(t.last() == files[n - 1]);
        lemma_sums_grow(files.take(n - 1));
        assert(t.map_values(|f: FileChange| f.additions as int).drop_last() =~= files.take(n - 1).map_values(
            |f: FileChange| f.additions as int,
        ));
        assert(t.map_values(|f: FileChange| f.deletions as int).drop_last() =~= files.take(n - 1).map_values(
            |f: FileChange| f.deletions as int,
        ));
        assert(sum_of_additions(t) == sum_of_additions(files.take(n - 1)) + files[n - 1].additions);
        assert(sum_of_deletions(t) == sum_of_deletions(files.take(n - 1)) + files[n - 1].deletions);
    } else {
        assert(files.take(0).map_values(|f: FileChange| f.additions as int) =~= Seq::<int>::empty());
        assert(files.take(0).map_values(|f: FileChange| f.deletions as int) =~= Seq::<int>::empty());
    }
}

} // verus!
