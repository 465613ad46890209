//! The rows of the commit list: the gutter with the distance to the
//! selected row, the coloured graph, the branch labels, and the text cells
//! with search matches painted.

use vstd::prelude::*;
use crate::commit_graph::Cell;
use crate::layout::{
    extend_row, fg, highlight_matches, highlight_spans, plain, push_span, row_view, search_match,
    search_match_style, spaces, spaces_exec, Color, Span, SpanStyle,
};
use crate::repo::{BranchName, Commit};
use crate::sha::{hex_of, Sha};
use crate::text::{chars_of, decimal, decimal_chars};

verus! {

broadcast use vstd::string::group_string_axioms;

/// At most this many graph cells are drawn.
pub const MAX_GRAPH_WIDTH: usize = 16;

/// The colour of a lane: the main line red, the others in turn; cells on
/// no lane grey.
pub open spec fn lane_color(lane: Option<usize>) -> Color {
    match lane {
        Some(l) => if l % 4 == 0 {
            Color::Red
        } else if l % 4 == 1 {
            Color::Blue
        } else if l % 4 == 2 {
            Color::Magenta
        } else {
            Color::Green
        },
        None => Color::Gray,
    }
}

fn lane_color_exec(lane: Option<usize>) -> (r: Color)
    ensures
        r == lane_color(lane),
{
    match lane {
        Some(l) => if l % 4 == 0 {
            Color::Red
        } else if l % 4 == 1 {
            Color::Blue
        } else if l % 4 == 2 {
            Color::Magenta
        } else {
            Color::Green
        },
        None => Color::Gray,
    }
}

/// The graph cells of a row as pieces, cut at the widest graph drawn.
pub open spec fn graph_pieces(g: Seq<Cell>) -> Seq<(Seq<char>, SpanStyle)> {
    let n = if g.len() < MAX_GRAPH_WIDTH { g.len() } else { MAX_GRAPH_WIDTH as nat };
    Seq::new(n, |k: int| (seq![g[k].0], fg(lane_color(g[k].1))))
}

/// The graph cells of a row, coloured by lane.
pub fn graph_spans(g: &Vec<Cell>) -> (r: Vec<Span>)
    ensures
        row_view(r) == graph_pieces(g@),
{
    let n: usize = if g.len() < MAX_GRAPH_WIDTH { g.len() } else { MAX_GRAPH_WIDTH };
    let mut r: Vec<Span> = Vec::new();
    let mut k: usize = 0;
    while k < n
        invariant
            k <= n,
            n <= g@.len(),
            n == (if g@.len() < MAX_GRAPH_WIDTH { g@.len() } else { MAX_GRAPH_WIDTH as nat }),
            row_view(r) == graph_pieces(g@).take(k as int),
        decreases n - k,
    {
        let mut text: Vec<char> = Vec::new();
        text.push(g[k].0);
        let style = SpanStyle { fg: Some(lane_color_exec(g[k].1)), bg: None, bold: false, underlined: false };
        push_span(&mut r, &text, style);
        proof {
            assert(text@ =~= seq![g@[k as int].0]);
            assert(graph_pieces(g@).take(k + 1) =~= graph_pieces(g@).take(k as int).push(
                graph_pieces(g@)[k as int],
            ));
        }
        k += 1;
    }
    proof {
        assert(graph_pieces(g@).take(n as int) =~= graph_pieces(g@));
    }
    r
}

/// How wide the gutter of the commit list is for `n` commits: wide enough
/// for the distances it shows.
pub open spec fn gutter_width_for(n: int) -> usize {
    if n >= 1000 {
        4
    } else if n >= 100 {
        3
    } else if n >= 10 {
        2
    } else {
        1
    }
}

pub fn gutter_width(n: usize) -> (r: usize)
    ensures
        r == gutter_width_for(n as int),
{
    if n >= 1000 {
        4
    } else if n >= 100 {
        3
    } else if n >= 10 {
        2
    } else {
        1
    }
}

/// `s` with spaces after it up to `w` characters.
pub open spec fn padded_right(s: Seq<char>, w: int) -> Seq<char> {
    if s.len() < w {
        s + spaces((w - s.len()) as nat)
    } else {
        s
    }
}

/// `s` with spaces before it up to `w` characters.
pub open spec fn padded_left(s: Seq<char>, w: int) -> Seq<char> {
    if s.len() < w {
        spaces((w - s.len()) as nat) + s
    } else {
        s
    }
}

/// The gutter of row `i`: a marker on the selected row, elsewhere the
/// distance to it, which `5j` or `5k` would travel.
pub open spec fn gutter_piece(i: int, selected: int, w: int) -> (Seq<char>, SpanStyle) {
    if i == selected {
        (padded_right(seq!['▶'], w), fg(Color::Gray))
    } else {
        let d = if i > selected { i - selected } else { selected - i };
        (padded_left(decimal(d as nat), w), fg(Color::DarkGray))
    }
}

pub fn gutter_span(i: usize, selected: usize, w: usize) -> (r: Span)
    ensures
        (r.text@, r.style) == gutter_piece(i as int, selected as int, w as int),
{
    if i == selected {
        let mut v: Vec<char> = Vec::new();
        v.push('▶');
        if 1 < w {
            let pad = spaces_exec(w - 1);
            crate::text::extend_chars(&mut v, &pad);
        }
        proof {
            if 1 < w {
                assert(v@ =~= seq!['▶'] + spaces((w - 1) as nat));
            } else {
                assert(v@ =~= seq!['▶']);
            }
        }
        Span { text: crate::text::string_of(&v), style: SpanStyle { fg: Some(Color::Gray), bg: None, bold: false, underlined: false } }
    } else {
        let d: u64 = if i > selected { (i - selected) as u64 } else { (selected - i) as u64 };
        let digits = decimal_chars(d);
        let v = if digits.len() < w {
            let mut v = spaces_exec(w - digits.len());
            crate::text::extend_chars(&mut v, &digits);
            v
        } else {
            digits
        };
        proof {
            assert(d as nat == (if i > selected { i - selected } else { selected - i }) as nat);
        }
        Span { text: crate::text::string_of(&v), style: SpanStyle { fg: Some(Color::DarkGray), bg: None, bold: false, underlined: false } }
    }
}

/// The characters of an optional text.
pub open spec fn opt_seq(o: Option<Vec<char>>) -> Option<Seq<char>> {
    match o {
        Some(v) => Some(v@),
        None => None,
    }
}

/// A colour in bold.
pub open spec fn bold(c: Color) -> SpanStyle {
    SpanStyle { fg: Some(c), bg: None, bold: true, underlined: false }
}

/// The lane of the row's commit node (the first `●`), lane 0 when it has
/// none.
pub open spec fn node_lane(g: Seq<Cell>, k: int) -> usize
    decreases g.len() - k,
{
    if k < 0 || k >= g.len() {
        0
    } else if g[k].0 == '●' {
        match g[k].1 {
            Some(l) => l,
            None => 0,
        }
    } else {
        node_lane(g, k + 1)
    }
}

fn node_lane_exec(g: &Vec<Cell>) -> (r: usize)
    ensures
        r == node_lane(g@, 0),
{
    let mut k: usize = 0;
    while k < g.len()
        invariant
            k <= g@.len(),
            node_lane(g@, k as int) == node_lane(g@, 0),
        decreases g.len() - k,
    {
        if g[k].0 == '●' {
            return match g[k].1 {
                Some(l) => l,
                None => 0,
            };
        }
        k += 1;
    }
    0
}

/// Whether a branch points at `sha`.
pub open spec fn has_branch_at(b: Seq<(BranchName, Sha)>, sha: Sha) -> bool {
    exists|k: int| 0 <= k < b.len() && #[trigger] b[k].1 == sha
}

/// The labels of the branches at `sha` from the `k`-th branch on, the
/// branch named `skip` left out, each after a comma but the first.
pub open spec fn other_labels(
    b: Seq<(BranchName, Sha)>,
    k: int,
    sha: Sha,
    skip: Option<Seq<char>>,
    first: bool,
    search: Seq<char>,
    c: Color,
) -> Seq<(Seq<char>, SpanStyle)>
    decreases b.len() - k,
{
    if k < 0 || k >= b.len() {
        Seq::empty()
    } else if b[k].1 != sha || skip == Some(b[k].0.0@) {
        other_labels(b, k + 1, sha, skip, first, search, c)
    } else {
        (if first {
            Seq::empty()
        } else {
            seq![(", "@, bold(Color::Yellow))]
        }) + highlight_spans(b[k].0.0@, search, bold(c), search_match()) + other_labels(
            b,
            k + 1,
            sha,
            skip,
            false,
            search,
            c,
        )
    }
}

/// The head's part of the labels: `HEAD`, and the branch it is on.
pub open spec fn head_label(is_head: bool, head_branch: Option<Seq<char>>, search: Seq<char>, c: Color) -> Seq<
    (Seq<char>, SpanStyle),
> {
    if is_head {
        highlight_spans("HEAD"@, search, bold(Color::Cyan), search_match()) + match head_branch {
            Some(n) => seq![(" → "@, bold(Color::Yellow))] + highlight_spans(n, search, bold(c), search_match()),
            None => Seq::empty(),
        }
    } else {
        Seq::empty()
    }
}

/// The labels before a commit's message: `(HEAD → main, feature) ` on the
/// head commit, the branches at the commit elsewhere, nothing when neither.
/// Branch names take the colour of the commit's lane.
pub open spec fn label_pieces(
    b: Seq<(BranchName, Sha)>,
    sha: Sha,
    is_head: bool,
    head_branch: Option<Seq<char>>,
    search: Seq<char>,
    c: Color,
) -> Seq<(Seq<char>, SpanStyle)> {
    if is_head || has_branch_at(b, sha) {
        seq![("("@, bold(Color::Yellow))] + head_label(is_head, head_branch, search, c) + other_labels(
            b,
            0,
            sha,
            head_branch,
            !is_head,
            search,
            c,
        ) + seq![(") "@, bold(Color::Yellow))]
    } else {
        Seq::empty()
    }
}

fn push_str(row: &mut Vec<Span>, text: &str, style: SpanStyle)
    ensures
        row_view(*final(row)) == row_view(*old(row)).push((text@, style)),
{
    push_span(row, &chars_of(text), style);
}

fn other_labels_exec(
    row: &mut Vec<Span>,
    b: &Vec<(BranchName, Sha)>,
    sha: &Sha,
    skip: &Option<Vec<char>>,
    first: bool,
    search: &str,
    c: Color,
)
    ensures
        row_view(*final(row)) == row_view(*old(row)) + other_labels(
            b@,
            0,
            *sha,
            opt_seq(*skip),
            first,
            search@,
            c,
        ),
{
    let ghost sk = opt_seq(*skip);
    let ghost goal = row_view(*row) + other_labels(b@, 0, *sha, sk, first, search@, c);
    let mut first = first;
    let mut k: usize = 0;
    while k < b.len()
        invariant
            k <= b@.len(),
            sk == opt_seq(*skip),
            row_view(*row) + other_labels(b@, k as int, *sha, sk, first, search@, c) == goal,
        decreases b.len() - k,
    {
        let ghost before = row_view(*row);
        let name = chars_of(b[k].0.0.as_str());
        let skipped = match skip {
            Some(v) => crate::text::same_chars(v, &name),
            None => false,
        };
        if !crate::sha::same_sha(&b[k].1, sha) || skipped {
            proof {
                assert(other_labels(b@, k as int, *sha, sk, first, search@, c) == other_labels(
                    b@,
                    k + 1,
                    *sha,
                    sk,
                    first,
                    search@,
                    c,
                ));
            }
        } else {
            let ghost sep = if first {
                Seq::<(Seq<char>, SpanStyle)>::empty()
            } else {
                seq![(", "@, bold(Color::Yellow))]
            };
            if !first {
                push_str(row, ", ", SpanStyle { fg: Some(Color::Yellow), bg: None, bold: true, underlined: false });
            }
            proof {
                assert(row_view(*row) =~= before + sep);
            }
            let ghost mid = row_view(*row);
            let spans = highlight_matches(
                b[k].0.0.as_str(),
                search,
                SpanStyle { fg: Some(c), bg: None, bold: true, underlined: false },
                search_match_style(),
            );
            extend_row(row, spans);
            let ghost rest = other_labels(b@, k + 1, *sha, sk, false, search@, c);
            proof {
                let piece = highlight_spans(b@[k as int].0.0@, search@, bold(c), search_match());
                assert(other_labels(b@, k as int, *sha, sk, first, search@, c) == sep + piece + rest);
                assert(row_view(*row) == mid + piece);
                assert((before + sep + piece) + rest =~= before + ((sep + piece) + rest));
            }
            first = false;
        }
        k += 1;
    }
    proof {
        assert(other_labels(b@, k as int, *sha, sk, first, search@, c) =~= Seq::empty());
        assert(row_view(*row) + Seq::<(Seq<char>, SpanStyle)>::empty() =~= row_view(*row));
    }
}

fn has_branch_at_exec(b: &Vec<(BranchName, Sha)>, sha: &Sha) -> (r: bool)
    ensures
        r == has_branch_at(b@, *sha),
{
    let mut k: usize = 0;
    while k < b.len()
        invariant
            k <= b@.len(),
            forall|j: int| 0 <= j < k ==> b@[j].1 != *sha,
        decreases b.len() - k,
    {
        if crate::sha::same_sha(&b[k].1, sha) {
            proof {
                assert(b@[k as int].1 == *sha);
            }
            return true;
        }
        k += 1;
    }
    false
}

/// Appends the labels of a commit to `row`.
pub fn push_labels(
    row: &mut Vec<Span>,
    b: &Vec<(BranchName, Sha)>,
    sha: &Sha,
    is_head: bool,
    head_branch: &Option<Vec<char>>,
    search: &str,
    c: Color,
)
    ensures
        row_view(*final(row)) == row_view(*old(row)) + label_pieces(
            b@,
            *sha,
            is_head,
            opt_seq(*head_branch),
            search@,
            c,
        ),
{
    let ghost hb = opt_seq(*head_branch);
    let ghost start = row_view(*row);
    if !(is_head || has_branch_at_exec(b, sha)) {
        proof {
            assert(row_view(*row) =~= start + Seq::<(Seq<char>, SpanStyle)>::empty());
        }
        return;
    }
    let yb = SpanStyle { fg: Some(Color::Yellow), bg: None, bold: true, underlined: false };
    push_str(row, "(", yb);
    let ghost after_open = row_view(*row);
    if is_head {
        let h = highlight_matches("HEAD", search, SpanStyle { fg: Some(Color::Cyan), bg: None, bold: true, underlined: false }, search_match_style());
        extend_row(row, h);
        match head_branch {
            Some(n) => {
                push_str(row, " → ", yb);
                let s = crate::text::string_of(n);
                let hl = highlight_matches(s.as_str(), search, SpanStyle { fg: Some(c), bg: None, bold: true, underlined: false }, search_match_style());
                extend_row(row, hl);
            },
            None => {},
        }
    }
    proof {
        let hp = head_label(is_head, hb, search@, c);
        if is_head {
            match hb {
                Some(n) => {
                    assert(row_view(*row) =~= after_open + hp);
                },
                None => {
                    assert(row_view(*row) =~= after_open + hp);
                },
            }
        } else {
            assert(row_view(*row) =~= after_open + hp);
        }
    }
    let ghost after_head = row_view(*row);
    other_labels_exec(row, b, sha, head_branch, !is_head, search, c);
    let ghost after_others = row_view(*row);
    push_str(row, ") ", yb);
    proof {
        let hp = head_label(is_head, hb, search@, c);
        let op = other_labels(b@, 0, *sha, hb, !is_head, search@, c);
        assert(after_open == start.push(("("@, bold(Color::Yellow))));
        assert(row_view(*row) =~= start + (seq![("("@, bold(Color::Yellow))] + hp + op + seq![(") "@, bold(Color::Yellow))]));
    }
}

/// The cells of one row of the commit list.
pub struct CommitRowCells {
    pub gutter: Span,
    pub graph: Vec<Span>,
    /// The labels and the message.
    pub message: Vec<Span>,
    pub date: Vec<Span>,
    pub time: Vec<Span>,
    pub author: Vec<Span>,
    pub sha: Vec<Span>,
    /// The selected row is drawn on a dark background.
    pub selected: bool,
}

/// Bold text in the terminal's colour.
pub open spec fn bold_plain() -> SpanStyle {
    SpanStyle { fg: None, bg: None, bold: true, underlined: false }
}

/// The style of a text cell: one look on the selected row, another
/// elsewhere.
pub open spec fn cell_style(selected: bool, on: SpanStyle, off: SpanStyle) -> SpanStyle {
    if selected {
        on
    } else {
        off
    }
}

/// The cells of row `i` of the commit list, for the commit with graph row
/// `graph`, when row `selected` is selected and `search` is the term whose
/// matches are painted (none while the details panel is open). `date` and
/// `time` are the commit's time as the list shows it.
pub fn commit_row(
    commit: &Commit,
    graph: &Vec<Cell>,
    branches: &Vec<(BranchName, Sha)>,
    head_sha: &Sha,
    head_branch: &Option<Vec<char>>,
    i: usize,
    selected: usize,
    gutter_w: usize,
    search: &str,
    date: &str,
    time: &str,
) -> (r: CommitRowCells)
    ensures
        (r.gutter.text@, r.gutter.style) == gutter_piece(i as int, selected as int, gutter_w as int),
        row_view(r.graph) == graph_pieces(graph@),
        row_view(r.message) == label_pieces(
            branches@,
            commit.sha,
            commit.sha == *head_sha,
            opt_seq(*head_branch),
            search@,
            lane_color(Some(node_lane(graph@, 0))),
        ) + highlight_spans(commit.message@, search@, plain(), search_match()),
        row_view(r.date) == highlight_spans(
            date@,
            search@,
            cell_style(i == selected, bold_plain(), fg(Color::Gray)),
            search_match(),
        ),
        row_view(r.time) == highlight_spans(
            time@,
            search@,
            cell_style(i == selected, fg(Color::Gray), fg(Color::DarkGray)),
            search_match(),
        ),
        row_view(r.author) == highlight_spans(
            commit.author@,
            search@,
            cell_style(i == selected, bold_plain(), fg(Color::Gray)),
            search_match(),
        ),
        row_view(r.sha) == highlight_spans(
            hex_of(commit.sha.bytes@).take(7),
            search@,
            cell_style(i == selected, fg(Color::Gray), fg(Color::DarkGray)),
            search_match(),
        ),
        r.selected == (i == selected),
{
    let is_selected = i == selected;
    let lane = node_lane_exec(graph);
    let color = lane_color_exec(Some(lane));
    let is_head = crate::sha::same_sha(&commit.sha, head_sha);
    let mut message: Vec<Span> = Vec::new();
    push_labels(&mut message, branches, &commit.sha, is_head, head_branch, search, color);
    let text = highlight_matches(commit.message.as_str(), search, SpanStyle { fg: None, bg: None, bold: false, underlined: false }, search_match_style());
    extend_row(&mut message, text);
    proof {
        assert(Seq::<(Seq<char>, SpanStyle)>::empty() + label_pieces(
            branches@,
            commit.sha,
            is_head,
            opt_seq(*head_branch),
            search@,
            color,
        ) =~= label_pieces(branches@, commit.sha, is_head, opt_seq(*head_branch), search@, color));
    }
    let strong = SpanStyle { fg: None, bg: None, bold: true, underlined: false };
    let gray = SpanStyle { fg: Some(Color::Gray), bg: None, bold: false, underlined: false };
    let dark = SpanStyle { fg: Some(Color::DarkGray), bg: None, bold: false, underlined: false };
    let short = crate::text::string_of(&commit.sha.short_hex());
    CommitRowCells {
        gutter: gutter_span(i, selected, gutter_w),
        graph: graph_spans(graph),
        message,
        date: highlight_matches(date, search, if is_selected { strong } else { gray }, search_match_style()),
        time: highlight_matches(time, search, if is_selected { gray } else { dark }, search_match_style()),
        author: highlight_matches(commit.author.as_str(), search, if is_selected { strong } else { gray }, search_match_style()),
        sha: highlight_matches(short.as_str(), search, if is_selected { gray } else { dark }, search_match_style()),
        selected: is_selected,
    }
}

/// The first row the commit list shows: with the details panel open the
/// list follows the selection, two rows above it, without running past
/// the end; otherwise where it was scrolled to.
pub open spec fn list_top_of(details: bool, selected: usize, top: usize, n: usize, visible: usize) -> usize {
    if details {
        let up = if selected >= 2 { selected - 2 } else { 0 };
        let max_top = if n >= visible { n - visible } else { 0 };
        (if up <= max_top { up } else { max_top }) as usize
    } else {
        top
    }
}

pub fn list_top(details: bool, selected: usize, top: usize, n: usize, visible: usize) -> (r: usize)
    ensures
        r == list_top_of(details, selected, top, n, visible),
{
    if details {
        let up = selected.saturating_sub(2);
        let max_top = n.saturating_sub(visible);
        if up <= max_top {
            up
        } else {
            max_top
        }
    } else {
        top
    }
}

} // verus!
