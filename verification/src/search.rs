//! Searching: typing a search term, its history, jumping between the
//! commits (or the rows of the details panel) that match it.

use vstd::prelude::*;
use crate::action::{typed, Action};
use crate::complete::names_view;
use crate::layout::{cache_view, details_match_lines, details_match_rows, owned_cache_view};
use crate::repo::{branches_view, commit_matches, Commit, Repo};
use crate::state::{head_known, head_of, State};
use crate::text::{chars_of, copy_string, is_empty, pop_char, push_char, same_chars};
use crate::utils::{format_date, shows_date_of, stated_range};
use crate::viewport::{centered_top, graph_height, DETAILS_HORIZONTAL_PADDING};

verus! {

broadcast use vstd::string::group_string_axioms;

/// The date the list shows for each commit, in the local time zone.
pub fn commit_dates(commits: &Vec<Commit>) -> (r: Vec<String>)
    ensures
        r@.len() == commits@.len(),
        forall|i: int|
            0 <= i < commits@.len() && stated_range(commits@[i].timestamp) ==> shows_date_of(
                commits@[i].timestamp,
                #[trigger] r@[i]@,
            ),
{
    let mut r: Vec<String> = Vec::new();
    let mut i: usize = 0;
    while i < commits.len()
        invariant
            i <= commits.len(),
            r@.len() == i,
            forall|j: int|
                0 <= j < i && stated_range(commits@[j].timestamp) ==> shows_date_of(
                    commits@[j].timestamp,
                    #[trigger] r@[j]@,
                ),
        decreases commits.len() - i,
    {
        r.push(format_date(commits[i].timestamp));
        i += 1;
    }
    r
}

/// Whether the `i`-th commit matches `term`, the list showing `dates`.
pub open spec fn matches_at(repo: Repo, dates: Seq<String>, term: Seq<char>, i: int) -> bool {
    let c = repo.commits@[i];
    commit_matches(
        c.message@,
        c.author@,
        c.sha,
        term,
        branches_view(repo.branches@),
        head_of(repo),
        dates[i]@,
    )
}

/// The first commit in `lo..hi` that matches.
pub open spec fn first_match_in(repo: Repo, dates: Seq<String>, term: Seq<char>, lo: int, hi: int) -> Option<int>
    decreases hi - lo,
{
    if hi <= lo {
        None
    } else if matches_at(repo, dates, term, lo) {
        Some(lo)
    } else {
        first_match_in(repo, dates, term, lo + 1, hi)
    }
}

/// The last commit in `lo..hi` that matches.
pub open spec fn last_match_in(repo: Repo, dates: Seq<String>, term: Seq<char>, lo: int, hi: int) -> Option<int>
    decreases hi - lo,
{
    if hi <= lo {
        None
    } else if matches_at(repo, dates, term, hi - 1) {
        Some(hi - 1)
    } else {
        last_match_in(repo, dates, term, lo, hi - 1)
    }
}

/// The head's commit, computed.
fn head_sha_of(repo: &Repo) -> (r: crate::sha::Sha)
    requires
        repo.wf(),
        head_known(*repo),
    ensures
        r == head_of(*repo),
{
    repo.head_sha()
}

/// Whether the `i`-th commit matches `term`.
fn commit_matches_at(repo: &Repo, dates: &Vec<String>, term: &str, head: &crate::sha::Sha, i: usize) -> (r: bool)
    requires
        i < repo.commits@.len(),
        dates@.len() == repo.commits@.len(),
        *head == head_of(*repo),
    ensures
        r == matches_at(*repo, dates@, term@, i as int),
{
    repo.commits[i].matches_with_date(term, &repo.branches, head, dates[i].as_str())
}

/// The first matching commit in `lo..hi`.
fn find_first(repo: &Repo, dates: &Vec<String>, term: &str, lo: usize, hi: usize) -> (r: Option<usize>)
    requires
        repo.wf(),
        head_known(*repo),
        hi <= repo.commits@.len(),
        dates@.len() == repo.commits@.len(),
    ensures
        match r {
            Some(i) => first_match_in(*repo, dates@, term@, lo as int, hi as int) == Some(i as int),
            None => first_match_in(*repo, dates@, term@, lo as int, hi as int) is None,
        },
    decreases hi - lo,
{
    if hi <= lo {
        return None;
    }
    let head = head_sha_of(repo);
    if commit_matches_at(repo, dates, term, &head, lo) {
        Some(lo)
    } else {
        find_first(repo, dates, term, lo + 1, hi)
    }
}

/// The last matching commit in `lo..hi`.
fn find_last(repo: &Repo, dates: &Vec<String>, term: &str, lo: usize, hi: usize) -> (r: Option<usize>)
    requires
        repo.wf(),
        head_known(*repo),
        hi <= repo.commits@.len(),
        dates@.len() == repo.commits@.len(),
    ensures
        match r {
            Some(i) => last_match_in(*repo, dates@, term@, lo as int, hi as int) == Some(i as int),
            None => last_match_in(*repo, dates@, term@, lo as int, hi as int) is None,
        },
    decreases hi - lo,
{
    if hi <= lo {
        return None;
    }
    let head = head_sha_of(repo);
    if commit_matches_at(repo, dates, term, &head, hi - 1) {
        Some(hi - 1)
    } else {
        find_last(repo, dates, term, lo, hi - 1)
    }
}

fn min_usize(a: usize, b: usize) -> (r: usize)
    ensures
        r == if a <= b {
            a
        } else {
            b
        },
{
    if a <= b {
        a
    } else {
        b
    }
}

// ---------------------------------------------------------------------------
// Moving between matching commits
// ---------------------------------------------------------------------------

/// The commit `n` moves to: the first match after the selected one, or
/// the first one before it (wrapping around).
pub open spec fn next_match(repo: Repo, dates: Seq<String>, term: Seq<char>, sel: int) -> Option<int> {
    let n = repo.commits@.len() as int;
    match first_match_in(repo, dates, term, sel + 1, n) {
        Some(i) => Some(i),
        None => first_match_in(repo, dates, term, 0, if sel < n { sel } else { n }),
    }
}

/// The commit `N` moves to: the last match before the selected one, or
/// the last one after it (wrapping around).
pub open spec fn previous_match(repo: Repo, dates: Seq<String>, term: Seq<char>, sel: int) -> Option<int> {
    let n = repo.commits@.len() as int;
    match last_match_in(repo, dates, term, 0, if sel < n { sel } else { n }) {
        Some(i) => Some(i),
        None => last_match_in(repo, dates, term, sel + 1, n),
    }
}

/// The state after moving the selection to `target`, if there is one.
pub open spec fn moved_to(s: State, target: Option<int>) -> State {
    match target {
        Some(i) => State { index_of_selected_row: i as usize, ..s },
        None => s,
    }
}

pub fn find_next_match(state: &mut State, repo: &Repo, dates: &Vec<String>)
    requires
        repo.wf(),
        head_known(*repo),
        dates@.len() == repo.commits@.len(),
        old(state).index_of_selected_row < usize::MAX,
    ensures
        *final(state) == moved_to(
            *old(state),
            next_match(*repo, dates@, old(state).search_term@, old(state).index_of_selected_row as int),
        ),
{
    let n = repo.commits.len();
    let sel = state.index_of_selected_row;
    let after = if sel + 1 <= n {
        find_first(repo, dates, state.search_term.as_str(), sel + 1, n)
    } else {
        None
    };
    match after {
        Some(i) => {
            state.index_of_selected_row = i;
        },
        None => {
            match find_first(repo, dates, state.search_term.as_str(), 0, min_usize(sel, n)) {
                Some(i) => {
                    state.index_of_selected_row = i;
                },
                None => {},
            }
        },
    }
}

pub fn find_previous_match(state: &mut State, repo: &Repo, dates: &Vec<String>)
    requires
        repo.wf(),
        head_known(*repo),
        dates@.len() == repo.commits@.len(),
        old(state).index_of_selected_row < usize::MAX,
    ensures
        *final(state) == moved_to(
            *old(state),
            previous_match(
                *repo,
                dates@,
                old(state).search_term@,
                old(state).index_of_selected_row as int,
            ),
        ),
{
    let n = repo.commits.len();
    let sel = state.index_of_selected_row;
    match find_last(repo, dates, state.search_term.as_str(), 0, min_usize(sel, n)) {
        Some(i) => {
            state.index_of_selected_row = i;
        },
        None => {
            let before = if sel + 1 <= n {
                find_last(repo, dates, state.search_term.as_str(), sel + 1, n)
            } else {
                None
            };
            match before {
                Some(i) => {
                    state.index_of_selected_row = i;
                },
                None => {},
            }
        },
    }
}

// ---------------------------------------------------------------------------
// Moving between matching rows of the details panel
// ---------------------------------------------------------------------------

/// The width of the details panel's text in a terminal `width` columns
/// wide: all but its padding.
pub open spec fn details_width(terminal_width: u16) -> int {
    if terminal_width >= DETAILS_HORIZONTAL_PADDING {
        terminal_width - DETAILS_HORIZONTAL_PADDING
    } else {
        0
    }
}

/// The rows of the details panel that show a match of its search term,
/// in a terminal `terminal_width` columns wide; none when no details are
/// open.
pub open spec fn details_matches(s: State, terminal_width: u16) -> Seq<int> {
    match s.commit_details {
        Some(d) => details_match_rows(
            d,
            owned_cache_view(s.highlight_cache),
            s.details_search_term@,
            details_width(terminal_width),
        ),
        None => Seq::empty(),
    }
}

/// The position in `rows` of the first row after `current`.
pub open spec fn first_after(rows: Seq<int>, current: int, k: int) -> Option<int>
    decreases rows.len() - k,
{
    if k >= rows.len() || k < 0 {
        None
    } else if rows[k] > current {
        Some(k)
    } else {
        first_after(rows, current, k + 1)
    }
}

/// The position in `rows` of the last row before `current`, among the
/// first `k`.
pub open spec fn last_before(rows: Seq<int>, current: int, k: int) -> Option<int>
    decreases k,
{
    if k <= 0 {
        None
    } else if rows[k - 1] < current {
        Some(k - 1)
    } else {
        last_before(rows, current, k - 1)
    }
}

/// The selected match, `index` among the matching `rows`, put in the
/// middle of a panel of `height` rows.
pub open spec fn match_selected(s: State, rows: Seq<int>, index: int, height: usize) -> State {
    let line = rows[index] as usize;
    State {
        details_scroll_offset: centered_top(line, height),
        details_selected_match_line: Some(line),
        details_selected_match_index: Some(index as usize),
        ..s
    }
}

/// The state after `n` in the details panel: the next match after the
/// selected one (or the scroll position), wrapping to the first.
pub open spec fn next_detail_match(s: State, height: usize, terminal_width: u16) -> State {
    let rows = details_matches(s, terminal_width);
    if rows.len() == 0 {
        State { details_selected_match_line: None, details_selected_match_index: None, ..s }
    } else {
        let current = match s.details_selected_match_line {
            Some(l) => l,
            None => s.details_scroll_offset,
        };
        match first_after(rows, current as int, 0) {
            Some(k) => match_selected(s, rows, k, height),
            None => match_selected(s, rows, 0, height),
        }
    }
}

/// The state after `N` in the details panel: the previous match before the
/// selected one (or the scroll position), wrapping to the last.
pub open spec fn previous_detail_match(s: State, height: usize, terminal_width: u16) -> State {
    let rows = details_matches(s, terminal_width);
    if rows.len() == 0 {
        State { details_selected_match_line: None, details_selected_match_index: None, ..s }
    } else {
        let current = match s.details_selected_match_line {
            Some(l) => l,
            None => s.details_scroll_offset,
        };
        match last_before(rows, current as int, rows.len() as int) {
            Some(k) => match_selected(s, rows, k, height),
            None => match_selected(s, rows, rows.len() - 1, height),
        }
    }
}

/// Compute which line indices in the details view contain search matches:
/// the rows, as the panel draws them in a terminal `terminal_width`
/// columns wide, on which it paints a match of the search term. None when
/// no details are open or the term is empty.
pub fn compute_details_match_lines(state: &State, terminal_width: u16) -> (r: Vec<usize>)
    ensures
        r@.map_values(|x: usize| x as int) == details_matches(*state, terminal_width),
{
    match &state.commit_details {
        Some(d) => {
            let cache = state.highlight_cache.as_ref();
            proof {
                assert(cache_view(cache) == owned_cache_view(state.highlight_cache));
            }
            let width = terminal_width.saturating_sub(DETAILS_HORIZONTAL_PADDING);
            details_match_lines(d, cache, state.details_search_term.as_str(), width)
        },
        None => {
            let r: Vec<usize> = Vec::new();
            proof {
                assert(r@.map_values(|x: usize| x as int) =~= Seq::<int>::empty());
            }
            r
        },
    }
}

/// The position of the first row after `current`, or the first one.
fn next_row_index(rows: &Vec<usize>, current: usize) -> (k: usize)
    requires
        rows@.len() > 0,
    ensures
        k < rows@.len(),
        k as int == match first_after(rows@.map_values(|x: usize| x as int), current as int, 0) {
            Some(j) => j,
            None => 0,
        },
{
    let ghost rv = rows@.map_values(|x: usize| x as int);
    let mut k: usize = 0;
    while k < rows.len() && rows[k] <= current
        invariant
            k <= rows.len(),
            rv == rows@.map_values(|x: usize| x as int),
            first_after(rv, current as int, 0) == first_after(rv, current as int, k as int),
        decreases rows.len() - k,
    {
        k += 1;
    }
    if k == rows.len() {
        0
    } else {
        k
    }
}

/// The position of the last row before `current`, or the last one.
fn previous_row_index(rows: &Vec<usize>, current: usize) -> (k: usize)
    requires
        rows@.len() > 0,
    ensures
        k < rows@.len(),
        k as int == match last_before(
            rows@.map_values(|x: usize| x as int),
            current as int,
            rows@.len() as int,
        ) {
            Some(j) => j,
            None => rows@.len() - 1,
        },
{
    let ghost rv = rows@.map_values(|x: usize| x as int);
    let mut k: usize = rows.len();
    while k > 0 && rows[k - 1] >= current
        invariant
            k <= rows.len(),
            rv == rows@.map_values(|x: usize| x as int),
            last_before(rv, current as int, rv.len() as int) == last_before(rv, current as int, k as int),
        decreases k,
    {
        k -= 1;
    }
    if k == 0 {
        rows.len() - 1
    } else {
        k - 1
    }
}

pub fn find_next_match_in_details(state: &mut State, viewport_height: usize, terminal_width: u16)
    ensures
        *final(state) == next_detail_match(*old(state), viewport_height, terminal_width),
{
    let rows = compute_details_match_lines(state, terminal_width);
    if rows.len() == 0 {
        state.details_selected_match_line = None;
        state.details_selected_match_index = None;
        return;
    }
    let current = match state.details_selected_match_line {
        Some(l) => l,
        None => state.details_scroll_offset,
    };
    let k = next_row_index(&rows, current);
    let line = rows[k];
    state.details_scroll_offset = line.saturating_sub(viewport_height / 2);
    state.details_selected_match_line = Some(line);
    state.details_selected_match_index = Some(k);
}

pub fn find_previous_match_in_details(state: &mut State, viewport_height: usize, terminal_width: u16)
    ensures
        *final(state) == previous_detail_match(*old(state), viewport_height, terminal_width),
{
    let rows = compute_details_match_lines(state, terminal_width);
    if rows.len() == 0 {
        state.details_selected_match_line = None;
        state.details_selected_match_index = None;
        return;
    }
    let current = match state.details_selected_match_line {
        Some(l) => l,
        None => state.details_scroll_offset,
    };
    let index = previous_row_index(&rows, current);
    let line = rows[index];
    state.details_scroll_offset = line.saturating_sub(viewport_height / 2);
    state.details_selected_match_line = Some(line);
    state.details_selected_match_index = Some(index);
}

// ---------------------------------------------------------------------------
// Typing the search term
// ---------------------------------------------------------------------------

/// Leaving the search: in the details panel its term is cleared; in the
/// commit list the term is cleared and the cursor and scroll go back to
/// where they were when the search began.
pub open spec fn cancelled(s: State, t: State) -> bool {
    if s.commit_details is Some {
        &&& t == (State {
            is_typing_search_term: false,
            index_of_search_term_history_being_viewed: None,
            details_search_term: t.details_search_term,
            details_selected_match_line: None,
            details_selected_match_index: None,
            ..s
        })
        &&& t.details_search_term@.len() == 0
    } else {
        &&& t == (State {
            is_typing_search_term: false,
            index_of_search_term_history_being_viewed: None,
            search_term: t.search_term,
            index_of_selected_row: match s.index_of_selected_row_when_search_began {
                Some(p) => p,
                None => s.index_of_selected_row,
            },
            index_of_topmost_visible_row: match s.index_of_topmost_visible_row_when_search_began {
                Some(p) => p,
                None => s.index_of_topmost_visible_row,
            },
            index_of_selected_row_when_search_began: None,
            index_of_topmost_visible_row_when_search_began: None,
            ..s
        })
        &&& t.search_term@.len() == 0
    }
}

pub fn cancel_search(state: &mut State)
    ensures
        cancelled(*old(state), *final(state)),
{
    state.is_typing_search_term = false;
    state.index_of_search_term_history_being_viewed = None;
    if state.commit_details.is_some() {
        state.details_search_term = String::new();
        state.details_selected_match_line = None;
        state.details_selected_match_index = None;
    } else {
        state.search_term = String::new();
        match state.index_of_selected_row_when_search_began {
            Some(pre) => {
                state.index_of_selected_row = pre;
            },
            None => {},
        }
        match state.index_of_topmost_visible_row_when_search_began {
            Some(pre) => {
                state.index_of_topmost_visible_row = pre;
            },
            None => {},
        }
        state.index_of_selected_row_when_search_began = None;
        state.index_of_topmost_visible_row_when_search_began = None;
    }
}

/// Finishing the search with Enter: a term that matches nothing is
/// dropped; in the commit list a term that matches is kept and added to
/// the history, unless it is the last one there.
pub open spec fn confirmed(s: State, t: State, repo: Repo, dates: Seq<String>, terminal_width: u16) -> bool {
    if s.commit_details is Some {
        &&& t == (State {
            is_typing_search_term: false,
            index_of_search_term_history_being_viewed: None,
            details_search_term: t.details_search_term,
            ..s
        })
        &&& t.details_search_term@ == if details_matches(s, terminal_width).len() > 0 {
            s.details_search_term@
        } else {
            Seq::empty()
        }
    } else {
        let term = s.search_term@;
        let history = names_view(s.search_term_history@);
        let found = first_match_in(repo, dates, term, 0, repo.commits@.len() as int) is Some;
        &&& t == (State {
            is_typing_search_term: false,
            index_of_search_term_history_being_viewed: None,
            search_term: t.search_term,
            search_term_history: t.search_term_history,
            index_of_selected_row_when_search_began: None,
            index_of_topmost_visible_row_when_search_began: None,
            ..s
        })
        &&& t.search_term@ == if found {
            term
        } else {
            Seq::empty()
        }
        &&& names_view(t.search_term_history@) == if found && !(history.len() > 0
            && history.last() == term) {
            history.push(term)
        } else {
            history
        }
    }
}

pub fn confirm_search(state: &mut State, repo: &Repo, dates: &Vec<String>, terminal_width: u16)
    requires
        repo.wf(),
        head_known(*repo),
        dates@.len() == repo.commits@.len(),
    ensures
        confirmed(*old(state), *final(state), *repo, dates@, terminal_width),
{
    state.is_typing_search_term = false;
    state.index_of_search_term_history_being_viewed = None;
    if state.commit_details.is_some() {
        let rows = compute_details_match_lines(state, terminal_width);
        if rows.len() == 0 {
            state.details_search_term = String::new();
        }
    } else {
        let found = find_first(repo, dates, state.search_term.as_str(), 0, repo.commits.len()).is_some();
        if found {
            let n = state.search_term_history.len();
            let same_as_last = n > 0 && same_chars(
                &chars_of(state.search_term_history[n - 1].as_str()),
                &chars_of(state.search_term.as_str()),
            );
            if !same_as_last {
                let ghost before = state.search_term_history@;
                let term = copy_string(&state.search_term);
                state.search_term_history.push(term);
                proof {
                    assert(names_view(state.search_term_history@) =~= names_view(before).push(
                        state.search_term@,
                    ));
                }
            }
        } else {
            state.search_term = String::new();
        }
        state.index_of_selected_row_when_search_began = None;
        state.index_of_topmost_visible_row_when_search_began = None;
    }
}

/// The history position is valid when there is one.
pub open spec fn history_ok(s: State) -> bool {
    s.index_of_search_term_history_being_viewed matches Some(i) ==> i < s.search_term_history@.len()
}

/// Up while typing: the term before in the history (starting from the
/// last one), stopping at the first.
pub open spec fn history_back(s: State, t: State) -> bool {
    let h = s.search_term_history@;
    if h.len() == 0 {
        t == s
    } else {
        let v = match s.index_of_search_term_history_being_viewed {
            None => h.len() - 1,
            Some(i) => if i == 0 {
                0
            } else {
                i - 1
            },
        };
        &&& t == (State {
            index_of_search_term_history_being_viewed: Some(v as usize),
            search_term: t.search_term,
            ..s
        })
        &&& t.search_term@ == h[v]@
    }
}

pub fn navigate_to_previous_search_history_entry(state: &mut State)
    requires
        history_ok(*old(state)),
    ensures
        history_back(*old(state), *final(state)),
{
    let n = state.search_term_history.len();
    if n == 0 {
        return;
    }
    let v = match state.index_of_search_term_history_being_viewed {
        None => n - 1,
        Some(i) => if i == 0 {
            0
        } else {
            i - 1
        },
    };
    state.index_of_search_term_history_being_viewed = Some(v);
    state.search_term = copy_string(&state.search_term_history[v]);
}

/// Down while typing: the term after in the history, or an empty term
/// past its end; nothing when no history term is shown.
pub open spec fn history_forward(s: State, t: State) -> bool {
    let h = s.search_term_history@;
    match s.index_of_search_term_history_being_viewed {
        None => t == s,
        Some(i) => if i + 1 < h.len() {
            &&& t == (State {
                index_of_search_term_history_being_viewed: Some((i + 1) as usize),
                search_term: t.search_term,
                ..s
            })
            &&& t.search_term@ == h[i + 1]@
        } else {
            &&& t == (State {
                index_of_search_term_history_being_viewed: None,
                search_term: t.search_term,
                ..s
            })
            &&& t.search_term@.len() == 0
        },
    }
}

pub fn navigate_to_next_search_history_entry(state: &mut State)
    requires
        history_ok(*old(state)),
    ensures
        history_forward(*old(state), *final(state)),
{
    let i = match state.index_of_search_term_history_being_viewed {
        Some(i) => i,
        None => {
            return;
        },
    };
    let n = state.search_term_history.len();
    if i + 1 < n {
        state.index_of_search_term_history_being_viewed = Some(i + 1);
        state.search_term = copy_string(&state.search_term_history[i + 1]);
    } else {
        state.index_of_search_term_history_being_viewed = None;
        state.search_term = String::new();
    }
}

/// A character typed into the search term (the details panel's when it
/// is open).
pub open spec fn typed_into_search(s: State, t: State, c: char) -> bool {
    if s.commit_details is Some {
        &&& t == (State {
            details_search_term: t.details_search_term,
            index_of_search_term_history_being_viewed: None,
            ..s
        })
        &&& t.details_search_term@ == s.details_search_term@.push(c)
    } else {
        &&& t == (State {
            search_term: t.search_term,
            index_of_search_term_history_being_viewed: None,
            ..s
        })
        &&& t.search_term@ == s.search_term@.push(c)
    }
}

pub fn type_search_character(state: &mut State, c: char)
    ensures
        typed_into_search(*old(state), *final(state), c),
{
    if state.commit_details.is_some() {
        push_char(&mut state.details_search_term, c);
    } else {
        push_char(&mut state.search_term, c);
    }
    state.index_of_search_term_history_being_viewed = None;
}

/// What a key does while the search term is typed.
pub open spec fn typing_step(a: Action, s: State, t: State, repo: Repo, dates: Seq<String>, terminal_width: u16) -> bool {
    match a {
        Action::Esc | Action::CtrlC => cancelled(s, t),
        Action::Enter => confirmed(s, t, repo, dates, terminal_width),
        Action::Up => history_back(s, t),
        Action::Down => history_forward(s, t),
        Action::Backspace => {
            let term = if s.commit_details is Some {
                s.details_search_term@
            } else {
                s.search_term@
            };
            if term.len() == 0 {
                cancelled(s, t)
            } else if s.commit_details is Some {
                &&& t == (State {
                    details_search_term: t.details_search_term,
                    index_of_search_term_history_being_viewed: None,
                    ..s
                })
                &&& t.details_search_term@ == term.drop_last()
            } else {
                &&& t == (State {
                    search_term: t.search_term,
                    index_of_search_term_history_being_viewed: None,
                    ..s
                })
                &&& t.search_term@ == term.drop_last()
            }
        },
        _ => match typed(a) {
            Some(c) => typed_into_search(s, t, c),
            None => t == s,
        },
    }
}

impl Action {
    pub fn execute_typing_mode(&self, state: &mut State, repo: &Repo, dates: &Vec<String>, terminal_width: u16)
        requires
            repo.wf(),
            head_known(*repo),
            dates@.len() == repo.commits@.len(),
            *self == Action::Up || *self == Action::Down ==> history_ok(*old(state)),
        ensures
            typing_step(*self, *old(state), *final(state), *repo, dates@, terminal_width),
    {
        match *self {
            Action::Esc | Action::CtrlC => cancel_search(state),
            Action::Enter => confirm_search(state, repo, dates, terminal_width),
            Action::Up => navigate_to_previous_search_history_entry(state),
            Action::Down => navigate_to_next_search_history_entry(state),
            Action::Backspace => {
                if state.commit_details.is_some() {
                    if is_empty(state.details_search_term.as_str()) {
                        cancel_search(state);
                    } else {
                        pop_char(&mut state.details_search_term);
                        state.index_of_search_term_history_being_viewed = None;
                    }
                } else {
                    if is_empty(state.search_term.as_str()) {
                        cancel_search(state);
                    } else {
                        pop_char(&mut state.search_term);
                        state.index_of_search_term_history_being_viewed = None;
                    }
                }
            },
            _ => match self.typed_char() {
                Some(c) => type_search_character(state, c),
                None => {},
            },
        }
    }
}

// ---------------------------------------------------------------------------
// Live search
// ---------------------------------------------------------------------------

/// While the term is typed the cursor jumps to the first matching commit;
/// with no match, or no term, it goes back to where the search began, in
/// the middle of the screen.
pub open spec fn live_searched(s: State, t: State, repo: Repo, dates: Seq<String>, terminal_height: u16) -> bool {
    let back = match s.index_of_selected_row_when_search_began {
        Some(p) => State {
            index_of_selected_row: p,
            index_of_topmost_visible_row: centered_top(p, graph_height(terminal_height)),
            ..s
        },
        None => s,
    };
    if !s.is_typing_search_term {
        t == s
    } else if s.search_term@.len() > 0 {
        match first_match_in(repo, dates, s.search_term@, 0, repo.commits@.len() as int) {
            Some(i) => t == (State { index_of_selected_row: i as usize, ..s }),
            None => t == back,
        }
    } else {
        t == back
    }
}

pub fn update_selection_for_live_search(
    state: &mut State,
    repo: &Repo,
    dates: &Vec<String>,
    terminal_height: u16,
)
    requires
        repo.wf(),
        head_known(*repo),
        dates@.len() == repo.commits@.len(),
    ensures
        live_searched(*old(state), *final(state), *repo, dates@, terminal_height),
{
    if !state.is_typing_search_term {
        return;
    }
    if !is_empty(state.search_term.as_str()) {
        match find_first(repo, dates, state.search_term.as_str(), 0, repo.commits.len()) {
            Some(idx) => {
                state.index_of_selected_row = idx;
                return;
            },
            None => {},
        }
    }
    match state.index_of_selected_row_when_search_began {
        Some(pre) => {
            state.index_of_selected_row = pre;
            state.center_view_on_selected_row(terminal_height);
        },
        None => {},
    }
}


// ---------------------------------------------------------------------------
// Laws
// ---------------------------------------------------------------------------

proof fn lemma_first_match_in(repo: Repo, dates: Seq<String>, term: Seq<char>, lo: int, hi: int)
    ensures
        first_match_in(repo, dates, term, lo, hi) matches Some(i) ==> lo <= i < hi && matches_at(
            repo,
            dates,
            term,
            i,
        ),
        (exists|j: int| lo <= j < hi && #[trigger] matches_at(repo, dates, term, j))
            ==> first_match_in(repo, dates, term, lo, hi) is Some,
    decreases hi - lo,
{
    if lo < hi {
        lemma_first_match_in(repo, dates, term, lo + 1, hi);
        if exists|j: int| lo <= j < hi && #[trigger] matches_at(repo, dates, term, j) {
            let j = choose|j: int| lo <= j < hi && #[trigger] matches_at(repo, dates, term, j);
            if j != lo {
                assert(lo + 1 <= j < hi && matches_at(repo, dates, term, j));
            }
        }
    }
}

proof fn lemma_last_match_in(repo: Repo, dates: Seq<String>, term: Seq<char>, lo: int, hi: int)
    ensures
        last_match_in(repo, dates, term, lo, hi) matches Some(i) ==> lo <= i < hi && matches_at(
            repo,
            dates,
            term,
            i,
        ),
        (exists|j: int| lo <= j < hi && #[trigger] matches_at(repo, dates, term, j))
            ==> last_match_in(repo, dates, term, lo, hi) is Some,
    decreases hi - lo,
{
    if lo < hi {
        lemma_last_match_in(repo, dates, term, lo, hi - 1);
        if exists|j: int| lo <= j < hi && #[trigger] matches_at(repo, dates, term, j) {
            let j = choose|j: int| lo <= j < hi && #[trigger] matches_at(repo, dates, term, j);
            if j != hi - 1 {
                assert(lo <= j < hi - 1 && matches_at(repo, dates, term, j));
            }
        }
    }
}

/// `n` and `N` land on a matching commit other than the selected one, and
/// find one whenever there is one (wrapping around the ends of the list).
pub proof fn law_search_lands_on_matches(repo: Repo, dates: Seq<String>, term: Seq<char>, sel: int)
    requires
        0 <= sel,
    ensures
        next_match(repo, dates, term, sel) matches Some(i) ==> 0 <= i < repo.commits@.len() && i
            != sel && matches_at(repo, dates, term, i),
        previous_match(repo, dates, term, sel) matches Some(i) ==> 0 <= i < repo.commits@.len()
            && i != sel && matches_at(repo, dates, term, i),
        (exists|j: int|
            0 <= j < repo.commits@.len() && j != sel && #[trigger] matches_at(repo, dates, term, j))
            ==> next_match(repo, dates, term, sel) is Some && previous_match(repo, dates, term, sel) is Some,
{
    let n = repo.commits@.len() as int;
    let below = if sel < n {
        sel
    } else {
        n
    };
    lemma_first_match_in(repo, dates, term, sel + 1, n);
    lemma_first_match_in(repo, dates, term, 0, below);
    lemma_last_match_in(repo, dates, term, 0, below);
    lemma_last_match_in(repo, dates, term, sel + 1, n);
    if exists|j: int| 0 <= j < n && j != sel && #[trigger] matches_at(repo, dates, term, j) {
        let j = choose|j: int| 0 <= j < n && j != sel && #[trigger] matches_at(repo, dates, term, j);
        if j < sel {
            assert(0 <= j < below && matches_at(repo, dates, term, j));
        } else {
            assert(sel + 1 <= j < n && matches_at(repo, dates, term, j));
        }
    }
}

proof fn lemma_first_match_least(repo: Repo, dates: Seq<String>, term: Seq<char>, lo: int, hi: int)
    ensures
        first_match_in(repo, dates, term, lo, hi) matches Some(i) ==> forall|j: int|
            lo <= j < i ==> !#[trigger] matches_at(repo, dates, term, j),
        first_match_in(repo, dates, term, lo, hi) is None ==> forall|j: int|
            lo <= j < hi ==> !#[trigger] matches_at(repo, dates, term, j),
    decreases hi - lo,
{
    if lo < hi {
        lemma_first_match_least(repo, dates, term, lo + 1, hi);
    }
}

proof fn lemma_last_match_least(repo: Repo, dates: Seq<String>, term: Seq<char>, lo: int, hi: int)
    ensures
        last_match_in(repo, dates, term, lo, hi) matches Some(i) ==> forall|j: int|
            i < j < hi ==> !#[trigger] matches_at(repo, dates, term, j),
        last_match_in(repo, dates, term, lo, hi) is None ==> forall|j: int|
            lo <= j < hi ==> !#[trigger] matches_at(repo, dates, term, j),
    decreases hi - lo,
{
    if lo < hi {
        lemma_last_match_least(repo, dates, term, lo, hi - 1);
    }
}

/// `n` goes to the nearest matching commit below the selected one, and
/// past the end of the list on to the first match from the top: no commit
/// it skips over matches. `N` goes likewise to the nearest match above,
/// and past the top on to the last match from the bottom. When they find
/// nothing, no commit but the selected one matches.
pub proof fn law_search_moves_to_nearest_match(repo: Repo, dates: Seq<String>, term: Seq<char>, sel: int)
    requires
        0 <= sel < repo.commits@.len(),
    ensures
        next_match(repo, dates, term, sel) matches Some(i) ==> {
            &&& (i > sel ==> forall|j: int| sel < j < i ==> !#[trigger] matches_at(repo, dates, term, j))
            &&& (i < sel ==> forall|j: int|
                (sel < j < repo.commits@.len() || 0 <= j < i) ==> !#[trigger] matches_at(
                    repo,
                    dates,
                    term,
                    j,
                ))
        },
        previous_match(repo, dates, term, sel) matches Some(i) ==> {
            &&& (i < sel ==> forall|j: int| i < j < sel ==> !#[trigger] matches_at(repo, dates, term, j))
            &&& (i > sel ==> forall|j: int|
                (0 <= j < sel || i < j < repo.commits@.len()) ==> !#[trigger] matches_at(
                    repo,
                    dates,
                    term,
                    j,
                ))
        },
        next_match(repo, dates, term, sel) is None || previous_match(repo, dates, term, sel) is None
            ==> forall|j: int|
            0 <= j < repo.commits@.len() && j != sel ==> !#[trigger] matches_at(repo, dates, term, j),
{
    let n = repo.commits@.len() as int;
    lemma_first_match_in(repo, dates, term, sel + 1, n);
    lemma_first_match_in(repo, dates, term, 0, sel);
    lemma_last_match_in(repo, dates, term, 0, sel);
    lemma_last_match_in(repo, dates, term, sel + 1, n);
    lemma_first_match_least(repo, dates, term, sel + 1, n);
    lemma_first_match_least(repo, dates, term, 0, sel);
    lemma_last_match_least(repo, dates, term, 0, sel);
    lemma_last_match_least(repo, dates, term, sel + 1, n);
}

/// The search looks at the dates the list shows: a term that stands in a
/// commit's shown date (as typed, for a term in mixed case; ignoring case
/// otherwise) makes the commit match. `commit_dates` gives, for each
/// commit, its date as the list shows it.
pub proof fn law_search_sees_shown_date(repo: Repo, dates: Seq<String>, term: Seq<char>, i: int)
    requires
        0 <= i < repo.commits@.len(),
        i < dates.len(),
        term.len() > 0,
        if crate::text::mixed_case(term) {
            crate::text::occurs_in(dates[i]@, term)
        } else {
            crate::text::occurs_in(crate::text::lowercase(dates[i]@), crate::text::lowercase(term))
        },
    ensures
        matches_at(repo, dates, term, i),
{
}

/// Escape while typing a search in the commit list puts the cursor and
/// the scroll back where they were when `/` started it, with no term.
pub proof fn law_cancel_returns_to_start(
    s: State,
    t: State,
    u: State,
    e: crate::action::Effect,
    repo: Repo,
    ctx: crate::action::Context,
    dates: Seq<String>,
)
    requires
        s.commit_details is None,
        crate::normal::normal_step(Action::CharSlash, s, t, e, repo, ctx, dates),
        cancelled(t, u),
    ensures
        u.index_of_selected_row == s.index_of_selected_row,
        u.index_of_topmost_visible_row == s.index_of_topmost_visible_row,
        u.search_term@.len() == 0,
        !u.is_typing_search_term,
{
}

/// Whether `a`, pressed while a term is typed in `s`, goes on with the
/// search: every key but Escape, Ctrl-C, Enter, and Backspace with
/// nothing left to delete.
pub open spec fn continues_search(a: Action, s: State) -> bool {
    let term = if s.commit_details is Some {
        s.details_search_term@
    } else {
        s.search_term@
    };
    &&& a != Action::Esc
    &&& a != Action::CtrlC
    &&& a != Action::Enter
    &&& !(a == Action::Backspace && term.len() == 0)
}

/// One step of a search being typed: a key that goes on with it
/// (`Some`), or the cursor following the term as it stands (`None`).
pub open spec fn search_goes_on(
    key: Option<Action>,
    s: State,
    t: State,
    repo: Repo,
    dates: Seq<String>,
    terminal_width: u16,
    terminal_height: u16,
) -> bool {
    match key {
        Some(a) => continues_search(a, s) && typing_step(a, s, t, repo, dates, terminal_width),
        None => live_searched(s, t, repo, dates, terminal_height),
    }
}

proof fn lemma_search_goes_on_keeps_start(
    key: Option<Action>,
    s: State,
    t: State,
    repo: Repo,
    dates: Seq<String>,
    w: u16,
    h: u16,
)
    requires
        search_goes_on(key, s, t, repo, dates, w, h),
    ensures
        t.commit_details == s.commit_details,
        t.index_of_selected_row_when_search_began == s.index_of_selected_row_when_search_began,
        t.index_of_topmost_visible_row_when_search_began == s.index_of_topmost_visible_row_when_search_began,
{
    match key {
        Some(a) => {
            match a {
                Action::Esc | Action::CtrlC | Action::Enter => {},
                Action::Up => {},
                Action::Down => {},
                Action::Backspace => {},
                _ => {
                    match typed(a) {
                        Some(_) => {},
                        None => {},
                    }
                },
            }
        },
        None => {},
    }
}

proof fn lemma_session_keeps_start(
    states: Seq<State>,
    keys: Seq<Option<Action>>,
    repo: Repo,
    dates: Seq<String>,
    w: u16,
    h: u16,
    n: int,
)
    requires
        keys.len() + 1 == states.len(),
        0 <= n <= keys.len(),
        forall|k: int|
            0 <= k < keys.len() ==> search_goes_on(#[trigger] keys[k], states[k], states[k + 1], repo, dates, w, h),
    ensures
        states[n].commit_details == states[0].commit_details,
        states[n].index_of_selected_row_when_search_began == states[0].index_of_selected_row_when_search_began,
        states[n].index_of_topmost_visible_row_when_search_began
            == states[0].index_of_topmost_visible_row_when_search_began,
    decreases n,
{
    if n > 0 {
        lemma_session_keeps_start(states, keys, repo, dates, w, h, n - 1);
        lemma_search_goes_on_keeps_start(keys[n - 1], states[n - 1], states[n], repo, dates, w, h);
    }
}

/// Escape after a whole search typed in the commit list puts the cursor
/// and the scroll back where they were when `/` started it. `states[0]` is
/// the state after `/`; between it and the last state come any number of
/// typed characters, Backspaces with text to delete, moves through the
/// history and jumps of the cursor to the first match; Escape then leaves
/// no term, no history entry viewed and nothing saved of the start.
pub proof fn law_cancel_after_typing_returns_to_start(
    s: State,
    states: Seq<State>,
    keys: Seq<Option<Action>>,
    u: State,
    e: crate::action::Effect,
    repo: Repo,
    ctx: crate::action::Context,
    dates: Seq<String>,
    terminal_width: u16,
    terminal_height: u16,
)
    requires
        s.commit_details is None,
        keys.len() + 1 == states.len(),
        crate::normal::normal_step(Action::CharSlash, s, states[0], e, repo, ctx, dates),
        forall|k: int|
            0 <= k < keys.len() ==> search_goes_on(
                #[trigger] keys[k],
                states[k],
                states[k + 1],
                repo,
                dates,
                terminal_width,
                terminal_height,
            ),
        cancelled(states.last(), u),
    ensures
        u.index_of_selected_row == s.index_of_selected_row,
        u.index_of_topmost_visible_row == s.index_of_topmost_visible_row,
        u.search_term@.len() == 0,
        !u.is_typing_search_term,
        u.index_of_search_term_history_being_viewed is None,
        u.index_of_selected_row_when_search_began is None,
        u.index_of_topmost_visible_row_when_search_began is None,
{
    lemma_session_keeps_start(states, keys, repo, dates, terminal_width, terminal_height, keys.len() as int);
    assert(states.last() == states[keys.len() as int]);
}

/// No two neighbouring entries of the search history are the same, if
/// none were before a search was confirmed.
pub open spec fn no_repeats(h: Seq<Seq<char>>) -> bool {
    forall|i: int| 0 <= i < h.len() - 1 ==> #[trigger] h[i] != h[i + 1]
}

/// Confirming a search never puts the term into the history right after
/// the same term.
pub proof fn law_history_has_no_repeats(s: State, t: State, repo: Repo, dates: Seq<String>, w: u16)
    requires
        confirmed(s, t, repo, dates, w),
        no_repeats(names_view(s.search_term_history@)),
    ensures
        no_repeats(names_view(t.search_term_history@)),
{
    if s.commit_details is None {
        let h = names_view(s.search_term_history@);
        let h2 = names_view(t.search_term_history@);
        if h2 != h {
            assert forall|i: int| 0 <= i < h2.len() - 1 implies #[trigger] h2[i] != h2[i + 1] by {
                if i < h.len() - 1 {
                    assert(h2[i] == h[i] && h2[i + 1] == h[i + 1]);
                }
            }
        }
    }
}

/// After `n` in the details panel the selected match is one of the rows
/// showing a match, and the counter says which one it is.
pub proof fn law_detail_match_selected(s: State, height: usize, w: u16)
    requires
        details_matches(s, w).len() > 0,
        details_matches(s, w).len() <= usize::MAX,
        forall|k: int| 0 <= k < details_matches(s, w).len() ==> 0 <= #[trigger] details_matches(s, w)[k] <= usize::MAX,
    ensures
        ({
            let t = next_detail_match(s, height, w);
            let rows = details_matches(s, w);
            &&& t.details_selected_match_line is Some
            &&& t.details_selected_match_index is Some
            &&& 0 <= t.details_selected_match_index->0 < rows.len()
            &&& rows[t.details_selected_match_index->0 as int] == t.details_selected_match_line->0
        }),
        ({
            let t = previous_detail_match(s, height, w);
            let rows = details_matches(s, w);
            &&& t.details_selected_match_line is Some
            &&& t.details_selected_match_index is Some
            &&& 0 <= t.details_selected_match_index->0 < rows.len()
            &&& rows[t.details_selected_match_index->0 as int] == t.details_selected_match_line->0
        }),
{
    let rows = details_matches(s, w);
    let current = match s.details_selected_match_line {
        Some(l) => l,
        None => s.details_scroll_offset,
    };
    lemma_first_after(rows, current as int, 0);
    lemma_last_before(rows, current as int, rows.len() as int);
}

proof fn lemma_first_after(rows: Seq<int>, current: int, k: int)
    ensures
        first_after(rows, current, k) matches Some(j) ==> k <= j < rows.len() && 0 <= j,
    decreases rows.len() - k,
{
    if 0 <= k < rows.len() {
        lemma_first_after(rows, current, k + 1);
    }
}

proof fn lemma_last_before(rows: Seq<int>, current: int, k: int)
    ensures
        last_before(rows, current, k) matches Some(j) ==> 0 <= j < k,
    decreases k,
{
    if k > 0 {
        lemma_last_before(rows, current, k - 1);
    }
}

} // verus!
