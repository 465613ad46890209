//! What the search bar says: how many commits (or rows of the details
//! panel) match, which of them is selected, and which way the search
//! history can be walked.

use vstd::prelude::*;
use crate::repo::Repo;
use crate::search::{compute_details_match_lines, details_matches, matches_at};
use crate::state::{head_known, head_of, State};
use crate::text::{
    chars_of, decimal, decimal_chars, extend_chars, is_empty, lines_of, slice_chars, split_lines,
    string_of,
};

verus! {

broadcast use vstd::string::group_string_axioms;

/// The commits among the first `n` that match `term`, in order.
pub open spec fn match_indices(repo: Repo, dates: Seq<String>, term: Seq<char>, n: int) -> Seq<int>
    decreases n,
{
    if n <= 0 {
        Seq::empty()
    } else {
        let r = match_indices(repo, dates, term, n - 1);
        if matches_at(repo, dates, term, n - 1) {
            r.push(n - 1)
        } else {
            r
        }
    }
}

/// Where `x` first occurs in `s`.
pub open spec fn position_of(s: Seq<int>, x: int, k: int) -> Option<int>
    decreases s.len() - k,
{
    if k < 0 || k >= s.len() {
        None
    } else if s[k] == x {
        Some(k)
    } else {
        position_of(s, x, k + 1)
    }
}

/// The counter at the right of the bar: the selected match's place among
/// `total`, or how many there are.
pub open spec fn counter_of(total: int, current: Option<int>) -> Seq<char> {
    if total > 0 {
        match current {
            Some(p) => "[ "@ + decimal(p as nat) + " / "@ + decimal(total as nat) + " ]"@,
            None => "[ "@ + decimal(total as nat) + " matches ]"@,
        }
    } else {
        "[ no matches ]"@
    }
}

/// How many matches there are while the term is typed: commits in the
/// list, rows in the details panel.
pub open spec fn count_of(n: int, commits: bool) -> Seq<char> {
    if n == 0 {
        "no matches   "@
    } else if n == 1 {
        if commits {
            "1 commit   "@
        } else {
            "1 match   "@
        }
    } else {
        decimal(n as nat) + if commits {
            " commits   "@
        } else {
            " matches   "@
        }
    }
}

/// Which way Up and Down walk the history from the entry viewed (none
/// viewed: from the newest end).
pub open spec fn history_hint_of(len: int, viewed: Option<usize>) -> Seq<char> {
    let older = match viewed {
        None => len > 0,
        Some(i) => i != 0,
    };
    let newer = match viewed {
        None => false,
        Some(i) => i < len - 1,
    };
    if older && newer {
        "↑↓ history   "@
    } else if older {
        "↑ history   "@
    } else if newer {
        "↓ history   "@
    } else {
        ""@
    }
}

/// The matching commits, in order.
pub fn commit_match_indices(repo: &Repo, dates: &Vec<String>, term: &str) -> (r: Vec<usize>)
    requires
        repo.wf(),
        head_known(*repo),
        dates@.len() == repo.commits@.len(),
    ensures
        r@.map_values(|x: usize| x as int) == match_indices(*repo, dates@, term@, repo.commits@.len() as int),
{
    let head = repo.head_sha();
    let mut r: Vec<usize> = Vec::new();
    let mut i: usize = 0;
    while i < repo.commits.len()
        invariant
            i <= repo.commits@.len(),
            dates@.len() == repo.commits@.len(),
            head == head_of(*repo),
            r@.map_values(|x: usize| x as int) == match_indices(*repo, dates@, term@, i as int),
        decreases repo.commits.len() - i,
    {
        let ghost before = r@;
        if repo.commits[i].matches_with_date(term, &repo.branches, &head, dates[i].as_str()) {
            r.push(i);
            proof {
                assert(r@.map_values(|x: usize| x as int) =~= before.map_values(|x: usize| x as int).push(
                    i as int,
                ));
            }
        }
        i += 1;
    }
    r
}

/// Where `x` first occurs in `s`.
pub fn position_in(s: &Vec<usize>, x: usize) -> (r: Option<usize>)
    ensures
        match r {
            Some(k) => position_of(s@.map_values(|v: usize| v as int), x as int, 0) == Some(k as int)
                && k < s@.len(),
            None => position_of(s@.map_values(|v: usize| v as int), x as int, 0) is None,
        },
{
    let ghost sv = s@.map_values(|v: usize| v as int);
    let mut k: usize = 0;
    while k < s.len()
        invariant
            k <= s@.len(),
            sv == s@.map_values(|v: usize| v as int),
            position_of(sv, x as int, k as int) == position_of(sv, x as int, 0),
        decreases s.len() - k,
    {
        if s[k] == x {
            return Some(k);
        }
        k += 1;
    }
    None
}

fn decimal_of(n: usize) -> (r: Vec<char>)
    ensures
        r@ == decimal(n as nat),
{
    decimal_chars(n as u64)
}

/// The counter at the right of the bar.
pub fn counter_text(total: usize, current: Option<usize>) -> (r: String)
    ensures
        r@ == counter_of(
            total as int,
            match current {
                Some(p) => Some(p as int),
                None => None,
            },
        ),
{
    if total > 0 {
        match current {
            Some(p) => {
                let mut v = chars_of("[ ");
                extend_chars(&mut v, &decimal_of(p));
                extend_chars(&mut v, &chars_of(" / "));
                extend_chars(&mut v, &decimal_of(total));
                extend_chars(&mut v, &chars_of(" ]"));
                string_of(&v)
            },
            None => {
                let mut v = chars_of("[ ");
                extend_chars(&mut v, &decimal_of(total));
                extend_chars(&mut v, &chars_of(" matches ]"));
                string_of(&v)
            },
        }
    } else {
        string_of(&chars_of("[ no matches ]"))
    }
}

/// The counter of the commit list: the selected commit's place among the
/// matching ones.
pub fn commit_counter(repo: &Repo, dates: &Vec<String>, term: &str, selected: usize) -> (r: String)
    requires
        repo.wf(),
        head_known(*repo),
        dates@.len() == repo.commits@.len(),
    ensures
        ({
            let m = match_indices(*repo, dates@, term@, repo.commits@.len() as int);
            r@ == counter_of(
                m.len() as int,
                match position_of(m, selected as int, 0) {
                    Some(k) => Some(k + 1),
                    None => None,
                },
            )
        }),
{
    let m = commit_match_indices(repo, dates, term);
    let ghost mv = m@.map_values(|x: usize| x as int);
    let pos = position_in(&m, selected);
    let current = match pos {
        Some(k) => Some(k + 1),
        None => None,
    };
    proof {
        assert(mv.len() == m@.len());
    }
    counter_text(m.len(), current)
}

/// The counter of the details panel: the selected match's place among
/// `total` matching rows.
pub fn details_counter(total: usize, selected_index: Option<usize>) -> (r: String)
    requires
        selected_index matches Some(i) ==> i < usize::MAX,
    ensures
        r@ == counter_of(
            total as int,
            match selected_index {
                Some(i) => Some(i + 1),
                None => None,
            },
        ),
{
    let current = match selected_index {
        Some(i) => Some(i + 1),
        None => None,
    };
    counter_text(total, current)
}

/// How many matches there are, said while the term is typed.
pub fn count_text(n: usize, commits: bool) -> (r: String)
    ensures
        r@ == count_of(n as int, commits),
{
    if n == 0 {
        string_of(&chars_of("no matches   "))
    } else if n == 1 {
        if commits {
            string_of(&chars_of("1 commit   "))
        } else {
            string_of(&chars_of("1 match   "))
        }
    } else {
        let mut v = decimal_of(n);
        if commits {
            extend_chars(&mut v, &chars_of(" commits   "));
        } else {
            extend_chars(&mut v, &chars_of(" matches   "));
        }
        string_of(&v)
    }
}

/// Which way the history can be walked, said while a term is typed.
pub fn history_hint(len: usize, viewed: Option<usize>) -> (r: String)
    requires
        viewed is Some ==> len > 0,
    ensures
        r@ == history_hint_of(len as int, viewed),
{
    let older = match viewed {
        None => len > 0,
        Some(i) => i != 0,
    };
    let newer = match viewed {
        None => false,
        Some(i) => i < len - 1,
    };
    let text = if older && newer {
        "↑↓ history   "
    } else if older {
        "↑ history   "
    } else if newer {
        "↓ history   "
    } else {
        ""
    };
    string_of(&chars_of(text))
}

proof fn lemma_position_found(s: Seq<int>, x: int, k: int, j: int)
    requires
        0 <= k <= j < s.len(),
        s[j] == x,
    ensures
        position_of(s, x, k) matches Some(p) && k <= p <= j && s[p] == x,
    decreases j - k,
{
    if s[k] != x {
        lemma_position_found(s, x, k + 1, j);
    }
}

proof fn lemma_match_listed(repo: Repo, dates: Seq<String>, term: Seq<char>, n: int, sel: int)
    requires
        0 <= sel < n,
        matches_at(repo, dates, term, sel),
    ensures
        exists|j: int|
            0 <= j < match_indices(repo, dates, term, n).len() && #[trigger] match_indices(
                repo,
                dates,
                term,
                n,
            )[j] == sel,
    decreases n,
{
    let r = match_indices(repo, dates, term, n - 1);
    if sel == n - 1 {
        assert(match_indices(repo, dates, term, n)[r.len() as int] == sel);
    } else {
        lemma_match_listed(repo, dates, term, n - 1, sel);
        let j = choose|j: int| 0 <= j < r.len() && #[trigger] r[j] == sel;
        assert(match_indices(repo, dates, term, n)[j] == sel);
    }
}

/// When the selected commit matches, the counter gives its place: the
/// selected commit is found among the matching ones.
pub proof fn law_counter_finds_selected(repo: Repo, dates: Seq<String>, term: Seq<char>, sel: int)
    requires
        0 <= sel < repo.commits@.len(),
        matches_at(repo, dates, term, sel),
    ensures
        ({
            let m = match_indices(repo, dates, term, repo.commits@.len() as int);
            position_of(m, sel, 0) matches Some(p) && 0 <= p < m.len() && m[p] == sel
        }),
{
    let n = repo.commits@.len() as int;
    lemma_match_listed(repo, dates, term, n, sel);
    let m = match_indices(repo, dates, term, n);
    let j = choose|j: int| 0 <= j < m.len() && #[trigger] m[j] == sel;
    lemma_position_found(m, sel, 0, j);
}

// ---------------------------------------------------------------------------
// The texts of the bar
// ---------------------------------------------------------------------------

/// The term the bar searches with: the details panel's while it is open.
pub open spec fn active_term(s: State) -> Seq<char> {
    if s.commit_details is Some {
        s.details_search_term@
    } else {
        s.search_term@
    }
}

/// What the right of the bar says while a term is typed: how many rows of
/// the details panel (in a terminal `w` columns wide) or commits match;
/// before anything is typed in the commit list, which way the history can
/// be walked.
pub open spec fn typing_info_of(s: State, repo: Repo, dates: Seq<String>, w: u16) -> Seq<char> {
    if active_term(s).len() == 0 {
        if s.commit_details is None {
            history_hint_of(s.search_term_history@.len() as int, s.index_of_search_term_history_being_viewed)
        } else {
            Seq::empty()
        }
    } else if s.commit_details is Some {
        count_of(details_matches(s, w).len() as int, false)
    } else {
        count_of(match_indices(repo, dates, active_term(s), repo.commits@.len() as int).len() as int, true)
    }
}

/// The match count, or the history hint, shown while a term is typed.
pub fn typing_info(state: &State, repo: &Repo, dates: &Vec<String>, terminal_width: u16) -> (r: String)
    requires
        repo.wf(),
        head_known(*repo),
        dates@.len() == repo.commits@.len(),
        active_term(*state).len() == 0 && state.commit_details is None
            && state.index_of_search_term_history_being_viewed is Some
            ==> state.search_term_history@.len() > 0,
    ensures
        r@ == typing_info_of(*state, *repo, dates@, terminal_width),
{
    let term = match &state.commit_details {
        Some(_) => state.details_search_term.as_str(),
        None => state.search_term.as_str(),
    };
    if is_empty(term) {
        match &state.commit_details {
            None => history_hint(state.search_term_history.len(), state.index_of_search_term_history_being_viewed),
            Some(_) => string_of(&Vec::new()),
        }
    } else {
        match &state.commit_details {
            Some(_) => {
                let rows = compute_details_match_lines(state, terminal_width);
                proof {
                    assert(rows@.map_values(|x: usize| x as int).len() == rows@.len());
                }
                count_text(rows.len(), false)
            },
            None => {
                let m = commit_match_indices(repo, dates, term);
                proof {
                    assert(m@.map_values(|x: usize| x as int).len() == m@.len());
                }
                count_text(m.len(), true)
            },
        }
    }
}

/// The first line of a commit's message as the revert prompt quotes it:
/// its first forty characters and "..." after them when it is longer.
pub open spec fn revert_preview_of(message: Seq<char>) -> Seq<char> {
    let lines = lines_of(message);
    let first = if lines.len() > 0 {
        lines[0]
    } else {
        Seq::empty()
    };
    if first.len() > 40 {
        first.take(40) + "..."@
    } else {
        first
    }
}

/// The message the revert prompt quotes.
pub fn revert_preview(message: &str) -> (r: String)
    ensures
        r@ == revert_preview_of(message@),
{
    let lines = split_lines(&chars_of(message));
    if lines.len() == 0 {
        let none: Vec<char> = Vec::new();
        return string_of(&none);
    }
    let first = &lines[0];
    proof {
        assert(first@ == lines.deep_view()[0]);
    }
    if first.len() > 40 {
        let mut v = slice_chars(first, 0, 40);
        extend_chars(&mut v, &chars_of("..."));
        proof {
            assert(first@.subrange(0, 40) == first@.take(40));
        }
        string_of(&v)
    } else {
        string_of(first)
    }
}

} // verus!
