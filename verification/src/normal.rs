//! The commit list and the details panel when no prompt is open: moving
//! the cursor, scrolling, searching, and opening the prompts.

use vstd::prelude::*;
use crate::action::{Action, Context, Effect};
use crate::commit_graph::{first_commit, first_commit_index};
use crate::complete::names_view;
use crate::layout::{cache_view, details_content_height, details_rows, owned_cache_view};
use crate::prompt::{selected_commit_sha, selected_sha};
use crate::repo::{branches_view, on_remote, Repo};
use crate::search::{
    details_width, find_next_match, find_next_match_in_details, find_previous_match,
    find_previous_match_in_details, moved_to, next_detail_match, next_match,
    previous_detail_match, previous_match,
};
use crate::sha::same_sha;
use crate::staging::{min_of, scrolled_down};
use crate::state::{flash, head_known, head_of, shows, State};
use crate::text::{chars_of, copy_string, is_empty, parse_usize, parsed_usize, pop_char, push_char, string_of};
use crate::viewport::{centered_top, graph_height, DETAILS_COMMIT_LIST_HEIGHT, DETAILS_HORIZONTAL_PADDING};

verus! {

broadcast use vstd::string::group_string_axioms;

// ---------------------------------------------------------------------------
// Sizes
// ---------------------------------------------------------------------------

/// The rows the help panel takes when it is shown.
pub const HELP_PANEL_HEIGHT: u16 = 5;

/// The rows of the details panel: the terminal less the search bar, the
/// help panel when shown, the commit list above and the panel's border.
pub open spec fn details_view_height(terminal_height: u16, help: bool) -> usize {
    let x = terminal_height - 3 - (if help {
        HELP_PANEL_HEIGHT as int
    } else {
        0
    }) - DETAILS_COMMIT_LIST_HEIGHT - 1;
    if x > 0 {
        x as usize
    } else {
        0
    }
}

/// The rows of the details panel.
pub fn details_panel_height(terminal_height: u16, help: bool) -> (r: usize)
    ensures
        r == details_view_height(terminal_height, help),
{
    let h = terminal_height.saturating_sub(3).saturating_sub(
        if help {
            HELP_PANEL_HEIGHT
        } else {
            0
        },
    ).saturating_sub(DETAILS_COMMIT_LIST_HEIGHT).saturating_sub(1);
    h as usize
}

/// The rows the details panel draws for the open commit in a terminal `w`
/// columns wide (long lines wrapped, a blank row under each file); none
/// when no details are open.
pub open spec fn details_content(s: State, w: u16) -> int {
    match s.commit_details {
        Some(d) => details_rows(
            d,
            owned_cache_view(s.highlight_cache),
            s.details_search_term@,
            details_width(w),
            Seq::empty(),
        ).len() as int,
        None => 0,
    }
}

/// How far the details panel scrolls: until the end of its rows (as the
/// panel draws them, `w` being the terminal's width) is at the bottom.
pub open spec fn details_max(s: State, terminal_height: u16, w: u16) -> int {
    match s.commit_details {
        Some(d) => {
            let view = details_view_height(terminal_height, s.is_showing_help_panel);
            if details_content(s, w) > view {
                details_content(s, w) - view
            } else {
                0
            }
        },
        None => 0,
    }
}

/// Compute the total number of lines in the details view content: every
/// row the panel draws for the open commit in a terminal `terminal_width`
/// columns wide, and zero when no details are open.
pub fn compute_details_content_height(state: &State, terminal_width: u16) -> (r: usize)
    ensures
        r == details_content(*state, terminal_width),
{
    match &state.commit_details {
        Some(d) => {
            let cache = state.highlight_cache.as_ref();
            proof {
                assert(cache_view(cache) == owned_cache_view(state.highlight_cache));
            }
            let width = terminal_width.saturating_sub(DETAILS_HORIZONTAL_PADDING);
            details_content_height(d, cache, state.details_search_term.as_str(), width)
        },
        None => 0,
    }
}

fn details_max_exec(state: &State, terminal_height: u16, w: u16) -> (r: usize)
    ensures
        r == details_max(*state, terminal_height, w),
{
    let content = compute_details_content_height(state, w);
    match &state.commit_details {
        Some(_) => content.saturating_sub(details_panel_height(terminal_height, state.is_showing_help_panel)),
        None => 0,
    }
}

/// The number typed before a motion key, or one.
pub open spec fn jump_count(s: State) -> int {
    match parsed_usize(s.jump_distance_string@) {
        Some(n) => n as int,
        None => 1,
    }
}

/// The last row of the commit list (the first one when it is empty).
pub open spec fn last_row(repo: Repo) -> int {
    if repo.commits@.len() > 0 {
        repo.commits@.len() - 1
    } else {
        0
    }
}

/// `s` with the typed number dropped, as in `t`.
pub open spec fn unjumped(s: State, t: State) -> State {
    State { jump_distance_string: t.jump_distance_string, ..s }
}

fn clear_jump(state: &mut State)
    ensures
        *final(state) == unjumped(*old(state), *final(state)),
        final(state).jump_distance_string@.len() == 0,
{
    state.jump_distance_string = String::new();
}

fn jump_count_exec(state: &State) -> (r: usize)
    ensures
        r == jump_count(*state),
{
    match parse_usize(&chars_of(state.jump_distance_string.as_str())) {
        Some(n) => n,
        None => 1,
    }
}

// ---------------------------------------------------------------------------
// Leaving
// ---------------------------------------------------------------------------

/// Escape: the details search, then the details panel, then the typed
/// number, then the search term go; with none of them the app quits.
pub open spec fn escaped(s: State, t: State, e: Effect) -> bool {
    if s.commit_details is Some {
        &&& e is Nothing
        &&& t.details_search_term@.len() == 0
        &&& if s.details_search_term@.len() > 0 {
            t == (State {
                details_search_term: t.details_search_term,
                details_selected_match_line: None,
                details_selected_match_index: None,
                ..s
            })
        } else {
            t == (State {
                commit_details: None,
                details_scroll_offset: 0,
                details_search_term: t.details_search_term,
                details_selected_match_line: None,
                details_selected_match_index: None,
                ..s
            })
        }
    } else if s.jump_distance_string@.len() > 0 {
        t == unjumped(s, t) && t.jump_distance_string@.len() == 0 && e is Nothing
    } else if s.search_term@.len() == 0 {
        t == s && e is Quit
    } else {
        t == (State { search_term: t.search_term, ..s }) && t.search_term@.len() == 0
            && e is Nothing
    }
}

fn escape(state: &mut State) -> (e: Effect)
    ensures
        escaped(*old(state), *final(state), e),
{
    if state.commit_details.is_some() {
        if !is_empty(state.details_search_term.as_str()) {
            state.details_search_term = String::new();
            state.details_selected_match_line = None;
            state.details_selected_match_index = None;
        } else {
            state.commit_details = None;
            state.details_scroll_offset = 0;
            state.details_search_term = String::new();
            state.details_selected_match_line = None;
            state.details_selected_match_index = None;
        }
        Effect::Nothing
    } else if !is_empty(state.jump_distance_string.as_str()) {
        state.jump_distance_string = String::new();
        Effect::Nothing
    } else if is_empty(state.search_term.as_str()) {
        Effect::Quit
    } else {
        state.search_term = String::new();
        Effect::Nothing
    }
}

/// Closing the details panel: its scroll and search go with it.
pub open spec fn details_closed(s: State, t: State) -> bool {
    &&& t == (State {
        commit_details: None,
        details_scroll_offset: 0,
        details_search_term: t.details_search_term,
        details_selected_match_line: None,
        details_selected_match_index: None,
        ..s
    })
    &&& t.details_search_term@.len() == 0
}

fn close_details(state: &mut State)
    ensures
        details_closed(*old(state), *final(state)),
{
    state.commit_details = None;
    state.details_scroll_offset = 0;
    state.details_search_term = String::new();
    state.details_selected_match_line = None;
    state.details_selected_match_index = None;
}

// ---------------------------------------------------------------------------
// Moving
// ---------------------------------------------------------------------------

/// Moving down by `step`: the details panel scrolls (up to its end), or
/// the cursor moves (up to the last commit).
pub open spec fn moved_down(s: State, t: State, step: int, repo: Repo, terminal_height: u16, w: u16) -> bool {
    if s.commit_details is Some {
        t == (State {
            details_scroll_offset: min_of(
                s.details_scroll_offset + step,
                details_max(s, terminal_height, w),
            ) as usize,
            ..s
        })
    } else {
        t == (State {
            index_of_selected_row: min_of(s.index_of_selected_row + step, last_row(repo)) as usize,
            ..s
        })
    }
}

fn move_down(state: &mut State, step: usize, repo: &Repo, terminal_height: u16, w: u16)
    ensures
        moved_down(*old(state), *final(state), step as int, *repo, terminal_height, w),
{
    if state.commit_details.is_some() {
        let max = details_max_exec(state, terminal_height, w);
        state.details_scroll_offset = scrolled_down(state.details_scroll_offset, step, max);
    } else {
        let last = repo.commits.len().saturating_sub(1);
        state.index_of_selected_row = scrolled_down(state.index_of_selected_row, step, last);
    }
}

/// Moving up by `step`: the details panel scrolls, or the cursor moves,
/// stopping at the top.
pub open spec fn moved_up(s: State, t: State, step: int) -> bool {
    if s.commit_details is Some {
        t == (State {
            details_scroll_offset: if s.details_scroll_offset >= step {
                (s.details_scroll_offset - step) as usize
            } else {
                0
            },
            ..s
        })
    } else {
        t == (State {
            index_of_selected_row: if s.index_of_selected_row >= step {
                (s.index_of_selected_row - step) as usize
            } else {
                0
            },
            ..s
        })
    }
}

fn move_up(state: &mut State, step: usize)
    ensures
        moved_up(*old(state), *final(state), step as int),
{
    if state.commit_details.is_some() {
        state.details_scroll_offset = state.details_scroll_offset.saturating_sub(step);
    } else {
        state.index_of_selected_row = state.index_of_selected_row.saturating_sub(step);
    }
}

/// `G`: the details panel scrolls to its end; the cursor goes to the
/// commit numbered by the typed number, or to the last one.
pub open spec fn to_bottom(s: State, t: State, repo: Repo, terminal_height: u16, w: u16) -> bool {
    if s.commit_details is Some {
        t == (State { details_scroll_offset: details_max(s, terminal_height, w) as usize, ..s })
    } else {
        t == (State {
            index_of_selected_row: match parsed_usize(s.jump_distance_string@) {
                Some(line) => min_of(
                    if line >= 1 {
                        line - 1
                    } else {
                        0
                    },
                    last_row(repo),
                ),
                None => last_row(repo),
            } as usize,
            ..s
        })
    }
}

fn go_to_bottom(state: &mut State, repo: &Repo, terminal_height: u16, w: u16)
    ensures
        to_bottom(*old(state), *final(state), *repo, terminal_height, w),
{
    if state.commit_details.is_some() {
        state.details_scroll_offset = details_max_exec(state, terminal_height, w);
    } else {
        let last = repo.commits.len().saturating_sub(1);
        match parse_usize(&chars_of(state.jump_distance_string.as_str())) {
            Some(line) => {
                let l = line.saturating_sub(1);
                state.index_of_selected_row = if l <= last {
                    l
                } else {
                    last
                };
            },
            None => {
                state.index_of_selected_row = last;
            },
        }
    }
}

/// `h` in the commit list: the cursor goes to the head's commit, in the
/// middle of the screen.
pub open spec fn to_head(s: State, t: State, repo: Repo, terminal_height: u16) -> bool {
    match first_commit(repo.commits@, head_of(repo), repo.commits@.len() as int) {
        Some(i) => t == (State {
            index_of_selected_row: i as usize,
            index_of_topmost_visible_row: centered_top(i as usize, graph_height(terminal_height)),
            ..s
        }),
        None => t == s,
    }
}

fn go_to_head(state: &mut State, repo: &Repo, terminal_height: u16)
    requires
        repo.wf(),
        head_known(*repo),
    ensures
        to_head(*old(state), *final(state), *repo, terminal_height),
{
    let head = repo.head_sha();
    match first_commit_index(&repo.commits, &head) {
        Some(i) => {
            state.index_of_selected_row = i;
            state.center_view_on_selected_row(terminal_height);
        },
        None => {},
    }
}

// ---------------------------------------------------------------------------
// Opening prompts
// ---------------------------------------------------------------------------

/// `r`: with one local branch at the commit the target is asked for at
/// once, with several the branch is chosen first.
pub open spec fn rebase_started(s: State, t: State, local: Seq<Seq<char>>) -> bool {
    if local.len() == 0 {
        t == (State { flash_message: t.flash_message, ..s }) && shows(
            t.flash_message,
            "no local branch to rebase"@,
        )
    } else if local.len() == 1 {
        &&& t == (State {
            rebase_branch: t.rebase_branch,
            is_entering_rebase_target: true,
            rebase_target: t.rebase_target,
            tab_complete_base: None,
            tab_complete_index: 0,
            flash_message: None,
            ..s
        })
        &&& t.rebase_branch@ == local[0]
        &&& t.rebase_target@.len() == 0
    } else {
        &&& t == (State {
            is_selecting_rebase_branch: true,
            rebase_branch: t.rebase_branch,
            tab_complete_base: None,
            tab_complete_index: 0,
            flash_message: None,
            ..s
        })
        &&& t.rebase_branch@ == local[0]
    }
}

fn start_rebase(state: &mut State, local: &Vec<String>)
    ensures
        rebase_started(*old(state), *final(state), names_view(local@)),
{
    if local.len() == 0 {
        state.flash_message = flash(string_of(&chars_of("no local branch to rebase")));
    } else if local.len() == 1 {
        state.rebase_branch = copy_string(&local[0]);
        state.is_entering_rebase_target = true;
        state.rebase_target = String::new();
        state.tab_complete_base = None;
        state.tab_complete_index = 0;
        state.flash_message = None;
    } else {
        state.is_selecting_rebase_branch = true;
        state.rebase_branch = copy_string(&local[0]);
        state.tab_complete_base = None;
        state.tab_complete_index = 0;
        state.flash_message = None;
    }
}

/// `p`: the push prompt opens on the first local branch at the commit,
/// when there is a remote and such a branch.
pub open spec fn push_started(s: State, t: State, local: Seq<Seq<char>>, has_remote: bool) -> bool {
    if !has_remote {
        t == (State { flash_message: t.flash_message, ..s }) && shows(
            t.flash_message,
            "no remote configured"@,
        )
    } else if local.len() == 0 {
        t == (State { flash_message: t.flash_message, ..s }) && shows(
            t.flash_message,
            "no local branch at this commit"@,
        )
    } else {
        &&& t == (State {
            is_pushing: true,
            push_branch_name: t.push_branch_name,
            tab_complete_base: None,
            tab_complete_index: 0,
            flash_message: None,
            ..s
        })
        &&& t.push_branch_name@ == local[0]
    }
}

fn start_push(state: &mut State, local: &Vec<String>, has_remote: bool)
    ensures
        push_started(*old(state), *final(state), names_view(local@), has_remote),
{
    if !has_remote {
        state.flash_message = flash(string_of(&chars_of("no remote configured")));
    } else if local.len() == 0 {
        state.flash_message = flash(string_of(&chars_of("no local branch at this commit")));
    } else {
        state.is_pushing = true;
        state.push_branch_name = copy_string(&local[0]);
        state.tab_complete_base = None;
        state.tab_complete_index = 0;
        state.flash_message = None;
    }
}

/// The prompts and keys that read the selected commit.
pub open spec fn reads_selected_in_normal_mode(a: Action) -> bool {
    match a {
        Action::CharL | Action::Enter | Action::Space | Action::CharY | Action::CharO
        | Action::CharC | Action::CharD | Action::CharR | Action::ShiftR | Action::CharP => true,
        _ => false,
    }
}

// ---------------------------------------------------------------------------
// The keys
// ---------------------------------------------------------------------------

/// What a moving or searching key does in the commit list and details
/// panel.
pub open spec fn moving_step(
    a: Action,
    s: State,
    t: State,
    e: Effect,
    repo: Repo,
    ctx: Context,
    dates: Seq<String>,
) -> bool {
    let h = ctx.terminal_height;
    let local = names_view(ctx.local_branches@);
    let u = unjumped(s, t);
    let cleared = t.jump_distance_string@.len() == 0;
    let half = graph_height(h) / 2;
    let sha = selected_sha(repo, s);
    let details = s.commit_details is Some;
    match a {
        Action::Esc | Action::CtrlC | Action::CharQ => escaped(s, t, e),
        Action::Backspace => e is Nothing && if s.jump_distance_string@.len() > 0 {
            t == unjumped(s, t) && t.jump_distance_string@ == s.jump_distance_string@.drop_last()
        } else {
            t == (State { search_term: t.search_term, ..s }) && t.search_term@.len() == 0
        },
        Action::CharSlash => {
            &&& t == (State {
                is_typing_search_term: true,
                search_term: t.search_term,
                index_of_selected_row_when_search_began: Some(s.index_of_selected_row),
                index_of_topmost_visible_row_when_search_began: Some(
                    s.index_of_topmost_visible_row,
                ),
                ..u
            })
            &&& cleared && t.search_term@.len() == 0 && e is Nothing
        },
        Action::CharN => e is Nothing && if details {
            if s.details_search_term@.len() > 0 {
                t == next_detail_match(s, details_view_height(h, s.is_showing_help_panel), ctx.terminal_width)
            } else {
                t == s
            }
        } else if s.search_term@.len() > 0 {
            t == moved_to(s, next_match(repo, dates, s.search_term@, s.index_of_selected_row as int))
        } else {
            t == s
        },
        Action::ShiftN => e is Nothing && if details {
            if s.details_search_term@.len() > 0 {
                t == previous_detail_match(s, details_view_height(h, s.is_showing_help_panel), ctx.terminal_width)
            } else {
                t == s
            }
        } else if s.search_term@.len() > 0 {
            t == moved_to(
                s,
                previous_match(repo, dates, s.search_term@, s.index_of_selected_row as int),
            )
        } else {
            t == s
        },
        Action::CharJ | Action::Down => cleared && e is Nothing && moved_down(u, t, jump_count(s), repo, h, ctx.terminal_width),
        Action::CharK | Action::Up => cleared && e is Nothing && moved_up(u, t, jump_count(s)),
        Action::Digit(c) => e is Nothing && if c == '0' && s.jump_distance_string@.len() == 0 {
            t == s
        } else {
            t == unjumped(s, t) && t.jump_distance_string@ == s.jump_distance_string@.push(c)
        },
        Action::CharG => cleared && e is Nothing && if details {
            t == (State { details_scroll_offset: 0, ..u })
        } else {
            t == (State { index_of_selected_row: 0, ..u })
        },
        Action::ShiftG => cleared && e is Nothing && to_bottom(s, State { jump_distance_string: s.jump_distance_string, ..t }, repo, h, ctx.terminal_width)
            && t == unjumped(State { jump_distance_string: s.jump_distance_string, ..t }, t),
        Action::CharH => cleared && e is Nothing && if details {
            details_closed(u, t)
        } else {
            to_head(u, t, repo, h)
        },
        Action::CtrlD => cleared && e is Nothing && moved_down(u, t, half as int, repo, h, ctx.terminal_width),
        Action::CtrlU => cleared && e is Nothing && moved_up(u, t, half as int),
        _ => t == s && e is Nothing,
    }
}

/// What a key that opens something does in the commit list.
pub open spec fn opening_step(
    a: Action,
    s: State,
    t: State,
    e: Effect,
    repo: Repo,
    ctx: Context,
    dates: Seq<String>,
) -> bool {
    let h = ctx.terminal_height;
    let local = names_view(ctx.local_branches@);
    let u = unjumped(s, t);
    let cleared = t.jump_distance_string@.len() == 0;
    let half = graph_height(h) / 2;
    let sha = selected_sha(repo, s);
    let details = s.commit_details is Some;
    match a {
        Action::CharL | Action::Enter | Action::Space => cleared && t == u && e == Effect::LoadDetails(sha),
        Action::CharY => cleared && t == u && e == Effect::CopySha(sha),
        Action::CharO => cleared && if on_remote(
            repo.commits@,
            branches_view(repo.branches@),
            s.index_of_selected_row as int,
        ) {
            t == u && e == Effect::OpenCommitUrl(sha)
        } else {
            t == (State { flash_message: t.flash_message, ..u }) && shows(
                t.flash_message,
                "commit not on remote"@,
            ) && e is Nothing
        },
        Action::ShiftL => cleared && t == (State { flash_message: t.flash_message, ..u }) && shows(
            t.flash_message,
            "opening checkout - use --activate <KEY> after purchase"@,
        ) && e is OpenCheckoutPage,
        Action::CharB => cleared && e is Nothing && t == (State {
            flash_message: None,
            is_creating_branch: true,
            branch_name: t.branch_name,
            ..u
        }) && t.branch_name@.len() == 0,
        Action::CharC => cleared && if local.len() > 0 {
            t == (State {
                flash_message: None,
                is_checking_out: true,
                checkout_branch_name: t.checkout_branch_name,
                ..u
            }) && t.checkout_branch_name@.len() == 0 && e is Nothing
        } else {
            t == u && e == Effect::CheckoutSha(sha)
        },
        Action::CharD => cleared && e is Nothing && if local.len() > 0 {
            t == (State {
                flash_message: None,
                is_deleting_branch: true,
                delete_branch_name: t.delete_branch_name,
                ..u
            }) && t.delete_branch_name@.len() == 0
        } else {
            t == (State { flash_message: t.flash_message, ..u }) && shows(
                t.flash_message,
                "no local branches on this commit"@,
            )
        },
        Action::CharR => cleared && e is Nothing && rebase_started(u, t, local),
        Action::ShiftR => cleared && if sha == head_of(repo) {
            t == (State { is_confirming_revert: true, flash_message: None, ..u }) && e is Nothing
        } else {
            t == u && e == Effect::CheckRevertable(sha)
        },
        Action::CharP => cleared && e is Nothing && push_started(u, t, local, ctx.has_remote),
        Action::Char('?') => cleared && e is Nothing && t == (State {
            is_showing_help_panel: !s.is_showing_help_panel,
            ..u
        }),
        Action::Tab => cleared && if s.commit_view is Some {
            t == (State { commit_view: None, ..u }) && e is Nothing
        } else {
            t == u && e is OpenStaging
        },
        _ => t == s && e is Nothing,
    }
}

/// Whether a key moves or searches (rather than opening something).
pub open spec fn is_moving_key(a: Action) -> bool {
    match a {
        Action::Esc | Action::CtrlC | Action::CharQ | Action::Backspace | Action::CharSlash
        | Action::CharN | Action::ShiftN | Action::CharJ | Action::Down | Action::CharK
        | Action::Up | Action::Digit(_) | Action::CharG | Action::ShiftG | Action::CharH
        | Action::CtrlD | Action::CtrlU => true,
        _ => false,
    }
}

/// What a key does in the commit list and details panel.
pub open spec fn normal_step(
    a: Action,
    s: State,
    t: State,
    e: Effect,
    repo: Repo,
    ctx: Context,
    dates: Seq<String>,
) -> bool {
    if is_moving_key(a) {
        moving_step(a, s, t, e, repo, ctx, dates)
    } else {
        opening_step(a, s, t, e, repo, ctx, dates)
    }
}

impl Action {
    #[verifier::spinoff_prover]
    #[verifier::rlimit(100)]
    fn execute_moving_key(
        &self,
        state: &mut State,
        repo: &Repo,
        ctx: &Context,
        dates: &Vec<String>,
    ) -> (e: Effect)
        requires
            repo.wf(),
            head_known(*repo),
            dates@.len() == repo.commits@.len(),
            *self == Action::CharN || *self == Action::ShiftN ==> old(state).index_of_selected_row
                < usize::MAX,
            reads_selected_in_normal_mode(*self) ==> old(state).index_of_selected_row
                < repo.commits@.len(),
        ensures
            moving_step(*self, *old(state), *final(state), e, *repo, *ctx, dates@),
    {
        let h = ctx.terminal_height;
        match *self {
            Action::Esc | Action::CtrlC | Action::CharQ => escape(state),
            Action::Backspace => {
                if !is_empty(state.jump_distance_string.as_str()) {
                    pop_char(&mut state.jump_distance_string);
                } else {
                    state.search_term = String::new();
                }
                Effect::Nothing
            },
            Action::CharSlash => {
                clear_jump(state);
                state.is_typing_search_term = true;
                state.search_term = String::new();
                state.index_of_selected_row_when_search_began = Some(state.index_of_selected_row);
                state.index_of_topmost_visible_row_when_search_began = Some(
                    state.index_of_topmost_visible_row,
                );
                Effect::Nothing
            },
            Action::CharN => {
                if state.commit_details.is_some() {
                    if !is_empty(state.details_search_term.as_str()) {
                        find_next_match_in_details(
                            state,
                            details_panel_height(h, state.is_showing_help_panel),
                            ctx.terminal_width,
                        );
                    }
                } else if !is_empty(state.search_term.as_str()) {
                    find_next_match(state, repo, dates);
                }
                Effect::Nothing
            },
            Action::ShiftN => {
                if state.commit_details.is_some() {
                    if !is_empty(state.details_search_term.as_str()) {
                        find_previous_match_in_details(
                            state,
                            details_panel_height(h, state.is_showing_help_panel),
                            ctx.terminal_width,
                        );
                    }
                } else if !is_empty(state.search_term.as_str()) {
                    find_previous_match(state, repo, dates);
                }
                Effect::Nothing
            },
            Action::CharJ | Action::Down => {
                let count = jump_count_exec(state);
                clear_jump(state);
                move_down(state, count, repo, h, ctx.terminal_width);
                Effect::Nothing
            },
            Action::CharK | Action::Up => {
                let count = jump_count_exec(state);
                clear_jump(state);
                move_up(state, count);
                Effect::Nothing
            },
            Action::Digit(c) => {
                if !(c == '0' && is_empty(state.jump_distance_string.as_str())) {
                    push_char(&mut state.jump_distance_string, c);
                }
                Effect::Nothing
            },
            Action::CharG => {
                clear_jump(state);
                if state.commit_details.is_some() {
                    state.details_scroll_offset = 0;
                } else {
                    state.index_of_selected_row = 0;
                }
                Effect::Nothing
            },
            Action::ShiftG => {
                go_to_bottom(state, repo, h, ctx.terminal_width);
                clear_jump(state);
                Effect::Nothing
            },
            Action::CharH => {
                clear_jump(state);
                if state.commit_details.is_some() {
                    close_details(state);
                } else {
                    go_to_head(state, repo, h);
                }
                Effect::Nothing
            },
            Action::CtrlD => {
                clear_jump(state);
                let half = crate::viewport::git_graph_height(h) / 2;
                move_down(state, half, repo, h, ctx.terminal_width);
                Effect::Nothing
            },
            Action::CtrlU => {
                clear_jump(state);
                let half = crate::viewport::git_graph_height(h) / 2;
                move_up(state, half);
                Effect::Nothing
            },
            _ => Effect::Nothing,
        }
    }

    #[verifier::spinoff_prover]
    #[verifier::rlimit(100)]
    fn execute_opening_key(
        &self,
        state: &mut State,
        repo: &Repo,
        ctx: &Context,
        dates: &Vec<String>,
    ) -> (e: Effect)
        requires
            repo.wf(),
            head_known(*repo),
            dates@.len() == repo.commits@.len(),
            *self == Action::CharN || *self == Action::ShiftN ==> old(state).index_of_selected_row
                < usize::MAX,
            reads_selected_in_normal_mode(*self) ==> old(state).index_of_selected_row
                < repo.commits@.len(),
        ensures
            opening_step(*self, *old(state), *final(state), e, *repo, *ctx, dates@),
    {
        let h = ctx.terminal_height;
        match *self {
            Action::CharL | Action::Enter | Action::Space => {
                clear_jump(state);
                Effect::LoadDetails(selected_commit_sha(state, repo))
            },
            Action::CharY => {
                clear_jump(state);
                Effect::CopySha(selected_commit_sha(state, repo))
            },
            Action::CharO => {
                clear_jump(state);
                let sha = selected_commit_sha(state, repo);
                if !repo.commit_is_on_remote(&sha, state.index_of_selected_row) {
                    state.flash_message = flash(string_of(&chars_of("commit not on remote")));
                    Effect::Nothing
                } else {
                    Effect::OpenCommitUrl(sha)
                }
            },
            Action::ShiftL => {
                clear_jump(state);
                state.flash_message = flash(
                    string_of(&chars_of("opening checkout - use --activate <KEY> after purchase")),
                );
                Effect::OpenCheckoutPage
            },
            Action::CharB => {
                clear_jump(state);
                state.flash_message = None;
                state.is_creating_branch = true;
                state.branch_name = String::new();
                Effect::Nothing
            },
            Action::CharC => {
                clear_jump(state);
                let sha = selected_commit_sha(state, repo);
                if ctx.local_branches.len() > 0 {
                    state.flash_message = None;
                    state.is_checking_out = true;
                    state.checkout_branch_name = String::new();
                    Effect::Nothing
                } else {
                    Effect::CheckoutSha(sha)
                }
            },
            Action::CharD => {
                clear_jump(state);
                if ctx.local_branches.len() > 0 {
                    state.flash_message = None;
                    state.is_deleting_branch = true;
                    state.delete_branch_name = String::new();
                } else {
                    state.flash_message = flash(
                        string_of(&chars_of("no local branches on this commit")),
                    );
                }
                Effect::Nothing
            },
            Action::CharR => {
                clear_jump(state);
                start_rebase(state, &ctx.local_branches);
                Effect::Nothing
            },
            Action::ShiftR => {
                clear_jump(state);
                let sha = selected_commit_sha(state, repo);
                let head = repo.head_sha();
                if same_sha(&sha, &head) {
                    state.is_confirming_revert = true;
                    state.flash_message = None;
                    Effect::Nothing
                } else {
                    Effect::CheckRevertable(sha)
                }
            },
            Action::CharP => {
                clear_jump(state);
                start_push(state, &ctx.local_branches, ctx.has_remote);
                Effect::Nothing
            },
            Action::Char('?') => {
                clear_jump(state);
                state.is_showing_help_panel = !state.is_showing_help_panel;
                Effect::Nothing
            },
            Action::Tab => {
                clear_jump(state);
                if state.commit_view.is_some() {
                    state.commit_view = None;
                    Effect::Nothing
                } else {
                    Effect::OpenStaging
                }
            },
            _ => Effect::Nothing,
        }
    }

    pub fn execute_normal_mode(
        &self,
        state: &mut State,
        repo: &Repo,
        ctx: &Context,
        dates: &Vec<String>,
    ) -> (e: Effect)
        requires
            repo.wf(),
            head_known(*repo),
            dates@.len() == repo.commits@.len(),
            *self == Action::CharN || *self == Action::ShiftN ==> old(state).index_of_selected_row
                < usize::MAX,
            reads_selected_in_normal_mode(*self) ==> old(state).index_of_selected_row
                < repo.commits@.len(),
        ensures
            normal_step(*self, *old(state), *final(state), e, *repo, *ctx, dates@),
    {
        if self.moves() {
            self.execute_moving_key(state, repo, ctx, dates)
        } else {
            self.execute_opening_key(state, repo, ctx, dates)
        }
    }

    fn moves(&self) -> (r: bool)
        ensures
            r == is_moving_key(*self),
    {
        match *self {
            Action::Esc | Action::CtrlC | Action::CharQ | Action::Backspace | Action::CharSlash
            | Action::CharN | Action::ShiftN | Action::CharJ | Action::Down | Action::CharK
            | Action::Up | Action::Digit(_) | Action::CharG | Action::ShiftG | Action::CharH
            | Action::CtrlD | Action::CtrlU => true,
            _ => false,
        }
    }
}


/// Moving down a number of commits and back up as many returns to the
/// commit you started on, unless the move down stopped at the end of the
/// list.
pub proof fn law_down_then_up_returns(
    s: State,
    t: State,
    u: State,
    step: int,
    repo: Repo,
    terminal_height: u16,
    w: u16,
)
    requires
        s.commit_details is None,
        0 <= step,
        repo.commits@.len() <= usize::MAX,
        s.index_of_selected_row + step <= last_row(repo),
        moved_down(s, t, step, repo, terminal_height, w),
        moved_up(t, u, step),
    ensures
        u == s,
{
    assert(min_of(s.index_of_selected_row + step, last_row(repo)) == s.index_of_selected_row + step);
    assert(t.index_of_selected_row == s.index_of_selected_row + step);
    assert(u.index_of_selected_row == s.index_of_selected_row);
    assert(u == (State { index_of_selected_row: u.index_of_selected_row, ..s }));
}

/// Moving up or down keeps the selection within the commit list.
pub proof fn law_moves_stay_in_list(s: State, t: State, step: int, repo: Repo, terminal_height: u16, w: u16)
    requires
        s.commit_details is None,
        0 <= step,
        s.index_of_selected_row <= last_row(repo),
        moved_down(s, t, step, repo, terminal_height, w) || moved_up(s, t, step),
    ensures
        t.index_of_selected_row <= last_row(repo),
{
}

/// The count left after typing the digits `ds`: a `0` typed before any
/// other digit is dropped.
pub open spec fn typed_count(ds: Seq<char>) -> Seq<char>
    decreases ds.len(),
{
    if ds.len() == 0 {
        Seq::empty()
    } else {
        let j = typed_count(ds.drop_last());
        if ds.last() == '0' && j.len() == 0 {
            j
        } else {
            j.push(ds.last())
        }
    }
}

proof fn lemma_typed_count(ds: Seq<char>)
    requires
        crate::text::all_digits(ds),
    ensures
        crate::text::all_digits(typed_count(ds)),
        crate::text::digits_value(typed_count(ds)) == crate::text::digits_value(ds),
        typed_count(ds).len() > 0 ==> typed_count(ds)[0] != '0',
        typed_count(ds).len() > 0 ==> crate::text::digits_value(typed_count(ds)) >= 1,
    decreases ds.len(),
{
    if ds.len() > 0 {
        let d = ds.drop_last();
        assert(crate::text::all_digits(d)) by {
            assert forall|i: int| 0 <= i < d.len() implies '0' <= #[trigger] d[i] <= '9' by {
                assert(d[i] == ds[i]);
            }
        }
        lemma_typed_count(d);
        let j = typed_count(d);
        let c = ds.last();
        assert(ds[ds.len() - 1] == c);
        if !(c == '0' && j.len() == 0) {
            let k = j.push(c);
            assert(k.drop_last() =~= j);
            assert forall|i: int| 0 <= i < k.len() implies '0' <= #[trigger] k[i] <= '9' by {
                if i < j.len() {
                    assert(k[i] == j[i]);
                }
            }
            if j.len() > 0 {
                assert(k[0] == j[0]);
            }
        }
    }
}

/// A count typed before `G` picks the line to go to, as in vim: after the
/// digits `ds` (a leading `0` dropped) `G` selects line `n` of the list (the
/// last one when there are fewer, or when the count does not fit in a
/// `usize`), with no count it selects the last line, and the count is then
/// cleared. `states` are the states before and after each digit.
pub proof fn law_count_then_g(
    ds: Seq<char>,
    states: Seq<State>,
    effects: Seq<Effect>,
    u: State,
    e: Effect,
    repo: Repo,
    ctx: Context,
    dates: Seq<String>,
)
    requires
        states.len() == ds.len() + 1,
        effects.len() == ds.len(),
        states[0].commit_details is None,
        states[0].jump_distance_string@.len() == 0,
        repo.commits@.len() <= usize::MAX,
        crate::text::all_digits(ds),
        forall|k: int|
            0 <= k < ds.len() ==> normal_step(
                Action::Digit(#[trigger] ds[k]),
                states[k],
                states[k + 1],
                effects[k],
                repo,
                ctx,
                dates,
            ),
        normal_step(Action::ShiftG, states.last(), u, e, repo, ctx, dates),
    ensures
        states.last().jump_distance_string@ == typed_count(ds),
        u.jump_distance_string@.len() == 0,
        ({
            let n = crate::text::digits_value(ds);
            u.index_of_selected_row == (if 1 <= n <= usize::MAX {
                min_of(n - 1, last_row(repo))
            } else {
                last_row(repo)
            })
        }),
{
    lemma_count_steps(ds, states, effects, repo, ctx, dates, ds.len() as int);
    assert(ds.take(ds.len() as int) =~= ds);
    assert(states.last() == states[ds.len() as int]);
    lemma_typed_count(ds);
    let js = typed_count(ds);
    let last = states.last();
    assert(last.commit_details is None);
    assert(crate::text::unsigned_digits(js) == js);
    assert(is_moving_key(Action::ShiftG));
    assert(to_bottom(last, State { jump_distance_string: last.jump_distance_string, ..u }, repo, ctx.terminal_height, ctx.terminal_width));
    let n = crate::text::digits_value(ds);
    if js.len() == 0 {
        assert(crate::text::digits_value(js) == 0);
        assert(parsed_usize(js) is None);
    } else if n <= usize::MAX {
        assert(parsed_usize(js) == Some(n as usize));
    } else {
        assert(parsed_usize(js) is None);
    }
}

proof fn lemma_count_steps(
    ds: Seq<char>,
    states: Seq<State>,
    effects: Seq<Effect>,
    repo: Repo,
    ctx: Context,
    dates: Seq<String>,
    n: int,
)
    requires
        states.len() == ds.len() + 1,
        effects.len() == ds.len(),
        states[0].jump_distance_string@.len() == 0,
        0 <= n <= ds.len(),
        forall|k: int|
            0 <= k < ds.len() ==> normal_step(
                Action::Digit(#[trigger] ds[k]),
                states[k],
                states[k + 1],
                effects[k],
                repo,
                ctx,
                dates,
            ),
    ensures
        states[n].jump_distance_string@ == typed_count(ds.take(n)),
        states[n] == unjumped(states[0], states[n]),
    decreases n,
{
    if n > 0 {
        lemma_count_steps(ds, states, effects, repo, ctx, dates, n - 1);
        assert(ds.take(n).drop_last() =~= ds.take(n - 1));
        assert(ds.take(n).last() == ds[n - 1]);
        assert(normal_step(Action::Digit(ds[n - 1]), states[n - 1], states[(n - 1) + 1], effects[n - 1], repo, ctx, dates));
    } else {
        assert(ds.take(0) =~= Seq::<char>::empty());
        assert(states[0].jump_distance_string@ =~= Seq::<char>::empty());
    }
}

} // verus!
