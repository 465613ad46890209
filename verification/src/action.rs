//! Key presses and what the interface does with them: the state they
//! lead to, and the outside work (git, the editor, the browser) they ask
//! for.

use vstd::prelude::*;
use crate::complete::names_view;
use crate::highlight::{file_highlight, styled_lines, Highlighter};
use crate::normal::{normal_step, reads_selected_in_normal_mode};
use crate::prompt::{
    branch_names, checkout_step, creation_step, deletion_step, push_step, rebase_in_progress_step,
    rebase_selection_step, rebase_target_step, revert_step, selected_sha, short_id,
};
use crate::repo::{CommitDetails, Hunk, Repo};
use crate::search::{history_ok, typing_step};
use crate::sha::Sha;
use crate::staging::commit_view_step;
use crate::state::{flash, head_known, shows, State};
use crate::text::{chars_of, str_then, string_of};

verus! {

/// Actions represent keypresses. The execute() method determines behavior based on UI state.
#[derive(Clone, Copy, PartialEq, Eq, Structural, Debug)]
pub enum Action {
    Esc,
    CtrlC,
    Enter,
    Space,
    Tab,
    Up,
    Down,
    Backspace,
    CharSlash,
    CharQ,
    CharN,
    ShiftN,
    CharJ,
    ShiftJ,
    CharK,
    ShiftK,
    CharG,
    ShiftG,
    CharH,
    CharY,
    CharO,
    CharL,
    CharB,
    CharC,
    CharD,
    CharR,
    ShiftR,
    CharP,
    CtrlD,
    CtrlU,
    ShiftS,
    ShiftU,
    ShiftL,
    Digit(char),
    /// For characters without special normal-mode behavior
    Char(char),
    /// A key that does nothing.
    Unmapped,
}

/// The character a key types into a text field, if it types one.
pub open spec fn typed(a: Action) -> Option<char> {
    match a {
        Action::CharSlash => Some('/'),
        Action::CharQ => Some('q'),
        Action::CharN => Some('n'),
        Action::ShiftN => Some('N'),
        Action::CharJ => Some('j'),
        Action::CharK => Some('k'),
        Action::CharG => Some('g'),
        Action::ShiftG => Some('G'),
        Action::CharH => Some('h'),
        Action::CharY => Some('y'),
        Action::CharO => Some('o'),
        Action::CharL => Some('l'),
        Action::CharB => Some('b'),
        Action::CharC => Some('c'),
        Action::CharD => Some('d'),
        Action::CharR => Some('r'),
        Action::ShiftR => Some('R'),
        Action::CharP => Some('p'),
        Action::Digit(c) => Some(c),
        Action::Char(c) => Some(c),
        Action::Space => Some(' '),
        _ => None,
    }
}

impl Action {
    /// The character this key types into a text field, if it types one.
    pub fn typed_char(&self) -> (r: Option<char>)
        ensures
            r == typed(*self),
    {
        match *self {
            Action::CharSlash => Some('/'),
            Action::CharQ => Some('q'),
            Action::CharN => Some('n'),
            Action::ShiftN => Some('N'),
            Action::CharJ => Some('j'),
            Action::CharK => Some('k'),
            Action::CharG => Some('g'),
            Action::ShiftG => Some('G'),
            Action::CharH => Some('h'),
            Action::CharY => Some('y'),
            Action::CharO => Some('o'),
            Action::CharL => Some('l'),
            Action::CharB => Some('b'),
            Action::CharC => Some('c'),
            Action::CharD => Some('d'),
            Action::CharR => Some('r'),
            Action::ShiftR => Some('R'),
            Action::CharP => Some('p'),
            Action::Digit(c) => Some(c),
            Action::Char(c) => Some(c),
            Action::Space => Some(' '),
            _ => None,
        }
    }

    /// The action of a character key, with the control key held or not.
    pub fn from_char(c: char, control: bool) -> (r: Action)
        ensures
            r == action_for_char(c, control),
    {
        if control && c == 'c' {
            Action::CtrlC
        } else if control && c == 'd' {
            Action::CtrlD
        } else if control && c == 'u' {
            Action::CtrlU
        } else if c == ' ' {
            Action::Space
        } else if c == '/' {
            Action::CharSlash
        } else if c == 'q' {
            Action::CharQ
        } else if c == 'n' {
            Action::CharN
        } else if c == 'N' {
            Action::ShiftN
        } else if c == 'j' {
            Action::CharJ
        } else if c == 'J' {
            Action::ShiftJ
        } else if c == 'k' {
            Action::CharK
        } else if c == 'K' {
            Action::ShiftK
        } else if c == 'g' {
            Action::CharG
        } else if c == 'G' {
            Action::ShiftG
        } else if c == 'S' {
            Action::ShiftS
        } else if c == 'U' {
            Action::ShiftU
        } else if c == 'h' {
            Action::CharH
        } else if c == 'y' {
            Action::CharY
        } else if c == 'o' {
            Action::CharO
        } else if c == 'l' {
            Action::CharL
        } else if c == 'b' {
            Action::CharB
        } else if c == 'c' {
            Action::CharC
        } else if c == 'd' {
            Action::CharD
        } else if c == 'r' {
            Action::CharR
        } else if c == 'R' {
            Action::ShiftR
        } else if c == 'p' {
            Action::CharP
        } else if '0' <= c && c <= '9' {
            Action::Digit(c)
        } else {
            Action::Char(c)
        }
    }
}

/// The action of a character key: control with `c`, `d` or `u`, the
/// keys that have a name, a digit, or any other character.
pub open spec fn action_for_char(c: char, control: bool) -> Action {
    if control && c == 'c' {
        Action::CtrlC
    } else if control && c == 'd' {
        Action::CtrlD
    } else if control && c == 'u' {
        Action::CtrlU
    } else if c == ' ' {
        Action::Space
    } else if c == '/' {
        Action::CharSlash
    } else if c == 'q' {
        Action::CharQ
    } else if c == 'n' {
        Action::CharN
    } else if c == 'N' {
        Action::ShiftN
    } else if c == 'j' {
        Action::CharJ
    } else if c == 'J' {
        Action::ShiftJ
    } else if c == 'k' {
        Action::CharK
    } else if c == 'K' {
        Action::ShiftK
    } else if c == 'g' {
        Action::CharG
    } else if c == 'G' {
        Action::ShiftG
    } else if c == 'S' {
        Action::ShiftS
    } else if c == 'U' {
        Action::ShiftU
    } else if c == 'h' {
        Action::CharH
    } else if c == 'y' {
        Action::CharY
    } else if c == 'o' {
        Action::CharO
    } else if c == 'l' {
        Action::CharL
    } else if c == 'b' {
        Action::CharB
    } else if c == 'c' {
        Action::CharC
    } else if c == 'd' {
        Action::CharD
    } else if c == 'r' {
        Action::CharR
    } else if c == 'R' {
        Action::ShiftR
    } else if c == 'p' {
        Action::CharP
    } else if '0' <= c && c <= '9' {
        Action::Digit(c)
    } else {
        Action::Char(c)
    }
}

/// What the interface needs to know of its surroundings to handle a key:
/// the terminal's size, the local branches at the selected commit, and
/// whether the repository has a remote.
pub struct Context {
    pub terminal_width: u16,
    pub terminal_height: u16,
    pub local_branches: Vec<String>,
    pub has_remote: bool,
}

/// Outside work a key press asks for. Whoever runs the interface does it
/// and reports back what came of it.
pub enum Effect {
    Nothing,
    Quit,
    /// Load the details of a commit and show them.
    LoadDetails(Sha),
    /// Put the full id of a commit on the clipboard.
    CopySha(Sha),
    /// Open the web page of a commit of the remote.
    OpenCommitUrl(Sha),
    /// Open the page where a license is bought.
    OpenCheckoutPage,
    /// Open the staging view when the worktree has changes.
    OpenStaging,
    /// Ask git whether a commit is in the head's history, to revert it.
    CheckRevertable(Sha),
    CreateBranch(String, Sha),
    DeleteBranch(String),
    CheckoutSha(Sha),
    CheckoutBranch(String),
    Rebase { target: String, branch: String },
    ContinueRebase,
    AbortRebase,
    Revert(Sha),
    Push(String),
    StageHunk(String, Hunk),
    StageFile(String),
    UnstageHunk(String, Hunk),
    UnstageFile(String),
    /// Open a worktree file in the editor.
    EditFile(String),
    /// Write a commit message in the editor and commit (or amend).
    CommitWithEditor { amend: bool },
}


broadcast use vstd::string::group_string_axioms;

/// The keys that read the selected commit, in the mode the state is in.
pub open spec fn reads_selected(a: Action, s: State) -> bool {
    if s.commit_view is Some || s.is_typing_search_term {
        false
    } else if s.is_creating_branch {
        a == Action::Enter && s.branch_name@.len() > 0
    } else if s.is_deleting_branch {
        (a == Action::Enter && s.delete_branch_name@.len() > 0) || a == Action::Tab
    } else if s.is_checking_out {
        a == Action::Enter || a == Action::Tab
    } else if s.is_rebase_in_progress {
        false
    } else if s.is_selecting_rebase_branch {
        true
    } else if s.is_entering_rebase_target {
        false
    } else if s.is_confirming_revert {
        a == Action::Enter
    } else if s.is_pushing {
        a == Action::Tab
    } else {
        reads_selected_in_normal_mode(a)
    }
}

/// A key can be handled in a state: the selected commit exists where the
/// key reads it, and the counters it steps can be stepped.
pub open spec fn ready(a: Action, s: State, repo: Repo) -> bool {
    &&& reads_selected(a, s) ==> s.index_of_selected_row < repo.commits@.len()
    &&& a == Action::Tab ==> s.tab_complete_index < usize::MAX
    &&& a == Action::Up || a == Action::Down ==> history_ok(s)
    &&& a == Action::CharN || a == Action::ShiftN ==> s.index_of_selected_row < usize::MAX
}

/// What a key does: the mode the state is in decides (the staging view,
/// typing a search, one of the prompts, or the commit list).
pub open spec fn step(
    a: Action,
    s: State,
    t: State,
    e: Effect,
    repo: Repo,
    ctx: Context,
    dates: Seq<String>,
) -> bool {
    let local = names_view(ctx.local_branches@);
    if s.commit_view is Some {
        commit_view_step(a, s, t, e, ctx.terminal_height)
    } else if s.is_typing_search_term {
        typing_step(a, s, t, repo, dates, ctx.terminal_width) && e is Nothing
    } else if s.is_creating_branch {
        creation_step(a, s, t, e, selected_sha(repo, s))
    } else if s.is_deleting_branch {
        deletion_step(a, s, t, e, repo, local)
    } else if s.is_checking_out {
        checkout_step(a, s, t, e, repo, local)
    } else if s.is_rebase_in_progress {
        rebase_in_progress_step(a, s, t, e)
    } else if s.is_selecting_rebase_branch {
        rebase_selection_step(a, s, t, local) && e is Nothing
    } else if s.is_entering_rebase_target {
        rebase_target_step(a, s, t, e, branch_names(repo))
    } else if s.is_confirming_revert {
        revert_step(a, s, t, e, selected_sha(repo, s))
    } else if s.is_pushing {
        push_step(a, s, t, e, local)
    } else {
        normal_step(a, s, t, e, repo, ctx, dates)
    }
}

impl Action {
    /// Execute the action: the state it leads to, and the outside work it
    /// asks for (`Effect::Quit` when the app should quit). `dates` are the
    /// dates the commit list shows.
    pub fn execute(&self, state: &mut State, repo: &Repo, ctx: &Context, dates: &Vec<String>) -> (e: Effect)
        requires
            repo.wf(),
            head_known(*repo),
            dates@.len() == repo.commits@.len(),
            ready(*self, *old(state), *repo),
        ensures
            step(*self, *old(state), *final(state), e, *repo, *ctx, dates@),
    {
        if state.commit_view.is_some() {
            self.execute_commit_view_mode(state, ctx.terminal_height)
        } else if state.is_typing_search_term {
            self.execute_typing_mode(state, repo, dates, ctx.terminal_width);
            Effect::Nothing
        } else if state.is_creating_branch {
            self.execute_branch_creation_mode(state, repo)
        } else if state.is_deleting_branch {
            self.execute_branch_deletion_mode(state, repo, &ctx.local_branches)
        } else if state.is_checking_out {
            self.execute_checkout_mode(state, repo, &ctx.local_branches)
        } else if state.is_rebase_in_progress {
            self.execute_rebase_in_progress_mode(state)
        } else if state.is_selecting_rebase_branch {
            self.execute_rebase_branch_selection_mode(state, &ctx.local_branches);
            Effect::Nothing
        } else if state.is_entering_rebase_target {
            self.execute_rebase_target_mode(state, repo)
        } else if state.is_confirming_revert {
            self.execute_revert_confirmation_mode(state, repo)
        } else if state.is_pushing {
            self.execute_push_mode(state, &ctx.local_branches)
        } else {
            self.execute_normal_mode(state, repo, ctx, dates)
        }
    }
}

// ---------------------------------------------------------------------------
// After the outside work
// ---------------------------------------------------------------------------

/// Shows the details of a commit once they were loaded (none when they
/// could not be), highlighted, scrolled to the top.
pub fn show_details(state: &mut State, details: Option<CommitDetails>)
    ensures
        *final(state) == (State {
            commit_details: details,
            highlight_cache: final(state).highlight_cache,
            details_scroll_offset: 0,
            ..*old(state)
        }),
        match details {
            Some(d) => final(state).highlight_cache matches Some(c) && c.files@.len()
                == d.files@.len() && forall|i: int|
                0 <= i < d.files@.len() ==> styled_lines(#[trigger] c.files@[i].lines@)
                    == file_highlight(d.files@[i].hunks@, d.files@[i].path@),
            None => final(state).highlight_cache is None,
        },
{
    state.highlight_cache = match &details {
        Some(d) => Some(Highlighter::new().highlight_commit(d)),
        None => None,
    };
    state.commit_details = details;
    state.details_scroll_offset = 0;
}

/// Tells that the id of `sha` was put on the clipboard.
pub fn report_copied(state: &mut State, sha: &Sha)
    ensures
        *final(state) == (State { flash_message: final(state).flash_message, ..*old(state) }),
        shows(final(state).flash_message, "copied "@ + short_id(*sha)),
{
    state.flash_message = flash(str_then("copied ", &sha.short_hex()));
}

/// Tells what came of opening a commit's page: no page when the remote's
/// address is not known, else whether the browser could be started.
pub fn report_browser(state: &mut State, opened: Option<bool>)
    ensures
        *final(state) == (State { flash_message: final(state).flash_message, ..*old(state) }),
        shows(
            final(state).flash_message,
            match opened {
                None => "no remote URL"@,
                Some(true) => "opened in browser"@,
                Some(false) => "failed to open browser"@,
            },
        ),
{
    let message = match opened {
        None => "no remote URL",
        Some(true) => "opened in browser",
        Some(false) => "failed to open browser",
    };
    state.flash_message = flash(string_of(&chars_of(message)));
}

/// Whether more commits should be loaded: there are more, and the cursor
/// is within a hundred rows of the end of the list.
pub fn wants_more_commits(state: &State, repo: &Repo) -> (r: bool)
    ensures
        r == (repo.has_more_commits && state.index_of_selected_row + 100 >= repo.commits@.len()),
{
    repo.has_more_commits && (repo.commits.len() <= 100 || state.index_of_selected_row
        >= repo.commits.len() - 100)
}


impl Action {
    /// Whether the key reads the selected commit in the mode the state is
    /// in.
    pub fn reads_selected_commit(&self, state: &State) -> (r: bool)
        ensures
            r == reads_selected(*self, *state),
    {
        let a = *self;
        if state.commit_view.is_some() || state.is_typing_search_term {
            false
        } else if state.is_creating_branch {
            a == Action::Enter && !crate::text::is_empty(state.branch_name.as_str())
        } else if state.is_deleting_branch {
            (a == Action::Enter && !crate::text::is_empty(state.delete_branch_name.as_str())) || a
                == Action::Tab
        } else if state.is_checking_out {
            a == Action::Enter || a == Action::Tab
        } else if state.is_rebase_in_progress {
            false
        } else if state.is_selecting_rebase_branch {
            true
        } else if state.is_entering_rebase_target {
            false
        } else if state.is_confirming_revert {
            a == Action::Enter
        } else if state.is_pushing {
            a == Action::Tab
        } else {
            match a {
                Action::CharL | Action::Enter | Action::Space | Action::CharY | Action::CharO
                | Action::CharC | Action::CharD | Action::CharR | Action::ShiftR | Action::CharP => true,
                _ => false,
            }
        }
    }

    /// Whether the key can be handled now: the commit it reads is in the
    /// list, and the counters it steps can be stepped. When it cannot, the
    /// state is broken (a row past the list, a history entry that is gone).
    pub fn can_execute(&self, state: &State, repo: &Repo) -> (r: bool)
        ensures
            r == ready(*self, *state, *repo),
    {
        let a = *self;
        let selected_ok = !self.reads_selected_commit(state) || state.index_of_selected_row
            < repo.commits.len();
        let tab_ok = a != Action::Tab || state.tab_complete_index < usize::MAX;
        let history_ok = match state.index_of_search_term_history_being_viewed {
            Some(i) => i < state.search_term_history.len(),
            None => true,
        };
        let history_ok = !(a == Action::Up || a == Action::Down) || history_ok;
        let step_ok = !(a == Action::CharN || a == Action::ShiftN) || state.index_of_selected_row
            < usize::MAX;
        selected_ok && tab_ok && history_ok && step_ok
    }
}

} // verus!
