//! Everything the interface remembers between two key presses.

use vstd::prelude::*;
use std::sync::mpsc::Receiver;
use std::time::Instant;
use crate::commit_graph::first_commit;
use crate::highlight::HighlightedFile;
use crate::highlight::HighlightCache;
use crate::repo::{branch_target, branches_view, CommitDetails, Head, Repo, WorktreeFile};
use crate::ui_state::instant_now;
use crate::viewport::{centered_top, graph_height, resized_top, visible_top};

verus! {

/// The receiving end of a channel between threads.
#[verifier::external_type_specification]
#[verifier::external_body]
#[verifier::reject_recursive_types(T)]
pub struct ExReceiver<T>(Receiver<T>);

/// Result of an async push operation
pub struct PushResult {
    pub success: bool,
    pub message: String,
}

/// State for an in-progress push operation
pub struct PushInProgress {
    pub branch_name: String,
    pub receiver: Receiver<PushResult>,
    pub spinner_frame: usize,
}

/// A message shown for a few seconds at the bottom right.
pub struct FlashMessage {
    pub message: String,
    pub shown_at: Instant,
}

/// A message shown from now on.
pub fn flash(message: String) -> (r: Option<FlashMessage>)
    ensures
        r is Some,
        r->0.message == message,
{
    Some(FlashMessage { message, shown_at: instant_now() })
}

/// Whether `f` is a message with the text `m`.
pub open spec fn shows(f: Option<FlashMessage>, m: Seq<char>) -> bool {
    f is Some && f->0.message@ == m
}

#[derive(Clone, Copy, PartialEq, Eq, Structural, Debug)]
pub enum CommitViewPanel {
    UnstagedFiles,
    StagedFiles,
}

/// State for the staging/commit view
pub struct CommitViewState {
    pub active_panel: CommitViewPanel,
    pub unstaged_files: Vec<WorktreeFile>,
    pub staged_files: Vec<WorktreeFile>,
    pub unstaged_selected: usize,
    pub staged_selected: usize,
    pub unstaged_scroll: usize,
    pub staged_scroll: usize,
    pub viewing_file: Option<String>,
    pub diff_scroll: usize,
    /// Cached syntax highlighting for the currently viewed file
    pub staging_highlight: Option<StagingHighlight>,
}

/// Cached syntax highlighting for staging view (one file at a time)
pub struct StagingHighlight {
    pub file_path: String,
    pub unstaged: HighlightedFile,
    pub staged: HighlightedFile,
}

pub struct State {
    pub index_of_selected_row: usize,
    pub index_of_topmost_visible_row: usize,
    pub is_typing_search_term: bool,
    pub search_term: String,
    pub search_term_history: Vec<String>,
    pub index_of_search_term_history_being_viewed: Option<usize>,
    pub index_of_selected_row_when_search_began: Option<usize>,
    pub index_of_topmost_visible_row_when_search_began: Option<usize>,
    pub jump_distance_string: String,
    pub flash_message: Option<FlashMessage>,
    pub is_creating_branch: bool,
    pub branch_name: String,
    pub is_deleting_branch: bool,
    pub delete_branch_name: String,
    pub is_checking_out: bool,
    pub checkout_branch_name: String,
    pub is_selecting_rebase_branch: bool,
    pub is_entering_rebase_target: bool,
    pub rebase_branch: String,
    pub rebase_target: String,
    pub is_rebase_in_progress: bool,
    pub tab_complete_base: Option<String>,
    pub tab_complete_index: usize,
    pub is_showing_help_panel: bool,
    pub commit_details: Option<CommitDetails>,
    pub highlight_cache: Option<HighlightCache>,
    pub details_scroll_offset: usize,
    /// Separate search term for details view
    pub details_search_term: String,
    /// Line index of currently selected search match
    pub details_selected_match_line: Option<usize>,
    /// Index in the list of matches (for counter display)
    pub details_selected_match_index: Option<usize>,
    /// Staging/commit view state
    pub commit_view: Option<CommitViewState>,
    pub is_confirming_revert: bool,
    pub is_pushing: bool,
    pub push_branch_name: String,
    pub push_in_progress: Option<PushInProgress>,
}

/// The commit the head is at.
pub open spec fn head_of(repo: Repo) -> crate::sha::Sha {
    match repo.head {
        Head::Attached { branch_name } => branch_target(
            branches_view(repo.branches@),
            branch_name.0@,
        )->0,
        Head::Detached { sha } => sha,
    }
}

/// The repository's head names a branch it knows, when it names one.
pub open spec fn head_known(repo: Repo) -> bool {
    repo.head matches Head::Attached { branch_name } ==> branch_target(
        branches_view(repo.branches@),
        branch_name.0@,
    ) is Some
}

impl State {
    pub const SEARCH_BAR_HEIGHT: u16 = 3;

    /// The state on start: the cursor on the head's commit (or the first
    /// one), nothing open, nothing typed.
    pub fn new(repo: &Repo) -> (r: State)
        requires
            repo.wf(),
            head_known(*repo),
        ensures
            r.index_of_selected_row == (match first_commit(
                repo.commits@,
                head_of(*repo),
                repo.commits@.len() as int,
            ) {
                Some(p) => p,
                None => 0,
            }),
            r.index_of_topmost_visible_row == 0,
            !r.is_typing_search_term,
            r.search_term@.len() == 0,
            r.search_term_history@.len() == 0,
            r.index_of_search_term_history_being_viewed is None,
            r.index_of_selected_row_when_search_began is None,
            r.index_of_topmost_visible_row_when_search_began is None,
            r.jump_distance_string@.len() == 0,
            r.flash_message is None,
            !r.is_creating_branch && r.branch_name@.len() == 0,
            !r.is_deleting_branch && r.delete_branch_name@.len() == 0,
            !r.is_checking_out && r.checkout_branch_name@.len() == 0,
            !r.is_selecting_rebase_branch && !r.is_entering_rebase_target,
            r.rebase_branch@.len() == 0 && r.rebase_target@.len() == 0,
            !r.is_rebase_in_progress,
            r.tab_complete_base is None && r.tab_complete_index == 0,
            !r.is_showing_help_panel,
            r.commit_details is None && r.highlight_cache is None,
            r.details_scroll_offset == 0 && r.details_search_term@.len() == 0,
            r.details_selected_match_line is None && r.details_selected_match_index is None,
            r.commit_view is None,
            !r.is_confirming_revert,
            !r.is_pushing && r.push_branch_name@.len() == 0,
            r.push_in_progress is None,
    {
        State {
            index_of_topmost_visible_row: 0,
            index_of_selected_row: repo.head_row(),
            is_typing_search_term: false,
            search_term: String::new(),
            index_of_search_term_history_being_viewed: None,
            index_of_selected_row_when_search_began: None,
            index_of_topmost_visible_row_when_search_began: None,
            search_term_history: Vec::new(),
            jump_distance_string: String::new(),
            flash_message: None,
            is_creating_branch: false,
            branch_name: String::new(),
            is_deleting_branch: false,
            delete_branch_name: String::new(),
            is_checking_out: false,
            checkout_branch_name: String::new(),
            is_selecting_rebase_branch: false,
            is_entering_rebase_target: false,
            rebase_branch: String::new(),
            rebase_target: String::new(),
            is_rebase_in_progress: false,
            tab_complete_base: None,
            tab_complete_index: 0,
            is_showing_help_panel: false,
            commit_details: None,
            highlight_cache: None,
            details_scroll_offset: 0,
            details_search_term: String::new(),
            details_selected_match_line: None,
            details_selected_match_index: None,
            commit_view: None,
            is_confirming_revert: false,
            is_pushing: false,
            push_branch_name: String::new(),
            push_in_progress: None,
        }
    }

    /// Scrolls so that the selected row is in the middle of the list.
    pub fn center_view_on_selected_row(&mut self, terminal_height: u16)
        ensures
            *final(self) == (State {
                index_of_topmost_visible_row: centered_top(
                    old(self).index_of_selected_row,
                    graph_height(terminal_height),
                ),
                ..*old(self)
            }),
    {
        let height = crate::viewport::git_graph_height(terminal_height);
        self.index_of_topmost_visible_row = crate::viewport::center_top(
            self.index_of_selected_row,
            height,
        );
    }

    /// Scrolls as little as needed for the selected row to be on screen.
    pub fn ensure_selected_row_is_visible(&mut self, terminal_height: u16)
        requires
            old(self).index_of_selected_row < usize::MAX,
        ensures
            *final(self) == (State {
                index_of_topmost_visible_row: visible_top(
                    old(self).index_of_selected_row,
                    old(self).index_of_topmost_visible_row,
                    graph_height(terminal_height),
                ),
                ..*old(self)
            }),
    {
        let height = crate::viewport::git_graph_height(terminal_height);
        self.index_of_topmost_visible_row = crate::viewport::visible_top_exec(
            self.index_of_selected_row,
            self.index_of_topmost_visible_row,
            height,
        );
    }

    /// Keeps the list filling the screen and the selected row visible
    /// after the terminal changed size.
    pub fn adjust_viewport_after_terminal_resize(
        &mut self,
        terminal_height: u16,
        number_of_commits: usize,
    )
        requires
            old(self).index_of_selected_row < usize::MAX,
        ensures
            *final(self) == (State {
                index_of_topmost_visible_row: resized_top(
                    old(self).index_of_selected_row,
                    old(self).index_of_topmost_visible_row,
                    graph_height(terminal_height),
                    number_of_commits as int,
                ),
                ..*old(self)
            }),
    {
        let height = crate::viewport::git_graph_height(terminal_height);
        self.index_of_topmost_visible_row = crate::viewport::resized_top_exec(
            self.index_of_selected_row,
            self.index_of_topmost_visible_row,
            height,
            number_of_commits,
        );
    }
}

} // verus!
