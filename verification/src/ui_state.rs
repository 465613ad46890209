//! The commit list's cursor and scroll position, the search being typed
//! and its history.

use vstd::prelude::*;
use crate::repo::{branches_view, branch_target, Head, Repo};
use crate::commit_graph::first_commit;
use crate::viewport::{centered_top, graph_height, resized_top, visible_top};

verus! {

/// A point in time, from the system's monotonic clock.
#[verifier::external_type_specification]
#[verifier::external_body]
pub struct ExInstant(std::time::Instant);

/// The present moment on the monotonic clock; nothing is known of it.
#[verifier::external_body]
pub(crate) fn instant_now() -> std::time::Instant {
    std::time::Instant::now()
}

/// A message shown for a few seconds at the bottom right.
pub struct FlashMessage {
    pub message: String,
    pub shown_at: std::time::Instant,
}

pub struct UiState {
    pub index_of_selected_row: usize,
    pub index_of_topmost_visible_row: usize,
    pub is_typing_search_term: bool,
    pub search_term: String,
    pub search_term_history: Vec<String>,
    pub index_of_search_term_history_being_viewed: Option<usize>,
    pub index_of_selected_row_when_search_began: Option<usize>,
    pub jump_distance_string: String,
    pub is_first_render: bool,
    pub flash_message: Option<FlashMessage>,
}

/// The bar under the commit list takes this many rows.
pub const SEARCH_BAR_HEIGHT: u16 = 3;

impl UiState {
    pub const SEARCH_BAR_HEIGHT: u16 = 3;

    /// The state on start: the cursor on the head's commit (or the first
    /// one), the list scrolled to the top, no search.
    pub fn new(repo: &Repo) -> (r: UiState)
        requires
            repo.wf(),
            repo.head matches Head::Attached { branch_name } ==> branch_target(
                branches_view(repo.branches@),
                branch_name.0@,
            ) is Some,
        ensures
            r.index_of_topmost_visible_row == 0,
            r.is_first_render,
            !r.is_typing_search_term,
            r.search_term@.len() == 0,
            r.search_term_history@.len() == 0,
            r.index_of_search_term_history_being_viewed is None,
            r.index_of_selected_row_when_search_began is None,
            r.jump_distance_string@.len() == 0,
            r.flash_message is None,
            ({
                let h = match repo.head {
                    Head::Attached { branch_name } => branch_target(
                        branches_view(repo.branches@),
                        branch_name.0@,
                    )->0,
                    Head::Detached { sha } => sha,
                };
                match first_commit(repo.commits@, h, repo.commits@.len() as int) {
                    Some(p) => r.index_of_selected_row == p,
                    None => r.index_of_selected_row == 0,
                }
            }),
    {
        UiState {
            is_first_render: true,
            index_of_topmost_visible_row: 0,
            index_of_selected_row: repo.head_row(),
            is_typing_search_term: false,
            search_term: String::new(),
            index_of_search_term_history_being_viewed: None,
            index_of_selected_row_when_search_began: None,
            search_term_history: Vec::new(),
            jump_distance_string: String::new(),
            flash_message: None,
        }
    }

    /// The number of commit rows a terminal of the given height shows.
    pub fn git_graph_height(terminal_height: u16) -> (r: usize)
        ensures
            r == graph_height(terminal_height),
    {
        crate::viewport::git_graph_height(terminal_height)
    }

    /// Scrolls so that the selected row is in the middle of the list.
    pub fn center_view_on_selected_row(&mut self, terminal_height: u16)
        ensures
            final(self).index_of_topmost_visible_row == centered_top(
                old(self).index_of_selected_row,
                graph_height(terminal_height),
            ),
            *final(self) == (UiState { index_of_topmost_visible_row: final(self).index_of_topmost_visible_row, ..*old(self) }),
    {
        let h = Self::git_graph_height(terminal_height);
        self.index_of_topmost_visible_row = crate::viewport::center_top(self.index_of_selected_row, h);
    }

    pub fn scroll_selected_row_to_top_of_viewport(&mut self)
        ensures
            final(self).index_of_topmost_visible_row == old(self).index_of_selected_row,
            *final(self) == (UiState { index_of_topmost_visible_row: final(self).index_of_topmost_visible_row, ..*old(self) }),
    {
        self.index_of_topmost_visible_row = self.index_of_selected_row;
    }

    /// Scrolls as little as needed for the selected row to be visible.
    pub fn ensure_selected_row_is_visible(&mut self, terminal_height: u16)
        requires
            old(self).index_of_selected_row < usize::MAX,
        ensures
            final(self).index_of_topmost_visible_row == visible_top(
                old(self).index_of_selected_row,
                old(self).index_of_topmost_visible_row,
                graph_height(terminal_height),
            ),
            *final(self) == (UiState { index_of_topmost_visible_row: final(self).index_of_topmost_visible_row, ..*old(self) }),
    {
        let h = Self::git_graph_height(terminal_height);
        self.index_of_topmost_visible_row = crate::viewport::visible_top_exec(
            self.index_of_selected_row,
            self.index_of_topmost_visible_row,
            h,
        );
    }

    /// Centres the selected row the first time the list is drawn.
    pub fn center_view_on_selected_row_on_first_render(&mut self, terminal_height: u16)
        ensures
            old(self).is_first_render ==> final(self).index_of_topmost_visible_row == centered_top(
                old(self).index_of_selected_row,
                graph_height(terminal_height),
            ),
            !old(self).is_first_render ==> final(self).index_of_topmost_visible_row == old(
                self,
            ).index_of_topmost_visible_row,
            *final(self) == (UiState {
                index_of_topmost_visible_row: final(self).index_of_topmost_visible_row,
                is_first_render: false,
                ..*old(self)
            }),
    {
        if self.is_first_render {
            self.center_view_on_selected_row(terminal_height);
            self.is_first_render = false;
        }
    }

    /// Keeps the list filled and the selected row visible after the
    /// terminal changed size.
    pub fn adjust_viewport_after_terminal_resize(
        &mut self,
        terminal_height: u16,
        number_of_commits: usize,
    )
        requires
            old(self).index_of_selected_row < usize::MAX,
        ensures
            final(self).index_of_topmost_visible_row == resized_top(
                old(self).index_of_selected_row,
                old(self).index_of_topmost_visible_row,
                graph_height(terminal_height),
                number_of_commits as int,
            ),
            *final(self) == (UiState { index_of_topmost_visible_row: final(self).index_of_topmost_visible_row, ..*old(self) }),
    {
        let h = Self::git_graph_height(terminal_height);
        self.index_of_topmost_visible_row = crate::viewport::resized_top_exec(
            self.index_of_selected_row,
            self.index_of_topmost_visible_row,
            h,
            number_of_commits,
        );
    }
}

} // verus!
