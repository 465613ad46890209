//! Which rows of the commit list are on screen.

use vstd::prelude::*;
use crate::ui_state::UiState;

verus! {

/// Rows the details panel leaves to the commit list above it.
pub const DETAILS_COMMIT_LIST_HEIGHT: u16 = 5;

/// Columns the details panel keeps free at its sides.
pub const DETAILS_HORIZONTAL_PADDING: u16 = 2;

/// Rows of a file's header in the details panel.
pub const FILE_HEADER_HEIGHT: usize = 1;

/// Rows of the message and metadata at the top of the details panel.
pub const DETAILS_HEADER_LINES: usize = 3;

/// Rows of the changes summary in the details panel.
pub const SUMMARY_HEADER_HEIGHT: usize = 1;

/// The number of commit rows a terminal of the given height shows: all
/// but the search bar.
pub open spec fn graph_height(terminal_height: u16) -> usize {
    if terminal_height >= 3 {
        (terminal_height - 3) as usize
    } else {
        0
    }
}

/// The top row that puts `selected` in the middle of `height` rows.
pub open spec fn centered_top(selected: usize, height: usize) -> usize {
    if selected >= height / 2 {
        (selected - height / 2) as usize
    } else {
        0
    }
}

/// The top row after scrolling as little as needed for `selected` to be
/// among the `height` rows shown from `top`.
pub open spec fn visible_top(selected: usize, top: usize, height: usize) -> usize {
    if selected < top {
        selected
    } else if selected - top >= height {
        (selected - height + 1) as usize
    } else {
        top
    }
}

/// The top row after the terminal resized: with at least a screenful of
/// commits, the list is pulled down so no blank rows show below its end,
/// and the selected row is kept visible.
pub open spec fn resized_top(selected: usize, top: usize, height: usize, n: int) -> usize {
    if n >= height {
        let capped = if top > n - height {
            (n - height) as usize
        } else {
            top
        };
        visible_top(selected, capped, height)
    } else {
        top
    }
}

pub fn git_graph_height(terminal_height: u16) -> (r: usize)
    ensures
        r == graph_height(terminal_height),
{
    terminal_height.saturating_sub(3) as usize
}

pub fn center_top(selected: usize, height: usize) -> (r: usize)
    ensures
        r == centered_top(selected, height),
{
    selected.saturating_sub(height / 2)
}

pub fn visible_top_exec(selected: usize, top: usize, height: usize) -> (r: usize)
    requires
        selected < usize::MAX,
    ensures
        r == visible_top(selected, top, height),
{
    if selected < top {
        selected
    } else if selected - top >= height {
        selected - height + 1
    } else {
        top
    }
}

pub fn resized_top_exec(selected: usize, top: usize, height: usize, n: usize) -> (r: usize)
    requires
        selected < usize::MAX,
    ensures
        r == resized_top(selected, top, height, n as int),
{
    if n >= height {
        let max_offset = n - height;
        let capped = if top > max_offset {
            max_offset
        } else {
            top
        };
        visible_top_exec(selected, capped, height)
    } else {
        top
    }
}

/// Scrolls so that the selected row is in the middle of the list.
pub fn center_view_on_selected_row(ui_state: &mut UiState, terminal_height: u16)
    ensures
        final(ui_state).index_of_topmost_visible_row == centered_top(
            old(ui_state).index_of_selected_row,
            graph_height(terminal_height),
        ),
        *final(ui_state) == (UiState { index_of_topmost_visible_row: final(ui_state).index_of_topmost_visible_row, ..*old(ui_state) }),
{
    ui_state.center_view_on_selected_row(terminal_height);
}

/// Scrolls as little as needed for the selected row to be visible.
pub fn ensure_selected_row_is_visible(ui_state: &mut UiState, terminal_height: u16)
    requires
        old(ui_state).index_of_selected_row < usize::MAX,
    ensures
        final(ui_state).index_of_topmost_visible_row == visible_top(
            old(ui_state).index_of_selected_row,
            old(ui_state).index_of_topmost_visible_row,
            graph_height(terminal_height),
        ),
        *final(ui_state) == (UiState { index_of_topmost_visible_row: final(ui_state).index_of_topmost_visible_row, ..*old(ui_state) }),
{
    ui_state.ensure_selected_row_is_visible(terminal_height);
}

/// Keeps the list filled and the selected row visible after a resize.
pub fn adjust_viewport_after_terminal_resize(
    ui_state: &mut UiState,
    terminal_height: u16,
    number_of_commits: usize,
)
    requires
        old(ui_state).index_of_selected_row < usize::MAX,
    ensures
        final(ui_state).index_of_topmost_visible_row == resized_top(
            old(ui_state).index_of_selected_row,
            old(ui_state).index_of_topmost_visible_row,
            graph_height(terminal_height),
            number_of_commits as int,
        ),
        *final(ui_state) == (UiState { index_of_topmost_visible_row: final(ui_state).index_of_topmost_visible_row, ..*old(ui_state) }),
{
    ui_state.adjust_viewport_after_terminal_resize(terminal_height, number_of_commits);
}

// ---------------------------------------------------------------------------
// Laws
// ---------------------------------------------------------------------------

/// After scrolling for it, the selected row is on screen: at or below the
/// top row and above the first row past the screen.
pub proof fn law_selected_row_visible(selected: usize, top: usize, height: usize)
    requires
        height > 0,
        selected < usize::MAX,
    ensures
        visible_top(selected, top, height) <= selected < visible_top(selected, top, height)
            + height,
{
}

/// Scrolling for a row that is already on screen does not scroll.
pub proof fn law_visible_row_keeps_scroll(selected: usize, top: usize, height: usize)
    requires
        top <= selected < top + height,
    ensures
        visible_top(selected, top, height) == top,
{
}

/// After a resize with a screenful of commits or more, the list does not
/// scroll past its end (no blank rows below the last commit) and the
/// selected commit is on screen.
pub proof fn law_resize_fills_screen(selected: usize, top: usize, height: usize, n: usize)
    requires
        height > 0,
        n >= height,
        selected < n,
    ensures
        resized_top(selected, top, height, n as int) + height <= n,
        resized_top(selected, top, height, n as int) <= selected < resized_top(
            selected,
            top,
            height,
            n as int,
        ) + height,
{
}

} // verus!
