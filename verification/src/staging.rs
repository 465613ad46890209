//! The staging view: the unstaged and staged files of the worktree, the
//! diff of the file being looked at, and staging or unstaging it hunk by
//! hunk or whole.

use vstd::prelude::*;
use crate::action::{Action, Effect};
use crate::complete::opt_chars;
use crate::details::{hunk_lines_height, lemma_hunk_lines_height_nonneg, saturated};
use crate::highlight::{file_highlight, styled_lines, HighlightedFile, Highlighter};
use crate::hunk::{copy_hunk, hunk_view};
use crate::repo::{Hunk, WorktreeFile, WorktreeStatus};
use crate::state::{flash, shows, CommitViewPanel, CommitViewState, StagingHighlight, State};
use crate::text::{chars_of, copy_string, same_chars, str_then, string_of};
use crate::staging_panels::{current_from, current_hunk};

verus! {

broadcast use vstd::string::group_string_axioms;

/// The file lists show this many files at a time.
pub const FILE_LIST_VISIBLE_LINES: usize = 6;

// ---------------------------------------------------------------------------
// Which file is looked at
// ---------------------------------------------------------------------------

/// The position of the first file at or after `k` with the path `p`.
pub open spec fn first_with_path(files: Seq<WorktreeFile>, p: Seq<char>, k: int) -> Option<int>
    decreases files.len() - k,
{
    if k < 0 || k >= files.len() {
        None
    } else if files[k].path@ == p {
        Some(k)
    } else {
        first_with_path(files, p, k + 1)
    }
}

/// The path of the `i`-th file, if there is one.
pub open spec fn path_at(files: Seq<WorktreeFile>, i: int) -> Option<Seq<char>> {
    if 0 <= i < files.len() {
        Some(files[i].path@)
    } else {
        None
    }
}

/// The files of a panel.
pub open spec fn panel_files(cv: CommitViewState, panel: CommitViewPanel) -> Seq<WorktreeFile> {
    match panel {
        CommitViewPanel::UnstagedFiles => cv.unstaged_files@,
        CommitViewPanel::StagedFiles => cv.staged_files@,
    }
}

/// The selected file of a panel.
pub open spec fn panel_selected(cv: CommitViewState, panel: CommitViewPanel) -> usize {
    match panel {
        CommitViewPanel::UnstagedFiles => cv.unstaged_selected,
        CommitViewPanel::StagedFiles => cv.staged_selected,
    }
}

/// The path of the selected file of a panel.
pub open spec fn selected_path(cv: CommitViewState, panel: CommitViewPanel) -> Option<Seq<char>> {
    path_at(panel_files(cv, panel), panel_selected(cv, panel) as int)
}

/// The position of the first file with the path `p`.
pub(crate) fn find_file(files: &Vec<WorktreeFile>, p: &String) -> (r: Option<usize>)
    ensures
        match r {
            Some(k) => first_with_path(files@, p@, 0) == Some(k as int) && k < files@.len(),
            None => first_with_path(files@, p@, 0) is None,
        },
{
    let target = chars_of(p.as_str());
    let mut k: usize = 0;
    while k < files.len()
        invariant
            k <= files.len(),
            target@ == p@,
            first_with_path(files@, p@, 0) == first_with_path(files@, p@, k as int),
        decreases files.len() - k,
    {
        if same_chars(&chars_of(files[k].path.as_str()), &target) {
            return Some(k);
        }
        k += 1;
    }
    None
}

/// The path of the `i`-th file, if there is one.
fn path_of(files: &Vec<WorktreeFile>, i: usize) -> (r: Option<String>)
    ensures
        opt_chars(r) == path_at(files@, i as int),
{
    if i < files.len() {
        Some(copy_string(&files[i].path))
    } else {
        None
    }
}

// ---------------------------------------------------------------------------
// Highlighting
// ---------------------------------------------------------------------------

/// The highlighting of the unstaged (or staged) hunks of the file at `p`.
pub open spec fn side_highlight(files: Seq<WorktreeFile>, p: Seq<char>, unstaged: bool) -> Seq<
    Seq<(crate::highlight::SyntaxStyle, Seq<char>)>,
> {
    match first_with_path(files, p, 0) {
        Some(k) => file_highlight(
            if unstaged {
                files[k].unstaged_hunks@
            } else {
                files[k].staged_hunks@
            },
            p,
        ),
        None => Seq::empty(),
    }
}

/// The cached highlighting is that of the file looked at.
pub open spec fn highlight_fresh(cv: CommitViewState) -> bool {
    match cv.viewing_file {
        None => cv.staging_highlight is None,
        Some(p) => cv.staging_highlight matches Some(h) && h.file_path@ == p@ && styled_lines(
            h.unstaged.lines@,
        ) == side_highlight(cv.unstaged_files@, p@, true) && styled_lines(h.staged.lines@)
            == side_highlight(cv.staged_files@, p@, false),
    }
}

/// `cv2` is `cv` with its highlighting made fresh.
pub open spec fn rehighlighted(cv: CommitViewState, cv2: CommitViewState) -> bool {
    &&& cv2 == (CommitViewState { staging_highlight: cv2.staging_highlight, ..cv })
    &&& highlight_fresh(cv2)
}

fn highlight_side(files: &Vec<WorktreeFile>, path: &String, unstaged: bool, h: &Highlighter) -> (r: HighlightedFile)
    ensures
        styled_lines(r.lines@) == side_highlight(files@, path@, unstaged),
{
    match find_file(files, path) {
        Some(k) => {
            let file = &files[k];
            if unstaged {
                h.highlight_hunks(&file.unstaged_hunks, path.as_str())
            } else {
                h.highlight_hunks(&file.staged_hunks, path.as_str())
            }
        },
        None => {
            let r = HighlightedFile { lines: Vec::new() };
            proof {
                assert(styled_lines(r.lines@) =~= Seq::<
                    Seq<(crate::highlight::SyntaxStyle, Seq<char>)>,
                >::empty());
            }
            r
        },
    }
}

/// Makes the cached highlighting that of the file looked at.
fn refresh_highlight(cv: &mut CommitViewState)
    ensures
        rehighlighted(*old(cv), *final(cv)),
{
    match &cv.viewing_file {
        None => {
            cv.staging_highlight = None;
        },
        Some(path) => {
            let h = Highlighter::new();
            let unstaged = highlight_side(&cv.unstaged_files, path, true, &h);
            let staged = highlight_side(&cv.staged_files, path, false, &h);
            let file_path = copy_string(path);
            cv.staging_highlight = Some(StagingHighlight { file_path, unstaged, staged });
        },
    }
}

/// Update the staging highlight cache for the currently viewed file
pub fn update_staging_highlight(state: &mut State)
    ensures
        match old(state).commit_view {
            None => *final(state) == *old(state),
            Some(cv) => {
                &&& *final(state) == (State { commit_view: final(state).commit_view, ..*old(state) })
                &&& final(state).commit_view matches Some(cv2) && rehighlighted(cv, cv2)
            },
        },
{
    match state.commit_view.take() {
        Some(mut cv) => {
            refresh_highlight(&mut cv);
            state.commit_view = Some(cv);
        },
        None => {},
    }
}

// ---------------------------------------------------------------------------
// Scrolling the diff
// ---------------------------------------------------------------------------

/// The rows of the diff panel: 60% of the terminal, less its borders.
pub open spec fn diff_view_height(terminal_height: u16) -> usize {
    let x = (terminal_height as int) * 60 / 100;
    if x >= 2 {
        (x - 2) as usize
    } else {
        0
    }
}

/// Calculate the viewport height for the diff panel in commit view
/// The diff panel takes ~60% of the total height, minus borders
pub fn diff_viewport_height(terminal_height: u16) -> (r: usize)
    ensures
        r == diff_view_height(terminal_height),
{
    let total = terminal_height as usize;
    (total * 60 / 100).saturating_sub(2)
}

/// The hunks of the file looked at: its unstaged ones when it is among
/// the unstaged files, else its staged ones.
pub open spec fn viewed_hunks(cv: CommitViewState) -> Option<Seq<Hunk>> {
    match cv.viewing_file {
        None => None,
        Some(p) => match first_with_path(cv.unstaged_files@, p@, 0) {
            Some(k) => Some(cv.unstaged_files@[k].unstaged_hunks@),
            None => match first_with_path(cv.staged_files@, p@, 0) {
                Some(k) => Some(cv.staged_files@[k].staged_hunks@),
                None => None,
            },
        },
    }
}

/// How far the diff scrolls: far enough to reach the last hunk, and to
/// show the end of the diff.
pub open spec fn max_diff_scroll(cv: CommitViewState, viewport_height: usize) -> int {
    match viewed_hunks(cv) {
        None => 0,
        Some(hs) => if hs.len() == 0 {
            0
        } else {
            let n = hs.len() as int;
            let total = saturated(hunk_lines_height(hs, n));
            let last = saturated(
                if n > 1 {
                    hunk_lines_height(hs, n - 1) + 1
                } else {
                    0
                },
            );
            let content = if total > viewport_height {
                total - viewport_height
            } else {
                0
            };
            if last >= content {
                last
            } else {
                content
            }
        },
    }
}

/// The hunks of the file looked at.
fn get_viewed_hunks(cv: &CommitViewState) -> (r: Option<&Vec<Hunk>>)
    ensures
        match r {
            Some(v) => viewed_hunks(*cv) == Some(v@),
            None => viewed_hunks(*cv) is None,
        },
{
    match &cv.viewing_file {
        None => None,
        Some(path) => match find_file(&cv.unstaged_files, path) {
            Some(k) => Some(&cv.unstaged_files[k].unstaged_hunks),
            None => match find_file(&cv.staged_files, path) {
                Some(k) => Some(&cv.staged_files[k].staged_hunks),
                None => None,
            },
        },
    }
}

/// Calculate the max scroll position for the diff view
/// Allows scrolling to select any hunk AND see all content
pub fn compute_max_diff_scroll(cv: &CommitViewState, viewport_height: usize) -> (r: usize)
    ensures
        r == max_diff_scroll(*cv, viewport_height),
{
    let hunks = match get_viewed_hunks(cv) {
        Some(h) => h,
        None => {
            return 0;
        },
    };
    let n = hunks.len();
    if n == 0 {
        return 0;
    }
    let ghost hs = hunks@;
    let mut total: usize = 0;
    let mut last: usize = 0;
    let mut i: usize = 0;
    while i < n
        invariant
            n == hs.len(),
            n > 0,
            hs == hunks@,
            i <= n,
            total == saturated(
                if i == 0 {
                    0
                } else if i < n {
                    hunk_lines_height(hs, i as int) + 1
                } else {
                    hunk_lines_height(hs, n as int)
                },
            ),
            i == n ==> last == saturated(
                if n > 1 {
                    hunk_lines_height(hs, n - 1) + 1
                } else {
                    0
                },
            ),
        decreases n - i,
    {
        proof {
            lemma_hunk_lines_height_nonneg(hs, i as int);
        }
        if i == n - 1 {
            last = total;
        }
        total = total.saturating_add(hunks[i].lines.len());
        if i < n - 1 {
            total = total.saturating_add(1);
        }
        i += 1;
    }
    let content = total.saturating_sub(viewport_height);
    if last >= content {
        last
    } else {
        content
    }
}

/// The hunk the diff of the file looked at is scrolled to, among its
/// unstaged (or staged) hunks: the last one that starts at or above the
/// scroll row, as the diff panel draws them (a blank row between two
/// hunks). It is the hunk the panel marks as the one acted on.
pub open spec fn topmost_hunk(cv: CommitViewState, unstaged: bool) -> Option<Hunk> {
    match cv.viewing_file {
        None => None,
        Some(p) => {
            let files = if unstaged {
                cv.unstaged_files@
            } else {
                cv.staged_files@
            };
            match first_with_path(files, p@, 0) {
                None => None,
                Some(k) => {
                    let hs = if unstaged {
                        files[k].unstaged_hunks@
                    } else {
                        files[k].staged_hunks@
                    };
                    if hs.len() == 0 {
                        None
                    } else {
                        Some(hs[current_from(hs, cv.diff_scroll as int, 0)])
                    }
                },
            }
        },
    }
}

/// Find the hunk that's currently at the top of the visible diff area
/// If `unstaged` is true, looks in unstaged_hunks, otherwise staged_hunks
pub fn find_topmost_visible_hunk(cv: &CommitViewState, unstaged: bool) -> (r: Option<Hunk>)
    ensures
        match (r, topmost_hunk(*cv, unstaged)) {
            (Some(h), Some(t)) => hunk_view(h) == hunk_view(t),
            (None, None) => true,
            _ => false,
        },
{
    let path = match &cv.viewing_file {
        Some(p) => p,
        None => {
            return None;
        },
    };
    let files = if unstaged {
        &cv.unstaged_files
    } else {
        &cv.staged_files
    };
    let k = match find_file(files, path) {
        Some(k) => k,
        None => {
            return None;
        },
    };
    let hunks = if unstaged {
        &files[k].unstaged_hunks
    } else {
        &files[k].staged_hunks
    };
    if hunks.len() == 0 {
        return None;
    }
    let (i, _start) = current_hunk(hunks, cv.diff_scroll);
    Some(copy_hunk(&hunks[i]))
}

// ---------------------------------------------------------------------------
// The file lists
// ---------------------------------------------------------------------------

/// The scroll of a file list after moving its selection to `sel`: as
/// little as needed for `sel` to be among the rows shown.
pub open spec fn list_scroll(sel: usize, scroll: usize) -> usize {
    if sel < scroll {
        sel
    } else if sel - scroll >= FILE_LIST_VISIBLE_LINES {
        (sel - FILE_LIST_VISIBLE_LINES + 1) as usize
    } else {
        scroll
    }
}

/// The scroll of a file list after moving its selection.
fn list_scroll_exec(sel: usize, scroll: usize) -> (r: usize)
    ensures
        r == list_scroll(sel, scroll),
{
    if sel < scroll {
        sel
    } else if sel - scroll >= FILE_LIST_VISIBLE_LINES {
        sel - FILE_LIST_VISIBLE_LINES + 1
    } else {
        scroll
    }
}

/// `cv` with the active panel's selection at `sel`: the file looked at
/// follows it, the diff is scrolled to the top, and the list scrolls to
/// show it. The highlighting is left as it was.
pub open spec fn file_selected(cv: CommitViewState, cv2: CommitViewState, sel: usize) -> bool {
    &&& opt_chars(cv2.viewing_file) == path_at(panel_files(cv, cv.active_panel), sel as int)
    &&& match cv.active_panel {
        CommitViewPanel::UnstagedFiles => cv2 == (CommitViewState {
            unstaged_selected: sel,
            unstaged_scroll: list_scroll(sel, cv.unstaged_scroll),
            viewing_file: cv2.viewing_file,
            diff_scroll: 0,
            ..cv
        }),
        CommitViewPanel::StagedFiles => cv2 == (CommitViewState {
            staged_selected: sel,
            staged_scroll: list_scroll(sel, cv.staged_scroll),
            viewing_file: cv2.viewing_file,
            diff_scroll: 0,
            ..cv
        }),
    }
}

fn select_file(cv: &mut CommitViewState, sel: usize)
    ensures
        file_selected(*old(cv), *final(cv), sel),
{
    match cv.active_panel {
        CommitViewPanel::UnstagedFiles => {
            cv.unstaged_selected = sel;
            cv.viewing_file = path_of(&cv.unstaged_files, sel);
            cv.diff_scroll = 0;
            cv.unstaged_scroll = list_scroll_exec(sel, cv.unstaged_scroll);
        },
        CommitViewPanel::StagedFiles => {
            cv.staged_selected = sel;
            cv.viewing_file = path_of(&cv.staged_files, sel);
            cv.diff_scroll = 0;
            cv.staged_scroll = list_scroll_exec(sel, cv.staged_scroll);
        },
    }
}

// ---------------------------------------------------------------------------
// Keys
// ---------------------------------------------------------------------------

/// The smaller of `a` and `b`.
pub open spec fn min_of(a: int, b: int) -> int {
    if a <= b {
        a
    } else {
        b
    }
}

/// `scroll` moved down by `step`, but not past `max`.
pub fn scrolled_down(scroll: usize, step: usize, max: usize) -> (r: usize)
    ensures
        r == min_of(scroll + step, max as int),
{
    if scroll < max && max - scroll > step {
        scroll + step
    } else {
        max
    }
}

/// The commit view with a diff scroll of `d`.
pub open spec fn with_diff_scroll(s: State, cv: CommitViewState, d: int) -> State {
    State { commit_view: Some(CommitViewState { diff_scroll: d as usize, ..cv }), ..s }
}

/// What a key does in the staging view.
pub open spec fn commit_view_step(a: Action, s: State, t: State, e: Effect, terminal_height: u16) -> bool {
    let cv = s.commit_view->0;
    let vh = diff_view_height(terminal_height);
    let max = max_diff_scroll(cv, vh);
    let panel = cv.active_panel;
    let files = panel_files(cv, panel);
    let sel = panel_selected(cv, panel);
    let changed = t == (State { commit_view: t.commit_view, ..s }) && t.commit_view is Some;
    let cv2 = t.commit_view->0;
    match a {
        Action::Esc | Action::CtrlC | Action::CharQ | Action::Tab => t == (State {
            commit_view: None,
            ..s
        }) && e is Nothing,
        Action::CharH | Action::CharL => {
            let other = match panel {
                CommitViewPanel::UnstagedFiles => CommitViewPanel::StagedFiles,
                CommitViewPanel::StagedFiles => CommitViewPanel::UnstagedFiles,
            };
            &&& changed && e is Nothing
            &&& opt_chars(cv2.viewing_file) == selected_path(cv, other)
            &&& rehighlighted(
                CommitViewState {
                    active_panel: other,
                    viewing_file: cv2.viewing_file,
                    diff_scroll: 0,
                    ..cv
                },
                cv2,
            )
        },
        Action::CharJ | Action::Down => t == with_diff_scroll(s, cv, min_of(cv.diff_scroll + 1, max))
            && e is Nothing,
        Action::CharK | Action::Up => t == with_diff_scroll(
            s,
            cv,
            if cv.diff_scroll >= 1 {
                cv.diff_scroll - 1
            } else {
                0
            },
        ) && e is Nothing,
        Action::CharG => t == with_diff_scroll(s, cv, 0) && e is Nothing,
        Action::ShiftG => t == with_diff_scroll(s, cv, max) && e is Nothing,
        Action::CtrlD => t == with_diff_scroll(s, cv, min_of(cv.diff_scroll + vh / 2, max))
            && e is Nothing,
        Action::CtrlU => t == with_diff_scroll(
            s,
            cv,
            if cv.diff_scroll >= vh / 2 {
                cv.diff_scroll - vh / 2
            } else {
                0
            },
        ) && e is Nothing,
        Action::ShiftJ => {
            &&& e is Nothing
            &&& if files.len() == 0 {
                t == s
            } else {
                let sel2 = min_of(sel + 1, files.len() - 1) as usize;
                let picked = CommitViewState { staging_highlight: cv2.staging_highlight, ..cv2 };
                &&& changed
                &&& file_selected(cv, CommitViewState { staging_highlight: cv.staging_highlight, ..cv2 }, sel2)
                &&& if sel2 != sel {
                    highlight_fresh(cv2)
                } else {
                    cv2.staging_highlight == cv.staging_highlight
                }
            }
        },
        Action::ShiftK => {
            &&& e is Nothing
            &&& if sel == 0 {
                t == s
            } else {
                &&& changed
                &&& file_selected(cv, CommitViewState { staging_highlight: cv.staging_highlight, ..cv2 }, (sel - 1) as usize)
                &&& highlight_fresh(cv2)
            }
        },
        Action::Char('s') => t == s && if panel == CommitViewPanel::UnstagedFiles
            && cv.viewing_file is Some && topmost_hunk(cv, true) is Some {
            e matches Effect::StageHunk(p, h) && p@ == cv.viewing_file->0@ && hunk_view(h)
                == hunk_view(topmost_hunk(cv, true)->0)
        } else {
            e is Nothing
        },
        Action::ShiftS => t == s && if panel == CommitViewPanel::UnstagedFiles
            && cv.viewing_file is Some {
            e matches Effect::StageFile(p) && p@ == cv.viewing_file->0@
        } else {
            e is Nothing
        },
        Action::Char('u') => t == s && if panel == CommitViewPanel::StagedFiles
            && cv.viewing_file is Some && topmost_hunk(cv, false) is Some {
            e matches Effect::UnstageHunk(p, h) && p@ == cv.viewing_file->0@ && hunk_view(h)
                == hunk_view(topmost_hunk(cv, false)->0)
        } else {
            e is Nothing
        },
        Action::ShiftU => t == s && if panel == CommitViewPanel::StagedFiles
            && cv.viewing_file is Some {
            e matches Effect::UnstageFile(p) && p@ == cv.viewing_file->0@
        } else {
            e is Nothing
        },
        Action::CharO => t == s && if cv.viewing_file is Some {
            e matches Effect::EditFile(p) && p@ == cv.viewing_file->0@
        } else {
            e is Nothing
        },
        Action::CharC => if cv.staged_files@.len() == 0 {
            t == (State { flash_message: t.flash_message, ..s }) && shows(
                t.flash_message,
                "nothing staged to commit"@,
            ) && e is Nothing
        } else {
            t == s && e == (Effect::CommitWithEditor { amend: false })
        },
        Action::Char('a') => t == s && e == (Effect::CommitWithEditor { amend: true }),
        _ => t == s && e is Nothing,
    }
}

impl Action {
    #[verifier::spinoff_prover]
    #[verifier::rlimit(100)]
    pub fn execute_commit_view_mode(&self, state: &mut State, terminal_height: u16) -> (e: Effect)
        requires
            old(state).commit_view is Some,
        ensures
            commit_view_step(*self, *old(state), *final(state), e, terminal_height),
    {
        let mut cv = match state.commit_view.take() {
            Some(cv) => cv,
            None => {
                return Effect::Nothing;
            },
        };
        let ghost cv0 = cv;
        let mut e = Effect::Nothing;
        match *self {
            Action::Esc | Action::CtrlC | Action::CharQ | Action::Tab => {
                return Effect::Nothing;
            },
            Action::CharH | Action::CharL => {
                cv.active_panel = match cv.active_panel {
                    CommitViewPanel::UnstagedFiles => CommitViewPanel::StagedFiles,
                    CommitViewPanel::StagedFiles => CommitViewPanel::UnstagedFiles,
                };
                cv.viewing_file = match cv.active_panel {
                    CommitViewPanel::UnstagedFiles => path_of(&cv.unstaged_files, cv.unstaged_selected),
                    CommitViewPanel::StagedFiles => path_of(&cv.staged_files, cv.staged_selected),
                };
                cv.diff_scroll = 0;
                refresh_highlight(&mut cv);
            },
            Action::CharJ | Action::Down => {
                let max = compute_max_diff_scroll(&cv, diff_viewport_height(terminal_height));
                cv.diff_scroll = scrolled_down(cv.diff_scroll, 1, max);
            },
            Action::CharK | Action::Up => {
                cv.diff_scroll = cv.diff_scroll.saturating_sub(1);
            },
            Action::CharG => {
                cv.diff_scroll = 0;
            },
            Action::ShiftG => {
                cv.diff_scroll = compute_max_diff_scroll(&cv, diff_viewport_height(terminal_height));
            },
            Action::CtrlD => {
                let viewport = diff_viewport_height(terminal_height);
                let max = compute_max_diff_scroll(&cv, viewport);
                cv.diff_scroll = scrolled_down(cv.diff_scroll, viewport / 2, max);
            },
            Action::CtrlU => {
                let half = diff_viewport_height(terminal_height) / 2;
                cv.diff_scroll = cv.diff_scroll.saturating_sub(half);
            },
            Action::ShiftJ => {
                let (len, sel) = match cv.active_panel {
                    CommitViewPanel::UnstagedFiles => (cv.unstaged_files.len(), cv.unstaged_selected),
                    CommitViewPanel::StagedFiles => (cv.staged_files.len(), cv.staged_selected),
                };
                if len > 0 {
                    let next = if sel < len - 1 {
                        sel + 1
                    } else {
                        len - 1
                    };
                    select_file(&mut cv, next);
                    if next != sel {
                        refresh_highlight(&mut cv);
                    }
                }
            },
            Action::ShiftK => {
                let sel = match cv.active_panel {
                    CommitViewPanel::UnstagedFiles => cv.unstaged_selected,
                    CommitViewPanel::StagedFiles => cv.staged_selected,
                };
                if sel > 0 {
                    select_file(&mut cv, sel - 1);
                    refresh_highlight(&mut cv);
                }
            },
            Action::Char('s') => {
                if cv.active_panel == CommitViewPanel::UnstagedFiles {
                    match &cv.viewing_file {
                        Some(path) => match find_topmost_visible_hunk(&cv, true) {
                            Some(h) => {
                                e = Effect::StageHunk(copy_string(path), h);
                            },
                            None => {},
                        },
                        None => {},
                    }
                }
            },
            Action::ShiftS => {
                if cv.active_panel == CommitViewPanel::UnstagedFiles {
                    match &cv.viewing_file {
                        Some(path) => {
                            e = Effect::StageFile(copy_string(path));
                        },
                        None => {},
                    }
                }
            },
            Action::Char('u') => {
                if cv.active_panel == CommitViewPanel::StagedFiles {
                    match &cv.viewing_file {
                        Some(path) => match find_topmost_visible_hunk(&cv, false) {
                            Some(h) => {
                                e = Effect::UnstageHunk(copy_string(path), h);
                            },
                            None => {},
                        },
                        None => {},
                    }
                }
            },
            Action::ShiftU => {
                if cv.active_panel == CommitViewPanel::StagedFiles {
                    match &cv.viewing_file {
                        Some(path) => {
                            e = Effect::UnstageFile(copy_string(path));
                        },
                        None => {},
                    }
                }
            },
            Action::CharO => {
                match &cv.viewing_file {
                    Some(path) => {
                        e = Effect::EditFile(copy_string(path));
                    },
                    None => {},
                }
            },
            Action::CharC => {
                if cv.staged_files.len() == 0 {
                    state.flash_message = flash(string_of(&chars_of("nothing staged to commit")));
                } else {
                    e = Effect::CommitWithEditor { amend: false };
                }
            },
            Action::Char('a') => {
                e = Effect::CommitWithEditor { amend: true };
            },
            _ => {},
        }
        state.commit_view = Some(cv);
        e
    }
}

// ---------------------------------------------------------------------------
// After git changed the worktree
// ---------------------------------------------------------------------------

/// The staging view after the worktree was read again: the new file
/// lists, the selections kept within them, the file looked at following
/// the selection (the diff scrolled to the top when it changed). With
/// nothing left to stage or unstage the view closes.
pub open spec fn refreshed(s: State, t: State, status: Option<WorktreeStatus>) -> bool {
    match status {
        None => t == s,
        Some(st) => {
            let cv = s.commit_view->0;
            let us = st.unstaged_files@;
            let ss = st.staged_files@;
            let usel = if us.len() == 0 {
                0
            } else {
                min_of(cv.unstaged_selected as int, us.len() - 1)
            };
            let ssel = if ss.len() == 0 {
                0
            } else {
                min_of(cv.staged_selected as int, ss.len() - 1)
            };
            let view = match cv.active_panel {
                CommitViewPanel::UnstagedFiles => path_at(us, usel),
                CommitViewPanel::StagedFiles => path_at(ss, ssel),
            };
            if us.len() == 0 && ss.len() == 0 {
                &&& t == (State { commit_view: None, flash_message: t.flash_message, ..s })
                &&& shows(t.flash_message, "all changes staged/unstaged"@)
            } else {
                let cv2 = t.commit_view->0;
                &&& t == (State { commit_view: t.commit_view, ..s })
                &&& t.commit_view is Some
                &&& opt_chars(cv2.viewing_file) == view
                &&& rehighlighted(
                    CommitViewState {
                        unstaged_files: st.unstaged_files,
                        staged_files: st.staged_files,
                        unstaged_selected: usel as usize,
                        staged_selected: ssel as usize,
                        viewing_file: cv2.viewing_file,
                        diff_scroll: if view == opt_chars(cv.viewing_file) {
                            cv.diff_scroll
                        } else {
                            0
                        },
                        ..cv
                    },
                    cv2,
                )
            }
        },
    }
}

fn same_path(a: &Option<String>, b: &Option<String>) -> (r: bool)
    ensures
        r == (opt_chars(*a) == opt_chars(*b)),
{
    match (a, b) {
        (Some(x), Some(y)) => same_chars(&chars_of(x.as_str()), &chars_of(y.as_str())),
        (None, None) => true,
        _ => false,
    }
}

/// Refresh the commit view state after staging/unstaging, from the
/// worktree status read again (none when it could not be read).
#[verifier::spinoff_prover]
#[verifier::rlimit(100)]
pub fn refresh_commit_view(state: &mut State, status: Option<WorktreeStatus>)
    requires
        status is Some ==> old(state).commit_view is Some,
    ensures
        refreshed(*old(state), *final(state), status),
{
    let status = match status {
        Some(s) => s,
        None => {
            return;
        },
    };
    let mut cv = match state.commit_view.take() {
        Some(cv) => cv,
        None => {
            return;
        },
    };
    let viewing_file = cv.viewing_file.take();
    cv.unstaged_files = status.unstaged_files;
    cv.staged_files = status.staged_files;
    if cv.unstaged_files.len() == 0 {
        cv.unstaged_selected = 0;
    } else if cv.unstaged_selected > cv.unstaged_files.len() - 1 {
        cv.unstaged_selected = cv.unstaged_files.len() - 1;
    }
    if cv.staged_files.len() == 0 {
        cv.staged_selected = 0;
    } else if cv.staged_selected > cv.staged_files.len() - 1 {
        cv.staged_selected = cv.staged_files.len() - 1;
    }
    let new_viewing_file = match cv.active_panel {
        CommitViewPanel::UnstagedFiles => path_of(&cv.unstaged_files, cv.unstaged_selected),
        CommitViewPanel::StagedFiles => path_of(&cv.staged_files, cv.staged_selected),
    };
    if !same_path(&new_viewing_file, &viewing_file) {
        cv.diff_scroll = 0;
    }
    cv.viewing_file = new_viewing_file;
    if cv.unstaged_files.len() == 0 && cv.staged_files.len() == 0 {
        state.flash_message = flash(string_of(&chars_of("all changes staged/unstaged")));
    } else {
        refresh_highlight(&mut cv);
        state.commit_view = Some(cv);
    }
}

/// What is shown once git tried to stage or unstage: the error after
/// `failure`, or the view read again.
pub fn report_staging(
    state: &mut State,
    failure: &str,
    result: Result<(), String>,
    status: Option<WorktreeStatus>,
)
    requires
        status is Some ==> old(state).commit_view is Some,
    ensures
        match result {
            Ok(_) => refreshed(*old(state), *final(state), status),
            Err(e) => *final(state) == (State {
                flash_message: final(state).flash_message,
                ..*old(state)
            }) && shows(final(state).flash_message, failure@ + e@),
        },
{
    match result {
        Ok(_) => refresh_commit_view(state, status),
        Err(e) => {
            state.flash_message = flash(str_then(failure, &chars_of(e.as_str())));
        },
    }
}

/// What is shown once the editor opened on a file closed: the view read
/// again when it exited well.
pub fn report_edit(state: &mut State, outcome: Result<bool, String>, status: Option<WorktreeStatus>)
    requires
        status is Some ==> old(state).commit_view is Some,
    ensures
        match outcome {
            Ok(true) => refreshed(*old(state), *final(state), status),
            Ok(false) => *final(state) == (State {
                flash_message: final(state).flash_message,
                ..*old(state)
            }) && shows(final(state).flash_message, "editor exited with error"@),
            Err(e) => *final(state) == (State {
                flash_message: final(state).flash_message,
                ..*old(state)
            }) && shows(final(state).flash_message, "failed to open editor: "@ + e@),
        },
{
    match outcome {
        Ok(true) => refresh_commit_view(state, status),
        Ok(false) => {
            state.flash_message = flash(string_of(&chars_of("editor exited with error")));
        },
        Err(e) => {
            state.flash_message = flash(str_then("failed to open editor: ", &chars_of(e.as_str())));
        },
    }
}

// ---------------------------------------------------------------------------
// Opening the view
// ---------------------------------------------------------------------------

/// The staging view opened on a worktree status: the unstaged panel
/// active unless it is empty, the first file of either list looked at.
pub open spec fn opened_view(cv: CommitViewState, st: WorktreeStatus) -> bool {
    let first = if st.unstaged_files@.len() > 0 {
        path_at(st.unstaged_files@, 0)
    } else {
        path_at(st.staged_files@, 0)
    };
    &&& opt_chars(cv.viewing_file) == first
    &&& rehighlighted(
        CommitViewState {
            active_panel: if st.unstaged_files@.len() > 0 {
                CommitViewPanel::UnstagedFiles
            } else {
                CommitViewPanel::StagedFiles
            },
            unstaged_files: st.unstaged_files,
            staged_files: st.staged_files,
            unstaged_selected: 0,
            staged_selected: 0,
            unstaged_scroll: 0,
            staged_scroll: 0,
            viewing_file: cv.viewing_file,
            diff_scroll: 0,
            staging_highlight: None,
        },
        cv,
    )
}

/// Opens the staging view when the worktree has changes, on its status
/// (when it could be read); the details panel closes. Without changes it
/// is told there is nothing to stage.
pub fn open_commit_view(state: &mut State, has_changes: bool, status: Option<WorktreeStatus>)
    ensures
        if !has_changes {
            *final(state) == (State { flash_message: final(state).flash_message, ..*old(state) })
                && shows(final(state).flash_message, "no changes to stage"@)
        } else {
            match status {
                None => *final(state) == *old(state),
                Some(st) => {
                    &&& *final(state) == (State {
                        commit_view: final(state).commit_view,
                        commit_details: None,
                        ..*old(state)
                    })
                    &&& final(state).commit_view matches Some(cv) && opened_view(cv, st)
                },
            }
        },
{
    if !has_changes {
        state.flash_message = flash(string_of(&chars_of("no changes to stage")));
        return;
    }
    let status = match status {
        Some(s) => s,
        None => {
            return;
        },
    };
    let viewing_file = if status.unstaged_files.len() > 0 {
        path_of(&status.unstaged_files, 0)
    } else {
        path_of(&status.staged_files, 0)
    };
    let active_panel = if status.unstaged_files.len() > 0 {
        CommitViewPanel::UnstagedFiles
    } else {
        CommitViewPanel::StagedFiles
    };
    let mut cv = CommitViewState {
        active_panel,
        unstaged_files: status.unstaged_files,
        staged_files: status.staged_files,
        unstaged_selected: 0,
        staged_selected: 0,
        unstaged_scroll: 0,
        staged_scroll: 0,
        viewing_file,
        diff_scroll: 0,
        staging_highlight: None,
    };
    refresh_highlight(&mut cv);
    state.commit_view = Some(cv);
    state.commit_details = None;
}

// ---------------------------------------------------------------------------
// Committing
// ---------------------------------------------------------------------------

/// Whether a line of a commit message is a comment.
pub open spec fn is_comment(line: Seq<char>) -> bool {
    line.len() > 0 && line[0] == '#'
}

/// The message to commit from what was written in the editor: comment
/// lines dropped, the rest joined by newlines and trimmed.
pub open spec fn cleaned_message(raw: Seq<char>) -> Seq<char> {
    crate::text::trimmed(
        crate::text::joined(lines_of_kept(crate::text::lines_of(raw)), seq!['\n']),
    )
}

/// The lines that are not comments.
pub open spec fn lines_of_kept(lines: Seq<Seq<char>>) -> Seq<Seq<char>>
    decreases lines.len(),
{
    if lines.len() == 0 {
        Seq::empty()
    } else if is_comment(lines.last()) {
        lines_of_kept(lines.drop_last())
    } else {
        lines_of_kept(lines.drop_last()).push(lines.last())
    }
}

/// The message to commit from what was written in the editor: comment
/// lines dropped, the rest joined by newlines and trimmed.
pub fn clean_commit_message(raw: &str) -> (r: String)
    ensures
        r@ == cleaned_message(raw@),
{
    let lines = crate::text::split_lines(&chars_of(raw));
    let mut kept: Vec<Vec<char>> = Vec::new();
    let mut i: usize = 0;
    while i < lines.len()
        invariant
            i <= lines.len(),
            kept.deep_view() == lines_of_kept(lines.deep_view().take(i as int)),
        decreases lines.len() - i,
    {
        proof {
            crate::complete::lemma_deep_index(lines, i as int);
            assert(lines.deep_view().take(i + 1).drop_last() =~= lines.deep_view().take(i as int));
        }
        let line = &lines[i];
        if !(line.len() > 0 && line[0] == '#') {
            let ghost before = kept.deep_view();
            let copy = crate::text::copy_chars(line);
            proof {
                assert(copy.deep_view() =~= copy@);
            }
            kept.push(copy);
            proof {
                assert(kept.deep_view() =~= before.push(copy@));
            }
        }
        i += 1;
    }
    proof {
        assert(lines.deep_view().take(lines.len() as int) =~= lines.deep_view());
    }
    let mut nl: Vec<char> = Vec::new();
    nl.push('\n');
    proof {
        assert(nl@ =~= seq!['\n']);
    }
    let joined = crate::text::join(&kept, &nl);
    string_of(&crate::text::trim(&joined))
}

/// What came of writing a commit message in the editor.
pub enum EditorOutcome {
    /// The file for the message could not be written.
    TempFileFailed(String),
    /// The editor could not be run.
    EditorFailed(String),
    /// The editor exited with an error.
    EditorExited,
    /// The message could not be read back.
    ReadFailed(String),
    /// What was written.
    Written(String),
}

/// The message to commit, once the editor closed; none, with the reason
/// shown, when there is nothing to commit.
pub fn message_from_editor(state: &mut State, outcome: EditorOutcome) -> (r: Option<String>)
    ensures
        *final(state) == (State { flash_message: final(state).flash_message, ..*old(state) }),
        match outcome {
            EditorOutcome::TempFileFailed(e) => r is None && shows(
                final(state).flash_message,
                "failed to create temp file: "@ + e@,
            ),
            EditorOutcome::EditorFailed(e) => r is None && shows(
                final(state).flash_message,
                "failed to run editor: "@ + e@,
            ),
            EditorOutcome::EditorExited => r is None && shows(
                final(state).flash_message,
                "editor exited with error"@,
            ),
            EditorOutcome::ReadFailed(e) => r is None && shows(
                final(state).flash_message,
                "failed to read message: "@ + e@,
            ),
            EditorOutcome::Written(raw) => if cleaned_message(raw@).len() == 0 {
                r is None && shows(final(state).flash_message, "commit aborted: empty message"@)
            } else {
                r matches Some(m) && m@ == cleaned_message(raw@) && final(state).flash_message
                    == old(state).flash_message
            },
        },
{
    let failure = match outcome {
        EditorOutcome::TempFileFailed(e) => str_then("failed to create temp file: ", &chars_of(e.as_str())),
        EditorOutcome::EditorFailed(e) => str_then("failed to run editor: ", &chars_of(e.as_str())),
        EditorOutcome::EditorExited => string_of(&chars_of("editor exited with error")),
        EditorOutcome::ReadFailed(e) => str_then("failed to read message: ", &chars_of(e.as_str())),
        EditorOutcome::Written(raw) => {
            let message = clean_commit_message(raw.as_str());
            if chars_of(message.as_str()).len() > 0 {
                return Some(message);
            }
            string_of(&chars_of("commit aborted: empty message"))
        },
    };
    state.flash_message = flash(failure);
    None
}

/// The word for a commit or an amend, as the messages say it.
pub open spec fn commit_word(amend: bool) -> Seq<char> {
    if amend {
        "amended"@
    } else {
        "committed"@
    }
}

/// What is shown once git tried to commit: on success the view stays open
/// (read again) while there are more unstaged changes, else it closes.
pub fn report_commit(
    state: &mut State,
    amend: bool,
    result: Result<(), String>,
    status: Option<WorktreeStatus>,
)
    requires
        old(state).commit_view is Some,
    ensures
        match result {
            Err(e) => *final(state) == (State {
                flash_message: final(state).flash_message,
                ..*old(state)
            }) && shows(final(state).flash_message, "commit failed: "@ + e@),
            Ok(_) => match status {
                Some(st) if st.unstaged_files@.len() > 0 => {
                    &&& refreshed(
                        *old(state),
                        State { flash_message: old(state).flash_message, ..*final(state) },
                        status,
                    )
                    &&& shows(
                        final(state).flash_message,
                        commit_word(amend) + " successfully - more changes available"@,
                    )
                },
                _ => {
                    &&& *final(state) == (State {
                        commit_view: None,
                        flash_message: final(state).flash_message,
                        ..*old(state)
                    })
                    &&& shows(final(state).flash_message, commit_word(amend) + " successfully"@)
                },
            },
        },
{
    match result {
        Err(e) => {
            state.flash_message = flash(str_then("commit failed: ", &chars_of(e.as_str())));
        },
        Ok(_) => {
            let word = if amend {
                chars_of("amended")
            } else {
                chars_of("committed")
            };
            let more = match &status {
                Some(st) => st.unstaged_files.len() > 0,
                None => false,
            };
            if more {
                let ghost before = *state;
                refresh_commit_view(state, status);
                proof {
                    assert(refreshed(before, State { flash_message: before.flash_message, ..*state }, status));
                }
                state.flash_message = flash(crate::text::then_str(&word, " successfully - more changes available"));
            } else {
                state.commit_view = None;
                state.flash_message = flash(crate::text::then_str(&word, " successfully"));
            }
        },
    }
}


// ---------------------------------------------------------------------------
// Laws
// ---------------------------------------------------------------------------

/// After the worktree is read again, each file list's selection is within
/// the list (or at its start when it is empty).
pub proof fn law_refresh_keeps_selection_in_range(s: State, t: State, st: WorktreeStatus)
    requires
        refreshed(s, t, Some(st)),
        t.commit_view is Some,
    ensures
        ({
            let cv = t.commit_view->0;
            &&& cv.unstaged_files == st.unstaged_files
            &&& cv.staged_files == st.staged_files
            &&& cv.unstaged_files@.len() > 0 ==> cv.unstaged_selected < cv.unstaged_files@.len()
            &&& cv.unstaged_files@.len() == 0 ==> cv.unstaged_selected == 0
            &&& cv.staged_files@.len() > 0 ==> cv.staged_selected < cv.staged_files@.len()
            &&& cv.staged_files@.len() == 0 ==> cv.staged_selected == 0
        }),
{
}

/// Moving a file list's selection scrolls the list so that the selected
/// file is among the rows it shows.
pub proof fn law_selected_file_visible(cv: CommitViewState, cv2: CommitViewState, sel: usize)
    requires
        file_selected(cv, cv2, sel),
    ensures
        match cv.active_panel {
            CommitViewPanel::UnstagedFiles => cv2.unstaged_scroll <= sel < cv2.unstaged_scroll
                + FILE_LIST_VISIBLE_LINES,
            CommitViewPanel::StagedFiles => cv2.staged_scroll <= sel < cv2.staged_scroll
                + FILE_LIST_VISIBLE_LINES,
        },
{
}

proof fn lemma_hunk_lines_height_monotone(hs: Seq<Hunk>, j: int, k: int)
    requires
        0 <= j <= k,
    ensures
        hunk_lines_height(hs, j) <= hunk_lines_height(hs, k),
    decreases k - j,
{
    if j < k {
        lemma_hunk_lines_height_monotone(hs, j, k - 1);
        lemma_hunk_lines_height_nonneg(hs, k - 1);
    }
}

/// The row where the `k`-th hunk starts in the diff, counting a blank row
/// between hunks.
pub open spec fn diff_row_of_hunk(hs: Seq<Hunk>, k: int) -> int {
    if k <= 0 {
        0
    } else {
        hunk_lines_height(hs, k) + 1
    }
}

/// The diff scrolls far enough to bring any of its hunks to the top (so
/// each can be staged), and to show its end.
pub proof fn law_diff_scroll_reaches_every_hunk(cv: CommitViewState, viewport_height: usize, k: int)
    requires
        viewed_hunks(cv) is Some,
        0 <= k < viewed_hunks(cv)->0.len(),
        hunk_lines_height(viewed_hunks(cv)->0, viewed_hunks(cv)->0.len() as int) <= usize::MAX,
    ensures
        diff_row_of_hunk(viewed_hunks(cv)->0, k) <= max_diff_scroll(cv, viewport_height),
        hunk_lines_height(viewed_hunks(cv)->0, viewed_hunks(cv)->0.len() as int) <= max_diff_scroll(
            cv,
            viewport_height,
        ) + viewport_height,
{
    let hs = viewed_hunks(cv)->0;
    let n = hs.len() as int;
    lemma_hunk_lines_height_nonneg(hs, n);
    lemma_hunk_lines_height_monotone(hs, n - 1, n);
    if n > 1 {
        lemma_hunk_lines_height_nonneg(hs, n - 1);
        assert(hunk_lines_height(hs, n) == hunk_lines_height(hs, n - 1) + 1 + hs[n - 1].lines@.len());
    }
    if 0 < k {
        lemma_hunk_lines_height_monotone(hs, k, n - 1);
    }
}

} // verus!
