use gg::action::{Action, Effect};
use gg::layout::{details_content_height, details_lines, details_match_lines, Color};
use gg::details_panel::panel_rows_exec;
use gg::staging_panels::{diff_panel, file_list};
use gg::repo::{
    BranchName, Commit, CommitDetails, DiffLine, FileChange, FileStatus, Head, Hunk, Repo, WorktreeFile,
    WorktreeStatus,
};
use gg::search::{find_next_match_in_details, find_previous_match_in_details};
use gg::sha::Sha;
use gg::staging::{compute_max_diff_scroll, diff_viewport_height, open_commit_view, refresh_commit_view};
use gg::state::{CommitViewPanel, State};

fn hunk(n: usize, tag: &str) -> Hunk {
    Hunk {
        lines: (0..n)
            .map(|i| DiffLine { origin: '+', content: format!("{} {}", tag, i), new_line_no: Some(i as u32 + 1) })
            .collect(),
    }
}

fn wfile(path: &str, unstaged: Vec<Hunk>, staged: Vec<Hunk>) -> WorktreeFile {
    WorktreeFile {
        path: path.to_string(),
        status: FileStatus::Modified,
        unstaged_hunks: unstaged,
        staged_hunks: staged,
        additions: 1,
        deletions: 0,
    }
}

fn state() -> State {
    let s = Sha { bytes: [1u8; 20] };
    let repo = Repo::new(
        "/r",
        "r".to_string(),
        vec![Commit { sha: s, parent_shas: vec![], message: "m".to_string(), author: "a".to_string(), timestamp: 0 }],
        vec![(BranchName("main".to_string()), s)],
        Head::Attached { branch_name: BranchName("main".to_string()) },
        None,
        false,
    );
    State::new(&repo)
}

fn status() -> WorktreeStatus {
    WorktreeStatus {
        unstaged_files: vec![
            wfile("a.rs", vec![hunk(10, "a"), hunk(30, "b")], vec![]),
            wfile("b.rs", vec![hunk(2, "c")], vec![]),
        ],
        staged_files: vec![],
    }
}

#[test]
fn nothing_to_stage_is_reported() {
    let mut s = state();
    open_commit_view(&mut s, false, None);
    assert!(s.commit_view.is_none());
    assert_eq!(s.flash_message.as_ref().unwrap().message, "no changes to stage");
}

#[test]
fn staging_view_opens_on_first_unstaged_file() {
    let mut s = state();
    open_commit_view(&mut s, true, Some(status()));
    let cv = s.commit_view.as_ref().unwrap();
    assert_eq!(cv.active_panel, CommitViewPanel::UnstagedFiles);
    assert_eq!(cv.viewing_file, Some("a.rs".to_string()));
    assert_eq!(cv.unstaged_selected, 0);
    assert_eq!(cv.diff_scroll, 0);
}

#[test]
fn diff_scroll_reaches_last_hunk_and_end() {
    let mut s = state();
    open_commit_view(&mut s, true, Some(status()));
    let cv = s.commit_view.as_ref().unwrap();
    // 10 lines, a blank, 30 lines: 41 in all; the last hunk starts at 11.
    assert_eq!(compute_max_diff_scroll(cv, 20), 21);
    assert_eq!(compute_max_diff_scroll(cv, 100), 11);
    assert_eq!(diff_viewport_height(40), 22);
}

#[test]
fn staging_keys() {
    let mut s = state();
    open_commit_view(&mut s, true, Some(status()));
    for _ in 0..100 {
        Action::CharJ.execute_commit_view_mode(&mut s, 40);
    }
    // viewport 22 rows: the end of 41 rows is at 19, the last hunk at 11.
    assert_eq!(s.commit_view.as_ref().unwrap().diff_scroll, 19);
    Action::CharG.execute_commit_view_mode(&mut s, 40);
    assert_eq!(s.commit_view.as_ref().unwrap().diff_scroll, 0);
    match Action::Char('s').execute_commit_view_mode(&mut s, 40) {
        Effect::StageHunk(p, h) => {
            assert_eq!(p, "a.rs");
            assert_eq!(h.lines.len(), 10);
        }
        _ => panic!("expected a hunk to stage"),
    }
    match Action::ShiftS.execute_commit_view_mode(&mut s, 40) {
        Effect::StageFile(p) => assert_eq!(p, "a.rs"),
        _ => panic!("expected a file to stage"),
    }
    assert!(matches!(Action::CharC.execute_commit_view_mode(&mut s, 40), Effect::Nothing));
    assert_eq!(s.flash_message.as_ref().unwrap().message, "nothing staged to commit");
    Action::ShiftJ.execute_commit_view_mode(&mut s, 40);
    let cv = s.commit_view.as_ref().unwrap();
    assert_eq!(cv.unstaged_selected, 1);
    assert_eq!(cv.viewing_file, Some("b.rs".to_string()));
    Action::Esc.execute_commit_view_mode(&mut s, 40);
    assert!(s.commit_view.is_none());
}

#[test]
fn refresh_keeps_selection_in_range() {
    let mut s = state();
    open_commit_view(&mut s, true, Some(status()));
    Action::ShiftJ.execute_commit_view_mode(&mut s, 40);
    assert_eq!(s.commit_view.as_ref().unwrap().unstaged_selected, 1);
    let fewer = WorktreeStatus {
        unstaged_files: vec![wfile("a.rs", vec![hunk(3, "a")], vec![])],
        staged_files: vec![wfile("b.rs", vec![], vec![hunk(2, "c")])],
    };
    refresh_commit_view(&mut s, Some(fewer));
    let cv = s.commit_view.as_ref().unwrap();
    assert_eq!(cv.unstaged_selected, 0);
    assert_eq!(cv.staged_selected, 0);
    assert_eq!(cv.viewing_file, Some("a.rs".to_string()));
    let none = WorktreeStatus { unstaged_files: vec![], staged_files: vec![] };
    refresh_commit_view(&mut s, Some(none));
    assert!(s.commit_view.is_none());
    assert_eq!(s.flash_message.as_ref().unwrap().message, "all changes staged/unstaged");
}

fn details_state() -> State {
    let mut s = state();
    s.commit_details = Some(CommitDetails {
        sha: Sha { bytes: [9u8; 20] },
        author_name: "Ann".to_string(),
        author_email: "ann@example.com".to_string(),
        timestamp: 1_700_000_000,
        message: "Tune config\n\nconfig and more config".to_string(),
        files: vec![FileChange {
            path: "config.toml".to_string(),
            status: 'M',
            additions: 1,
            deletions: 0,
            hunks: vec![hunk(3, "config")],
        }],
    });
    s.details_search_term = "config".to_string();
    s
}

#[test]
fn n_in_details_lands_on_match_rows() {
    let mut s = details_state();
    let rows = details_match_lines(s.commit_details.as_ref().unwrap(), None, "config", 118);
    assert!(rows.len() >= 4);
    // The summary line, the first row, already holds a match: `n` from the
    // top goes to the next one after it.
    assert_eq!(rows[0], 0);
    find_next_match_in_details(&mut s, 30, 120);
    assert_eq!(s.details_selected_match_index, Some(1));
    assert_eq!(s.details_selected_match_line, Some(rows[1]));
    find_next_match_in_details(&mut s, 30, 120);
    assert_eq!(s.details_selected_match_index, Some(2));
    assert_eq!(s.details_selected_match_line, Some(rows[2]));
    find_previous_match_in_details(&mut s, 30, 120);
    assert_eq!(s.details_selected_match_index, Some(1));
    find_previous_match_in_details(&mut s, 30, 120);
    assert_eq!(s.details_selected_match_index, Some(0));
    find_previous_match_in_details(&mut s, 30, 120);
    assert_eq!(s.details_selected_match_index, Some(rows.len() - 1));
    assert_eq!(s.details_selected_match_line, Some(rows[rows.len() - 1]));
}

#[test]
fn details_height_counts_drawn_rows() {
    let s = details_state();
    let d = s.commit_details.as_ref().unwrap();
    let h = details_content_height(d, None, "", 118);
    let (rows, _) = details_lines(d, None, "", 118);
    assert_eq!(h, rows.len());
    assert!(h > 8);
}

fn row_text(row: &[gg::layout::Span]) -> String {
    row.iter().map(|s| s.text.as_str()).collect()
}

#[test]
fn diff_panel_labels_first_line_of_each_hunk() {
    let mut s = state();
    open_commit_view(&mut s, true, Some(status()));
    let cv = s.commit_view.as_ref().unwrap();
    let rows = diff_panel(cv, 80, 10);
    assert_eq!(rows.len(), 10);
    assert_eq!(rows[0][0].text, "+   1 ");
    assert_eq!(rows[0].last().unwrap().text, "(d)iscard");
    assert!(rows[0].last().unwrap().style.underlined);
    assert_eq!(row_text(&rows[0]).chars().count(), 79);
    assert!(row_text(&rows[0]).contains("(s)tage"));
    assert!(row_text(&rows[0]).contains("a 0"));
    assert_eq!(rows[1][0].text, "+   2 ");
    assert!(!row_text(&rows[1]).contains("(s)tage"));
}

#[test]
fn diff_panel_keeps_a_sticky_header() {
    let mut s = state();
    open_commit_view(&mut s, true, Some(status()));
    s.commit_view.as_mut().unwrap().diff_scroll = 5;
    let rows = diff_panel(s.commit_view.as_ref().unwrap(), 80, 10);
    assert_eq!(rows.len(), 10);
    assert_eq!(row_text(&rows[0]), format!("{}(s)tage  (d)iscard", " ".repeat(62)));
    assert_eq!(rows[1][0].text, "+   7 ");
    s.commit_view.as_mut().unwrap().diff_scroll = 11;
    let rows = diff_panel(s.commit_view.as_ref().unwrap(), 80, 10);
    assert_eq!(rows[0][0].text, "+   1 ");
    assert!(row_text(&rows[0]).contains("b 0"));
    assert!(rows[0].last().unwrap().style.underlined);
}

#[test]
fn diff_panel_notes_when_nothing_to_show() {
    let mut s = state();
    open_commit_view(&mut s, true, Some(status()));
    s.commit_view.as_mut().unwrap().viewing_file = None;
    let rows = diff_panel(s.commit_view.as_ref().unwrap(), 80, 10);
    assert_eq!(rows.len(), 1);
    assert_eq!(row_text(&rows[0]), "Select a file from the lists below to view its diff");
    s.commit_view.as_mut().unwrap().viewing_file = Some("b.rs".to_string());
    s.commit_view.as_mut().unwrap().active_panel = CommitViewPanel::StagedFiles;
    let rows = diff_panel(s.commit_view.as_ref().unwrap(), 80, 10);
    // b.rs is only among the unstaged files: its unstaged hunk is shown.
    assert_eq!(rows.len(), 2);
    assert!(row_text(&rows[0]).contains("(s)tage"));
}

#[test]
fn file_list_rows_show_status_and_counts() {
    let files = vec![
        wfile("a.rs", vec![hunk(1, "a")], vec![]),
        WorktreeFile { status: FileStatus::Added, ..wfile("n.rs", vec![], vec![]) },
    ];
    let rows = file_list(&files, 1, 0, true, 6);
    assert_eq!(rows.len(), 2);
    assert_eq!(rows[0].0[0].text, "a.rs");
    assert_eq!(rows[0].0[0].style.fg, Some(Color::Yellow));
    assert_eq!(rows[0].0[0].style.bg, None);
    assert_eq!(rows[1].0[0].style.fg, Some(Color::Green));
    assert_eq!(rows[1].0[0].style.bg, Some(Color::DarkGray));
    assert_eq!(row_text(&rows[0].1), "+1 -0");
    assert_eq!(file_list(&files, 0, 1, false, 6).len(), 1);
    assert_eq!(file_list(&files, 0, 0, false, 1).len(), 1);
}

#[test]
fn details_panel_shows_window_with_sticky_header() {
    let s = details_state();
    let d = s.commit_details.as_ref().unwrap();
    let (rows, sections) = details_lines(d, None, "config", 118);
    let texts: Vec<String> = rows.iter().map(|r| row_text(r)).collect();
    assert_eq!(sections.len(), 1);
    let header = sections[0].header_line_idx;
    // Above the file's header: a plain window of the rows.
    let shown = panel_rows_exec(rows, &sections, 0, 4, None, "config");
    assert_eq!(shown.len(), 4);
    let shown_texts: Vec<String> = shown.iter().map(|r| row_text(r)).collect();
    assert_eq!(shown_texts, texts[0..4].to_vec());
    // Past the header: the file's name stays on top.
    let (rows, sections) = details_lines(d, None, "config", 118);
    let shown = panel_rows_exec(rows, &sections, header + 1, 3, None, "config");
    assert_eq!(shown.len(), 3);
    assert_eq!(row_text(&shown[0]), sections[0].header_text);
    assert_eq!(shown[0][0].style.bg, Some(Color::DarkGray));
    assert_eq!(row_text(&shown[1]), texts[header + 2]);
}

#[test]
fn selected_match_is_painted_teal() {
    let s = details_state();
    let d = s.commit_details.as_ref().unwrap();
    let (rows, sections) = details_lines(d, None, "config", 118);
    let plain = row_text(&rows[0]);
    let shown = panel_rows_exec(rows, &sections, 0, 2, Some(0), "config");
    assert_eq!(row_text(&shown[0]), plain);
    assert!(shown[0].iter().any(|sp| sp.text.to_lowercase() == "config" && sp.style.bg == Some(Color::Cyan)));
    assert!(!shown[1].iter().any(|sp| sp.style.bg == Some(Color::Cyan)));
}

#[test]
fn stage_acts_on_the_hunk_at_the_scroll_position() {
    let mut s = state();
    let st = WorktreeStatus {
        unstaged_files: vec![wfile("t.rs", vec![hunk(2, "x"), hunk(2, "y"), hunk(2, "z")], vec![])],
        staged_files: vec![],
    };
    open_commit_view(&mut s, true, Some(st));
    // Rows: x at 0-1, blank 2, y at 3-4, blank 5, z at 6-7.
    s.commit_view.as_mut().unwrap().diff_scroll = 6;
    match Action::Char('s').execute_commit_view_mode(&mut s, 40) {
        Effect::StageHunk(p, h) => {
            assert_eq!(p, "t.rs");
            assert_eq!(h.lines[0].content, "z 0");
        }
        _ => panic!("expected a hunk to stage"),
    }
    s.commit_view.as_mut().unwrap().diff_scroll = 5;
    match Action::Char('s').execute_commit_view_mode(&mut s, 40) {
        Effect::StageHunk(_, h) => assert_eq!(h.lines[0].content, "y 0"),
        _ => panic!("expected a hunk to stage"),
    }
    s.commit_view.as_mut().unwrap().diff_scroll = 3;
    match Action::Char('s').execute_commit_view_mode(&mut s, 40) {
        Effect::StageHunk(_, h) => assert_eq!(h.lines[0].content, "y 0"),
        _ => panic!("expected a hunk to stage"),
    }
}
