use gg::action::{show_details, wants_more_commits, Action, Context, Effect};
use gg::prompt::report_branch_created;
use gg::repo::{BranchName, Commit, Head, Repo};
use gg::search::{commit_dates, update_selection_for_live_search};
use gg::search_bar::{commit_counter, commit_match_indices, count_text, details_counter, history_hint};
use gg::sha::Sha;
use gg::staging::{clean_commit_message, message_from_editor, EditorOutcome};
use gg::state::State;

fn sha(n: u8) -> Sha {
    let mut bytes = [0u8; 20];
    bytes[0] = n;
    Sha { bytes }
}

fn commit(n: u8, parent: Option<u8>, message: &str) -> Commit {
    Commit {
        sha: sha(n),
        parent_shas: parent.map(|p| vec![sha(p)]).unwrap_or_default(),
        message: message.to_string(),
        author: "Grace Hopper".to_string(),
        timestamp: 1_600_000_000 + n as i64,
    }
}

/// Five commits, newest first; `main` at the second one, which is HEAD.
fn repo() -> Repo {
    let commits = vec![
        commit(5, Some(4), "fix typo"),
        commit(4, Some(3), "add parser"),
        commit(3, Some(2), "fix parser bug"),
        commit(2, Some(1), "write docs"),
        commit(1, None, "initial"),
    ];
    let branches = vec![(BranchName("main".to_string()), sha(4))];
    Repo::new(
        "/tmp/r",
        "r".to_string(),
        commits,
        branches,
        Head::Attached { branch_name: BranchName("main".to_string()) },
        Some(2000),
        false,
    )
}

fn ctx(local: &[&str]) -> Context {
    Context {
        terminal_width: 120,
        terminal_height: 40,
        local_branches: local.iter().map(|s| s.to_string()).collect(),
        has_remote: true,
    }
}

fn press(a: Action, state: &mut State, repo: &Repo, local: &[&str]) -> Effect {
    let dates = commit_dates(&repo.commits);
    a.execute(state, repo, &ctx(local), &dates)
}

fn type_text(text: &str, state: &mut State, repo: &Repo) {
    for c in text.chars() {
        press(Action::from_char(c, false), state, repo, &[]);
    }
}

#[test]
fn start_on_head_commit() {
    let r = repo();
    let s = State::new(&r);
    assert_eq!(s.index_of_selected_row, 1);
    assert_eq!(s.index_of_topmost_visible_row, 0);
    assert!(!s.is_typing_search_term);
}

#[test]
fn keys_map_to_actions() {
    assert_eq!(Action::from_char('j', false), Action::CharJ);
    assert_eq!(Action::from_char('c', true), Action::CtrlC);
    assert_eq!(Action::from_char('G', false), Action::ShiftG);
    assert_eq!(Action::from_char('7', false), Action::Digit('7'));
    assert_eq!(Action::from_char('x', false), Action::Char('x'));
    assert_eq!(Action::CharJ.typed_char(), Some('j'));
    assert_eq!(Action::Esc.typed_char(), None);
}

#[test]
fn j_and_k_move_and_stop_at_the_ends() {
    let r = repo();
    let mut s = State::new(&r);
    press(Action::CharJ, &mut s, &r, &[]);
    assert_eq!(s.index_of_selected_row, 2);
    press(Action::CharK, &mut s, &r, &[]);
    press(Action::CharK, &mut s, &r, &[]);
    press(Action::CharK, &mut s, &r, &[]);
    assert_eq!(s.index_of_selected_row, 0);
    press(Action::Digit('9'), &mut s, &r, &[]);
    press(Action::CharJ, &mut s, &r, &[]);
    assert_eq!(s.index_of_selected_row, 4);
    assert_eq!(s.jump_distance_string, "");
}

#[test]
fn counts_jump_and_g_goes_to_ends() {
    let r = repo();
    let mut s = State::new(&r);
    press(Action::Digit('0'), &mut s, &r, &[]);
    assert_eq!(s.jump_distance_string, "");
    press(Action::Digit('2'), &mut s, &r, &[]);
    press(Action::CharJ, &mut s, &r, &[]);
    assert_eq!(s.index_of_selected_row, 3);
    press(Action::CharG, &mut s, &r, &[]);
    assert_eq!(s.index_of_selected_row, 0);
    press(Action::ShiftG, &mut s, &r, &[]);
    assert_eq!(s.index_of_selected_row, 4);
    press(Action::Digit('2'), &mut s, &r, &[]);
    press(Action::ShiftG, &mut s, &r, &[]);
    assert_eq!(s.index_of_selected_row, 1);
    press(Action::Digit('3'), &mut s, &r, &[]);
    press(Action::Backspace, &mut s, &r, &[]);
    assert_eq!(s.jump_distance_string, "");
}

#[test]
fn escape_quits_when_nothing_is_open() {
    let r = repo();
    let mut s = State::new(&r);
    assert!(matches!(press(Action::Esc, &mut s, &r, &[]), Effect::Quit));
    press(Action::Digit('4'), &mut s, &r, &[]);
    assert!(matches!(press(Action::CharQ, &mut s, &r, &[]), Effect::Nothing));
    assert_eq!(s.jump_distance_string, "");
    assert!(matches!(press(Action::CharQ, &mut s, &r, &[]), Effect::Quit));
}

#[test]
fn search_selects_first_match_and_n_cycles() {
    let r = repo();
    let dates = commit_dates(&r.commits);
    let mut s = State::new(&r);
    press(Action::CharSlash, &mut s, &r, &[]);
    assert!(s.is_typing_search_term);
    type_text("fix", &mut s, &r);
    assert_eq!(s.search_term, "fix");
    update_selection_for_live_search(&mut s, &r, &dates, 40);
    assert_eq!(s.index_of_selected_row, 0);
    press(Action::Enter, &mut s, &r, &[]);
    assert!(!s.is_typing_search_term);
    assert_eq!(s.search_term_history, vec!["fix".to_string()]);
    press(Action::CharN, &mut s, &r, &[]);
    assert_eq!(s.index_of_selected_row, 2);
    press(Action::CharN, &mut s, &r, &[]);
    assert_eq!(s.index_of_selected_row, 0);
    press(Action::ShiftN, &mut s, &r, &[]);
    assert_eq!(s.index_of_selected_row, 2);
}

#[test]
fn cancelled_search_returns_to_start() {
    let r = repo();
    let dates = commit_dates(&r.commits);
    let mut s = State::new(&r);
    press(Action::CharSlash, &mut s, &r, &[]);
    type_text("docs", &mut s, &r);
    update_selection_for_live_search(&mut s, &r, &dates, 40);
    assert_eq!(s.index_of_selected_row, 3);
    press(Action::Esc, &mut s, &r, &[]);
    assert!(!s.is_typing_search_term);
    assert_eq!(s.index_of_selected_row, 1);
    assert_eq!(s.search_term, "");
}

#[test]
fn cancel_after_long_search_session_returns_to_start() {
    let r = repo();
    let dates = commit_dates(&r.commits);
    let mut s = State::new(&r);
    press(Action::CharSlash, &mut s, &r, &[]);
    type_text("parser", &mut s, &r);
    press(Action::Enter, &mut s, &r, &[]);
    let (row, top) = (s.index_of_selected_row, s.index_of_topmost_visible_row);
    press(Action::CharSlash, &mut s, &r, &[]);
    type_text("typo", &mut s, &r);
    update_selection_for_live_search(&mut s, &r, &dates, 40);
    assert_eq!(s.index_of_selected_row, 0);
    press(Action::Backspace, &mut s, &r, &[]);
    press(Action::Up, &mut s, &r, &[]);
    assert_eq!(s.search_term, "parser");
    update_selection_for_live_search(&mut s, &r, &dates, 40);
    press(Action::Down, &mut s, &r, &[]);
    type_text("docs", &mut s, &r);
    update_selection_for_live_search(&mut s, &r, &dates, 40);
    assert_eq!(s.index_of_selected_row, 3);
    press(Action::Esc, &mut s, &r, &[]);
    assert!(!s.is_typing_search_term);
    assert_eq!(s.index_of_selected_row, row);
    assert_eq!(s.index_of_topmost_visible_row, top);
    assert_eq!(s.search_term, "");
    assert_eq!(s.index_of_search_term_history_being_viewed, None);
    assert_eq!(s.index_of_selected_row_when_search_began, None);
}

#[test]
fn count_then_g_goes_to_that_line() {
    let r = repo();
    let mut s = State::new(&r);
    press(Action::Digit('0'), &mut s, &r, &[]);
    assert_eq!(s.jump_distance_string, "");
    press(Action::Digit('1'), &mut s, &r, &[]);
    press(Action::Digit('2'), &mut s, &r, &[]);
    assert_eq!(s.jump_distance_string, "12");
    press(Action::ShiftG, &mut s, &r, &[]);
    assert_eq!(s.index_of_selected_row, 4);
    assert_eq!(s.jump_distance_string, "");
    press(Action::Digit('0'), &mut s, &r, &[]);
    press(Action::Digit('2'), &mut s, &r, &[]);
    press(Action::ShiftG, &mut s, &r, &[]);
    assert_eq!(s.index_of_selected_row, 1);
    press(Action::ShiftG, &mut s, &r, &[]);
    assert_eq!(s.index_of_selected_row, 4);
}

#[test]
fn search_without_match_is_dropped() {
    let r = repo();
    let mut s = State::new(&r);
    press(Action::CharSlash, &mut s, &r, &[]);
    type_text("nothing-like-this", &mut s, &r);
    press(Action::Enter, &mut s, &r, &[]);
    assert_eq!(s.search_term, "");
    assert!(s.search_term_history.is_empty());
}

#[test]
fn search_history_has_no_repeats() {
    let r = repo();
    let mut s = State::new(&r);
    for _ in 0..2 {
        press(Action::CharSlash, &mut s, &r, &[]);
        type_text("parser", &mut s, &r);
        press(Action::Enter, &mut s, &r, &[]);
    }
    assert_eq!(s.search_term_history, vec!["parser".to_string()]);
    press(Action::CharSlash, &mut s, &r, &[]);
    press(Action::Up, &mut s, &r, &[]);
    assert_eq!(s.search_term, "parser");
}

#[test]
fn opening_keys_ask_for_outside_work() {
    let r = repo();
    let mut s = State::new(&r);
    match press(Action::CharL, &mut s, &r, &[]) {
        Effect::LoadDetails(x) => assert_eq!(x, sha(4)),
        _ => panic!("expected details to load"),
    }
    match press(Action::CharY, &mut s, &r, &[]) {
        Effect::CopySha(x) => assert_eq!(x, sha(4)),
        _ => panic!("expected a copy"),
    }
    match press(Action::CharC, &mut s, &r, &[]) {
        Effect::CheckoutSha(x) => assert_eq!(x, sha(4)),
        _ => panic!("expected a checkout"),
    }
    assert!(matches!(press(Action::Tab, &mut s, &r, &[]), Effect::OpenStaging));
    assert!(matches!(press(Action::ShiftS, &mut s, &r, &[]), Effect::Nothing));
}

#[test]
fn branch_prompt_creates_at_selected_commit() {
    let r = repo();
    let mut s = State::new(&r);
    press(Action::CharJ, &mut s, &r, &[]);
    press(Action::CharB, &mut s, &r, &[]);
    assert!(s.is_creating_branch);
    type_text("topic", &mut s, &r);
    press(Action::Backspace, &mut s, &r, &[]);
    assert_eq!(s.branch_name, "topi");
    match press(Action::Enter, &mut s, &r, &[]) {
        Effect::CreateBranch(name, at) => {
            assert_eq!(name, "topi");
            assert_eq!(at, sha(3));
        }
        _ => panic!("expected a branch"),
    }
    assert!(!s.is_creating_branch);
    report_branch_created(&mut s, "topi", Ok(()));
    assert_eq!(s.flash_message.as_ref().unwrap().message, "created topi");
}

#[test]
fn delete_prompt_needs_local_branches() {
    let r = repo();
    let mut s = State::new(&r);
    press(Action::CharD, &mut s, &r, &[]);
    assert!(!s.is_deleting_branch);
    assert_eq!(s.flash_message.as_ref().unwrap().message, "no local branches on this commit");
    press(Action::CharD, &mut s, &r, &["main"]);
    assert!(s.is_deleting_branch);
}

#[test]
fn details_open_and_close() {
    let r = repo();
    let mut s = State::new(&r);
    show_details(&mut s, None);
    assert!(s.commit_details.is_none());
    assert_eq!(s.details_scroll_offset, 0);
}

#[test]
fn more_commits_wanted_near_the_end() {
    let mut r = repo();
    let s = State::new(&r);
    assert!(!wants_more_commits(&s, &r));
    r.has_more_commits = true;
    assert!(wants_more_commits(&s, &r));
}

#[test]
fn editor_message_is_cleaned() {
    assert_eq!(clean_commit_message("# comment\nTitle\n\nBody\n# more\n"), "Title\n\nBody");
    assert_eq!(clean_commit_message("  \n# only\n"), "");
    let r = repo();
    let mut s = State::new(&r);
    assert_eq!(
        message_from_editor(&mut s, EditorOutcome::Written("Fix it\n# hint".to_string())),
        Some("Fix it".to_string())
    );
    assert!(s.flash_message.is_none());
    assert_eq!(message_from_editor(&mut s, EditorOutcome::Written("#x".to_string())), None);
    assert_eq!(s.flash_message.as_ref().unwrap().message, "commit aborted: empty message");
    assert_eq!(message_from_editor(&mut s, EditorOutcome::EditorExited), None);
    assert_eq!(s.flash_message.as_ref().unwrap().message, "editor exited with error");
}

#[test]
fn search_bar_counts_and_places_matches() {
    let r = repo();
    let dates = commit_dates(&r.commits);
    assert_eq!(commit_match_indices(&r, &dates, "fix"), vec![0, 2]);
    assert_eq!(commit_counter(&r, &dates, "fix", 2), "[ 2 / 2 ]");
    assert_eq!(commit_counter(&r, &dates, "fix", 1), "[ 2 matches ]");
    assert_eq!(commit_counter(&r, &dates, "zzz", 1), "[ no matches ]");
    assert_eq!(details_counter(7, Some(0)), "[ 1 / 7 ]");
    assert_eq!(details_counter(0, None), "[ no matches ]");
    assert_eq!(count_text(0, true), "no matches   ");
    assert_eq!(count_text(1, true), "1 commit   ");
    assert_eq!(count_text(1, false), "1 match   ");
    assert_eq!(count_text(12, true), "12 commits   ");
    assert_eq!(count_text(3, false), "3 matches   ");
}

#[test]
fn history_hint_points_where_history_goes() {
    assert_eq!(history_hint(0, None), "");
    assert_eq!(history_hint(2, None), "↑ history   ");
    assert_eq!(history_hint(3, Some(1)), "↑↓ history   ");
    assert_eq!(history_hint(3, Some(0)), "↓ history   ");
    assert_eq!(history_hint(1, Some(0)), "");
}

#[test]
fn keys_that_read_a_missing_commit_cannot_run() {
    let r = repo();
    let mut s = State::new(&r);
    assert!(Action::CharL.can_execute(&s, &r));
    assert!(Action::CharL.reads_selected_commit(&s));
    assert!(!Action::CharJ.reads_selected_commit(&s));
    s.index_of_selected_row = 9;
    assert!(!Action::CharL.can_execute(&s, &r));
    assert!(Action::CharJ.can_execute(&s, &r));
    s.is_typing_search_term = true;
    assert!(Action::CharL.can_execute(&s, &r));
    s.index_of_search_term_history_being_viewed = Some(3);
    assert!(!Action::Up.can_execute(&s, &r));
}
