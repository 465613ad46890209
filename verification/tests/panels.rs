use gg::details::count_file_tree_nodes;
use gg::layout::{details_content_height, details_lines, details_match_lines};
use gg::normal::compute_details_content_height;
use gg::repo::{BranchName, Commit, Head, Repo};
use gg::search::compute_details_match_lines;
use gg::search_bar::{revert_preview, typing_info};
use gg::state::State;
use gg::file_tree::build_file_tree;
use gg::highlight::Highlighter;
use gg::layout::{fg_style, highlight_matches, plain_style, search_match_style, Color};
use gg::repo::{CommitDetails, DiffLine, FileChange, Hunk};
use gg::sha::Sha;
use gg::viewport::{center_top, git_graph_height, resized_top_exec, visible_top_exec};

fn line(origin: char, content: &str) -> DiffLine {
    DiffLine { origin, content: content.to_string(), new_line_no: None }
}

fn file(path: &str, status: char, hunks: Vec<Hunk>) -> FileChange {
    FileChange { path: path.to_string(), status, additions: 2, deletions: 1, hunks }
}

fn details() -> CommitDetails {
    CommitDetails {
        sha: Sha { bytes: [7u8; 20] },
        author_name: "Ann".to_string(),
        author_email: "ann@example.com".to_string(),
        timestamp: 1_700_000_000,
        message: "Parse config\n\nThe config parser now reads comments.".to_string(),
        files: vec![
            file(
                "src/config/parse.rs",
                'M',
                vec![
                    Hunk { lines: vec![line(' ', "fn parse() {"), line('+', "    skip_comments();")] },
                    Hunk { lines: vec![line('-', "old"), line('+', "new config")] },
                ],
            ),
            file("src/config/mod.rs", 'A', vec![]),
            file("README.md", 'M', vec![Hunk { lines: vec![line('+', "Config docs")] }]),
        ],
    }
}

#[test]
fn file_tree_nodes_count_files_and_directories() {
    let d = details();
    // files: 3, directories: src, src/config
    assert_eq!(count_file_tree_nodes(&d.files), 5);
    assert_eq!(count_file_tree_nodes(&Vec::new()), 0);
}

fn repo_state() -> State {
    State::new(&sample_repo())
}

fn sample_repo() -> Repo {
    let s = Sha { bytes: [1u8; 20] };
    Repo::new(
        "/r",
        "r".to_string(),
        vec![Commit { sha: s, parent_shas: vec![], message: "m".to_string(), author: "a".to_string(), timestamp: 0 }],
        vec![(BranchName("main".to_string()), s)],
        Head::Attached { branch_name: BranchName("main".to_string()) },
        None,
        false,
    )
}

#[test]
fn details_content_height_adds_up_sections() {
    let mut s = repo_state();
    assert_eq!(compute_details_content_height(&s, 120), 0);
    let d = details();
    s.commit_details = Some(details());
    // Every drawn row counts, the blank row under each file among them.
    let (rows, _) = details_lines(&d, None, "", 118);
    assert_eq!(compute_details_content_height(&s, 120), rows.len());
    assert_eq!(compute_details_content_height(&s, 120), details_content_height(&d, None, "", 118));
}

#[test]
fn details_match_lines_are_in_order() {
    let mut s = repo_state();
    s.details_search_term = "config".to_string();
    assert!(compute_details_match_lines(&s, 120).is_empty());
    s.commit_details = Some(details());
    let lines = compute_details_match_lines(&s, 120);
    assert_eq!(lines, details_match_lines(&details(), None, "config", 118));
    // The subject is drawn on the first row.
    assert_eq!(lines[0], 0);
    assert!(lines.windows(2).all(|w| w[0] < w[1]));
    s.details_search_term = String::new();
    assert!(compute_details_match_lines(&s, 120).is_empty());
    s.details_search_term = "zebra".to_string();
    assert!(compute_details_match_lines(&s, 120).is_empty());
}

#[test]
fn details_match_on_subject_is_row_zero() {
    let mut s = repo_state();
    s.commit_details = Some(CommitDetails {
        sha: Sha { bytes: [3u8; 20] },
        author_name: "Ann".to_string(),
        author_email: "ann@example.com".to_string(),
        timestamp: 1_700_000_000,
        message: "fix bug".to_string(),
        files: vec![],
    });
    s.details_search_term = "bug".to_string();
    assert_eq!(compute_details_match_lines(&s, 120), vec![0]);
}

#[test]
fn file_tree_puts_directories_first() {
    let d = details();
    let tree = build_file_tree(&d.files);
    assert_eq!(tree.len(), 2);
    assert_eq!(tree[0].name, "src");
    assert_eq!(tree[0].status, None);
    assert_eq!(tree[1].name, "README.md");
    assert_eq!(tree[1].status, Some('M'));
    let config = &tree[0].children[0];
    assert_eq!(config.name, "config");
    let names: Vec<&str> = config.children.iter().map(|n| n.name.as_str()).collect();
    assert_eq!(names, vec!["mod.rs", "parse.rs"]);
    assert_eq!(config.children[1].additions, 2);
}

#[test]
fn highlighted_text_keeps_its_characters() {
    let base = plain_style();
    let hi = search_match_style();
    let spans = highlight_matches("Fix the FIX fix", "fix", base, hi);
    let texts: Vec<&str> = spans.iter().map(|s| s.text.as_str()).collect();
    assert_eq!(texts, vec!["Fix", " the ", "FIX", " ", "fix"]);
    assert_eq!(spans[0].style, hi);
    assert_eq!(spans[1].style, base);
    let joined: String = spans.iter().map(|s| s.text.as_str()).collect();
    assert_eq!(joined, "Fix the FIX fix");
}

#[test]
fn mixed_case_queries_match_exactly() {
    let base = fg_style(Color::Gray);
    let hi = search_match_style();
    let spans = highlight_matches("Fix the FIX fix", "Fix", base, hi);
    let texts: Vec<&str> = spans.iter().map(|s| s.text.as_str()).collect();
    assert_eq!(texts, vec!["Fix", " the FIX fix"]);
    let none = highlight_matches("abc", "zz", base, hi);
    assert_eq!(none.len(), 1);
    assert_eq!(none[0].text, "abc");
    let empty = highlight_matches("abc", "", base, hi);
    assert_eq!(empty.len(), 1);
    assert_eq!(empty[0].style, base);
}

#[test]
fn viewport_keeps_selection_visible() {
    assert_eq!(git_graph_height(40), 37);
    assert_eq!(git_graph_height(1), 0);
    assert_eq!(center_top(50, 20), 40);
    assert_eq!(center_top(3, 20), 0);
    assert_eq!(visible_top_exec(5, 10, 20), 5);
    assert_eq!(visible_top_exec(35, 10, 20), 16);
    assert_eq!(visible_top_exec(15, 10, 20), 10);
    assert_eq!(resized_top_exec(5, 90, 20, 100), 5);
}

#[test]
fn extension_is_the_text_after_the_last_dot() {
    assert_eq!(Highlighter::extension_from_path("src/main.rs"), "rs");
    assert_eq!(Highlighter::extension_from_path("a/b.tar.gz"), "gz");
    assert_eq!(Highlighter::extension_from_path("Makefile"), "");
    assert_eq!(Highlighter::extension_from_path("build.d/LICENSE"), "");
    assert_eq!(Highlighter::extension_from_path("src/.config/app.toml"), "toml");
    assert_eq!(Highlighter::extension_from_path("notes."), "");
}

#[test]
fn highlighting_keeps_one_row_per_line() {
    let h = Highlighter::new();
    let hunks = vec![
        Hunk { lines: vec![line(' ', "fn main() {"), line('+', "    let x = 1;")] },
        Hunk { lines: vec![line('-', "}")] },
    ];
    let out = h.highlight_hunks(&hunks, "src/main.rs");
    assert_eq!(out.lines.len(), 3);
    let text: String = out.lines[1].iter().map(|(_, s)| s.as_str()).collect();
    assert_eq!(text.trim_end(), "    let x = 1;");
    let cache = h.highlight_commit(&details());
    assert_eq!(cache.files.len(), 3);
    // One highlighted row per diff line of each file.
    assert_eq!(cache.files[0].lines.len(), 4);
    assert_eq!(cache.files[1].lines.len(), 0);
    assert_eq!(cache.files[2].lines.len(), 1);
}

#[test]
fn revert_prompt_quotes_first_line() {
    assert_eq!(revert_preview("Fix the parser\n\nLonger text"), "Fix the parser");
    assert_eq!(revert_preview(""), "");
    let long = "a".repeat(45);
    assert_eq!(revert_preview(&long), format!("{}...", "a".repeat(40)));
    assert_eq!(revert_preview(&"b".repeat(40)), "b".repeat(40));
}

#[test]
fn typing_info_counts_or_hints() {
    let repo = sample_repo();
    let dates = vec!["2024-01-01".to_string()];
    let mut s = State::new(&repo);
    assert_eq!(typing_info(&s, &repo, &dates, 120), "");
    s.search_term_history = vec!["x".to_string()];
    assert_eq!(typing_info(&s, &repo, &dates, 120), "↑ history   ");
    s.search_term = "zzz".to_string();
    assert_eq!(typing_info(&s, &repo, &dates, 120), "no matches   ");
    s.commit_details = Some(CommitDetails {
        sha: Sha { bytes: [3u8; 20] },
        author_name: "Ann".to_string(),
        author_email: "ann@example.com".to_string(),
        timestamp: 1_700_000_000,
        message: "fix bug".to_string(),
        files: vec![],
    });
    assert_eq!(typing_info(&s, &repo, &dates, 120), "");
    s.details_search_term = "bug".to_string();
    assert_eq!(typing_info(&s, &repo, &dates, 120), "1 match   ");
}
