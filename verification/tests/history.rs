use gg::commit_graph::build;
use gg::hunk::{apply_hunk_to_content, hunk_from_lines, reverse_hunk, PatchLine};
use gg::repo::{
    commit_url_from_remote, remote_host_name_from_url, split_at_limit, BranchName, Commit,
    DiffLine, Head, Hunk, Repo,
};
use gg::sha::Sha;

fn sha(n: u8) -> Sha {
    let mut bytes = [0u8; 20];
    bytes[0] = n;
    bytes[19] = n;
    Sha { bytes }
}

fn commit(n: u8, parents: &[u8], message: &str) -> Commit {
    Commit {
        sha: sha(n),
        parent_shas: parents.iter().map(|p| sha(*p)).collect(),
        message: message.to_string(),
        author: "Ada Lovelace".to_string(),
        timestamp: 1_700_000_000,
    }
}

fn line(origin: char, content: &str) -> DiffLine {
    DiffLine { origin, content: content.to_string(), new_line_no: None }
}

#[test]
fn sha_hex_is_forty_lowercase_digits() {
    let mut bytes = [0u8; 20];
    bytes[0] = 0xab;
    bytes[1] = 0x05;
    bytes[19] = 0xff;
    let s = Sha { bytes };
    let hex: String = s.hex().into_iter().collect();
    assert_eq!(hex.len(), 40);
    assert!(hex.starts_with("ab05"));
    assert!(hex.ends_with("ff"));
    let short: String = s.short_hex().into_iter().collect();
    assert_eq!(short, "ab05000");
}

#[test]
fn graph_of_linear_history_is_one_lane() {
    let commits = vec![commit(3, &[2], "c"), commit(2, &[1], "b"), commit(1, &[], "a")];
    let rows = build(&commits);
    assert_eq!(rows.len(), 3);
    for row in &rows {
        assert_eq!(row, &vec![('●', Some(0))]);
    }
}

#[test]
fn graph_of_merge_forks_and_converges() {
    // M merges B into A; B's parent is A.
    let commits = vec![commit(3, &[1, 2], "merge"), commit(2, &[1], "side"), commit(1, &[], "root")];
    let rows = build(&commits);
    assert_eq!(rows[0], vec![('●', Some(0)), ('╮', Some(1))]);
    assert_eq!(rows[1], vec![('│', Some(0)), ('●', Some(1))]);
    assert_eq!(rows[2], vec![('●', Some(0)), ('╯', Some(1))]);
}

#[test]
fn graph_has_one_row_per_commit() {
    assert!(build(&Vec::new()).is_empty());
    let commits = vec![commit(4, &[2], "d"), commit(3, &[1], "c"), commit(2, &[1], "b"), commit(1, &[], "a")];
    let rows = build(&commits);
    assert_eq!(rows.len(), 4);
    for row in &rows {
        assert_eq!(row.iter().filter(|c| c.0 == '●').count(), 1);
    }
}

#[test]
fn hunk_replaces_the_matched_lines() {
    let hunk = Hunk { lines: vec![line(' ', "a"), line('-', "b"), line('+', "B"), line(' ', "c")] };
    assert_eq!(apply_hunk_to_content("a\nb\nc\n", &hunk), Ok("a\nB\nc\n".to_string()));
}

#[test]
fn reversed_hunk_undoes_the_hunk() {
    let hunk = Hunk { lines: vec![line(' ', "a"), line('-', "b"), line('+', "B"), line(' ', "c")] };
    let staged = apply_hunk_to_content("x\na\nb\nc\ny\n", &hunk).unwrap();
    assert_eq!(staged, "x\na\nB\nc\ny\n");
    let back = apply_hunk_to_content(&staged, &reverse_hunk(&hunk)).unwrap();
    assert_eq!(back, "x\na\nb\nc\ny\n");
}

#[test]
fn reverse_hunk_swaps_origins() {
    let hunk = Hunk { lines: vec![line('+', "new"), line('-', "old"), line(' ', "same")] };
    let r = reverse_hunk(&hunk);
    let origins: Vec<char> = r.lines.iter().map(|l| l.origin).collect();
    assert_eq!(origins, vec!['-', '+', ' ']);
    assert_eq!(r.lines[0].content, "new");
    let twice = reverse_hunk(&r);
    let origins2: Vec<char> = twice.lines.iter().map(|l| l.origin).collect();
    assert_eq!(origins2, vec!['+', '-', ' ']);
}

#[test]
fn hunk_into_empty_file() {
    let hunk = Hunk { lines: vec![line('+', "one"), line('+', "two")] };
    assert_eq!(apply_hunk_to_content("", &hunk), Ok("one\ntwo\n".to_string()));
}

#[test]
fn hunk_that_does_not_fit_is_refused() {
    let hunk = Hunk { lines: vec![line('-', "missing"), line('+', "x")] };
    assert_eq!(
        apply_hunk_to_content("present\n", &hunk),
        Err("could not find hunk location in file".to_string())
    );
}

#[test]
fn hunk_keeps_missing_trailing_newline_rule() {
    // Content without a trailing newline still gets one when the output is not empty.
    let hunk = Hunk { lines: vec![line('-', "a"), line('+', "b")] };
    assert_eq!(apply_hunk_to_content("a", &hunk), Ok("b\n".to_string()));
}

#[test]
fn commit_urls_for_each_forge() {
    let s = sha(0xab);
    let hex: String = s.hex().into_iter().collect();
    assert_eq!(
        commit_url_from_remote("git@github.com:user/repo.git", &s),
        Some(format!("https://github.com/user/repo/commit/{}", hex))
    );
    assert_eq!(
        commit_url_from_remote("https://gitlab.com/group/proj", &s),
        Some(format!("https://gitlab.com/group/proj/-/commit/{}", hex))
    );
    assert_eq!(
        commit_url_from_remote("https://bitbucket.org/team/repo.git", &s),
        Some(format!("https://bitbucket.org/team/repo/commits/{}", hex))
    );
    assert_eq!(commit_url_from_remote("ssh://host/repo", &s), None);
    assert_eq!(commit_url_from_remote("git@nocolon", &s), None);
}

#[test]
fn remote_host_names() {
    assert_eq!(remote_host_name_from_url("git@gitlab.example.com:a/b.git"), Some("gitlab".to_string()));
    assert_eq!(remote_host_name_from_url("https://bitbucket.org/a/b"), Some("bitbucket".to_string()));
    assert_eq!(remote_host_name_from_url("https://git.example.com/a/b"), Some("github".to_string()));
    assert_eq!(remote_host_name_from_url("file:///tmp/repo"), None);
}

#[test]
fn split_at_limit_keeps_the_first_n() {
    let commits = vec![commit(3, &[2], "c"), commit(2, &[1], "b"), commit(1, &[], "a")];
    let (kept, more) = split_at_limit(commits, Some(2));
    assert!(more);
    assert_eq!(kept.len(), 2);
    assert_eq!(kept[0].message, "c");
    let commits = vec![commit(2, &[1], "b"), commit(1, &[], "a")];
    let (kept, more) = split_at_limit(commits, Some(2));
    assert!(!more);
    assert_eq!(kept.len(), 2);
    let commits = vec![commit(2, &[1], "b"), commit(1, &[], "a")];
    let (kept, more) = split_at_limit(commits, None);
    assert!(!more);
    assert_eq!(kept.len(), 2);
}

fn sample_repo(has_more: bool, limit: Option<usize>) -> Repo {
    let commits = vec![commit(3, &[2], "third"), commit(2, &[1], "second"), commit(1, &[], "first")];
    let branches = vec![
        (BranchName("main".to_string()), sha(3)),
        (BranchName("origin/main".to_string()), sha(2)),
    ];
    Repo::new(
        "/tmp/repo",
        "repo".to_string(),
        commits,
        branches,
        Head::Attached { branch_name: BranchName("main".to_string()) },
        limit,
        has_more,
    )
}

#[test]
fn repo_new_draws_the_graph_and_finds_head() {
    let repo = sample_repo(false, Some(2000));
    assert_eq!(repo.graph.len(), 3);
    assert_eq!(repo.head_sha(), sha(3));
    assert_eq!(repo.head_row(), 0);
    assert_eq!(repo.path(), "/tmp/repo");
    let detached = Head::Detached { sha: sha(2) };
    assert_eq!(detached.sha(&repo.branches), sha(2));
}

#[test]
fn commits_below_a_remote_branch_are_on_the_remote() {
    let repo = sample_repo(false, Some(2000));
    assert!(!repo.commit_is_on_remote(&sha(3), 0));
    assert!(repo.commit_is_on_remote(&sha(2), 1));
    assert!(repo.commit_is_on_remote(&sha(1), 2));
}

#[test]
fn only_commits_reachable_from_a_remote_branch_are_on_the_remote() {
    // Two unrelated histories: 3 -> 2 -> 1 locally, and a separate root 9
    // that the remote branch points to, listed above 2 and 1.
    let commits = vec![
        commit(3, &[2], "local tip"),
        commit(9, &[], "remote root"),
        commit(2, &[1], "second"),
        commit(1, &[], "first"),
    ];
    let branches = vec![
        (BranchName("main".to_string()), sha(3)),
        (BranchName("origin/other".to_string()), sha(9)),
    ];
    let repo = Repo::new(
        "/tmp/repo",
        "repo".to_string(),
        commits,
        branches,
        Head::Attached { branch_name: BranchName("main".to_string()) },
        Some(2000),
        false,
    );
    assert!(!repo.commit_is_on_remote(&sha(3), 0));
    assert!(repo.commit_is_on_remote(&sha(9), 1));
    assert!(!repo.commit_is_on_remote(&sha(2), 2));
    assert!(!repo.commit_is_on_remote(&sha(1), 3));
    assert!(!repo.commit_is_on_remote(&sha(1), 7));
}

#[test]
fn merge_parents_are_on_the_remote() {
    let commits = vec![
        commit(4, &[3, 2], "merge"),
        commit(3, &[1], "left"),
        commit(2, &[1], "right"),
        commit(1, &[], "root"),
    ];
    let branches = vec![(BranchName("origin/main".to_string()), sha(4))];
    let repo = Repo::new(
        "/tmp/repo",
        "repo".to_string(),
        commits,
        branches,
        Head::Detached { sha: sha(4) },
        None,
        false,
    );
    for i in 0..4 {
        assert!(repo.commit_is_on_remote(&sha(4), i));
    }
}

#[test]
fn load_more_commits_doubles_the_limit() {
    let mut repo = sample_repo(true, Some(2000));
    assert!(repo.load_more_commits());
    assert_eq!(repo.commit_limit(), Some(4000));
    let mut big = sample_repo(true, Some(50000));
    assert!(big.load_more_commits());
    assert_eq!(big.commit_limit(), None);
    let mut done = sample_repo(false, Some(2000));
    assert!(!done.load_more_commits());
    assert_eq!(done.commit_limit(), Some(2000));
}

#[test]
fn commit_search_matches_fields() {
    let repo = sample_repo(false, Some(2000));
    let c = &repo.commits[0];
    let head = repo.head_sha();
    assert!(c.matches_with_date("THIRD", &repo.branches, &head, "2023-11-14"));
    assert!(!c.matches_with_date("Third", &repo.branches, &head, "2023-11-14"));
    assert!(c.matches_with_date("ada", &repo.branches, &head, "2023-11-14"));
    assert!(c.matches_with_date("2023-11", &repo.branches, &head, "2023-11-14"));
    assert!(c.matches_with_date("main", &repo.branches, &head, "2023-11-14"));
    assert!(c.matches_with_date("hea", &repo.branches, &head, "2023-11-14"));
    assert!(c.matches_with_date("HEAD", &repo.branches, &head, "2023-11-14"));
    assert!(c.matches_with_date("0300000", &repo.branches, &head, "2023-11-14"));
    assert!(!c.matches_with_date("", &repo.branches, &head, "2023-11-14"));
    assert!(!c.matches_with_date("zzz", &repo.branches, &head, "2023-11-14"));
    let older = &repo.commits[2];
    assert!(!older.matches_with_date("head", &repo.branches, &head, "2023-11-14"));
}

#[test]
fn hunk_read_from_patch_lines() {
    let raw = vec![
        PatchLine { origin: ' ', content: "keep\n".to_string(), new_line_no: Some(1) },
        PatchLine { origin: '-', content: "gone\n".to_string(), new_line_no: None },
        PatchLine { origin: '+', content: "new\n\n".to_string(), new_line_no: Some(2) },
        PatchLine { origin: '>', content: "\n\\ No newline at end of file\n".to_string(), new_line_no: None },
        PatchLine { origin: '+', content: "last".to_string(), new_line_no: Some(3) },
    ];
    let (hunk, adds, dels) = hunk_from_lines(&raw);
    assert_eq!(adds, 2);
    assert_eq!(dels, 1);
    let lines: Vec<(char, &str, Option<u32>)> =
        hunk.lines.iter().map(|l| (l.origin, l.content.as_str(), l.new_line_no)).collect();
    assert_eq!(lines, vec![(' ', "keep", Some(1)), ('-', "gone", None), ('+', "new", Some(2)), ('+', "last", Some(3))]);
}

#[test]
fn unstaging_restores_a_line_with_a_carriage_return_inside() {
    let hunk = Hunk { lines: vec![line(' ', "a"), line('+', "x\ry")] };
    let staged = apply_hunk_to_content("a\nb\n", &hunk).unwrap();
    assert_eq!(staged, "a\nx\ry\nb\n");
    let back = apply_hunk_to_content(&staged, &reverse_hunk(&hunk)).unwrap();
    assert_eq!(back, "a\nb\n");
}
