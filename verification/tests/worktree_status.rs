use gg::repo::{FileStatus, WorktreeFile};
use gg::worktree::{sort_by_path, staged_status, unstaged_status, EntryFlags};

fn flags() -> EntryFlags {
    EntryFlags {
        wt_new: false,
        wt_modified: false,
        wt_deleted: false,
        wt_typechange: false,
        wt_renamed: false,
        index_new: false,
        index_modified: false,
        index_deleted: false,
        index_typechange: false,
        index_renamed: false,
    }
}

fn file(path: &str, additions: usize) -> WorktreeFile {
    WorktreeFile {
        path: path.to_string(),
        status: FileStatus::Modified,
        unstaged_hunks: vec![],
        staged_hunks: vec![],
        additions,
        deletions: 0,
    }
}

#[test]
fn entry_sides_take_the_first_matching_status() {
    assert_eq!(unstaged_status(&flags()), None);
    assert_eq!(staged_status(&flags()), None);
    let e = EntryFlags { wt_new: true, wt_modified: true, ..flags() };
    assert_eq!(unstaged_status(&e), Some(FileStatus::Untracked));
    assert_eq!(staged_status(&e), None);
    let e = EntryFlags { wt_deleted: true, index_new: true, ..flags() };
    assert_eq!(unstaged_status(&e), Some(FileStatus::Deleted));
    assert_eq!(staged_status(&e), Some(FileStatus::Added));
    let e = EntryFlags { wt_typechange: true, index_renamed: true, index_typechange: true, ..flags() };
    assert_eq!(unstaged_status(&e), Some(FileStatus::Typechange));
    assert_eq!(staged_status(&e), Some(FileStatus::Renamed));
}

#[test]
fn files_are_sorted_by_path_stably() {
    let files = vec![file("src/b.rs", 1), file("README", 2), file("src/a.rs", 3), file("README", 4)];
    let sorted = sort_by_path(files);
    let paths: Vec<&str> = sorted.iter().map(|f| f.path.as_str()).collect();
    assert_eq!(paths, vec!["README", "README", "src/a.rs", "src/b.rs"]);
    assert_eq!(sorted[0].additions, 2);
    assert_eq!(sorted[1].additions, 4);
    assert!(sort_by_path(Vec::new()).is_empty());
}
