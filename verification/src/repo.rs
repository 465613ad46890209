//! The repository model: commits, branches, the head, diffs and the
//! working tree, as plain values.

use vstd::prelude::*;
use crate::commit_graph::{build, first_commit, graph, rows_view, Cell};
use crate::sha::{hex_of, same_sha, Sha};
use crate::text::{
    begins_with, chars_of, contains, copy_string, extend_chars, find_char, first_index,
    has_mixed_case, lower_chars, lowercase, mixed_case, occurs_in, slice_chars, starts_with,
    string_of, strip_suffix, without_suffix,
};
use crate::utils::format_date;

verus! {

/// A commit of the history list, with its raw data.
pub struct Commit {
    pub sha: Sha,
    pub parent_shas: Vec<Sha>,
    pub message: String,
    pub author: String,
    pub timestamp: i64,
}

/// One line of a diff hunk.
pub struct DiffLine {
    /// `+` for an added line, `-` for a removed one, ` ` for context.
    pub origin: char,
    pub content: String,
    /// The line's number in the new file, for added and context lines.
    pub new_line_no: Option<u32>,
}

/// A contiguous block of changed lines.
pub struct Hunk {
    pub lines: Vec<DiffLine>,
}

broadcast use vstd::string::group_string_axioms;

/// The name of a local or remote-tracking branch (`main`, `origin/main`).
pub struct BranchName(pub String);

impl BranchName {
    /// The branch name as a string.
    pub fn to_string(&self) -> (r: String)
        ensures
            r@ == self.0@,
    {
        copy_string(&self.0)
    }

    /// A copy of the name.
    pub fn copy(&self) -> (r: BranchName)
        ensures
            r.0@ == self.0@,
    {
        BranchName(copy_string(&self.0))
    }
}

/// The branches of a repository: each name with the commit it points to.
pub type Branches = Vec<(BranchName, Sha)>;

/// The branches seen as names and ids.
pub open spec fn branches_view(b: Seq<(BranchName, Sha)>) -> Seq<(Seq<char>, Sha)> {
    b.map_values(|e: (BranchName, Sha)| (e.0.0@, e.1))
}

/// No branch name occurs twice: the branches are a map from names to ids.
pub open spec fn distinct_names(b: Seq<(Seq<char>, Sha)>) -> bool {
    forall|i: int, j: int| 0 <= i < j < b.len() ==> #[trigger] b[i].0 != #[trigger] b[j].0
}

/// The id the branch called `name` points to.
pub open spec fn branch_target(b: Seq<(Seq<char>, Sha)>, name: Seq<char>) -> Option<Sha> {
    if exists|i: int| 0 <= i < b.len() && b[i].0 == name {
        Some(b[choose|i: int| 0 <= i < b.len() && b[i].0 == name].1)
    } else {
        None
    }
}

/// Either attached to a branch or detached pointing directly to a commit.
pub enum Head {
    Attached { branch_name: BranchName },
    Detached { sha: Sha },
}

impl Head {
    /// The commit the head is at. An attached head must name a branch
    /// there is.
    pub fn sha(&self, branches: &Branches) -> (r: Sha)
        requires
            distinct_names(branches_view(branches@)),
            self matches Head::Attached { branch_name } ==> branch_target(
                branches_view(branches@),
                branch_name.0@,
            ) is Some,
        ensures
            match self {
                Head::Attached { branch_name } => Some(r) == branch_target(
                    branches_view(branches@),
                    branch_name.0@,
                ),
                Head::Detached { sha } => r == *sha,
            },
    {
        match self {
            Head::Attached { branch_name } => {
                let name = chars_of(branch_name.0.as_str());
                let ghost bv = branches_view(branches@);
                let mut i: usize = 0;
                while i < branches.len()
                    invariant
                        i <= branches.len(),
                        bv == branches_view(branches@),
                        name@ == branch_name.0@,
                        *self matches Head::Attached { branch_name: b } && b.0@ == name@,
                        distinct_names(bv),
                        branch_target(bv, name@) is Some,
                        forall|k: int| 0 <= k < i ==> bv[k].0 != name@,
                    decreases branches.len() - i,
                {
                    let candidate = chars_of(branches[i].0.0.as_str());
                    if crate::text::same_chars(&candidate, &name) {
                        proof {
                            assert(bv[i as int] == (branches@[i as int].0.0@, branches@[i as int].1));
                            assert(bv[i as int].0 == name@);
                            let j = choose|j: int| 0 <= j < bv.len() && bv[j].0 == name@;
                            if j != i {
                                if j < i {
                                    assert(bv[j].0 != bv[i as int].0);
                                } else {
                                    assert(bv[i as int].0 != bv[j].0);
                                }
                            }
                            assert(j == i);
                            assert(branch_target(bv, name@) == Some(bv[i as int].1));
                        }
                        return branches[i].1;
                    }
                    i += 1;
                }
                proof {
                    let j = choose|j: int| 0 <= j < bv.len() && bv[j].0 == name@;
                    assert(bv[j].0 != name@);
                }
                branches[0].1
            },
            Head::Detached { sha } => *sha,
        }
    }

    /// The branch the head is attached to, if it is.
    pub fn branch_name(&self) -> (r: Option<&BranchName>)
        ensures
            match self {
                Head::Attached { branch_name } => r == Some(branch_name),
                Head::Detached { .. } => r is None,
            },
    {
        match self {
            Head::Attached { branch_name } => Some(branch_name),
            Head::Detached { .. } => None,
        }
    }
}

// ---------------------------------------------------------------------------
// Searching the commit list
// ---------------------------------------------------------------------------

/// Whether a commit matches a search query, given the date the list shows
/// for it: the query occurs in its message, abbreviated id, author, date,
/// a branch at it, or `HEAD` when the head is at it. A query with both
/// upper and lower case letters is matched as it is, any other ignoring
/// case. The empty query matches nothing.
pub open spec fn commit_matches(
    message: Seq<char>,
    author: Seq<char>,
    sha: Sha,
    query: Seq<char>,
    branches: Seq<(Seq<char>, Sha)>,
    head_sha: Sha,
    date: Seq<char>,
) -> bool {
    let short = hex_of(sha.bytes@).take(7);
    if query.len() == 0 {
        false
    } else if mixed_case(query) {
        occurs_in(message, query) || occurs_in(short, query) || occurs_in(author, query)
            || occurs_in(date, query) || (exists|i: int|
            0 <= i < branches.len() && branches[i].1 == sha && occurs_in(
                #[trigger] branches[i].0,
                query,
            )) || (sha == head_sha && occurs_in("HEAD"@, query))
    } else {
        let q = lowercase(query);
        occurs_in(lowercase(message), q) || occurs_in(lowercase(short), q) || occurs_in(
            lowercase(author),
            q,
        ) || occurs_in(lowercase(date), q) || (exists|i: int|
            0 <= i < branches.len() && branches[i].1 == sha && occurs_in(
                lowercase(#[trigger] branches[i].0),
                q,
            )) || (sha == head_sha && occurs_in("head"@, q))
    }
}

impl Commit {
    /// Whether this commit matches the search query, the list showing
    /// `date` as its date.
    pub fn matches_with_date(
        &self,
        query: &str,
        branches: &Branches,
        head_sha: &Sha,
        date: &str,
    ) -> (r: bool)
        ensures
            r == commit_matches(
                self.message@,
                self.author@,
                self.sha,
                query@,
                branches_view(branches@),
                *head_sha,
                date@,
            ),
    {
        let q = chars_of(query);
        if q.len() == 0 {
            return false;
        }
        let case_sensitive = has_mixed_case(query);
        let is_head = same_sha(&self.sha, head_sha);
        let short = self.sha.short_hex();
        let message = chars_of(self.message.as_str());
        let author = chars_of(self.author.as_str());
        let d = chars_of(date);
        let ghost bv = branches_view(branches@);
        if case_sensitive {
            let head_word = chars_of("HEAD");
            if contains(&message, &q) || contains(&short, &q) || contains(&author, &q)
                || contains(&d, &q) {
                return true;
            }
            let mut i: usize = 0;
            while i < branches.len()
                invariant
                    i <= branches.len(),
                    bv == branches_view(branches@),
                    q@ == query@,
                    q@.len() > 0,
                    case_sensitive,
                    case_sensitive == mixed_case(query@),
                    forall|k: int|
                        0 <= k < i ==> !(bv[k].1 == self.sha && occurs_in(#[trigger] bv[k].0, q@)),
                decreases branches.len() - i,
            {
                proof {
                    assert(bv[i as int] == (branches@[i as int].0.0@, branches@[i as int].1));
                }
                if same_sha(&branches[i].1, &self.sha) {
                    let name = chars_of(branches[i].0.0.as_str());
                    if contains(&name, &q) {
                        proof {
                            assert(occurs_in(bv[i as int].0, query@));
                            assert(bv[i as int].1 == self.sha);
                            assert(exists|k: int|
                                0 <= k < bv.len() && bv[k].1 == self.sha && occurs_in(
                                    #[trigger] bv[k].0,
                                    query@,
                                ));
                        }
                        return true;
                    }
                }
                i += 1;
            }
            is_head && contains(&head_word, &q)
        } else {
            let ql = lower_chars(&q);
            let head_word = chars_of("head");
            if contains(&lower_chars(&message), &ql) || contains(&lower_chars(&short), &ql)
                || contains(&lower_chars(&author), &ql) || contains(&lower_chars(&d), &ql) {
                return true;
            }
            let mut i: usize = 0;
            while i < branches.len()
                invariant
                    i <= branches.len(),
                    bv == branches_view(branches@),
                    ql@ == lowercase(query@),
                    q@ == query@,
                    q@.len() > 0,
                    !case_sensitive,
                    case_sensitive == mixed_case(query@),
                    forall|k: int|
                        0 <= k < i ==> !(bv[k].1 == self.sha && occurs_in(
                            lowercase(#[trigger] bv[k].0),
                            ql@,
                        )),
                decreases branches.len() - i,
            {
                proof {
                    assert(bv[i as int] == (branches@[i as int].0.0@, branches@[i as int].1));
                }
                if same_sha(&branches[i].1, &self.sha) {
                    let name = chars_of(branches[i].0.0.as_str());
                    if contains(&lower_chars(&name), &ql) {
                        proof {
                            assert(occurs_in(lowercase(bv[i as int].0), lowercase(query@)));
                        }
                        return true;
                    }
                }
                i += 1;
            }
            is_head && contains(&head_word, &ql)
        }
    }

    /// Check if this commit matches the search query (searches message,
    /// sha, author, date, branch names, and HEAD). The date is the one the
    /// list shows, in the local time zone.
    pub fn matches(&self, query: &str, branches: &Branches, head_sha: &Sha) -> (r: bool)
        ensures
            exists|date: Seq<char>|
                r == commit_matches(
                    self.message@,
                    self.author@,
                    self.sha,
                    query@,
                    branches_view(branches@),
                    *head_sha,
                    date,
                ),
    {
        let date = format_date(self.timestamp);
        self.matches_with_date(query, branches, head_sha, date.as_str())
    }
}

// ---------------------------------------------------------------------------
// Remotes
// ---------------------------------------------------------------------------

/// The host and the repository path named by a remote URL of the form
/// `git@host:user/repo.git` or `https://host/user/repo.git`, without a
/// trailing `.git`.
pub open spec fn remote_parts(url: Seq<char>) -> Option<(Seq<char>, Seq<char>)> {
    if begins_with(url, "git@"@) {
        let rest = url.skip("git@"@.len() as int);
        match first_index(rest, ':') {
            None => None,
            Some(c) => Some((rest.take(c), without_suffix(rest.skip(c + 1), ".git"@))),
        }
    } else if begins_with(url, "https://"@) {
        let rest = url.skip("https://"@.len() as int);
        match first_index(rest, '/') {
            None => None,
            Some(c) => Some((rest.take(c), without_suffix(rest.skip(c + 1), ".git"@))),
        }
    } else {
        None
    }
}

/// Where a forge shows a commit: GitLab under `/-/commit/`, Bitbucket under
/// `/commits/`, GitHub and the others under `/commit/`.
pub open spec fn commit_path(host: Seq<char>, sha_hex: Seq<char>) -> Seq<char> {
    if occurs_in(host, "gitlab"@) {
        "/-/commit/"@ + sha_hex
    } else if occurs_in(host, "bitbucket"@) {
        "/commits/"@ + sha_hex
    } else {
        "/commit/"@ + sha_hex
    }
}

/// The web page of a commit on the forge that a remote URL names.
pub open spec fn commit_url_of(url: Seq<char>, sha_hex: Seq<char>) -> Option<Seq<char>> {
    match remote_parts(url) {
        None => None,
        Some((host, path)) => Some("https://"@ + host + "/"@ + path + commit_path(host, sha_hex)),
    }
}

/// The friendly name of the forge that a remote URL names.
pub open spec fn host_name_of(url: Seq<char>) -> Option<Seq<char>> {
    match remote_parts(url) {
        None => None,
        Some((host, _path)) => Some(
            if occurs_in(host, "gitlab"@) {
                "gitlab"@
            } else if occurs_in(host, "bitbucket"@) {
                "bitbucket"@
            } else {
                "github"@
            },
        ),
    }
}

pub open spec fn opt_chars(o: Option<String>) -> Option<Seq<char>> {
    match o {
        Some(s) => Some(s@),
        None => None,
    }
}

fn chars_after(v: &Vec<char>, from: usize) -> (r: Vec<char>)
    requires
        from <= v.len(),
    ensures
        r@ == v@.skip(from as int),
{
    let r = slice_chars(v, from, v.len());
    proof {
        assert(r@ =~= v@.skip(from as int));
    }
    r
}

/// The host and path of a remote URL.
fn parse_remote(url: &Vec<char>) -> (r: Option<(Vec<char>, Vec<char>)>)
    ensures
        match r {
            Some((h, p)) => remote_parts(url@) == Some((h@, p@)),
            None => remote_parts(url@) is None,
        },
{
    let ssh = chars_of("git@");
    let https = chars_of("https://");
    let git = chars_of(".git");
    let (rest, sep) = if starts_with(url, &ssh) {
        (chars_after(url, ssh.len()), ':')
    } else if starts_with(url, &https) {
        (chars_after(url, https.len()), '/')
    } else {
        return None;
    };
    match find_char(&rest, sep) {
        None => None,
        Some(c) => {
            let host = slice_chars(&rest, 0, c);
            let path = strip_suffix(&chars_after(&rest, c + 1), &git);
            proof {
                assert(host@ =~= rest@.take(c as int));
            }
            Some((host, path))
        },
    }
}

/// Get the web URL for a commit from the URL of the `origin` remote.
/// Supports GitHub, GitLab, Bitbucket, and other git forges.
pub fn commit_url_from_remote(url: &str, sha: &Sha) -> (r: Option<String>)
    ensures
        opt_chars(r) == commit_url_of(url@, hex_of(sha.bytes@)),
{
    let u = chars_of(url);
    match parse_remote(&u) {
        None => None,
        Some((host, path)) => {
            let hex = sha.hex();
            let mut tail = if contains(&host, &chars_of("gitlab")) {
                chars_of("/-/commit/")
            } else if contains(&host, &chars_of("bitbucket")) {
                chars_of("/commits/")
            } else {
                chars_of("/commit/")
            };
            extend_chars(&mut tail, &hex);
            let mut out = chars_of("https://");
            extend_chars(&mut out, &host);
            extend_chars(&mut out, &chars_of("/"));
            extend_chars(&mut out, &path);
            extend_chars(&mut out, &tail);
            proof {
                assert(out@ =~= "https://"@ + host@ + "/"@ + path@ + commit_path(
                    host@,
                    hex_of(sha.bytes@),
                ));
            }
            Some(string_of(&out))
        },
    }
}

/// Get the display name of the remote host (github, gitlab, bitbucket, etc.)
/// from the URL of the `origin` remote.
pub fn remote_host_name_from_url(url: &str) -> (r: Option<String>)
    ensures
        opt_chars(r) == host_name_of(url@),
{
    let u = chars_of(url);
    match parse_remote(&u) {
        None => None,
        Some((host, _path)) => {
            let name = if contains(&host, &chars_of("gitlab")) {
                "gitlab"
            } else if contains(&host, &chars_of("bitbucket")) {
                "bitbucket"
            } else {
                "github"
            };
            Some(string_of(&chars_of(name)))
        },
    }
}

// ---------------------------------------------------------------------------
// Diffs and the working tree
// ---------------------------------------------------------------------------

/// A file changed by a commit.
pub struct FileChange {
    pub path: String,
    /// 'M', 'A', 'D', 'R', etc.
    pub status: char,
    pub additions: usize,
    pub deletions: usize,
    pub hunks: Vec<Hunk>,
}

/// Everything the details panel shows of a commit.
pub struct CommitDetails {
    pub sha: Sha,
    pub author_name: String,
    pub author_email: String,
    pub timestamp: i64,
    /// Full message, not just summary
    pub message: String,
    pub files: Vec<FileChange>,
}

#[derive(Clone, Copy, PartialEq, Eq, Structural, Debug)]
pub enum FileStatus {
    Untracked,
    Modified,
    Added,
    Deleted,
    Renamed,
    Typechange,
}

/// A file in the worktree with potential staged and unstaged changes
pub struct WorktreeFile {
    pub path: String,
    pub status: FileStatus,
    pub unstaged_hunks: Vec<Hunk>,
    pub staged_hunks: Vec<Hunk>,
    pub additions: usize,
    pub deletions: usize,
}

/// Current worktree status with all changed files
pub struct WorktreeStatus {
    pub unstaged_files: Vec<WorktreeFile>,
    pub staged_files: Vec<WorktreeFile>,
}

// ---------------------------------------------------------------------------
// The repository
// ---------------------------------------------------------------------------

/// Default number of commits to load initially
pub const DEFAULT_COMMIT_LIMIT: usize = 2000;

/// A limit is doubled when more commits are wanted, until it passes this.
pub const UNLIMITED_FROM: usize = 50000;

/// What the app knows of a repository: its history, branches and head.
pub struct Repo {
    pub path: String,
    pub name: String,
    pub commits: Vec<Commit>,
    pub branches: Branches,
    pub head: Head,
    pub graph: Vec<Vec<Cell>>,
    /// Maximum commits to load (None = unlimited)
    pub commit_limit: Option<usize>,
    /// Whether there are more commits beyond what's loaded
    pub has_more_commits: bool,
}

/// The limit after asking for more commits: doubled, or none once it is
/// large.
pub open spec fn next_limit(limit: Option<usize>) -> Option<usize> {
    match limit {
        Some(n) => if n < UNLIMITED_FROM {
            Some((n * 2) as usize)
        } else {
            None
        },
        None => None,
    }
}

/// Commit `j` is a parent of commit `i` (both places in the list).
pub open spec fn parent_of(commits: Seq<Commit>, i: int, j: int) -> bool {
    &&& 0 <= i < commits.len()
    &&& 0 <= j < commits.len()
    &&& commits[i].parent_shas@.contains(commits[j].sha)
}

/// A remote-tracking branch (a name with a `/`) points to commit `a`.
pub open spec fn remote_tip(commits: Seq<Commit>, branches: Seq<(Seq<char>, Sha)>, a: int) -> bool {
    &&& 0 <= a < commits.len()
    &&& exists|b: int|
        0 <= b < branches.len() && branches[b].0.contains('/') && #[trigger] branches[b].1
            == commits[a].sha
}

/// Places in the list, each commit followed by one of its parents.
pub open spec fn parent_chain(commits: Seq<Commit>, p: Seq<int>) -> bool {
    &&& p.len() > 0
    &&& forall|k: int| 0 <= k < p.len() - 1 ==> #[trigger] parent_of(commits, p[k], p[k + 1])
}

/// Whether the commit at `index` is reachable from a remote-tracking
/// branch: a chain of parents within the list leads to it from a commit
/// such a branch points to.
pub open spec fn on_remote(
    commits: Seq<Commit>,
    branches: Seq<(Seq<char>, Sha)>,
    index: int,
) -> bool {
    exists|p: Seq<int>|
        #[trigger] parent_chain(commits, p) && remote_tip(commits, branches, p[0]) && p.last() == index
}

/// The number of places set in `s`.
pub open spec fn count_set(s: Seq<bool>) -> nat
    decreases s.len(),
{
    if s.len() == 0 {
        0
    } else {
        count_set(s.drop_last()) + if s.last() {
            1nat
        } else {
            0nat
        }
    }
}

/// The commits kept under a limit of `n`, read up to `n + 1` of them, and
/// whether there were more.
pub fn split_at_limit(commits: Vec<Commit>, limit: Option<usize>) -> (r: (Vec<Commit>, bool))
    ensures
        match limit {
            Some(n) => r.1 == (commits@.len() > n) && r.0@ == (if r.1 {
                commits@.take(n as int)
            } else {
                commits@
            }),
            None => !r.1 && r.0@ == commits@,
        },
{
    match limit {
        Some(n) => {
            let has_more = commits.len() > n;
            let mut kept = commits;
            if has_more {
                kept.truncate(n);
            }
            (kept, has_more)
        },
        None => (commits, false),
    }
}

impl Repo {
    /// The well-formedness of a repository: the graph is the one drawn for
    /// its commits, and no branch name occurs twice.
    pub open spec fn wf(&self) -> bool {
        &&& rows_view(self.graph@) == graph(self.commits@)
        &&& distinct_names(branches_view(self.branches@))
    }

    /// A repository with the given history; the graph is drawn for it.
    pub fn new(
        path: &str,
        name: String,
        commits: Vec<Commit>,
        branches: Branches,
        head: Head,
        commit_limit: Option<usize>,
        has_more_commits: bool,
    ) -> (r: Repo)
        requires
            distinct_names(branches_view(branches@)),
        ensures
            r.wf(),
            r.path@ == path@,
            r.name == name,
            r.commits == commits,
            r.branches == branches,
            r.head == head,
            r.commit_limit == commit_limit,
            r.has_more_commits == has_more_commits,
    {
        let graph = build(&commits);
        Repo {
            path: string_of(&chars_of(path)),
            name,
            commits,
            branches,
            head,
            graph,
            commit_limit,
            has_more_commits,
        }
    }

    /// Replaces the history with a freshly read one; the graph is drawn
    /// again.
    pub fn refresh_with(
        &mut self,
        commits: Vec<Commit>,
        has_more_commits: bool,
        branches: Branches,
        head: Head,
    )
        requires
            distinct_names(branches_view(branches@)),
        ensures
            final(self).wf(),
            final(self).commits == commits,
            final(self).branches == branches,
            final(self).head == head,
            final(self).has_more_commits == has_more_commits,
            final(self).commit_limit == old(self).commit_limit,
            final(self).path@ == old(self).path@,
    {
        self.graph = build(&commits);
        self.commits = commits;
        self.has_more_commits = has_more_commits;
        self.branches = branches;
        self.head = head;
    }

    pub fn head_sha(&self) -> (r: Sha)
        requires
            self.wf(),
            self.head matches Head::Attached { branch_name } ==> branch_target(
                branches_view(self.branches@),
                branch_name.0@,
            ) is Some,
        ensures
            match self.head {
                Head::Attached { branch_name } => Some(r) == branch_target(
                    branches_view(self.branches@),
                    branch_name.0@,
                ),
                Head::Detached { sha } => r == sha,
            },
    {
        self.head.sha(&self.branches)
    }

    pub fn path(&self) -> (r: &str)
        ensures
            r@ == self.path@,
    {
        self.path.as_str()
    }

    /// The maximum number of commits to load (None = unlimited).
    pub fn commit_limit(&self) -> (r: Option<usize>)
        ensures
            r == self.commit_limit,
    {
        self.commit_limit
    }

    /// Asks for more commits: doubles the limit, or lifts it once large.
    /// Returns whether the history has to be read again (only when there
    /// are more commits).
    pub fn load_more_commits(&mut self) -> (reload: bool)
        ensures
            reload == old(self).has_more_commits,
            final(self).commit_limit == (if reload {
                next_limit(old(self).commit_limit)
            } else {
                old(self).commit_limit
            }),
            *final(self) == (Repo { commit_limit: final(self).commit_limit, ..*old(self) }),
    {
        if !self.has_more_commits {
            return false;
        }
        self.commit_limit = match self.commit_limit {
            Some(n) => if n < UNLIMITED_FROM {
                Some(n * 2)
            } else {
                None
            },
            None => None,
        };
        true
    }

    /// Check if a commit is reachable from any remote tracking branch:
    /// the commits such branches point to are marked, then the parents of
    /// marked commits, until nothing changes.
    pub fn commit_is_on_remote(&self, _sha: &Sha, commit_index: usize) -> (r: bool)
        ensures
            r == on_remote(self.commits@, branches_view(self.branches@), commit_index as int),
    {
        let marked = self.remote_reachable();
        if commit_index < marked.len() {
            marked[commit_index]
        } else {
            proof {
                if on_remote(self.commits@, branches_view(self.branches@), commit_index as int) {
                    let p = choose|p: Seq<int>|
                        #[trigger] parent_chain(self.commits@, p) && remote_tip(
                            self.commits@,
                            branches_view(self.branches@),
                            p[0],
                        ) && p.last() == commit_index as int;
                    if p.len() > 1 {
                        assert(parent_of(self.commits@, p[p.len() - 2], p[(p.len() - 2) + 1]));
                    }
                }
            }
            false
        }
    }

    /// Whether a remote-tracking branch points to the commit at `a`.
    fn is_remote_tip(&self, a: usize) -> (r: bool)
        requires
            a < self.commits@.len(),
        ensures
            r == remote_tip(self.commits@, branches_view(self.branches@), a as int),
    {
        let ghost bv = branches_view(self.branches@);
        let mut i: usize = 0;
        while i < self.branches.len()
            invariant
                i <= self.branches.len(),
                a < self.commits@.len(),
                bv == branches_view(self.branches@),
                forall|k: int|
                    0 <= k < i ==> !(bv[k].0.contains('/') && #[trigger] bv[k].1 == self.commits@[a as int].sha),
            decreases self.branches.len() - i,
        {
            let name = chars_of(self.branches[i].0.0.as_str());
            proof {
                assert(bv[i as int] == (self.branches@[i as int].0.0@, self.branches@[i as int].1));
                lemma_first_index_contains(name@, '/');
            }
            let has_slash = match find_char(&name, '/') {
                Some(_) => true,
                None => false,
            };
            if has_slash && same_sha(&self.branches[i].1, &self.commits[a].sha) {
                proof {
                    assert(bv[i as int].0.contains('/') && bv[i as int].1 == self.commits@[a as int].sha);
                }
                return true;
            }
            i += 1;
        }
        false
    }

    /// For each commit, whether it is reachable from a remote-tracking
    /// branch.
    fn remote_reachable(&self) -> (r: Vec<bool>)
        ensures
            r@.len() == self.commits@.len(),
            forall|j: int|
                0 <= j < r@.len() ==> #[trigger] r@[j] == on_remote(
                    self.commits@,
                    branches_view(self.branches@),
                    j,
                ),
    {
        let ghost cs = self.commits@;
        let ghost bv = branches_view(self.branches@);
        let n = self.commits.len();
        let mut marked: Vec<bool> = Vec::new();
        let mut count: usize = 0;
        let mut j: usize = 0;
        while j < n
            invariant
                n == cs.len(),
                cs == self.commits@,
                bv == branches_view(self.branches@),
                j <= n,
                marked@.len() == j,
                count as nat == count_set(marked@),
                count <= j,
                forall|a: int| 0 <= a < j ==> (#[trigger] marked@[a] <==> remote_tip(cs, bv, a)),
            decreases n - j,
        {
            let tip = self.is_remote_tip(j);
            let ghost before = marked@;
            marked.push(tip);
            proof {
                assert(marked@.drop_last() =~= before);
            }
            if tip {
                count += 1;
            }
            j += 1;
        }
        proof {
            assert forall|a: int| 0 <= a < n && #[trigger] marked@[a] implies on_remote(cs, bv, a) by {
                assert(parent_chain(cs, seq![a]));
            }
            lemma_count_bound(marked@);
        }
        let mut changed = true;
        while changed
            invariant
                n == cs.len(),
                cs == self.commits@,
                bv == branches_view(self.branches@),
                marked@.len() == n,
                count as nat == count_set(marked@),
                count <= n,
                forall|a: int| 0 <= a < n && remote_tip(cs, bv, a) ==> #[trigger] marked@[a],
                forall|a: int| 0 <= a < n && #[trigger] marked@[a] ==> on_remote(cs, bv, a),
                !changed ==> forall|i: int, k: int|
                    0 <= i < n && marked@[i] && #[trigger] parent_of(cs, i, k) ==> marked@[k],
            decreases n - count + if changed {
                1int
            } else {
                0int
            },
        {
            let ghost start = count;
            changed = false;
            let mut i: usize = 0;
            while i < n
                invariant
                    n == cs.len(),
                    cs == self.commits@,
                    bv == branches_view(self.branches@),
                    i <= n,
                    marked@.len() == n,
                    count as nat == count_set(marked@),
                    count <= n,
                    start <= count,
                    changed ==> start < count,
                    forall|a: int| 0 <= a < n && remote_tip(cs, bv, a) ==> #[trigger] marked@[a],
                    forall|a: int| 0 <= a < n && #[trigger] marked@[a] ==> on_remote(cs, bv, a),
                    !changed ==> forall|i2: int, k: int|
                        0 <= i2 < i && marked@[i2] && #[trigger] parent_of(cs, i2, k) ==> marked@[k],
                decreases n - i,
            {
                if marked[i] {
                    let mut k: usize = 0;
                    while k < n
                        invariant
                            n == cs.len(),
                            cs == self.commits@,
                            bv == branches_view(self.branches@),
                            i < n,
                            k <= n,
                            marked@.len() == n,
                            marked@[i as int],
                            count as nat == count_set(marked@),
                            count <= n,
                            start <= count,
                            changed ==> start < count,
                            forall|a: int| 0 <= a < n && remote_tip(cs, bv, a) ==> #[trigger] marked@[a],
                            forall|a: int| 0 <= a < n && #[trigger] marked@[a] ==> on_remote(cs, bv, a),
                            !changed ==> forall|i2: int, k2: int|
                                0 <= i2 < i && marked@[i2] && #[trigger] parent_of(cs, i2, k2) ==> marked@[k2],
                            !changed ==> forall|k2: int|
                                0 <= k2 < k && #[trigger] parent_of(cs, i as int, k2) ==> marked@[k2],
                        decreases n - k,
                    {
                        if !marked[k] && has_parent(&self.commits[i], &self.commits[k].sha) {
                            proof {
                                assert(parent_of(cs, i as int, k as int));
                                lemma_reached_parent(cs, bv, i as int, k as int);
                                lemma_count_update(marked@, k as int);
                                lemma_count_bound(marked@.update(k as int, true));
                            }
                            marked.set(k, true);
                            count += 1;
                            changed = true;
                        }
                        k += 1;
                    }
                }
                i += 1;
            }
        }
        proof {
            assert forall|j: int| 0 <= j < n implies #[trigger] marked@[j] == on_remote(cs, bv, j) by {
                if on_remote(cs, bv, j) {
                    let p = choose|p: Seq<int>|
                        #[trigger] parent_chain(cs, p) && remote_tip(cs, bv, p[0]) && p.last() == j;
                    lemma_chain_marked(cs, bv, marked@, p, p.len() - 1);
                }
            }
        }
        marked
    }
    /// The row of the commit the head is at, or the first row when it is
    /// not in the list.
    pub fn head_row(&self) -> (r: usize)
        requires
            self.wf(),
            self.head matches Head::Attached { branch_name } ==> branch_target(
                branches_view(self.branches@),
                branch_name.0@,
            ) is Some,
        ensures
            ({
                let h = match self.head {
                    Head::Attached { branch_name } => branch_target(
                        branches_view(self.branches@),
                        branch_name.0@,
                    )->0,
                    Head::Detached { sha } => sha,
                };
                match first_commit(self.commits@, h, self.commits@.len() as int) {
                    Some(p) => r == p,
                    None => r == 0,
                }
            }),
    {
        let h = self.head_sha();
        match crate::commit_graph::first_commit_index(&self.commits, &h) {
            Some(p) => p,
            None => 0,
        }
    }
}

proof fn lemma_first_index_contains(s: Seq<char>, c: char)
    ensures
        (first_index(s, c) is Some) == s.contains(c),
    decreases s.len(),
{
    if s.len() > 0 {
        lemma_first_index_contains(s.drop_last(), c);
        if s.drop_last().contains(c) {
            let k = choose|k: int| 0 <= k < s.drop_last().len() && s.drop_last()[k] == c;
            assert(s[k] == c);
        }
        if s.contains(c) {
            let k = choose|k: int| 0 <= k < s.len() && s[k] == c;
            if k < s.len() - 1 {
                assert(s.drop_last()[k] == c);
            }
        }
    }
}

/// Whether `sha` is among the parents of `c`.
fn has_parent(c: &Commit, sha: &Sha) -> (r: bool)
    ensures
        r == c.parent_shas@.contains(*sha),
{
    let mut i: usize = 0;
    while i < c.parent_shas.len()
        invariant
            i <= c.parent_shas@.len(),
            forall|k: int| 0 <= k < i ==> c.parent_shas@[k] != *sha,
        decreases c.parent_shas.len() - i,
    {
        if same_sha(&c.parent_shas[i], sha) {
            proof {
                assert(c.parent_shas@[i as int] == *sha);
            }
            return true;
        }
        i += 1;
    }
    false
}

proof fn lemma_reached_parent(commits: Seq<Commit>, branches: Seq<(Seq<char>, Sha)>, i: int, j: int)
    requires
        on_remote(commits, branches, i),
        parent_of(commits, i, j),
    ensures
        on_remote(commits, branches, j),
{
    let p = choose|p: Seq<int>|
        #[trigger] parent_chain(commits, p) && remote_tip(commits, branches, p[0]) && p.last() == i;
    let q = p.push(j);
    assert forall|k: int| 0 <= k < q.len() - 1 implies #[trigger] parent_of(commits, q[k], q[k + 1]) by {
        if k < p.len() - 1 {
            assert(q[k] == p[k] && q[k + 1] == p[k + 1]);
            assert(parent_of(commits, p[k], p[k + 1]));
        } else {
            assert(q[k] == i && q[k + 1] == j);
        }
    }
    assert(parent_chain(commits, q));
    assert(q[0] == p[0]);
}

proof fn lemma_chain_marked(
    commits: Seq<Commit>,
    branches: Seq<(Seq<char>, Sha)>,
    marked: Seq<bool>,
    p: Seq<int>,
    k: int,
)
    requires
        parent_chain(commits, p),
        remote_tip(commits, branches, p[0]),
        0 <= k < p.len(),
        marked.len() == commits.len(),
        forall|a: int| 0 <= a < commits.len() && remote_tip(commits, branches, a) ==> #[trigger] marked[a],
        forall|i: int, j: int|
            0 <= i < commits.len() && marked[i] && #[trigger] parent_of(commits, i, j) ==> marked[j],
    ensures
        0 <= p[k] < commits.len(),
        marked[p[k]],
    decreases k,
{
    if k > 0 {
        lemma_chain_marked(commits, branches, marked, p, k - 1);
        assert(parent_of(commits, p[k - 1], p[(k - 1) + 1]));
    }
}

proof fn lemma_count_update(s: Seq<bool>, j: int)
    requires
        0 <= j < s.len(),
        !s[j],
    ensures
        count_set(s.update(j, true)) == count_set(s) + 1,
    decreases s.len(),
{
    let t = s.update(j, true);
    if j == s.len() - 1 {
        assert(t.drop_last() =~= s.drop_last());
    } else {
        assert(t.drop_last() =~= s.drop_last().update(j, true));
        lemma_count_update(s.drop_last(), j);
    }
}

proof fn lemma_count_bound(s: Seq<bool>)
    ensures
        count_set(s) <= s.len(),
    decreases s.len(),
{
    if s.len() > 0 {
        lemma_count_bound(s.drop_last());
    }
}

} // verus!
