//! The prompts at the bottom of the commit list: naming a branch to
//! create, delete, check out or push, choosing what to rebase onto, and
//! confirming a revert; and what is shown once git has done the work.

use vstd::prelude::*;
use crate::action::{typed, Action, Effect};
use crate::complete::{completed, names_view, opt_chars, tab_complete_branch};
use crate::repo::{branches_view, Repo};
use crate::sha::{hex_of, same_sha, Sha};
use crate::state::{flash, shows, PushInProgress, PushResult, State};
use crate::text::{
    chars_of, contains, copy_string, is_empty, lines_of, occurs_in, pop_char, push_char, same_chars,
    split_lines, str_then, string_of, surround,
};
use std::sync::mpsc::Receiver;

verus! {

broadcast use vstd::string::group_string_axioms;

// ---------------------------------------------------------------------------
// What the prompts read
// ---------------------------------------------------------------------------

/// The id of the selected commit.
pub open spec fn selected_sha(repo: Repo, s: State) -> Sha {
    repo.commits@[s.index_of_selected_row as int].sha
}

/// Whether a branch called `name` points at `sha`.
pub open spec fn on_commit(repo: Repo, name: Seq<char>, sha: Sha) -> bool {
    exists|i: int|
        0 <= i < repo.branches@.len() && (#[trigger] branches_view(repo.branches@)[i]) == (
        name,
        sha,
    )
}

/// The names of all branches.
pub open spec fn branch_names(repo: Repo) -> Seq<Seq<char>> {
    branches_view(repo.branches@).map_values(|p: (Seq<char>, Sha)| p.0)
}

/// The abbreviated id of a commit: its first seven hexadecimal digits.
pub open spec fn short_id(sha: Sha) -> Seq<char> {
    hex_of(sha.bytes@).take(7)
}

/// The first line of a text, or `default` when it has none.
pub open spec fn first_line_or(text: Seq<char>, default: Seq<char>) -> Seq<char> {
    if lines_of(text).len() > 0 {
        lines_of(text)[0]
    } else {
        default
    }
}

pub(crate) fn selected_commit_sha(state: &State, repo: &Repo) -> (r: Sha)
    requires
        state.index_of_selected_row < repo.commits@.len(),
    ensures
        r == selected_sha(*repo, *state),
{
    repo.commits[state.index_of_selected_row].sha
}

/// Whether a branch called `name` points at `sha`.
pub(crate) fn branch_on_commit(repo: &Repo, name: &String, sha: &Sha) -> (r: bool)
    ensures
        r == on_commit(*repo, name@, *sha),
{
    let n = chars_of(name.as_str());
    let ghost bv = branches_view(repo.branches@);
    let mut i: usize = 0;
    while i < repo.branches.len()
        invariant
            i <= repo.branches.len(),
            n@ == name@,
            bv == branches_view(repo.branches@),
            forall|k: int| 0 <= k < i ==> bv[k] != (name@, *sha),
        decreases repo.branches.len() - i,
    {
        proof {
            assert(bv[i as int] == (repo.branches@[i as int].0.0@, repo.branches@[i as int].1));
        }
        if same_sha(&repo.branches[i].1, sha) && same_chars(
            &chars_of(repo.branches[i].0.0.as_str()),
            &n,
        ) {
            proof {
                assert(bv[i as int] == (name@, *sha));
            }
            return true;
        }
        i += 1;
    }
    false
}

/// The names of all branches.
pub(crate) fn all_branch_names(repo: &Repo) -> (r: Vec<String>)
    ensures
        names_view(r@) == branch_names(*repo),
{
    let mut r: Vec<String> = Vec::new();
    let mut i: usize = 0;
    while i < repo.branches.len()
        invariant
            i <= repo.branches.len(),
            names_view(r@) == branch_names(*repo).take(i as int),
        decreases repo.branches.len() - i,
    {
        let ghost before = r@;
        r.push(copy_string(&repo.branches[i].0.0));
        proof {
            assert(names_view(r@) =~= names_view(before).push(repo.branches@[i as int].0.0@));
            assert(branch_names(*repo).take(i + 1) =~= branch_names(*repo).take(i as int).push(
                repo.branches@[i as int].0.0@,
            ));
        }
        i += 1;
    }
    proof {
        assert(branch_names(*repo).take(repo.branches@.len() as int) =~= branch_names(*repo));
    }
    r
}

/// The first line of a text, or `default` when it has none.
pub(crate) fn first_line(text: &str, default: &str) -> (r: Vec<char>)
    ensures
        r@ == first_line_or(text@, default@),
{
    let lines = split_lines(&chars_of(text));
    if lines.len() > 0 {
        proof {
            crate::complete::lemma_deep_index(lines, 0);
        }
        crate::text::copy_chars(&lines[0])
    } else {
        chars_of(default)
    }
}

/// An empty string.
fn cleared() -> (r: String)
    ensures
        r@.len() == 0,
{
    String::new()
}

// ---------------------------------------------------------------------------
// Creating a branch
// ---------------------------------------------------------------------------

/// What a key does while a new branch is being named.
pub open spec fn creation_step(a: Action, s: State, t: State, e: Effect, sha: Sha) -> bool {
    match a {
        Action::Esc | Action::CtrlC => {
            &&& t == (State { is_creating_branch: false, branch_name: t.branch_name, ..s })
            &&& t.branch_name@.len() == 0
            &&& e is Nothing
        },
        Action::Enter => {
            &&& t == (State { is_creating_branch: false, branch_name: t.branch_name, ..s })
            &&& t.branch_name@.len() == 0
            &&& if s.branch_name@.len() > 0 {
                e matches Effect::CreateBranch(n, x) && n@ == s.branch_name@ && x == sha
            } else {
                e is Nothing
            }
        },
        Action::Backspace => {
            &&& e is Nothing
            &&& if s.branch_name@.len() == 0 {
                t == (State { is_creating_branch: false, ..s })
            } else {
                t == (State { branch_name: t.branch_name, ..s }) && t.branch_name@
                    == s.branch_name@.drop_last()
            }
        },
        _ => {
            &&& e is Nothing
            &&& match typed(a) {
                Some(c) => t == (State { branch_name: t.branch_name, ..s }) && t.branch_name@
                    == s.branch_name@.push(c),
                None => t == s,
            }
        },
    }
}

impl Action {
    pub fn execute_branch_creation_mode(&self, state: &mut State, repo: &Repo) -> (e: Effect)
        requires
            *self == Action::Enter && old(state).branch_name@.len() > 0
                ==> old(state).index_of_selected_row < repo.commits@.len(),
        ensures
            creation_step(*self, *old(state), *final(state), e, selected_sha(*repo, *old(state))),
    {
        match *self {
            Action::Esc | Action::CtrlC => {
                state.is_creating_branch = false;
                state.branch_name = cleared();
                Effect::Nothing
            },
            Action::Enter => {
                let mut e = Effect::Nothing;
                if !is_empty(state.branch_name.as_str()) {
                    let sha = selected_commit_sha(state, repo);
                    e = Effect::CreateBranch(copy_string(&state.branch_name), sha);
                }
                state.is_creating_branch = false;
                state.branch_name = cleared();
                e
            },
            Action::Backspace => {
                if is_empty(state.branch_name.as_str()) {
                    state.is_creating_branch = false;
                } else {
                    pop_char(&mut state.branch_name);
                }
                Effect::Nothing
            },
            _ => {
                match self.typed_char() {
                    Some(c) => push_char(&mut state.branch_name, c),
                    None => {},
                }
                Effect::Nothing
            },
        }
    }
}

/// What is shown once git tried to create the branch `name`.
pub fn report_branch_created(state: &mut State, name: &str, result: Result<(), String>)
    ensures
        *final(state) == (State { flash_message: final(state).flash_message, ..*old(state) }),
        shows(
            final(state).flash_message,
            match result {
                Ok(_) => "created "@ + name@,
                Err(e) => e@,
            },
        ),
{
    let message = match result {
        Ok(_) => str_then("created ", &chars_of(name)),
        Err(e) => e,
    };
    state.flash_message = flash(message);
}

// ---------------------------------------------------------------------------
// Prompts that complete branch names
// ---------------------------------------------------------------------------

/// What a key does to a prompt's text, its completion state, and the
/// prompt being open: `open` and `text` are the prompt's fields before
/// and after, `names` the branch names Tab completes to.
pub open spec fn edit_step(
    a: Action,
    s: State,
    t: State,
    text: Seq<char>,
    text2: Seq<char>,
    open2: bool,
    names: Seq<Seq<char>>,
) -> bool {
    match a {
        Action::Tab => {
            &&& open2
            &&& (text2, opt_chars(t.tab_complete_base), t.tab_complete_index as int) == completed(
                text,
                names,
                opt_chars(s.tab_complete_base),
                s.tab_complete_index as int,
            )
        },
        Action::Backspace => {
            &&& t.tab_complete_base is None && t.tab_complete_index == 0
            &&& if text.len() == 0 {
                !open2 && text2 == text
            } else {
                open2 && text2 == text.drop_last()
            }
        },
        _ => match typed(a) {
            Some(c) => t.tab_complete_base is None && t.tab_complete_index == 0 && open2 && text2
                == text.push(c),
            None => t.tab_complete_base == s.tab_complete_base && t.tab_complete_index
                == s.tab_complete_index && open2 && text2 == text,
        },
    }
}

/// The text a key leaves in a prompt after Tab, Backspace or typing.
fn edit_prompt(
    a: Action,
    text: &mut String,
    base: &mut Option<String>,
    index: &mut usize,
    names: &Vec<String>,
) -> (open: bool)
    requires
        a == Action::Tab ==> *old(index) < usize::MAX,
    ensures
        match a {
            Action::Tab => open && (final(text)@, opt_chars(*final(base)), *final(index) as int)
                == completed(old(text)@, names_view(names@), opt_chars(*old(base)), *old(index) as int),
            Action::Backspace => {
                &&& *final(base) is None && *final(index) == 0
                &&& if old(text)@.len() == 0 {
                    !open && final(text)@ == old(text)@
                } else {
                    open && final(text)@ == old(text)@.drop_last()
                }
            },
            _ => match typed(a) {
                Some(c) => *final(base) is None && *final(index) == 0 && open && final(text)@
                    == old(text)@.push(c),
                None => *final(base) == *old(base) && *final(index) == *old(index) && open
                    && final(text)@ == old(text)@,
            },
        },
{
    match a {
        Action::Tab => {
            let (completed_text, new_base, new_index) = tab_complete_branch(
                text.as_str(),
                names.as_slice(),
                base,
                *index,
            );
            *text = completed_text;
            *base = new_base;
            *index = new_index;
            true
        },
        Action::Backspace => {
            *base = None;
            *index = 0;
            if is_empty(text.as_str()) {
                false
            } else {
                pop_char(text);
                true
            }
        },
        _ => {
            match a.typed_char() {
                Some(c) => {
                    *base = None;
                    *index = 0;
                    push_char(text, c);
                },
                None => {},
            }
            true
        },
    }
}

// ---------------------------------------------------------------------------
// Deleting a branch
// ---------------------------------------------------------------------------

/// What a key does while the branch to delete is being named.
pub open spec fn deletion_step(
    a: Action,
    s: State,
    t: State,
    e: Effect,
    repo: Repo,
    local: Seq<Seq<char>>,
) -> bool {
    let name = s.delete_branch_name@;
    match a {
        Action::Esc | Action::CtrlC => {
            &&& t == (State {
                is_deleting_branch: false,
                delete_branch_name: t.delete_branch_name,
                ..s
            })
            &&& t.delete_branch_name@.len() == 0
            &&& e is Nothing
        },
        Action::Enter => {
            &&& t.delete_branch_name@.len() == 0
            &&& if name.len() > 0 && on_commit(repo, name, selected_sha(repo, s)) {
                &&& t == (State {
                    is_deleting_branch: false,
                    delete_branch_name: t.delete_branch_name,
                    ..s
                })
                &&& e matches Effect::DeleteBranch(n) && n@ == name
            } else if name.len() > 0 {
                &&& t == (State {
                    is_deleting_branch: false,
                    delete_branch_name: t.delete_branch_name,
                    flash_message: t.flash_message,
                    ..s
                })
                &&& shows(t.flash_message, "no '"@ + name + "' branch"@)
                &&& e is Nothing
            } else {
                &&& t == (State {
                    is_deleting_branch: false,
                    delete_branch_name: t.delete_branch_name,
                    ..s
                })
                &&& e is Nothing
            }
        },
        _ => {
            &&& e is Nothing
            &&& t == (State {
                is_deleting_branch: t.is_deleting_branch,
                delete_branch_name: t.delete_branch_name,
                tab_complete_base: t.tab_complete_base,
                tab_complete_index: t.tab_complete_index,
                ..s
            })
            &&& edit_step(a, s, t, name, t.delete_branch_name@, t.is_deleting_branch, local)
        },
    }
}

impl Action {
    pub fn execute_branch_deletion_mode(
        &self,
        state: &mut State,
        repo: &Repo,
        local_branches: &Vec<String>,
    ) -> (e: Effect)
        requires
            *self == Action::Tab ==> old(state).tab_complete_index < usize::MAX,
            *self == Action::Enter && old(state).delete_branch_name@.len() > 0
                ==> old(state).index_of_selected_row < repo.commits@.len(),
        ensures
            deletion_step(
                *self,
                *old(state),
                *final(state),
                e,
                *repo,
                names_view(local_branches@),
            ),
    {
        match *self {
            Action::Esc | Action::CtrlC => {
                state.is_deleting_branch = false;
                state.delete_branch_name = cleared();
                Effect::Nothing
            },
            Action::Enter => {
                let mut e = Effect::Nothing;
                if !is_empty(state.delete_branch_name.as_str()) {
                    let sha = selected_commit_sha(state, repo);
                    if branch_on_commit(repo, &state.delete_branch_name, &sha) {
                        e = Effect::DeleteBranch(copy_string(&state.delete_branch_name));
                    } else {
                        state.flash_message = flash(
                            surround(
                                "no '",
                                &chars_of(state.delete_branch_name.as_str()),
                                "' branch",
                            ),
                        );
                    }
                }
                state.is_deleting_branch = false;
                state.delete_branch_name = cleared();
                e
            },
            _ => {
                let open = edit_prompt(
                    *self,
                    &mut state.delete_branch_name,
                    &mut state.tab_complete_base,
                    &mut state.tab_complete_index,
                    local_branches,
                );
                state.is_deleting_branch = open;
                Effect::Nothing
            },
        }
    }
}

/// What is shown once git tried to delete the branch `name`: the error,
/// put plainly when it is that the branch is checked out.
pub fn report_branch_deleted(state: &mut State, name: &str, result: Result<(), String>)
    ensures
        *final(state) == (State { flash_message: final(state).flash_message, ..*old(state) }),
        shows(
            final(state).flash_message,
            match result {
                Ok(_) => "deleted "@ + name@,
                Err(e) => if occurs_in(e@, "current HEAD"@) {
                    "can't delete current branch"@
                } else {
                    e@
                },
            },
        ),
{
    let message = match result {
        Ok(_) => str_then("deleted ", &chars_of(name)),
        Err(e) => {
            if contains(&chars_of(e.as_str()), &chars_of("current HEAD")) {
                string_of(&chars_of("can't delete current branch"))
            } else {
                e
            }
        },
    };
    state.flash_message = flash(message);
}

// ---------------------------------------------------------------------------
// Checking out
// ---------------------------------------------------------------------------

/// The checkout prompt closed, its text and completion cleared.
pub open spec fn checkout_closed(s: State, t: State) -> bool {
    &&& t == (State {
        is_checking_out: false,
        checkout_branch_name: t.checkout_branch_name,
        tab_complete_base: None,
        tab_complete_index: 0,
        flash_message: t.flash_message,
        ..s
    })
    &&& t.checkout_branch_name@.len() == 0
}

/// What a key does while the branch to check out is being named.
pub open spec fn checkout_step(
    a: Action,
    s: State,
    t: State,
    e: Effect,
    repo: Repo,
    local: Seq<Seq<char>>,
) -> bool {
    let name = s.checkout_branch_name@;
    let sha = selected_sha(repo, s);
    match a {
        Action::Esc | Action::CtrlC => checkout_closed(s, t) && t.flash_message == s.flash_message
            && e is Nothing,
        Action::Enter => {
            &&& checkout_closed(s, t)
            &&& if name.len() == 0 {
                t.flash_message == s.flash_message && e == Effect::CheckoutSha(sha)
            } else if on_commit(repo, name, sha) {
                t.flash_message == s.flash_message && (e matches Effect::CheckoutBranch(n) && n@
                    == name)
            } else {
                shows(t.flash_message, "no '"@ + name + "' branch"@) && e is Nothing
            }
        },
        _ => {
            &&& e is Nothing
            &&& t == (State {
                is_checking_out: t.is_checking_out,
                checkout_branch_name: t.checkout_branch_name,
                tab_complete_base: t.tab_complete_base,
                tab_complete_index: t.tab_complete_index,
                ..s
            })
            &&& edit_step(a, s, t, name, t.checkout_branch_name@, t.is_checking_out, local)
        },
    }
}

impl Action {
    pub fn execute_checkout_mode(
        &self,
        state: &mut State,
        repo: &Repo,
        local_branches: &Vec<String>,
    ) -> (e: Effect)
        requires
            *self == Action::Tab ==> old(state).tab_complete_index < usize::MAX,
            *self == Action::Enter ==> old(state).index_of_selected_row < repo.commits@.len(),
        ensures
            checkout_step(
                *self,
                *old(state),
                *final(state),
                e,
                *repo,
                names_view(local_branches@),
            ),
    {
        match *self {
            Action::Esc | Action::CtrlC => {
                state.is_checking_out = false;
                state.checkout_branch_name = cleared();
                state.tab_complete_base = None;
                state.tab_complete_index = 0;
                Effect::Nothing
            },
            Action::Enter => {
                let sha = selected_commit_sha(state, repo);
                let mut e = Effect::Nothing;
                if is_empty(state.checkout_branch_name.as_str()) {
                    e = Effect::CheckoutSha(sha);
                } else if branch_on_commit(repo, &state.checkout_branch_name, &sha) {
                    e = Effect::CheckoutBranch(copy_string(&state.checkout_branch_name));
                } else {
                    state.flash_message = flash(
                        surround(
                            "no '",
                            &chars_of(state.checkout_branch_name.as_str()),
                            "' branch",
                        ),
                    );
                }
                state.is_checking_out = false;
                state.checkout_branch_name = cleared();
                state.tab_complete_base = None;
                state.tab_complete_index = 0;
                e
            },
            _ => {
                let open = edit_prompt(
                    *self,
                    &mut state.checkout_branch_name,
                    &mut state.tab_complete_base,
                    &mut state.tab_complete_index,
                    local_branches,
                );
                state.is_checking_out = open;
                Effect::Nothing
            },
        }
    }
}

/// What is shown once git tried to check out: `checked out` and what was
/// checked out, or the error.
pub fn report_checkout(state: &mut State, what: &Vec<char>, result: Result<(), String>)
    ensures
        *final(state) == (State { flash_message: final(state).flash_message, ..*old(state) }),
        shows(
            final(state).flash_message,
            match result {
                Ok(_) => "checked out "@ + what@,
                Err(e) => e@,
            },
        ),
{
    let message = match result {
        Ok(_) => str_then("checked out ", what),
        Err(e) => e,
    };
    state.flash_message = flash(message);
}

// ---------------------------------------------------------------------------
// Pushing
// ---------------------------------------------------------------------------

/// The push prompt closed, its text and completion cleared.
pub open spec fn push_closed(s: State, t: State) -> bool {
    &&& t == (State {
        is_pushing: false,
        push_branch_name: t.push_branch_name,
        tab_complete_base: None,
        tab_complete_index: 0,
        flash_message: t.flash_message,
        ..s
    })
    &&& t.push_branch_name@.len() == 0
}

/// What a key does while the branch to push is being named.
pub open spec fn push_step(a: Action, s: State, t: State, e: Effect, local: Seq<Seq<char>>) -> bool {
    let name = s.push_branch_name@;
    match a {
        Action::Esc | Action::CtrlC => push_closed(s, t) && t.flash_message == s.flash_message
            && e is Nothing,
        Action::Enter => {
            &&& push_closed(s, t)
            &&& if name.len() == 0 {
                shows(t.flash_message, "no branch name"@) && e is Nothing
            } else {
                t.flash_message == s.flash_message && (e matches Effect::Push(n) && n@ == name)
            }
        },
        _ => {
            &&& e is Nothing
            &&& t == (State {
                is_pushing: t.is_pushing,
                push_branch_name: t.push_branch_name,
                tab_complete_base: t.tab_complete_base,
                tab_complete_index: t.tab_complete_index,
                ..s
            })
            &&& edit_step(a, s, t, name, t.push_branch_name@, t.is_pushing, local)
        },
    }
}

impl Action {
    pub fn execute_push_mode(&self, state: &mut State, local_branches: &Vec<String>) -> (e: Effect)
        requires
            *self == Action::Tab ==> old(state).tab_complete_index < usize::MAX,
        ensures
            push_step(*self, *old(state), *final(state), e, names_view(local_branches@)),
    {
        match *self {
            Action::Esc | Action::CtrlC => {
                state.is_pushing = false;
                state.push_branch_name = cleared();
                state.tab_complete_base = None;
                state.tab_complete_index = 0;
                Effect::Nothing
            },
            Action::Enter => {
                let mut e = Effect::Nothing;
                if is_empty(state.push_branch_name.as_str()) {
                    state.flash_message = flash(string_of(&chars_of("no branch name")));
                } else {
                    e = Effect::Push(copy_string(&state.push_branch_name));
                }
                state.is_pushing = false;
                state.push_branch_name = cleared();
                state.tab_complete_base = None;
                state.tab_complete_index = 0;
                e
            },
            _ => {
                let open = edit_prompt(
                    *self,
                    &mut state.push_branch_name,
                    &mut state.tab_complete_base,
                    &mut state.tab_complete_index,
                    local_branches,
                );
                state.is_pushing = open;
                Effect::Nothing
            },
        }
    }
}

/// What a push of `branch` came to, from git's exit status and error
/// output, or the error that kept git from running.
pub open spec fn push_outcome(branch: Seq<char>, outcome: Result<(bool, String), String>) -> (
    bool,
    Seq<char>,
) {
    match outcome {
        Ok((true, _)) => (true, "pushed "@ + branch),
        Ok((false, stderr)) => (
            false,
            "push failed: "@ + first_line_or(stderr@, "unknown error"@),
        ),
        Err(e) => (false, "push failed: "@ + e@),
    }
}

/// What a push of `branch` came to, from git's exit status and error
/// output, or the error that kept git from running.
pub fn push_result(branch: &str, outcome: Result<(bool, String), String>) -> (r: PushResult)
    ensures
        (r.success, r.message@) == push_outcome(branch@, outcome),
{
    match outcome {
        Ok((true, _)) => PushResult { success: true, message: str_then("pushed ", &chars_of(branch)) },
        Ok((false, stderr)) => PushResult {
            success: false,
            message: str_then("push failed: ", &first_line(stderr.as_str(), "unknown error")),
        },
        Err(e) => PushResult {
            success: false,
            message: str_then("push failed: ", &chars_of(e.as_str())),
        },
    }
}

/// Remembers a push that has started, and where its result will come.
pub fn start_push(state: &mut State, branch_name: String, receiver: Receiver<PushResult>)
    ensures
        *final(state) == (State { push_in_progress: final(state).push_in_progress, ..*old(state) }),
        final(state).push_in_progress matches Some(p) && p.branch_name == branch_name
            && p.spinner_frame == 0,
{
    state.push_in_progress = Some(PushInProgress { branch_name, receiver, spinner_frame: 0 });
}

/// What came of asking for the result of a push.
pub enum PushPoll {
    /// The push finished with this result.
    Done(PushResult),
    /// The push is still running.
    Waiting,
    /// The thread doing the push is gone without a result.
    Died,
}

/// Takes in the result of a running push: shows it when it came (and
/// returns whether the repository should be read again), turns the
/// spinner while waiting.
pub fn poll_push(state: &mut State, poll: PushPoll) -> (refresh: bool)
    requires
        old(state).push_in_progress is Some,
    ensures
        match poll {
            PushPoll::Done(r) => {
                &&& *final(state) == (State {
                    flash_message: final(state).flash_message,
                    push_in_progress: None,
                    ..*old(state)
                })
                &&& shows(final(state).flash_message, r.message@)
                &&& refresh == r.success
            },
            PushPoll::Waiting => {
                &&& *final(state) == (State {
                    push_in_progress: final(state).push_in_progress,
                    ..*old(state)
                })
                &&& final(state).push_in_progress matches Some(p) && p.branch_name
                    == old(state).push_in_progress->0.branch_name && p.spinner_frame == (if old(
                    state,
                ).push_in_progress->0.spinner_frame < usize::MAX {
                    old(state).push_in_progress->0.spinner_frame + 1
                } else {
                    0
                })
                &&& !refresh
            },
            PushPoll::Died => {
                &&& *final(state) == (State {
                    flash_message: final(state).flash_message,
                    push_in_progress: None,
                    ..*old(state)
                })
                &&& shows(final(state).flash_message, "push failed: thread died"@)
                &&& !refresh
            },
        },
{
    match poll {
        PushPoll::Done(PushResult { success, message }) => {
            state.flash_message = flash(message);
            state.push_in_progress = None;
            success
        },
        PushPoll::Waiting => {
            match state.push_in_progress.take() {
                Some(p) => {
                    let frame = p.spinner_frame.wrapping_add(1);
                    state.push_in_progress = Some(
                        PushInProgress {
                            branch_name: p.branch_name,
                            receiver: p.receiver,
                            spinner_frame: frame,
                        },
                    );
                },
                None => {},
            }
            false
        },
        PushPoll::Died => {
            state.flash_message = flash(string_of(&chars_of("push failed: thread died")));
            state.push_in_progress = None;
            false
        },
    }
}

// ---------------------------------------------------------------------------
// Rebasing
// ---------------------------------------------------------------------------

/// What a key does while a branch to rebase is chosen among those at the
/// selected commit: Tab moves to the next one.
pub open spec fn rebase_selection_step(
    a: Action,
    s: State,
    t: State,
    local: Seq<Seq<char>>,
) -> bool {
    match a {
        Action::Esc | Action::CtrlC => {
            &&& t == (State {
                is_selecting_rebase_branch: false,
                rebase_branch: t.rebase_branch,
                tab_complete_base: None,
                tab_complete_index: 0,
                ..s
            })
            &&& t.rebase_branch@.len() == 0
        },
        Action::Enter => {
            &&& t == (State {
                is_selecting_rebase_branch: false,
                is_entering_rebase_target: true,
                rebase_target: t.rebase_target,
                tab_complete_base: None,
                tab_complete_index: 0,
                ..s
            })
            &&& t.rebase_target@.len() == 0
        },
        Action::Tab => if local.len() > 0 {
            let current = match local.index_of_first(s.rebase_branch@) {
                Some(i) => i,
                None => 0,
            };
            t == (State { rebase_branch: t.rebase_branch, ..s }) && t.rebase_branch@ == local[(current + 1) % (
            local.len() as int)]
        } else {
            t == s
        },
        _ => t == s,
    }
}

impl Action {
    pub fn execute_rebase_branch_selection_mode(
        &self,
        state: &mut State,
        local_branches: &Vec<String>,
    )
        ensures
            rebase_selection_step(*self, *old(state), *final(state), names_view(local_branches@)),
    {
        match *self {
            Action::Esc | Action::CtrlC => {
                state.is_selecting_rebase_branch = false;
                state.rebase_branch = cleared();
                state.tab_complete_base = None;
                state.tab_complete_index = 0;
            },
            Action::Enter => {
                state.is_selecting_rebase_branch = false;
                state.is_entering_rebase_target = true;
                state.rebase_target = cleared();
                state.tab_complete_base = None;
                state.tab_complete_index = 0;
            },
            Action::Tab => {
                if local_branches.len() > 0 {
                    let ghost names = names_view(local_branches@);
                    let current = chars_of(state.rebase_branch.as_str());
                    let mut idx: usize = 0;
                    let mut found = false;
                    let mut i: usize = 0;
                    while i < local_branches.len() && !found
                        invariant
                            i <= local_branches.len(),
                            names == names_view(local_branches@),
                            current@ == state.rebase_branch@,
                            idx < local_branches.len(),
                            found ==> names[idx as int] == current@ && forall|k: int|
                                0 <= k < idx ==> names[k] != current@,
                            !found ==> idx == 0 && forall|k: int| 0 <= k < i ==> names[k] != current@,
                        decreases local_branches.len() - i + (if found {
                            0int
                        } else {
                            1int
                        }),
                    {
                        if same_chars(&chars_of(local_branches[i].as_str()), &current) {
                            idx = i;
                            found = true;
                        } else {
                            i += 1;
                        }
                    }
                    proof {
                        names.index_of_first_ensures(current@);
                        if found {
                            assert(names.contains(current@));
                            let f = names.index_of_first(current@)->0;
                            assert(f == idx as int);
                        } else {
                            assert(!names.contains(current@));
                        }
                    }
                    let next = (idx + 1) % local_branches.len();
                    state.rebase_branch = copy_string(&local_branches[next]);
                    proof {
                        assert(names[next as int] == local_branches@[next as int]@);
                        assert(next as int == (idx as int + 1) % (names.len() as int));
                        let cur = match names.index_of_first(current@) {
                            Some(i) => i,
                            None => 0,
                        };
                        assert(cur == idx as int);
                        assert(state.rebase_branch@ == names[(cur + 1) % (names.len() as int)]);
                    }
                }
            },
            _ => {},
        }
    }
}

/// The rebase prompts closed and their fields cleared.
pub open spec fn rebase_closed(s: State, t: State) -> bool {
    &&& t == (State {
        is_entering_rebase_target: false,
        rebase_branch: t.rebase_branch,
        rebase_target: t.rebase_target,
        tab_complete_base: None,
        tab_complete_index: 0,
        ..s
    })
    &&& t.rebase_branch@.len() == 0
    &&& t.rebase_target@.len() == 0
}

/// What a key does while the branch to rebase onto is being named.
pub open spec fn rebase_target_step(
    a: Action,
    s: State,
    t: State,
    e: Effect,
    names: Seq<Seq<char>>,
) -> bool {
    let target = s.rebase_target@;
    match a {
        Action::Esc | Action::CtrlC => rebase_closed(s, t) && e is Nothing,
        Action::Enter => if target.len() > 0 {
            t == s && (e matches Effect::Rebase { target: x, branch: b } && x@ == target && b@
                == s.rebase_branch@)
        } else {
            rebase_closed(s, t) && e is Nothing
        },
        _ => {
            &&& e is Nothing
            &&& if a == Action::Backspace && target.len() == 0 {
                &&& t == (State {
                    is_entering_rebase_target: false,
                    rebase_branch: t.rebase_branch,
                    rebase_target: t.rebase_target,
                    tab_complete_base: None,
                    tab_complete_index: 0,
                    ..s
                })
                &&& t.rebase_branch@.len() == 0
                &&& t.rebase_target@ == target
            } else {
                &&& t == (State {
                    rebase_target: t.rebase_target,
                    tab_complete_base: t.tab_complete_base,
                    tab_complete_index: t.tab_complete_index,
                    ..s
                })
                &&& edit_step(a, s, t, target, t.rebase_target@, true, names)
            }
        },
    }
}

impl Action {
    pub fn execute_rebase_target_mode(&self, state: &mut State, repo: &Repo) -> (e: Effect)
        requires
            *self == Action::Tab ==> old(state).tab_complete_index < usize::MAX,
        ensures
            rebase_target_step(*self, *old(state), *final(state), e, branch_names(*repo)),
    {
        match *self {
            Action::Esc | Action::CtrlC => {
                state.is_entering_rebase_target = false;
                state.rebase_branch = cleared();
                state.rebase_target = cleared();
                state.tab_complete_base = None;
                state.tab_complete_index = 0;
                Effect::Nothing
            },
            Action::Enter => {
                if !is_empty(state.rebase_target.as_str()) {
                    Effect::Rebase {
                        target: copy_string(&state.rebase_target),
                        branch: copy_string(&state.rebase_branch),
                    }
                } else {
                    state.is_entering_rebase_target = false;
                    state.rebase_branch = cleared();
                    state.rebase_target = cleared();
                    state.tab_complete_base = None;
                    state.tab_complete_index = 0;
                    Effect::Nothing
                }
            },
            _ => {
                let names = all_branch_names(repo);
                let open = edit_prompt(
                    *self,
                    &mut state.rebase_target,
                    &mut state.tab_complete_base,
                    &mut state.tab_complete_index,
                    &names,
                );
                if !open {
                    state.is_entering_rebase_target = false;
                    state.rebase_branch = cleared();
                }
                Effect::Nothing
            },
        }
    }
}

/// Whether git's error output tells of a rebase stopped by conflicts.
pub open spec fn stopped_by_conflict(stderr: Seq<char>) -> bool {
    occurs_in(stderr, "CONFLICT"@) || occurs_in(stderr, "could not apply"@)
}

/// What is shown, and whether the rebase waits on conflicts, once git
/// tried to rebase: the exit status and error output, or the error that
/// kept git from running.
pub fn report_rebase(state: &mut State, outcome: Result<(bool, String), String>) -> (refresh: bool)
    ensures
        refresh == (outcome matches Ok((true, _))),
        ({
            let s = *old(state);
            let t = *final(state);
            let conflicted = outcome matches Ok((false, stderr)) && stopped_by_conflict(stderr@);
            let m = match outcome {
                Ok((true, _)) => "rebased "@ + s.rebase_branch@ + " onto "@ + s.rebase_target@,
                Ok((false, stderr)) => if stopped_by_conflict(stderr@) {
                    "conflicts - resolve then Enter to continue, Esc to abort"@
                } else {
                    "rebase failed: "@ + first_line_or(stderr@, "unknown error"@)
                },
                Err(e) => "rebase failed: "@ + e@,
            };
            &&& shows(t.flash_message, m)
            &&& if conflicted {
                t == (State {
                    is_rebase_in_progress: true,
                    is_entering_rebase_target: false,
                    flash_message: t.flash_message,
                    ..s
                })
            } else {
                rebase_closed(State { flash_message: t.flash_message, ..s }, t)
            }
        }),
{
    let mut refresh = false;
    let mut conflicted = false;
    let message = match outcome {
        Ok((true, _)) => {
            refresh = true;
            let mut v = chars_of("rebased ");
            crate::text::extend_chars(&mut v, &chars_of(state.rebase_branch.as_str()));
            crate::text::extend_chars(&mut v, &chars_of(" onto "));
            crate::text::extend_chars(&mut v, &chars_of(state.rebase_target.as_str()));
            string_of(&v)
        },
        Ok((false, stderr)) => {
            let err = chars_of(stderr.as_str());
            if contains(&err, &chars_of("CONFLICT")) || contains(&err, &chars_of("could not apply")) {
                conflicted = true;
                string_of(&chars_of("conflicts - resolve then Enter to continue, Esc to abort"))
            } else {
                str_then("rebase failed: ", &first_line(stderr.as_str(), "unknown error"))
            }
        },
        Err(e) => str_then("rebase failed: ", &chars_of(e.as_str())),
    };
    state.flash_message = flash(message);
    if conflicted {
        state.is_rebase_in_progress = true;
        state.is_entering_rebase_target = false;
    } else {
        state.is_entering_rebase_target = false;
        state.rebase_branch = cleared();
        state.rebase_target = cleared();
        state.tab_complete_base = None;
        state.tab_complete_index = 0;
    }
    refresh
}

/// A rebase that waited on conflicts is over: its prompts are closed.
pub open spec fn rebase_finished(s: State, t: State) -> bool {
    &&& t == (State {
        is_rebase_in_progress: false,
        is_entering_rebase_target: false,
        rebase_branch: t.rebase_branch,
        rebase_target: t.rebase_target,
        flash_message: t.flash_message,
        ..s
    })
    &&& t.rebase_branch@.len() == 0
    &&& t.rebase_target@.len() == 0
}

/// What a key does while a rebase waits on conflicts: Enter goes on,
/// Esc aborts.
pub open spec fn rebase_in_progress_step(a: Action, s: State, t: State, e: Effect) -> bool {
    match a {
        Action::Enter => t == s && e is ContinueRebase,
        Action::Esc | Action::CtrlC => rebase_finished(s, t) && shows(
            t.flash_message,
            "rebase aborted"@,
        ) && e is AbortRebase,
        _ => t == s && e is Nothing,
    }
}

impl Action {
    pub fn execute_rebase_in_progress_mode(&self, state: &mut State) -> (e: Effect)
        ensures
            rebase_in_progress_step(*self, *old(state), *final(state), e),
    {
        match *self {
            Action::Enter => Effect::ContinueRebase,
            Action::Esc | Action::CtrlC => {
                state.is_rebase_in_progress = false;
                state.is_entering_rebase_target = false;
                state.rebase_branch = cleared();
                state.rebase_target = cleared();
                state.flash_message = flash(string_of(&chars_of("rebase aborted")));
                Effect::AbortRebase
            },
            _ => Effect::Nothing,
        }
    }
}

/// What is shown once git tried to go on with a rebase: when it is done
/// the prompts close.
pub fn report_rebase_continued(state: &mut State, outcome: Result<bool, String>) -> (refresh: bool)
    ensures
        refresh == (outcome == Ok::<bool, String>(true)),
        match outcome {
            Ok(true) => rebase_finished(*old(state), *final(state)) && shows(
                final(state).flash_message,
                "rebase complete"@,
            ),
            Ok(false) => *final(state) == (State {
                flash_message: final(state).flash_message,
                ..*old(state)
            }) && shows(final(state).flash_message, "conflicts remain - resolve and press Enter"@),
            Err(e) => *final(state) == (State {
                flash_message: final(state).flash_message,
                ..*old(state)
            }) && shows(final(state).flash_message, "rebase --continue failed: "@ + e@),
        },
{
    match outcome {
        Ok(true) => {
            state.is_rebase_in_progress = false;
            state.is_entering_rebase_target = false;
            state.rebase_branch = cleared();
            state.rebase_target = cleared();
            state.flash_message = flash(string_of(&chars_of("rebase complete")));
            true
        },
        Ok(false) => {
            state.flash_message = flash(
                string_of(&chars_of("conflicts remain - resolve and press Enter")),
            );
            false
        },
        Err(e) => {
            state.flash_message = flash(str_then("rebase --continue failed: ", &chars_of(e.as_str())));
            false
        },
    }
}

// ---------------------------------------------------------------------------
// Reverting
// ---------------------------------------------------------------------------

/// What a key does while a revert waits to be confirmed.
pub open spec fn revert_step(a: Action, s: State, t: State, e: Effect, sha: Sha) -> bool {
    match a {
        Action::Enter => t == (State { is_confirming_revert: false, ..s }) && e == Effect::Revert(
            sha,
        ),
        Action::Esc | Action::CtrlC => t == (State { is_confirming_revert: false, ..s })
            && e is Nothing,
        _ => t == s && e is Nothing,
    }
}

impl Action {
    pub fn execute_revert_confirmation_mode(&self, state: &mut State, repo: &Repo) -> (e: Effect)
        requires
            *self == Action::Enter ==> old(state).index_of_selected_row < repo.commits@.len(),
        ensures
            revert_step(*self, *old(state), *final(state), e, selected_sha(*repo, *old(state))),
    {
        match *self {
            Action::Enter => {
                let sha = selected_commit_sha(state, repo);
                state.is_confirming_revert = false;
                Effect::Revert(sha)
            },
            Action::Esc | Action::CtrlC => {
                state.is_confirming_revert = false;
                Effect::Nothing
            },
            _ => Effect::Nothing,
        }
    }
}

/// What is shown once git tried to revert the commit `sha`.
pub fn report_revert(state: &mut State, sha: &Sha, outcome: Result<(bool, String), String>) -> (refresh: bool)
    ensures
        refresh == (outcome matches Ok((true, _))),
        *final(state) == (State { flash_message: final(state).flash_message, ..*old(state) }),
        shows(
            final(state).flash_message,
            match outcome {
                Ok((true, _)) => "reverted "@ + short_id(*sha),
                Ok((false, stderr)) => "revert failed: "@ + first_line_or(
                    stderr@,
                    "unknown error"@,
                ),
                Err(e) => "revert failed: "@ + e@,
            },
        ),
{
    match outcome {
        Ok((true, _)) => {
            state.flash_message = flash(str_then("reverted ", &sha.short_hex()));
            true
        },
        Ok((false, stderr)) => {
            state.flash_message = flash(
                str_then("revert failed: ", &first_line(stderr.as_str(), "unknown error")),
            );
            false
        },
        Err(e) => {
            state.flash_message = flash(str_then("revert failed: ", &chars_of(e.as_str())));
            false
        },
    }
}

/// Whether a commit may be reverted: git's answer to whether it is in the
/// head's history. A commit that may not be reverted is told so.
pub fn report_revertable(state: &mut State, in_head_history: bool)
    ensures
        if in_head_history {
            *final(state) == (State {
                is_confirming_revert: true,
                flash_message: None,
                ..*old(state)
            })
        } else {
            *final(state) == (State { flash_message: final(state).flash_message, ..*old(state) })
                && shows(final(state).flash_message, "can only revert commits in HEAD's history"@)
        },
{
    if in_head_history {
        state.is_confirming_revert = true;
        state.flash_message = None;
    } else {
        state.flash_message = flash(string_of(&chars_of("can only revert commits in HEAD's history")));
    }
}


// ---------------------------------------------------------------------------
// Laws
// ---------------------------------------------------------------------------

/// Backspace right after typing a character into a prompt takes the
/// character back: the prompt holds what it held before, and stays open.
pub proof fn law_backspace_undoes_typing(
    a: Action,
    s: State,
    t: State,
    u: State,
    text: Seq<char>,
    text2: Seq<char>,
    text3: Seq<char>,
    open2: bool,
    open3: bool,
    names: Seq<Seq<char>>,
)
    requires
        typed(a) is Some,
        edit_step(a, s, t, text, text2, open2, names),
        edit_step(Action::Backspace, t, u, text2, text3, open3, names),
    ensures
        text3 == text,
        open2 && open3,
{
    assert(a != Action::Tab && a != Action::Backspace);
    assert(text2 == text.push(typed(a)->0));
    assert(text2.drop_last() =~= text);
}

} // verus!
