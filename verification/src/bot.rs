//! What is done to a pull request when its vote is over: the steps to take
//! on the host of the repository, and the words that go with them.

use vstd::prelude::*;
use vstd::string::StringExecFns;
use crate::decimal::{decimal, to_decimal};
use crate::pull_request::PullRequestView;
use crate::server::{PullRequestInfo, PullRequestInfoView};
use crate::text::{chars_of, find, first_match};

verus! {

/// One step on the host of the repository.
#[derive(Clone, Debug, PartialEq, Eq)]
pub enum Action {
    /// Post `body` as a comment on the pull request.
    Comment { repo_owner: String, repo_name: String, pr_number: u64, body: String },
    /// Merge the commit `head` into the branch `base`.
    Merge { repo_owner: String, repo_name: String, head: String, base: String, commit_message: String },
    /// Close the pull request.
    Close { repo_owner: String, repo_name: String, pr_number: u64 },
}

/// One step, with its texts as sequences of characters.
pub enum ActionView {
    Comment { repo_owner: Seq<char>, repo_name: Seq<char>, pr_number: u64, body: Seq<char> },
    Merge {
        repo_owner: Seq<char>,
        repo_name: Seq<char>,
        head: Seq<char>,
        base: Seq<char>,
        commit_message: Seq<char>,
    },
    Close { repo_owner: Seq<char>, repo_name: Seq<char>, pr_number: u64 },
}

impl View for Action {
    type V = ActionView;

    open spec fn view(&self) -> ActionView {
        match *self {
            Action::Comment { repo_owner, repo_name, pr_number, body } => ActionView::Comment {
                repo_owner: repo_owner@,
                repo_name: repo_name@,
                pr_number,
                body: body@,
            },
            Action::Merge { repo_owner, repo_name, head, base, commit_message } => ActionView::Merge {
                repo_owner: repo_owner@,
                repo_name: repo_name@,
                head: head@,
                base: base@,
                commit_message: commit_message@,
            },
            Action::Close { repo_owner, repo_name, pr_number } => ActionView::Close {
                repo_owner: repo_owner@,
                repo_name: repo_name@,
                pr_number,
            },
        }
    }
}

/// The views of a list of steps.
pub open spec fn actions_view(actions: Seq<Action>) -> Seq<ActionView> {
    actions.map_values(|a: Action| a@)
}

/// Why a merge failed.
#[derive(Clone, Copy, Debug, PartialEq, Eq, Structural)]
pub enum MergeError {
    /// The two branches are in conflict.
    Conflict,
    /// Anything else.
    Other,
}

/// How a vote ended, in words: `R accepted, L denied.`
pub open spec fn tally_text(left: nat, right: nat) -> Seq<char> {
    decimal(right) + " accepted, "@ + decimal(left) + " denied."@
}

/// The comment that announces a merge. Without a vote in favour it says that
/// nobody voted.
pub open spec fn merge_comment(left: nat, right: nat) -> Seq<char> {
    if right == 0 {
        "No one voted, so this PR is automatically accepted!"@
    } else {
        "The people have spoken and have accepted this PR! "@ + tally_text(left, right)
    }
}

/// The message of the merge commit.
pub open spec fn merge_commit_message(branch: Seq<char>, left: nat, right: nat) -> Seq<char> {
    "The people have merged "@ + branch + ", "@ + tally_text(left, right)
}

/// The comment that announces a denial. Without a vote against it says that
/// nobody voted.
pub open spec fn deny_comment(left: nat, right: nat) -> Seq<char> {
    if left == 0 {
        "No one voted, so this PR is automatically denied!"@
    } else {
        "The people have spoken and have denied this PR! "@ + tally_text(left, right)
    }
}

/// The comment that reports a conflict.
pub open spec fn conflict_comment() -> Seq<char> {
    "The people wanted to merge this PR, but there was a merge conflict. Please resolve the conflict and try again."@
}

/// The comment with `body` on the pull request of `record`.
pub open spec fn comment_on(record: PullRequestView, body: Seq<char>) -> ActionView {
    ActionView::Comment {
        repo_owner: record.repo_owner,
        repo_name: record.repo_name,
        pr_number: record.pr_number,
        body,
    }
}

/// The steps that merge a pull request: a comment that gives the tally, then
/// the merge of its head commit into its destination branch. A record
/// without a credential names no head commit, and gets the comment alone.
pub open spec fn merge_steps(info: PullRequestInfoView) -> Seq<ActionView> {
    let record = info.pull_request;
    let comment = comment_on(record, merge_comment(info.left_votes, info.right_votes));
    match record.key {
        Some(head) => seq![
            comment,
            ActionView::Merge {
                repo_owner: record.repo_owner,
                repo_name: record.repo_name,
                head,
                base: record.branch_to_merge_into,
                commit_message: merge_commit_message(
                    record.branch_to_merge,
                    info.left_votes,
                    info.right_votes,
                ),
            },
        ],
        None => seq![comment],
    }
}

/// The steps that deny a pull request: a comment that gives the tally, then
/// its closing.
pub open spec fn deny_steps(info: PullRequestInfoView) -> Seq<ActionView> {
    let record = info.pull_request;
    seq![
        comment_on(record, deny_comment(info.left_votes, info.right_votes)),
        ActionView::Close {
            repo_owner: record.repo_owner,
            repo_name: record.repo_name,
            pr_number: record.pr_number,
        },
    ]
}

/// Whether the message of a failed merge speaks of a conflict.
pub open spec fn is_conflict(message: Seq<char>) -> bool {
    first_match(message, "Merge conflict"@, 0) is Some
}

/// What follows a failed merge: a comment where it failed on a conflict,
/// nothing otherwise.
pub open spec fn failure_step(record: PullRequestView, error: MergeError) -> Option<ActionView> {
    match error {
        MergeError::Conflict => Some(comment_on(record, conflict_comment())),
        MergeError::Other => None,
    }
}

/// `R accepted, L denied.`
fn write_tally(left: usize, right: usize) -> (s: String)
    ensures
        s@ == tally_text(left as nat, right as nat),
{
    let mut s = to_decimal(right);
    s.append(" accepted, ");
    s.append(to_decimal(left).as_str());
    s.append(" denied.");
    s
}

/// The comment that announces a merge.
fn write_merge_comment(left: usize, right: usize) -> (s: String)
    ensures
        s@ == merge_comment(left as nat, right as nat),
{
    if right == 0 {
        String::from_str("No one voted, so this PR is automatically accepted!")
    } else {
        let mut s = String::from_str("The people have spoken and have accepted this PR! ");
        s.append(write_tally(left, right).as_str());
        s
    }
}

/// The message of the merge commit.
fn write_merge_commit_message(branch: &str, left: usize, right: usize) -> (s: String)
    ensures
        s@ == merge_commit_message(branch@, left as nat, right as nat),
{
    let mut s = String::from_str("The people have merged ");
    s.append(branch);
    s.append(", ");
    s.append(write_tally(left, right).as_str());
    assert(s@ == merge_commit_message(branch@, left as nat, right as nat));
    s
}

/// The comment that announces a denial.
fn write_deny_comment(left: usize, right: usize) -> (s: String)
    ensures
        s@ == deny_comment(left as nat, right as nat),
{
    if left == 0 {
        String::from_str("No one voted, so this PR is automatically denied!")
    } else {
        let mut s = String::from_str("The people have spoken and have denied this PR! ");
        s.append(write_tally(left, right).as_str());
        s
    }
}

/// The steps that merge the pull request of `potential_merge`.
pub fn merge(potential_merge: &PullRequestInfo) -> (steps: Vec<Action>)
    ensures
        actions_view(steps@) == merge_steps(potential_merge@),
{
    let record = &potential_merge.pull_request;
    let left = potential_merge.left_votes;
    let right = potential_merge.right_votes;
    let mut steps: Vec<Action> = Vec::new();
    let comment = Action::Comment {
        repo_owner: record.repo_owner.clone(),
        repo_name: record.repo_name.clone(),
        pr_number: record.pr_number,
        body: write_merge_comment(left, right),
    };
    steps.push(comment);
    match &record.key {
        Some(head) => {
            let merging = Action::Merge {
                repo_owner: record.repo_owner.clone(),
                repo_name: record.repo_name.clone(),
                head: head.clone(),
                base: record.branch_to_merge_into.clone(),
                commit_message: write_merge_commit_message(
                    record.branch_to_merge.as_str(),
                    left,
                    right,
                ),
            };
            steps.push(merging);
            assert(actions_view(steps@) == seq![comment@, merging@]);
        },
        None => {
            assert(actions_view(steps@) == seq![comment@]);
        },
    }
    steps
}

/// The steps that deny the pull request of `potential_merge`.
pub fn deny_merge(potential_merge: &PullRequestInfo) -> (steps: Vec<Action>)
    ensures
        actions_view(steps@) == deny_steps(potential_merge@),
{
    let record = &potential_merge.pull_request;
    let comment = Action::Comment {
        repo_owner: record.repo_owner.clone(),
        repo_name: record.repo_name.clone(),
        pr_number: record.pr_number,
        body: write_deny_comment(potential_merge.left_votes, potential_merge.right_votes),
    };
    let closing = Action::Close {
        repo_owner: record.repo_owner.clone(),
        repo_name: record.repo_name.clone(),
        pr_number: record.pr_number,
    };
    let mut steps: Vec<Action> = Vec::new();
    steps.push(comment);
    steps.push(closing);
    assert(actions_view(steps@) == seq![comment@, closing@]);
    steps
}

impl MergeError {
    /// Tells a conflict from any other failure by the message that the host
    /// gave: one that holds the words `Merge conflict` reports a conflict.
    pub fn from_message(message: &str) -> (error: MergeError)
        ensures
            error == if is_conflict(message@) {
                MergeError::Conflict
            } else {
                MergeError::Other
            },
    {
        let text = chars_of(message);
        let words = chars_of("Merge conflict");
        match find(text.as_slice(), words.as_slice()) {
            Some(_) => MergeError::Conflict,
            None => MergeError::Other,
        }
    }
}

/// What follows a merge of the pull request of `potential_merge` that failed
/// with `error`.
pub fn merge_failed(potential_merge: &PullRequestInfo, error: MergeError) -> (step: Option<Action>)
    ensures
        match step {
            Some(action) => failure_step(potential_merge@.pull_request, error) == Some(action@),
            None => failure_step(potential_merge@.pull_request, error) is None,
        },
{
    let record = &potential_merge.pull_request;
    match error {
        MergeError::Conflict => Some(
            Action::Comment {
                repo_owner: record.repo_owner.clone(),
                repo_name: record.repo_name.clone(),
                pr_number: record.pr_number,
                body: String::from_str(
                    "The people wanted to merge this PR, but there was a merge conflict. Please resolve the conflict and try again.",
                ),
            },
        ),
        MergeError::Other => None,
    }
}

} // verus!
