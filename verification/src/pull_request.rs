//! The record of a pull request under vote, and how one is built from the
//! event that announced it.

use vstd::prelude::*;
use vstd::string::StringExecFns;
use crate::text::{chars_of, nth_segment, segment, string_of};

verus! {

/// Which way a vote was cast: `Left` denies, `Right` accepts.
#[derive(Clone, Copy, Debug, PartialEq, Eq, Structural)]
pub enum Direction {
    Left,
    Right,
}

/// A pull request under vote. `diff_url` identifies it. `key` is the
/// credential that authorizes its merge; it is never handed to the public.
#[derive(Debug, PartialEq, Eq)]
pub struct PullRequest {
    pub diff_url: String,
    pub title: String,
    pub additions: usize,
    pub deletions: usize,
    pub changed_files: usize,
    pub author: String,
    pub repo_name: String,
    pub key: Option<String>,
    pub branch_to_merge: String,
    pub branch_to_merge_into: String,
    pub pr_number: u64,
    pub repo_owner: String,
    pub profile_pic_url: String,
}

/// A pull request under vote, with its texts as sequences of characters.
pub struct PullRequestView {
    pub diff_url: Seq<char>,
    pub title: Seq<char>,
    pub additions: usize,
    pub deletions: usize,
    pub changed_files: usize,
    pub author: Seq<char>,
    pub repo_name: Seq<char>,
    pub key: Option<Seq<char>>,
    pub branch_to_merge: Seq<char>,
    pub branch_to_merge_into: Seq<char>,
    pub pr_number: u64,
    pub repo_owner: Seq<char>,
    pub profile_pic_url: Seq<char>,
}

impl PullRequestView {
    /// The record as the public may see it: without the credential.
    pub open spec fn public(self) -> PullRequestView {
        PullRequestView { key: None, ..self }
    }
}

impl View for PullRequest {
    type V = PullRequestView;

    open spec fn view(&self) -> PullRequestView {
        PullRequestView {
            diff_url: self.diff_url@,
            title: self.title@,
            additions: self.additions,
            deletions: self.deletions,
            changed_files: self.changed_files,
            author: self.author@,
            repo_name: self.repo_name@,
            key: match self.key {
                Some(key) => Some(key@),
                None => None,
            },
            branch_to_merge: self.branch_to_merge@,
            branch_to_merge_into: self.branch_to_merge_into@,
            pr_number: self.pr_number,
            repo_owner: self.repo_owner@,
            profile_pic_url: self.profile_pic_url@,
        }
    }
}

impl Clone for PullRequest {
    fn clone(&self) -> (r: Self)
        ensures
            r@ == self@,
    {
        PullRequest {
            diff_url: self.diff_url.clone(),
            title: self.title.clone(),
            additions: self.additions,
            deletions: self.deletions,
            changed_files: self.changed_files,
            author: self.author.clone(),
            repo_name: self.repo_name.clone(),
            key: match &self.key {
                Some(key) => Some(key.clone()),
                None => None,
            },
            branch_to_merge: self.branch_to_merge.clone(),
            branch_to_merge_into: self.branch_to_merge_into.clone(),
            pr_number: self.pr_number,
            repo_owner: self.repo_owner.clone(),
            profile_pic_url: self.profile_pic_url.clone(),
        }
    }
}

/// What happened to the pull request that an event speaks of.
#[derive(Clone, Copy, Debug, PartialEq, Eq, Structural)]
pub enum EventAction {
    Opened,
    Reopened,
    /// Anything else: closed, edited, labeled and so on.
    Other,
}

/// The part of a pull-request event that the vote needs. A field that the
/// sender left out is `None`.
#[derive(Clone, Debug, PartialEq, Eq)]
pub struct PullRequestEvent {
    pub action: EventAction,
    /// Whether the host says that the pull request can be merged.
    pub mergeable: Option<bool>,
    pub number: Option<u64>,
    pub diff_url: Option<String>,
    pub title: Option<String>,
    pub additions: Option<usize>,
    pub deletions: Option<usize>,
    pub changed_files: Option<usize>,
    /// The login of the user who opened the pull request.
    pub author: Option<String>,
    /// The address of that user's picture.
    pub profile_pic_url: Option<String>,
    /// The source branch, as `owner:branch`.
    pub head_label: Option<String>,
    /// The commit at the head of the source branch.
    pub head_sha: Option<String>,
    /// The destination branch, as `owner:branch`.
    pub base_label: Option<String>,
    /// The login of the owner of the repository that is merged into.
    pub repo_owner: Option<String>,
    /// The name of that repository.
    pub repo_name: Option<String>,
}

/// A field of an event.
#[derive(Clone, Copy, Debug, PartialEq, Eq, Structural)]
pub enum Field {
    DiffUrl,
    Title,
    Additions,
    Deletions,
    ChangedFiles,
    Author,
    ProfilePicUrl,
    RepoName,
    RepoOwner,
    Number,
    HeadSha,
    HeadLabel,
    BaseLabel,
}

/// Why no record can be built from an event.
#[derive(Clone, Copy, Debug, PartialEq, Eq, Structural)]
pub enum ValidationError {
    /// The event lacks this field.
    Missing(Field),
    /// This label has no `:`, so it names no branch.
    NoBranch(Field),
}

/// The view of a text that may be absent.
pub open spec fn text_view(s: Option<String>) -> Option<Seq<char>> {
    match s {
        Some(s) => Some(s@),
        None => None,
    }
}

/// The branch that a label `owner:branch` names: what stands between its
/// first and its second `:`, or after its first where it has no second.
pub open spec fn branch_of(label: Seq<char>) -> Option<Seq<char>> {
    segment(label, ':', 1)
}

/// The name of the repository of an event: the field that gives it, or else
/// the fifth of the pieces into which `/` parts the diff URL, which in
/// `https://host/owner/name/pull/1.diff` is `name`.
pub open spec fn repo_name_of(repo_name: Option<Seq<char>>, diff_url: Seq<char>) -> Option<
    Seq<char>,
> {
    match repo_name {
        Some(name) => Some(name),
        None => segment(diff_url, '/', 4),
    }
}

/// The first field that `event` lacks, in the order in which a record takes
/// them.
pub open spec fn missing_field(event: PullRequestEvent) -> Option<Field> {
    if event.diff_url is None {
        Some(Field::DiffUrl)
    } else if event.title is None {
        Some(Field::Title)
    } else if event.additions is None {
        Some(Field::Additions)
    } else if event.deletions is None {
        Some(Field::Deletions)
    } else if event.changed_files is None {
        Some(Field::ChangedFiles)
    } else if event.author is None {
        Some(Field::Author)
    } else if event.profile_pic_url is None {
        Some(Field::ProfilePicUrl)
    } else if repo_name_of(text_view(event.repo_name), event.diff_url->0@) is None {
        Some(Field::RepoName)
    } else if event.repo_owner is None {
        Some(Field::RepoOwner)
    } else if event.number is None {
        Some(Field::Number)
    } else if event.head_sha is None {
        Some(Field::HeadSha)
    } else if event.head_label is None {
        Some(Field::HeadLabel)
    } else if event.base_label is None {
        Some(Field::BaseLabel)
    } else {
        None
    }
}

/// The record that `event` describes. Every field must be there, and both
/// labels must name a branch. The credential is the head commit.
pub open spec fn record_of(event: PullRequestEvent) -> Result<PullRequestView, ValidationError> {
    match missing_field(event) {
        Some(field) => Err(ValidationError::Missing(field)),
        None => match (branch_of(event.head_label->0@), branch_of(event.base_label->0@)) {
            (None, _) => Err(ValidationError::NoBranch(Field::HeadLabel)),
            (Some(_), None) => Err(ValidationError::NoBranch(Field::BaseLabel)),
            (Some(branch_to_merge), Some(branch_to_merge_into)) => Ok(
                PullRequestView {
                    diff_url: event.diff_url->0@,
                    title: event.title->0@,
                    additions: event.additions->0,
                    deletions: event.deletions->0,
                    changed_files: event.changed_files->0,
                    author: event.author->0@,
                    repo_name: repo_name_of(text_view(event.repo_name), event.diff_url->0@)->0,
                    key: Some(event.head_sha->0@),
                    branch_to_merge,
                    branch_to_merge_into,
                    pr_number: event.number->0,
                    repo_owner: event.repo_owner->0@,
                    profile_pic_url: event.profile_pic_url->0@,
                },
            ),
        },
    }
}

/// The branch that `label` names.
fn read_branch(label: &str) -> (r: Option<String>)
    ensures
        text_view(r) == branch_of(label@),
{
    let chars = chars_of(label);
    match nth_segment(chars.as_slice(), ':', 1) {
        Some(branch) => Some(string_of(branch)),
        None => None,
    }
}

/// The name of the repository: `repo_name`, or else what `diff_url` gives.
fn read_repo_name(repo_name: Option<String>, diff_url: &str) -> (r: Option<String>)
    ensures
        text_view(r) == repo_name_of(text_view(repo_name), diff_url@),
{
    match repo_name {
        Some(name) => Some(name),
        None => {
            let chars = chars_of(diff_url);
            match nth_segment(chars.as_slice(), '/', 4) {
                Some(name) => Some(string_of(name)),
                None => None,
            }
        },
    }
}

impl PullRequest {
    /// Where the narration of this pull request is kept.
    pub fn get_audio_path(&self) -> (path: String)
        ensures
            path@ == "data/"@ + self.diff_url@ + ".mp3"@,
    {
        let mut path = String::from_str("data/");
        path.append(self.diff_url.as_str());
        path.append(".mp3");
        path
    }

    /// The record without its credential, as the public may see it.
    pub fn without_key(&self) -> (r: PullRequest)
        ensures
            r@ == self@.public(),
    {
        let mut r = self.clone();
        r.key = None;
        r
    }

    /// Builds the record of the pull request that `payload` announces. It
    /// fails with the first field that is missing, or with the first label
    /// that names no branch.
    pub fn new_from_payload(payload: PullRequestEvent) -> (r: Result<PullRequest, ValidationError>)
        ensures
            match r {
                Ok(record) => record_of(payload) == Ok::<_, ValidationError>(record@),
                Err(e) => record_of(payload) == Err::<PullRequestView, _>(e),
            },
    {
        let PullRequestEvent {
            action: _,
            mergeable: _,
            number,
            diff_url,
            title,
            additions,
            deletions,
            changed_files,
            author,
            profile_pic_url,
            head_label,
            head_sha,
            base_label,
            repo_owner,
            repo_name,
        } = payload;
        let diff_url = match diff_url {
            Some(v) => v,
            None => {
                return Err(ValidationError::Missing(Field::DiffUrl));
            },
        };
        let title = match title {
            Some(v) => v,
            None => {
                return Err(ValidationError::Missing(Field::Title));
            },
        };
        let additions = match additions {
            Some(v) => v,
            None => {
                return Err(ValidationError::Missing(Field::Additions));
            },
        };
        let deletions = match deletions {
            Some(v) => v,
            None => {
                return Err(ValidationError::Missing(Field::Deletions));
            },
        };
        let changed_files = match changed_files {
            Some(v) => v,
            None => {
                return Err(ValidationError::Missing(Field::ChangedFiles));
            },
        };
        let author = match author {
            Some(v) => v,
            None => {
                return Err(ValidationError::Missing(Field::Author));
            },
        };
        let profile_pic_url = match profile_pic_url {
            Some(v) => v,
            None => {
                return Err(ValidationError::Missing(Field::ProfilePicUrl));
            },
        };
        let repo_name = match read_repo_name(repo_name, diff_url.as_str()) {
            Some(v) => v,
            None => {
                return Err(ValidationError::Missing(Field::RepoName));
            },
        };
        let repo_owner = match repo_owner {
            Some(v) => v,
            None => {
                return Err(ValidationError::Missing(Field::RepoOwner));
            },
        };
        let number = match number {
            Some(v) => v,
            None => {
                return Err(ValidationError::Missing(Field::Number));
            },
        };
        let head_sha = match head_sha {
            Some(v) => v,
            None => {
                return Err(ValidationError::Missing(Field::HeadSha));
            },
        };
        let head_label = match head_label {
            Some(v) => v,
            None => {
                return Err(ValidationError::Missing(Field::HeadLabel));
            },
        };
        let base_label = match base_label {
            Some(v) => v,
            None => {
                return Err(ValidationError::Missing(Field::BaseLabel));
            },
        };
        let branch_to_merge = match read_branch(head_label.as_str()) {
            Some(v) => v,
            None => {
                return Err(ValidationError::NoBranch(Field::HeadLabel));
            },
        };
        let branch_to_merge_into = match read_branch(base_label.as_str()) {
            Some(v) => v,
            None => {
                return Err(ValidationError::NoBranch(Field::BaseLabel));
            },
        };
        Ok(
            PullRequest {
                diff_url,
                title,
                additions,
                deletions,
                changed_files,
                author,
                repo_name,
                key: Some(head_sha),
                branch_to_merge,
                branch_to_merge_into,
                pr_number: number,
                repo_owner,
                profile_pic_url,
            },
        )
    }
}

} // verus!
