use gitlucky::pull_request::{
    EventAction, Field, PullRequestEvent, ValidationError,
};
use gitlucky::{Direction, PullRequest};

fn event() -> PullRequestEvent {
    PullRequestEvent {
        action: EventAction::Opened,
        mergeable: Some(true),
        number: Some(467),
        diff_url: Some("https://github.com/bob/site/pull/467.diff".to_string()),
        title: Some("Add a page".to_string()),
        additions: Some(12),
        deletions: Some(3),
        changed_files: Some(2),
        author: Some("alice".to_string()),
        profile_pic_url: Some("https://avatars.example/u/1".to_string()),
        head_label: Some("alice:feat".to_string()),
        head_sha: Some("0123abcd".to_string()),
        base_label: Some("bob:main".to_string()),
        repo_owner: Some("bob".to_string()),
        repo_name: Some("site".to_string()),
    }
}

fn record() -> PullRequest {
    PullRequest {
        diff_url: "https://github.com/bob/site/pull/467.diff".to_string(),
        title: "Add a page".to_string(),
        additions: 12,
        deletions: 3,
        changed_files: 2,
        author: "alice".to_string(),
        repo_name: "site".to_string(),
        key: Some("0123abcd".to_string()),
        branch_to_merge: "feat".to_string(),
        branch_to_merge_into: "main".to_string(),
        pr_number: 467,
        repo_owner: "bob".to_string(),
        profile_pic_url: "https://avatars.example/u/1".to_string(),
    }
}

#[test]
fn record_of_a_full_event() {
    assert_eq!(PullRequest::new_from_payload(event()), Ok(record()));
}

#[test]
fn labels_give_their_branch() {
    let built = PullRequest::new_from_payload(event()).unwrap();
    assert_eq!(built.branch_to_merge, "feat");
    assert_eq!(built.branch_to_merge_into, "main");
    let mut e = event();
    e.head_label = Some("alice:feat:more".to_string());
    e.base_label = Some("bob:".to_string());
    let built = PullRequest::new_from_payload(e).unwrap();
    assert_eq!(built.branch_to_merge, "feat");
    assert_eq!(built.branch_to_merge_into, "");
}

#[test]
fn label_without_a_colon_names_no_branch() {
    let mut e = event();
    e.head_label = Some("feat".to_string());
    assert_eq!(
        PullRequest::new_from_payload(e),
        Err(ValidationError::NoBranch(Field::HeadLabel))
    );
    let mut e = event();
    e.base_label = Some("".to_string());
    assert_eq!(
        PullRequest::new_from_payload(e),
        Err(ValidationError::NoBranch(Field::BaseLabel))
    );
    let mut e = event();
    e.head_label = Some("feat".to_string());
    e.base_label = Some("main".to_string());
    assert_eq!(
        PullRequest::new_from_payload(e),
        Err(ValidationError::NoBranch(Field::HeadLabel))
    );
}

#[test]
fn each_missing_field_is_named() {
    let cases: Vec<(fn(&mut PullRequestEvent), Field)> = vec![
        (|e| e.diff_url = None, Field::DiffUrl),
        (|e| e.title = None, Field::Title),
        (|e| e.additions = None, Field::Additions),
        (|e| e.deletions = None, Field::Deletions),
        (|e| e.changed_files = None, Field::ChangedFiles),
        (|e| e.author = None, Field::Author),
        (|e| e.profile_pic_url = None, Field::ProfilePicUrl),
        (|e| e.repo_owner = None, Field::RepoOwner),
        (|e| e.number = None, Field::Number),
        (|e| e.head_sha = None, Field::HeadSha),
        (|e| e.head_label = None, Field::HeadLabel),
        (|e| e.base_label = None, Field::BaseLabel),
    ];
    for (remove, field) in cases {
        let mut e = event();
        remove(&mut e);
        assert_eq!(PullRequest::new_from_payload(e), Err(ValidationError::Missing(field)));
    }
}

#[test]
fn first_missing_field_wins() {
    let mut e = event();
    e.title = None;
    e.author = None;
    e.head_label = Some("nocolon".to_string());
    assert_eq!(PullRequest::new_from_payload(e), Err(ValidationError::Missing(Field::Title)));
    let mut e = event();
    e.base_label = None;
    e.head_label = Some("nocolon".to_string());
    assert_eq!(
        PullRequest::new_from_payload(e),
        Err(ValidationError::Missing(Field::BaseLabel))
    );
}

#[test]
fn repo_name_falls_back_to_the_diff_url() {
    let mut e = event();
    e.repo_name = None;
    e.diff_url = Some("https://github.com/DioxusLabs/docsite/pull/467.diff".to_string());
    let built = PullRequest::new_from_payload(e).unwrap();
    assert_eq!(built.repo_name, "docsite");
    let mut e = event();
    e.repo_name = Some("explicit".to_string());
    e.diff_url = Some("https://github.com/DioxusLabs/docsite/pull/467.diff".to_string());
    let built = PullRequest::new_from_payload(e).unwrap();
    assert_eq!(built.repo_name, "explicit");
    let mut e = event();
    e.repo_name = None;
    e.diff_url = Some("https://github.com/DioxusLabs".to_string());
    assert_eq!(
        PullRequest::new_from_payload(e),
        Err(ValidationError::Missing(Field::RepoName))
    );
}

#[test]
fn credential_is_the_head_commit() {
    let built = PullRequest::new_from_payload(event()).unwrap();
    assert_eq!(built.key, Some("0123abcd".to_string()));
    let public = built.without_key();
    assert_eq!(public.key, None);
    assert_eq!(public, PullRequest { key: None, ..record() });
}

#[test]
fn audio_path() {
    assert_eq!(
        record().get_audio_path(),
        "data/https://github.com/bob/site/pull/467.diff.mp3"
    );
    let mut r = record();
    r.diff_url = String::new();
    assert_eq!(r.get_audio_path(), "data/.mp3");
}

#[test]
fn clone_is_equal() {
    assert_eq!(record().clone(), record());
    let d = Direction::Left;
    assert_eq!(d.clone(), Direction::Left);
    assert_ne!(Direction::Left, Direction::Right);
}
