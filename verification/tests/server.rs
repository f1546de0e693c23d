use gitlucky::bot::Action;
use gitlucky::pull_request::{EventAction, Field, PullRequestEvent, ValidationError};
use gitlucky::server::{
    remaining_delay, Ingest, PullRequestInfo, Server, Timer, MERGE_MINUTES, MERGE_SECONDS,
};
use gitlucky::{Direction, PullRequest};

fn event(diff_url: &str) -> PullRequestEvent {
    PullRequestEvent {
        action: EventAction::Opened,
        mergeable: Some(true),
        number: Some(7),
        diff_url: Some(diff_url.to_string()),
        title: Some("title".to_string()),
        additions: Some(1),
        deletions: Some(2),
        changed_files: Some(3),
        author: Some("alice".to_string()),
        profile_pic_url: Some("pic".to_string()),
        head_label: Some("alice:feat".to_string()),
        head_sha: Some("sha".to_string()),
        base_label: Some("bob:main".to_string()),
        repo_owner: Some("bob".to_string()),
        repo_name: Some("site".to_string()),
    }
}

fn record(diff_url: &str) -> PullRequest {
    PullRequest {
        diff_url: diff_url.to_string(),
        title: "title".to_string(),
        additions: 1,
        deletions: 2,
        changed_files: 3,
        author: "alice".to_string(),
        repo_name: "site".to_string(),
        key: Some("sha".to_string()),
        branch_to_merge: "feat".to_string(),
        branch_to_merge_into: "main".to_string(),
        pr_number: 7,
        repo_owner: "bob".to_string(),
        profile_pic_url: "pic".to_string(),
    }
}

fn entry(diff_url: &str, left_votes: usize, right_votes: usize, creation_time: i64) -> PullRequestInfo {
    PullRequestInfo { pull_request: record(diff_url), left_votes, right_votes, creation_time }
}

fn timer(diff_url: &str, delay_seconds: u64) -> Timer {
    Timer { diff_url: diff_url.to_string(), delay_seconds }
}

fn votes(server: &Server, diff_url: &str) -> Option<(usize, usize)> {
    server.votes(&diff_url.to_string())
}

#[test]
fn the_vote_lasts_a_day() {
    assert_eq!(MERGE_MINUTES, 1440);
    assert_eq!(MERGE_SECONDS, 86400);
}

#[test]
fn new_store_is_empty() {
    let server = Server::new();
    assert_eq!(server.len(), 0);
    assert!(server.get_all_prs().is_empty());
    assert!(server.shutdown().is_empty());
    assert_eq!(server.get_random_pr(), None);
}

#[test]
fn ingest_vote_twice_and_finalize() {
    let mut server = Server::new();
    let outcome = server.ingest(event("D1"), 1000);
    assert_eq!(outcome, Ingest::Armed(timer("D1", 86400)));
    let stored = server.shutdown();
    assert_eq!(stored, vec![entry("D1", 0, 0, 1000)]);
    assert_eq!(stored[0].pull_request.branch_to_merge, "feat");
    assert_eq!(stored[0].pull_request.branch_to_merge_into, "main");
    server.vote_on_pr("D1".to_string(), Direction::Right);
    server.vote_on_pr("D1".to_string(), Direction::Right);
    assert_eq!(votes(&server, "D1"), Some((0, 2)));
    let verdict = server.finalize_vote("D1".to_string()).unwrap();
    assert!(verdict.merged);
    assert_eq!(verdict.record, entry("D1", 0, 2, 1000));
    assert_eq!(verdict.steps.len(), 2);
    match &verdict.steps[0] {
        Action::Comment { body, pr_number, repo_owner, repo_name } => {
            assert!(body.contains("2 accepted, 0 denied"));
            assert_eq!(
                body,
                "The people have spoken and have accepted this PR! 2 accepted, 0 denied."
            );
            assert_eq!((*pr_number, repo_owner.as_str(), repo_name.as_str()), (7, "bob", "site"));
        }
        other => panic!("{:?}", other),
    }
    match &verdict.steps[1] {
        Action::Merge { head, base, commit_message, .. } => {
            assert!(commit_message.contains("2 accepted, 0 denied"));
            assert_eq!(head, "sha");
            assert_eq!(base, "main");
        }
        other => panic!("{:?}", other),
    }
    assert_eq!(server.len(), 0);
    assert_eq!(votes(&server, "D1"), None);
}

#[test]
fn votes_are_counted_for_each_key() {
    let mut server = Server::new();
    server.insert(entry("A", 0, 0, 0));
    server.insert(entry("B", 3, 4, 0));
    let cast = [
        ("A", Direction::Left),
        ("B", Direction::Right),
        ("A", Direction::Right),
        ("C", Direction::Left),
        ("A", Direction::Left),
        ("B", Direction::Left),
        ("A", Direction::Left),
    ];
    for (key, direction) in cast {
        server.vote_on_pr(key.to_string(), direction);
    }
    assert_eq!(votes(&server, "A"), Some((3, 1)));
    assert_eq!(votes(&server, "B"), Some((4, 5)));
    assert_eq!(votes(&server, "C"), None);
    let mut other = Server::new();
    other.insert(entry("A", 0, 0, 0));
    other.insert(entry("B", 3, 4, 0));
    for (key, direction) in cast.iter().rev() {
        other.vote_on_pr(key.to_string(), *direction);
    }
    assert_eq!(other.shutdown(), server.shutdown());
}

#[test]
fn vote_on_an_absent_key_changes_nothing() {
    let mut server = Server::new();
    server.vote_on_pr("nowhere".to_string(), Direction::Left);
    assert_eq!(server.len(), 0);
    server.insert(entry("A", 1, 2, 3));
    let before = server.shutdown();
    server.vote_on_pr("B".to_string(), Direction::Right);
    server.vote_on_pr("".to_string(), Direction::Left);
    assert_eq!(server.shutdown(), before);
    assert_eq!(votes(&server, "B"), None);
}

#[test]
fn insert_replaces_the_entry_with_the_same_key() {
    let mut server = Server::new();
    server.insert(entry("A", 1, 1, 10));
    server.insert(entry("B", 2, 2, 20));
    server.insert(entry("A", 0, 0, 30));
    assert_eq!(server.shutdown(), vec![entry("A", 0, 0, 30), entry("B", 2, 2, 20)]);
    assert_eq!(server.len(), 2);
}

#[test]
fn public_queries_hide_the_credential() {
    let mut server = Server::new();
    server.insert(entry("A", 0, 0, 0));
    server.insert(entry("B", 0, 0, 0));
    let all = server.get_all_prs();
    assert_eq!(
        all,
        vec![PullRequest { key: None, ..record("A") }, PullRequest { key: None, ..record("B") }]
    );
    assert_eq!(server.pr_at(1), PullRequest { key: None, ..record("B") });
    for _ in 0..200 {
        let sampled = server.get_random_pr().unwrap();
        assert_eq!(sampled.key, None);
        assert!(all.contains(&sampled));
    }
    assert_eq!(server.shutdown()[0].pull_request.key, Some("sha".to_string()));
}

#[test]
fn random_sample_reaches_every_entry() {
    let mut server = Server::new();
    server.insert(entry("only", 0, 0, 0));
    for _ in 0..50 {
        assert_eq!(server.get_random_pr().unwrap().diff_url, "only");
    }
    server.insert(entry("A", 0, 0, 0));
    server.insert(entry("B", 0, 0, 0));
    let mut seen = [false; 3];
    for _ in 0..2000 {
        match server.get_random_pr().unwrap().diff_url.as_str() {
            "only" => seen[0] = true,
            "A" => seen[1] = true,
            "B" => seen[2] = true,
            other => panic!("{}", other),
        }
    }
    assert_eq!(seen, [true, true, true]);
}

#[test]
fn finalize_denies_when_more_voted_against() {
    let mut server = Server::new();
    server.insert(entry("A", 3, 2, 0));
    let verdict = server.finalize_vote("A".to_string()).unwrap();
    assert!(!verdict.merged);
    assert_eq!(
        verdict.steps,
        vec![
            Action::Comment {
                repo_owner: "bob".to_string(),
                repo_name: "site".to_string(),
                pr_number: 7,
                body: "The people have spoken and have denied this PR! 2 accepted, 3 denied."
                    .to_string(),
            },
            Action::Close { repo_owner: "bob".to_string(), repo_name: "site".to_string(), pr_number: 7 },
        ]
    );
}

#[test]
fn finalize_merges_on_a_tie() {
    let mut server = Server::new();
    server.insert(entry("A", 4, 4, 0));
    let verdict = server.finalize_vote("A".to_string()).unwrap();
    assert!(verdict.merged);
    match &verdict.steps[0] {
        Action::Comment { body, .. } => assert_eq!(
            body,
            "The people have spoken and have accepted this PR! 4 accepted, 4 denied."
        ),
        other => panic!("{:?}", other),
    }
    assert!(matches!(verdict.steps[1], Action::Merge { .. }));
}

#[test]
fn finalize_without_votes_accepts() {
    let mut server = Server::new();
    server.insert(entry("A", 0, 0, 0));
    let verdict = server.finalize_vote("A".to_string()).unwrap();
    assert!(verdict.merged);
    match &verdict.steps[0] {
        Action::Comment { body, .. } => {
            assert_eq!(body, "No one voted, so this PR is automatically accepted!")
        }
        other => panic!("{:?}", other),
    }
    assert!(matches!(verdict.steps[1], Action::Merge { .. }));
}

#[test]
fn finalize_removes_exactly_once() {
    let mut server = Server::new();
    server.insert(entry("A", 0, 1, 0));
    server.insert(entry("B", 0, 1, 0));
    server.insert(entry("C", 0, 1, 0));
    assert!(server.finalize_vote("B".to_string()).is_some());
    assert_eq!(server.finalize_vote("B".to_string()), None);
    assert_eq!(server.finalize_vote("never".to_string()), None);
    assert_eq!(server.shutdown(), vec![entry("A", 0, 1, 0), entry("C", 0, 1, 0)]);
    server.vote_on_pr("B".to_string(), Direction::Left);
    assert_eq!(server.len(), 2);
}

#[test]
fn remaining_delay_is_what_is_left_of_the_window() {
    assert_eq!(remaining_delay(86400, 1000, 1000), 86400);
    assert_eq!(remaining_delay(86400, 1000, 1060), 86340);
    assert_eq!(remaining_delay(86400, 1000, 87399), 1);
    assert_eq!(remaining_delay(86400, 1000, 87400), 0);
    assert_eq!(remaining_delay(86400, 1000, 87401), 0);
    assert_eq!(remaining_delay(86400, 0, 3 * 86400), 0);
    assert_eq!(remaining_delay(86400, 2000, 1000), 87400);
    assert_eq!(remaining_delay(0, 5, 5), 0);
    assert_eq!(remaining_delay(10, -5, 0), 5);
    assert_eq!(remaining_delay(86400, i64::MIN, i64::MAX), 0);
    assert_eq!(remaining_delay(86400, i64::MAX, i64::MIN), u64::MAX);
    assert_eq!(remaining_delay(u64::MAX, 0, 1), u64::MAX - 1);
    assert_eq!(remaining_delay(u64::MAX, 1, 0), u64::MAX);
}

#[test]
fn restore_fills_the_store_and_arms_each_entry() {
    let snapshot = vec![
        entry("A", 1, 2, 1_000_000),
        entry("B", 0, 0, 1_000_000 - 86_400),
        entry("C", 5, 0, 1_000_000 - 3 * 86_400),
        entry("D", 0, 7, 1_000_000 - 600),
    ];
    let mut server = Server::new();
    server.insert(entry("stale", 9, 9, 9));
    let timers = server.restore(&snapshot, 1_000_000);
    assert_eq!(
        timers,
        vec![timer("A", 86_400), timer("B", 0), timer("C", 0), timer("D", 85_800)]
    );
    assert_eq!(server.shutdown(), snapshot);
    assert_eq!(votes(&server, "stale"), None);
    assert_eq!(votes(&server, "D"), Some((0, 7)));
}

#[test]
fn restore_keeps_the_last_entry_of_a_key() {
    let snapshot = vec![entry("A", 1, 1, 100), entry("B", 2, 2, 100), entry("A", 3, 3, 200)];
    let mut server = Server::new();
    let timers = server.restore(&snapshot, 300);
    assert_eq!(
        timers,
        vec![timer("A", 86_200), timer("B", 86_200), timer("A", 86_300)]
    );
    assert_eq!(server.shutdown(), vec![entry("A", 3, 3, 200), entry("B", 2, 2, 100)]);
    let mut server = Server::new();
    assert!(server.restore(&vec![], 0).is_empty());
    assert_eq!(server.len(), 0);
}

#[test]
fn load_prs_arms_by_the_clock() {
    let snapshot = vec![entry("old", 0, 0, 0), entry("far", 0, 0, i64::MAX)];
    let mut server = Server::new();
    let timers = server.load_prs(&snapshot);
    assert_eq!(timers.len(), 2);
    assert_eq!(timers[0], timer("old", 0));
    assert_eq!(timers[1].diff_url, "far");
    assert!(timers[1].delay_seconds > 86_400);
    assert_eq!(server.shutdown(), snapshot);
}

#[test]
fn other_events_are_ignored() {
    let mut server = Server::new();
    let mut e = event("A");
    e.action = EventAction::Other;
    assert_eq!(server.ingest(e, 0), Ingest::Ignored);
    let mut e = event("A");
    e.mergeable = Some(false);
    assert_eq!(server.ingest(e, 0), Ingest::Ignored);
    let mut e = event("A");
    e.mergeable = None;
    assert_eq!(server.ingest(e, 0), Ingest::Ignored);
    let mut e = event("A");
    e.action = EventAction::Other;
    e.title = None;
    assert_eq!(server.ingest(e, 0), Ingest::Ignored);
    assert_eq!(server.len(), 0);
    let mut e = event("A");
    e.action = EventAction::Reopened;
    assert_eq!(server.ingest(e, 5), Ingest::Armed(timer("A", 86_400)));
    assert_eq!(server.shutdown(), vec![entry("A", 0, 0, 5)]);
}

#[test]
fn invalid_events_change_nothing() {
    let mut server = Server::new();
    server.insert(entry("A", 1, 1, 1));
    let mut e = event("B");
    e.title = None;
    assert_eq!(server.ingest(e, 0), Ingest::Invalid(ValidationError::Missing(Field::Title)));
    let mut e = event("B");
    e.base_label = Some("main".to_string());
    assert_eq!(server.ingest(e, 0), Ingest::Invalid(ValidationError::NoBranch(Field::BaseLabel)));
    assert_eq!(server.shutdown(), vec![entry("A", 1, 1, 1)]);
}

#[test]
fn an_event_for_a_known_key_starts_the_vote_again() {
    let mut server = Server::new();
    assert_eq!(server.ingest(event("A"), 10), Ingest::Armed(timer("A", 86_400)));
    server.vote_on_pr("A".to_string(), Direction::Left);
    assert_eq!(server.ingest(event("A"), 20), Ingest::Armed(timer("A", 86_400)));
    assert_eq!(server.shutdown(), vec![entry("A", 0, 0, 20)]);
}

#[test]
fn webhook_handler_takes_the_time_from_the_clock() {
    let mut server = Server::new();
    assert_eq!(server.webhook_handler(event("A")), Ingest::Armed(timer("A", 86_400)));
    let stored = server.shutdown();
    assert_eq!(stored.len(), 1);
    assert_eq!(stored[0].pull_request, record("A"));
    assert_eq!((stored[0].left_votes, stored[0].right_votes), (0, 0));
    assert!(stored[0].creation_time > 1_600_000_000);
    let mut e = event("B");
    e.action = EventAction::Other;
    assert_eq!(server.webhook_handler(e), Ingest::Ignored);
    assert_eq!(server.len(), 1);
}

#[test]
fn snapshot_restores_to_the_same_store() {
    let mut server = Server::new();
    server.ingest(event("A"), 100);
    server.ingest(event("B"), 200);
    server.vote_on_pr("A".to_string(), Direction::Left);
    server.vote_on_pr("B".to_string(), Direction::Right);
    let snapshot = server.shutdown();
    let mut restored = Server::new();
    let timers = restored.restore(&snapshot, 300);
    assert_eq!(timers, vec![timer("A", 86_200), timer("B", 86_300)]);
    assert_eq!(restored.shutdown(), snapshot);
    assert_eq!(votes(&restored, "A"), Some((1, 0)));
    assert_eq!(votes(&restored, "B"), Some((0, 1)));
    assert_eq!(snapshot[0].clone(), snapshot[0]);
}
