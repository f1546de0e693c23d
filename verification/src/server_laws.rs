//! What holds of the store whatever the votes and whenever they come.

use vstd::prelude::*;
use crate::bot::{comment_on, deny_steps, merge_steps};
use crate::pull_request::Direction;
use crate::server::{
    accepted, after_votes, can_vote, count_votes, distinct_keys, entry_of, final_steps, inserted,
    key_of, last_with_key, lemma_distinct_keys, lemma_position, lemma_position_is, position,
    public_records, removed, restored, timer_of, voted, votes_fit, with_vote,
    PullRequestInfoView, Vote, MERGE_SECONDS,
};

verus! {

/// The store is a map from keys to entries, and an insertion is an
/// insertion into that map: afterwards the key of the new entry has that
/// entry, and every other key has the entry that it had.
pub proof fn lemma_entry_after_insert(
    entries: Seq<PullRequestInfoView>,
    entry: PullRequestInfoView,
    key: Seq<char>,
)
    ensures
        entry_of(inserted(entries, entry), key) == if key == key_of(entry) {
            Some(entry)
        } else {
            entry_of(entries, key)
        },
{
    let after = inserted(entries, entry);
    lemma_position(entries, key_of(entry), 0);
    lemma_position(entries, key, 0);
    match position(entries, key, 0) {
        Some(i) => {
            assert forall|j: int| 0 <= j < i implies key_of(#[trigger] after[j]) != key by {
                assert(key_of(entries[j]) != key);
            }
            lemma_position_is(after, key, 0, i);
        },
        None => {
            if key == key_of(entry) {
                lemma_position_is(after, key, 0, entries.len() as int);
            } else {
                assert forall|j: int| 0 <= j < after.len() implies key_of(#[trigger] after[j])
                    != key by {
                    if j < entries.len() {
                        assert(key_of(entries[j]) != key);
                    }
                }
                lemma_position_is(after, key, 0, after.len() as int);
            }
        },
    }
}

/// A vote is an update of the map at one key: afterwards the key that was
/// voted on has its entry with one more vote, if it had an entry, and every
/// other key has the entry that it had.
pub proof fn lemma_entry_after_vote(
    entries: Seq<PullRequestInfoView>,
    voted_key: Seq<char>,
    direction: Direction,
    key: Seq<char>,
)
    ensures
        entry_of(voted(entries, voted_key, direction), key) == if key == voted_key {
            match entry_of(entries, key) {
                Some(entry) => Some(with_vote(entry, direction)),
                None => None,
            }
        } else {
            entry_of(entries, key)
        },
{
    let after = voted(entries, voted_key, direction);
    lemma_position(entries, voted_key, 0);
    lemma_position(entries, key, 0);
    match position(entries, key, 0) {
        Some(i) => {
            assert forall|j: int| 0 <= j < i implies key_of(#[trigger] after[j]) != key by {
                assert(key_of(entries[j]) != key);
            }
            lemma_position_is(after, key, 0, i);
        },
        None => {
            assert forall|j: int| 0 <= j < after.len() implies key_of(#[trigger] after[j])
                != key by {
                assert(key_of(entries[j]) != key);
            }
            lemma_position_is(after, key, 0, after.len() as int);
        },
    }
}

/// A removal is a removal from the map: afterwards the key that was removed
/// has no entry, and every other key has the entry that it had.
pub proof fn lemma_entry_after_remove(
    entries: Seq<PullRequestInfoView>,
    removed_key: Seq<char>,
    key: Seq<char>,
)
    requires
        distinct_keys(entries),
    ensures
        entry_of(removed(entries, removed_key), key) == if key == removed_key {
            None
        } else {
            entry_of(entries, key)
        },
{
    let after = removed(entries, removed_key);
    lemma_position(entries, removed_key, 0);
    lemma_position(entries, key, 0);
    match position(entries, removed_key, 0) {
        Some(r) => {
            match position(entries, key, 0) {
                Some(i) => {
                    if key == removed_key {
                        assert forall|j: int| 0 <= j < after.len() implies key_of(
                            #[trigger] after[j],
                        ) != key by {
                            if j < r {
                                assert(after[j] == entries[j]);
                            } else {
                                assert(after[j] == entries[j + 1]);
                            }
                        }
                        lemma_position_is(after, key, 0, after.len() as int);
                    } else {
                        let place = if i < r {
                            i
                        } else {
                            i - 1
                        };
                        assert(after[place] == entries[i]);
                        assert forall|j: int| 0 <= j < place implies key_of(#[trigger] after[j])
                            != key by {
                            if j < r {
                                assert(after[j] == entries[j]);
                            } else {
                                assert(after[j] == entries[j + 1]);
                            }
                        }
                        lemma_position_is(after, key, 0, place);
                    }
                },
                None => {
                    assert forall|j: int| 0 <= j < after.len() implies key_of(#[trigger] after[j])
                        != key by {
                        if j < r {
                            assert(after[j] == entries[j]);
                        } else {
                            assert(after[j] == entries[j + 1]);
                        }
                    }
                    lemma_position_is(after, key, 0, after.len() as int);
                },
            }
        },
        None => {},
    }
}

/// What is written down of a store at shutdown fills a store with the same
/// entries in the same order.
pub proof fn lemma_snapshot_restores(entries: Seq<PullRequestInfoView>)
    requires
        distinct_keys(entries),
    ensures
        restored(entries) == entries,
    decreases entries.len(),
{
    if entries.len() > 0 {
        let earlier = entries.drop_last();
        lemma_snapshot_restores(earlier);
        assert forall|j: int| 0 <= j < earlier.len() implies key_of(#[trigger] earlier[j])
            != key_of(entries.last()) by {
            assert(earlier[j] == entries[j]);
        }
        lemma_position_is(earlier, key_of(entries.last()), 0, earlier.len() as int);
        assert(earlier.push(entries.last()) == entries);
    }
}

/// A store that is filled from a snapshot has for each key the last entry
/// that the snapshot has for it, and no two entries with the same key.
pub proof fn lemma_restored_entry(snapshot: Seq<PullRequestInfoView>, key: Seq<char>)
    ensures
        distinct_keys(restored(snapshot)),
        entry_of(restored(snapshot), key) == last_with_key(snapshot, key),
    decreases snapshot.len(),
{
    if snapshot.len() > 0 {
        lemma_restored_entry(snapshot.drop_last(), key);
        lemma_distinct_keys(
            restored(snapshot.drop_last()),
            snapshot.last(),
            key,
            Direction::Left,
        );
        lemma_entry_after_insert(restored(snapshot.drop_last()), snapshot.last(), key);
    }
}

/// No record that the public is shown holds a credential.
pub proof fn lemma_public_records_hide_the_key(entries: Seq<PullRequestInfoView>)
    ensures
        forall|i: int|
            0 <= i < public_records(entries).len() ==> (#[trigger] public_records(
                entries,
            )[i]).key is None,
{
}

/// Votes change nothing but the counts, and keep the keys distinct.
pub proof fn lemma_votes_keep_entries(entries: Seq<PullRequestInfoView>, votes: Seq<Vote>)
    requires
        distinct_keys(entries),
    ensures
        distinct_keys(after_votes(entries, votes)),
        after_votes(entries, votes).len() == entries.len(),
        forall|i: int|
            0 <= i < entries.len() ==> {
                &&& (#[trigger] after_votes(entries, votes)[i]).pull_request
                    == entries[i].pull_request
                &&& after_votes(entries, votes)[i].creation_time == entries[i].creation_time
            },
    decreases votes.len(),
{
    if votes.len() > 0 {
        let before = after_votes(entries, votes.drop_last());
        lemma_votes_keep_entries(entries, votes.drop_last());
        lemma_position(before, votes.last().key, 0);
        lemma_distinct_keys(before, before[0], votes.last().key, votes.last().direction);
    }
}

/// No vote is lost: after any sequence of votes, on whatever keys and in
/// whatever order, each entry has the votes that it had, and one more for
/// each vote of the sequence that was cast on its key in that direction.
pub proof fn lemma_votes_are_counted(entries: Seq<PullRequestInfoView>, votes: Seq<Vote>)
    requires
        distinct_keys(entries),
    ensures
        after_votes(entries, votes).len() == entries.len(),
        forall|i: int|
            0 <= i < entries.len() ==> {
                &&& (#[trigger] after_votes(entries, votes)[i]).left_votes == entries[i].left_votes
                    + count_votes(votes, key_of(entries[i]), Direction::Left)
                &&& after_votes(entries, votes)[i].right_votes == entries[i].right_votes
                    + count_votes(votes, key_of(entries[i]), Direction::Right)
            },
    decreases votes.len(),
{
    if votes.len() > 0 {
        let before = after_votes(entries, votes.drop_last());
        let vote = votes.last();
        lemma_votes_are_counted(entries, votes.drop_last());
        lemma_votes_keep_entries(entries, votes.drop_last());
        lemma_position(before, vote.key, 0);
        assert forall|i: int| 0 <= i < entries.len() implies {
            &&& (#[trigger] after_votes(entries, votes)[i]).left_votes == entries[i].left_votes
                + count_votes(votes, key_of(entries[i]), Direction::Left)
            &&& after_votes(entries, votes)[i].right_votes == entries[i].right_votes + count_votes(
                votes,
                key_of(entries[i]),
                Direction::Right,
            )
        } by {
            assert(key_of(before[i]) == key_of(entries[i]));
        }
    }
}

/// The votes of a sequence on one key in one direction are as many as the
/// sequence, taken as a multiset, holds of that vote.
pub proof fn lemma_count_votes(votes: Seq<Vote>, key: Seq<char>, direction: Direction)
    ensures
        count_votes(votes, key, direction) == votes.to_multiset().count(Vote { key, direction }),
    decreases votes.len(),
{
    broadcast use vstd::seq_lib::group_to_multiset_ensures;

    if votes.len() > 0 {
        lemma_count_votes(votes.drop_last(), key, direction);
        assert(votes == votes.drop_last().push(votes.last()));
    }
}

/// The counts of `entry` have room for the votes that `votes` casts on it:
/// in each direction in which it gets a vote, what it has and what it gets
/// is no more than the largest `usize`.
pub open spec fn has_room(entry: PullRequestInfoView, votes: Seq<Vote>) -> bool {
    &&& count_votes(votes, key_of(entry), Direction::Left) > 0 ==> entry.left_votes + count_votes(
        votes,
        key_of(entry),
        Direction::Left,
    ) <= usize::MAX
    &&& count_votes(votes, key_of(entry), Direction::Right) > 0 ==> entry.right_votes
        + count_votes(votes, key_of(entry), Direction::Right) <= usize::MAX
}

/// Every entry has room for the votes that `votes` casts on it.
pub open spec fn all_have_room(entries: Seq<PullRequestInfoView>, votes: Seq<Vote>) -> bool {
    forall|i: int| 0 <= i < entries.len() ==> has_room(#[trigger] entries[i], votes)
}

/// Whether votes can be cast one after the other depends on how many they
/// are for each key and direction, not on their order: they can exactly if
/// every entry has room for those that are cast on it.
pub proof fn lemma_votes_fit(entries: Seq<PullRequestInfoView>, votes: Seq<Vote>)
    requires
        distinct_keys(entries),
    ensures
        votes_fit(entries, votes) == all_have_room(entries, votes),
    decreases votes.len(),
{
    if votes.len() == 0 {
        assert(all_have_room(entries, votes));
    } else {
        let earlier = votes.drop_last();
        let vote = votes.last();
        let before = after_votes(entries, earlier);
        lemma_votes_fit(entries, earlier);
        lemma_votes_keep_entries(entries, earlier);
        lemma_votes_are_counted(entries, earlier);
        lemma_position(before, vote.key, 0);
        assert forall|i: int| 0 <= i < entries.len() implies key_of(#[trigger] before[i])
            == key_of(entries[i]) by {}
        if votes_fit(entries, votes) {
            assert forall|i: int| 0 <= i < entries.len() implies has_room(
                #[trigger] entries[i],
                votes,
            ) by {
                assert(has_room(entries[i], earlier));
                if key_of(entries[i]) == vote.key {
                    assert(key_of(before[i]) == vote.key);
                    lemma_position_is_the_entry(before, vote.key, i);
                }
            }
        }
        if all_have_room(entries, votes) {
            assert forall|i: int| 0 <= i < entries.len() implies has_room(
                #[trigger] entries[i],
                earlier,
            ) by {
                assert(has_room(entries[i], votes));
            }
            match position(before, vote.key, 0) {
                Some(i) => {
                    assert(key_of(before[i]) == key_of(entries[i]));
                    assert(has_room(entries[i], votes));
                },
                None => {},
            }
        }
    }
}

/// Among entries with distinct keys, the entry with a key is the one that
/// is found for it.
proof fn lemma_position_is_the_entry(entries: Seq<PullRequestInfoView>, key: Seq<char>, i: int)
    requires
        distinct_keys(entries),
        0 <= i < entries.len(),
        key_of(entries[i]) == key,
    ensures
        position(entries, key, 0) == Some(i),
{
    assert forall|j: int| 0 <= j < i implies key_of(#[trigger] entries[j]) != key by {}
    lemma_position_is(entries, key, 0, i);
}

/// The order of the votes does not matter: two sequences that hold the same
/// votes, each as often as the other, leave the same store, and the votes
/// of the one can be cast one after the other exactly if those of the other
/// can.
pub proof fn lemma_vote_order(
    entries: Seq<PullRequestInfoView>,
    first: Seq<Vote>,
    second: Seq<Vote>,
)
    requires
        distinct_keys(entries),
        first.to_multiset() == second.to_multiset(),
    ensures
        after_votes(entries, first) == after_votes(entries, second),
        votes_fit(entries, first) == votes_fit(entries, second),
{
    lemma_votes_fit(entries, first);
    lemma_votes_fit(entries, second);
    assert forall|i: int| 0 <= i < entries.len() implies has_room(#[trigger] entries[i], first)
        == has_room(entries[i], second) by {
        lemma_count_votes(first, key_of(entries[i]), Direction::Left);
        lemma_count_votes(second, key_of(entries[i]), Direction::Left);
        lemma_count_votes(first, key_of(entries[i]), Direction::Right);
        lemma_count_votes(second, key_of(entries[i]), Direction::Right);
    }
    lemma_votes_keep_entries(entries, first);
    lemma_votes_keep_entries(entries, second);
    lemma_votes_are_counted(entries, first);
    lemma_votes_are_counted(entries, second);
    let a = after_votes(entries, first);
    let b = after_votes(entries, second);
    assert forall|i: int| 0 <= i < entries.len() implies a[i] == b[i] by {
        lemma_count_votes(first, key_of(entries[i]), Direction::Left);
        lemma_count_votes(second, key_of(entries[i]), Direction::Left);
        lemma_count_votes(first, key_of(entries[i]), Direction::Right);
        lemma_count_votes(second, key_of(entries[i]), Direction::Right);
    }
    assert(a =~= b);
}

/// A vote on a key without an entry changes nothing: it adds no entry and
/// alters none.
pub proof fn lemma_vote_on_absent_key(
    entries: Seq<PullRequestInfoView>,
    key: Seq<char>,
    direction: Direction,
)
    requires
        entry_of(entries, key) is None,
    ensures
        voted(entries, key, direction) == entries,
{
}

/// A vote ends in a merge exactly if no more voted against than in favour,
/// and in a denial otherwise. Without any vote it ends in a merge, and the
/// comment says that the pull request was accepted because nobody voted.
pub proof fn lemma_verdict(entry: PullRequestInfoView)
    ensures
        entry.right_votes >= entry.left_votes ==> final_steps(entry) == merge_steps(entry),
        entry.right_votes < entry.left_votes ==> final_steps(entry) == deny_steps(entry),
        entry.left_votes == 0 && entry.right_votes == 0 ==> accepted(entry) && final_steps(
            entry,
        )[0] == comment_on(
            entry.pull_request,
            "No one voted, so this PR is automatically accepted!"@,
        ),
{
}

/// An entry whose time is over when the store is restored gets a timer
/// without delay.
pub proof fn lemma_expired_timer(entry: PullRequestInfoView, now: i64)
    requires
        now - entry.creation_time >= MERGE_SECONDS,
    ensures
        timer_of(entry, now).delay_seconds == 0,
{
}

} // verus!
