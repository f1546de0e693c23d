//! The votes in flight: the store of the pull requests under vote, the
//! timers that end the votes, and what is written down of the store and
//! read back.

use vstd::prelude::*;
use crate::bot::{actions_view, deny_merge, deny_steps, merge, merge_steps, Action, ActionView};
use crate::outside::{current_timestamp, random_index};
use crate::pull_request::{
    record_of, Direction, EventAction, PullRequest, PullRequestEvent, PullRequestView,
    ValidationError,
};

verus! {

/// A pull request under vote, the votes cast so far, and when the vote
/// began, in seconds since the Unix epoch.
#[derive(Debug, PartialEq, Eq)]
pub struct PullRequestInfo {
    pub pull_request: PullRequest,
    pub left_votes: usize,
    pub right_votes: usize,
    pub creation_time: i64,
}

/// An entry of the store, with its texts as sequences of characters and its
/// votes as natural numbers.
pub struct PullRequestInfoView {
    pub pull_request: PullRequestView,
    pub left_votes: nat,
    pub right_votes: nat,
    pub creation_time: i64,
}

impl View for PullRequestInfo {
    type V = PullRequestInfoView;

    open spec fn view(&self) -> PullRequestInfoView {
        PullRequestInfoView {
            pull_request: self.pull_request@,
            left_votes: self.left_votes as nat,
            right_votes: self.right_votes as nat,
            creation_time: self.creation_time,
        }
    }
}

impl Clone for PullRequestInfo {
    fn clone(&self) -> (r: Self)
        ensures
            r@ == self@,
    {
        PullRequestInfo {
            pull_request: self.pull_request.clone(),
            left_votes: self.left_votes,
            right_votes: self.right_votes,
            creation_time: self.creation_time,
        }
    }
}

/// How long a vote lasts, in minutes: one day.
pub const MERGE_MINUTES: u64 = 60 * 24;

/// How long a vote lasts, in seconds.
pub const MERGE_SECONDS: u64 = 60 * MERGE_MINUTES;

/// The time that is left of a vote of `window` seconds that began at
/// `creation_time`, when the clock shows `now`: `window - (now -
/// creation_time)`, but 0 where that is negative, and the largest `u64`
/// where it is above that.
pub open spec fn remaining(window: u64, creation_time: i64, now: i64) -> int {
    let left = window - (now - creation_time);
    if left < 0 {
        0
    } else if left > u64::MAX {
        u64::MAX as int
    } else {
        left
    }
}

/// The time in seconds that is left of a vote of `window` seconds that began
/// at `creation_time`, when the clock shows `now`. A vote whose time is over
/// has none left.
pub fn remaining_delay(window: u64, creation_time: i64, now: i64) -> (delay: u64)
    ensures
        delay == remaining(window, creation_time, now),
        now - creation_time >= window ==> delay == 0,
{
    let elapsed: i128 = now as i128 - creation_time as i128;
    let left: i128 = window as i128 - elapsed;
    if left < 0 {
        0
    } else if left > u64::MAX as i128 {
        u64::MAX
    } else {
        left as u64
    }
}

/// The order to end the vote on a pull request after a delay.
#[derive(Debug, PartialEq, Eq)]
pub struct Timer {
    pub diff_url: String,
    pub delay_seconds: u64,
}

/// A timer, with its key as a sequence of characters.
pub struct TimerView {
    pub diff_url: Seq<char>,
    pub delay_seconds: u64,
}

impl View for Timer {
    type V = TimerView;

    open spec fn view(&self) -> TimerView {
        TimerView { diff_url: self.diff_url@, delay_seconds: self.delay_seconds }
    }
}

/// The views of a list of entries.
pub open spec fn infos_view(entries: Seq<PullRequestInfo>) -> Seq<PullRequestInfoView> {
    entries.map_values(|e: PullRequestInfo| e@)
}

/// The views of a list of records.
pub open spec fn records_view(records: Seq<PullRequest>) -> Seq<PullRequestView> {
    records.map_values(|r: PullRequest| r@)
}

/// The views of a list of timers.
pub open spec fn timers_view(timers: Seq<Timer>) -> Seq<TimerView> {
    timers.map_values(|t: Timer| t@)
}

/// The key of an entry: the diff URL of its pull request.
pub open spec fn key_of(entry: PullRequestInfoView) -> Seq<char> {
    entry.pull_request.diff_url
}

/// No two entries have the same key.
pub open spec fn distinct_keys(entries: Seq<PullRequestInfoView>) -> bool {
    forall|i: int, j: int|
        0 <= i < j < entries.len() ==> key_of(#[trigger] entries[i]) != key_of(
            #[trigger] entries[j],
        )
}

/// The place of the first entry at or after `from` that has the key `key`.
pub open spec fn position(entries: Seq<PullRequestInfoView>, key: Seq<char>, from: int) -> Option<
    int,
>
    decreases entries.len() - from,
{
    if from < 0 || from >= entries.len() {
        None
    } else if key_of(entries[from]) == key {
        Some(from)
    } else {
        position(entries, key, from + 1)
    }
}

/// The entries after `entry` was inserted: it takes the place of the entry
/// with its key, or the last place where there is none.
pub open spec fn inserted(entries: Seq<PullRequestInfoView>, entry: PullRequestInfoView) -> Seq<
    PullRequestInfoView,
> {
    match position(entries, key_of(entry), 0) {
        Some(i) => entries.update(i, entry),
        None => entries.push(entry),
    }
}

/// An entry with one more vote.
pub open spec fn with_vote(entry: PullRequestInfoView, direction: Direction) -> PullRequestInfoView {
    match direction {
        Direction::Left => PullRequestInfoView { left_votes: entry.left_votes + 1, ..entry },
        Direction::Right => PullRequestInfoView { right_votes: entry.right_votes + 1, ..entry },
    }
}

/// The entries after a vote on `key`: its entry has one more vote. A vote on
/// a key without an entry changes nothing.
pub open spec fn voted(entries: Seq<PullRequestInfoView>, key: Seq<char>, direction: Direction) -> Seq<
    PullRequestInfoView,
> {
    match position(entries, key, 0) {
        Some(i) => entries.update(i, with_vote(entries[i], direction)),
        None => entries,
    }
}

/// The entries without the entry of `key`.
pub open spec fn removed(entries: Seq<PullRequestInfoView>, key: Seq<char>) -> Seq<
    PullRequestInfoView,
> {
    match position(entries, key, 0) {
        Some(i) => entries.remove(i),
        None => entries,
    }
}

/// The entry of `key`.
pub open spec fn entry_of(entries: Seq<PullRequestInfoView>, key: Seq<char>) -> Option<
    PullRequestInfoView,
> {
    match position(entries, key, 0) {
        Some(i) => Some(entries[i]),
        None => None,
    }
}

/// The entries after the entries of `snapshot` were inserted one by one into
/// an empty store.
pub open spec fn restored(snapshot: Seq<PullRequestInfoView>) -> Seq<PullRequestInfoView>
    decreases snapshot.len(),
{
    if snapshot.len() == 0 {
        seq![]
    } else {
        inserted(restored(snapshot.drop_last()), snapshot.last())
    }
}

/// The last entry of `entries` that has the key `key`.
pub open spec fn last_with_key(entries: Seq<PullRequestInfoView>, key: Seq<char>) -> Option<
    PullRequestInfoView,
>
    decreases entries.len(),
{
    if entries.len() == 0 {
        None
    } else if key_of(entries.last()) == key {
        Some(entries.last())
    } else {
        last_with_key(entries.drop_last(), key)
    }
}

/// Whether the entry of `key`, if there is one, can take one more vote: the
/// count that the vote raises is below the largest `usize`.
pub open spec fn can_vote(entries: Seq<PullRequestInfoView>, key: Seq<char>, direction: Direction) -> bool {
    match entry_of(entries, key) {
        Some(entry) => match direction {
            Direction::Left => entry.left_votes < usize::MAX,
            Direction::Right => entry.right_votes < usize::MAX,
        },
        None => true,
    }
}

/// The records of the entries, as the public may see them.
pub open spec fn public_records(entries: Seq<PullRequestInfoView>) -> Seq<PullRequestView> {
    entries.map_values(|e: PullRequestInfoView| e.pull_request.public())
}

/// The timer of an entry when the clock shows `now`.
pub open spec fn timer_of(entry: PullRequestInfoView, now: i64) -> TimerView {
    TimerView {
        diff_url: key_of(entry),
        delay_seconds: remaining(MERGE_SECONDS, entry.creation_time, now) as u64,
    }
}

/// The timers of the entries of a snapshot when the clock shows `now`, one
/// for each entry and in their order.
pub open spec fn timers_of(snapshot: Seq<PullRequestInfoView>, now: i64) -> Seq<TimerView> {
    snapshot.map_values(|e: PullRequestInfoView| timer_of(e, now))
}

/// A vote ends in a merge unless more voted against than in favour.
pub open spec fn accepted(entry: PullRequestInfoView) -> bool {
    entry.right_votes >= entry.left_votes
}

/// The steps that end the vote on `entry`.
pub open spec fn final_steps(entry: PullRequestInfoView) -> Seq<ActionView> {
    if accepted(entry) {
        merge_steps(entry)
    } else {
        deny_steps(entry)
    }
}

/// An event is taken up if it says that a pull request was opened or
/// reopened, and that it can be merged.
pub open spec fn accepts(event: PullRequestEvent) -> bool {
    &&& event.action == EventAction::Opened || event.action == EventAction::Reopened
    &&& event.mergeable == Some(true)
}

/// What became of an event.
#[derive(Debug, PartialEq, Eq)]
pub enum Ingest {
    /// The event was not taken up.
    Ignored,
    /// No record could be built from the event.
    Invalid(ValidationError),
    /// The pull request is under vote, and the timer is to be started.
    Armed(Timer),
}

/// The store and the outcome after `event` came in when the clock showed
/// `now`. An event that is taken up and describes a record puts it under
/// vote, without votes and with the full time; any other changes nothing.
pub open spec fn ingested(
    before: Seq<PullRequestInfoView>,
    event: PullRequestEvent,
    now: i64,
    after: Seq<PullRequestInfoView>,
    outcome: Ingest,
) -> bool {
    if !accepts(event) {
        outcome == Ingest::Ignored && after == before
    } else {
        match record_of(event) {
            Err(e) => outcome == Ingest::Invalid(e) && after == before,
            Ok(record) => {
                &&& after == inserted(
                    before,
                    PullRequestInfoView {
                        pull_request: record,
                        left_votes: 0,
                        right_votes: 0,
                        creation_time: now,
                    },
                )
                &&& outcome matches Ingest::Armed(timer)
                &&& timer@ == TimerView { diff_url: record.diff_url, delay_seconds: MERGE_SECONDS }
            },
        }
    }
}

/// How a vote ended.
#[derive(Debug, PartialEq, Eq)]
pub struct Verdict {
    /// The entry as it left the store.
    pub record: PullRequestInfo,
    /// Whether the pull request is merged; otherwise it is closed.
    pub merged: bool,
    /// The steps to take on the host of the repository, in order.
    pub steps: Vec<Action>,
}

/// One vote.
pub struct Vote {
    pub key: Seq<char>,
    pub direction: Direction,
}

/// The entries after the votes of `votes` were cast one after the other.
pub open spec fn after_votes(entries: Seq<PullRequestInfoView>, votes: Seq<Vote>) -> Seq<
    PullRequestInfoView,
>
    decreases votes.len(),
{
    if votes.len() == 0 {
        entries
    } else {
        voted(after_votes(entries, votes.drop_last()), votes.last().key, votes.last().direction)
    }
}

/// Whether the votes of `votes` can be cast one after the other: each of
/// them, when its turn comes, finds the count that it raises below the
/// largest `usize`.
pub open spec fn votes_fit(entries: Seq<PullRequestInfoView>, votes: Seq<Vote>) -> bool
    decreases votes.len(),
{
    votes.len() > 0 ==> {
        &&& votes_fit(entries, votes.drop_last())
        &&& can_vote(
            after_votes(entries, votes.drop_last()),
            votes.last().key,
            votes.last().direction,
        )
    }
}

/// How many of `votes` were cast on `key` in `direction`.
pub open spec fn count_votes(votes: Seq<Vote>, key: Seq<char>, direction: Direction) -> nat
    decreases votes.len(),
{
    if votes.len() == 0 {
        0
    } else {
        count_votes(votes.drop_last(), key, direction) + if votes.last() == (Vote {
            key,
            direction,
        }) {
            1nat
        } else {
            0nat
        }
    }
}

/// What `position` finds has the key, and no entry before it has; where it
/// finds nothing no entry has the key.
pub proof fn lemma_position(entries: Seq<PullRequestInfoView>, key: Seq<char>, from: int)
    requires
        0 <= from,
    ensures
        match position(entries, key, from) {
            Some(i) => from <= i < entries.len() && key_of(entries[i]) == key && forall|j: int|
                from <= j < i ==> key_of(#[trigger] entries[j]) != key,
            None => forall|j: int|
                from <= j < entries.len() ==> key_of(#[trigger] entries[j]) != key,
        },
    decreases entries.len() - from,
{
    if from < entries.len() && key_of(entries[from]) != key {
        lemma_position(entries, key, from + 1);
    }
}

/// An entry with the key that no entry before it has is what `position`
/// finds; where no entry has the key it finds nothing.
pub proof fn lemma_position_is(entries: Seq<PullRequestInfoView>, key: Seq<char>, from: int, i: int)
    requires
        0 <= from <= i <= entries.len(),
        forall|j: int| from <= j < i ==> key_of(#[trigger] entries[j]) != key,
        i < entries.len() ==> key_of(entries[i]) == key,
    ensures
        position(entries, key, from) == if i < entries.len() {
            Some(i)
        } else {
            None
        },
    decreases i - from,
{
    if from < i {
        lemma_position_is(entries, key, from + 1, i);
    }
}

/// Inserting, voting and removing keep the keys distinct.
pub proof fn lemma_distinct_keys(
    entries: Seq<PullRequestInfoView>,
    entry: PullRequestInfoView,
    key: Seq<char>,
    direction: Direction,
)
    requires
        distinct_keys(entries),
    ensures
        distinct_keys(inserted(entries, entry)),
        distinct_keys(voted(entries, key, direction)),
        distinct_keys(removed(entries, key)),
{
    lemma_position(entries, key_of(entry), 0);
    lemma_position(entries, key, 0);
}

/// The votes in flight: at most one entry for each diff URL.
pub struct Server {
    all_prs: Vec<PullRequestInfo>,
}

impl View for Server {
    type V = Seq<PullRequestInfoView>;

    closed spec fn view(&self) -> Seq<PullRequestInfoView> {
        infos_view(self.all_prs@)
    }
}

impl Server {
    #[verifier::type_invariant]
    spec fn well_formed(&self) -> bool {
        distinct_keys(infos_view(self.all_prs@))
    }

    /// A store without entries.
    pub fn new() -> (server: Server)
        ensures
            server@ == Seq::<PullRequestInfoView>::empty(),
            distinct_keys(server@),
    {
        let server = Server { all_prs: Vec::new() };
        assert(infos_view(server.all_prs@) == Seq::<PullRequestInfoView>::empty());
        server
    }

    /// The place of the entry of `diff_url`.
    fn find(&self, diff_url: &String) -> (r: Option<usize>)
        ensures
            match r {
                Some(i) => position(self@, diff_url@, 0) == Some(i as int) && i < self.all_prs.len(),
                None => position(self@, diff_url@, 0) is None,
            },
    {
        let mut i: usize = 0;
        while i < self.all_prs.len()
            invariant
                i <= self.all_prs.len(),
                position(self@, diff_url@, 0) == position(self@, diff_url@, i as int),
            decreases self.all_prs.len() - i,
        {
            if self.all_prs[i].pull_request.diff_url == *diff_url {
                return Some(i);
            }
            i += 1;
        }
        None
    }

    /// Takes the entries out of the store, which is left empty.
    fn take(&mut self) -> (all_prs: Vec<PullRequestInfo>)
        ensures
            infos_view(all_prs@) == old(self)@,
            distinct_keys(old(self)@),
    {
        proof {
            use_type_invariant(&*self);
        }
        let mut taken = Server::new();
        core::mem::swap(self, &mut taken);
        taken.all_prs
    }

    /// Puts `entry` into the store, in place of the entry with its diff URL
    /// where there is one.
    pub fn insert(&mut self, entry: PullRequestInfo)
        ensures
            final(self)@ == inserted(old(self)@, entry@),
            distinct_keys(final(self)@),
    {
        let found = self.find(&entry.pull_request.diff_url);
        let mut all_prs = self.take();
        proof {
            lemma_distinct_keys(old(self)@, entry@, entry@.pull_request.diff_url, Direction::Left);
        }
        let ghost before = infos_view(all_prs@);
        match found {
            Some(i) => {
                all_prs[i] = entry;
                assert(infos_view(all_prs@) == before.update(i as int, entry@));
            },
            None => {
                all_prs.push(entry);
                assert(infos_view(all_prs@) == before.push(entry@));
            },
        }
        *self = Server { all_prs };
    }

    /// The votes on `diff_url`, those against first, or nothing where it has
    /// no entry.
    pub fn votes(&self, diff_url: &String) -> (r: Option<(usize, usize)>)
        ensures
            match r {
                Some((left, right)) => entry_of(self@, diff_url@) matches Some(entry)
                    && entry.left_votes == left && entry.right_votes == right,
                None => entry_of(self@, diff_url@) is None,
            },
    {
        match self.find(diff_url) {
            Some(i) => Some((self.all_prs[i].left_votes, self.all_prs[i].right_votes)),
            None => None,
        }
    }

    /// The records of all entries, each without its credential.
    pub fn get_all_prs(&self) -> (records: Vec<PullRequest>)
        ensures
            records_view(records@) == public_records(self@),
            forall|i: int| 0 <= i < records.len() ==> (#[trigger] records[i])@.key is None,
    {
        let mut records: Vec<PullRequest> = Vec::new();
        let mut i: usize = 0;
        while i < self.all_prs.len()
            invariant
                i <= self.all_prs.len(),
                records_view(records@) == public_records(self@.take(i as int)),
            decreases self.all_prs.len() - i,
        {
            let ghost before = records_view(records@);
            let record = self.all_prs[i].pull_request.without_key();
            records.push(record);
            assert(records_view(records@) == before.push(record@));
            assert(public_records(self@.take(i + 1)) == public_records(self@.take(i as int)).push(
                self@[i as int].pull_request.public(),
            ));
            i += 1;
        }
        assert(self@.take(i as int) == self@);
        assert forall|i: int| 0 <= i < records.len() implies (#[trigger] records[i])@.key is None by {
            assert(records_view(records@)[i] == records[i]@);
        }
        records
    }

    /// Casts one vote on the pull request of `diff_url`. A vote on a pull
    /// request that is not under vote changes nothing.
    pub fn vote_on_pr(&mut self, diff_url: String, direction: Direction)
        requires
            can_vote(old(self)@, diff_url@, direction),
        ensures
            final(self)@ == voted(old(self)@, diff_url@, direction),
            entry_of(old(self)@, diff_url@) is None ==> final(self)@ == old(self)@,
            distinct_keys(final(self)@),
    {
        let found = self.find(&diff_url);
        let mut all_prs = self.take();
        proof {
            lemma_distinct_keys(old(self)@, old(self)@[0], diff_url@, direction);
        }
        let ghost before = infos_view(all_prs@);
        match found {
            Some(i) => {
                let entry: &mut PullRequestInfo = &mut all_prs[i];
                match direction {
                    Direction::Left => {
                        entry.left_votes += 1;
                    },
                    Direction::Right => {
                        entry.right_votes += 1;
                    },
                }
                assert(infos_view(all_prs@) == before.update(
                    i as int,
                    with_vote(before[i as int], direction),
                ));
            },
            None => {},
        }
        *self = Server { all_prs };
    }

    /// Ends the vote on the pull request of `diff_url`: its entry leaves the
    /// store, and the verdict says what is to be done. It is merged unless
    /// more voted against than in favour. A pull request that is not under
    /// vote has no verdict.
    pub fn finalize_vote(&mut self, diff_url: String) -> (r: Option<Verdict>)
        ensures
            final(self)@ == removed(old(self)@, diff_url@),
            distinct_keys(final(self)@),
            match r {
                Some(verdict) => {
                    &&& entry_of(old(self)@, diff_url@) == Some(verdict.record@)
                    &&& verdict.merged == accepted(verdict.record@)
                    &&& actions_view(verdict.steps@) == final_steps(verdict.record@)
                },
                None => entry_of(old(self)@, diff_url@) is None,
            },
    {
        let found = self.find(&diff_url);
        let mut all_prs = self.take();
        proof {
            lemma_distinct_keys(old(self)@, old(self)@[0], diff_url@, Direction::Left);
        }
        let ghost before = infos_view(all_prs@);
        let r = match found {
            Some(i) => {
                let record = all_prs.remove(i);
                assert(infos_view(all_prs@) == before.remove(i as int));
                assert(record@ == before[i as int]);
                let merged = record.right_votes >= record.left_votes;
                let steps = if merged {
                    merge(&record)
                } else {
                    deny_merge(&record)
                };
                Some(Verdict { record, merged, steps })
            },
            None => None,
        };
        *self = Server { all_prs };
        r
    }

    /// The record of the entry at `index`, without its credential.
    pub fn pr_at(&self, index: usize) -> (record: PullRequest)
        requires
            index < self@.len(),
        ensures
            record@ == self@[index as int].pull_request.public(),
            record@.key is None,
    {
        self.all_prs[index].pull_request.without_key()
    }

    /// How many pull requests are under vote.
    pub fn len(&self) -> (n: usize)
        ensures
            n == self@.len(),
    {
        self.all_prs.len()
    }

    /// The record of one of the entries, chosen at random, without its
    /// credential; nothing where the store is empty.
    pub fn get_random_pr(&self) -> (r: Option<PullRequest>)
        ensures
            match r {
                Some(record) => record@.key is None && exists|i: int|
                    0 <= i < self@.len() && record@ == (#[trigger] self@[i]).pull_request.public(),
                None => self@.len() == 0,
            },
    {
        let n = self.len();
        if n == 0 {
            None
        } else {
            Some(self.pr_at(random_index(n)))
        }
    }

    /// The entries of the store, as they are written down at shutdown.
    pub fn shutdown(&self) -> (snapshot: Vec<PullRequestInfo>)
        ensures
            infos_view(snapshot@) == self@,
    {
        let mut snapshot: Vec<PullRequestInfo> = Vec::new();
        let mut i: usize = 0;
        while i < self.all_prs.len()
            invariant
                i <= self.all_prs.len(),
                infos_view(snapshot@) == self@.take(i as int),
            decreases self.all_prs.len() - i,
        {
            let ghost before = infos_view(snapshot@);
            let entry = self.all_prs[i].clone();
            snapshot.push(entry);
            assert(infos_view(snapshot@) == before.push(entry@));
            i += 1;
        }
        assert(self@.take(i as int) == self@);
        snapshot
    }

    /// Fills the store with the entries of `snapshot` and nothing else, when
    /// the clock shows `now`. Each entry of the snapshot gets a timer with
    /// what is left of its time; one whose time is over gets the delay 0.
    pub fn restore(&mut self, snapshot: &Vec<PullRequestInfo>, now: i64) -> (timers: Vec<Timer>)
        ensures
            final(self)@ == restored(infos_view(snapshot@)),
            distinct_keys(final(self)@),
            timers_view(timers@) == timers_of(infos_view(snapshot@), now),
    {
        *self = Server::new();
        let mut timers: Vec<Timer> = Vec::new();
        let mut i: usize = 0;
        let ghost all = infos_view(snapshot@);
        assert(all.take(0) == Seq::<PullRequestInfoView>::empty());
        assert(timers_view(timers@) == timers_of(all.take(0), now));
        while i < snapshot.len()
            invariant
                i <= snapshot.len(),
                all == infos_view(snapshot@),
                self@ == restored(all.take(i as int)),
                distinct_keys(self@),
                timers_view(timers@) == timers_of(all.take(i as int), now),
            decreases snapshot.len() - i,
        {
            let ghost before = timers_view(timers@);
            let entry = snapshot[i].clone();
            let timer = Timer {
                diff_url: entry.pull_request.diff_url.clone(),
                delay_seconds: remaining_delay(MERGE_SECONDS, entry.creation_time, now),
            };
            assert(all.take(i + 1).drop_last() == all.take(i as int));
            assert(timers_of(all.take(i + 1), now) == timers_of(all.take(i as int), now).push(
                timer_of(all[i as int], now),
            ));
            self.insert(entry);
            timers.push(timer);
            assert(timers_view(timers@) == before.push(timer@));
            i += 1;
        }
        assert(all.take(i as int) == all);
        timers
    }

    /// Fills the store with the entries of `snapshot` and nothing else, and
    /// gives each entry of the snapshot a timer with what is left of its
    /// time by the clock of the machine.
    pub fn load_prs(&mut self, snapshot: &Vec<PullRequestInfo>) -> (timers: Vec<Timer>)
        ensures
            final(self)@ == restored(infos_view(snapshot@)),
            distinct_keys(final(self)@),
            exists|now: i64| timers_view(timers@) == #[trigger] timers_of(infos_view(snapshot@), now),
    {
        let now = current_timestamp();
        self.restore(snapshot, now)
    }

    /// Takes in an event that came when the clock showed `now`. An event
    /// that says that a pull request was opened or reopened and can be
    /// merged, and that describes a record, puts that record under vote:
    /// without votes, begun at `now`, and with a timer for the full time.
    /// Any other event changes nothing.
    pub fn ingest(&mut self, payload: PullRequestEvent, now: i64) -> (outcome: Ingest)
        ensures
            ingested(old(self)@, payload, now, final(self)@, outcome),
            distinct_keys(final(self)@),
    {
        proof {
            use_type_invariant(&*self);
        }
        let taken = match payload.action {
            EventAction::Opened => true,
            EventAction::Reopened => true,
            EventAction::Other => false,
        };
        let mergeable = match payload.mergeable {
            Some(true) => true,
            _ => false,
        };
        if !taken || !mergeable {
            return Ingest::Ignored;
        }
        match PullRequest::new_from_payload(payload) {
            Err(e) => Ingest::Invalid(e),
            Ok(pull_request) => {
                let timer = Timer {
                    diff_url: pull_request.diff_url.clone(),
                    delay_seconds: MERGE_SECONDS,
                };
                self.insert(
                    PullRequestInfo { pull_request, left_votes: 0, right_votes: 0, creation_time: now },
                );
                Ingest::Armed(timer)
            },
        }
    }

    /// Takes in an event at the time that the clock of the machine shows,
    /// as `ingest` does at a given time.
    pub fn webhook_handler(&mut self, payload: PullRequestEvent) -> (outcome: Ingest)
        ensures
            exists|now: i64| #[trigger] ingested(old(self)@, payload, now, final(self)@, outcome),
            distinct_keys(final(self)@),
    {
        let now = current_timestamp();
        self.ingest(payload, now)
    }
}

} // verus!
