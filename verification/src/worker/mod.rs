//! The workers. Each is a loop of its own that polls, acts and then pauses; what it
//! decides in one round stands here, and how the rounds are paced.
use crate::difference::ids_only_in;
use crate::sql::whitelist::Whitelist;
use crate::twitter::RelationLookup;
use crate::unsigned::numbers_only_in;
use vstd::prelude::*;

pub mod follow_back_worker;
pub mod invalid_user_remover;
pub mod message_listener;
pub mod relation_sync;
pub mod user_data_sync;
pub mod user_id_sync;

verus! {

/// Seconds in an hour: how far the watermark lies behind the clock.
pub const WATERMARK_LAG: u64 = 3600;

/// The most accounts that one lookup asks the service about.
pub const LOOKUP_LIMIT: usize = 100;

/// Seconds between two follows or two unfollows of one worker.
pub const ACTION_PAUSE: u64 = 60;

/// One hour before `now`, both in Unix seconds; the latest moment that fits where the
/// clock is out of range.
pub open spec fn hour_before(now: u64) -> i64 {
    if now - WATERMARK_LAG > i64::MAX {
        i64::MAX
    } else {
        (now - WATERMARK_LAG) as i64
    }
}

/// The watermark for a round that starts at `now`. A row counts only if it was
/// confirmed after the watermark: an id that no pass over the relation has seen
/// for an hour is taken to be gone.
pub fn one_hour_ago(now: u64) -> (watermark: i64)
    ensures
        watermark == hour_before(now),
{
    if now >= 3600 {
        let past: u64 = now - 3600;
        if past > 0x7fff_ffff_ffff_ffff {
            i64::MAX
        } else {
            past as i64
        }
    } else {
        (now as i64) - 3600
    }
}

/// The unsigned number that the service uses for an id of the store: the same 64 bits.
pub open spec fn as_unsigned(id: i64) -> u64 {
    if id >= 0 {
        id as u64
    } else {
        (id + 0x1_0000_0000_0000_0000) as u64
    }
}

/// Turns an id of the store into the number that the service uses for it.
pub fn to_unsigned(id: i64) -> (unsigned: u64)
    ensures
        unsigned == as_unsigned(id),
{
    if id >= 0 {
        id as u64
    } else {
        let above_min: u64 = (id - i64::MIN) as u64;
        above_min + 0x8000_0000_0000_0000
    }
}

/// The ids of `ids` as the service uses them.
pub open spec fn all_unsigned(ids: Seq<i64>) -> Seq<u64> {
    ids.map_values(|id: i64| as_unsigned(id))
}

/// Turns ids of the store into the numbers that the service uses for them.
pub fn to_service_ids(ids: &Vec<i64>) -> (out: Vec<u64>)
    ensures
        out@ == all_unsigned(ids@),
{
    let mut out: Vec<u64> = Vec::new();
    let mut i: usize = 0;
    while i < ids.len()
        invariant
            i <= ids.len(),
            out@ == all_unsigned(ids@.take(i as int)),
        decreases ids.len() - i,
    {
        out.push(to_unsigned(ids[i]));
        assert(out@ =~= all_unsigned(ids@.take(i + 1)));
        i += 1;
    }
    assert(ids@.take(ids.len() as int) == ids@);
    out
}

/// Two ids of the store stand for two ids of the service.
pub proof fn lemma_unsigned_keeps_apart(a: i64, b: i64)
    ensures
        as_unsigned(a) == as_unsigned(b) ==> a == b,
{
}

/// What a list without duplicates that holds the ids only in `kept` becomes for the
/// service: a list without duplicates that holds the service's ids only in `kept`.
pub proof fn lemma_unsigned_difference(ids: Seq<i64>, kept: Seq<i64>, other: Seq<i64>)
    requires
        ids.no_duplicates(),
        ids.to_set() == ids_only_in(kept, other),
    ensures
        all_unsigned(ids).no_duplicates(),
        all_unsigned(ids).to_set() == numbers_only_in(all_unsigned(kept), all_unsigned(other)),
{
    let out = all_unsigned(ids);
    assert forall|i: int, j: int| 0 <= i < out.len() && 0 <= j < out.len() && i != j implies out[i]
        != out[j] by {
        lemma_unsigned_keeps_apart(ids[i], ids[j]);
    }
    let pool = numbers_only_in(all_unsigned(kept), all_unsigned(other));
    assert forall|x: u64| out.to_set().contains(x) == pool.contains(x) by {
        if out.contains(x) {
            let i = choose|i: int| 0 <= i < out.len() && out[i] == x;
            assert(ids.to_set().contains(ids[i]));
            assert(kept.contains(ids[i]));
            let k = choose|k: int| 0 <= k < kept.len() && kept[k] == ids[i];
            assert(all_unsigned(kept)[k] == x);
            if all_unsigned(other).contains(x) {
                let m = choose|m: int| 0 <= m < all_unsigned(other).len() && all_unsigned(other)[m] == x;
                lemma_unsigned_keeps_apart(other[m], ids[i]);
                assert(other.contains(ids[i]));
            }
        }
        if pool.contains(x) {
            let k = choose|k: int| 0 <= k < all_unsigned(kept).len() && all_unsigned(kept)[k] == x;
            if other.contains(kept[k]) {
                let m = choose|m: int| 0 <= m < other.len() && other[m] == kept[k];
                assert(all_unsigned(other)[m] == x);
            }
            assert(kept.contains(kept[k]));
            assert(ids.to_set().contains(kept[k]));
            let i = choose|i: int| 0 <= i < ids.len() && ids[i] == kept[k];
            assert(out[i] == x);
        }
    }
    assert(out.to_set() =~= pool);
}

/// An account to follow back: it follows the operator, the operator does not follow
/// it, and no request to follow it is open.
pub open spec fn should_follow(relation: RelationLookup) -> bool {
    relation.follower() && !relation.friend() && !relation.pending()
}

/// An account to drop: the operator follows it and it does not follow the operator.
pub open spec fn should_remove(relation: RelationLookup) -> bool {
    relation.friend() && !relation.follower()
}

/// The id of an account to follow back.
pub open spec fn follow_pick() -> spec_fn(RelationLookup) -> Option<u64> {
    |relation: RelationLookup|
        if should_follow(relation) {
            Some(relation.id)
        } else {
            None
        }
}

/// The id of an account to drop, unless it is on the whitelist.
pub open spec fn remove_pick(whitelist: Set<u64>) -> spec_fn(RelationLookup) -> Option<u64> {
    |relation: RelationLookup|
        if should_remove(relation) && !whitelist.contains(relation.id) {
            Some(relation.id)
        } else {
            None
        }
}

/// The accounts to follow back among those that were looked up, in the order of the
/// answers.
pub fn follow_candidates(relations: &Vec<RelationLookup>) -> (ids: Vec<u64>)
    ensures
        ids@ == relations@.filter_map(follow_pick()),
{
    let mut ids: Vec<u64> = Vec::new();
    let mut i: usize = 0;
    while i < relations.len()
        invariant
            i <= relations.len(),
            ids@ == relations@.take(i as int).filter_map(follow_pick()),
        decreases relations.len() - i,
    {
        proof {
            relations@.lemma_filter_map_take_succ(follow_pick(), i as int);
        }
        let relation = &relations[i];
        if relation.is_follower() && !relation.is_friend() && !relation.is_pending() {
            ids.push(relation.id);
        }
        i += 1;
    }
    assert(relations@.take(relations.len() as int) == relations@);
    ids
}

/// The accounts to drop among those that were looked up, in the order of the answers.
/// An account on the whitelist is never among them, whatever the service says of it.
pub fn remove_candidates(relations: &Vec<RelationLookup>, whitelist: &Whitelist) -> (ids: Vec<u64>)
    ensures
        ids@ == relations@.filter_map(remove_pick(whitelist@)),
{
    let mut ids: Vec<u64> = Vec::new();
    let mut i: usize = 0;
    while i < relations.len()
        invariant
            i <= relations.len(),
            ids@ == relations@.take(i as int).filter_map(remove_pick(whitelist@)),
        decreases relations.len() - i,
    {
        proof {
            relations@.lemma_filter_map_take_succ(remove_pick(whitelist@), i as int);
        }
        let relation = &relations[i];
        if relation.is_friend() && !relation.is_follower() && !whitelist.contains(relation.id) {
            ids.push(relation.id);
        }
        i += 1;
    }
    assert(relations@.take(relations.len() as int) == relations@);
    ids
}

/// The six workers.
#[derive(Clone, Copy, Debug, PartialEq, Eq, Structural)]
pub enum WorkerKind {
    UserIdSynchronizer,
    RelationSynchronizer,
    MessageListener,
    FollowBackWorker,
    InvalidUserRemover,
    UserDataSynchronizer,
}

/// How long a worker pauses after a round, in seconds.
#[derive(Clone, Copy, Debug, PartialEq, Eq, Structural)]
pub struct Pacing {
    /// After a round that went well.
    pub normal_interval: u64,
    /// After a round that failed.
    pub error_backoff: u64,
}

/// The pauses of each worker.
pub open spec fn pacing_of(kind: WorkerKind) -> Pacing {
    match kind {
        WorkerKind::UserIdSynchronizer => Pacing { normal_interval: 10, error_backoff: 10 },
        WorkerKind::RelationSynchronizer => Pacing { normal_interval: 60, error_backoff: 60 },
        WorkerKind::MessageListener => Pacing { normal_interval: 60, error_backoff: 60 },
        WorkerKind::FollowBackWorker => Pacing { normal_interval: 0, error_backoff: 600 },
        WorkerKind::InvalidUserRemover => Pacing { normal_interval: 300, error_backoff: 300 },
        WorkerKind::UserDataSynchronizer => Pacing { normal_interval: 10, error_backoff: 300 },
    }
}

/// The pauses of `kind`.
pub fn pacing(kind: WorkerKind) -> (pauses: Pacing)
    ensures
        pauses == pacing_of(kind),
{
    match kind {
        WorkerKind::UserIdSynchronizer => Pacing { normal_interval: 10, error_backoff: 10 },
        WorkerKind::RelationSynchronizer => Pacing { normal_interval: 60, error_backoff: 60 },
        WorkerKind::MessageListener => Pacing { normal_interval: 60, error_backoff: 60 },
        WorkerKind::FollowBackWorker => Pacing { normal_interval: 0, error_backoff: 600 },
        WorkerKind::InvalidUserRemover => Pacing { normal_interval: 300, error_backoff: 300 },
        WorkerKind::UserDataSynchronizer => Pacing { normal_interval: 10, error_backoff: 300 },
    }
}

/// Where a worker's loop stands.
#[derive(Clone, Copy, Debug, PartialEq, Eq, Structural)]
pub enum WorkerState {
    /// Not started yet.
    Idle,
    /// A round is under way.
    Running,
    /// Pausing until the clock reads `until`, in Unix seconds.
    Backoff { until: u64 },
}

/// The state after the scheduler looked at a worker at `now`: a round starts if none
/// is under way and no pause is still running.
pub open spec fn woken(state: WorkerState, now: u64) -> WorkerState {
    match state {
        WorkerState::Idle => WorkerState::Running,
        WorkerState::Running => WorkerState::Running,
        WorkerState::Backoff { until } => if now >= until {
            WorkerState::Running
        } else {
            state
        },
    }
}

/// Whether a look at `now` starts a round.
pub open spec fn starts_round(state: WorkerState, now: u64) -> bool {
    state != WorkerState::Running && woken(state, now) == WorkerState::Running
}

/// The moment `pause` seconds after `now`, or the last moment of the clock.
pub open spec fn pause_end(now: u64, pause: u64) -> u64 {
    if now + pause > u64::MAX {
        u64::MAX
    } else {
        (now + pause) as u64
    }
}

/// The state after a round ended at `now`: the worker pauses for as long as its
/// pacing says for a round that went well or failed. Without a round under way
/// nothing changes.
pub open spec fn finished(state: WorkerState, pauses: Pacing, succeeded: bool, now: u64) -> WorkerState {
    match state {
        WorkerState::Running => WorkerState::Backoff {
            until: pause_end(
                now,
                if succeeded {
                    pauses.normal_interval
                } else {
                    pauses.error_backoff
                },
            ),
        },
        _ => state,
    }
}

/// The scheduler looks at a worker at `now`. Returns the next state and whether a
/// round is to be started.
pub fn on_wake(state: WorkerState, now: u64) -> (next: (WorkerState, bool))
    ensures
        next.0 == woken(state, now),
        next.1 == starts_round(state, now),
{
    match state {
        WorkerState::Idle => (WorkerState::Running, true),
        WorkerState::Running => (WorkerState::Running, false),
        WorkerState::Backoff { until } => if now >= until {
            (WorkerState::Running, true)
        } else {
            (state, false)
        },
    }
}

/// A round ended at `now`, well or not.
pub fn on_finish(state: WorkerState, pauses: Pacing, succeeded: bool, now: u64) -> (next: WorkerState)
    ensures
        next == finished(state, pauses, succeeded, now),
{
    match state {
        WorkerState::Running => {
            let pause = if succeeded {
                pauses.normal_interval
            } else {
                pauses.error_backoff
            };
            let until = if now > u64::MAX - pause {
                u64::MAX
            } else {
                now + pause
            };
            WorkerState::Backoff { until }
        },
        _ => state,
    }
}

/// The rounds of one worker never overlap, and a failed round is not tried again at
/// once: while a round is under way no other starts, and after a round that ended at
/// `now` none starts before the pause is over.
pub proof fn lemma_rounds_are_sequential(
    state: WorkerState,
    pauses: Pacing,
    succeeded: bool,
    now: u64,
    later: u64,
)
    ensures
        !starts_round(WorkerState::Running, later),
        state == WorkerState::Running && later < pause_end(
            now,
            if succeeded {
                pauses.normal_interval
            } else {
                pauses.error_backoff
            },
        ) ==> !starts_round(finished(state, pauses, succeeded, now), later),
        state == WorkerState::Running && later >= pause_end(
            now,
            if succeeded {
                pauses.normal_interval
            } else {
                pauses.error_backoff
            },
        ) ==> starts_round(finished(state, pauses, succeeded, now), later),
{
}

} // verus!
