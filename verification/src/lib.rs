//! Decision logic of a pipeline that keeps one account's follow relations in order:
//! which ids to follow or to drop, how a rate-limited call waits, how queued actions
//! are handed to exactly one consumer, and how each worker paces itself.
use crate::difference::{ascending, difference_of, only_in, Direction};
use crate::sql::MemoryStore;
use std::time::{Duration, SystemTime};
use vstd::prelude::*;

pub mod chunks;
pub mod difference;
pub mod random;
pub mod server;
pub mod sql;
pub mod twitter;
pub mod unsigned;
pub mod worker;

verus! {

/// `std::time::SystemTime`, carried through as an opaque value.
#[verifier::external_type_specification]
#[verifier::external_body]
pub struct ExSystemTime(SystemTime);

/// Reads the wall clock through `SystemTime::now`. Nothing is claimed of the value.
#[verifier::external_body]
fn wall_clock() -> (now: SystemTime) {
    SystemTime::now()
}

/// Measures `now` against the Unix epoch with `SystemTime::duration_since`; `None`
/// stands for the error that std returns when `now` lies before the epoch.
#[verifier::external_body]
fn since_unix_epoch(now: SystemTime) -> (elapsed: Option<Duration>) {
    now.duration_since(std::time::UNIX_EPOCH).ok()
}

/// Time elapsed since the Unix epoch, as the wall clock reads it; `None` where the
/// clock is set before the epoch. No round can be timed by such a clock: its
/// watermark would let every row count.
pub fn current_time_duration() -> (elapsed: Option<Duration>) {
    since_unix_epoch(wall_clock())
}

/// The difference between the two relations: the ids that were confirmed after
/// `confirmed_after` on the side that `direction` keeps and not on the other side,
/// each once and in ascending order. The store is only read.
pub fn get_difference(store: &MemoryStore, confirmed_after: i64, direction: Direction) -> (ids: Vec<
    i64,
>)
    ensures
        ascending(ids@),
        ids@.to_set() == difference_of(store.friends@, store.followers@, confirmed_after, direction),
{
    let relations = store.relations_at(confirmed_after);
    match direction {
        Direction::FollowersMinusFriends => only_in(&relations.followers, &relations.friends),
        Direction::FriendsMinusFollowers => only_in(&relations.friends, &relations.followers),
    }
}

} // verus!
