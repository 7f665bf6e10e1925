//! Fills in the profiles that the store does not hold yet.
use crate::random::{generator_of, is_batch_of, pick_batch, seeded};
use crate::worker::{all_unsigned, to_service_ids, LOOKUP_LIMIT};
use rand::rngs::StdRng;
use vstd::prelude::*;

verus! {

/// The most ids without a profile that one round reads from each relation.
pub const MISSING_LIMIT: i64 = 1000;

/// The worker that fetches missing profiles.
pub struct UserDataSynchronizer {
    /// Where the random order of the accounts comes from.
    pub rng: StdRng,
}

/// How many profiles one round asks for when `missing` accounts have none: a full
/// lookup while more than a lookup's worth are missing, and one account at a time
/// after that.
pub open spec fn lookup_size(missing: nat) -> nat {
    if missing > LOOKUP_LIMIT {
        LOOKUP_LIMIT as nat
    } else {
        1
    }
}

impl UserDataSynchronizer {
    /// A worker whose random order comes from the generator made of `seed`.
    pub fn new(seed: u64) -> (worker: Self)
        ensures
            worker.rng == generator_of(seed),
    {
        UserDataSynchronizer { rng: seeded(seed) }
    }

    /// One round: draws at random, from the accounts without a profile, those whose
    /// profiles are asked for now. No account gives no lookup.
    pub fn start(&mut self, user_ids: Vec<i64>) -> (lookup: Vec<u64>)
        ensures
            exists|batch: Seq<i64>|
                is_batch_of(batch, user_ids@, lookup_size(user_ids@.len())) && lookup@
                    == #[trigger] all_unsigned(batch),
    {
        let limit: usize = if user_ids.len() > LOOKUP_LIMIT {
            LOOKUP_LIMIT
        } else {
            1
        };
        let batch = pick_batch(user_ids, limit, &mut self.rng);
        to_service_ids(&batch)
    }
}

} // verus!
