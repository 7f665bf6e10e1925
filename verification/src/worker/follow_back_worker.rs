//! Follows back, by itself and without the queue, whoever follows the operator.
use crate::chunks::{chunks_of, split_chunks};
use crate::random::{generator_of, lemma_reordered, seeded, shuffle};
use crate::difference::{lemma_ascending_has_no_duplicates, only_in, Relations};
use crate::worker::relation_sync::candidates_of;
use crate::worker::{lemma_unsigned_difference, to_service_ids, LOOKUP_LIMIT};
use rand::rngs::StdRng;
use vstd::prelude::*;

verus! {

/// The worker that follows back.
pub struct FollowBackWorker {
    /// Where the random order of the candidates comes from.
    pub rng: StdRng,
}

/// Whether `batches` are the followers that are not followed, each once, in some
/// order and cut into lookups.
pub open spec fn are_lookups_of(batches: Seq<Vec<u64>>, followers: Seq<i64>, friends: Seq<i64>) -> bool {
    exists|order: Seq<u64>|
        #![trigger chunks_of(order, LOOKUP_LIMIT as nat)]
        {
            &&& order.no_duplicates()
            &&& order.to_set() == candidates_of(followers, friends)
            &&& batches.len() == chunks_of(order, LOOKUP_LIMIT as nat).len()
            &&& forall|k: int|
                0 <= k < batches.len() ==> (#[trigger] batches[k])@ == chunks_of(
                    order,
                    LOOKUP_LIMIT as nat,
                )[k]
        }
}

impl FollowBackWorker {
    /// A worker whose random order comes from the generator made of `seed`.
    pub fn new(seed: u64) -> (worker: Self)
        ensures
            worker.rng == generator_of(seed),
    {
        FollowBackWorker { rng: seeded(seed) }
    }

    /// The first half of a round: every follower that is not followed, in random
    /// order, cut into the lookups that ask the service about them. What
    /// `follow_candidates` keeps of the answers is then followed, one account after
    /// the other with `ACTION_PAUSE` seconds between them.
    pub fn start(&mut self, relations: &Relations) -> (batches: Vec<Vec<u64>>)
        ensures
            are_lookups_of(batches@, relations.followers@, relations.friends@),
    {
        let should_follow = only_in(&relations.followers, &relations.friends);
        let mut order = to_service_ids(&should_follow);
        let ghost sorted = order@;
        proof {
            lemma_ascending_has_no_duplicates(should_follow@);
            lemma_unsigned_difference(should_follow@, relations.followers@, relations.friends@);
        }
        shuffle(&mut order, &mut self.rng);
        proof {
            lemma_reordered(sorted, order@);
        }
        let batches = split_chunks(&order, LOOKUP_LIMIT);
        assert(batches@.len() == chunks_of(order@, LOOKUP_LIMIT as nat).len());
        batches
    }
}

} // verus!
