//! Compares the two relations and queues what follows from the comparison: a follow
//! for each follower that is not followed back, and a proposal for removal, to be
//! confirmed by a person, for each friend that does not follow.
use crate::difference::Relations;
use crate::random::{generator_of, is_draw_from, lemma_batch_is_draw, pick_batch, seeded};
use crate::unsigned::{
    increasing, lemma_increasing_has_no_duplicates, numbers_only_in, only_in_unsigned,
};
use crate::sql::queue::{ConfirmationQueue, Message, MessageQueue, MessageType};
use crate::worker::{all_unsigned, to_service_ids, LOOKUP_LIMIT};
use rand::rngs::StdRng;
use vstd::prelude::*;

verus! {

/// The accounts that are in `kept` and not in `other`, as the service numbers them.
pub open spec fn candidates_of(kept: Seq<i64>, other: Seq<i64>) -> Set<u64> {
    numbers_only_in(all_unsigned(kept), all_unsigned(other))
}

/// A follow for each id of `ids`.
pub open spec fn follow_messages(ids: Seq<u64>) -> Seq<Message> {
    ids.map_values(|id: u64| Message { user_id: id, message_type: MessageType::Follow })
}

/// The friends that do not follow (first) and the followers that are not followed
/// (second), as the service numbers them: each list in increasing order and without
/// duplicates. No account is in both lists.
pub fn get_candidate_ids(relations: &Relations) -> (candidates: (Vec<u64>, Vec<u64>))
    ensures
        increasing(candidates.0@),
        candidates.0@.to_set() == candidates_of(relations.friends@, relations.followers@),
        increasing(candidates.1@),
        candidates.1@.to_set() == candidates_of(relations.followers@, relations.friends@),
        candidates.0@.to_set().disjoint(candidates.1@.to_set()),
{
    let friends = to_service_ids(&relations.friends);
    let followers = to_service_ids(&relations.followers);
    let unremoved = only_in_unsigned(&friends, &followers);
    let unfollowed = only_in_unsigned(&followers, &friends);
    (unremoved, unfollowed)
}

/// The accounts that one round asks the service about.
pub struct Lookups {
    /// Followers that may have to be followed back.
    pub unfollowed: Vec<u64>,
    /// Friends that may have to be proposed for removal.
    pub unremoved: Vec<u64>,
}

/// The worker that compares the relations.
pub struct RelationSynchronizer {
    /// Where the random order of the candidates comes from.
    pub rng: StdRng,
}

impl RelationSynchronizer {
    /// A worker whose random order comes from the generator made of `seed`.
    pub fn new(seed: u64) -> (worker: Self)
        ensures
            worker.rng == generator_of(seed),
    {
        RelationSynchronizer { rng: seeded(seed) }
    }

    /// The first half of a round: draws at random, from each side of the comparison,
    /// the accounts to ask the service about, no more of each than one lookup takes
    /// and none twice. What `follow_candidates` and `remove_candidates` keep of the
    /// answers is then queued.
    pub fn run(&mut self, relations: &Relations) -> (lookups: Lookups)
        ensures
            is_draw_from(
                lookups.unfollowed@,
                candidates_of(relations.followers@, relations.friends@),
                LOOKUP_LIMIT as nat,
            ),
            is_draw_from(
                lookups.unremoved@,
                candidates_of(relations.friends@, relations.followers@),
                LOOKUP_LIMIT as nat,
            ),
    {
        let (unremoved, unfollowed) = get_candidate_ids(relations);
        proof {
            lemma_increasing_has_no_duplicates(unremoved@);
            lemma_increasing_has_no_duplicates(unfollowed@);
        }
        let ghost all_unfollowed = unfollowed@;
        let ghost all_unremoved = unremoved@;
        let unfollowed = pick_batch(unfollowed, LOOKUP_LIMIT, &mut self.rng);
        let unremoved = pick_batch(unremoved, LOOKUP_LIMIT, &mut self.rng);
        proof {
            lemma_batch_is_draw(unfollowed@, all_unfollowed, LOOKUP_LIMIT as nat);
            lemma_batch_is_draw(unremoved@, all_unremoved, LOOKUP_LIMIT as nat);
        }
        Lookups { unfollowed, unremoved }
    }
}

/// Queues a follow for each account of `user_ids`, in their order, and stops at the
/// first that the store refuses: the follows before it stay queued.
pub fn push_follow_actions<Q: MessageQueue>(queue: &mut Q, user_ids: &Vec<u64>) -> (pushed: Result<
    (),
    Q::Error,
>)
    requires
        old(queue).usable(),
    ensures
        final(queue).usable(),
        pushed is Ok ==> final(queue).waiting() == old(queue).waiting().add(
            follow_messages(user_ids@).to_multiset(),
        ),
        pushed is Err ==> exists|n: int|
            0 <= n < user_ids@.len() && final(queue).waiting() == old(queue).waiting().add(
                #[trigger] follow_messages(user_ids@.take(n)).to_multiset(),
            ),
{
    let mut i: usize = 0;
    proof {
        follow_messages(user_ids@.take(0)).to_multiset_ensures();
        vstd::multiset::lemma_multiset_empty_len(follow_messages(user_ids@.take(0)).to_multiset());
        assert(queue.waiting() =~= old(queue).waiting().add(
            follow_messages(user_ids@.take(0)).to_multiset(),
        ));
    }
    while i < user_ids.len()
        invariant
            i <= user_ids.len(),
            queue.usable(),
            queue.waiting() == old(queue).waiting().add(
                follow_messages(user_ids@.take(i as int)).to_multiset(),
            ),
        decreases user_ids.len() - i,
    {
        let message = Message { user_id: user_ids[i], message_type: MessageType::Follow };
        proof {
            assert(follow_messages(user_ids@.take(i + 1)) =~= follow_messages(
                user_ids@.take(i as int),
            ).push(message));
            vstd::seq_lib::to_multiset_build(follow_messages(user_ids@.take(i as int)), message);
        }
        match queue.push_message(message) {
            Ok(_) => {},
            Err(e) => {
                return Err(e);
            },
        }
        assert(queue.waiting() =~= old(queue).waiting().add(
            follow_messages(user_ids@.take(i + 1)).to_multiset(),
        ));
        i += 1;
    }
    assert(user_ids@.take(user_ids.len() as int) == user_ids@);
    Ok(())
}

/// Queues a proposal for removal for each account of `user_ids`, in their order, and
/// stops at the first that the store refuses: the proposals before it stay queued.
pub fn push_remove_candidates<Q: ConfirmationQueue>(queue: &mut Q, user_ids: &Vec<u64>) -> (pushed:
    Result<(), Q::Error>)
    requires
        old(queue).usable(),
    ensures
        final(queue).usable(),
        pushed is Ok ==> final(queue).proposed() == old(queue).proposed().add(
            user_ids@.to_multiset(),
        ),
        pushed is Err ==> exists|n: int|
            0 <= n < user_ids@.len() && final(queue).proposed() == old(queue).proposed().add(
                #[trigger] user_ids@.take(n).to_multiset(),
            ),
{
    let mut i: usize = 0;
    proof {
        user_ids@.take(0).to_multiset_ensures();
        vstd::multiset::lemma_multiset_empty_len(user_ids@.take(0).to_multiset());
        assert(queue.proposed() =~= old(queue).proposed().add(user_ids@.take(0).to_multiset()));
    }
    while i < user_ids.len()
        invariant
            i <= user_ids.len(),
            queue.usable(),
            queue.proposed() == old(queue).proposed().add(user_ids@.take(i as int).to_multiset()),
        decreases user_ids.len() - i,
    {
        proof {
            assert(user_ids@.take(i + 1) =~= user_ids@.take(i as int).push(user_ids@[i as int]));
            vstd::seq_lib::to_multiset_build(user_ids@.take(i as int), user_ids@[i as int]);
        }
        match queue.push_remove_candidate(user_ids[i]) {
            Ok(_) => {},
            Err(e) => {
                return Err(e);
            },
        }
        assert(queue.proposed() =~= old(queue).proposed().add(user_ids@.take(i + 1).to_multiset()));
        i += 1;
    }
    assert(user_ids@.take(user_ids.len() as int) == user_ids@);
    Ok(())
}

} // verus!
