//! What the control surface shows a person who confirms removals.
use crate::difference::{ids_only_in, lemma_ascending_has_no_duplicates, only_in, Relations};
use crate::random::{is_batch_of, lemma_reordered, pick_batch, seeded, shuffle};
use crate::sql::whitelist::Whitelist;
use crate::twitter::{Profile, RelationLookup};
use crate::worker::{should_remove, LOOKUP_LIMIT};
use rand::rngs::StdRng;
use std::collections::BTreeMap;
use vstd::prelude::*;

verus! {

/// The answer about `id` that came last, if any did.
pub open spec fn last_answer(relations: Seq<RelationLookup>, id: u64) -> Option<RelationLookup>
    decreases relations.len(),
{
    if relations.len() == 0 {
        None
    } else if relations.last().id == id {
        Some(relations.last())
    } else {
        last_answer(relations.drop_last(), id)
    }
}

/// Whether the answers allow to propose an account for removal: the last answer about
/// it shows a friend that does not follow, and the account is not on the whitelist.
pub open spec fn removable(relations: Seq<RelationLookup>, whitelist: Set<u64>) -> spec_fn(
    Profile,
) -> bool {
    |user: Profile|
        !whitelist.contains(user.id) && match last_answer(relations, user.id) {
            Some(relation) => should_remove(relation),
            None => false,
        }
}

/// One request for the list of candidates: the friends that do not follow, in the
/// random order in which their profiles are read, and the generator that goes on to
/// draw those that are shown.
pub struct CandidateScan {
    pub rng: StdRng,
    pub user_ids: Vec<i64>,
}

/// Starts a request: the friends that do not follow, each once, in a random order
/// that starts from `seed`.
pub fn get_remove_candidates(relations: &Relations, seed: u64) -> (scan: CandidateScan)
    ensures
        scan.user_ids@.no_duplicates(),
        scan.user_ids@.to_set() == ids_only_in(relations.friends@, relations.followers@),
{
    let mut rng = seeded(seed);
    let mut user_ids = only_in(&relations.friends, &relations.followers);
    let ghost sorted = user_ids@;
    proof {
        lemma_ascending_has_no_duplicates(sorted);
    }
    shuffle(&mut user_ids, &mut rng);
    proof {
        lemma_reordered(sorted, user_ids@);
    }
    CandidateScan { rng, user_ids }
}

impl CandidateScan {
    /// Draws at random, from the candidates whose profiles the store holds, those to
    /// ask the service about: no more than one lookup takes.
    pub fn select<T>(&mut self, known: Vec<T>) -> (batch: Vec<T>)
        ensures
            is_batch_of(batch@, known@, LOOKUP_LIMIT as nat),
            final(self).user_ids == old(self).user_ids,
    {
        pick_batch(known, LOOKUP_LIMIT, &mut self.rng)
    }
}

/// Maps of ids are kept in the order of the integers.
proof fn lemma_ids_are_ordered()
    ensures
        vstd::laws_cmp::obeys_cmp::<u64>(),
{
    broadcast use vstd::laws_cmp::group_laws_cmp;

}

/// Whether `index` leads from each account to the place, among the first `n` answers,
/// of the last answer about it, and holds no other account.
spec fn indexes(index: Map<u64, usize>, relations: Seq<RelationLookup>, n: int) -> bool {
    forall|id: u64|
        match #[trigger] last_answer(relations.take(n), id) {
            Some(relation) => index.contains_key(id) && index[id] < n && relations[index[id] as int]
                == relation,
            None => !index.contains_key(id),
        }
}

/// The answers by account; of two answers about one account the later one counts.
fn index_answers(relations: &Vec<RelationLookup>) -> (index: BTreeMap<u64, usize>)
    ensures
        indexes(index@, relations@, relations@.len() as int),
{
    let mut index: BTreeMap<u64, usize> = BTreeMap::new();
    let mut i: usize = 0;
    while i < relations.len()
        invariant
            i <= relations.len(),
            indexes(index@, relations@, i as int),
        decreases relations.len() - i,
    {
        let ghost before = index@;
        proof {
            lemma_ids_are_ordered();
        }
        index.insert(relations[i].id, i);
        proof {
            assert(relations@.take(i + 1).drop_last() == relations@.take(i as int));
            assert forall|id: u64|
                match #[trigger] last_answer(relations@.take(i + 1), id) {
                    Some(relation) => index@.contains_key(id) && index@[id] < i + 1
                        && relations@[index@[id] as int] == relation,
                    None => !index@.contains_key(id),
                } by {
                if relations@[i as int].id != id {
                    assert(last_answer(relations@.take(i + 1), id) == last_answer(
                        relations@.take(i as int),
                        id,
                    ));
                }
            }
        }
        i += 1;
    }
    index
}

/// The candidates that are shown: those of `users`, in their order, that the answers
/// allow to propose.
pub fn confirm(users: &Vec<Profile>, relations: &Vec<RelationLookup>, whitelist: &Whitelist) -> (shown:
    Vec<Profile>)
    ensures
        shown@ == users@.filter(removable(relations@, whitelist@)),
{
    let ghost keep = removable(relations@, whitelist@);
    let index = index_answers(relations);
    let mut shown: Vec<Profile> = Vec::new();
    let mut i: usize = 0;
    proof {
        reveal(Seq::filter);
        assert(users@.take(0).filter(keep) =~= Seq::<Profile>::empty());
    }
    while i < users.len()
        invariant
            i <= users.len(),
            keep == removable(relations@, whitelist@),
            indexes(index@, relations@, relations@.len() as int),
            shown@ == users@.take(i as int).filter(keep),
        decreases users.len() - i,
    {
        let user = users[i];
        proof {
            assert(users@.take(i + 1) == users@.take(i as int).push(user));
            users@.take(i as int).lemma_filter_push(user, keep);
            assert(relations@.take(relations@.len() as int) == relations@);
            lemma_ids_are_ordered();
        }
        let proposed = !whitelist.contains(user.id) && match index.get(&user.id) {
            Some(k) => relations[*k].is_friend() && !relations[*k].is_follower(),
            None => false,
        };
        if proposed {
            shown.push(user);
        }
        i += 1;
    }
    assert(users@.take(users.len() as int) == users@);
    shown
}

} // verus!
