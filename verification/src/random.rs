//! Random order, and the bounded batches that the workers draw from it.
use rand::rngs::StdRng;
use rand::seq::SliceRandom;
use rand::SeedableRng;
use vstd::prelude::*;

verus! {

/// `rand::rngs::StdRng`, carried through as an opaque value.
#[verifier::external_type_specification]
#[verifier::external_body]
pub struct ExStdRng(StdRng);

/// The generator that `SeedableRng::seed_from_u64` makes of `seed`.
pub uninterp spec fn generator_of(seed: u64) -> StdRng;

/// Makes a generator with `SeedableRng::seed_from_u64`, which spreads the seed over
/// the generator's key and reads nothing else: the same seed gives the same
/// generator. What the generator then yields is not claimed.
#[verifier::external_body]
pub(crate) fn seeded(seed: u64) -> (rng: StdRng)
    ensures
        rng == generator_of(seed),
{
    StdRng::seed_from_u64(seed)
}

/// Shuffles `items` in place with `SliceRandom::shuffle`, which only swaps items: the
/// same items are there afterwards, each as often as before. Their order is not
/// claimed.
#[verifier::external_body]
pub(crate) fn shuffle<T>(items: &mut Vec<T>, rng: &mut StdRng)
    ensures
        final(items)@.to_multiset() == old(items)@.to_multiset(),
{
    items.shuffle(rng)
}

/// The smaller of two lengths.
pub open spec fn at_most(len: nat, limit: nat) -> nat {
    if len <= limit {
        len
    } else {
        limit
    }
}

/// Whether `batch` is the first `limit` items of `items` in some order, or all of them
/// where there are fewer.
pub open spec fn is_batch_of<T>(batch: Seq<T>, items: Seq<T>, limit: nat) -> bool {
    exists|order: Seq<T>|
        order.to_multiset() == items.to_multiset() && batch == #[trigger] order.take(
            at_most(items.len(), limit) as int,
        )
}

/// Whether `batch` is the first `limit` members of `pool` in some order, or all of
/// them where there are fewer. No member occurs twice.
pub open spec fn is_draw_from<T>(batch: Seq<T>, pool: Set<T>, limit: nat) -> bool {
    exists|order: Seq<T>|
        order.no_duplicates() && order.to_set() == pool && batch == #[trigger] order.take(
            at_most(order.len(), limit) as int,
        )
}

/// A list that was put in another order holds the same items, and none twice if
/// none was there twice.
pub proof fn lemma_reordered<T>(before: Seq<T>, after: Seq<T>)
    requires
        after.to_multiset() == before.to_multiset(),
    ensures
        after.len() == before.len(),
        after.to_set() == before.to_set(),
        before.no_duplicates() ==> after.no_duplicates(),
{
    before.to_multiset_ensures();
    after.to_multiset_ensures();
    assert forall|x: T| after.to_set().contains(x) == before.to_set().contains(x) by {
        vstd::seq_lib::to_multiset_contains(after, x);
        vstd::seq_lib::to_multiset_contains(before, x);
    }
    assert(after.to_set() =~= before.to_set());
    if before.no_duplicates() {
        before.lemma_multiset_has_no_duplicates();
        after.lemma_multiset_has_no_duplicates_conv();
    }
}

/// A batch of a list without duplicates is a draw from the list's items.
pub proof fn lemma_batch_is_draw<T>(batch: Seq<T>, items: Seq<T>, limit: nat)
    requires
        is_batch_of(batch, items, limit),
        items.no_duplicates(),
    ensures
        is_draw_from(batch, items.to_set(), limit),
{
    let order = choose|order: Seq<T>|
        order.to_multiset() == items.to_multiset() && batch == #[trigger] order.take(
            at_most(items.len(), limit) as int,
        );
    lemma_reordered(items, order);
    assert(batch == order.take(at_most(order.len(), limit) as int));
}

/// The first `limit` items of `items` as they stand, fewer where there are fewer.
pub fn take_first<T>(items: Vec<T>, limit: usize) -> (batch: Vec<T>)
    ensures
        batch@ == items@.take(at_most(items@.len(), limit as nat) as int),
{
    let mut batch = items;
    batch.truncate(limit);
    assert(batch@ =~= items@.take(at_most(items@.len(), limit as nat) as int));
    batch
}

/// Draws a batch of at most `limit` items from `items` at random.
pub fn pick_batch<T>(items: Vec<T>, limit: usize, rng: &mut StdRng) -> (batch: Vec<T>)
    ensures
        is_batch_of(batch@, items@, limit as nat),
{
    let mut order = items;
    shuffle(&mut order, rng);
    proof {
        order@.to_multiset_ensures();
        items@.to_multiset_ensures();
    }
    let ghost shuffled = order@;
    let batch = take_first(order, limit);
    assert(batch@ == shuffled.take(at_most(items@.len(), limit as nat) as int));
    batch
}

/// A batch is no longer than the limit and holds no item more often than it was there
/// to draw.
pub proof fn lemma_batch_is_bounded<T>(batch: Seq<T>, items: Seq<T>, limit: nat)
    requires
        is_batch_of(batch, items, limit),
    ensures
        batch.len() == at_most(items.len(), limit),
        batch.to_multiset().subset_of(items.to_multiset()),
        forall|i: int| 0 <= i < batch.len() ==> items.contains(#[trigger] batch[i]),
{
    let n = at_most(items.len(), limit) as int;
    let order = choose|order: Seq<T>|
        order.to_multiset() == items.to_multiset() && batch == #[trigger] order.take(n);
    order.to_multiset_ensures();
    items.to_multiset_ensures();
    batch.to_multiset_ensures();
    assert(order.len() == items.len());
    assert(order =~= order.take(n) + order.skip(n));
    vstd::seq_lib::lemma_multiset_commutative(order.take(n), order.skip(n));
    assert(batch.to_multiset().subset_of(items.to_multiset()));
    assert forall|i: int| 0 <= i < batch.len() implies items.contains(#[trigger] batch[i]) by {
        assert(order[i] == batch[i]);
        assert(order.to_multiset().count(order[i]) > 0);
    }
}

} // verus!
