//! The difference between the two relations: the ids that are on one side and not on
//! the other, each once and in ascending order.
use crate::sql::user_ids::{confirmed_after, has_id, UserIdEntry};
use std::collections::BTreeSet;
use vstd::prelude::*;
use vstd::std_specs::btree::{increasing_seq, spec_btree_keys_iter, axiom_increasing_seq_meaning};
use vstd::std_specs::cmp::OrdSpec;
use vstd::std_specs::iter::IteratorSpec;

verus! {

/// Each item is less than the next.
pub open spec fn ascending(s: Seq<i64>) -> bool {
    forall|i: int, j: int| 0 <= i < j < s.len() ==> s[i] < s[j]
}

/// The ids that occur in `left` and not in `right`.
pub open spec fn ids_only_in(left: Seq<i64>, right: Seq<i64>) -> Set<i64> {
    left.to_set().difference(right.to_set())
}

/// The ids of both relations that count for one round: those confirmed after the
/// round's watermark.
pub struct Relations {
    /// The accounts that the operator follows.
    pub friends: Vec<i64>,
    /// The accounts that follow the operator.
    pub followers: Vec<i64>,
}

/// An ascending sequence is determined by the set of its items.
pub proof fn lemma_ascending_is_determined(a: Seq<i64>, b: Seq<i64>)
    requires
        ascending(a),
        ascending(b),
        a.to_set() == b.to_set(),
    ensures
        a == b,
    decreases a.len(),
{
    if a.len() == 0 {
        if b.len() > 0 {
            assert(b.to_set().contains(b[0]));
            assert(a.contains(b[0]));
        }
        assert(a =~= b);
    } else {
        assert(a.to_set().contains(a.last()));
        assert(b.contains(a.last()));
        let kb = choose|k: int| 0 <= k < b.len() && b[k] == a.last();
        assert(b.to_set().contains(b.last()));
        assert(a.contains(b.last()));
        let ka = choose|k: int| 0 <= k < a.len() && a[k] == b.last();
        assert(a.last() == b.last()) by {
            if ka < a.len() - 1 {
                assert(a[ka] < a[a.len() - 1]);
            }
            if kb < b.len() - 1 {
                assert(b[kb] < b[b.len() - 1]);
            }
        }
        let a0 = a.drop_last();
        let b0 = b.drop_last();
        assert forall|x: i64| a0.to_set().contains(x) == b0.to_set().contains(x) by {
            if a0.contains(x) {
                let k = choose|k: int| 0 <= k < a0.len() && a0[k] == x;
                assert(a[k] == x && a[k] < a[a.len() - 1]);
                assert(a.to_set().contains(x));
                assert(b.contains(x));
                let m = choose|m: int| 0 <= m < b.len() && b[m] == x;
                assert(b0[m] == x);
            }
            if b0.contains(x) {
                let k = choose|k: int| 0 <= k < b0.len() && b0[k] == x;
                assert(b[k] == x && b[k] < b[b.len() - 1]);
                assert(b.to_set().contains(x));
                assert(a.contains(x));
                let m = choose|m: int| 0 <= m < a.len() && a[m] == x;
                assert(a0[m] == x);
            }
        }
        assert(a0.to_set() =~= b0.to_set());
        lemma_ascending_is_determined(a0, b0);
        assert(a =~= a0.push(a.last()));
        assert(b =~= b0.push(b.last()));
    }
}

/// In an ascending sequence nothing occurs twice.
pub proof fn lemma_ascending_has_no_duplicates(s: Seq<i64>)
    requires
        ascending(s),
    ensures
        s.no_duplicates(),
{
    assert forall|i: int, j: int| 0 <= i < s.len() && 0 <= j < s.len() && i != j implies s[i] != s[j] by {
        if i < j {
            assert(s[i] < s[j]);
        } else {
            assert(s[j] < s[i]);
        }
    }
}

/// The set of the ids in a list.
fn collect_ids(ids: &Vec<i64>) -> (set: BTreeSet<i64>)
    ensures
        set@ == ids@.to_set(),
{
    let mut set: BTreeSet<i64> = BTreeSet::new();
    let mut i: usize = 0;
    while i < ids.len()
        invariant
            i <= ids.len(),
            set@ == ids@.take(i as int).to_set(),
        decreases ids.len() - i,
    {
        set.insert(ids[i]);
        proof {
            assert(ids@.take(i + 1) == ids@.take(i as int).push(ids@[i as int]));
            ids@.take(i as int).lemma_push_to_set_commute(ids@[i as int]);
        }
        i += 1;
    }
    assert(ids@.take(ids.len() as int) == ids@);
    set
}

/// What a set of ids yields when it is walked: its items in ascending order.
proof fn lemma_walk_ascends(keys: Seq<&i64>)
    requires
        increasing_seq(keys),
    ensures
        ascending(keys.unref()),
{
    broadcast use vstd::laws_cmp::group_laws_cmp;

    axiom_increasing_seq_meaning::<&i64>(keys);
    assert forall|i: int, j: int| 0 <= i < j < keys.unref().len() implies keys.unref()[i]
        < keys.unref()[j] by {
        let a = keys[i];
        let b = keys[j];
        assert((&a).cmp_spec(&b) is Less);
        assert(a.cmp_spec(b) is Less);
    }
}

/// Whether `x` is one of the first `n` items of `keys`.
spec fn among_first(keys: Seq<i64>, n: int, x: i64) -> bool {
    exists|j: int| 0 <= j < n && keys[j] == x
}

/// Sets of ids are kept in the order of the integers.
proof fn lemma_ids_are_ordered()
    ensures
        vstd::std_specs::btree::key_obeys_cmp_spec::<i64>(),
{
    broadcast use vstd::laws_cmp::group_laws_cmp;

}

/// The ids of `left` that are not in `right`, each once, in ascending order.
pub fn only_in(left: &Vec<i64>, right: &Vec<i64>) -> (out: Vec<i64>)
    ensures
        ascending(out@),
        out@.to_set() == ids_only_in(left@, right@),
{
    let keep = collect_ids(left);
    let drop = collect_ids(right);
    let mut out: Vec<i64> = Vec::new();
    let ghost keys: Seq<i64> = spec_btree_keys_iter(&keep).remaining().unref();
    proof {
        lemma_ids_are_ordered();
        lemma_walk_ascends(spec_btree_keys_iter(&keep).remaining());
    }
    for id in it: keep.iter()
        invariant
            it.seq().unref() == keys,
            keys.to_set() == keep@,
            ascending(keys),
            ascending(out@),
            forall|k: int|
                0 <= k < out.len() ==> !drop@.contains(#[trigger] out@[k]) && among_first(
                    keys,
                    it.index(),
                    out@[k],
                ),
            forall|j: int|
                0 <= j < it.index() && !drop@.contains(#[trigger] keys[j]) ==> out@.contains(keys[j]),
    {
        let ghost n = it.index();
        let ghost before = out@;
        assert(*id == keys[n]);
        if !drop.contains(id) {
            out.push(*id);
            proof {
                assert(out@.last() == keys[n]);
                assert forall|a: int, b: int| 0 <= a < b < out.len() implies out@[a] < out@[b] by {
                    if b == before.len() {
                        assert(among_first(keys, n, before[a]));
                        let j = choose|j: int| 0 <= j < n && keys[j] == before[a];
                        assert(keys[j] < keys[n]);
                    }
                }
            }
        }
        proof {
            assert forall|k: int| 0 <= k < out.len() implies !drop@.contains(#[trigger] out@[k])
                && among_first(keys, n + 1, out@[k]) by {
                if k < before.len() {
                    assert(among_first(keys, n, before[k]));
                    let j = choose|j: int| 0 <= j < n && keys[j] == before[k];
                    assert(keys[j] == out@[k]);
                } else {
                    assert(keys[n] == out@[k]);
                }
            }
            assert forall|j: int| 0 <= j < n + 1 && !drop@.contains(#[trigger] keys[j]) implies out@.contains(
                keys[j],
            ) by {
                if j < n {
                    let k = choose|k: int| 0 <= k < before.len() && before[k] == keys[j];
                    assert(out@[k] == keys[j]);
                } else {
                    assert(out@.last() == keys[j]);
                }
            }
        }
    }
    proof {
        assert forall|x: i64| out@.to_set().contains(x) == ids_only_in(left@, right@).contains(x) by {
            if out@.contains(x) {
                let k = choose|k: int| 0 <= k < out.len() && out@[k] == x;
                assert(among_first(keys, keys.len() as int, out@[k]));
                let j = choose|j: int| 0 <= j < keys.len() && keys[j] == out@[k];
                assert(keys.to_set().contains(keys[j]));
            }
            if ids_only_in(left@, right@).contains(x) {
                assert(keys.to_set().contains(x));
                let j = choose|j: int| 0 <= j < keys.len() && keys[j] == x;
                assert(out@.contains(keys[j]));
            }
        }
        assert(out@.to_set() =~= ids_only_in(left@, right@));
    }
    out
}

/// Which side of the relation a difference keeps.
#[derive(Clone, Copy, Debug, PartialEq, Eq, Structural)]
pub enum Direction {
    /// Accounts that the operator follows and that do not follow back.
    FriendsMinusFollowers,
    /// Accounts that follow the operator and that the operator does not follow.
    FollowersMinusFriends,
}

/// The ids that the difference in `direction` holds, given the rows of both relations:
/// those confirmed after `watermark` on the side that is kept and not confirmed after
/// `watermark` on the other.
pub open spec fn difference_of(
    friends: Seq<UserIdEntry>,
    followers: Seq<UserIdEntry>,
    watermark: i64,
    direction: Direction,
) -> Set<i64> {
    match direction {
        Direction::FriendsMinusFollowers => ids_only_in(
            confirmed_after(friends, watermark),
            confirmed_after(followers, watermark),
        ),
        Direction::FollowersMinusFriends => ids_only_in(
            confirmed_after(followers, watermark),
            confirmed_after(friends, watermark),
        ),
    }
}

/// Whether `rows` holds `id` with a confirmation after `watermark`.
pub open spec fn fresh_in(rows: Seq<UserIdEntry>, id: i64, watermark: i64) -> bool {
    exists|i: int| 0 <= i < rows.len() && rows[i].id == id && rows[i].confirmed_at > watermark
}

/// An id is confirmed after a watermark in a relation exactly if one of the relation's
/// rows says so.
pub proof fn lemma_confirmed_after_holds(rows: Seq<UserIdEntry>, watermark: i64, id: i64)
    ensures
        confirmed_after(rows, watermark).to_set().contains(id) == fresh_in(rows, id, watermark),
    decreases rows.len(),
{
    let pick = crate::sql::user_ids::id_if_confirmed_after(watermark);
    if rows.len() > 0 {
        let rest = rows.drop_last();
        lemma_confirmed_after_holds(rest, watermark, id);
        let last = rows.last();
        let kept = rest.filter_map(pick);
        if fresh_in(rows, id, watermark) {
            let i = choose|i: int| 0 <= i < rows.len() && rows[i].id == id && rows[i].confirmed_at > watermark;
            if i < rows.len() - 1 {
                assert(rest[i].id == id);
                assert(fresh_in(rest, id, watermark));
                let k = choose|k: int| 0 <= k < kept.len() && kept[k] == id;
                assert(rows.filter_map(pick)[k] == id);
            } else {
                assert(rows.filter_map(pick).last() == id);
            }
        }
        if confirmed_after(rows, watermark).contains(id) {
            let k = choose|k: int|
                0 <= k < rows.filter_map(pick).len() && rows.filter_map(pick)[k] == id;
            if k < kept.len() {
                assert(kept[k] == id);
                assert(kept.contains(id));
                let i = choose|i: int| 0 <= i < rest.len() && rest[i].id == id && rest[i].confirmed_at > watermark;
                assert(rows[i].id == id);
            } else {
                assert(rows[rows.len() - 1].id == id);
            }
        }
    }
}

/// What the difference holds, row by row: the ids that some row of the kept side
/// confirms after the watermark and that no row of the other side confirms after it.
pub proof fn lemma_difference_is_exact(
    friends: Seq<UserIdEntry>,
    followers: Seq<UserIdEntry>,
    watermark: i64,
    id: i64,
)
    ensures
        difference_of(friends, followers, watermark, Direction::FriendsMinusFollowers).contains(id)
            == (fresh_in(friends, id, watermark) && !fresh_in(followers, id, watermark)),
        difference_of(friends, followers, watermark, Direction::FollowersMinusFriends).contains(id)
            == (fresh_in(followers, id, watermark) && !fresh_in(friends, id, watermark)),
{
    lemma_confirmed_after_holds(friends, watermark, id);
    lemma_confirmed_after_holds(followers, watermark, id);
}

/// Each direction is the other with the two relations exchanged, the two directions
/// share no id, and together they hold the ids that exactly one relation confirms
/// after the watermark.
pub proof fn lemma_directions_mirror(
    friends: Seq<UserIdEntry>,
    followers: Seq<UserIdEntry>,
    watermark: i64,
)
    ensures
        difference_of(friends, followers, watermark, Direction::FriendsMinusFollowers)
            == difference_of(followers, friends, watermark, Direction::FollowersMinusFriends),
        difference_of(friends, followers, watermark, Direction::FollowersMinusFriends)
            == difference_of(followers, friends, watermark, Direction::FriendsMinusFollowers),
        difference_of(friends, followers, watermark, Direction::FriendsMinusFollowers).disjoint(
            difference_of(friends, followers, watermark, Direction::FollowersMinusFriends),
        ),
        forall|id: i64|
            (difference_of(friends, followers, watermark, Direction::FriendsMinusFollowers).contains(id)
                || difference_of(
                friends,
                followers,
                watermark,
                Direction::FollowersMinusFriends,
            ).contains(id)) == (fresh_in(friends, id, watermark) != fresh_in(
                followers,
                id,
                watermark,
            )),
{
    assert forall|id: i64|
        (difference_of(friends, followers, watermark, Direction::FriendsMinusFollowers).contains(id)
            || difference_of(friends, followers, watermark, Direction::FollowersMinusFriends).contains(
            id,
        )) == (fresh_in(friends, id, watermark) != fresh_in(followers, id, watermark)) by {
        lemma_difference_is_exact(friends, followers, watermark, id);
    }
}

/// Where no id is in both relations, the difference that keeps the friends holds
/// every friend confirmed after the watermark, and likewise for the followers.
pub proof fn lemma_difference_of_disjoint(
    friends: Seq<UserIdEntry>,
    followers: Seq<UserIdEntry>,
    watermark: i64,
)
    requires
        forall|id: i64| !(has_id(friends, id) && has_id(followers, id)),
    ensures
        difference_of(friends, followers, watermark, Direction::FriendsMinusFollowers)
            == confirmed_after(friends, watermark).to_set(),
        difference_of(friends, followers, watermark, Direction::FollowersMinusFriends)
            == confirmed_after(followers, watermark).to_set(),
{
    let kept_friends = difference_of(friends, followers, watermark, Direction::FriendsMinusFollowers);
    let kept_followers = difference_of(friends, followers, watermark, Direction::FollowersMinusFriends);
    assert forall|id: i64| kept_friends.contains(id) == confirmed_after(friends, watermark).to_set().contains(
        id,
    ) by {
        lemma_confirmed_after_holds(friends, watermark, id);
        lemma_confirmed_after_holds(followers, watermark, id);
        if fresh_in(friends, id, watermark) && fresh_in(followers, id, watermark) {
            assert(has_id(friends, id) && has_id(followers, id));
        }
    }
    assert forall|id: i64| kept_followers.contains(id) == confirmed_after(
        followers,
        watermark,
    ).to_set().contains(id) by {
        lemma_confirmed_after_holds(friends, watermark, id);
        lemma_confirmed_after_holds(followers, watermark, id);
        if fresh_in(friends, id, watermark) && fresh_in(followers, id, watermark) {
            assert(has_id(friends, id) && has_id(followers, id));
        }
    }
    assert(kept_friends =~= confirmed_after(friends, watermark).to_set());
    assert(kept_followers =~= confirmed_after(followers, watermark).to_set());
}

/// Two stores whose relations are exchanged answer opposite directions alike, item
/// for item.
pub proof fn lemma_exchanged_results_agree(
    friends: Seq<UserIdEntry>,
    followers: Seq<UserIdEntry>,
    watermark: i64,
    one: Seq<i64>,
    other: Seq<i64>,
)
    requires
        ascending(one),
        ascending(other),
        one.to_set() == difference_of(friends, followers, watermark, Direction::FriendsMinusFollowers),
        other.to_set() == difference_of(followers, friends, watermark, Direction::FollowersMinusFriends),
    ensures
        one == other,
{
    lemma_ascending_is_determined(one, other);
}

} // verus!
