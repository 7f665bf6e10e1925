//! The difference between two lists of ids as the service numbers them: unsigned,
//! each once and in increasing order.
use std::collections::BTreeSet;
use vstd::prelude::*;
use vstd::std_specs::btree::{axiom_increasing_seq_meaning, increasing_seq, spec_btree_keys_iter};
use vstd::std_specs::cmp::OrdSpec;
use vstd::std_specs::iter::IteratorSpec;

verus! {

/// Each item is less than the next.
pub open spec fn increasing(s: Seq<u64>) -> bool {
    forall|i: int, j: int| 0 <= i < j < s.len() ==> s[i] < s[j]
}

/// The ids that occur in `left` and not in `right`.
pub open spec fn numbers_only_in(left: Seq<u64>, right: Seq<u64>) -> Set<u64> {
    left.to_set().difference(right.to_set())
}

/// In an increasing sequence nothing occurs twice.
pub proof fn lemma_increasing_has_no_duplicates(s: Seq<u64>)
    requires
        increasing(s),
    ensures
        s.no_duplicates(),
{
    assert forall|i: int, j: int| 0 <= i < s.len() && 0 <= j < s.len() && i != j implies s[i] != s[j] by {
        if i < j {
            assert(s[i] < s[j]);
        } else {
            assert(s[j] < s[i]);
        }
    }
}

/// An increasing sequence is determined by the set of its items.
pub proof fn lemma_increasing_is_determined(a: Seq<u64>, b: Seq<u64>)
    requires
        increasing(a),
        increasing(b),
        a.to_set() == b.to_set(),
    ensures
        a == b,
    decreases a.len(),
{
    if a.len() == 0 {
        if b.len() > 0 {
            assert(b.to_set().contains(b[0]));
            assert(a.contains(b[0]));
        }
        assert(a =~= b);
    } else {
        assert(a.to_set().contains(a.last()));
        assert(b.contains(a.last()));
        let kb = choose|k: int| 0 <= k < b.len() && b[k] == a.last();
        assert(b.to_set().contains(b.last()));
        assert(a.contains(b.last()));
        let ka = choose|k: int| 0 <= k < a.len() && a[k] == b.last();
        assert(a.last() == b.last()) by {
            if ka < a.len() - 1 {
                assert(a[ka] < a[a.len() - 1]);
            }
            if kb < b.len() - 1 {
                assert(b[kb] < b[b.len() - 1]);
            }
        }
        let a0 = a.drop_last();
        let b0 = b.drop_last();
        assert forall|x: u64| a0.to_set().contains(x) == b0.to_set().contains(x) by {
            if a0.contains(x) {
                let k = choose|k: int| 0 <= k < a0.len() && a0[k] == x;
                assert(a[k] == x && a[k] < a[a.len() - 1]);
                assert(a.to_set().contains(x));
                assert(b.contains(x));
                let m = choose|m: int| 0 <= m < b.len() && b[m] == x;
                assert(b0[m] == x);
            }
            if b0.contains(x) {
                let k = choose|k: int| 0 <= k < b0.len() && b0[k] == x;
                assert(b[k] == x && b[k] < b[b.len() - 1]);
                assert(b.to_set().contains(x));
                assert(a.contains(x));
                let m = choose|m: int| 0 <= m < a.len() && a[m] == x;
                assert(a0[m] == x);
            }
        }
        assert(a0.to_set() =~= b0.to_set());
        lemma_increasing_is_determined(a0, b0);
        assert(a =~= a0.push(a.last()));
        assert(b =~= b0.push(b.last()));
    }
}

/// The set of the ids in a list.
fn collect_numbers(ids: &Vec<u64>) -> (set: BTreeSet<u64>)
    ensures
        set@ == ids@.to_set(),
{
    let mut set: BTreeSet<u64> = BTreeSet::new();
    let mut i: usize = 0;
    while i < ids.len()
        invariant
            i <= ids.len(),
            set@ == ids@.take(i as int).to_set(),
        decreases ids.len() - i,
    {
        set.insert(ids[i]);
        proof {
            assert(ids@.take(i + 1) == ids@.take(i as int).push(ids@[i as int]));
            ids@.take(i as int).lemma_push_to_set_commute(ids@[i as int]);
        }
        i += 1;
    }
    assert(ids@.take(ids.len() as int) == ids@);
    set
}

/// What a set of ids yields when it is walked: its items in increasing order.
proof fn lemma_walk_ascends(keys: Seq<&u64>)
    requires
        increasing_seq(keys),
    ensures
        increasing(keys.unref()),
{
    broadcast use vstd::laws_cmp::group_laws_cmp;

    axiom_increasing_seq_meaning::<&u64>(keys);
    assert forall|i: int, j: int| 0 <= i < j < keys.unref().len() implies keys.unref()[i]
        < keys.unref()[j] by {
        let a = keys[i];
        let b = keys[j];
        assert((&a).cmp_spec(&b) is Less);
        assert(a.cmp_spec(b) is Less);
    }
}

/// Whether `x` is one of the first `n` items of `keys`.
spec fn among_first(keys: Seq<u64>, n: int, x: u64) -> bool {
    exists|j: int| 0 <= j < n && keys[j] == x
}

/// Sets of ids are kept in the order of the integers.
proof fn lemma_ids_are_ordered()
    ensures
        vstd::std_specs::btree::key_obeys_cmp_spec::<u64>(),
{
    broadcast use vstd::laws_cmp::group_laws_cmp;

}

/// The ids of `left` that are not in `right`, each once, in increasing order.
pub fn only_in_unsigned(left: &Vec<u64>, right: &Vec<u64>) -> (out: Vec<u64>)
    ensures
        increasing(out@),
        out@.to_set() == numbers_only_in(left@, right@),
{
    let keep = collect_numbers(left);
    let drop = collect_numbers(right);
    let mut out: Vec<u64> = Vec::new();
    let ghost keys: Seq<u64> = spec_btree_keys_iter(&keep).remaining().unref();
    proof {
        lemma_ids_are_ordered();
        lemma_walk_ascends(spec_btree_keys_iter(&keep).remaining());
    }
    for id in it: keep.iter()
        invariant
            it.seq().unref() == keys,
            keys.to_set() == keep@,
            increasing(keys),
            increasing(out@),
            forall|k: int|
                0 <= k < out.len() ==> !drop@.contains(#[trigger] out@[k]) && among_first(
                    keys,
                    it.index(),
                    out@[k],
                ),
            forall|j: int|
                0 <= j < it.index() && !drop@.contains(#[trigger] keys[j]) ==> out@.contains(keys[j]),
    {
        let ghost n = it.index();
        let ghost before = out@;
        assert(*id == keys[n]);
        if !drop.contains(id) {
            out.push(*id);
            proof {
                assert(out@.last() == keys[n]);
                assert forall|a: int, b: int| 0 <= a < b < out.len() implies out@[a] < out@[b] by {
                    if b == before.len() {
                        assert(among_first(keys, n, before[a]));
                        let j = choose|j: int| 0 <= j < n && keys[j] == before[a];
                        assert(keys[j] < keys[n]);
                    }
                }
            }
        }
        proof {
            assert forall|k: int| 0 <= k < out.len() implies !drop@.contains(#[trigger] out@[k])
                && among_first(keys, n + 1, out@[k]) by {
                if k < before.len() {
                    assert(among_first(keys, n, before[k]));
                    let j = choose|j: int| 0 <= j < n && keys[j] == before[k];
                    assert(keys[j] == out@[k]);
                } else {
                    assert(keys[n] == out@[k]);
                }
            }
            assert forall|j: int| 0 <= j < n + 1 && !drop@.contains(#[trigger] keys[j]) implies out@.contains(
                keys[j],
            ) by {
                if j < n {
                    let k = choose|k: int| 0 <= k < before.len() && before[k] == keys[j];
                    assert(out@[k] == keys[j]);
                } else {
                    assert(out@.last() == keys[j]);
                }
            }
        }
    }
    proof {
        assert forall|x: u64| out@.to_set().contains(x) == numbers_only_in(left@, right@).contains(x) by {
            if out@.contains(x) {
                let k = choose|k: int| 0 <= k < out.len() && out@[k] == x;
                assert(among_first(keys, keys.len() as int, out@[k]));
                let j = choose|j: int| 0 <= j < keys.len() && keys[j] == out@[k];
                assert(keys.to_set().contains(keys[j]));
            }
            if numbers_only_in(left@, right@).contains(x) {
                assert(keys.to_set().contains(x));
                let j = choose|j: int| 0 <= j < keys.len() && keys[j] == x;
                assert(out@.contains(keys[j]));
            }
        }
        assert(out@.to_set() =~= numbers_only_in(left@, right@));
    }
    out
}

} // verus!
