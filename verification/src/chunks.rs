//! Cutting a list into pieces of bounded length.
use vstd::prelude::*;

verus! {

/// The pieces of `items`, in order: each holds `size` items but the last, which holds
/// what is left.
pub open spec fn chunks_of<T>(items: Seq<T>, size: nat) -> Seq<Seq<T>>
    recommends
        size > 0,
    decreases items.len(),
{
    if items.len() == 0 || size == 0 {
        Seq::empty()
    } else if items.len() <= size {
        seq![items]
    } else {
        seq![items.take(size as int)] + chunks_of(items.skip(size as int), size)
    }
}

/// Cuts `items` into pieces of `size` items; the last piece holds what is left.
pub fn split_chunks<T: Copy>(items: &Vec<T>, size: usize) -> (pieces: Vec<Vec<T>>)
    requires
        size > 0,
    ensures
        pieces@.len() == chunks_of(items@, size as nat).len(),
        forall|k: int| 0 <= k < pieces@.len() ==> (#[trigger] pieces@[k])@ == chunks_of(items@, size as nat)[k],
{
    let mut pieces: Vec<Vec<T>> = Vec::new();
    let mut start: usize = 0;
    assert(items@.skip(0) =~= items@);
    while start < items.len()
        invariant
            size > 0,
            start <= items.len(),
            chunks_of(items@, size as nat).len() == pieces@.len() + chunks_of(
                items@.skip(start as int),
                size as nat,
            ).len(),
            forall|k: int| 0 <= k < pieces@.len() ==> (#[trigger] pieces@[k])@ == chunks_of(items@, size as nat)[k],
            forall|k: int|
                0 <= k < chunks_of(items@.skip(start as int), size as nat).len() ==> chunks_of(
                    items@,
                    size as nat,
                )[pieces@.len() + k] == #[trigger] chunks_of(items@.skip(start as int), size as nat)[k],
        decreases items.len() - start,
    {
        let left: usize = items.len() - start;
        let n: usize = if left <= size {
            left
        } else {
            size
        };
        let mut piece: Vec<T> = Vec::new();
        let mut i: usize = 0;
        while i < n
            invariant
                i <= n,
                start + n <= items.len(),
                piece@ == items@.skip(start as int).take(i as int),
            decreases n - i,
        {
            piece.push(items[start + i]);
            assert(piece@ =~= items@.skip(start as int).take(i + 1));
            i += 1;
        }
        proof {
            let rest = items@.skip(start as int);
            let tail = chunks_of(rest, size as nat);
            assert(rest.len() == left);
            if left <= size {
                assert(rest.take(n as int) =~= rest);
                assert(tail =~= seq![rest]);
                assert(items@.skip(start + n).len() == 0);
                assert(chunks_of(items@.skip(start + n), size as nat).len() == 0);
            } else {
                assert(rest.skip(size as int) =~= items@.skip(start + n));
                assert(tail =~= seq![rest.take(size as int)] + chunks_of(items@.skip(start + n), size as nat));
                assert forall|k: int|
                    0 <= k < chunks_of(items@.skip(start + n), size as nat).len() implies chunks_of(
                    items@,
                    size as nat,
                )[pieces@.len() + 1 + k] == #[trigger] chunks_of(items@.skip(start + n), size as nat)[k] by {
                    assert(tail[k + 1] == chunks_of(items@.skip(start + n), size as nat)[k]);
                }
            }
            assert(tail[0] == piece@);
        }
        pieces.push(piece);
        start = start + n;
    }
    proof {
        assert(items@.skip(start as int).len() == 0);
    }
    pieces
}

/// The pieces put one after the other give the list back, and no piece is empty or
/// longer than `size`.
pub proof fn lemma_chunks_cover<T>(items: Seq<T>, size: nat)
    requires
        size > 0,
    ensures
        chunks_of(items, size).flatten() == items,
        forall|k: int|
            0 <= k < chunks_of(items, size).len() ==> 0 < (#[trigger] chunks_of(items, size)[k]).len()
                <= size,
    decreases items.len(),
{
    let pieces = chunks_of(items, size);
    if items.len() == 0 {
        assert(pieces.flatten() =~= items);
    } else if items.len() <= size {
        assert(seq![items] =~= Seq::<Seq<T>>::empty().push(items));
        assert(pieces.drop_first() =~= Seq::<Seq<T>>::empty());
        assert(pieces.flatten() =~= items) by {
            reveal_with_fuel(Seq::flatten, 2);
            assert(pieces.first() == items);
            assert(pieces.drop_first().flatten() =~= Seq::<T>::empty());
        }
    } else {
        let rest = items.skip(size as int);
        lemma_chunks_cover(rest, size);
        assert(pieces.first() == items.take(size as int));
        assert(pieces.drop_first() =~= chunks_of(rest, size));
        assert(pieces.flatten() =~= items.take(size as int) + rest);
        assert(items =~= items.take(size as int) + rest);
        assert forall|k: int| 0 <= k < pieces.len() implies 0 < (#[trigger] pieces[k]).len() <= size by {
            if k > 0 {
                assert(pieces[k] == chunks_of(rest, size)[k - 1]);
            }
        }
    }
}

} // verus!
