//! A queue whose rows are claimed under a lock that belongs to the consumer's session.
//!
//! A consumer claims the first row that no other session holds, and removes it in the
//! same attempt. A session that ends between the two steps lets go of its locks, and
//! the row can be claimed again.
use crate::sql::StoreError;
use vstd::multiset::Multiset;
use vstd::prelude::*;

verus! {

/// What the action executor is asked to do for one account.
#[derive(Clone, Copy, Debug, PartialEq, Eq, Structural)]
pub enum MessageType {
    /// Follow the account.
    Follow,
    /// Stop following the account.
    Remove,
}

/// One queued action.
#[derive(Clone, Copy, Debug, PartialEq, Eq, Structural)]
pub struct Message {
    pub user_id: u64,
    pub message_type: MessageType,
}

/// One row of a queue: its identifier, what it carries, and the session that holds
/// the lock keyed by the identifier, if any does.
#[derive(Clone, Copy, Debug)]
pub struct QueueRow<T> {
    pub id: u64,
    pub payload: T,
    pub holder: Option<u64>,
}

impl<T> QueueRow<T> {
    /// Whether `session` can take the row's lock: nobody holds it, or `session` does.
    pub open spec fn lockable_by(self, session: u64) -> bool {
        self.holder is None || self.holder == Some(session)
    }

    /// The row with its lock held by `session`.
    pub open spec fn held_by(self, session: u64) -> Self {
        QueueRow { id: self.id, payload: self.payload, holder: Some(session) }
    }

    /// The row with its lock free, if `session` held it; the row as it is, otherwise.
    pub open spec fn released_by(self, session: u64) -> Self {
        if self.holder == Some(session) {
            QueueRow { id: self.id, payload: self.payload, holder: None }
        } else {
            self
        }
    }
}

/// The state of a queue: its rows, oldest first, and the identifier of the next row.
pub struct QueueState<T> {
    pub rows: Seq<QueueRow<T>>,
    pub next_id: u64,
}

impl<T> QueueState<T> {
    /// Identifiers ascend along the rows and lie below `next_id`, so none occurs twice
    /// and none is handed out again.
    pub open spec fn wf(self) -> bool {
        &&& forall|i: int, j: int| 0 <= i < j < self.rows.len() ==> self.rows[i].id < self.rows[j].id
        &&& forall|i: int| 0 <= i < self.rows.len() ==> self.rows[i].id < self.next_id
    }

    pub open spec fn empty() -> Self {
        QueueState { rows: Seq::empty(), next_id: 0 }
    }

    /// Whether some row carries the identifier `row_id`.
    pub open spec fn has_row(self, row_id: u64) -> bool {
        exists|i: int| 0 <= i < self.rows.len() && self.rows[i].id == row_id
    }

    /// The place of the row with identifier `row_id`.
    pub open spec fn index_of(self, row_id: u64) -> int {
        choose|i: int| 0 <= i < self.rows.len() && self.rows[i].id == row_id
    }

    /// Whether `session` can claim a row.
    pub open spec fn has_lockable(self, session: u64) -> bool {
        exists|i: int| 0 <= i < self.rows.len() && self.rows[i].lockable_by(session)
    }

    /// Whether row `i` is the oldest that `session` can claim.
    pub open spec fn is_first_lockable(self, session: u64, i: int) -> bool {
        &&& 0 <= i < self.rows.len()
        &&& self.rows[i].lockable_by(session)
        &&& forall|j: int| 0 <= j < i ==> !self.rows[j].lockable_by(session)
    }

    /// The place of the oldest row that `session` can claim.
    pub open spec fn first_lockable(self, session: u64) -> int {
        choose|i: int| self.is_first_lockable(session, i)
    }

    /// A new row at the end, under the next identifier.
    pub open spec fn enqueue(self, payload: T) -> Self
        recommends
            self.next_id < u64::MAX,
    {
        QueueState {
            rows: self.rows.push(QueueRow { id: self.next_id, payload, holder: None }),
            next_id: (self.next_id + 1) as u64,
        }
    }

    /// How many rows can still be added before the identifiers run out.
    pub open spec fn room(self) -> nat {
        (u64::MAX - self.next_id) as nat
    }

    /// New rows at the end, one for each item of `payloads`, in their order.
    pub open spec fn enqueue_all(self, payloads: Seq<T>) -> Self
        decreases payloads.len(),
    {
        if payloads.len() == 0 {
            self
        } else {
            self.enqueue_all(payloads.drop_last()).enqueue(payloads.last())
        }
    }

    /// `session` takes the lock of the oldest row it can: the state after, and the
    /// identifier of that row. Without such a row nothing changes.
    pub open spec fn claim(self, session: u64) -> (Self, Option<u64>) {
        if self.has_lockable(session) {
            let i = self.first_lockable(session);
            (
                QueueState {
                    rows: self.rows.update(i, self.rows[i].held_by(session)),
                    next_id: self.next_id,
                },
                Some(self.rows[i].id),
            )
        } else {
            (self, None)
        }
    }

    /// Whether `session` holds the lock of the row `row_id`.
    pub open spec fn holds(self, session: u64, row_id: u64) -> bool {
        exists|i: int|
            0 <= i < self.rows.len() && self.rows[i].id == row_id && self.rows[i].holder == Some(
                session,
            )
    }

    /// `session` removes the row `row_id`, whose lock it holds, and the lock goes with
    /// the row: the state after, and what the row carried. Without that lock nothing
    /// changes.
    pub open spec fn commit(self, session: u64, row_id: u64) -> (Self, Option<T>) {
        if self.holds(session, row_id) {
            let i = self.index_of(row_id);
            (
                QueueState { rows: self.rows.remove(i), next_id: self.next_id },
                Some(self.rows[i].payload),
            )
        } else {
            (self, None)
        }
    }

    /// One whole attempt of `session`: claim, then remove.
    pub open spec fn dequeue(self, session: u64) -> (Self, Option<T>) {
        let (claimed, row) = self.claim(session);
        match row {
            Some(row_id) => claimed.commit(session, row_id),
            None => (self, None),
        }
    }

    /// The session ends: every lock it held is free, and no row is touched otherwise.
    pub open spec fn disconnect(self, session: u64) -> Self {
        QueueState {
            rows: Seq::new(self.rows.len(), |i: int| self.rows[i].released_by(session)),
            next_id: self.next_id,
        }
    }
}

impl<T> QueueState<T> {
    /// In a well-formed queue an identifier names one row.
    pub proof fn lemma_row_id_is_unique(self, row_id: u64, i: int)
        requires
            self.wf(),
            0 <= i < self.rows.len(),
            self.rows[i].id == row_id,
        ensures
            self.has_row(row_id),
            self.index_of(row_id) == i,
            forall|j: int| 0 <= j < self.rows.len() && self.rows[j].id == row_id ==> j == i,
    {
        assert forall|j: int| 0 <= j < self.rows.len() && self.rows[j].id == row_id implies j == i by {
            if j < i {
                assert(self.rows[j].id < self.rows[i].id);
            } else if i < j {
                assert(self.rows[i].id < self.rows[j].id);
            }
        }
    }
}

impl<T> QueueState<T> {
    /// Whether `session` holds no lock at all.
    pub open spec fn idle(self, session: u64) -> bool {
        forall|i: int| 0 <= i < self.rows.len() ==> self.rows[i].holder != Some(session)
    }

    /// Every step keeps a queue well-formed.
    pub proof fn lemma_steps_keep_wf(self, session: u64, row_id: u64, payload: T)
        requires
            self.wf(),
        ensures
            self.next_id < u64::MAX ==> self.enqueue(payload).wf(),
            self.claim(session).0.wf(),
            self.commit(session, row_id).0.wf(),
            self.dequeue(session).0.wf(),
            self.disconnect(session).wf(),
    {
        if self.has_lockable(session) {
            self.lemma_first_lockable(session);
        }
        if self.holds(session, row_id) {
            let i = choose|i: int|
                0 <= i < self.rows.len() && self.rows[i].id == row_id && self.rows[i].holder
                    == Some(session);
            self.lemma_row_id_is_unique(row_id, i);
        }
        self.lemma_dequeue_removes_first_lockable(session);
    }

    /// A whole attempt takes the oldest row that the session can claim out of the
    /// queue and touches no other row.
    pub proof fn lemma_dequeue_removes_first_lockable(self, session: u64)
        requires
            self.wf(),
        ensures
            !self.has_lockable(session) ==> self.dequeue(session) == (self, None::<T>),
            self.has_lockable(session) ==> ({
                let i = self.first_lockable(session);
                &&& self.is_first_lockable(session, i)
                &&& self.dequeue(session).1 == Some(self.rows[i].payload)
                &&& self.dequeue(session).0.rows == self.rows.remove(i)
                &&& self.dequeue(session).0.next_id == self.next_id
                &&& !self.dequeue(session).0.has_row(self.rows[i].id)
            }),
    {
        if self.has_lockable(session) {
            self.lemma_first_lockable(session);
            let i = self.first_lockable(session);
            let id = self.rows[i].id;
            let claimed = self.claim(session).0;
            assert(claimed.rows[i].id == id && claimed.rows[i].holder == Some(session));
            claimed.lemma_row_id_is_unique(id, i);
            assert(claimed.rows.remove(i) =~= self.rows.remove(i));
            let after = self.dequeue(session).0;
            assert forall|j: int| 0 <= j < after.rows.len() implies after.rows[j].id != id by {
                if j < i {
                    assert(self.rows[j].id < self.rows[i].id);
                } else {
                    assert(self.rows[i].id < self.rows[j + 1].id);
                }
            }
        }
    }

    /// Where a session can claim a row at all, there is an oldest such row.
    pub proof fn lemma_first_lockable(self, session: u64)
        requires
            self.has_lockable(session),
        ensures
            self.is_first_lockable(session, self.first_lockable(session)),
    {
        let k = choose|k: int| 0 <= k < self.rows.len() && self.rows[k].lockable_by(session);
        self.lemma_least_lockable(session, k);
    }

    proof fn lemma_least_lockable(self, session: u64, k: int)
        requires
            0 <= k < self.rows.len(),
            self.rows[k].lockable_by(session),
        ensures
            exists|i: int| self.is_first_lockable(session, i),
        decreases k,
    {
        if exists|j: int| 0 <= j < k && self.rows[j].lockable_by(session) {
            let j = choose|j: int| 0 <= j < k && self.rows[j].lockable_by(session);
            self.lemma_least_lockable(session, j);
        } else {
            assert(self.is_first_lockable(session, k));
        }
    }

    /// At most one live consumer. While one session holds the lock of a row that it
    /// claimed, a claim by another session does not yield that row, and the other
    /// session cannot remove it.
    pub proof fn lemma_claimed_row_is_exclusive(self, first: u64, second: u64)
        requires
            self.wf(),
            first != second,
        ensures
            self.claim(first).1 matches Some(row_id) ==> {
                &&& self.claim(first).0.holds(first, row_id)
                &&& self.claim(first).0.claim(second).1 != Some(row_id)
                &&& self.claim(first).0.commit(second, row_id) == (self.claim(first).0, None::<T>)
            },
    {
        if self.has_lockable(first) {
            self.lemma_first_lockable(first);
            let i = self.first_lockable(first);
            let row_id = self.rows[i].id;
            let claimed = self.claim(first).0;
            assert(claimed.rows[i].id == row_id && claimed.rows[i].holder == Some(first));
            claimed.lemma_row_id_is_unique(row_id, i);
            if claimed.has_lockable(second) {
                claimed.lemma_first_lockable(second);
                let j = claimed.first_lockable(second);
                if claimed.rows[j].id == row_id {
                    assert(j == i);
                }
            }
        }
    }

    /// Whether the row `row_id` was handed out and has left the queue.
    pub open spec fn gone(self, row_id: u64) -> bool {
        !self.has_row(row_id) && row_id < self.next_id
    }

    /// No item is delivered twice. The row that an attempt takes has left the queue,
    /// and a row that has left never comes back: no step puts it in again, and no new
    /// row gets its identifier.
    pub proof fn lemma_gone_stays_gone(self, gone_id: u64, session: u64, row_id: u64, payload: T)
        requires
            self.wf(),
        ensures
            self.has_lockable(session) ==> self.dequeue(session).0.gone(
                self.rows[self.first_lockable(session)].id,
            ),
            self.gone(gone_id) ==> {
                &&& self.next_id < u64::MAX ==> self.enqueue(payload).gone(gone_id)
                &&& self.claim(session).0.gone(gone_id)
                &&& self.commit(session, row_id).0.gone(gone_id)
                &&& self.dequeue(session).0.gone(gone_id)
                &&& self.disconnect(session).gone(gone_id)
            },
    {
        self.lemma_dequeue_removes_first_lockable(session);
        if self.has_lockable(session) {
            self.lemma_first_lockable(session);
        }
        if self.holds(session, row_id) {
            let i = choose|i: int|
                0 <= i < self.rows.len() && self.rows[i].id == row_id && self.rows[i].holder
                    == Some(session);
            self.lemma_row_id_is_unique(row_id, i);
        }
        if self.gone(gone_id) {
            let grown = self.enqueue(payload);
            assert forall|j: int| 0 <= j < grown.rows.len() implies grown.rows[j].id != gone_id by {
                if j < self.rows.len() {
                    assert(self.rows[j].id == grown.rows[j].id);
                }
            }
            let claimed = self.claim(session).0;
            assert forall|j: int| 0 <= j < claimed.rows.len() implies claimed.rows[j].id != gone_id by {
                assert(self.rows[j].id == claimed.rows[j].id);
            }
            let committed = self.commit(session, row_id).0;
            assert forall|j: int| 0 <= j < committed.rows.len() implies committed.rows[j].id
                != gone_id by {
                if self.holds(session, row_id) {
                    let i = self.index_of(row_id);
                    if j < i {
                        assert(committed.rows[j] == self.rows[j]);
                    } else {
                        assert(committed.rows[j] == self.rows[j + 1]);
                    }
                }
            }
            let taken = self.dequeue(session).0;
            assert forall|j: int| 0 <= j < taken.rows.len() implies taken.rows[j].id != gone_id by {
                if self.has_lockable(session) {
                    let i = self.first_lockable(session);
                    if j < i {
                        assert(taken.rows[j] == self.rows[j]);
                    } else {
                        assert(taken.rows[j] == self.rows[j + 1]);
                    }
                }
            }
            let freed = self.disconnect(session);
            assert forall|j: int| 0 <= j < freed.rows.len() implies freed.rows[j].id != gone_id by {
                assert(self.rows[j].id == freed.rows[j].id);
            }
        }
    }

    /// One item, two attempts, one delivery. When neither of two consumers can claim
    /// any row and an item is then added, the item goes to the consumer whose attempt
    /// comes first, and the other attempt finds the queue empty. This holds whether
    /// the second attempt starts after the first is over or between its two halves.
    pub proof fn lemma_one_item_is_delivered_once(self, payload: T, first: u64, second: u64)
        requires
            self.wf(),
            self.next_id < u64::MAX,
            !self.has_lockable(first),
            !self.has_lockable(second),
            first != second,
        ensures
            ({
                let filled = self.enqueue(payload);
                let (after_first, got_first) = filled.dequeue(first);
                let (after_second, got_second) = after_first.dequeue(second);
                &&& got_first == Some(payload)
                &&& got_second == None::<T>
                &&& after_first.rows == self.rows
                &&& after_second == after_first
            }),
            ({
                let filled = self.enqueue(payload);
                let (claimed, row) = filled.claim(first);
                let (contended, other_row) = claimed.claim(second);
                let (removed, got_first) = contended.commit(first, self.next_id);
                &&& row == Some(self.next_id)
                &&& other_row == None::<u64>
                &&& contended == claimed
                &&& got_first == Some(payload)
                &&& removed.rows == self.rows
                &&& removed.dequeue(second) == (removed, None::<T>)
            }),
    {
        let filled = self.enqueue(payload);
        let last = self.rows.len() as int;
        assert(filled.rows.len() == last + 1);
        assert(filled.rows[last].id == self.next_id);
        assert(filled.wf());
        assert forall|j: int| 0 <= j < last implies !filled.rows[j].lockable_by(first) by {
            assert(self.rows[j].lockable_by(first) ==> self.has_lockable(first));
        }
        assert(filled.is_first_lockable(first, last));
        filled.lemma_first_lockable(first);
        assert(filled.first_lockable(first) == last);
        filled.lemma_dequeue_removes_first_lockable(first);
        assert(filled.rows.remove(last) =~= self.rows);
        let drained = filled.dequeue(first).0;
        assert(drained.rows == self.rows);
        assert(!drained.has_lockable(second)) by {
            if drained.has_lockable(second) {
                let k = choose|k: int| 0 <= k < drained.rows.len() && drained.rows[k].lockable_by(second);
                assert(self.rows[k].lockable_by(second));
            }
        }
        drained.lemma_dequeue_removes_first_lockable(second);

        let claimed = filled.claim(first).0;
        assert(claimed.rows == filled.rows.update(last, filled.rows[last].held_by(first)));
        assert(claimed.rows.len() == last + 1);
        assert(claimed.rows[last].id == self.next_id && claimed.rows[last].holder == Some(first));
        assert(!claimed.has_lockable(second)) by {
            if claimed.has_lockable(second) {
                let k = choose|k: int| 0 <= k < claimed.rows.len() && claimed.rows[k].lockable_by(second);
                if k < last {
                    assert(self.rows[k].lockable_by(second));
                }
            }
        }
        assert(claimed.wf());
        claimed.lemma_row_id_is_unique(self.next_id, last);
        assert(claimed.holds(first, self.next_id));
        assert(claimed.rows.remove(last) =~= self.rows);
        assert(claimed.commit(first, self.next_id).0 == drained);
    }

    /// A consumer that goes away between the two halves of its attempt loses nothing.
    /// Its session ends, the lock of the row that it claimed is free again, and the
    /// row is still there: a consumer on a fresh session can claim it, and an attempt
    /// of that consumer does not come back empty. If the consumer that went away held
    /// no other lock, the queue is exactly as it was before the claim.
    pub proof fn lemma_lost_consumer_returns_row(self, lost: u64, fresh: u64)
        requires
            self.wf(),
            self.claim(lost).1 is Some,
        ensures
            ({
                let row_id = self.claim(lost).1->0;
                let recovered = self.claim(lost).0.disconnect(lost);
                &&& recovered.wf()
                &&& recovered.has_row(row_id)
                &&& recovered.rows[recovered.index_of(row_id)].holder is None
                &&& recovered.rows[recovered.index_of(row_id)].payload == self.rows[self.index_of(
                    row_id,
                )].payload
                &&& recovered.has_lockable(fresh)
                &&& recovered.dequeue(fresh).1 is Some
                &&& self.idle(lost) ==> recovered == self
            }),
    {
        self.lemma_first_lockable(lost);
        let i = self.first_lockable(lost);
        let row_id = self.rows[i].id;
        let claimed = self.claim(lost).0;
        let recovered = claimed.disconnect(lost);
        self.lemma_row_id_is_unique(row_id, i);
        assert(recovered.rows[i].id == row_id && recovered.rows[i].holder is None);
        recovered.lemma_row_id_is_unique(row_id, i);
        assert(recovered.rows[i].lockable_by(fresh));
        recovered.lemma_dequeue_removes_first_lockable(fresh);
        if self.idle(lost) {
            assert(recovered.rows =~= self.rows);
        }
    }
}

/// What `row` carries if `session` can claim it.
pub open spec fn payload_if_lockable<T>(session: u64) -> spec_fn(QueueRow<T>) -> Option<T> {
    |row: QueueRow<T>|
        if row.lockable_by(session) {
            Some(row.payload)
        } else {
            None
        }
}

/// Taking out an item that a pick keeps takes what it gave out of the kept ones.
proof fn lemma_filter_map_remove<A, B>(items: Seq<A>, pick: spec_fn(A) -> Option<B>, i: int)
    requires
        0 <= i < items.len(),
        pick(items[i]) is Some,
    ensures
        items.filter_map(pick).to_multiset() == items.remove(i).filter_map(pick).to_multiset().insert(
            pick(items[i])->0,
        ),
    decreases items.len(),
{
    broadcast use vstd::seq_lib::to_multiset_build;

    let rest = items.drop_last();
    let last = items.last();
    if i == items.len() - 1 {
        assert(items.remove(i) =~= rest);
        assert(items.filter_map(pick) =~= rest.filter_map(pick).push(pick(last)->0));
    } else {
        lemma_filter_map_remove(rest, pick, i);
        let without = items.remove(i);
        assert(without.drop_last() =~= rest.remove(i));
        assert(without.last() == last);
        match pick(last) {
            Some(kept) => {
                assert(items.filter_map(pick) =~= rest.filter_map(pick).push(kept));
                assert(without.filter_map(pick) =~= rest.remove(i).filter_map(pick).push(kept));
                assert(items.filter_map(pick).to_multiset() =~= without.filter_map(
                    pick,
                ).to_multiset().insert(pick(items[i])->0));
            },
            None => {
                assert(items.filter_map(pick) =~= rest.filter_map(pick));
                assert(without.filter_map(pick) =~= rest.remove(i).filter_map(pick));
            },
        }
    }
}

/// Where a pick keeps nothing, nothing is kept.
proof fn lemma_filter_map_none<A, B>(items: Seq<A>, pick: spec_fn(A) -> Option<B>)
    requires
        forall|i: int| 0 <= i < items.len() ==> pick(items[i]) is None,
    ensures
        items.filter_map(pick) == Seq::<B>::empty(),
    decreases items.len(),
{
    if items.len() > 0 {
        lemma_filter_map_none(items.drop_last(), pick);
    }
}

impl<T> QueueState<T> {
    /// What the rows that `session` can claim carry, without their order: a queue is
    /// a pool, and promises no order.
    pub open spec fn deliverable(self, session: u64) -> Multiset<T> {
        self.rows.filter_map(payload_if_lockable(session)).to_multiset()
    }

    /// A new row can be claimed by every session.
    pub proof fn lemma_enqueue_adds_deliverable(self, payload: T, session: u64)
        ensures
            self.enqueue(payload).deliverable(session) == self.deliverable(session).insert(payload),
    {
        broadcast use vstd::seq_lib::to_multiset_build;

        let pick = payload_if_lockable::<T>(session);
        let row = QueueRow { id: self.next_id, payload, holder: None };
        assert(self.rows.push(row).drop_last() =~= self.rows);
        assert(self.rows.push(row).filter_map(pick) =~= self.rows.filter_map(pick).push(payload));
    }

    /// A whole attempt takes one of the items that the session can claim, and comes
    /// back empty only when there is none.
    pub proof fn lemma_dequeue_takes_deliverable(self, session: u64)
        requires
            self.wf(),
        ensures
            match self.dequeue(session).1 {
                Some(payload) => {
                    &&& self.deliverable(session).contains(payload)
                    &&& self.dequeue(session).0.deliverable(session) == self.deliverable(
                        session,
                    ).remove(payload)
                },
                None => {
                    &&& self.deliverable(session) == Multiset::<T>::empty()
                    &&& self.dequeue(session).0 == self
                },
            },
    {
        let pick = payload_if_lockable::<T>(session);
        self.lemma_dequeue_removes_first_lockable(session);
        if self.has_lockable(session) {
            let i = self.first_lockable(session);
            lemma_filter_map_remove(self.rows, pick, i);
            let rest = self.dequeue(session).0.deliverable(session);
            let payload = self.rows[i].payload;
            assert(self.deliverable(session) == rest.insert(payload));
            assert(rest.insert(payload).remove(payload) =~= rest);
        } else {
            assert forall|i: int| 0 <= i < self.rows.len() implies pick(self.rows[i]) is None by {
                if self.rows[i].lockable_by(session) {
                    assert(self.has_lockable(session));
                }
            }
            lemma_filter_map_none(self.rows, pick);
            self.rows.filter_map(pick).to_multiset_ensures();
            vstd::multiset::lemma_multiset_empty_len(self.deliverable(session));
            assert(self.deliverable(session) =~= Multiset::<T>::empty());
        }
    }
}

/// A queue of actions, as a producer and one consumer use it. A store that implements
/// this hands each action to one consumer only.
pub trait MessageQueue {
    /// What a failure of the store looks like.
    type Error;

    /// Whether the handle can be used.
    spec fn usable(&self) -> bool;

    /// The actions that this consumer can take, without their order.
    spec fn waiting(&self) -> Multiset<Message>;

    /// Adds an action. A failure adds nothing.
    fn push_message(&mut self, msg: Message) -> (pushed: Result<(), Self::Error>)
        requires
            old(self).usable(),
        ensures
            final(self).usable(),
            pushed is Ok ==> final(self).waiting() == old(self).waiting().insert(msg),
            pushed is Err ==> final(self).waiting() == old(self).waiting(),
    ;

    /// Takes an action out for this consumer. `Ok(None)` says that none is waiting; a
    /// failure takes nothing.
    fn pop_message(&mut self) -> (popped: Result<Option<Message>, Self::Error>)
        requires
            old(self).usable(),
        ensures
            final(self).usable(),
            match popped {
                Ok(Some(msg)) => {
                    &&& old(self).waiting().contains(msg)
                    &&& final(self).waiting() == old(self).waiting().remove(msg)
                },
                Ok(None) => {
                    &&& old(self).waiting() == Multiset::<Message>::empty()
                    &&& final(self).waiting() == old(self).waiting()
                },
                Err(_) => final(self).waiting() == old(self).waiting(),
            },
    ;
}

/// A queue of accounts whose removal a person has to confirm.
pub trait ConfirmationQueue {
    /// What a failure of the store looks like.
    type Error;

    /// Whether the handle can be used.
    spec fn usable(&self) -> bool;

    /// The accounts that this consumer can take, without their order.
    spec fn proposed(&self) -> Multiset<u64>;

    /// Proposes an account. A failure adds nothing.
    fn push_remove_candidate(&mut self, user_id: u64) -> (pushed: Result<(), Self::Error>)
        requires
            old(self).usable(),
        ensures
            final(self).usable(),
            pushed is Ok ==> final(self).proposed() == old(self).proposed().insert(user_id),
            pushed is Err ==> final(self).proposed() == old(self).proposed(),
    ;

    /// Takes a proposed account out for this consumer. `Ok(None)` says that none is
    /// waiting; a failure takes nothing.
    fn pop_remove_candidate(&mut self) -> (popped: Result<Option<u64>, Self::Error>)
        requires
            old(self).usable(),
        ensures
            final(self).usable(),
            match popped {
                Ok(Some(user_id)) => {
                    &&& old(self).proposed().contains(user_id)
                    &&& final(self).proposed() == old(self).proposed().remove(user_id)
                },
                Ok(None) => {
                    &&& old(self).proposed() == Multiset::<u64>::empty()
                    &&& final(self).proposed() == old(self).proposed()
                },
                Err(_) => final(self).proposed() == old(self).proposed(),
            },
    ;
}

/// A queue of rows that carry a `T`.
pub struct ExclusiveQueue<T> {
    rows: Vec<QueueRow<T>>,
    next_id: u64,
}

impl<T> View for ExclusiveQueue<T> {
    type V = QueueState<T>;

    closed spec fn view(&self) -> QueueState<T> {
        QueueState { rows: self.rows@, next_id: self.next_id }
    }
}

impl<T: Copy> ExclusiveQueue<T> {
    /// A queue without rows.
    pub fn new() -> (queue: Self)
        ensures
            queue@ == QueueState::<T>::empty(),
            queue@.wf(),
    {
        ExclusiveQueue { rows: Vec::new(), next_id: 0 }
    }

    /// A queue without rows whose identifiers go on from `next_id`.
    pub fn starting_at(next_id: u64) -> (queue: Self)
        ensures
            queue@ == (QueueState::<T> { rows: Seq::empty(), next_id }),
            queue@.wf(),
    {
        ExclusiveQueue { rows: Vec::new(), next_id }
    }

    /// The number of rows, claimed or not.
    pub fn len(&self) -> (n: usize)
        ensures
            n == self@.rows.len(),
    {
        self.rows.len()
    }

    /// Adds a row that carries `payload` and returns its identifier. Fails, and leaves
    /// the queue as it was, only when no identifier is left.
    pub fn enqueue(&mut self, payload: T) -> (added: Result<u64, StoreError>)
        requires
            old(self)@.wf(),
        ensures
            final(self)@.wf(),
            old(self)@.next_id < u64::MAX ==> added == Ok::<u64, StoreError>(old(self)@.next_id)
                && final(self)@ == old(self)@.enqueue(payload),
            old(self)@.next_id == u64::MAX ==> added == Err::<u64, StoreError>(
                StoreError::RowIdsExhausted,
            ) && final(self)@ == old(self)@,
    {
        if self.next_id == u64::MAX {
            return Err(StoreError::RowIdsExhausted);
        }
        let id = self.next_id;
        self.next_id = id + 1;
        self.rows.push(QueueRow { id, payload, holder: None });
        Ok(id)
    }

    /// Adds a row for each item of `payloads`, in their order, and stops at the first
    /// that finds no identifier left: the rows before it stay added.
    pub fn enqueue_all(&mut self, payloads: &Vec<T>) -> (added: Result<(), StoreError>)
        requires
            old(self)@.wf(),
        ensures
            final(self)@.wf(),
            payloads@.len() <= old(self)@.room() ==> added == Ok::<(), StoreError>(()) && final(self)@
                == old(self)@.enqueue_all(payloads@),
            payloads@.len() > old(self)@.room() ==> added == Err::<(), StoreError>(
                StoreError::RowIdsExhausted,
            ) && final(self)@ == old(self)@.enqueue_all(payloads@.take(old(self)@.room() as int)),
    {
        let mut i: usize = 0;
        while i < payloads.len()
            invariant
                i <= payloads.len(),
                i <= old(self)@.room(),
                self@.wf(),
                self@ == old(self)@.enqueue_all(payloads@.take(i as int)),
                self@.next_id == old(self)@.next_id + i,
            decreases payloads.len() - i,
        {
            proof {
                assert(payloads@.take(i + 1).drop_last() == payloads@.take(i as int));
            }
            match self.enqueue(payloads[i]) {
                Ok(_) => {},
                Err(e) => {
                    return Err(e);
                },
            }
            i += 1;
        }
        assert(payloads@.take(payloads.len() as int) == payloads@);
        Ok(())
    }

    /// The place of the oldest row that `session` can claim, if there is one.
    fn find_lockable(&self, session: u64) -> (found: Option<usize>)
        ensures
            found is Some == self@.has_lockable(session),
            found matches Some(i) ==> i == self@.first_lockable(session) && self@.is_first_lockable(
                session,
                i as int,
            ),
    {
        let mut i: usize = 0;
        while i < self.rows.len()
            invariant
                i <= self.rows.len(),
                forall|j: int| 0 <= j < i ==> !self.rows@[j].lockable_by(session),
            decreases self.rows.len() - i,
        {
            let free = match self.rows[i].holder {
                None => true,
                Some(holder) => holder == session,
            };
            if free {
                assert(self@.is_first_lockable(session, i as int));
                return Some(i);
            }
            i += 1;
        }
        None
    }

    /// The first half of an attempt: `session` takes the lock of the oldest row that
    /// no other session holds, and learns the row's identifier. The row stays.
    pub fn try_claim(&mut self, session: u64) -> (claimed: Option<u64>)
        requires
            old(self)@.wf(),
        ensures
            final(self)@.wf(),
            (final(self)@, claimed) == old(self)@.claim(session),
    {
        match self.find_lockable(session) {
            Some(i) => {
                let row = self.rows[i];
                self.rows.set(i, QueueRow { id: row.id, payload: row.payload, holder: Some(session) });
                Some(row.id)
            },
            None => None,
        }
    }

    /// The place of the row `row_id`, if `session` holds its lock.
    fn find_held(&self, session: u64, row_id: u64) -> (found: Option<usize>)
        requires
            self@.wf(),
        ensures
            found is Some == self@.holds(session, row_id),
            found matches Some(i) ==> i == self@.index_of(row_id) && i < self@.rows.len(),
    {
        let mut i: usize = 0;
        while i < self.rows.len()
            invariant
                i <= self.rows.len(),
                self@.wf(),
                forall|j: int| 0 <= j < i ==> self.rows@[j].id != row_id,
            decreases self.rows.len() - i,
        {
            if self.rows[i].id == row_id {
                let held = match self.rows[i].holder {
                    None => false,
                    Some(holder) => holder == session,
                };
                proof {
                    self@.lemma_row_id_is_unique(row_id, i as int);
                }
                return if held {
                    Some(i)
                } else {
                    None
                };
            }
            i += 1;
        }
        None
    }

    /// The second half of an attempt: `session` removes the row `row_id` and gets what
    /// it carried; the lock goes with the row. A session that does not hold the row's
    /// lock gets nothing and changes nothing.
    pub fn commit(&mut self, session: u64, row_id: u64) -> (payload: Option<T>)
        requires
            old(self)@.wf(),
        ensures
            final(self)@.wf(),
            (final(self)@, payload) == old(self)@.commit(session, row_id),
    {
        match self.find_held(session, row_id) {
            Some(i) => {
                let row = self.rows.remove(i);
                Some(row.payload)
            },
            None => None,
        }
    }

    /// One whole attempt: `session` claims the oldest row that no other session holds
    /// and removes it, all at once. `None` says that there is no such row.
    pub fn dequeue(&mut self, session: u64) -> (payload: Option<T>)
        requires
            old(self)@.wf(),
        ensures
            final(self)@.wf(),
            (final(self)@, payload) == old(self)@.dequeue(session),
    {
        match self.try_claim(session) {
            Some(row_id) => self.commit(session, row_id),
            None => None,
        }
    }

    /// Ends `session`: every lock that it holds becomes free. Rows stay as they are.
    pub fn disconnect(&mut self, session: u64)
        requires
            old(self)@.wf(),
        ensures
            final(self)@.wf(),
            final(self)@ == old(self)@.disconnect(session),
    {
        let mut i: usize = 0;
        while i < self.rows.len()
            invariant
                i <= self.rows.len(),
                self.rows.len() == old(self).rows.len(),
                self.next_id == old(self).next_id,
                forall|k: int| 0 <= k < i ==> self.rows@[k] == old(self).rows@[k].released_by(session),
                forall|k: int| i <= k < self.rows.len() ==> self.rows@[k] == old(self).rows@[k],
            decreases self.rows.len() - i,
        {
            let row = self.rows[i];
            let held = match row.holder {
                None => false,
                Some(holder) => holder == session,
            };
            if held {
                self.rows.set(i, QueueRow { id: row.id, payload: row.payload, holder: None });
            }
            i += 1;
        }
        assert(self@.rows =~= old(self)@.disconnect(session).rows);
    }
}

} // verus!
