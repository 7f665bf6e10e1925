//! The persistent store as the pipeline sees it: two timestamped id sets and two
//! queues whose rows go to one consumer each.
use crate::difference::Relations;
use crate::sql::queue::{ConfirmationQueue, ExclusiveQueue, Message, MessageQueue};
use crate::sql::user_ids::{IdTable, UserIdClient, UserIdEntry};
use crate::sql::whitelist::Whitelist;
use vstd::multiset::Multiset;
use vstd::prelude::*;

pub mod queue;
pub mod user_ids;
pub mod whitelist;

verus! {

/// Why the store did not carry an operation out.
#[derive(Clone, Copy, Debug, PartialEq, Eq, Structural)]
pub enum StoreError {
    /// Every row identifier of the queue has been handed out.
    RowIdsExhausted,
}

/// The store, held in memory.
pub struct MemoryStore {
    /// The accounts that the operator follows.
    pub friends: IdTable,
    /// The accounts that follow the operator.
    pub followers: IdTable,
    /// Actions that wait for the executor.
    pub messages: ExclusiveQueue<Message>,
    /// Accounts whose removal waits for a person's confirmation.
    pub candidates: ExclusiveQueue<u64>,
    /// Accounts that are never proposed for removal.
    pub whitelist: Whitelist,
    /// The session of the connection through which the queues are used.
    pub session: u64,
}

impl MemoryStore {
    /// Both tables and both queues are well-formed.
    pub open spec fn wf(&self) -> bool {
        &&& self.friends.wf()
        &&& self.followers.wf()
        &&& self.messages@.wf()
        &&& self.candidates@.wf()
    }

    /// The table of one relation.
    pub open spec fn table(&self, follower: bool) -> IdTable {
        if follower {
            self.followers
        } else {
            self.friends
        }
    }

    /// A store without any row.
    pub fn new() -> (store: Self)
        ensures
            store.wf(),
            store.friends@ == Seq::<UserIdEntry>::empty(),
            store.followers@ == Seq::<UserIdEntry>::empty(),
            store.messages@ == crate::sql::queue::QueueState::<Message>::empty(),
            store.candidates@ == crate::sql::queue::QueueState::<u64>::empty(),
            store.whitelist@ == Set::<u64>::empty(),
            store.session == 0,
    {
        MemoryStore {
            friends: IdTable::new(),
            followers: IdTable::new(),
            messages: ExclusiveQueue::new(),
            candidates: ExclusiveQueue::new(),
            whitelist: Whitelist::new(),
            session: 0,
        }
    }

    /// Records that `ids` were seen at `now` as followers, if `follower` is set, and as
    /// friends otherwise. The other relation and the queues stay as they are.
    pub fn put_user_ids(&mut self, ids: &[u64], follower: bool, now: i64)
        requires
            old(self).wf(),
        ensures
            final(self).wf(),
            final(self).table(follower)@ == crate::sql::user_ids::upserted_all(
                old(self).table(follower)@,
                crate::sql::user_ids::all_signed(ids@),
                now,
            ),
            final(self).table(!follower) == old(self).table(!follower),
            final(self).messages == old(self).messages,
            final(self).candidates == old(self).candidates,
            final(self).whitelist == old(self).whitelist,
            final(self).session == old(self).session,
    {
        if follower {
            self.followers.put_user_ids(ids, now);
        } else {
            self.friends.put_user_ids(ids, now);
        }
    }

    /// The ids of one relation that were confirmed after `confirmed_after`.
    pub fn get_user_ids(&self, follower: bool, confirmed_after: i64) -> (ids: Vec<i64>)
        ensures
            ids@ == crate::sql::user_ids::confirmed_after(self.table(follower)@, confirmed_after),
    {
        if follower {
            self.followers.get_user_ids(confirmed_after)
        } else {
            self.friends.get_user_ids(confirmed_after)
        }
    }

    /// The ids of both relations that were confirmed after `confirmed_after`.
    pub fn relations_at(&self, confirmed_after: i64) -> (relations: Relations)
        ensures
            relations.friends@ == crate::sql::user_ids::confirmed_after(
                self.friends@,
                confirmed_after,
            ),
            relations.followers@ == crate::sql::user_ids::confirmed_after(
                self.followers@,
                confirmed_after,
            ),
    {
        Relations {
            friends: self.friends.get_user_ids(confirmed_after),
            followers: self.followers.get_user_ids(confirmed_after),
        }
    }

    /// The connection is lost and a new one, with the session `session`, takes its
    /// place: the locks of the old session are free on both queues, and the rows stay.
    pub fn reconnect(&mut self, session: u64)
        requires
            old(self).wf(),
        ensures
            final(self).wf(),
            final(self).session == session,
            final(self).messages@ == old(self).messages@.disconnect(old(self).session),
            final(self).candidates@ == old(self).candidates@.disconnect(old(self).session),
            final(self).friends == old(self).friends,
            final(self).followers == old(self).followers,
            final(self).whitelist == old(self).whitelist,
    {
        self.messages.disconnect(self.session);
        self.candidates.disconnect(self.session);
        self.session = session;
    }
}

impl UserIdClient for MemoryStore {
    type Error = StoreError;

    open spec fn entries(&self, follower: bool) -> Seq<UserIdEntry> {
        self.table(follower)@
    }

    /// Reads every row of one relation. The store in memory does not fail.
    fn get_all_user_id_entries(&self, follower: bool) -> (entries: Result<Vec<UserIdEntry>, StoreError>)
        ensures
            entries is Ok,
    {
        if follower {
            Ok(self.followers.entries())
        } else {
            Ok(self.friends.entries())
        }
    }
}

impl MessageQueue for MemoryStore {
    type Error = StoreError;

    open spec fn usable(&self) -> bool {
        self.wf()
    }

    open spec fn waiting(&self) -> Multiset<Message> {
        self.messages@.deliverable(self.session)
    }

    /// Adds an action at the end of the queue. Fails only when the queue has no row
    /// identifier left.
    fn push_message(&mut self, msg: Message) -> (pushed: Result<(), StoreError>)
        ensures
            pushed is Ok <==> old(self).messages@.next_id < u64::MAX,
            pushed is Ok ==> final(self).messages@ == old(self).messages@.enqueue(msg),
            pushed is Err ==> pushed == Err::<(), StoreError>(StoreError::RowIdsExhausted)
                && final(self).messages@ == old(self).messages@,
            final(self).candidates == old(self).candidates,
            final(self).friends == old(self).friends,
            final(self).followers == old(self).followers,
            final(self).whitelist == old(self).whitelist,
            final(self).session == old(self).session,
    {
        proof {
            self.messages@.lemma_enqueue_adds_deliverable(msg, self.session);
        }
        match self.messages.enqueue(msg) {
            Ok(_) => Ok(()),
            Err(e) => Err(e),
        }
    }

    /// Takes the oldest action that no other session holds. The store in memory does
    /// not fail.
    fn pop_message(&mut self) -> (popped: Result<Option<Message>, StoreError>)
        ensures
            popped is Ok,
            (final(self).messages@, popped->Ok_0) == old(self).messages@.dequeue(old(self).session),
            final(self).candidates == old(self).candidates,
            final(self).friends == old(self).friends,
            final(self).followers == old(self).followers,
            final(self).whitelist == old(self).whitelist,
            final(self).session == old(self).session,
    {
        proof {
            self.messages@.lemma_dequeue_takes_deliverable(self.session);
        }
        Ok(self.messages.dequeue(self.session))
    }
}

impl ConfirmationQueue for MemoryStore {
    type Error = StoreError;

    open spec fn usable(&self) -> bool {
        self.wf()
    }

    open spec fn proposed(&self) -> Multiset<u64> {
        self.candidates@.deliverable(self.session)
    }

    /// Adds an account at the end of the queue. Fails only when the queue has no row
    /// identifier left.
    fn push_remove_candidate(&mut self, user_id: u64) -> (pushed: Result<(), StoreError>)
        ensures
            pushed is Ok <==> old(self).candidates@.next_id < u64::MAX,
            pushed is Ok ==> final(self).candidates@ == old(self).candidates@.enqueue(user_id),
            pushed is Err ==> pushed == Err::<(), StoreError>(StoreError::RowIdsExhausted)
                && final(self).candidates@ == old(self).candidates@,
            final(self).messages == old(self).messages,
            final(self).friends == old(self).friends,
            final(self).followers == old(self).followers,
            final(self).whitelist == old(self).whitelist,
            final(self).session == old(self).session,
    {
        proof {
            self.candidates@.lemma_enqueue_adds_deliverable(user_id, self.session);
        }
        match self.candidates.enqueue(user_id) {
            Ok(_) => Ok(()),
            Err(e) => Err(e),
        }
    }

    /// Takes the oldest account that no other session holds. The store in memory does
    /// not fail.
    fn pop_remove_candidate(&mut self) -> (popped: Result<Option<u64>, StoreError>)
        ensures
            popped is Ok,
            (final(self).candidates@, popped->Ok_0) == old(self).candidates@.dequeue(old(self).session),
            final(self).messages == old(self).messages,
            final(self).friends == old(self).friends,
            final(self).followers == old(self).followers,
            final(self).whitelist == old(self).whitelist,
            final(self).session == old(self).session,
    {
        proof {
            self.candidates@.lemma_dequeue_takes_deliverable(self.session);
        }
        Ok(self.candidates.dequeue(self.session))
    }
}

} // verus!
