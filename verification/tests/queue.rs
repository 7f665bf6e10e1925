use twitter_pipeline::sql::queue::{
    ConfirmationQueue, ExclusiveQueue, Message, MessageQueue, MessageType,
};
use twitter_pipeline::sql::{MemoryStore, StoreError};

fn follow(user_id: u64) -> Message {
    Message { user_id, message_type: MessageType::Follow }
}

#[test]
fn dequeue_hands_the_item_to_one_attempt() {
    let mut queue: ExclusiveQueue<Message> = ExclusiveQueue::new();
    assert_eq!(queue.enqueue(follow(42)), Ok(0));
    assert_eq!(queue.dequeue(1), Some(follow(42)));
    assert_eq!(queue.dequeue(2), None);
    assert_eq!(queue.len(), 0);
}

#[test]
fn interleaved_attempts_deliver_once() {
    let mut queue: ExclusiveQueue<Message> = ExclusiveQueue::new();
    assert_eq!(queue.enqueue(follow(42)), Ok(0));
    // Both consumers start before either has removed the row.
    assert_eq!(queue.try_claim(1), Some(0));
    assert_eq!(queue.try_claim(2), None);
    assert_eq!(queue.commit(2, 0), None);
    assert_eq!(queue.commit(1, 0), Some(follow(42)));
    assert_eq!(queue.dequeue(2), None);
    assert_eq!(queue.len(), 0);
}

#[test]
fn lost_consumer_gives_the_row_back() {
    let mut queue: ExclusiveQueue<Message> = ExclusiveQueue::new();
    assert_eq!(queue.enqueue(follow(7)), Ok(0));
    assert_eq!(queue.try_claim(1), Some(0));
    // While the first consumer holds the lock nobody else sees the row.
    assert_eq!(queue.dequeue(2), None);
    assert_eq!(queue.len(), 1);
    // The first consumer's session ends before it removed the row.
    queue.disconnect(1);
    assert_eq!(queue.dequeue(2), Some(follow(7)));
    assert_eq!(queue.len(), 0);
}

#[test]
fn claim_is_reentrant_for_the_holder() {
    let mut queue: ExclusiveQueue<u64> = ExclusiveQueue::new();
    assert_eq!(queue.enqueue(5), Ok(0));
    assert_eq!(queue.enqueue(6), Ok(1));
    assert_eq!(queue.try_claim(1), Some(0));
    assert_eq!(queue.try_claim(1), Some(0));
    assert_eq!(queue.try_claim(2), Some(1));
    assert_eq!(queue.try_claim(3), None);
}

#[test]
fn commit_needs_the_lock() {
    let mut queue: ExclusiveQueue<u64> = ExclusiveQueue::new();
    assert_eq!(queue.enqueue(5), Ok(0));
    assert_eq!(queue.commit(1, 0), None);
    assert_eq!(queue.commit(1, 9), None);
    assert_eq!(queue.len(), 1);
}

#[test]
fn dequeue_skips_rows_held_by_others() {
    let mut queue: ExclusiveQueue<u64> = ExclusiveQueue::new();
    assert_eq!(queue.enqueue(10), Ok(0));
    assert_eq!(queue.enqueue(20), Ok(1));
    assert_eq!(queue.enqueue(30), Ok(2));
    assert_eq!(queue.try_claim(1), Some(0));
    assert_eq!(queue.dequeue(2), Some(20));
    assert_eq!(queue.dequeue(2), Some(30));
    assert_eq!(queue.dequeue(2), None);
    assert_eq!(queue.dequeue(1), Some(10));
}

#[test]
fn identifiers_are_never_reused() {
    let mut queue: ExclusiveQueue<u64> = ExclusiveQueue::new();
    assert_eq!(queue.enqueue(1), Ok(0));
    assert_eq!(queue.dequeue(1), Some(1));
    assert_eq!(queue.enqueue(2), Ok(1));
}

#[test]
fn enqueue_fails_when_identifiers_run_out() {
    let mut queue: ExclusiveQueue<u64> = ExclusiveQueue::starting_at(u64::MAX - 1);
    assert_eq!(queue.enqueue(1), Ok(u64::MAX - 1));
    assert_eq!(queue.enqueue(2), Err(StoreError::RowIdsExhausted));
    assert_eq!(queue.len(), 1);
}

#[test]
fn enqueue_all_keeps_what_fitted() {
    let mut queue: ExclusiveQueue<u64> = ExclusiveQueue::starting_at(u64::MAX - 2);
    assert_eq!(queue.enqueue_all(&vec![1, 2, 3]), Err(StoreError::RowIdsExhausted));
    assert_eq!(queue.len(), 2);
    assert_eq!(queue.dequeue(1), Some(1));
    assert_eq!(queue.dequeue(1), Some(2));

    let mut roomy: ExclusiveQueue<u64> = ExclusiveQueue::new();
    assert_eq!(roomy.enqueue_all(&vec![1, 2, 3]), Ok(()));
    assert_eq!(roomy.len(), 3);
}

#[test]
fn store_hands_a_message_to_one_connection() {
    let mut store = MemoryStore::new();
    assert_eq!(store.push_message(follow(42)), Ok(()));
    assert_eq!(store.pop_message(), Ok(Some(follow(42))));
    store.reconnect(1);
    assert_eq!(store.pop_message(), Ok(None));
}

#[test]
fn store_shows_the_row_again_after_a_lost_connection() {
    let mut store = MemoryStore::new();
    assert_eq!(store.push_remove_candidate(9), Ok(()));
    assert_eq!(store.push_message(follow(42)), Ok(()));
    let session = store.session;
    assert_eq!(store.messages.try_claim(session), Some(0));
    assert_eq!(store.candidates.try_claim(session), Some(0));
    // The connection drops before either row was removed.
    store.reconnect(session + 1);
    assert_eq!(store.messages.len(), 1);
    assert_eq!(store.pop_message(), Ok(Some(follow(42))));
    assert_eq!(store.pop_remove_candidate(), Ok(Some(9)));
    assert_eq!(store.pop_remove_candidate(), Ok(None));
}
