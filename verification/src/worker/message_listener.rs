//! Takes queued actions and says what to do for each.
use crate::sql::queue::{Message, MessageQueue, MessageType};
use vstd::prelude::*;

verus! {

/// What the executor does in one round.
#[derive(Clone, Copy, Debug, PartialEq, Eq, Structural)]
pub enum ListenerAction {
    /// Follow this account. The item has left the queue: if the call fails, the
    /// failure is logged and the action is not tried again.
    Follow(u64),
    /// A removal was queued. Removals are not carried out from this queue; the item
    /// is dropped with a warning.
    RemoveUnimplemented(u64),
    /// Nothing was waiting.
    QueueEmpty,
}

/// What a dequeued item asks for.
pub open spec fn action_for(popped: Option<Message>) -> ListenerAction {
    match popped {
        Some(message) => match message.message_type {
            MessageType::Follow => ListenerAction::Follow(message.user_id),
            MessageType::Remove => ListenerAction::RemoveUnimplemented(message.user_id),
        },
        None => ListenerAction::QueueEmpty,
    }
}

/// Says what a dequeued item asks for.
pub fn dispatch(popped: Option<Message>) -> (action: ListenerAction)
    ensures
        action == action_for(popped),
{
    match popped {
        Some(message) => match message.message_type {
            MessageType::Follow => ListenerAction::Follow(message.user_id),
            MessageType::Remove => ListenerAction::RemoveUnimplemented(message.user_id),
        },
        None => ListenerAction::QueueEmpty,
    }
}

/// The item that an action was dequeued as, if the action stands for one.
pub open spec fn item_of(action: ListenerAction) -> Option<Message> {
    match action {
        ListenerAction::Follow(user_id) => Some(
            Message { user_id, message_type: MessageType::Follow },
        ),
        ListenerAction::RemoveUnimplemented(user_id) => Some(
            Message { user_id, message_type: MessageType::Remove },
        ),
        ListenerAction::QueueEmpty => None,
    }
}

/// The consumer of the action queue.
pub struct MessageListener {}

impl MessageListener {
    /// One round: takes an action out of the queue and says what it asks for. An
    /// action that is handed out has left the queue, whatever becomes of it; a
    /// failure of the store takes nothing out and is handed on.
    pub fn run<Q: MessageQueue>(&self, queue: &mut Q) -> (action: Result<ListenerAction, Q::Error>)
        requires
            old(queue).usable(),
        ensures
            final(queue).usable(),
            match action {
                Ok(asked) => match item_of(asked) {
                    Some(message) => {
                        &&& old(queue).waiting().contains(message)
                        &&& final(queue).waiting() == old(queue).waiting().remove(message)
                    },
                    None => {
                        &&& old(queue).waiting().len() == 0
                        &&& final(queue).waiting() == old(queue).waiting()
                    },
                },
                Err(_) => final(queue).waiting() == old(queue).waiting(),
            },
    {
        match queue.pop_message() {
            Ok(popped) => Ok(dispatch(popped)),
            Err(e) => Err(e),
        }
    }
}

} // verus!
