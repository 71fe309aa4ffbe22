use std::any::Any;
use std::sync::mpsc::{SendError, Sender};
use std::sync::Arc;
use vstd::prelude::*;
use vstd::rwlock::RwLock;

use crate::entity::Entity;
use crate::message::MessageBox;
use crate::reader::MessageReader;
use crate::store::{ascending, MessageStore};

verus! {

#[verifier::external_type_specification]
#[verifier::external_body]
#[verifier::reject_recursive_types(T)]
pub struct ExSender<T>(Sender<T>);

#[verifier::external_type_specification]
#[verifier::external_body]
#[verifier::reject_recursive_types(T)]
pub struct ExSendError<T>(SendError<T>);

/// A request to the window that hosts the widgets.
#[derive(Clone, Copy, Debug, PartialEq, Eq, Structural)]
pub enum WindowRequest {
    /// New work is pending: the window should run another update and redraw.
    Redraw,
}

/// Why a message could not be announced to the host loop.
#[derive(Clone, Copy, Debug, PartialEq, Eq, Structural)]
pub enum MessageError {
    /// The receiving end of the window channel is gone.
    ChannelClosed,
}

/// Relies on `mpsc::Sender::send`: hands the request to the receiver, or
/// fails when the receiver has been dropped.
#[verifier::external_body]
fn send_request(sender: &Sender<WindowRequest>, request: WindowRequest) -> Result<(), SendError<WindowRequest>> {
    sender.send(request)
}

/// Relies on `mpsc::Sender::clone`: another handle to the same channel.
#[verifier::external_body]
fn clone_sender(sender: &Sender<WindowRequest>) -> Sender<WindowRequest> {
    sender.clone()
}

/// The invariant the lock keeps over the shared store.
pub closed spec fn store_ok() -> spec_fn(MessageStore) -> bool {
    |s: MessageStore| s.wf()
}

/// Thread-safe entry point to send messages to widget entities and to drain them.
///
/// Every operation holds the single lock of the shared store for its whole
/// critical section; clones share the same store and the same window channel.
pub struct MessageAdapter {
    messages: Arc<RwLock<MessageStore, spec_fn(MessageStore) -> bool>>,
    window_sender: Sender<WindowRequest>,
}

impl MessageAdapter {
    #[verifier::type_invariant]
    spec fn lock_ok(&self) -> bool {
        self.messages.pred() == store_ok()
    }

    /// Creates a new adapter with an empty store that announces new messages on `window_sender`.
    pub fn new(window_sender: Sender<WindowRequest>) -> (r: Self) {
        let store = MessageStore::new();
        let lock = RwLock::new(store, Ghost(store_ok()));
        MessageAdapter { messages: Arc::new(lock), window_sender }
    }

    /// Files `message` for `target` behind the messages already pending for it
    /// with the same payload type, then asks the window for a redraw.
    /// Fails only when the window channel is closed; the message stays filed.
    pub fn send_message<M: Any + Send + Sync>(&self, message: M, target: Entity) -> (r: Result<(), MessageError>) {
        proof {
            use_type_invariant(self);
        }
        let b = MessageBox::new(message, target);
        let (mut store, handle) = self.messages.acquire_write();
        store.push(b);
        handle.release_write(store);
        match send_request(&self.window_sender, WindowRequest::Redraw) {
            Ok(()) => Ok(()),
            Err(_) => Err(MessageError::ChannelClosed),
        }
    }

    /// A snapshot of the entities that have an entry, in increasing order of id.
    pub fn entities(&self) -> (r: Vec<Entity>)
        ensures
            ascending(r@),
    {
        proof {
            use_type_invariant(self);
        }
        let handle = self.messages.acquire_read();
        let r = handle.borrow().entities();
        handle.release_read();
        r
    }

    /// Removes all messages for `target` without reading them, for entities
    /// that have no state to consume them.
    pub fn remove_message_for_entity(&self, target: Entity) {
        proof {
            use_type_invariant(self);
        }
        let (mut store, handle) = self.messages.acquire_write();
        store.discard(target);
        handle.release_write(store);
    }

    /// The number of entities that have an entry (advisory under concurrent use).
    pub fn len(&self) -> usize {
        proof {
            use_type_invariant(self);
        }
        let handle = self.messages.acquire_read();
        let r = handle.borrow().len();
        handle.release_read();
        r
    }

    /// Returns `true` if no entity has an entry (advisory under concurrent use).
    pub fn is_empty(&self) -> bool {
        proof {
            use_type_invariant(self);
        }
        let handle = self.messages.acquire_read();
        let r = handle.borrow().is_empty();
        handle.release_read();
        r
    }

    /// Moves all messages for `entity` out of the store into a reader; afterwards
    /// the store has no entry for `entity` until a new message arrives.
    pub fn message_reader(&self, entity: Entity) -> (r: MessageReader)
        ensures
            r.wf(),
            r.spec_entity() == entity,
    {
        proof {
            use_type_invariant(self);
        }
        let (mut store, handle) = self.messages.acquire_write();
        let buckets = store.take(entity);
        handle.release_write(store);
        MessageReader::new(buckets, entity)
    }
}

impl Clone for MessageAdapter {
    fn clone(&self) -> Self {
        proof {
            use_type_invariant(self);
        }
        MessageAdapter { messages: self.messages.clone(), window_sender: clone_sender(&self.window_sender) }
    }
}

} // verus!
