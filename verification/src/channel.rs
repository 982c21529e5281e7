//! The work channel: a first-in-first-out transport from the pool, the single
//! producer, to its workers, the consumers.

use crate::message::Message;
use vstd::prelude::*;

verus! {

/// The work channel. In the running system its consumption endpoint is shared
/// by all workers behind one lock, so each message reaches exactly one
/// worker; the model keeps the whole channel in one place and shows exactly
/// that one-message-to-one-receiver discipline through the contracts of
/// `send` and `receive`.
pub struct Channel<J> {
    /// The waiting messages, oldest first.
    pub items: Vec<Message<J>>,
}

impl<J> View for Channel<J> {
    type V = Seq<Message<J>>;

    open spec fn view(&self) -> Seq<Message<J>> {
        self.items@
    }
}

impl<J> Channel<J> {
    /// An empty channel.
    pub fn new() -> (c: Channel<J>)
        ensures
            c@ == Seq::<Message<J>>::empty(),
    {
        Channel { items: Vec::new() }
    }

    /// Enqueue one message. Sending never blocks the producer and preserves
    /// submission order: the message goes behind everything sent before it.
    pub fn send(&mut self, m: Message<J>)
        ensures
            final(self)@ == old(self)@.push(m),
    {
        self.items.push(m);
    }

    /// Dequeue the oldest message and deliver it to the one caller: no
    /// duplication, no loss. In the running system a worker blocks here until
    /// a message is available; the model instead asks the caller to come only
    /// when one is.
    pub fn receive(&mut self) -> (m: Message<J>)
        requires
            old(self)@.len() > 0,
        ensures
            m == old(self)@[0],
            final(self)@ == old(self)@.drop_first(),
    {
        let m = self.items.remove(0);
        proof {
            assert(self.items@ =~= old(self)@.drop_first());
        }
        m
    }

    /// How many messages are waiting.
    pub fn len(&self) -> (n: usize)
        ensures
            n == self@.len(),
    {
        self.items.len()
    }

    /// Whether no message is waiting.
    pub fn is_empty(&self) -> (b: bool)
        ensures
            b <==> self@.len() == 0,
    {
        self.items.is_empty()
    }
}

} // verus!
