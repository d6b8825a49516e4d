//! The dispatcher: a single logical FIFO conduit carrying submitted work and
//! terminate sentinels from any submitter to the workers.
//!
//! In a running pool the receive side sits behind a mutual-exclusion lock, so
//! workers take turns popping exactly one message each; no message is lost or
//! observed twice. That discipline makes the stream of dequeues a single FIFO
//! consumption, which is what this type models and verifies.

use std::collections::VecDeque;
use vstd::prelude::*;

use crate::message::Message;

verus! {

/// A FIFO queue of messages with one logical send side and one logical
/// receive side.
pub struct Dispatcher {
    queue: VecDeque<Message>,
}

impl Dispatcher {
    /// The messages currently queued, oldest first.
    pub closed spec fn messages(&self) -> Seq<Message> {
        self.queue@
    }

    /// An empty conduit: no messages queued.
    pub fn new() -> (d: Dispatcher)
        ensures
            d.messages() == Seq::<Message>::empty(),
    {
        Dispatcher { queue: VecDeque::new() }
    }

    /// Enqueue one message at the back. A single insertion, whatever is
    /// already queued: the sender is never held up by queue depth.
    pub fn send(&mut self, m: Message)
        ensures
            final(self).messages() == old(self).messages().push(m),
    {
        self.queue.push_back(m);
    }

    /// Dequeue the oldest message, or report the queue empty. A worker that
    /// receives `None` here would block in a running pool; the model simply
    /// reports that no message was available.
    pub fn recv(&mut self) -> (r: Option<Message>)
        ensures
            match r {
                Some(m) => {
                    &&& old(self).messages().len() > 0
                    &&& m == old(self).messages()[0]
                    &&& final(self).messages() == old(self).messages().skip(1)
                },
                None => {
                    &&& old(self).messages().len() == 0
                    &&& final(self).messages() == old(self).messages()
                },
            },
    {
        self.queue.pop_front()
    }

    /// How many messages are queued.
    pub fn len(&self) -> (n: usize)
        ensures
            n == self.messages().len(),
    {
        self.queue.len()
    }
}

} // verus!
