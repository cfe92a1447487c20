//! Bounded, ordered inbound queues of agent instances.
use vstd::prelude::*;
use crate::bytecode::Value;

verus! {

#[derive(Clone, Copy, PartialEq, Eq, Structural, Debug)]
pub enum RuntimeError {
    /// The instance has no handler for the message's variant.
    NoHandlerForVariant,
    /// The mailbox holds as many messages as it may.
    MailboxFull,
    /// The mailbox no longer accepts messages.
    Closed,
}

/// A message for an agent: the variant name and its field values in
/// declaration order.
#[derive(Debug, PartialEq)]
pub struct Message {
    pub variant: String,
    pub args: Vec<Value>,
}

/// A first-in first-out queue that holds at most `capacity` items and can be
/// closed to further sends.
pub struct Mailbox<T> {
    queue: Vec<T>,
    capacity: usize,
    closed: bool,
}

impl<T> Mailbox<T> {
    pub closed spec fn items(&self) -> Seq<T> {
        self.queue@
    }

    pub closed spec fn bound(&self) -> nat {
        self.capacity as nat
    }

    pub closed spec fn is_shut(&self) -> bool {
        self.closed
    }

    pub open spec fn wf(&self) -> bool {
        &&& 0 < self.bound()
        &&& self.items().len() <= self.bound()
    }

    pub fn new(capacity: usize) -> (r: Self)
        requires
            capacity > 0,
        ensures
            r.wf(),
            r.items() == Seq::<T>::empty(),
            r.bound() == capacity,
            !r.is_shut(),
    {
        Mailbox { queue: Vec::new(), capacity, closed: false }
    }

    pub fn len(&self) -> (r: usize)
        ensures
            r == self.items().len(),
    {
        self.queue.len()
    }

    pub fn capacity(&self) -> (r: usize)
        ensures
            r == self.bound(),
    {
        self.capacity
    }

    pub fn is_closed(&self) -> (r: bool)
        ensures
            r == self.is_shut(),
    {
        self.closed
    }

    /// Appends `msg` without waiting: fails `Closed` once closed, and
    /// `MailboxFull` while the queue is at capacity, leaving it as it was.
    pub fn try_send(&mut self, msg: T) -> (r: Result<(), RuntimeError>)
        requires
            old(self).wf(),
        ensures
            Mailbox::send_post(*old(self), msg, *final(self), r),
    {
        if self.closed {
            Err(RuntimeError::Closed)
        } else if self.queue.len() >= self.capacity {
            Err(RuntimeError::MailboxFull)
        } else {
            self.queue.push(msg);
            Ok(())
        }
    }

    /// Takes the oldest message, if any.
    pub fn recv(&mut self) -> (r: Option<T>)
        requires
            old(self).wf(),
        ensures
            Mailbox::recv_post(*old(self), *final(self), r),
    {
        if self.queue.len() == 0 {
            None
        } else {
            let m = self.queue.remove(0);
            assert(self.queue@ =~= old(self).items().drop_first());
            Some(m)
        }
    }

    /// Stops accepting sends; queued messages stay to be drained.
    pub fn close(&mut self)
        requires
            old(self).wf(),
        ensures
            final(self).wf(),
            final(self).is_shut(),
            final(self).items() == old(self).items(),
            final(self).bound() == old(self).bound(),
    {
        self.closed = true;
    }
}

/// Backpressure: with `N` messages queued in an open mailbox of capacity
/// `N`, a further non-waiting send fails `MailboxFull`; once one message has
/// been taken out, the same send is accepted.
pub proof fn lemma_full_until_dequeued<T>(
    full: Mailbox<T>,
    refused: Mailbox<T>,
    r1: Result<(), RuntimeError>,
    drained: Mailbox<T>,
    taken: Option<T>,
    accepted: Mailbox<T>,
    r2: Result<(), RuntimeError>,
    msg: T,
)
    requires
        full.wf(),
        !full.is_shut(),
        full.items().len() == full.bound(),
        Mailbox::send_post(full, msg, refused, r1),
        Mailbox::recv_post(refused, drained, taken),
        Mailbox::send_post(drained, msg, accepted, r2),
    ensures
        r1 == Err::<(), RuntimeError>(RuntimeError::MailboxFull),
        refused.items() == full.items(),
        taken is Some,
        r2 is Ok,
        accepted.items() == full.items().drop_first().push(msg),
{
}

impl<T> Mailbox<T> {
    /// What `try_send` guarantees of `post` and `r` from `pre`.
    pub open spec fn send_post(pre: Mailbox<T>, msg: T, post: Mailbox<T>, r: Result<(), RuntimeError>) -> bool {
        &&& post.wf()
        &&& post.bound() == pre.bound()
        &&& post.is_shut() == pre.is_shut()
        &&& pre.is_shut() ==> r == Err::<(), RuntimeError>(RuntimeError::Closed)
        &&& !pre.is_shut() && pre.items().len() == pre.bound() ==> r == Err::<(), RuntimeError>(RuntimeError::MailboxFull)
        &&& !pre.is_shut() && pre.items().len() < pre.bound() ==> r is Ok
        &&& r is Ok ==> post.items() == pre.items().push(msg)
        &&& r is Err ==> post.items() == pre.items()
    }

    /// What `recv` guarantees of `post` and `r` from `pre`.
    pub open spec fn recv_post(pre: Mailbox<T>, post: Mailbox<T>, r: Option<T>) -> bool {
        &&& post.wf()
        &&& post.bound() == pre.bound()
        &&& post.is_shut() == pre.is_shut()
        &&& pre.items().len() == 0 ==> r is None && post.items() == pre.items()
        &&& pre.items().len() > 0 ==> r == Some(pre.items()[0]) && post.items() == pre.items().drop_first()
    }
}

} // verus!
