//! The queue of pending emails, ordered by arrival.
use vstd::prelude::*;
use crate::email::Email;

verus! {

/// An email together with the second it arrived, the clock its
/// time-to-live is measured against.
pub struct QueuedEmail {
    pub email: Email,
    pub received_at: u64,
}

/// Pending emails in arrival order. The drain pass walks it front to
/// back; connection handlers append to the back.
pub struct MailQueue {
    entries: Vec<QueuedEmail>,
}

impl View for MailQueue {
    type V = Seq<QueuedEmail>;

    closed spec fn view(&self) -> Seq<QueuedEmail> {
        self.entries@
    }
}

impl MailQueue {
    /// An empty queue.
    pub fn new() -> (r: MailQueue)
        ensures
            r@ =~= Seq::<QueuedEmail>::empty(),
    {
        MailQueue { entries: Vec::new() }
    }

    /// Append an email stamped with the current time.
    pub fn enqueue(&mut self, email: Email, now: u64)
        ensures
            final(self)@ =~= old(self)@.push(QueuedEmail { email, received_at: now }),
    {
        self.entries.push(QueuedEmail { email, received_at: now });
    }

    /// Drop every pending entry.
    pub fn clear(&mut self)
        ensures
            final(self)@ =~= Seq::<QueuedEmail>::empty(),
    {
        self.entries.clear();
    }

    /// Read the entry at `i`.
    pub fn get(&self, i: usize) -> (r: &QueuedEmail)
        requires
            i < self@.len(),
        ensures
            *r == self@[i as int],
    {
        &self.entries[i]
    }

    /// Remove and return the entry at `i`; later entries shift left.
    pub fn remove(&mut self, i: usize) -> (r: QueuedEmail)
        requires
            i < old(self)@.len(),
        ensures
            r == old(self)@[i as int],
            final(self)@ == old(self)@.remove(i as int),
    {
        self.entries.remove(i)
    }

    /// How many entries are pending.
    pub fn len(&self) -> (r: usize)
        ensures
            r == self@.len(),
    {
        self.entries.len()
    }
}

} // verus!
