//! Producer handles.

use vstd::prelude::*;

use crate::mpmc::buffer::Buffer;
use crate::mpmc::ChannelError;

verus! {

/// A producer handle for a channel buffer.
///
/// The handle names the buffer it was registered with; every operation takes
/// that buffer explicitly, so a single owner — or a locking wrapper that
/// briefly becomes one — mediates all access to the shared state. Plain
/// `clone` only copies the handle: a sender that counts towards the
/// registration total comes from [`Sender::duplicate`].
#[derive(Clone, Copy, Debug)]
pub struct Sender {
    buffer_id: usize,
}

impl View for Sender {
    type V = int;

    /// The id of the buffer this handle sends to.
    closed spec fn view(&self) -> int {
        self.buffer_id as int
    }
}

impl Sender {
    /// Register a new sender with the buffer and hand out its handle.
    pub fn new<T: Clone>(buf: &mut Buffer<T>) -> (s: Sender)
        requires
            old(buf).wf(),
            old(buf)@.senders < usize::MAX,
        ensures
            final(buf).wf(),
            final(buf)@ == old(buf)@.add_sender_step(),
            s@ == old(buf)@.id,
    {
        buf.add_sender();
        let buffer_id = buf.id();
        Sender { buffer_id }
    }

    /// The buffer id. All sender handles with the same id are sending to
    /// the same buffer.
    pub fn id(&self) -> (r: usize)
        ensures
            r as int == self@,
    {
        self.buffer_id
    }

    /// Write data to the buffer for the receivers to read.
    ///
    /// The caller must first establish that the buffer has room or is
    /// corked — the condition a blocking wrapper waits for before retrying.
    pub fn send<T: Clone>(&self, buf: &mut Buffer<T>, v: T) -> (r: Result<(), ChannelError>)
        requires
            old(buf).wf(),
            old(buf)@.id == self@,
            old(buf)@.hist.len() < u64::MAX,
            old(buf)@.corked || old(buf)@.pending() < old(buf)@.bound,
        ensures
            final(buf).wf(),
            old(buf)@.corked ==> r == Err::<(), ChannelError>(ChannelError::IsCorked)
                && final(buf)@ == old(buf)@,
            !old(buf)@.corked ==> r == Ok::<(), ChannelError>(())
                && final(buf)@ == old(buf)@.append(v),
    {
        buf.send(v)
    }

    /// Attempt to write data to the buffer: `Ok(Some(item))` hands the item
    /// back when the buffer is full, `Ok(None)` means it was accepted.
    pub fn try_send<T: Clone>(&self, buf: &mut Buffer<T>, v: T) -> (r: Result<
        Option<T>,
        ChannelError,
    >)
        requires
            old(buf).wf(),
            old(buf)@.id == self@,
            old(buf)@.hist.len() < u64::MAX,
        ensures
            final(buf).wf(),
            old(buf)@.corked ==> r == Err::<Option<T>, ChannelError>(ChannelError::IsCorked)
                && final(buf)@ == old(buf)@,
            old(buf)@.can_append() ==> r == Ok::<Option<T>, ChannelError>(None)
                && final(buf)@ == old(buf)@.append(v),
            !old(buf)@.corked && old(buf)@.pending() >= old(buf)@.bound ==>
                r == Ok::<Option<T>, ChannelError>(Some(v)) && final(buf)@ == old(buf)@,
    {
        buf.try_send(v)
    }

    /// Cork the channel: no further item will be accepted, from this sender
    /// or any sibling.
    pub fn cork<T: Clone>(&self, buf: &mut Buffer<T>)
        requires
            old(buf).wf(),
            old(buf)@.id == self@,
        ensures
            final(buf).wf(),
            final(buf)@ == old(buf)@.cork_step(),
    {
        buf.cork()
    }

    /// Check if the channel has been corked and will not accept new input.
    pub fn is_corked<T: Clone>(&self, buf: &Buffer<T>) -> (r: bool)
        requires
            buf@.id == self@,
        ensures
            r == buf@.corked,
    {
        buf.is_corked()
    }

    /// The number of items not yet read by every receiver; at most the
    /// buffer's bound.
    pub fn pending<T: Clone>(&self, buf: &Buffer<T>) -> (r: Result<usize, ChannelError>)
        requires
            buf.wf(),
            buf@.id == self@,
        ensures
            r matches Ok(n) && n as int == buf@.pending(),
            buf@.pending() <= buf@.bound,
    {
        buf.len()
    }

    /// Register one more sender to the same buffer and hand out its handle.
    pub fn duplicate<T: Clone>(&self, buf: &mut Buffer<T>) -> (s: Sender)
        requires
            old(buf).wf(),
            old(buf)@.id == self@,
            old(buf)@.senders < usize::MAX,
        ensures
            final(buf).wf(),
            final(buf)@ == old(buf)@.add_sender_step(),
            s@ == self@,
    {
        Sender::new(buf)
    }
}

} // verus!
