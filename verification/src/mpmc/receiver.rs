//! Consumer handles: independent cursors and shared cursors.

use vstd::prelude::*;

use crate::mpmc::buffer::Buffer;
use crate::mpmc::state::drop_frame;
use crate::mpmc::state::lemma_new_cursor_wf;
use crate::mpmc::state::read_frame;
use crate::mpmc::ChannelError;

verus! {

/// A consumer handle with an independent cursor: every independent receiver
/// of a buffer reads every item.
///
/// The handle names its buffer and cursor; every operation takes the buffer
/// explicitly, so a single owner — or a locking wrapper that briefly becomes
/// one — mediates all access to the shared state. Plain `clone` only copies
/// the handle and thus shares the cursor; an independent reader with a
/// cursor of its own comes from [`Receiver::duplicate`].
#[derive(Clone, Copy, Debug)]
pub struct Receiver {
    buffer_id: usize,
    cursor_id: usize,
}

impl View for Receiver {
    type V = (int, int);

    /// The pair (buffer id, cursor id).
    closed spec fn view(&self) -> (int, int) {
        (self.buffer_id as int, self.cursor_id as int)
    }
}

impl Receiver {
    /// Register a fresh cursor with the buffer, anchored at the oldest
    /// retained item, and hand out its handle.
    pub fn new<T: Clone>(buf: &mut Buffer<T>) -> (rx: Receiver)
        requires
            old(buf).wf(),
        ensures
            final(buf).wf(),
            final(buf)@ == old(buf)@.new_cursor(),
            rx@.0 == old(buf)@.id,
            rx@.1 == old(buf)@.cursors.len(),
            final(buf)@.live(rx@.1),
            final(buf)@.pos(rx@.1) == old(buf)@.start,
    {
        let ghost pre = *buf;
        let cursor_id = match buf.new_receiver() {
            Ok(i) => i,
            Err(_) => {
                proof {
                    assert(false);
                }
                unreached()
            },
        };
        let buffer_id = buf.id();
        proof {
            pre.lemma_wf();
            lemma_new_cursor_wf(pre@);
        }
        Receiver { buffer_id, cursor_id }
    }

    /// Get the (buffer id, cursor id) for this receiver.
    ///
    /// Receivers which share neither the buffer id nor the cursor id are in
    /// no way related to each other.
    ///
    /// Receivers which share the same buffer id and the same cursor id also
    /// share the same data stream, splitting its items between their calls.
    ///
    /// Receivers which share the same buffer id but not the cursor id each
    /// read all of the items, and the window waits for the slowest of them.
    pub fn id(&self) -> (r: (usize, usize))
        ensures
            r.0 as int == self@.0,
            r.1 as int == self@.1,
    {
        (self.buffer_id, self.cursor_id)
    }

    /// Receive the next item at this receiver's cursor.
    ///
    /// The caller must first establish that the cursor has an item to read
    /// or that the buffer is corked — the condition a blocking wrapper
    /// waits for before retrying. `Err(IsCorked)` is the end-of-stream
    /// signal: the buffer is corked and this cursor has read everything.
    pub fn recv<T: Clone>(&self, buf: &mut Buffer<T>) -> (r: Result<T, ChannelError>)
        requires
            old(buf).wf(),
            old(buf)@.id == self@.0,
            old(buf)@.live(self@.1),
            old(buf)@.can_read(self@.1) || old(buf)@.corked,
        ensures
            final(buf).wf(),
            old(buf)@.can_read(self@.1) ==> (r matches Ok(v)
                && cloned(old(buf)@.read_value(self@.1), v)
                && final(buf)@ == old(buf)@.read_step(self@.1)
                && read_frame(old(buf)@, final(buf)@, self@.1)),
            !old(buf)@.can_read(self@.1) ==> r == Err::<T, ChannelError>(ChannelError::IsCorked)
                && final(buf)@ == old(buf)@,
    {
        buf.recv(self.cursor_id)
    }

    /// Attempt to retrieve the next item at this receiver's cursor; with
    /// nothing ready the result is `Ok(None)`, or `Err(IsCorked)` once the
    /// buffer is corked and drained at this cursor.
    pub fn try_recv<T: Clone>(&self, buf: &mut Buffer<T>) -> (r: Result<Option<T>, ChannelError>)
        requires
            old(buf).wf(),
            old(buf)@.id == self@.0,
            old(buf)@.live(self@.1),
        ensures
            final(buf).wf(),
            old(buf)@.can_read(self@.1) ==> (r matches Ok(ov)
                && (ov matches Some(v) && cloned(old(buf)@.read_value(self@.1), v))
                && final(buf)@ == old(buf)@.read_step(self@.1)
                && read_frame(old(buf)@, final(buf)@, self@.1)),
            !old(buf)@.can_read(self@.1) && old(buf)@.corked ==>
                r == Err::<Option<T>, ChannelError>(ChannelError::IsCorked)
                && final(buf)@ == old(buf)@,
            !old(buf)@.can_read(self@.1) && !old(buf)@.corked ==>
                r == Ok::<Option<T>, ChannelError>(None) && final(buf)@ == old(buf)@,
    {
        buf.try_recv(self.cursor_id)
    }

    /// Check if the channel is corked and no new data will come in. Even if
    /// it is corked, there may still be data left to retrieve.
    pub fn is_corked<T: Clone>(&self, buf: &Buffer<T>) -> (r: bool)
        requires
            buf@.id == self@.0,
        ensures
            r == buf@.corked,
    {
        buf.is_corked()
    }

    /// The number of items pending in the buffer. The count is global: an
    /// item this cursor has read is still pending while a slower sibling
    /// has not read it.
    pub fn pending<T: Clone>(&self, buf: &Buffer<T>) -> (r: Result<usize, ChannelError>)
        requires
            buf.wf(),
            buf@.id == self@.0,
        ensures
            r matches Ok(n) && n as int == buf@.pending(),
            buf@.pending() <= buf@.bound,
    {
        buf.len()
    }

    /// Make another independent reader of the same buffer: a fresh cursor
    /// anchored at the oldest retained item, so the new reader misses none
    /// of the items the buffer still holds.
    pub fn duplicate<T: Clone>(&self, buf: &mut Buffer<T>) -> (rx: Receiver)
        requires
            old(buf).wf(),
            old(buf)@.id == self@.0,
        ensures
            final(buf).wf(),
            final(buf)@ == old(buf)@.new_cursor(),
            rx@.0 == self@.0,
            rx@.1 == old(buf)@.cursors.len(),
            final(buf)@.live(rx@.1),
            final(buf)@.pos(rx@.1) == old(buf)@.start,
    {
        Receiver::new(buf)
    }

    /// Deregister this receiver's cursor, so the buffer no longer waits on
    /// it, and consume the handle.
    pub fn release<T: Clone>(self, buf: &mut Buffer<T>)
        requires
            old(buf).wf(),
            old(buf)@.id == self@.0,
        ensures
            final(buf).wf(),
            final(buf)@ == old(buf)@.drop_cursor(self@.1),
            drop_frame(old(buf)@, final(buf)@, self@.1),
    {
        let _ = buf.drop_receiver(self.cursor_id);
    }
}

/// Consumer handles that share one cursor: each item of the stream goes to
/// exactly one of the holders, a worker-pool pattern on top of the
/// broadcast buffer.
///
/// Cloning a `SharedReceiver` shares the wrapped cursor; it does not make a
/// new one. An accounting wrapper keeps a reference count so that the
/// cursor is deregistered once the last holder is gone; within this crate
/// the count is not tracked, and `try_unwrap` always yields the receiver.
#[derive(Clone, Copy, Debug)]
pub struct SharedReceiver {
    rx: Receiver,
}

impl View for SharedReceiver {
    type V = (int, int);

    /// The pair (buffer id, cursor id) of the wrapped receiver.
    closed spec fn view(&self) -> (int, int) {
        self.rx@
    }
}

impl From<Receiver> for SharedReceiver {
    /// Wrap a receiver so that clones of the wrapper drain its one cursor
    /// cooperatively.
    fn from(rx: Receiver) -> (r: SharedReceiver) {
        SharedReceiver { rx }
    }
}

impl vstd::std_specs::convert::FromSpecImpl<Receiver> for SharedReceiver {
    open spec fn obeys_from_spec() -> bool {
        true
    }

    closed spec fn from_spec(rx: Receiver) -> SharedReceiver {
        SharedReceiver { rx }
    }
}

impl SharedReceiver {
    /// Get the (buffer id, cursor id) pair; every clone of a shared
    /// receiver reports the same cursor id.
    pub fn id(&self) -> (r: (usize, usize))
        ensures
            r.0 as int == self@.0,
            r.1 as int == self@.1,
    {
        self.rx.id()
    }

    /// Receive the next item at the shared cursor; each item goes to
    /// exactly one of the holders of this cursor.
    ///
    /// As with [`Receiver::recv`], the caller first establishes that the
    /// cursor has an item to read or that the buffer is corked.
    pub fn recv<T: Clone>(&self, buf: &mut Buffer<T>) -> (r: Result<T, ChannelError>)
        requires
            old(buf).wf(),
            old(buf)@.id == self@.0,
            old(buf)@.live(self@.1),
            old(buf)@.can_read(self@.1) || old(buf)@.corked,
        ensures
            final(buf).wf(),
            old(buf)@.can_read(self@.1) ==> (r matches Ok(v)
                && cloned(old(buf)@.read_value(self@.1), v)
                && final(buf)@ == old(buf)@.read_step(self@.1)
                && read_frame(old(buf)@, final(buf)@, self@.1)),
            !old(buf)@.can_read(self@.1) ==> r == Err::<T, ChannelError>(ChannelError::IsCorked)
                && final(buf)@ == old(buf)@,
    {
        self.rx.recv(buf)
    }

    /// Attempt to retrieve the next item at the shared cursor.
    pub fn try_recv<T: Clone>(&self, buf: &mut Buffer<T>) -> (r: Result<Option<T>, ChannelError>)
        requires
            old(buf).wf(),
            old(buf)@.id == self@.0,
            old(buf)@.live(self@.1),
        ensures
            final(buf).wf(),
            old(buf)@.can_read(self@.1) ==> (r matches Ok(ov)
                && (ov matches Some(v) && cloned(old(buf)@.read_value(self@.1), v))
                && final(buf)@ == old(buf)@.read_step(self@.1)
                && read_frame(old(buf)@, final(buf)@, self@.1)),
            !old(buf)@.can_read(self@.1) && old(buf)@.corked ==>
                r == Err::<Option<T>, ChannelError>(ChannelError::IsCorked)
                && final(buf)@ == old(buf)@,
            !old(buf)@.can_read(self@.1) && !old(buf)@.corked ==>
                r == Ok::<Option<T>, ChannelError>(None) && final(buf)@ == old(buf)@,
    {
        self.rx.try_recv(buf)
    }

    /// Check if the channel is corked and no new data will come in.
    pub fn is_corked<T: Clone>(&self, buf: &Buffer<T>) -> (r: bool)
        requires
            buf@.id == self@.0,
        ensures
            r == buf@.corked,
    {
        self.rx.is_corked(buf)
    }

    /// The number of items pending in the buffer.
    pub fn pending<T: Clone>(&self, buf: &Buffer<T>) -> (r: Result<usize, ChannelError>)
        requires
            buf.wf(),
            buf@.id == self@.0,
        ensures
            r matches Ok(n) && n as int == buf@.pending(),
            buf@.pending() <= buf@.bound,
    {
        self.rx.pending(buf)
    }

    /// Recover the wrapped receiver. An accounting wrapper agrees to this
    /// only while it holds the sole reference; here the handle itself is
    /// consumed and the receiver handed back.
    pub fn try_unwrap(self) -> (r: Result<Receiver, SharedReceiver>)
        ensures
            r matches Ok(rx) && rx@ == self@,
    {
        Ok(self.rx)
    }
}

} // verus!
