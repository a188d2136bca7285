//! The shared buffer behind a channel: a ring of retained items, a sliding
//! window anchor, and the positions of all cursors.

use std::collections::VecDeque;
use vstd::prelude::*;

use crate::mpmc::state::ChanState;
use crate::mpmc::state::lemma_append_wf;
use crate::mpmc::state::lemma_drop_cursor_wf;
use crate::mpmc::state::lemma_new_cursor_wf;
use crate::mpmc::state::lemma_read_step_wf;
use crate::mpmc::state::lemma_settled;
use crate::mpmc::state::lemma_wf_same_window;
use crate::mpmc::state::drop_frame;
use crate::mpmc::state::read_frame;
use crate::mpmc::ChannelError;

verus! {

/// A buffer of data for multiple consumers and producers to work with.
///
/// Corking the buffer means no new data may be added. The buffer should be
/// corked once there are no more senders or when there is no more data.
///
/// Items are kept until every live cursor has read them: `ring` holds the
/// items with absolute indices `[offset, offset + ring.len())`, and each
/// cursor holds the absolute index of the next item it reads. The ghost
/// `hist` records every item ever accepted, so that `ring` is always the
/// tail of `hist` that starts at `offset`.
pub struct Buffer<T> {
    ring: VecDeque<T>,
    offset: u64,
    /// Cursor positions, indexed by cursor id; `None` once dropped.
    /// Ids are never reused: a new cursor always gets index `cursors.len()`.
    cursors: Vec<Option<u64>>,
    sender_count: usize,
    corked: bool,
    bound: usize,
    id: usize,
    hist: Ghost<Seq<T>>,
}

impl<T> View for Buffer<T> {
    type V = ChanState<T>;

    closed spec fn view(&self) -> ChanState<T> {
        ChanState {
            bound: self.bound as int,
            id: self.id as int,
            hist: self.hist@,
            start: self.offset as int,
            cursors: self.cursors@.map_values(
                |c: Option<u64>|
                    match c {
                        Some(p) => Some(p as int),
                        None => None,
                    },
            ),
            senders: self.sender_count as int,
            corked: self.corked,
        }
    }
}

impl<T: Clone> Buffer<T> {
    /// Representation invariant: the ring is exactly the retained tail of
    /// the history, and every absolute index fits in the machine word that
    /// stores it.
    spec fn inv(self) -> bool {
        &&& self.ring@ == self.hist@.subrange(self.offset as int, self.hist@.len() as int)
        &&& self.hist@.len() <= u64::MAX
    }

    /// Well-formedness: the abstract state satisfies the channel invariant
    /// and the concrete representation matches it.
    pub closed spec fn wf(self) -> bool {
        &&& self@.wf()
        &&& self.inv()
    }

    /// A well-formed buffer has a well-formed abstract state.
    pub broadcast proof fn lemma_wf(self)
        requires
            #[trigger] self.wf(),
        ensures
            self@.wf(),
    {
    }

    /// Build a buffer that retains at most `bound` items and reports `id`.
    ///
    /// A wrapper that shares buffers between threads picks ids that are
    /// unique across the process; within this crate the id is only carried.
    pub fn new(bound: usize, id: usize) -> (b: Buffer<T>)
        requires
            1 <= bound,
        ensures
            b.wf(),
            b@ == ChanState::<T>::init(bound as int, id as int),
    {
        let b = Buffer {
            ring: VecDeque::with_capacity(bound),
            offset: 0,
            cursors: Vec::new(),
            sender_count: 0,
            corked: false,
            bound,
            id,
            hist: Ghost(Seq::empty()),
        };
        proof {
            assert(b@.cursors =~= Seq::<Option<int>>::empty());
            assert(b@ =~= ChanState::<T>::init(bound as int, id as int));
            assert(b.ring@ =~= b.hist@.subrange(0, 0));
        }
        b
    }

    /// Get the unique id of this buffer.
    pub fn id(&self) -> (r: usize)
        ensures
            r as int == self@.id,
    {
        self.id
    }

    /// Check if this buffer is no longer accepting new inputs.
    pub fn is_corked(&self) -> (r: bool)
        ensures
            r == self@.corked,
    {
        self.corked
    }

    /// Indicate no new data will come into this buffer. Idempotent.
    pub fn cork(&mut self)
        requires
            old(self).wf(),
        ensures
            final(self).wf(),
            final(self)@ == old(self)@.cork_step(),
    {
        let ghost pre = *self;
        self.corked = true;
        proof {
            lemma_wf_same_window(pre@, self@);
        }
    }

    /// Register that a new sender exists by incrementing an internal count.
    pub fn add_sender(&mut self)
        requires
            old(self).wf(),
            old(self)@.senders < usize::MAX,
        ensures
            final(self).wf(),
            final(self)@ == old(self)@.add_sender_step(),
    {
        let ghost pre = *self;
        self.sender_count = self.sender_count + 1;
        proof {
            lemma_wf_same_window(pre@, self@);
        }
    }

    /// Remove a sender and return the new number of senders.
    ///
    /// Only a party that registered a sender may deregister one, so the
    /// count is positive on entry. A caller that receives zero corks the
    /// buffer, which keeps "no senders left" and "corked" in step.
    pub fn remove_sender(&mut self) -> (r: usize)
        requires
            old(self).wf(),
            1 <= old(self)@.senders,
        ensures
            final(self).wf(),
            final(self)@ == old(self)@.remove_sender_step(),
            r as int == old(self)@.senders - 1,
    {
        let ghost pre = *self;
        self.sender_count = self.sender_count - 1;
        proof {
            lemma_wf_same_window(pre@, self@);
        }
        self.sender_count
    }

    /// Get the current number of registered senders.
    pub fn senders(&self) -> (r: usize)
        ensures
            r as int == self@.senders,
    {
        self.sender_count
    }

    /// Current number of pending elements in the buffer.
    ///
    /// The count is global to the buffer: an item this cursor has already
    /// read is still pending while a slower cursor has not read it. The
    /// count never exceeds the bound.
    pub fn len(&self) -> (r: Result<usize, ChannelError>)
        requires
            self.wf(),
        ensures
            r matches Ok(n) && n as int == self@.pending(),
            self@.pending() <= self@.bound,
    {
        Ok(self.ring.len())
    }

    /// Total number of items ever accepted: the absolute index the next
    /// accepted item would get. Absolute indices live in a machine word,
    /// so a caller tests this against the word's limit before sending.
    pub fn accepted(&self) -> (r: u64)
        requires
            self.wf(),
        ensures
            r as int == self@.hist.len(),
    {
        self.offset + (self.ring.len() as u64)
    }

    /// Everything `wf` asks for except that the window has settled at the
    /// slowest live cursor: the intermediate shape while the window slides.
    spec fn semi_wf(self) -> bool {
        &&& 1 <= self@.bound
        &&& 0 <= self@.start <= self@.hist.len()
        &&& self@.pending() <= self@.bound
        &&& forall|i: int| #[trigger] self@.live(i) ==>
            self@.start <= self@.pos(i) <= self@.hist.len()
        &&& 0 <= self@.senders
        &&& self.inv()
    }

    /// Attempt to write data to the internal buffer for the receivers to
    /// read. Returns `Ok(Some(item))` if there were no errors but the buffer
    /// was full, `Ok(None)` if the item was accepted, and `Err(IsCorked)`
    /// if the buffer no longer accepts items.
    pub fn try_send(&mut self, v: T) -> (r: Result<Option<T>, ChannelError>)
        requires
            old(self).wf(),
            old(self)@.hist.len() < u64::MAX,
        ensures
            final(self).wf(),
            old(self)@.corked ==> r == Err::<Option<T>, ChannelError>(ChannelError::IsCorked)
                && final(self)@ == old(self)@,
            old(self)@.can_append() ==> r == Ok::<Option<T>, ChannelError>(None)
                && final(self)@ == old(self)@.append(v),
            !old(self)@.corked && old(self)@.pending() >= old(self)@.bound ==>
                r == Ok::<Option<T>, ChannelError>(Some(v)) && final(self)@ == old(self)@,
    {
        if self.corked {
            return Err(ChannelError::IsCorked);
        }
        if self.ring.len() < self.bound {
            let ghost pre = *self;
            let ghost gv = v;
            self.ring.push_back(v);
            self.hist = Ghost(pre.hist@.push(gv));
            proof {
                lemma_append_wf(pre@, gv);
                assert(self@.cursors =~= pre@.cursors);
                assert(self@ =~= pre@.append(gv));
                assert(self.ring@ =~= self.hist@.subrange(
                    self.offset as int,
                    self.hist@.len() as int,
                ));
            }
            Ok(None)
        } else {
            Ok(Some(v))
        }
    }

    /// Write data to the internal buffer for the receivers to read.
    ///
    /// The caller must first establish that the buffer has room or is
    /// corked: that condition is exactly the predicate a blocking wrapper
    /// waits for on its "data consumed" signal before retrying.
    pub fn send(&mut self, v: T) -> (r: Result<(), ChannelError>)
        requires
            old(self).wf(),
            old(self)@.hist.len() < u64::MAX,
            old(self)@.corked || old(self)@.pending() < old(self)@.bound,
        ensures
            final(self).wf(),
            old(self)@.corked ==> r == Err::<(), ChannelError>(ChannelError::IsCorked)
                && final(self)@ == old(self)@,
            !old(self)@.corked ==> r == Ok::<(), ChannelError>(())
                && final(self)@ == old(self)@.append(v),
    {
        match self.try_send(v) {
            Ok(None) => Ok(()),
            Ok(Some(_)) => {
                proof {
                    assert(false);
                }
                unreached()
            },
            Err(e) => Err(e),
        }
    }

    /// Report whether any cursor is live, and whether any live cursor still
    /// has to read the item at the front of the window.
    fn cursor_scan(&self) -> (r: (bool, bool))
        ensures
            r.0 == self@.has_live(),
            r.1 == exists|j: int| #[trigger] self@.live(j) && self@.pos(j) <= self@.start,
    {
        let mut any_live = false;
        let mut any_blocking = false;
        let mut i: usize = 0;
        let n = self.cursors.len();
        while i < n
            invariant
                n == self.cursors@.len(),
                i <= n,
                any_live == exists|j: int| 0 <= j < i && #[trigger] self@.live(j),
                any_blocking == exists|j: int|
                    0 <= j < i && #[trigger] self@.live(j) && self@.pos(j) <= self@.start,
            decreases n - i,
        {
            let cur = self.cursors[i];
            match cur {
                Some(c) => {
                    proof {
                        assert(self@.live(i as int));
                        assert(self@.pos(i as int) == c as int);
                    }
                    any_live = true;
                    if c <= self.offset {
                        any_blocking = true;
                    }
                },
                None => {
                    proof {
                        assert(!self@.live(i as int));
                    }
                },
            }
            i += 1;
        }
        proof {
            assert forall|j: int| #[trigger] self@.live(j) implies 0 <= j < n by {}
        }
        (any_live, any_blocking)
    }

    /// Move the sliding window if possible: when no live cursor still needs
    /// the front item, drop it and advance the window by one slot.
    ///
    /// A wrapper that blocks producers signals its "data consumed" waiters
    /// exactly when this frees a slot.
    fn move_buffer_window(&mut self)
        requires
            old(self).semi_wf(),
            old(self)@.has_live(),
            exists|j: int| #[trigger] old(self)@.live(j)
                && old(self)@.pos(j) <= old(self)@.start + 1,
        ensures
            final(self).wf(),
            final(self)@ == old(self)@.settled(),
            final(self)@.start == (if exists|j: int|
                #[trigger] old(self)@.live(j) && old(self)@.pos(j) <= old(self)@.start {
                old(self)@.start
            } else {
                old(self)@.start + 1
            }),
    {
        let ghost pre = *self;
        let (_, any_blocking) = self.cursor_scan();
        if any_blocking {
            proof {
                assert(pre@.settled() == pre@);
                lemma_settled(pre@);
            }
            return;
        }
        // No live cursor is at the front, yet one sits at most one step
        // ahead of it, so the window is non-empty and slides exactly once.
        proof {
            let j = choose|j: int| pre@.live(j) && pre@.pos(j) <= pre@.start + 1;
            assert(pre@.pos(j) == pre@.start + 1);
            assert(pre@.start < pre@.hist.len());
            assert(pre.ring@.len() > 0);
        }
        let _ = self.ring.pop_front();
        self.offset = self.offset + 1;
        proof {
            let s = pre@;
            let t = ChanState { start: s.start + 1, ..s };
            assert(self@ =~= t);
            assert(self.ring@ =~= self.hist@.subrange(
                self.offset as int,
                self.hist@.len() as int,
            ));
            let j = choose|j: int| s.live(j) && s.pos(j) <= s.start + 1;
            assert(t.live(j) && t.pos(j) == t.start);
            assert(t.settled() == t);
            assert(s.settled() == t.settled());
            assert forall|k: int| #[trigger] t.live(k) implies
                t.start <= t.pos(k) <= t.hist.len() by {
                assert(s.live(k));
                assert(s.pos(k) != s.start);
            }
            assert(t.is_floor(t.start));
            assert(t.wf());
        }
    }

    /// Take the item at a cursor that has one to read: hand back a clone of
    /// it, advance the cursor, and slide the window if that cursor was the
    /// last one holding it open.
    fn take_at(&mut self, cursor_id: usize) -> (v: T)
        requires
            old(self).wf(),
            old(self)@.can_read(cursor_id as int),
        ensures
            final(self).wf(),
            cloned(old(self)@.read_value(cursor_id as int), v),
            final(self)@ == old(self)@.read_step(cursor_id as int),
            read_frame(old(self)@, final(self)@, cursor_id as int),
    {
        let ghost pre = *self;
        let c = self.cursors[cursor_id].unwrap();
        proof {
            assert(pre@.pos(cursor_id as int) == c as int);
            assert(self.hist@.len() == self.offset as int + self.ring@.len());
        }
        let idx = (c - self.offset) as usize;
        let v = self.ring[idx].clone();
        proof {
            assert(pre.ring@[idx as int] == pre@.hist[c as int]);
        }
        self.cursors.set(cursor_id, Some(c + 1));
        let ghost a = pre@.advanced(cursor_id as int);
        proof {
            assert(self@.cursors =~= a.cursors);
            assert(self@ =~= a);
            lemma_read_step_wf(pre@, cursor_id as int);
        }
        if c == self.offset {
            proof {
                assert(self@.live(cursor_id as int)
                    && self@.pos(cursor_id as int) <= self@.start + 1);
                assert forall|j: int| #[trigger] a.live(j) implies
                    a.start <= a.pos(j) <= a.hist.len() by {
                    assert(pre@.live(j));
                }
            }
            self.move_buffer_window();
            proof {
                // Whether the window slid is decided by whether another
                // live cursor still sat at the front.
                if exists|j: int| #[trigger] pre@.live(j) && j != cursor_id as int
                    && pre@.pos(j) == pre@.start {
                    let j = choose|j: int| #[trigger] pre@.live(j) && j != cursor_id as int
                        && pre@.pos(j) == pre@.start;
                    assert(a.live(j) && a.pos(j) <= a.start);
                } else {
                    if exists|j: int| #[trigger] a.live(j) && a.pos(j) <= a.start {
                        let j = choose|j: int| #[trigger] a.live(j) && a.pos(j) <= a.start;
                        assert(pre@.live(j));
                        assert(j != cursor_id as int);
                        assert(pre@.pos(j) == pre@.start);
                        assert(false);
                    }
                }
            }
        } else {
            // Some other live cursor still sits at the front, so the window
            // cannot move: the step settles where it is.
            proof {
                let m = choose|i: int| #[trigger] pre@.live(i) && pre@.pos(i) == pre@.start;
                assert(a.live(m) && a.pos(m) == a.start);
                assert(a.settled() == a);
            }
        }
        v
    }

    /// Receive the next item at the given cursor.
    ///
    /// The caller must first establish that the cursor has an item to read
    /// or that the buffer is corked: that condition is exactly the predicate
    /// a blocking wrapper waits for on its "new data" signal before
    /// retrying. With nothing left to read on a corked buffer the result is
    /// `Err(IsCorked)`: the end-of-stream signal.
    pub fn recv(&mut self, cursor_id: usize) -> (r: Result<T, ChannelError>)
        requires
            old(self).wf(),
            old(self)@.live(cursor_id as int),
            old(self)@.can_read(cursor_id as int) || old(self)@.corked,
        ensures
            final(self).wf(),
            old(self)@.can_read(cursor_id as int) ==> (r matches Ok(v)
                && cloned(old(self)@.read_value(cursor_id as int), v)
                && final(self)@ == old(self)@.read_step(cursor_id as int)
                && read_frame(old(self)@, final(self)@, cursor_id as int)),
            !old(self)@.can_read(cursor_id as int) ==>
                r == Err::<T, ChannelError>(ChannelError::IsCorked)
                && final(self)@ == old(self)@,
    {
        let c = self.cursors[cursor_id].unwrap();
        if c < self.offset + (self.ring.len() as u64) {
            Ok(self.take_at(cursor_id))
        } else {
            Err(ChannelError::IsCorked)
        }
    }

    /// Attempt to retrieve the next item at the given cursor; if no item is
    /// ready, return `Ok(None)` instead of waiting, or `Err(IsCorked)` when
    /// the buffer is corked and nothing is left to read.
    pub fn try_recv(&mut self, cursor_id: usize) -> (r: Result<Option<T>, ChannelError>)
        requires
            old(self).wf(),
            old(self)@.live(cursor_id as int),
        ensures
            final(self).wf(),
            old(self)@.can_read(cursor_id as int) ==> (r matches Ok(ov)
                && (ov matches Some(v)
                    && cloned(old(self)@.read_value(cursor_id as int), v))
                && final(self)@ == old(self)@.read_step(cursor_id as int)
                && read_frame(old(self)@, final(self)@, cursor_id as int)),
            !old(self)@.can_read(cursor_id as int) && old(self)@.corked ==>
                r == Err::<Option<T>, ChannelError>(ChannelError::IsCorked)
                && final(self)@ == old(self)@,
            !old(self)@.can_read(cursor_id as int) && !old(self)@.corked ==>
                r == Ok::<Option<T>, ChannelError>(None) && final(self)@ == old(self)@,
    {
        let c = self.cursors[cursor_id].unwrap();
        if c < self.offset + (self.ring.len() as u64) {
            Ok(Some(self.take_at(cursor_id)))
        } else if self.corked {
            Err(ChannelError::IsCorked)
        } else {
            Ok(None)
        }
    }

    /// Create a new cursor at the oldest retained item and return its id.
    /// Ids are never reused within a buffer's lifetime.
    pub fn new_receiver(&mut self) -> (r: Result<usize, ChannelError>)
        requires
            old(self).wf(),
        ensures
            final(self).wf(),
            r matches Ok(id) && id as int == old(self)@.cursors.len(),
            final(self)@ == old(self)@.new_cursor(),
    {
        let ghost pre = *self;
        let id = self.cursors.len();
        self.cursors.push(Some(self.offset));
        proof {
            assert(self@.cursors =~= pre@.cursors.push(Some(pre@.start)));
            assert(self@ =~= pre@.new_cursor());
            lemma_new_cursor_wf(pre@);
        }
        Ok(id)
    }

    /// Remove the cursor for a receiver: the buffer no longer waits on it.
    /// If the removed cursor was the only one holding the window open, the
    /// window slides up to the slowest remaining live cursor, so producers
    /// blocked on a full buffer are not stalled by a dropped receiver.
    pub fn drop_receiver(&mut self, id: usize) -> (r: Result<(), ChannelError>)
        requires
            old(self).wf(),
        ensures
            final(self).wf(),
            final(self)@ == old(self)@.drop_cursor(id as int),
            drop_frame(old(self)@, final(self)@, id as int),
            r == Ok::<(), ChannelError>(()),
    {
        let ghost pre = *self;
        if id >= self.cursors.len() {
            return Ok(());
        }
        let cur = self.cursors[id];
        if cur.is_none() {
            return Ok(());
        }
        self.cursors.set(id, None);
        let ghost mid = *self;
        proof {
            assert(mid@.cursors =~= pre@.cursors.update(id as int, None));
            assert(mid@ =~= ChanState { cursors: pre@.cursors.update(id as int, None), ..pre@ });
            assert forall|j: int| #[trigger] mid@.live(j) implies
                pre@.live(j) && mid@.pos(j) == pre@.pos(j) by {
                assert(pre@.live(j));
            }
        }
        loop
            invariant
                self.semi_wf(),
                self@.cursors == mid@.cursors,
                self@.hist == mid@.hist,
                self@.corked == mid@.corked,
                self@.senders == mid@.senders,
                self@.bound == mid@.bound,
                self@.id == mid@.id,
                mid@.start <= self@.start,
                self@.settled() == mid@.settled(),
            ensures
                self.semi_wf(),
                self@ == mid@.settled(),
            decreases self@.hist.len() - self@.start,
        {
            let (any_live, any_blocking) = self.cursor_scan();
            if !any_live || any_blocking {
                proof {
                    assert(self@.settled() == self@);
                }
                break;
            }
            // Every live cursor is ahead of the front, and one exists, so
            // the window is non-empty and can slide.
            proof {
                let j = choose|j: int| #[trigger] self@.live(j);
                assert(self@.start < self@.pos(j));
                assert(self@.start < self@.hist.len());
                assert(self.ring@.len() > 0);
            }
            let ghost s = self@;
            let _ = self.ring.pop_front();
            self.offset = self.offset + 1;
            proof {
                let t = ChanState { start: s.start + 1, ..s };
                assert(self@ =~= t);
                assert(self.ring@ =~= self.hist@.subrange(
                    self.offset as int,
                    self.hist@.len() as int,
                ));
                assert(s.settled() == t.settled());
                assert forall|j: int| #[trigger] self@.live(j) implies
                    self@.start <= self@.pos(j) <= self@.hist.len() by {
                    assert(s.live(j));
                    assert(s.pos(j) != s.start);
                }
            }
        }
        proof {
            lemma_drop_cursor_wf(pre@, id as int);
            // With no live cursor left the slide never starts, so the
            // window stays where it was for a receiver registered later.
            if !self@.has_live() {
                if mid@.has_live() {
                    let w = choose|j: int| #[trigger] mid@.live(j);
                    assert(self@.live(w));
                    assert(false);
                }
                assert(mid@.settled() == mid@);
            }
        }
        Ok(())
    }
}

} // verus!
