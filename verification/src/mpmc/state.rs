//! Mathematical model of a channel.
//!
//! A channel is modelled by the full history of items it ever accepted,
//! the absolute index of the oldest item still retained (`start`), and the
//! absolute position of every cursor. The retained window is
//! `hist[start .. hist.len()]`; its length never exceeds `bound`, and `start`
//! never moves past the slowest live cursor.

use vstd::prelude::*;

verus! {

/// Abstract state of one channel.
#[verifier::ext_equal]
pub ghost struct ChanState<T> {
    /// Maximum number of retained items.
    pub bound: int,
    /// Identity that handles report.
    pub id: int,
    /// Every item ever accepted, in acceptance order.
    pub hist: Seq<T>,
    /// Absolute index of the oldest retained item.
    pub start: int,
    /// Position of each cursor, by cursor id; `None` once dropped.
    /// Ids are indices into this sequence and are never reused.
    pub cursors: Seq<Option<int>>,
    /// Number of registered senders.
    pub senders: int,
    /// Once true, no further item is accepted.
    pub corked: bool,
}

impl<T> ChanState<T> {
    /// The state of a freshly built channel: nothing sent, no cursors,
    /// no senders, not corked.
    pub open spec fn init(bound: int, id: int) -> ChanState<T> {
        ChanState {
            bound: bound,
            id: id,
            hist: Seq::empty(),
            start: 0,
            cursors: Seq::empty(),
            senders: 0,
            corked: false,
        }
    }

    /// Number of retained items.
    pub open spec fn pending(self) -> int {
        self.hist.len() - self.start
    }

    /// Whether cursor id `i` exists and has not been dropped.
    pub open spec fn live(self, i: int) -> bool {
        0 <= i < self.cursors.len() && self.cursors[i] is Some
    }

    /// Position of cursor `i`: the absolute index of the next item it reads.
    pub open spec fn pos(self, i: int) -> int {
        self.cursors[i]->0
    }

    /// Whether any cursor is live.
    pub open spec fn has_live(self) -> bool {
        exists|i: int| self.live(i)
    }

    /// Whether `m` is the position of the slowest live cursor: no live
    /// cursor is behind `m` and one sits exactly at `m`.
    pub open spec fn is_floor(self, m: int) -> bool {
        &&& forall|i: int| #[trigger] self.live(i) ==> m <= self.pos(i)
        &&& exists|i: int| #[trigger] self.live(i) && self.pos(i) == m
    }

    /// Channel invariant.
    pub open spec fn wf(self) -> bool {
        &&& 1 <= self.bound
        &&& 0 <= self.start <= self.hist.len()
        &&& self.pending() <= self.bound
        &&& forall|i: int| #[trigger] self.live(i) ==> self.start <= self.pos(i) <= self.hist.len()
        &&& (self.has_live() ==> self.is_floor(self.start))
        &&& 0 <= self.senders
    }

    /// Whether a new item can be accepted right now.
    pub open spec fn can_append(self) -> bool {
        !self.corked && self.pending() < self.bound
    }

    /// Accept one item.
    pub open spec fn append(self, v: T) -> ChanState<T> {
        ChanState { hist: self.hist.push(v), ..self }
    }

    /// Whether cursor `i` has an item to read right now.
    pub open spec fn can_read(self, i: int) -> bool {
        self.live(i) && self.pos(i) < self.hist.len()
    }

    /// The item cursor `i` reads next.
    pub open spec fn read_value(self, i: int) -> T {
        self.hist[self.pos(i)]
    }

    /// Move cursor `i` forward by one, without touching the window.
    pub open spec fn advanced(self, i: int) -> ChanState<T> {
        ChanState { cursors: self.cursors.update(i, Some(self.pos(i) + 1)), ..self }
    }

    /// Slide the window forward until it reaches the slowest live cursor.
    /// With no live cursor the window stays where it is, so that a cursor
    /// registered later still finds the retained items.
    pub open spec fn settled(self) -> ChanState<T>
        decreases self.hist.len() - self.start,
    {
        if self.has_live() && self.start < self.hist.len()
            && !(exists|j: int| #[trigger] self.live(j) && self.pos(j) == self.start) {
            (ChanState { start: self.start + 1, ..self }).settled()
        } else {
            self
        }
    }

    /// One successful read by cursor `i`: the cursor advances and the window
    /// slides if that cursor was the last one holding it open.
    pub open spec fn read_step(self, i: int) -> ChanState<T> {
        self.advanced(i).settled()
    }

    /// Register a new cursor, anchored at the oldest retained item.
    pub open spec fn new_cursor(self) -> ChanState<T> {
        ChanState { cursors: self.cursors.push(Some(self.start)), ..self }
    }

    /// Drop cursor `i`; the window then slides up to the slowest remaining
    /// live cursor, so a dropped cursor never holds producers back.
    pub open spec fn drop_cursor(self, i: int) -> ChanState<T> {
        if self.live(i) {
            (ChanState { cursors: self.cursors.update(i, None), ..self }).settled()
        } else {
            self
        }
    }

    /// Refuse all further items.
    pub open spec fn cork_step(self) -> ChanState<T> {
        ChanState { corked: true, ..self }
    }

    /// Register one more sender.
    pub open spec fn add_sender_step(self) -> ChanState<T> {
        ChanState { senders: self.senders + 1, ..self }
    }

    /// Deregister one sender.
    pub open spec fn remove_sender_step(self) -> ChanState<T> {
        ChanState { senders: self.senders - 1, ..self }
    }
}

/// What one successful read by cursor `i` changes, summarised for callers:
/// that cursor advances by one, every other cursor and the rest of the
/// channel stay as they were, and the window anchor moves only forward.
pub open spec fn read_frame<T>(pre: ChanState<T>, post: ChanState<T>, i: int) -> bool {
    &&& post.id == pre.id
    &&& post.bound == pre.bound
    &&& post.senders == pre.senders
    &&& post.corked == pre.corked
    &&& post.hist == pre.hist
    &&& forall|j: int| #[trigger] post.live(j) <==> pre.live(j)
    &&& post.pos(i) == pre.pos(i) + 1
    &&& forall|j: int| pre.live(j) && j != i ==> #[trigger] post.pos(j) == pre.pos(j)
    &&& pre.start <= post.start
    &&& post.pending() <= pre.pending()
    &&& post.start == (if pre.pos(i) == pre.start && !(exists|j: int|
        #[trigger] pre.live(j) && j != i && pre.pos(j) == pre.start) {
        pre.start + 1
    } else {
        pre.start
    })
}

/// What dropping cursor `i` changes, summarised for callers: that cursor is
/// no longer live, every other cursor and the rest of the channel stay as
/// they were, and the window anchor moves only forward.
pub open spec fn drop_frame<T>(pre: ChanState<T>, post: ChanState<T>, i: int) -> bool {
    &&& post.id == pre.id
    &&& post.bound == pre.bound
    &&& post.senders == pre.senders
    &&& post.corked == pre.corked
    &&& post.hist == pre.hist
    &&& !post.live(i)
    &&& forall|j: int| j != i ==> (#[trigger] post.live(j) <==> pre.live(j))
    &&& forall|j: int| pre.live(j) && j != i ==> #[trigger] post.pos(j) == pre.pos(j)
    &&& pre.start <= post.start
    &&& post.pending() <= pre.pending()
    &&& (!post.has_live() ==> post.start == pre.start)
}

/// Two states with the same window, history and cursors are equally well
/// formed, whatever their cork flag, id and (non-negative) sender count.
pub proof fn lemma_wf_same_window<T>(s: ChanState<T>, t: ChanState<T>)
    requires
        s.wf(),
        t.bound == s.bound,
        t.hist == s.hist,
        t.start == s.start,
        t.cursors == s.cursors,
        0 <= t.senders,
    ensures
        t.wf(),
{
    assert forall|i: int| #[trigger] t.live(i) implies t.start <= t.pos(i) <= t.hist.len() by {
        assert(s.live(i));
    }
    if t.has_live() {
        let w = choose|i: int| #[trigger] t.live(i);
        assert(s.live(w));
        let m = choose|i: int| #[trigger] s.live(i) && s.pos(i) == s.start;
        assert(t.live(m) && t.pos(m) == t.start);
        assert forall|i: int| #[trigger] t.live(i) implies t.start <= t.pos(i) by {
            assert(s.live(i));
        }
    }
}

/// Accepting an item preserves the invariant and leaves every cursor where
/// it was.
pub proof fn lemma_append_wf<T>(s: ChanState<T>, v: T)
    requires
        s.wf(),
        s.can_append(),
    ensures
        s.append(v).wf(),
        s.append(v).pending() == s.pending() + 1,
{
    let t = s.append(v);
    assert forall|i: int| #[trigger] t.live(i) implies t.start <= t.pos(i) <= t.hist.len() by {
        assert(s.live(i));
    }
    if t.has_live() {
        let w = choose|i: int| #[trigger] t.live(i);
        assert(s.live(w));
        let m = choose|i: int| #[trigger] s.live(i) && s.pos(i) == s.start;
        assert(t.live(m) && t.pos(m) == t.start);
        assert forall|i: int| #[trigger] t.live(i) implies t.start <= t.pos(i) by {
            assert(s.live(i));
        }
    }
}

/// What sliding the window does: it moves `start` forward but never past a
/// live cursor, it touches nothing else, and once it stops with a live
/// cursor present the slowest one sits exactly at `start`.
pub proof fn lemma_settled<T>(s: ChanState<T>)
    requires
        0 <= s.start <= s.hist.len(),
        forall|i: int| #[trigger] s.live(i) ==> s.start <= s.pos(i) <= s.hist.len(),
    ensures
        s.settled().hist == s.hist,
        s.settled().cursors == s.cursors,
        s.settled().bound == s.bound,
        s.settled().id == s.id,
        s.settled().senders == s.senders,
        s.settled().corked == s.corked,
        s.start <= s.settled().start <= s.hist.len(),
        forall|i: int| #[trigger] s.live(i) ==> s.settled().start <= s.pos(i),
        s.has_live() ==> s.settled().is_floor(s.settled().start),
        !s.has_live() ==> s.settled().start == s.start,
    decreases s.hist.len() - s.start,
{
    let r = s.settled();
    if s.has_live() && s.start < s.hist.len()
        && !(exists|j: int| #[trigger] s.live(j) && s.pos(j) == s.start) {
        let t = ChanState { start: s.start + 1, ..s };
        assert(r == t.settled());
        assert forall|i: int| #[trigger] t.live(i) implies
            s.live(i) && t.pos(i) == s.pos(i) && t.start <= t.pos(i) <= t.hist.len() by {
            assert(s.live(i));
            assert(s.pos(i) != s.start);
        }
        lemma_settled(t);
        assert forall|i: int| #[trigger] s.live(i) implies r.start <= s.pos(i) by {
            assert(t.live(i));
        }
        let w = choose|i: int| #[trigger] s.live(i);
        assert(t.live(w));
        assert(t.has_live());
        assert(r.is_floor(r.start));
    } else {
        assert(r == s);
        if s.has_live() {
            if exists|j: int| #[trigger] s.live(j) && s.pos(j) == s.start {
                assert(s.is_floor(s.start));
            } else {
                // The slide stopped because the window is empty, so every
                // live cursor is caught up at `start`.
                assert(s.start == s.hist.len());
                let w = choose|i: int| #[trigger] s.live(i);
                assert(s.live(w) && s.pos(w) == s.start);
                assert(s.is_floor(s.start));
            }
        }
    }
}

/// A successful read preserves the invariant; only the reading cursor moves,
/// by exactly one, and the window never retreats or grows.
pub proof fn lemma_read_step_wf<T>(s: ChanState<T>, i: int)
    requires
        s.wf(),
        s.can_read(i),
    ensures
        s.read_step(i).wf(),
        s.read_step(i).hist == s.hist,
        s.read_step(i).live(i),
        s.read_step(i).pos(i) == s.pos(i) + 1,
        forall|j: int| #[trigger] s.live(j) <==> #[trigger] s.read_step(i).live(j),
        forall|j: int| s.live(j) && j != i ==> #[trigger] s.read_step(i).pos(j) == s.pos(j),
        s.start <= s.read_step(i).start,
        s.read_step(i).bound == s.bound,
        s.read_step(i).id == s.id,
        s.read_step(i).senders == s.senders,
        s.read_step(i).corked == s.corked,
        s.read_step(i).pending() <= s.pending(),
{
    let a = s.advanced(i);
    let r = s.read_step(i);
    assert(a.live(i) && a.pos(i) == s.pos(i) + 1);
    assert forall|j: int| #[trigger] a.live(j) implies
        s.live(j) && a.start <= a.pos(j) <= a.hist.len() by {
        assert(s.live(j));
    }
    lemma_settled(a);
    assert forall|j: int| #[trigger] s.live(j) implies r.live(j) by {
        assert(a.live(j));
    }
    assert forall|j: int| #[trigger] r.live(j) implies s.live(j) by {
        assert(a.live(j));
    }
    assert forall|j: int| s.live(j) && j != i implies #[trigger] r.pos(j) == s.pos(j) by {
        assert(a.live(j));
    }
    assert forall|j: int| #[trigger] r.live(j) implies r.start <= r.pos(j) <= r.hist.len() by {
        assert(a.live(j));
        assert(r.pos(j) == a.pos(j));
    }
    assert(a.has_live());
    assert(r.wf());
}

/// Registering a cursor preserves the invariant; the new cursor is live and
/// sits at the oldest retained item, and nothing else changes.
pub proof fn lemma_new_cursor_wf<T>(s: ChanState<T>)
    requires
        s.wf(),
    ensures
        s.new_cursor().wf(),
        s.new_cursor().live(s.cursors.len() as int),
        s.new_cursor().pos(s.cursors.len() as int) == s.start,
        forall|j: int| 0 <= j < s.cursors.len() ==>
            (#[trigger] s.new_cursor().live(j) <==> s.live(j)),
        forall|j: int| s.live(j) ==> #[trigger] s.new_cursor().pos(j) == s.pos(j),
        s.new_cursor().hist == s.hist,
        s.new_cursor().start == s.start,
{
    let t = s.new_cursor();
    let n = s.cursors.len() as int;
    assert(t.live(n) && t.pos(n) == s.start);
    assert forall|j: int| #[trigger] t.live(j) implies t.start <= t.pos(j) <= t.hist.len() by {
        if j != n {
            assert(s.live(j));
        }
    }
    assert forall|j: int| #[trigger] t.live(j) implies t.start <= t.pos(j) by {
        if j != n {
            assert(s.live(j));
        }
    }
    assert(t.is_floor(t.start));
}

/// Dropping a cursor preserves the invariant: the remaining live cursors
/// keep their positions, and the window slides forward only.
pub proof fn lemma_drop_cursor_wf<T>(s: ChanState<T>, i: int)
    requires
        s.wf(),
    ensures
        s.drop_cursor(i).wf(),
        !s.drop_cursor(i).live(i),
        forall|j: int| j != i ==> (#[trigger] s.drop_cursor(i).live(j) <==> s.live(j)),
        forall|j: int| s.live(j) && j != i ==> #[trigger] s.drop_cursor(i).pos(j) == s.pos(j),
        s.drop_cursor(i).hist == s.hist,
        s.start <= s.drop_cursor(i).start,
        s.drop_cursor(i).corked == s.corked,
        s.drop_cursor(i).senders == s.senders,
        s.drop_cursor(i).bound == s.bound,
        s.drop_cursor(i).id == s.id,
        s.drop_cursor(i).pending() <= s.pending(),
{
    if s.live(i) {
        let t = ChanState { cursors: s.cursors.update(i, None), ..s };
        let r = s.drop_cursor(i);
        assert(r == t.settled());
        assert forall|j: int| #[trigger] t.live(j) implies
            s.live(j) && j != i && t.pos(j) == s.pos(j)
            && t.start <= t.pos(j) <= t.hist.len() by {
            assert(s.live(j));
        }
        lemma_settled(t);
        assert(!t.live(i));
        assert forall|j: int| j != i && s.live(j) implies r.live(j) && r.pos(j) == s.pos(j) by {
            assert(t.live(j));
        }
        assert forall|j: int| j != i && #[trigger] r.live(j) implies s.live(j) by {
            assert(t.live(j));
        }
        assert forall|j: int| #[trigger] r.live(j) implies r.start <= r.pos(j) <= r.hist.len() by {
            assert(t.live(j));
            assert(r.pos(j) == t.pos(j));
        }
        assert(r.wf());
    }
}

} // verus!
