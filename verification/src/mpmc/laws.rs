//! The channel's guarantees, stated and proved over the abstract model.
//!
//! A run is a sequence of events — accepted items, cursor reads, cursors
//! registered or dropped, and corks — each enabled in the state it fires
//! from, exactly as the buffer operations allow them. The laws here say
//! what any such run delivers: no item is lost or reordered for an
//! independent cursor, each sender's items keep
//! their order, the pending count never passes the bound, a full buffer
//! blocks producers until a read or a dropped cursor frees a slot, and a
//! corked channel lets every cursor drain what is left and nothing more.

use vstd::prelude::*;

use crate::mpmc::state::ChanState;
use crate::mpmc::state::lemma_append_wf;
use crate::mpmc::state::lemma_drop_cursor_wf;
use crate::mpmc::state::lemma_new_cursor_wf;
use crate::mpmc::state::lemma_read_step_wf;
use crate::mpmc::state::lemma_settled;
use crate::mpmc::state::lemma_wf_same_window;

verus! {

/// One step of channel activity, as the model sees it.
pub ghost enum ChanEvent<T> {
    /// The sender labelled `from` had item `what` accepted.
    Append { from: int, what: T },
    /// The cursor with id `by` read its next item.
    Read { by: int },
    /// A new cursor was registered, anchored at the window head.
    NewCursor,
    /// The cursor with id `who` was dropped.
    DropCursor { who: int },
    /// The channel was corked.
    Cork,
}

/// Whether the event can fire in state `s`: an item is accepted only while
/// the channel is uncorked and has room, and a cursor reads only while an
/// item is there for it — the conditions under which `Buffer::try_send`
/// accepts and `Buffer::try_recv` delivers. Cursors can be registered and
/// dropped, and the channel corked, at any time.
pub open spec fn enabled<T>(s: ChanState<T>, e: ChanEvent<T>) -> bool {
    match e {
        ChanEvent::Append { from, what } => s.can_append(),
        ChanEvent::Read { by } => s.can_read(by),
        ChanEvent::NewCursor => true,
        ChanEvent::DropCursor { who } => true,
        ChanEvent::Cork => true,
    }
}

/// The state after the event.
pub open spec fn after<T>(s: ChanState<T>, e: ChanEvent<T>) -> ChanState<T> {
    match e {
        ChanEvent::Append { from, what } => s.append(what),
        ChanEvent::Read { by } => s.read_step(by),
        ChanEvent::NewCursor => s.new_cursor(),
        ChanEvent::DropCursor { who } => s.drop_cursor(who),
        ChanEvent::Cork => s.cork_step(),
    }
}

/// Whether the run never drops cursor `c`.
pub open spec fn keeps<T>(es: Seq<ChanEvent<T>>, c: int) -> bool
    decreases es.len(),
{
    es.len() == 0 || ((es[0] matches ChanEvent::DropCursor { who } ==> who != c)
        && keeps(es.drop_first(), c))
}

/// The state after a whole sequence of events.
pub open spec fn run<T>(s: ChanState<T>, es: Seq<ChanEvent<T>>) -> ChanState<T>
    decreases es.len(),
{
    if es.len() == 0 {
        s
    } else {
        run(after(s, es[0]), es.drop_first())
    }
}

/// Whether every event of the sequence is enabled when its turn comes.
pub open spec fn valid_run<T>(s: ChanState<T>, es: Seq<ChanEvent<T>>) -> bool
    decreases es.len(),
{
    es.len() == 0 || (enabled(s, es[0]) && valid_run(after(s, es[0]), es.drop_first()))
}

/// The items cursor `c` reads along the run, in reading order.
pub open spec fn reads_by<T>(s: ChanState<T>, es: Seq<ChanEvent<T>>, c: int) -> Seq<T>
    decreases es.len(),
{
    if es.len() == 0 {
        Seq::empty()
    } else {
        let rest = reads_by(after(s, es[0]), es.drop_first(), c);
        if es[0] is Read && es[0]->by == c {
            seq![s.read_value(c)] + rest
        } else {
            rest
        }
    }
}

/// Every item accepted along the run, in acceptance order.
pub open spec fn appends_all<T>(es: Seq<ChanEvent<T>>) -> Seq<T>
    decreases es.len(),
{
    if es.len() == 0 {
        Seq::empty()
    } else {
        let rest = appends_all(es.drop_first());
        if es[0] is Append {
            seq![es[0]->what] + rest
        } else {
            rest
        }
    }
}

/// The items accepted from sender `a` along the run, in acceptance order.
pub open spec fn appends_by<T>(es: Seq<ChanEvent<T>>, a: int) -> Seq<T>
    decreases es.len(),
{
    if es.len() == 0 {
        Seq::empty()
    } else {
        let rest = appends_by(es.drop_first(), a);
        if es[0] is Append && es[0]->from == a {
            seq![es[0]->what] + rest
        } else {
            rest
        }
    }
}

/// `sub` occurs inside `sup` at the strictly increasing positions `at`.
pub open spec fn occurs_at<T>(sub: Seq<T>, sup: Seq<T>, at: Seq<int>) -> bool {
    &&& at.len() == sub.len()
    &&& forall|k: int| 0 <= k < at.len() ==> 0 <= #[trigger] at[k] < sup.len()
    &&& forall|k: int| 0 < k < at.len() ==> at[k - 1] < #[trigger] at[k]
    &&& forall|k: int| 0 <= k < at.len() ==> sup[#[trigger] at[k]] == sub[k]
}

/// The history after a run is the history before it followed by exactly
/// the accepted items: nothing is lost, duplicated or reordered on the way
/// in. Reads never change the history.
pub proof fn lemma_hist_of_run<T>(s: ChanState<T>, es: Seq<ChanEvent<T>>)
    ensures
        run(s, es).hist == s.hist + appends_all(es),
    decreases es.len(),
{
    if es.len() == 0 {
        assert(s.hist + appends_all(es) =~= s.hist);
    } else {
        let e = es[0];
        let s1 = after(s, e);
        let rest = es.drop_first();
        lemma_hist_of_run(s1, rest);
        match e {
            ChanEvent::Append { from, what } => {
                assert(s1.hist == s.hist.push(what));
                assert(s.hist.push(what) + appends_all(rest)
                    =~= s.hist + (seq![what] + appends_all(rest)));
            },
            ChanEvent::Read { by } => {
                lemma_settled_hist(s.advanced(by));
                assert(s1.hist == s.hist);
                assert(appends_all(es) == appends_all(rest));
            },
            ChanEvent::NewCursor => {
                assert(s1.hist == s.hist);
            },
            ChanEvent::DropCursor { who } => {
                if s.live(who) {
                    lemma_settled_hist(ChanState { cursors: s.cursors.update(who, None), ..s });
                }
                assert(s1.hist == s.hist);
            },
            ChanEvent::Cork => {
                assert(s1.hist == s.hist);
            },
        }
    }
}

/// Sliding the window never changes anything but the window anchor.
proof fn lemma_settled_hist<T>(s: ChanState<T>)
    ensures
        s.settled().hist == s.hist,
        s.settled().cursors == s.cursors,
        s.settled().corked == s.corked,
        s.settled().senders == s.senders,
        s.settled().bound == s.bound,
        s.settled().id == s.id,
        s.start <= s.settled().start,
    decreases s.hist.len() - s.start,
{
    if s.has_live() && s.start < s.hist.len()
        && !(exists|j: int| #[trigger] s.live(j) && s.pos(j) == s.start) {
        lemma_settled_hist(ChanState { start: s.start + 1, ..s });
    }
}

/// Invariant preservation: every state along a valid run from a well-formed
/// state is well formed, and the run touches neither the bound, the id nor
/// the sender count.
pub proof fn lemma_run_wf<T>(s: ChanState<T>, es: Seq<ChanEvent<T>>)
    requires
        s.wf(),
        valid_run(s, es),
    ensures
        run(s, es).wf(),
        run(s, es).bound == s.bound,
        run(s, es).id == s.id,
        run(s, es).senders == s.senders,
        s.corked ==> run(s, es).corked,
    decreases es.len(),
{
    if es.len() != 0 {
        let e = es[0];
        let s1 = after(s, e);
        match e {
            ChanEvent::Append { from, what } => {
                lemma_append_wf(s, what);
            },
            ChanEvent::Read { by } => {
                lemma_read_step_wf(s, by);
            },
            ChanEvent::NewCursor => {
                lemma_new_cursor_wf(s);
            },
            ChanEvent::DropCursor { who } => {
                lemma_drop_cursor_wf(s, who);
            },
            ChanEvent::Cork => {
                lemma_wf_same_window(s, s.cork_step());
            },
        }
        lemma_run_wf(s1, es.drop_first());
    }
}

/// What one cursor sees: along any valid run that does not drop it, a
/// live cursor stays live, it advances by exactly one position per item it
/// reads, the history it started with is preserved as a prefix, and the
/// items it reads are exactly the consecutive history entries from its
/// starting position — every item once, in history order, none skipped and
/// none repeated.
pub proof fn lemma_cursor_trace<T>(s: ChanState<T>, es: Seq<ChanEvent<T>>, c: int)
    requires
        s.wf(),
        valid_run(s, es),
        s.live(c),
        keeps(es, c),
    ensures
        run(s, es).wf(),
        run(s, es).live(c),
        run(s, es).pos(c) == s.pos(c) + reads_by(s, es, c).len(),
        s.hist.len() <= run(s, es).hist.len(),
        forall|k: int| 0 <= k < s.hist.len() ==> #[trigger] run(s, es).hist[k] == s.hist[k],
        forall|k: int| 0 <= k < reads_by(s, es, c).len() ==>
            #[trigger] reads_by(s, es, c)[k] == run(s, es).hist[s.pos(c) + k],
    decreases es.len(),
{
    let r = run(s, es);
    let out = reads_by(s, es, c);
    if es.len() == 0 {
        assert(out =~= Seq::<T>::empty());
    } else {
        let e = es[0];
        let s1 = after(s, e);
        let rest = es.drop_first();
        match e {
            ChanEvent::Append { from, what } => {
                lemma_append_wf(s, what);
                assert(s1.live(c) && s1.pos(c) == s.pos(c));
                lemma_cursor_trace(s1, rest, c);
                assert(out == reads_by(s1, rest, c));
                assert forall|k: int| 0 <= k < s.hist.len() implies
                    #[trigger] r.hist[k] == s.hist[k] by {
                    assert(r.hist[k] == s1.hist[k]);
                }
            },
            ChanEvent::Read { by } => {
                lemma_read_step_wf(s, by);
                assert(s1.live(c));
                lemma_cursor_trace(s1, rest, c);
                if by == c {
                    let tail = reads_by(s1, rest, c);
                    assert(out == seq![s.read_value(c)] + tail);
                    assert(s1.pos(c) == s.pos(c) + 1);
                    assert(s.pos(c) < s.hist.len());
                    assert(r.hist[s.pos(c)] == s1.hist[s.pos(c)]);
                    assert(s1.hist[s.pos(c)] == s.hist[s.pos(c)]);
                    assert forall|k: int| 0 <= k < out.len() implies
                        #[trigger] out[k] == r.hist[s.pos(c) + k] by {
                        if k == 0 {
                            assert(out[0] == s.read_value(c));
                        } else {
                            assert(out[k] == tail[k - 1]);
                            assert(tail[k - 1] == r.hist[s1.pos(c) + (k - 1)]);
                        }
                    }
                } else {
                    assert(s1.pos(c) == s.pos(c));
                    assert(out == reads_by(s1, rest, c));
                }
            },
            ChanEvent::NewCursor => {
                lemma_new_cursor_wf(s);
                assert(s1.live(c) && s1.pos(c) == s.pos(c));
                lemma_cursor_trace(s1, rest, c);
                assert(out == reads_by(s1, rest, c));
            },
            ChanEvent::DropCursor { who } => {
                lemma_drop_cursor_wf(s, who);
                assert(who != c);
                assert(s1.live(c) && s1.pos(c) == s.pos(c));
                lemma_cursor_trace(s1, rest, c);
                assert(out == reads_by(s1, rest, c));
            },
            ChanEvent::Cork => {
                lemma_wf_same_window(s, s1);
                assert(s1.live(c) && s1.pos(c) == s.pos(c));
                lemma_cursor_trace(s1, rest, c);
                assert(out == reads_by(s1, rest, c));
            },
        }
    }
}

/// Every prefix of a valid run is itself a valid run.
pub proof fn lemma_valid_prefix<T>(s: ChanState<T>, es: Seq<ChanEvent<T>>, n: int)
    requires
        valid_run(s, es),
        0 <= n <= es.len(),
    ensures
        valid_run(s, es.subrange(0, n)),
    decreases es.len(),
{
    let p = es.subrange(0, n);
    if n > 0 {
        assert(p[0] == es[0]);
        lemma_valid_prefix(after(s, es[0]), es.drop_first(), n - 1);
        assert(p.drop_first() =~= es.drop_first().subrange(0, n - 1));
    }
}

/// Bounded memory: at every point along a valid run, the number of pending
/// items is at most the bound.
pub proof fn lemma_bounded_memory<T>(s: ChanState<T>, es: Seq<ChanEvent<T>>)
    requires
        s.wf(),
        valid_run(s, es),
    ensures
        forall|n: int| 0 <= n <= es.len() ==>
            #[trigger] run(s, es.subrange(0, n)).pending() <= s.bound,
{
    assert forall|n: int| 0 <= n <= es.len() implies
        #[trigger] run(s, es.subrange(0, n)).pending() <= s.bound by {
        lemma_valid_prefix(s, es, n);
        lemma_run_wf(s, es.subrange(0, n));
    }
}

/// What one shared cursor delivers: its holders together receive
/// consecutive accepted items — each item at most once across the whole
/// group, in acceptance order — and a group that drains the run of a
/// caught-up cursor receives exactly the sent sequence, split among its
/// holders.
pub proof fn lemma_shared_partition<T>(s: ChanState<T>, es: Seq<ChanEvent<T>>, c: int)
    requires
        s.wf(),
        valid_run(s, es),
        s.live(c),
        keeps(es, c),
        s.pos(c) == s.hist.len(),
    ensures
        reads_by(s, es, c).len() <= appends_all(es).len(),
        forall|k: int| 0 <= k < reads_by(s, es, c).len() ==>
            #[trigger] reads_by(s, es, c)[k] == appends_all(es)[k],
        reads_by(s, es, c).len() == appends_all(es).len() ==>
            reads_by(s, es, c) == appends_all(es),
{
    lemma_cursor_trace(s, es, c);
    lemma_hist_of_run(s, es);
    let r = run(s, es);
    let out = reads_by(s, es, c);
    assert(r.pos(c) <= r.hist.len());
    assert(out.len() <= appends_all(es).len());
    assert forall|k: int| 0 <= k < out.len() implies
        #[trigger] out[k] == appends_all(es)[k] by {
        assert(out[k] == r.hist[s.pos(c) + k]);
        assert(r.hist[s.hist.len() + k] == appends_all(es)[k]);
    }
    if out.len() == appends_all(es).len() {
        assert(out =~= appends_all(es));
    }
}

/// No loss, broadcast: a cursor that was caught up when the run began and
/// reads as many items as the run accepts reads exactly the accepted items
/// in acceptance order. Every independent cursor of a channel satisfies
/// this once it drains, so each one receives the full sent sequence.
pub proof fn lemma_no_loss_broadcast<T>(s: ChanState<T>, es: Seq<ChanEvent<T>>, c: int)
    requires
        s.wf(),
        valid_run(s, es),
        s.live(c),
        keeps(es, c),
        s.pos(c) == s.hist.len(),
        reads_by(s, es, c).len() == appends_all(es).len(),
    ensures
        reads_by(s, es, c) == appends_all(es),
{
    lemma_shared_partition(s, es, c);
}

/// The items of one sender sit in the history at strictly increasing
/// positions, in the order that sender had them accepted.
pub proof fn lemma_sender_order_in_hist<T>(s: ChanState<T>, es: Seq<ChanEvent<T>>, a: int) -> (at:
    Seq<int>)
    ensures
        occurs_at(appends_by(es, a), run(s, es).hist, at),
        forall|k: int| 0 <= k < at.len() ==> s.hist.len() <= #[trigger] at[k],
    decreases es.len(),
{
    if es.len() == 0 {
        let at = Seq::<int>::empty();
        assert(appends_by(es, a) =~= Seq::<T>::empty());
        at
    } else {
        let e = es[0];
        let s1 = after(s, e);
        let rest = es.drop_first();
        let rest_at = lemma_sender_order_in_hist(s1, rest, a);
        let sup = run(s, es).hist;
        if e is Append && e->from == a {
            let at = seq![s.hist.len() as int] + rest_at;
            lemma_hist_of_run(s1, rest);
            assert(s1.hist == s.hist.push(e->what));
            assert(sup[s.hist.len() as int] == e->what);
            assert(appends_by(es, a) == seq![e->what] + appends_by(rest, a));
            assert forall|k: int| 0 <= k < at.len() implies
                0 <= #[trigger] at[k] < sup.len() && sup[at[k]] == appends_by(es, a)[k]
                && s.hist.len() <= at[k] by {
                if k > 0 {
                    assert(at[k] == rest_at[k - 1]);
                    assert(s1.hist.len() <= rest_at[k - 1]);
                    assert(appends_by(es, a)[k] == appends_by(rest, a)[k - 1]);
                }
            }
            assert forall|k: int| 0 < k < at.len() implies at[k - 1] < #[trigger] at[k] by {
                assert(s1.hist.len() <= rest_at[k - 1]);
                if k > 1 {
                    assert(at[k - 1] == rest_at[k - 2] && at[k] == rest_at[k - 1]);
                }
            }
            at
        } else {
            let at = rest_at;
            match e {
                ChanEvent::Append { from, what } => {
                    assert(s1.hist == s.hist.push(what));
                    assert(appends_by(es, a) == appends_by(rest, a));
                },
                ChanEvent::Read { by } => {
                    lemma_settled_hist(s.advanced(by));
                    assert(s1.hist == s.hist);
                    assert(appends_by(es, a) == appends_by(rest, a));
                },
                ChanEvent::NewCursor => {
                    assert(s1.hist == s.hist);
                    assert(appends_by(es, a) == appends_by(rest, a));
                },
                ChanEvent::DropCursor { who } => {
                    if s.live(who) {
                        lemma_settled_hist(
                            ChanState { cursors: s.cursors.update(who, None), ..s },
                        );
                    }
                    assert(s1.hist == s.hist);
                    assert(appends_by(es, a) == appends_by(rest, a));
                },
                ChanEvent::Cork => {
                    assert(s1.hist == s.hist);
                    assert(appends_by(es, a) == appends_by(rest, a));
                },
            }
            assert forall|k: int| 0 <= k < at.len() implies s.hist.len() <= #[trigger] at[k] by {
                assert(s1.hist.len() <= at[k]);
            }
            at
        }
    }
}

/// Per-sender order among the reads: a receiver that drains the run of a
/// fresh channel observes any one sender's items in that sender's order
/// (at strictly increasing places of its output), whatever the
/// interleaving with other senders was.
pub proof fn lemma_per_sender_fifo<T>(
    s: ChanState<T>,
    es: Seq<ChanEvent<T>>,
    a: int,
    c: int,
) -> (at: Seq<int>)
    requires
        s.wf(),
        valid_run(s, es),
        s.live(c),
        keeps(es, c),
        s.hist.len() == 0,
        s.pos(c) == 0,
        reads_by(s, es, c).len() == appends_all(es).len(),
    ensures
        occurs_at(appends_by(es, a), reads_by(s, es, c), at),
{
    lemma_no_loss_broadcast(s, es, c);
    lemma_hist_of_run(s, es);
    let at = lemma_sender_order_in_hist(s, es, a);
    assert(run(s, es).hist =~= reads_by(s, es, c));
    at
}

/// Backpressure: while a single live cursor does not read, a full channel
/// accepts nothing; one read by that cursor makes room for exactly one
/// more item.
pub proof fn lemma_backpressure<T>(s: ChanState<T>, c: int, v: T)
    requires
        s.wf(),
        !s.corked,
        s.pending() == s.bound,
        s.live(c),
        forall|j: int| #[trigger] s.live(j) ==> j == c,
    ensures
        !s.can_append(),
        s.can_read(c),
        s.read_step(c).can_append(),
        !s.read_step(c).append(v).can_append(),
{
    let m = choose|i: int| #[trigger] s.live(i) && s.pos(i) == s.start;
    assert(m == c);
    assert(s.pos(c) == s.start);
    let a = s.advanced(c);
    assert(a.live(c) && a.pos(c) == s.start + 1);
    assert forall|j: int| #[trigger] a.live(j) implies j == c by {
        assert(s.live(j));
    }
    assert(!(exists|j: int| #[trigger] a.live(j) && a.pos(j) == a.start));
    let t = ChanState { start: s.start + 1, ..a };
    assert(a.settled() == t.settled());
    assert(t.live(c) && t.pos(c) == t.start);
    assert(t.settled() == t);
    assert(s.read_step(c) == t);
    assert(t.pending() == s.bound - 1);
}

/// Cork is final: a corked channel stays corked along any valid run and
/// its history never grows again.
pub proof fn lemma_cork_is_final<T>(s: ChanState<T>, es: Seq<ChanEvent<T>>)
    requires
        valid_run(s, es),
        s.corked,
    ensures
        run(s, es).corked,
        run(s, es).hist == s.hist,
    decreases es.len(),
{
    if es.len() != 0 {
        let e = es[0];
        match e {
            ChanEvent::Append { from, what } => {
                assert(enabled(s, e));
                assert(false);
            },
            ChanEvent::Read { by } => {
                lemma_settled_hist(s.advanced(by));
                lemma_cork_is_final(after(s, e), es.drop_first());
            },
            ChanEvent::NewCursor => {
                lemma_cork_is_final(after(s, e), es.drop_first());
            },
            ChanEvent::DropCursor { who } => {
                if s.live(who) {
                    lemma_settled_hist(ChanState { cursors: s.cursors.update(who, None), ..s });
                }
                lemma_cork_is_final(after(s, e), es.drop_first());
            },
            ChanEvent::Cork => {
                lemma_cork_is_final(after(s, e), es.drop_first());
            },
        }
    }
}

/// Cork drain: on a corked channel a cursor at the head of the window
/// reads at most the pending items, in order; once it has read all of
/// them the channel is drained for it — no read by it is enabled any
/// more, and the cork still stands, so a receive reports `IsCorked`.
pub proof fn lemma_cork_drain<T>(s: ChanState<T>, es: Seq<ChanEvent<T>>, c: int)
    requires
        s.wf(),
        valid_run(s, es),
        s.corked,
        s.live(c),
        keeps(es, c),
        s.pos(c) == s.start,
    ensures
        reads_by(s, es, c).len() <= s.pending(),
        reads_by(s, es, c) == s.hist.subrange(
            s.start,
            s.start + reads_by(s, es, c).len() as int,
        ),
        reads_by(s, es, c).len() == s.pending() ==> !run(s, es).can_read(c)
            && run(s, es).corked,
{
    lemma_cursor_trace(s, es, c);
    lemma_cork_is_final(s, es);
    let r = run(s, es);
    let out = reads_by(s, es, c);
    assert(r.pos(c) <= r.hist.len());
    assert(out.len() <= s.pending());
    assert(out =~= s.hist.subrange(s.start, s.start + out.len() as int));
}

/// Last-sender-drop corks: deregistering the last sender and then corking
/// — what a sender handle's owner does once `remove_sender` reports zero —
/// leaves a corked channel with no senders; from there every run keeps the
/// cork, and a cursor at the head of the window drains exactly the pending
/// items before it sees end-of-stream.
pub proof fn lemma_last_sender_drop_corks<T>(s: ChanState<T>, es: Seq<ChanEvent<T>>, c: int)
    requires
        s.wf(),
        s.senders == 1,
        s.live(c),
        keeps(es, c),
        s.pos(c) == s.start,
        valid_run(s.remove_sender_step().cork_step(), es),
    ensures
        s.remove_sender_step().cork_step().senders == 0,
        s.remove_sender_step().cork_step().corked,
        run(s.remove_sender_step().cork_step(), es).corked,
        reads_by(s.remove_sender_step().cork_step(), es, c).len() <= s.pending(),
        reads_by(s.remove_sender_step().cork_step(), es, c).len() == s.pending() ==>
            !run(s.remove_sender_step().cork_step(), es).can_read(c),
{
    let t = s.remove_sender_step().cork_step();
    lemma_wf_same_window(s, t);
    assert(t.live(c) && t.pos(c) == s.pos(c));
    lemma_cork_is_final(t, es);
    lemma_cork_drain(t, es, c);
}

/// A dropped receiver does not stall producers: when the channel is full
/// and the one cursor holding the window open is dropped while another
/// live cursor remains, the window slides, at least one slot is freed and
/// an append is enabled again.
pub proof fn lemma_drop_unblocks<T>(s: ChanState<T>, i: int, j: int)
    requires
        s.wf(),
        !s.corked,
        s.pending() == s.bound,
        s.live(i),
        s.pos(i) == s.start,
        forall|k: int| #[trigger] s.live(k) && k != i ==> s.pos(k) > s.start,
        s.live(j),
        j != i,
    ensures
        !s.can_append(),
        s.drop_cursor(i).pending() < s.bound,
        s.drop_cursor(i).can_append(),
{
    let t = ChanState { cursors: s.cursors.update(i, None), ..s };
    let r = s.drop_cursor(i);
    assert(r == t.settled());
    assert forall|k: int| #[trigger] t.live(k) implies
        s.live(k) && k != i && t.pos(k) == s.pos(k)
        && t.start <= t.pos(k) <= t.hist.len() by {
        assert(s.live(k));
    }
    lemma_settled(t);
    assert(t.live(j));
    assert(t.has_live());
    let m = choose|k: int| #[trigger] r.live(k) && r.pos(k) == r.start;
    assert(t.live(m));
    assert(s.pos(m) > s.start);
    assert(r.start > s.start);
    assert(r.pending() < s.bound);
}

} // verus!
