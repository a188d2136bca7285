//! Multiple-producer, multiple-consumer channels over a single shared buffer.
//!
//! A channel keeps one copy of each pending item and hands an independent
//! cursor to every receiver, so consumers that fall behind hold the window
//! open instead of forcing the data to be queued once per consumer.

use vstd::prelude::*;

pub mod buffer;
pub mod laws;
pub mod receiver;
pub mod sender;
pub mod state;

pub use buffer::Buffer;
pub use receiver::Receiver;
pub use receiver::SharedReceiver;
pub use sender::Sender;

use crate::mpmc::state::ChanState;

verus! {

/// Why a channel operation could not deliver or accept an item.
#[derive(Clone, Copy, PartialEq, Eq, Debug)]
pub enum ChannelError {
    /// The channel was corked and the operation cannot make progress:
    /// for a send, any cork; for a receive, a cork with nothing left to read.
    IsCorked,
    /// A previous holder of the buffer's lock aborted, so the shared state is
    /// no longer trustworthy. Never produced by the operations in this crate;
    /// a locking wrapper around them reports its own lock failures with it.
    Poisoned,
}

/// Create a new multiple-producer, multiple-consumer channel: a buffer that
/// retains at most `bound` items, one registered sender, and one receiver
/// whose cursor starts at the first item. It is highly recommended that `T`
/// is a suitably large data packet for efficiency.
///
/// The buffer is returned alongside the handles: every handle operation
/// takes it explicitly, so one owner mediates all access. A locking wrapper
/// that shares one buffer between threads keeps it behind a mutex, hands
/// each thread only the handles, and picks buffer ids that are unique
/// across the process in place of the 0 used here.
pub fn sync_channel<T: Clone>(bound: usize) -> (r: (Buffer<T>, Sender, Receiver))
    requires
        1 <= bound,
    ensures
        r.0.wf(),
        r.0@ == (ChanState {
            bound: bound as int,
            id: 0,
            hist: Seq::<T>::empty(),
            start: 0,
            cursors: seq![Some(0int)],
            senders: 1,
            corked: false,
        }),
        r.1@ == 0,
        r.2@ == (0int, 0int),
        r.0@.live(0),
        r.0@.pos(0) == 0,
{
    let mut buf = Buffer::<T>::new(bound, 0);
    let tx = Sender::new(&mut buf);
    let rx = Receiver::new(&mut buf);
    proof {
        assert(buf@.cursors =~= seq![Some(0int)]);
        assert(buf@ =~= (ChanState {
            bound: bound as int,
            id: 0,
            hist: Seq::<T>::empty(),
            start: 0,
            cursors: seq![Some(0int)],
            senders: 1,
            corked: false,
        }));
    }
    (buf, tx, rx)
}

} // verus!
