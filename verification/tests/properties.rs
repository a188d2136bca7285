use cgraph::mpmc::buffer::Buffer;
use cgraph::mpmc::sync_channel;
use cgraph::mpmc::ChannelError;
use cgraph::mpmc::SharedReceiver;

// Broadcast without loss: with two independent receivers present from the
// start, each one reads the full sent sequence in order.
#[test]
fn broadcast_two_receivers_see_everything() {
    let (mut buf, tx, rx1) = sync_channel::<u32>(2);
    let rx2 = rx1.duplicate(&mut buf);
    let mut got1: Vec<u32> = Vec::new();
    let mut got2: Vec<u32> = Vec::new();
    for v in 1..=10u32 {
        tx.send(&mut buf, v).unwrap();
        // keep both receivers caught up so the next send always has room
        got1.push(rx1.recv(&mut buf).unwrap());
        got2.push(rx2.recv(&mut buf).unwrap());
    }
    let want: Vec<u32> = (1..=10).collect();
    assert_eq!(got1, want);
    assert_eq!(got2, want);
}

// Per-sender FIFO: whatever the interleaving of two senders, the receiver
// sees each sender's values in that sender's own order.
#[test]
fn per_sender_order_is_kept() {
    let (mut buf, tx_a, rx) = sync_channel::<u32>(4);
    let tx_b = tx_a.duplicate(&mut buf);
    let mut got: Vec<u32> = Vec::new();

    tx_a.try_send(&mut buf, 10).unwrap();
    tx_b.try_send(&mut buf, 20).unwrap();
    tx_a.try_send(&mut buf, 11).unwrap();
    tx_b.try_send(&mut buf, 21).unwrap();
    while let Some(v) = rx.try_recv(&mut buf).unwrap() {
        got.push(v);
    }
    tx_b.try_send(&mut buf, 22).unwrap();
    tx_a.try_send(&mut buf, 12).unwrap();
    while let Some(v) = rx.try_recv(&mut buf).unwrap() {
        got.push(v);
    }

    let from_a: Vec<u32> = got.iter().copied().filter(|v| *v < 20).collect();
    let from_b: Vec<u32> = got.iter().copied().filter(|v| *v >= 20).collect();
    assert_eq!(from_a, vec![10, 11, 12]);
    assert_eq!(from_b, vec![20, 21, 22]);
}

// Two senders, many values, bound 2: the receiver sees both full
// sequences, and each sender's values arrive in that sender's order.
#[test]
fn two_senders_long_interleaving() {
    let (mut buf, tx_a, rx) = sync_channel::<u32>(2);
    let tx_b = tx_a.duplicate(&mut buf);
    let mut got: Vec<u32> = Vec::new();
    for i in 1..=100u32 {
        tx_a.send(&mut buf, i).unwrap();
        got.push(rx.recv(&mut buf).unwrap());
        tx_b.send(&mut buf, 1000 + i).unwrap();
        got.push(rx.recv(&mut buf).unwrap());
    }
    assert_eq!(got.len(), 200);
    let from_a: Vec<u32> = got.iter().copied().filter(|v| *v < 1000).collect();
    let from_b: Vec<u32> = got.iter().copied().filter(|v| *v >= 1000).collect();
    assert_eq!(from_a, (1..=100).collect::<Vec<u32>>());
    assert_eq!(from_b, (1001..=1100).collect::<Vec<u32>>());
}

// Bounded memory: the pending count never exceeds the bound.
#[test]
fn pending_never_exceeds_bound() {
    let (mut buf, tx, rx) = sync_channel::<u32>(3);
    for round in 0..4u32 {
        for v in 0..3u32 {
            let _ = tx.try_send(&mut buf, round * 10 + v).unwrap();
            assert!(tx.pending(&buf).unwrap() <= 3);
        }
        // the buffer is full now
        assert_eq!(tx.try_send(&mut buf, 99).unwrap(), Some(99));
        assert_eq!(tx.pending(&buf).unwrap(), 3);
        while let Some(_) = rx.try_recv(&mut buf).unwrap() {
            assert!(rx.pending(&buf).unwrap() <= 3);
        }
    }
}

// Backpressure: with one receiver that never receives and bound 2, after 2
// successful sends the next send is refused; one receive then makes room
// for exactly one more item.
#[test]
fn one_recv_frees_one_slot() {
    let (mut buf, tx, rx) = sync_channel::<u8>(2);
    tx.try_send(&mut buf, 1).unwrap();
    tx.try_send(&mut buf, 2).unwrap();
    assert_eq!(tx.try_send(&mut buf, 3).unwrap(), Some(3));
    assert_eq!(rx.try_recv(&mut buf).unwrap(), Some(1));
    assert_eq!(tx.try_send(&mut buf, 3).unwrap(), None);
    assert_eq!(tx.try_send(&mut buf, 4).unwrap(), Some(4));
}

// Cork drain: after corking with three items pending, the receiver reads
// exactly those three items and then sees the end-of-stream error.
#[test]
fn cork_then_drain() {
    let (mut buf, tx, rx) = sync_channel::<u8>(4);
    tx.send(&mut buf, 1).unwrap();
    tx.send(&mut buf, 2).unwrap();
    tx.send(&mut buf, 3).unwrap();
    tx.cork(&mut buf);
    assert!(tx.is_corked(&buf));
    assert!(rx.is_corked(&buf));
    assert_eq!(tx.send(&mut buf, 4), Err(ChannelError::IsCorked));
    assert_eq!(rx.recv(&mut buf).unwrap(), 1);
    assert_eq!(rx.recv(&mut buf).unwrap(), 2);
    assert_eq!(rx.recv(&mut buf).unwrap(), 3);
    assert_eq!(rx.recv(&mut buf), Err(ChannelError::IsCorked));
    assert_eq!(rx.try_recv(&mut buf), Err(ChannelError::IsCorked));
}

// Corking twice is harmless.
#[test]
fn cork_is_idempotent() {
    let (mut buf, tx, rx) = sync_channel::<u8>(2);
    tx.try_send(&mut buf, 7).unwrap();
    tx.cork(&mut buf);
    tx.cork(&mut buf);
    assert!(tx.is_corked(&buf));
    assert_eq!(rx.recv(&mut buf).unwrap(), 7);
    assert_eq!(rx.recv(&mut buf), Err(ChannelError::IsCorked));
}

// Shared receivers partition the stream: each item goes to exactly one of
// the holders of the shared cursor, while an independent receiver still
// sees everything.
#[test]
fn shared_receivers_split_without_duplicates() {
    let (mut buf, tx, rx) = sync_channel::<u8>(4);
    let sr1 = SharedReceiver::from(rx.duplicate(&mut buf));
    let sr2 = sr1.clone();
    tx.try_send(&mut buf, 1).unwrap();
    tx.try_send(&mut buf, 2).unwrap();
    tx.try_send(&mut buf, 3).unwrap();
    tx.try_send(&mut buf, 4).unwrap();

    let mut shared_got: Vec<u8> = Vec::new();
    shared_got.push(sr1.try_recv(&mut buf).unwrap().unwrap());
    shared_got.push(sr2.try_recv(&mut buf).unwrap().unwrap());
    shared_got.push(sr2.try_recv(&mut buf).unwrap().unwrap());
    shared_got.push(sr1.try_recv(&mut buf).unwrap().unwrap());
    assert_eq!(sr1.try_recv(&mut buf).unwrap(), None);
    assert_eq!(sr2.try_recv(&mut buf).unwrap(), None);
    // together the holders got the sent sequence, each item exactly once
    assert_eq!(shared_got, vec![1, 2, 3, 4]);

    // the independent receiver still reads everything
    for want in 1..=4u8 {
        assert_eq!(rx.try_recv(&mut buf).unwrap(), Some(want));
    }
}

// Unwrapping a shared receiver hands back the receiver with the same
// buffer and cursor identity.
#[test]
fn shared_receiver_unwraps_to_same_cursor() {
    let (_buf, _tx, rx) = sync_channel::<u8>(2);
    let id = rx.id();
    let sr = SharedReceiver::from(rx);
    assert_eq!(sr.id(), id);
    let back = sr.try_unwrap().unwrap();
    assert_eq!(back.id(), id);
}

// Last-sender-drop corks: when the owner of the last sender deregisters it
// (what a sender handle's destructor does) and corks on seeing zero, every
// receiver drains what is pending and then observes the cork.
#[test]
fn deregistering_last_sender_corks() {
    let (mut buf, tx, rx) = sync_channel::<u8>(4);
    let tx2 = tx.duplicate(&mut buf);
    assert_eq!(buf.senders(), 2);
    tx.try_send(&mut buf, 5).unwrap();
    tx2.try_send(&mut buf, 6).unwrap();

    // first handle goes away: one sender left, not corked
    assert_eq!(buf.remove_sender(), 1);
    assert!(!buf.is_corked());
    // last handle goes away: its owner corks
    let left = buf.remove_sender();
    assert_eq!(left, 0);
    buf.cork();
    assert!(buf.is_corked());

    assert_eq!(rx.recv(&mut buf).unwrap(), 5);
    assert_eq!(rx.recv(&mut buf).unwrap(), 6);
    assert_eq!(rx.recv(&mut buf), Err(ChannelError::IsCorked));
}

// A dropped receiver does not stall producers: dropping the slowest cursor
// slides the window, so a producer that found the buffer full can proceed.
#[test]
fn dropping_slowest_receiver_frees_slots() {
    let (mut buf, tx, rx_slow) = sync_channel::<u8>(2);
    let rx_fast = rx_slow.duplicate(&mut buf);
    tx.try_send(&mut buf, 1).unwrap();
    tx.try_send(&mut buf, 2).unwrap();
    // the fast receiver races ahead; the slow one never reads
    assert_eq!(rx_fast.try_recv(&mut buf).unwrap(), Some(1));
    assert_eq!(rx_fast.try_recv(&mut buf).unwrap(), Some(2));
    // the slow cursor still holds the window: a producer is stuck
    assert_eq!(tx.try_send(&mut buf, 3).unwrap(), Some(3));
    // dropping the slow receiver frees both slots
    rx_slow.release(&mut buf);
    assert_eq!(tx.pending(&buf).unwrap(), 0);
    assert_eq!(tx.try_send(&mut buf, 3).unwrap(), None);
    assert_eq!(rx_fast.try_recv(&mut buf).unwrap(), Some(3));
}

// A receiver created later starts at the oldest retained item, not at the
// senders' latest position.
#[test]
fn new_receiver_starts_at_window_head() {
    let (mut buf, tx, rx1) = sync_channel::<u8>(3);
    tx.try_send(&mut buf, 1).unwrap();
    tx.try_send(&mut buf, 2).unwrap();
    assert_eq!(rx1.try_recv(&mut buf).unwrap(), Some(1));
    // rx1 is the only cursor, so the window slid past item 1
    let rx2 = rx1.duplicate(&mut buf);
    assert_eq!(rx2.try_recv(&mut buf).unwrap(), Some(2));
    assert_eq!(rx2.try_recv(&mut buf).unwrap(), None);
}

// The buffer reports the id it was built with, and cursor ids are never
// reused within one buffer.
#[test]
fn buffer_identity_and_cursor_ids() {
    let mut buf = Buffer::<u8>::new(2, 7);
    assert_eq!(buf.id(), 7);
    assert_eq!(buf.len().unwrap(), 0);
    assert_eq!(buf.senders(), 0);
    let c0 = buf.new_receiver().unwrap();
    let c1 = buf.new_receiver().unwrap();
    assert_ne!(c0, c1);
    buf.drop_receiver(c0).unwrap();
    let c2 = buf.new_receiver().unwrap();
    assert_ne!(c2, c0);
    assert_ne!(c2, c1);
}

// Raw buffer sends and receives by cursor id behave like the handles.
#[test]
fn buffer_direct_operations() {
    let mut buf = Buffer::<u16>::new(2, 0);
    let c = buf.new_receiver().unwrap();
    assert_eq!(buf.try_recv(c).unwrap(), None);
    assert_eq!(buf.try_send(100).unwrap(), None);
    assert_eq!(buf.try_send(200).unwrap(), None);
    assert_eq!(buf.try_send(300).unwrap(), Some(300));
    assert_eq!(buf.len().unwrap(), 2);
    assert_eq!(buf.recv(c).unwrap(), 100);
    assert_eq!(buf.send(300).unwrap(), ());
    buf.cork();
    assert_eq!(buf.try_send(400), Err(ChannelError::IsCorked));
    assert_eq!(buf.recv(c).unwrap(), 200);
    assert_eq!(buf.recv(c).unwrap(), 300);
    assert_eq!(buf.recv(c), Err(ChannelError::IsCorked));
}
