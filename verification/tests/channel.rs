use cgraph::mpmc::sync_channel;
use cgraph::mpmc::SharedReceiver;

#[test]
fn non_blocking_one_to_one() {
    let (mut buf, tx, rx) = sync_channel::<u8>(2);
    assert_eq!(tx.id(), rx.id().0);
    assert_eq!(tx.pending(&buf).unwrap(), 0);
    assert_eq!(rx.pending(&buf).unwrap(), 0);

    tx.try_send(&mut buf, 1).unwrap();
    assert_eq!(tx.pending(&buf).unwrap(), 1);
    assert_eq!(rx.pending(&buf).unwrap(), 1);

    tx.try_send(&mut buf, 2).unwrap();
    assert_eq!(rx.pending(&buf).unwrap(), 2);
    assert_eq!(tx.pending(&buf).unwrap(), 2);

    assert_eq!(tx.try_send(&mut buf, 3).unwrap(), Some(3));

    // make sure the window is moving since we are going past initial window
    assert_eq!(rx.try_recv(&mut buf).unwrap(), Some(1));
    assert_eq!(rx.pending(&buf).unwrap(), 1);
    assert_eq!(tx.pending(&buf).unwrap(), 1);
    tx.try_send(&mut buf, 4).unwrap();
    assert_eq!(tx.try_send(&mut buf, 5).unwrap(), Some(5));
    assert_eq!(rx.pending(&buf).unwrap(), 2);
    assert_eq!(tx.pending(&buf).unwrap(), 2);

    // drain all the way
    assert_eq!(rx.try_recv(&mut buf).unwrap(), Some(2));
    assert_eq!(tx.pending(&buf).unwrap(), 1);
    assert_eq!(rx.pending(&buf).unwrap(), 1);
    assert_eq!(rx.try_recv(&mut buf).unwrap(), Some(4));
    assert_eq!(tx.pending(&buf).unwrap(), 0);
    assert_eq!(rx.pending(&buf).unwrap(), 0);
    assert_eq!(rx.try_recv(&mut buf).unwrap(), None);
}

#[test]
fn non_blocking_many_tx() {
    let (mut buf, tx1, rx) = sync_channel::<u8>(2);
    let tx2 = tx1.duplicate(&mut buf);
    assert_eq!(tx1.id(), tx2.id());
    assert_eq!(tx1.id(), rx.id().0);

    tx1.try_send(&mut buf, 1).unwrap();
    tx2.try_send(&mut buf, 2).unwrap();

    // both senders recognize the buffer is full
    assert_eq!(tx1.try_send(&mut buf, 3).unwrap(), Some(3));
    assert_eq!(tx2.try_send(&mut buf, 4).unwrap(), Some(4));

    // messages from both senders were received
    assert_eq!(rx.try_recv(&mut buf).unwrap(), Some(1));
    assert_eq!(rx.try_recv(&mut buf).unwrap(), Some(2));
}

#[test]
fn non_blocking_many_rx() {
    let (mut buf, tx, rx1) = sync_channel::<u8>(2);
    let rx2 = rx1.duplicate(&mut buf);
    assert_eq!(tx.id(), rx1.id().0);
    assert_eq!(tx.id(), rx2.id().0);
    assert_ne!(rx1.id().1, rx2.id().1);

    tx.try_send(&mut buf, 1).unwrap();
    tx.try_send(&mut buf, 2).unwrap();

    // both read same value
    assert_eq!(rx1.try_recv(&mut buf).unwrap(), Some(1));
    assert_eq!(rx2.try_recv(&mut buf).unwrap(), Some(1));
    // moved the window after both have read it
    tx.try_send(&mut buf, 3).unwrap();
    // allows one to get ahead
    assert_eq!(rx1.try_recv(&mut buf).unwrap(), Some(2));
    assert_eq!(rx1.try_recv(&mut buf).unwrap(), Some(3));
    assert_eq!(rx1.try_recv(&mut buf).unwrap(), None);
    // did not move the window yet
    assert_eq!(tx.try_send(&mut buf, 4).unwrap(), Some(4));
    // other can now read values
    assert_eq!(rx2.try_recv(&mut buf).unwrap(), Some(2));
    assert_eq!(rx2.try_recv(&mut buf).unwrap(), Some(3));
}

#[test]
fn non_blocking_shared_rx() {
    let (mut buf, tx, rx1) = sync_channel::<u8>(2);
    let rx2 = SharedReceiver::from(rx1.duplicate(&mut buf));
    let rx3 = rx2.clone();
    // make sure cloning worked correctly
    assert_eq!(tx.id(), rx1.id().0);
    assert_eq!(tx.id(), rx2.id().0);
    assert_eq!(tx.id(), rx3.id().0);
    assert_ne!(rx1.id().1, rx2.id().1);
    assert_eq!(rx2.id().1, rx3.id().1);

    tx.try_send(&mut buf, 1).unwrap();
    tx.try_send(&mut buf, 2).unwrap();

    // both read same value
    assert_eq!(rx1.try_recv(&mut buf).unwrap(), Some(1));
    assert_eq!(rx2.try_recv(&mut buf).unwrap(), Some(1));
    // moved the window after both have read it
    tx.try_send(&mut buf, 3).unwrap();

    // allows one to get ahead
    assert_eq!(rx1.try_recv(&mut buf).unwrap(), Some(2));
    assert_eq!(rx1.try_recv(&mut buf).unwrap(), Some(3));
    assert_eq!(rx1.try_recv(&mut buf).unwrap(), None);
    // did not move the window yet
    assert_eq!(tx.try_send(&mut buf, 4).unwrap(), Some(4));
    // rx2 and rx3 share the same cursor
    assert_eq!(rx3.try_recv(&mut buf).unwrap(), Some(2));
    assert_eq!(rx2.try_recv(&mut buf).unwrap(), Some(3));
}
