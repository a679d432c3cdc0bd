use config_it::noti::{Receiver, Sender, WaitPoll, WaitState};

#[test]
fn receivers_see_notifications() {
    let mut tx = Sender::new();
    assert_eq!(tx.fence, 1);
    let mut fresh = tx.receiver(true);
    let mut seen = tx.receiver(false);
    assert_eq!(fresh.fence(), 0);
    assert_eq!(fresh.is_dirty(Some(&tx)), Some(true));
    assert_eq!(seen.is_dirty(Some(&tx)), Some(false));

    tx.notify();
    assert_eq!(tx.fence, 3);
    assert_eq!(seen.is_dirty(Some(&tx)), Some(true));
    assert_eq!(seen.update(Some(&tx)), Some(()));
    assert_eq!(seen.is_dirty(Some(&tx)), Some(false));
    seen.invalidate();
    assert_eq!(seen.is_dirty(Some(&tx)), Some(true));

    assert_eq!(fresh.update(None), None);
    assert_eq!(fresh.fence(), 0);
    assert_eq!(fresh.is_dirty(None), None);
}

#[test]
fn fence_wraps_without_reaching_zero() {
    let mut tx = Sender { fence: usize::MAX };
    tx.notify();
    assert_eq!(tx.fence, 1);
}

#[test]
fn wait_state_machine() {
    let tx = Sender::new();
    let mut rx: Receiver = tx.receiver(false);

    let mut w = rx.wait();
    assert!(matches!(w.poll(&mut rx, Some(&tx)), WaitPoll::Register));
    assert_eq!(w.state, WaitState::Registered);
    assert!(w.must_unregister_on_drop());
    // Woken without an update: the wait registers again and sees the next update.
    assert!(matches!(w.poll(&mut rx, Some(&tx)), WaitPoll::Reregister));
    assert_eq!(w.state, WaitState::Registered);
    let mut tx2 = tx;
    tx2.notify();
    assert!(matches!(w.poll(&mut rx, Some(&tx2)), WaitPoll::Ready(Some(()))));
    assert_eq!(rx.fence(), tx2.fence);
    assert_eq!(w.state, WaitState::Expired);
    assert!(matches!(w.poll(&mut rx, Some(&tx2)), WaitPoll::Ready(None)));

    tx2.notify();
    let mut w = rx.wait();
    assert!(matches!(w.poll(&mut rx, Some(&tx2)), WaitPoll::Ready(Some(()))));
    assert_eq!(rx.fence(), tx2.fence);
    assert!(!w.must_unregister_on_drop());

    let mut w = rx.wait();
    assert!(matches!(w.poll(&mut rx, None), WaitPoll::Ready(None)));
    assert_eq!(w.state, WaitState::Expired);
}
