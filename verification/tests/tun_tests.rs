use tunnet::frame::MAX_LOGICAL_LEN;
use tunnet::tun::{slot_cap_for_mtu, DrainStep, TunWriteBatch, WriteOutcome};

#[test]
fn slot_cap_tracks_mtu() {
    assert!(slot_cap_for_mtu(1280) >= 1280);
    assert!(slot_cap_for_mtu(2800) >= 2800);
    assert!(slot_cap_for_mtu(9000) >= 9000);
    assert!(slot_cap_for_mtu(100) >= 576);
    assert!(slot_cap_for_mtu(99_999) <= MAX_LOGICAL_LEN + 256);
}

#[test]
fn slot_cap_exact_values() {
    assert_eq!(slot_cap_for_mtu(1280), 1536);
    assert_eq!(slot_cap_for_mtu(100), 832);
    assert_eq!(slot_cap_for_mtu(99_999), 9256);
}

#[test]
fn tun_write_batch_retains_tail() {
    let mut b = TunWriteBatch::new();
    assert!(b.is_empty());
    b.push(vec![1, 2, 3]);
    b.push(vec![4, 5]);
    assert!(!b.is_empty());
}

#[test]
fn drain_removes_only_written_packets() {
    let mut b = TunWriteBatch::new();
    b.push(vec![1, 2, 3]);
    b.push(vec![4, 5]);
    assert_eq!(b.front().map(|v| v.clone()), Some(vec![1, 2, 3]));
    assert_eq!(b.on_write(WriteOutcome::Written), DrainStep::Continue);
    assert_eq!(b.front().map(|v| v.clone()), Some(vec![4, 5]));
    assert_eq!(b.on_write(WriteOutcome::WouldBlock), DrainStep::Stop);
    assert_eq!(b.front().map(|v| v.clone()), Some(vec![4, 5]));
    assert_eq!(b.on_write(WriteOutcome::Failed), DrainStep::Abort);
    assert_eq!(b.pending.len(), 1);
    assert_eq!(b.on_write(WriteOutcome::Written), DrainStep::Continue);
    assert!(b.is_empty());
    assert_eq!(b.on_write(WriteOutcome::Written), DrainStep::Stop);
}
