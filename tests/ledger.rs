use fileshare_core::ledger::{TransferLedger, TransferRecord, TransferStatus};

fn record(id: &str, size: u64, status: TransferStatus) -> TransferRecord {
    TransferRecord {
        id: id.to_string(),
        filename: "f.bin".to_string(),
        size,
        progress: 0,
        status,
        from_device: "a".to_string(),
        to_device: "b".to_string(),
        encrypted: true,
        hops: vec!["a".to_string(), "b".to_string()],
    }
}

#[test]
fn progress_never_goes_down_nor_past_size() {
    let mut l = TransferLedger::new();
    l.append(record("t1", 100, TransferStatus::Receiving { hops: 0 }));
    let id = "t1".to_string();
    let mut seen = vec![];
    for p in [10u64, 5, 50, 50, 101, 100, 0] {
        l.record_progress(&id, p);
        seen.push(l.snapshot()[0].progress);
    }
    assert_eq!(seen, vec![10, 10, 50, 50, 50, 100, 100]);
    assert!(!l.record_progress(&id, 99));
    assert!(l.record_progress(&id, 100));
}

#[test]
fn unknown_id_changes_nothing() {
    let mut l = TransferLedger::new();
    l.append(record("t1", 10, TransferStatus::Sending { hops: 1 }));
    assert!(!l.record_progress(&"nope".to_string(), 3));
    assert!(!l.set_status(&"nope".to_string(), TransferStatus::Sent { hops: 1 }));
    assert_eq!(l.snapshot()[0].progress, 0);
    assert_eq!(l.index_of(&"nope".to_string()), None);
}

#[test]
fn status_steps_follow_the_state_machine() {
    let mut l = TransferLedger::new();
    l.append(record("r", 10, TransferStatus::Receiving { hops: 2 }));
    l.append(record("s", 10, TransferStatus::Sending { hops: 1 }));
    let r = "r".to_string();
    let s = "s".to_string();
    assert!(!l.set_status(&r, TransferStatus::Sent { hops: 2 }));
    assert!(!l.set_status(&r, TransferStatus::Received { hops: 3 }));
    assert!(l.set_status(&r, TransferStatus::DecryptionFailed));
    assert!(!l.set_status(&r, TransferStatus::Received { hops: 2 }));
    assert!(!l.set_status(&s, TransferStatus::DecryptionFailed));
    assert!(l.set_status(&s, TransferStatus::Sent { hops: 1 }));
    assert!(!l.set_status(&s, TransferStatus::Sent { hops: 1 }));
    let snap = l.snapshot();
    assert_eq!(snap[0].status, TransferStatus::DecryptionFailed);
    assert_eq!(snap[1].status, TransferStatus::Sent { hops: 1 });
    assert_eq!(l.len(), 2);
}

#[test]
fn first_record_with_an_id_is_the_one_updated() {
    let mut l = TransferLedger::new();
    l.append(record("x", 10, TransferStatus::Sending { hops: 1 }));
    l.append(record("x", 10, TransferStatus::Sending { hops: 1 }));
    assert_eq!(l.index_of(&"x".to_string()), Some(0));
    l.record_progress(&"x".to_string(), 4);
    let snap = l.snapshot();
    assert_eq!((snap[0].progress, snap[1].progress), (4, 0));
}

#[test]
fn fresh_id_avoids_every_recorded_id() {
    let mut l = TransferLedger::new();
    assert_eq!(l.fresh_id("x".to_string()), "x");
    l.append(record("x", 10, TransferStatus::Sending { hops: 1 }));
    l.append(record("x-", 10, TransferStatus::Sending { hops: 1 }));
    l.append(record("long-identifier", 10, TransferStatus::Sending { hops: 1 }));
    let id = l.fresh_id("x".to_string());
    assert!(l.index_of(&id).is_none());
    assert!(id.starts_with('x'));
    assert_eq!(l.fresh_id("y".to_string()), "y");
}
