use pulsar::registry::{PeerRecord, PeerRegistry};

fn record(address: &str, key_byte: u8) -> PeerRecord {
    PeerRecord { address: address.as_bytes().to_vec(), shared_key: vec![key_byte; 32] }
}

#[test]
fn new_registry_is_empty() {
    let reg = PeerRegistry::new();
    assert_eq!(reg.len(), 0);
    assert!(!reg.contains(&vec![1u8; 32]));
    assert!(reg.lookup(&vec![1u8; 32]).is_none());
}

#[test]
fn upsert_idempotent() {
    let mut reg = PeerRegistry::new();
    let pk = vec![7u8; 32];
    reg.upsert(pk.clone(), record("127.0.0.1:49001", 1));
    reg.upsert(pk.clone(), record("127.0.0.1:49002", 2));
    reg.upsert(pk.clone(), record("127.0.0.1:49003", 3));
    assert_eq!(reg.len(), 1);
    let rec = reg.lookup(&pk).expect("peer should be present");
    assert_eq!(rec.address, b"127.0.0.1:49003".to_vec());
    assert_eq!(rec.shared_key, vec![3u8; 32]);
}

#[test]
fn upsert_distinct_keys() {
    let mut reg = PeerRegistry::new();
    reg.upsert(vec![1u8; 32], record("127.0.0.1:49001", 1));
    reg.upsert(vec![2u8; 32], record("127.0.0.1:49002", 2));
    assert_eq!(reg.len(), 2);
    assert!(reg.contains(&vec![1u8; 32]));
    assert!(reg.contains(&vec![2u8; 32]));
    assert!(!reg.contains(&vec![3u8; 32]));
}

#[test]
fn upsert_keeps_other_entries() {
    let mut reg = PeerRegistry::new();
    reg.upsert(vec![1u8; 32], record("127.0.0.1:49001", 1));
    reg.upsert(vec![2u8; 32], record("127.0.0.1:49002", 2));
    reg.upsert(vec![1u8; 32], record("127.0.0.1:49009", 9));
    assert_eq!(reg.len(), 2);
    let one = reg.lookup(&vec![1u8; 32]).unwrap();
    assert_eq!(one.address, b"127.0.0.1:49009".to_vec());
    let two = reg.lookup(&vec![2u8; 32]).unwrap();
    assert_eq!(two.address, b"127.0.0.1:49002".to_vec());
}

#[test]
fn snapshot_copies_entries() {
    let mut reg = PeerRegistry::new();
    reg.upsert(vec![1u8; 32], record("127.0.0.1:49001", 1));
    reg.upsert(vec![2u8; 32], record("127.0.0.1:49002", 2));
    let snap = reg.snapshot();
    assert_eq!(snap.len(), 2);
    assert_eq!(snap[0].public_key, vec![1u8; 32]);
    assert_eq!(snap[0].record.address, b"127.0.0.1:49001".to_vec());
    assert_eq!(snap[1].public_key, vec![2u8; 32]);
    // the snapshot is a copy: the registry is unchanged afterwards
    assert_eq!(reg.len(), 2);
}

#[test]
fn reset_clears_and_returns_previous() {
    let mut reg = PeerRegistry::new();
    reg.upsert(vec![1u8; 32], record("127.0.0.1:49001", 1));
    reg.upsert(vec![2u8; 32], record("127.0.0.1:49002", 2));
    let previous = reg.reset();
    assert_eq!(previous.len(), 2);
    assert_eq!(reg.len(), 0);
    assert!(!reg.contains(&vec![1u8; 32]));
    // entries admitted after a reset land in the new generation
    reg.upsert(vec![2u8; 32], record("127.0.0.1:49005", 5));
    assert_eq!(reg.len(), 1);
    assert_eq!(reg.lookup(&vec![2u8; 32]).unwrap().address, b"127.0.0.1:49005".to_vec());
}
