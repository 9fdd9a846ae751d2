use pulsar::dispatch::{handle_datagram, refresh, DispatchOutcome};
use pulsar::registry::{PeerRecord, PeerRegistry};
use pulsar::secure::{derive_shared_key, encrypt};
use pulsar::wire::{encode_data, encode_introduce, encode_join, encode_ping, encode_pong};
use pulsar::{NodeIdentity, RouteId};

struct Node {
    identity: NodeIdentity,
    registry: PeerRegistry,
    address: Vec<u8>,
}

fn node(route: u8, address: &str) -> Node {
    let sk = fides::x25519::private_key();
    let pk = fides::x25519::public_key(&sk);
    Node {
        identity: NodeIdentity::new(sk.to_vec(), pk.to_vec(), RouteId::from_byte(route)),
        registry: PeerRegistry::new(),
        address: address.as_bytes().to_vec(),
    }
}

fn handle(node: &mut Node, datagram: &Vec<u8>, src: &Vec<u8>) -> DispatchOutcome {
    handle_datagram(&node.identity, &mut node.registry, datagram, src)
}

#[test]
fn route_gate_rejects_mismatched_ping() {
    let mut b = node(9, "127.0.0.1:49001");
    let a = node(8, "127.0.0.1:49002");
    let ping = encode_ping(a.identity.route, &a.identity.public_key);
    let out = handle(&mut b, &ping, &a.address);
    assert_eq!(b.registry.len(), 0);
    assert!(out.replies.is_empty());
    assert!(out.delivery.is_none());
}

#[test]
fn route_gate_rejects_mismatched_join_and_pong() {
    let mut b = node(9, "127.0.0.1:49001");
    let a = node(8, "127.0.0.1:49002");
    let out = handle(&mut b, &encode_join(a.identity.route), &a.address);
    assert!(out.replies.is_empty());
    let out = handle(&mut b, &encode_pong(a.identity.route, &a.identity.public_key), &a.address);
    assert_eq!(b.registry.len(), 0);
    assert!(out.replies.is_empty());
}

#[test]
fn ping_admits_sender_and_pongs_back() {
    let mut b = node(9, "127.0.0.1:49001");
    let a = node(9, "127.0.0.1:49002");
    let ping = encode_ping(a.identity.route, &a.identity.public_key);
    let out = handle(&mut b, &ping, &a.address);
    assert_eq!(b.registry.len(), 1);
    let rec = b.registry.lookup(&a.identity.public_key).expect("sender admitted");
    assert_eq!(rec.address, a.address);
    assert_eq!(rec.shared_key, derive_shared_key(&b.identity.private_key, &a.identity.public_key));
    assert_eq!(out.replies.len(), 1);
    assert_eq!(out.replies[0].address, a.address);
    assert_eq!(out.replies[0].payload, encode_pong(b.identity.route, &b.identity.public_key));
    assert!(out.delivery.is_none());
}

#[test]
fn pong_admits_sender_silently() {
    let mut b = node(9, "127.0.0.1:49001");
    let a = node(9, "127.0.0.1:49002");
    let pong = encode_pong(a.identity.route, &a.identity.public_key);
    let out = handle(&mut b, &pong, &a.address);
    assert_eq!(b.registry.len(), 1);
    assert!(out.replies.is_empty());
    assert!(out.delivery.is_none());
}

#[test]
fn join_pings_back_and_introduces_known_peers() {
    let mut b = node(9, "127.0.0.1:49001");
    let c = node(9, "127.0.0.1:49003");
    let a = node(9, "127.0.0.1:49002");
    // B already knows C
    b.registry.upsert(
        c.identity.public_key.clone(),
        PeerRecord {
            address: c.address.clone(),
            shared_key: derive_shared_key(&b.identity.private_key, &c.identity.public_key),
        },
    );
    let out = handle(&mut b, &encode_join(a.identity.route), &a.address);
    assert_eq!(out.replies.len(), 2);
    // first a PING to the joining node ...
    assert_eq!(out.replies[0].address, a.address);
    assert_eq!(out.replies[0].payload, encode_ping(b.identity.route, &b.identity.public_key));
    // ... then one INTRODUCE per known peer, carrying that peer's address
    assert_eq!(out.replies[1].address, a.address);
    assert_eq!(out.replies[1].payload, encode_introduce(&c.address));
    // a JOIN alone changes no registry
    assert_eq!(b.registry.len(), 1);
}

#[test]
fn introduce_pings_the_candidate() {
    let mut a = node(9, "127.0.0.1:49002");
    let b = node(9, "127.0.0.1:49001");
    let candidate = b"127.0.0.1:49003".to_vec();
    let out = handle(&mut a, &encode_introduce(&candidate), &b.address);
    assert_eq!(out.replies.len(), 1);
    assert_eq!(out.replies[0].address, candidate);
    assert_eq!(out.replies[0].payload, encode_ping(a.identity.route, &a.identity.public_key));
    assert_eq!(a.registry.len(), 0);
}

#[test]
fn data_delivered_without_registry_entry() {
    let mut b = node(9, "127.0.0.1:49001");
    let a = node(9, "127.0.0.1:49002");
    // A's public key is nowhere in B's registry
    assert_eq!(b.registry.len(), 0);
    let shared = derive_shared_key(&a.identity.private_key, &b.identity.public_key);
    let message = b"application payload".to_vec();
    let ciphertext = encrypt(&shared, &message).expect("encryption failed");
    let datagram = encode_data(&a.identity.public_key, &ciphertext);
    let out = handle(&mut b, &datagram, &a.address);
    let delivery = out.delivery.expect("message should be delivered");
    assert_eq!(delivery.plaintext, message);
    assert_eq!(delivery.sender.address, a.address);
    assert_eq!(
        delivery.sender.shared_key,
        derive_shared_key(&b.identity.private_key, &a.identity.public_key)
    );
    assert!(out.replies.is_empty());
    assert_eq!(b.registry.len(), 0);
}

#[test]
fn data_with_wrong_key_dropped_silently() {
    let mut b = node(9, "127.0.0.1:49001");
    let a = node(9, "127.0.0.1:49002");
    let eavesdropper = node(9, "127.0.0.1:49009");
    // encrypted for the eavesdropper, not for B
    let shared = derive_shared_key(&a.identity.private_key, &eavesdropper.identity.public_key);
    let ciphertext = encrypt(&shared, &b"not for you".to_vec()).expect("encryption failed");
    let datagram = encode_data(&a.identity.public_key, &ciphertext);
    let out = handle(&mut b, &datagram, &a.address);
    assert!(out.delivery.is_none());
    assert!(out.replies.is_empty());
}

#[test]
fn unknown_tag_ignored() {
    let mut b = node(9, "127.0.0.1:49001");
    let a = node(9, "127.0.0.1:49002");
    let out = handle(&mut b, &vec![42u8, 1, 2, 3], &a.address);
    assert!(out.replies.is_empty());
    assert!(out.delivery.is_none());
    assert_eq!(b.registry.len(), 0);
}

#[test]
fn refresh_evicts_silent_peers() {
    let mut b = node(9, "127.0.0.1:49001");
    let responder = node(9, "127.0.0.1:49002");
    let silent = node(9, "127.0.0.1:49003");
    for peer in [&responder, &silent] {
        b.registry.upsert(
            peer.identity.public_key.clone(),
            PeerRecord {
                address: peer.address.clone(),
                shared_key: derive_shared_key(&b.identity.private_key, &peer.identity.public_key),
            },
        );
    }
    let pings = refresh(&b.identity, &mut b.registry);
    // the registry is cleared, and one re-PING goes to each known peer
    assert_eq!(b.registry.len(), 0);
    assert_eq!(pings.len(), 2);
    let expected = encode_ping(b.identity.route, &b.identity.public_key);
    assert_eq!(pings[0].address, responder.address);
    assert_eq!(pings[0].payload, expected);
    assert_eq!(pings[1].address, silent.address);
    assert_eq!(pings[1].payload, expected);
    // only the responder answers its re-ping
    let pong = encode_pong(responder.identity.route, &responder.identity.public_key);
    handle(&mut b, &pong, &responder.address);
    assert!(b.registry.contains(&responder.identity.public_key));
    assert!(!b.registry.contains(&silent.identity.public_key));
    assert_eq!(b.registry.len(), 1);
}

#[test]
fn three_node_mesh_formation() {
    let mut a = node(9, "127.0.0.1:49002");
    let mut b = node(9, "127.0.0.1:49001");
    let mut c = node(9, "127.0.0.1:49003");
    // B and C already hold records for each other
    b.registry.upsert(
        c.identity.public_key.clone(),
        PeerRecord {
            address: c.address.clone(),
            shared_key: derive_shared_key(&b.identity.private_key, &c.identity.public_key),
        },
    );
    c.registry.upsert(
        b.identity.public_key.clone(),
        PeerRecord {
            address: b.address.clone(),
            shared_key: derive_shared_key(&c.identity.private_key, &b.identity.public_key),
        },
    );

    // A joins via B
    let a_address = a.address.clone();
    let from_b = handle(&mut b, &encode_join(a.identity.route), &a_address);
    assert_eq!(from_b.replies.len(), 2);
    assert!(from_b.replies.iter().all(|r| r.address == a_address));

    // A receives B's PING and the INTRODUCE for C, in order
    let b_address = b.address.clone();
    let mut a_outbound: Vec<(Vec<u8>, Vec<u8>)> = Vec::new();
    for reply in &from_b.replies {
        let out = handle(&mut a, &reply.payload, &b_address);
        for r in out.replies {
            a_outbound.push((r.address, r.payload));
        }
    }
    // the PING drew a PONG to B; the INTRODUCE drew a PING to C's address
    assert_eq!(a_outbound.len(), 2);
    assert_eq!(a_outbound[0].0, b.address);
    assert_eq!(a_outbound[1].0, c.address);

    // B takes A's PONG; C takes A's PING and answers with a PONG
    handle(&mut b, &a_outbound[0].1, &a_address);
    let from_c = handle(&mut c, &a_outbound[1].1, &a_address);
    assert_eq!(from_c.replies.len(), 1);
    assert_eq!(from_c.replies[0].address, a_address);

    // A takes C's PONG
    let c_address = c.address.clone();
    handle(&mut a, &from_c.replies[0].payload, &c_address);

    // end state: A knows B and C; B and C know A (and still each other)
    assert!(a.registry.contains(&b.identity.public_key));
    assert!(a.registry.contains(&c.identity.public_key));
    assert_eq!(a.registry.len(), 2);
    assert!(b.registry.contains(&a.identity.public_key));
    assert!(b.registry.contains(&c.identity.public_key));
    assert!(c.registry.contains(&a.identity.public_key));
    assert!(c.registry.contains(&b.identity.public_key));
    // both sides of every link derived the same shared key
    assert_eq!(
        a.registry.lookup(&b.identity.public_key).unwrap().shared_key,
        b.registry.lookup(&a.identity.public_key).unwrap().shared_key
    );
    assert_eq!(
        a.registry.lookup(&c.identity.public_key).unwrap().shared_key,
        c.registry.lookup(&a.identity.public_key).unwrap().shared_key
    );
}

#[test]
fn repeated_announcements_converge_amid_other_traffic() {
    let mut b = node(9, "127.0.0.1:49001");
    let mover = node(9, "127.0.0.1:49002");
    let bystander = node(9, "127.0.0.1:49003");
    // the same peer announces itself from three addresses in turn,
    // interleaved with traffic from another peer
    let a1 = b"127.0.0.1:50001".to_vec();
    let a2 = b"127.0.0.1:50002".to_vec();
    let a3 = b"127.0.0.1:50003".to_vec();
    handle(&mut b, &encode_ping(mover.identity.route, &mover.identity.public_key), &a1);
    handle(
        &mut b,
        &encode_ping(bystander.identity.route, &bystander.identity.public_key),
        &bystander.address,
    );
    handle(&mut b, &encode_pong(mover.identity.route, &mover.identity.public_key), &a2);
    handle(&mut b, &vec![42u8, 1, 2, 3], &a1);
    handle(&mut b, &encode_ping(mover.identity.route, &mover.identity.public_key), &a3);
    // exactly one live entry for the mover, at its most recent address
    assert_eq!(b.registry.len(), 2);
    let rec = b.registry.lookup(&mover.identity.public_key).expect("mover admitted");
    assert_eq!(rec.address, a3);
    assert_eq!(
        rec.shared_key,
        derive_shared_key(&b.identity.private_key, &mover.identity.public_key)
    );
    // the bystander's entry is untouched
    let other = b.registry.lookup(&bystander.identity.public_key).expect("bystander admitted");
    assert_eq!(other.address, bystander.address);
}
