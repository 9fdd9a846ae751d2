//! Protocol dispatcher and liveness refresh: every state transition of the
//! overlay, as a function from the current registry, the node's identity and
//! one inbound datagram to the new registry, the reply datagrams to send and
//! at most one decoded message to deliver. The caller owns the socket: it
//! feeds datagrams in, sends each reply out, and hands deliveries to the
//! application.

use crate::registry::{
    copy_bytes, has_key, upsert_entries, wf_entries, PeerEntryV, PeerRecord, PeerRecordV,
    PeerRegistry,
};
use crate::secure::{decrypt, decryption_of, derive_shared_key, shared_key_of};
use crate::wire::{
    encode_introduce, encode_ping, encode_pong, introduce_bytes, parse_datagram, parse_of,
    ping_bytes, pong_bytes, Datagram, DatagramV,
};
use crate::NodeIdentity;
use vstd::prelude::*;

verus! {

/// One datagram to send: to which address, and what bytes.
pub struct Reply {
    pub address: Vec<u8>,
    pub payload: Vec<u8>,
}

/// Mathematical image of a `Reply`.
pub struct ReplyV {
    pub address: Seq<u8>,
    pub payload: Seq<u8>,
}

impl View for Reply {
    type V = ReplyV;

    open spec fn view(&self) -> ReplyV {
        ReplyV { address: self.address@, payload: self.payload@ }
    }
}

/// A decoded application message together with the sender context the
/// application needs to answer: the sender's address and the shared key the
/// message was decrypted with.
pub struct Delivery {
    pub plaintext: Vec<u8>,
    pub sender: PeerRecord,
}

/// Mathematical image of a `Delivery`.
pub struct DeliveryV {
    pub plaintext: Seq<u8>,
    pub sender: PeerRecordV,
}

impl View for Delivery {
    type V = DeliveryV;

    open spec fn view(&self) -> DeliveryV {
        DeliveryV { plaintext: self.plaintext@, sender: self.sender@ }
    }
}

/// Everything one dispatch step produces besides the new registry.
pub struct DispatchOutcome {
    pub replies: Vec<Reply>,
    pub delivery: Option<Delivery>,
}

/// The reply views of a sequence of replies, in order.
pub open spec fn reply_views(v: Seq<Reply>) -> Seq<ReplyV> {
    Seq::new(v.len(), |i: int| v[i]@)
}

/// The full effect of one dispatch step, at the specification level.
pub struct OutcomeV {
    pub registry: Seq<PeerEntryV>,
    pub replies: Seq<ReplyV>,
    pub delivery: Option<DeliveryV>,
}

/// The outcome that leaves everything as it was: how ignored datagrams end.
pub open spec fn no_effect(reg: Seq<PeerEntryV>) -> OutcomeV {
    OutcomeV { registry: reg, replies: Seq::empty(), delivery: None }
}

/// The replies to an admitted JOIN: first a PING to the joining node, then
/// one INTRODUCE per known peer, each carrying that peer's address, all sent
/// to the joining node. One peer per datagram bounds each datagram's size
/// and lets the join proceed under packet loss; the whole batch is produced
/// at once, and any pacing of the sends is the caller's to add.
pub open spec fn join_replies(
    reg: Seq<PeerEntryV>,
    route: u8,
    public_key: Seq<u8>,
    src: Seq<u8>,
) -> Seq<ReplyV> {
    seq![ReplyV { address: src, payload: ping_bytes(route, public_key) }] + Seq::new(
        reg.len(),
        |i: int| ReplyV { address: src, payload: introduce_bytes(reg[i].record.address) },
    )
}

/// The registry entry admitted for a ping or pong: the sender's address and
/// the shared key derived from this node's private key and the sender's
/// public key.
pub open spec fn admitted_entry(private_key: Seq<u8>, public_key: Seq<u8>, src: Seq<u8>) -> PeerEntryV {
    PeerEntryV {
        public_key: public_key,
        record: PeerRecordV { address: src, shared_key: shared_key_of(private_key, public_key) },
    }
}

/// What one inbound datagram does to a node: the new registry, the replies,
/// and the delivery, determined by the datagram's bytes, the sender address,
/// the node's identity and the current registry.
///
/// - JOIN, PING and PONG are admitted only when the sender's route equals the
///   node's own; otherwise they leave no trace and draw no reply.
/// - An admitted PING or PONG upserts the sender; PING draws a PONG back.
/// - An admitted JOIN draws a PING and one INTRODUCE per known peer.
/// - INTRODUCE draws a PING to the candidate address it carries.
/// - DATA is decrypted with a key derived fresh from the embedded public key,
///   never from the registry; on success the plaintext is delivered, on
///   failure the datagram vanishes silently.
/// - Unknown tags and malformed bodies are dropped.
pub open spec fn dispatch_of(
    reg: Seq<PeerEntryV>,
    private_key: Seq<u8>,
    public_key: Seq<u8>,
    route: u8,
    datagram: Seq<u8>,
    src: Seq<u8>,
) -> OutcomeV {
    match parse_of(datagram) {
        DatagramV::Join { route: r } => if r == route {
            OutcomeV {
                registry: reg,
                replies: join_replies(reg, route, public_key, src),
                delivery: None,
            }
        } else {
            no_effect(reg)
        },
        DatagramV::Introduce { address } => OutcomeV {
            registry: reg,
            replies: seq![ReplyV { address, payload: ping_bytes(route, public_key) }],
            delivery: None,
        },
        DatagramV::Ping { route: r, public_key: sender_key } => if r == route {
            OutcomeV {
                registry: upsert_entries(reg, admitted_entry(private_key, sender_key, src)),
                replies: seq![ReplyV { address: src, payload: pong_bytes(route, public_key) }],
                delivery: None,
            }
        } else {
            no_effect(reg)
        },
        DatagramV::Pong { route: r, public_key: sender_key } => if r == route {
            OutcomeV {
                registry: upsert_entries(reg, admitted_entry(private_key, sender_key, src)),
                replies: Seq::empty(),
                delivery: None,
            }
        } else {
            no_effect(reg)
        },
        DatagramV::Data { public_key: sender_key, ciphertext } => {
            let key = shared_key_of(private_key, sender_key);
            match decryption_of(key, ciphertext) {
                Some(plaintext) => OutcomeV {
                    registry: reg,
                    replies: Seq::empty(),
                    delivery: Some(
                        DeliveryV {
                            plaintext,
                            sender: PeerRecordV { address: src, shared_key: key },
                        },
                    ),
                },
                None => no_effect(reg),
            }
        },
        DatagramV::Unknown { .. } => no_effect(reg),
        DatagramV::Malformed => no_effect(reg),
    }
}

/// Applies one inbound datagram to the registry and returns the replies to
/// send and the delivery to hand on, exactly as `dispatch_of` says.
pub fn handle_datagram(
    identity: &NodeIdentity,
    registry: &mut PeerRegistry,
    datagram: &Vec<u8>,
    src: &Vec<u8>,
) -> (out: DispatchOutcome)
    requires
        identity.wf(),
    ensures
        wf_entries(old(registry)@),
        wf_entries(final(registry)@),
        ({
            let oc = dispatch_of(
                old(registry)@,
                identity.private_key@,
                identity.public_key@,
                identity.route.value,
                datagram@,
                src@,
            );
            final(registry)@ == oc.registry && reply_views(out.replies@) == oc.replies && (match out
                .delivery {
                Some(d) => oc.delivery == Some(d@),
                None => oc.delivery is None,
            })
        }),
{
    proof {
        use_type_invariant(&*registry);
        lemma_dispatch_preserves_wf(
            registry@,
            identity.private_key@,
            identity.public_key@,
            identity.route.value,
            datagram@,
            src@,
        );
    }
    let ghost oc = dispatch_of(
        old(registry)@,
        identity.private_key@,
        identity.public_key@,
        identity.route.value,
        datagram@,
        src@,
    );
    let parsed = parse_datagram(datagram);
    match parsed {
        Datagram::Join { route } => {
            if route.value == identity.route.value {
                let mut replies: Vec<Reply> = Vec::new();
                replies.push(
                    Reply {
                        address: copy_bytes(src),
                        payload: encode_ping(identity.route, &identity.public_key),
                    },
                );
                let known = registry.snapshot();
                let mut i: usize = 0;
                while i < known.len()
                    invariant
                        registry@ == old(registry)@,
                        i <= known@.len(),
                        known@.len() == registry@.len(),
                        forall|j: int| 0 <= j < known@.len() ==> known@[j]@ == registry@[j],
                        replies@.len() == i + 1,
                        reply_views(replies@) =~= join_replies(
                            registry@,
                            identity.route.value,
                            identity.public_key@,
                            src@,
                        ).subrange(0, i + 1),
                    decreases known@.len() - i,
                {
                    replies.push(
                        Reply {
                            address: copy_bytes(src),
                            payload: encode_introduce(&known[i].record.address),
                        },
                    );
                    proof {
                        assert(reply_views(replies@) =~= join_replies(
                            registry@,
                            identity.route.value,
                            identity.public_key@,
                            src@,
                        ).subrange(0, i + 2));
                    }
                    i += 1;
                }
                proof {
                    assert(reply_views(replies@) =~= join_replies(
                        registry@,
                        identity.route.value,
                        identity.public_key@,
                        src@,
                    ));
                }
                DispatchOutcome { replies, delivery: None }
            } else {
                DispatchOutcome { replies: Vec::new(), delivery: None }
            }
        },
        Datagram::Introduce { address } => {
            let mut replies: Vec<Reply> = Vec::new();
            replies.push(
                Reply { address, payload: encode_ping(identity.route, &identity.public_key) },
            );
            proof {
                assert(reply_views(replies@) =~= oc.replies);
            }
            DispatchOutcome { replies, delivery: None }
        },
        Datagram::Ping { route, public_key } => {
            if route.value == identity.route.value {
                let shared = derive_shared_key(&identity.private_key, &public_key);
                let record = PeerRecord { address: copy_bytes(src), shared_key: shared };
                registry.upsert(public_key, record);
                let mut replies: Vec<Reply> = Vec::new();
                replies.push(
                    Reply {
                        address: copy_bytes(src),
                        payload: encode_pong(identity.route, &identity.public_key),
                    },
                );
                proof {
                    assert(reply_views(replies@) =~= oc.replies);
                }
                DispatchOutcome { replies, delivery: None }
            } else {
                DispatchOutcome { replies: Vec::new(), delivery: None }
            }
        },
        Datagram::Pong { route, public_key } => {
            if route.value == identity.route.value {
                let shared = derive_shared_key(&identity.private_key, &public_key);
                let record = PeerRecord { address: copy_bytes(src), shared_key: shared };
                registry.upsert(public_key, record);
            }
            DispatchOutcome { replies: Vec::new(), delivery: None }
        },
        Datagram::Data { public_key, ciphertext } => {
            let key = derive_shared_key(&identity.private_key, &public_key);
            match decrypt(&key, &ciphertext) {
                Some(plaintext) => DispatchOutcome {
                    replies: Vec::new(),
                    delivery: Some(
                        Delivery {
                            plaintext,
                            sender: PeerRecord { address: copy_bytes(src), shared_key: key },
                        },
                    ),
                },
                None => DispatchOutcome { replies: Vec::new(), delivery: None },
            }
        },
        Datagram::Unknown { .. } => DispatchOutcome { replies: Vec::new(), delivery: None },
        Datagram::Malformed => DispatchOutcome { replies: Vec::new(), delivery: None },
    }
}

/// The re-probes a liveness refresh sends: one PING, carrying this node's
/// route and public key, to each previously known peer's address.
pub open spec fn refresh_pings_of(
    reg: Seq<PeerEntryV>,
    route: u8,
    public_key: Seq<u8>,
) -> Seq<ReplyV> {
    Seq::new(
        reg.len(),
        |i: int| ReplyV { address: reg[i].record.address, payload: ping_bytes(route, public_key) },
    )
}

/// Liveness refresh: atomically clears the registry and returns the PINGs to
/// send to every previously known peer. A peer that answers is re-admitted
/// through the normal PONG path; one that stays silent is gone until it
/// shows up again.
pub fn refresh(identity: &NodeIdentity, registry: &mut PeerRegistry) -> (pings: Vec<Reply>)
    requires
        identity.wf(),
    ensures
        wf_entries(old(registry)@),
        final(registry)@ == Seq::<PeerEntryV>::empty(),
        reply_views(pings@) == refresh_pings_of(
            old(registry)@,
            identity.route.value,
            identity.public_key@,
        ),
{
    proof {
        use_type_invariant(&*registry);
    }
    let previous = registry.reset();
    let mut pings: Vec<Reply> = Vec::new();
    let mut i: usize = 0;
    while i < previous.len()
        invariant
            i <= previous@.len(),
            previous@.len() == old(registry)@.len(),
            forall|j: int| 0 <= j < previous@.len() ==> previous@[j]@ == old(registry)@[j],
            pings@.len() == i,
            reply_views(pings@) =~= refresh_pings_of(
                old(registry)@,
                identity.route.value,
                identity.public_key@,
            ).subrange(0, i as int),
        decreases previous@.len() - i,
    {
        pings.push(
            Reply {
                address: copy_bytes(&previous[i].record.address),
                payload: encode_ping(identity.route, &identity.public_key),
            },
        );
        proof {
            assert(reply_views(pings@) =~= refresh_pings_of(
                old(registry)@,
                identity.route.value,
                identity.public_key@,
            ).subrange(0, i + 1));
        }
        i += 1;
    }
    proof {
        assert(reply_views(pings@) =~= refresh_pings_of(
            old(registry)@,
            identity.route.value,
            identity.public_key@,
        ));
    }
    pings
}

/// Route admission gate: a JOIN, PING or PONG whose route differs from the
/// node's own changes nothing — the registry keeps its exact contents, no
/// reply is sent, nothing is delivered.
pub proof fn lemma_route_gate(
    reg: Seq<PeerEntryV>,
    private_key: Seq<u8>,
    public_key: Seq<u8>,
    route: u8,
    datagram: Seq<u8>,
    src: Seq<u8>,
)
    requires
        ({
            let p = parse_of(datagram);
            (p matches DatagramV::Join { route: r } && r != route) || (p matches DatagramV::Ping {
                route: r,
                ..
            } && r != route) || (p matches DatagramV::Pong { route: r, .. } && r != route)
        }),
    ensures
        dispatch_of(reg, private_key, public_key, route, datagram, src) == no_effect(reg),
{
}

/// Decrypt independence: what a DATA datagram delivers is the same for every
/// registry content, and the registry itself is never touched — message
/// delivery does not depend on discovery state.
pub proof fn lemma_data_ignores_registry(
    reg1: Seq<PeerEntryV>,
    reg2: Seq<PeerEntryV>,
    private_key: Seq<u8>,
    public_key: Seq<u8>,
    route: u8,
    datagram: Seq<u8>,
    src: Seq<u8>,
)
    requires
        parse_of(datagram) is Data,
    ensures
        dispatch_of(reg1, private_key, public_key, route, datagram, src).delivery == dispatch_of(
            reg2,
            private_key,
            public_key,
            route,
            datagram,
            src,
        ).delivery,
        dispatch_of(reg1, private_key, public_key, route, datagram, src).registry == reg1,
        dispatch_of(reg1, private_key, public_key, route, datagram, src).replies
            == Seq::<ReplyV>::empty(),
{
}

/// Refresh eviction: starting from the cleared registry a refresh leaves
/// behind, a peer whose PONG comes back is present again, while one that
/// stays silent is absent — the registry after the cycle holds exactly the
/// responders.
pub proof fn lemma_refresh_eviction(
    responder_key: Seq<u8>,
    responder_addr: Seq<u8>,
    silent_key: Seq<u8>,
    private_key: Seq<u8>,
    public_key: Seq<u8>,
    route: u8,
)
    requires
        responder_key.len() == 32,
        responder_key != silent_key,
    ensures
        ({
            let cleared = Seq::<PeerEntryV>::empty();
            let after = dispatch_of(
                cleared,
                private_key,
                public_key,
                route,
                pong_bytes(route, responder_key),
                responder_addr,
            ).registry;
            after.len() == 1 && has_key(after, responder_key) && !has_key(after, silent_key)
        }),
{
    assert(pong_bytes(route, responder_key).subrange(2, 34) =~= responder_key);
    let cleared = Seq::<PeerEntryV>::empty();
    let e = admitted_entry(private_key, responder_key, responder_addr);
    let after = dispatch_of(
        cleared,
        private_key,
        public_key,
        route,
        pong_bytes(route, responder_key),
        responder_addr,
    ).registry;
    assert(!has_key(cleared, responder_key));
    assert(after == cleared.push(e));
    assert(after[0].public_key == responder_key);
    assert(!has_key(after, silent_key)) by {
        assert(forall|i: int| 0 <= i < after.len() ==> after[i].public_key == responder_key);
    }
}

/// The registry left behind by a whole trace of inbound datagrams,
/// dispatched in order; each trace element is one datagram's bytes paired
/// with its sender address.
pub open spec fn registry_after(
    reg: Seq<PeerEntryV>,
    private_key: Seq<u8>,
    public_key: Seq<u8>,
    route: u8,
    trace: Seq<(Seq<u8>, Seq<u8>)>,
) -> Seq<PeerEntryV>
    decreases trace.len(),
{
    if trace.len() == 0 {
        reg
    } else {
        registry_after(
            dispatch_of(reg, private_key, public_key, route, trace[0].0, trace[0].1).registry,
            private_key,
            public_key,
            route,
            trace.drop_first(),
        )
    }
}

/// Whether one datagram is an admitted PING or PONG from public key `k`:
/// the only datagrams that put a key into the registry.
pub open spec fn admits_key(route: u8, datagram: Seq<u8>, k: Seq<u8>) -> bool {
    match parse_of(datagram) {
        DatagramV::Ping { route: r, public_key } => r == route && public_key == k,
        DatagramV::Pong { route: r, public_key } => r == route && public_key == k,
        _ => false,
    }
}

/// Whether any datagram of the trace is an admitted PING or PONG from `k`.
pub open spec fn trace_admits(route: u8, trace: Seq<(Seq<u8>, Seq<u8>)>, k: Seq<u8>) -> bool {
    exists|i: int| 0 <= i < trace.len() && admits_key(route, trace[i].0, k)
}

/// The sender address of the last admitted PING or PONG from `k` in the
/// trace: the tail's, when the tail holds one, else the head's. Meaningful
/// only when `trace_admits` holds.
pub open spec fn last_admitting_src(
    route: u8,
    trace: Seq<(Seq<u8>, Seq<u8>)>,
    k: Seq<u8>,
) -> Seq<u8>
    decreases trace.len(),
{
    if trace.len() == 0 {
        trace[0].1
    } else if trace_admits(route, trace.drop_first(), k) {
        last_admitting_src(route, trace.drop_first(), k)
    } else {
        trace[0].1
    }
}

/// Upsert convergence over whole traces: after any run of inbound datagrams,
/// a key stands in the registry iff it stood there before or an admitted
/// PING or PONG of the run carried it. However many datagrams carried it,
/// and however they interleave with other traffic, exactly one entry carries
/// it afterwards — holding the sender address of the last of them and the
/// shared key derived fresh from this node's private key — and every other
/// key keeps its presence and its entry untouched.
pub proof fn lemma_trace_admission(
    reg: Seq<PeerEntryV>,
    private_key: Seq<u8>,
    public_key: Seq<u8>,
    route: u8,
    trace: Seq<(Seq<u8>, Seq<u8>)>,
    k: Seq<u8>,
)
    requires
        wf_entries(reg),
    ensures
        wf_entries(registry_after(reg, private_key, public_key, route, trace)),
        has_key(registry_after(reg, private_key, public_key, route, trace), k) <==> (has_key(
            reg,
            k,
        ) || trace_admits(route, trace, k)),
        trace_admits(route, trace, k) ==> crate::registry::entry_for(
            registry_after(reg, private_key, public_key, route, trace),
            k,
        ) == admitted_entry(private_key, k, last_admitting_src(route, trace, k)),
        !trace_admits(route, trace, k) && has_key(reg, k) ==> crate::registry::entry_for(
            registry_after(reg, private_key, public_key, route, trace),
            k,
        ) == crate::registry::entry_for(reg, k),
    decreases trace.len(),
{
    if trace.len() > 0 {
        let head = trace[0];
        let step = dispatch_of(reg, private_key, public_key, route, head.0, head.1).registry;
        let rest = trace.drop_first();
        match parse_of(head.0) {
            DatagramV::Ping { route: r, public_key: sender_key } => {
                if r == route {
                    crate::registry::lemma_upsert_entry_for(
                        reg,
                        admitted_entry(private_key, sender_key, head.1),
                    );
                }
            },
            DatagramV::Pong { route: r, public_key: sender_key } => {
                if r == route {
                    crate::registry::lemma_upsert_entry_for(
                        reg,
                        admitted_entry(private_key, sender_key, head.1),
                    );
                }
            },
            _ => {},
        }
        lemma_trace_admission(step, private_key, public_key, route, rest, k);
        if trace_admits(route, rest, k) {
            let i = choose|i: int| 0 <= i < rest.len() && admits_key(route, rest[i].0, k);
            assert(admits_key(route, trace[i + 1].0, k));
        }
        if admits_key(route, head.0, k) {
            assert(trace_admits(route, trace, k));
        }
        if trace_admits(route, trace, k) && !admits_key(route, head.0, k) {
            let i = choose|i: int| 0 <= i < trace.len() && admits_key(route, trace[i].0, k);
            assert(i != 0);
            assert(admits_key(route, rest[i - 1].0, k));
        }
    }
}

/// Refresh re-admission: starting from the cleared registry a refresh
/// leaves behind, a peer's key is present after any run of inbound
/// datagrams iff the run held a PING or PONG from that key on the node's
/// own route — exactly the peers that answered are back, each under its
/// current address with a freshly derived shared key, and nobody else.
pub proof fn lemma_refresh_readmission(
    private_key: Seq<u8>,
    public_key: Seq<u8>,
    route: u8,
    trace: Seq<(Seq<u8>, Seq<u8>)>,
    k: Seq<u8>,
)
    ensures
        has_key(
            registry_after(Seq::<PeerEntryV>::empty(), private_key, public_key, route, trace),
            k,
        ) <==> trace_admits(route, trace, k),
        trace_admits(route, trace, k) ==> crate::registry::entry_for(
            registry_after(Seq::<PeerEntryV>::empty(), private_key, public_key, route, trace),
            k,
        ) == admitted_entry(private_key, k, last_admitting_src(route, trace, k)),
{
    lemma_trace_admission(
        Seq::<PeerEntryV>::empty(),
        private_key,
        public_key,
        route,
        trace,
        k,
    );
}

/// Every registry a dispatch step leaves behind is well formed when the one
/// it started from was.
pub proof fn lemma_dispatch_preserves_wf(
    reg: Seq<PeerEntryV>,
    private_key: Seq<u8>,
    public_key: Seq<u8>,
    route: u8,
    datagram: Seq<u8>,
    src: Seq<u8>,
)
    requires
        wf_entries(reg),
    ensures
        wf_entries(dispatch_of(reg, private_key, public_key, route, datagram, src).registry),
{
    match parse_of(datagram) {
        DatagramV::Ping { route: r, public_key: sender_key } => {
            if r == route {
                crate::registry::lemma_upsert_wf(reg, admitted_entry(private_key, sender_key, src));
            }
        },
        DatagramV::Pong { route: r, public_key: sender_key } => {
            if r == route {
                crate::registry::lemma_upsert_wf(reg, admitted_entry(private_key, sender_key, src));
            }
        },
        _ => {},
    }
}

} // verus!

