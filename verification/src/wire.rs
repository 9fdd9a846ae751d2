//! Wire format of the overlay's datagrams. Byte 0 is the message-type tag,
//! the rest is the type-specific body:
//!
//! - JOIN:      `[1] || route`
//! - INTRODUCE: `[2] || "ip:port"` (printable ASCII text)
//! - PING:      `[3] || route || public_key (32 bytes)`
//! - PONG:      `[4] || route || public_key (32 bytes)`
//! - DATA:      `[5] || public_key (32 bytes) || ciphertext`
//!
//! Parsing never panics: a datagram too short for its tag's body, or an
//! INTRODUCE whose body is not printable text, is classified as malformed
//! and dropped by the dispatcher.

use crate::RouteId;
use vstd::prelude::*;

verus! {

pub const TAG_JOIN: u8 = 1;

pub const TAG_INTRODUCE: u8 = 2;

pub const TAG_PING: u8 = 3;

pub const TAG_PONG: u8 = 4;

pub const TAG_DATA: u8 = 5;

/// A decoded datagram. Trailing bytes after a fixed-size body are ignored,
/// as arriving datagrams may be padded.
pub enum Datagram {
    Join { route: RouteId },
    Introduce { address: Vec<u8> },
    Ping { route: RouteId, public_key: Vec<u8> },
    Pong { route: RouteId, public_key: Vec<u8> },
    Data { public_key: Vec<u8>, ciphertext: Vec<u8> },
    Unknown { tag: u8 },
    Malformed,
}

/// Mathematical image of a decoded datagram.
pub enum DatagramV {
    Join { route: u8 },
    Introduce { address: Seq<u8> },
    Ping { route: u8, public_key: Seq<u8> },
    Pong { route: u8, public_key: Seq<u8> },
    Data { public_key: Seq<u8>, ciphertext: Seq<u8> },
    Unknown { tag: u8 },
    Malformed,
}

impl View for Datagram {
    type V = DatagramV;

    open spec fn view(&self) -> DatagramV {
        match self {
            Datagram::Join { route } => DatagramV::Join { route: route.value },
            Datagram::Introduce { address } => DatagramV::Introduce { address: address@ },
            Datagram::Ping { route, public_key } => DatagramV::Ping {
                route: route.value,
                public_key: public_key@,
            },
            Datagram::Pong { route, public_key } => DatagramV::Pong {
                route: route.value,
                public_key: public_key@,
            },
            Datagram::Data { public_key, ciphertext } => DatagramV::Data {
                public_key: public_key@,
                ciphertext: ciphertext@,
            },
            Datagram::Unknown { tag } => DatagramV::Unknown { tag: *tag },
            Datagram::Malformed => DatagramV::Malformed,
        }
    }
}

/// An address body is plain printable text: nonempty, every byte a printable
/// ASCII character. The textual "ip:port" form always satisfies this; bytes
/// that do not cannot name a socket and are rejected as malformed.
pub open spec fn valid_address(a: Seq<u8>) -> bool {
    a.len() > 0 && forall|i: int| 0 <= i < a.len() ==> 33 <= #[trigger] a[i] <= 126
}

/// What a received datagram means, byte for byte.
pub open spec fn parse_of(b: Seq<u8>) -> DatagramV {
    if b.len() == 0 {
        DatagramV::Malformed
    } else if b[0] == TAG_JOIN {
        if b.len() >= 2 {
            DatagramV::Join { route: b[1] }
        } else {
            DatagramV::Malformed
        }
    } else if b[0] == TAG_INTRODUCE {
        if valid_address(b.subrange(1, b.len() as int)) {
            DatagramV::Introduce { address: b.subrange(1, b.len() as int) }
        } else {
            DatagramV::Malformed
        }
    } else if b[0] == TAG_PING {
        if b.len() >= 34 {
            DatagramV::Ping { route: b[1], public_key: b.subrange(2, 34) }
        } else {
            DatagramV::Malformed
        }
    } else if b[0] == TAG_PONG {
        if b.len() >= 34 {
            DatagramV::Pong { route: b[1], public_key: b.subrange(2, 34) }
        } else {
            DatagramV::Malformed
        }
    } else if b[0] == TAG_DATA {
        if b.len() >= 33 {
            DatagramV::Data {
                public_key: b.subrange(1, 33),
                ciphertext: b.subrange(33, b.len() as int),
            }
        } else {
            DatagramV::Malformed
        }
    } else {
        DatagramV::Unknown { tag: b[0] }
    }
}

/// Copies `bytes[from..to]` out of a datagram.
fn slice_range(bytes: &Vec<u8>, from: usize, to: usize) -> (r: Vec<u8>)
    requires
        from <= to <= bytes@.len(),
    ensures
        r@ == bytes@.subrange(from as int, to as int),
{
    let mut r: Vec<u8> = Vec::new();
    let mut i: usize = from;
    while i < to
        invariant
            from <= i <= to <= bytes@.len(),
            r@ == bytes@.subrange(from as int, i as int),
        decreases to - i,
    {
        r.push(bytes[i]);
        proof {
            assert(r@ =~= bytes@.subrange(from as int, i + 1));
        }
        i += 1;
    }
    r
}

/// Whether the bytes form a valid address body.
fn check_address(a: &Vec<u8>) -> (r: bool)
    ensures
        r <==> valid_address(a@),
{
    if a.len() == 0 {
        return false;
    }
    let mut i: usize = 0;
    while i < a.len()
        invariant
            i <= a@.len(),
            forall|j: int| 0 <= j < i ==> 33 <= #[trigger] a@[j] <= 126,
        decreases a@.len() - i,
    {
        if a[i] < 33 || a[i] > 126 {
            return false;
        }
        i += 1;
    }
    true
}

/// Decodes one received datagram. Total: every byte string maps to exactly
/// one decoded form, and malformed input is reported, never a panic.
pub fn parse_datagram(bytes: &Vec<u8>) -> (r: Datagram)
    ensures
        r@ == parse_of(bytes@),
{
    if bytes.len() == 0 {
        return Datagram::Malformed;
    }
    let tag = bytes[0];
    if tag == TAG_JOIN {
        if bytes.len() >= 2 {
            Datagram::Join { route: RouteId::from_byte(bytes[1]) }
        } else {
            Datagram::Malformed
        }
    } else if tag == TAG_INTRODUCE {
        let body = slice_range(bytes, 1, bytes.len());
        if check_address(&body) {
            Datagram::Introduce { address: body }
        } else {
            Datagram::Malformed
        }
    } else if tag == TAG_PING {
        if bytes.len() >= 34 {
            Datagram::Ping {
                route: RouteId::from_byte(bytes[1]),
                public_key: slice_range(bytes, 2, 34),
            }
        } else {
            Datagram::Malformed
        }
    } else if tag == TAG_PONG {
        if bytes.len() >= 34 {
            Datagram::Pong {
                route: RouteId::from_byte(bytes[1]),
                public_key: slice_range(bytes, 2, 34),
            }
        } else {
            Datagram::Malformed
        }
    } else if tag == TAG_DATA {
        if bytes.len() >= 33 {
            Datagram::Data {
                public_key: slice_range(bytes, 1, 33),
                ciphertext: slice_range(bytes, 33, bytes.len()),
            }
        } else {
            Datagram::Malformed
        }
    } else {
        Datagram::Unknown { tag }
    }
}

/// The bytes of a JOIN datagram.
pub open spec fn join_bytes(route: u8) -> Seq<u8> {
    seq![TAG_JOIN, route]
}

/// The bytes of an INTRODUCE datagram.
pub open spec fn introduce_bytes(address: Seq<u8>) -> Seq<u8> {
    seq![TAG_INTRODUCE] + address
}

/// The bytes of a PING datagram.
pub open spec fn ping_bytes(route: u8, public_key: Seq<u8>) -> Seq<u8> {
    seq![TAG_PING, route] + public_key
}

/// The bytes of a PONG datagram.
pub open spec fn pong_bytes(route: u8, public_key: Seq<u8>) -> Seq<u8> {
    seq![TAG_PONG, route] + public_key
}

/// The bytes of a DATA datagram.
pub open spec fn data_bytes(public_key: Seq<u8>, ciphertext: Seq<u8>) -> Seq<u8> {
    seq![TAG_DATA] + public_key + ciphertext
}

/// Appends `src` to `dst`.
fn append_bytes(dst: &mut Vec<u8>, src: &Vec<u8>)
    ensures
        final(dst)@ == old(dst)@ + src@,
{
    let mut i: usize = 0;
    while i < src.len()
        invariant
            i <= src@.len(),
            dst@ == old(dst)@ + src@.subrange(0, i as int),
        decreases src@.len() - i,
    {
        dst.push(src[i]);
        proof {
            assert(dst@ =~= old(dst)@ + src@.subrange(0, i + 1));
        }
        i += 1;
    }
    proof {
        assert(dst@ =~= old(dst)@ + src@);
    }
}

/// Builds the JOIN datagram this node sends to the rendezvous address.
pub fn encode_join(route: RouteId) -> (r: Vec<u8>)
    ensures
        r@ == join_bytes(route.value),
{
    let mut r: Vec<u8> = Vec::new();
    r.push(TAG_JOIN);
    r.push(route.value);
    proof {
        assert(r@ =~= join_bytes(route.value));
    }
    r
}

/// Builds the INTRODUCE datagram carrying one known peer's address.
pub fn encode_introduce(address: &Vec<u8>) -> (r: Vec<u8>)
    ensures
        r@ == introduce_bytes(address@),
{
    let mut r: Vec<u8> = Vec::new();
    r.push(TAG_INTRODUCE);
    append_bytes(&mut r, address);
    proof {
        assert(r@ =~= introduce_bytes(address@));
    }
    r
}

/// Builds the PING datagram announcing this node's route and public key.
pub fn encode_ping(route: RouteId, public_key: &Vec<u8>) -> (r: Vec<u8>)
    ensures
        r@ == ping_bytes(route.value, public_key@),
{
    let mut r: Vec<u8> = Vec::new();
    r.push(TAG_PING);
    r.push(route.value);
    append_bytes(&mut r, public_key);
    proof {
        assert(r@ =~= ping_bytes(route.value, public_key@));
    }
    r
}

/// Builds the PONG datagram answering a PING.
pub fn encode_pong(route: RouteId, public_key: &Vec<u8>) -> (r: Vec<u8>)
    ensures
        r@ == pong_bytes(route.value, public_key@),
{
    let mut r: Vec<u8> = Vec::new();
    r.push(TAG_PONG);
    r.push(route.value);
    append_bytes(&mut r, public_key);
    proof {
        assert(r@ =~= pong_bytes(route.value, public_key@));
    }
    r
}

/// Builds the DATA datagram carrying this node's public key and a ciphertext.
pub fn encode_data(public_key: &Vec<u8>, ciphertext: &Vec<u8>) -> (r: Vec<u8>)
    ensures
        r@ == data_bytes(public_key@, ciphertext@),
{
    let mut r: Vec<u8> = Vec::new();
    r.push(TAG_DATA);
    append_bytes(&mut r, public_key);
    append_bytes(&mut r, ciphertext);
    proof {
        assert(r@ =~= data_bytes(public_key@, ciphertext@));
    }
    r
}

/// A built PING parses back to a PING for the same route and key, and so
/// for the other fixed-size builders: building and parsing are inverse.
pub proof fn lemma_parse_inverts_build(route: u8, public_key: Seq<u8>, address: Seq<u8>)
    requires
        public_key.len() == 32,
        valid_address(address),
    ensures
        parse_of(join_bytes(route)) == (DatagramV::Join { route }),
        parse_of(ping_bytes(route, public_key)) == (DatagramV::Ping { route, public_key }),
        parse_of(pong_bytes(route, public_key)) == (DatagramV::Pong { route, public_key }),
        parse_of(introduce_bytes(address)) == (DatagramV::Introduce { address }),
{
    let p = ping_bytes(route, public_key);
    assert(p.subrange(2, 34) =~= public_key);
    let q = pong_bytes(route, public_key);
    assert(q.subrange(2, 34) =~= public_key);
    let a = introduce_bytes(address);
    assert(a.subrange(1, a.len() as int) =~= address);
}

/// A built DATA datagram parses back to its key and ciphertext.
pub proof fn lemma_parse_inverts_data(public_key: Seq<u8>, ciphertext: Seq<u8>)
    requires
        public_key.len() == 32,
    ensures
        parse_of(data_bytes(public_key, ciphertext)) == (DatagramV::Data {
            public_key,
            ciphertext,
        }),
{
    let d = data_bytes(public_key, ciphertext);
    assert(d.subrange(1, 33) =~= public_key);
    assert(d.subrange(33, d.len() as int) =~= ciphertext);
}

} // verus!
