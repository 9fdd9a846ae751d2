//! Peer registry: the store of known peers, keyed by the peer's public key.
//! One entry per public key; entries are created when a ping or pong from a
//! matching route is admitted, and the whole registry is cleared at every
//! liveness-refresh boundary.

use vstd::prelude::*;

verus! {

/// What a node keeps about one peer: where to reach it, and the symmetric
/// key derived for talking to it. The address is the textual "ip:port" form,
/// kept as bytes.
pub struct PeerRecord {
    pub address: Vec<u8>,
    pub shared_key: Vec<u8>,
}

/// Mathematical image of a `PeerRecord`.
pub struct PeerRecordV {
    pub address: Seq<u8>,
    pub shared_key: Seq<u8>,
}

impl View for PeerRecord {
    type V = PeerRecordV;

    open spec fn view(&self) -> PeerRecordV {
        PeerRecordV { address: self.address@, shared_key: self.shared_key@ }
    }
}

/// One registry entry: a peer's public key and its record.
pub struct PeerEntry {
    pub public_key: Vec<u8>,
    pub record: PeerRecord,
}

/// Mathematical image of a `PeerEntry`.
pub struct PeerEntryV {
    pub public_key: Seq<u8>,
    pub record: PeerRecordV,
}

impl View for PeerEntry {
    type V = PeerEntryV;

    open spec fn view(&self) -> PeerEntryV {
        PeerEntryV { public_key: self.public_key@, record: self.record@ }
    }
}

/// A sequence of entries is well formed when no public key occurs twice.
pub open spec fn wf_entries(s: Seq<PeerEntryV>) -> bool {
    forall|i: int, j: int|
        0 <= i < s.len() && 0 <= j < s.len() && i != j ==> s[i].public_key != s[j].public_key
}

/// Whether some entry carries this public key.
pub open spec fn has_key(s: Seq<PeerEntryV>, k: Seq<u8>) -> bool {
    exists|i: int| 0 <= i < s.len() && s[i].public_key == k
}

/// The sequence after inserting or replacing the entry for `e.public_key`:
/// an existing entry for that key is overwritten in place, otherwise `e` is
/// appended.
pub open spec fn upsert_entries(s: Seq<PeerEntryV>, e: PeerEntryV) -> Seq<PeerEntryV> {
    if has_key(s, e.public_key) {
        s.update(choose|i: int| 0 <= i < s.len() && s[i].public_key == e.public_key, e)
    } else {
        s.push(e)
    }
}

/// Byte-for-byte equality of two byte vectors.
pub fn bytes_eq(a: &Vec<u8>, b: &Vec<u8>) -> (r: bool)
    ensures
        r <==> a@ == b@,
{
    if a.len() != b.len() {
        return false;
    }
    let mut i: usize = 0;
    while i < a.len()
        invariant
            i <= a@.len(),
            a@.len() == b@.len(),
            forall|j: int| 0 <= j < i ==> a@[j] == b@[j],
        decreases a@.len() - i,
    {
        if a[i] != b[i] {
            return false;
        }
        i += 1;
    }
    proof {
        assert(a@ =~= b@);
    }
    true
}

/// Copies a byte vector.
pub fn copy_bytes(src: &Vec<u8>) -> (r: Vec<u8>)
    ensures
        r@ == src@,
{
    let mut r: Vec<u8> = Vec::new();
    let mut i: usize = 0;
    while i < src.len()
        invariant
            i <= src@.len(),
            r@ == src@.subrange(0, i as int),
        decreases src@.len() - i,
    {
        r.push(src[i]);
        proof {
            assert(r@ =~= src@.subrange(0, i + 1));
        }
        i += 1;
    }
    proof {
        assert(r@ =~= src@);
    }
    r
}

impl PeerRecord {
    /// An independent copy of this record.
    pub fn duplicate(&self) -> (r: PeerRecord)
        ensures
            r@ == self@,
    {
        PeerRecord { address: copy_bytes(&self.address), shared_key: copy_bytes(&self.shared_key) }
    }
}

impl PeerEntry {
    /// An independent copy of this entry.
    pub fn duplicate(&self) -> (r: PeerEntry)
        ensures
            r@ == self@,
    {
        PeerEntry { public_key: copy_bytes(&self.public_key), record: self.record.duplicate() }
    }
}

/// The registry itself. Every value of this type keeps one entry per public
/// key; all access goes through the operations below.
pub struct PeerRegistry {
    entries: Vec<PeerEntry>,
}

/// The entry views of a sequence of entries, in order.
pub open spec fn views_of(v: Seq<PeerEntry>) -> Seq<PeerEntryV> {
    Seq::new(v.len(), |i: int| v[i]@)
}

impl View for PeerRegistry {
    type V = Seq<PeerEntryV>;

    closed spec fn view(&self) -> Seq<PeerEntryV> {
        views_of(self.entries@)
    }
}

impl PeerRegistry {
    /// Every registry value is well formed: no public key occurs twice among
    /// its entries.
    #[verifier::type_invariant]
    pub(crate) open spec fn wf(&self) -> bool {
        wf_entries(self@)
    }

    /// An empty registry.
    pub fn new() -> (r: PeerRegistry)
        ensures
            r@ == Seq::<PeerEntryV>::empty(),
    {
        let r = PeerRegistry { entries: Vec::new() };
        proof {
            assert(r@ =~= Seq::<PeerEntryV>::empty());
        }
        r
    }

    /// How many peers are known.
    pub fn len(&self) -> (n: usize)
        ensures
            n == self@.len(),
    {
        self.entries.len()
    }

    /// The index of the entry for `public_key`, if one exists.
    fn find(&self, public_key: &Vec<u8>) -> (r: Option<usize>)
        ensures
            match r {
                Some(i) => i < self@.len() && self@[i as int].public_key == public_key@,
                None => !has_key(self@, public_key@),
            },
    {
        let mut i: usize = 0;
        while i < self.entries.len()
            invariant
                i <= self@.len(),
                self@.len() == self.entries@.len(),
                forall|j: int| 0 <= j < i ==> self@[j].public_key != public_key@,
            decreases self@.len() - i,
        {
            if bytes_eq(&self.entries[i].public_key, public_key) {
                return Some(i);
            }
            i += 1;
        }
        None
    }

    /// Whether a peer with this public key is known.
    pub fn contains(&self, public_key: &Vec<u8>) -> (r: bool)
        ensures
            r <==> has_key(self@, public_key@),
    {
        self.find(public_key).is_some()
    }

    /// The record kept for this public key, copied out, if one exists.
    pub fn lookup(&self, public_key: &Vec<u8>) -> (r: Option<PeerRecord>)
        ensures
            match r {
                Some(rec) => has_key(self@, public_key@) && exists|i: int|
                    0 <= i < self@.len() && self@[i].public_key == public_key@ && self@[i].record
                        == rec@,
                None => !has_key(self@, public_key@),
            },
    {
        match self.find(public_key) {
            Some(i) => Some(self.entries[i].record.duplicate()),
            None => None,
        }
    }

    /// Inserts or replaces the entry for `public_key`: afterwards exactly one
    /// entry carries that key, and it holds `record`; every other entry is
    /// untouched.
    pub fn upsert(&mut self, public_key: Vec<u8>, record: PeerRecord)
        ensures
            wf_entries(old(self)@),
            final(self)@ == upsert_entries(
                old(self)@,
                PeerEntryV { public_key: public_key@, record: record@ },
            ),
            wf_entries(final(self)@),
    {
        proof {
            use_type_invariant(&*self);
        }
        let ghost ev = PeerEntryV { public_key: public_key@, record: record@ };
        let entry = PeerEntry { public_key, record };
        let found = self.find(&entry.public_key);
        let mut taken: Vec<PeerEntry> = Vec::new();
        core::mem::swap(&mut self.entries, &mut taken);
        match found {
            Some(i) => {
                proof {
                    let w = choose|w: int|
                        0 <= w < old(self)@.len() && old(self)@[w].public_key == ev.public_key;
                    assert(old(self)@[i as int].public_key == ev.public_key);
                    assert(w == i);
                }
                taken[i] = entry;
                proof {
                    assert(views_of(taken@) =~= upsert_entries(old(self)@, ev));
                }
            },
            None => {
                taken.push(entry);
                proof {
                    assert(views_of(taken@) =~= old(self)@.push(ev));
                }
            },
        }
        proof {
            assert(wf_entries(views_of(taken@))) by {
                lemma_upsert_wf(old(self)@, ev);
            }
        }
        core::mem::swap(&mut self.entries, &mut taken);
    }

    /// A full copy of the current entries, for use after any lock on the
    /// registry has been released.
    pub fn snapshot(&self) -> (r: Vec<PeerEntry>)
        ensures
            r@.len() == self@.len(),
            forall|i: int| 0 <= i < r@.len() ==> r@[i]@ == self@[i],
    {
        let mut r: Vec<PeerEntry> = Vec::new();
        let mut i: usize = 0;
        while i < self.entries.len()
            invariant
                i <= self@.len(),
                self@.len() == self.entries@.len(),
                r@.len() == i,
                forall|j: int| 0 <= j < i ==> r@[j]@ == self@[j],
            decreases self@.len() - i,
        {
            r.push(self.entries[i].duplicate());
            i += 1;
        }
        r
    }

    /// Atomically replaces the registry with an empty one and hands the
    /// previous entries back to the caller.
    pub fn reset(&mut self) -> (r: Vec<PeerEntry>)
        ensures
            final(self)@ == Seq::<PeerEntryV>::empty(),
            r@.len() == old(self)@.len(),
            forall|i: int| 0 <= i < r@.len() ==> r@[i]@ == old(self)@[i],
    {
        let r = self.snapshot();
        self.entries = Vec::new();
        proof {
            assert(self@ =~= Seq::<PeerEntryV>::empty());
        }
        r
    }
}

/// Repeated upserts for one public key converge: the second upsert erases
/// every trace of the first, exactly one entry carries the key afterwards,
/// and it holds the most recent record.
pub proof fn lemma_upsert_idempotent(s: Seq<PeerEntryV>, e1: PeerEntryV, e2: PeerEntryV)
    requires
        wf_entries(s),
        e1.public_key == e2.public_key,
    ensures
        upsert_entries(upsert_entries(s, e1), e2) == upsert_entries(s, e2),
        wf_entries(upsert_entries(s, e2)),
        has_key(upsert_entries(s, e2), e2.public_key),
        forall|i: int|
            0 <= i < upsert_entries(s, e2).len() && upsert_entries(s, e2)[i].public_key
                == e2.public_key ==> upsert_entries(s, e2)[i] == e2,
{
    let k = e2.public_key;
    if has_key(s, k) {
        let w = choose|w: int| 0 <= w < s.len() && s[w].public_key == k;
        let t1 = upsert_entries(s, e1);
        assert(t1 == s.update(w, e1));
        assert(t1[w].public_key == k);
        assert(has_key(t1, k));
        let w2 = choose|i: int| 0 <= i < t1.len() && t1[i].public_key == k;
        assert(w2 == w) by {
            if w2 != w {
                assert(t1[w2] == s[w2]);
                assert(s[w2].public_key != s[w].public_key);
            }
        }
        assert(upsert_entries(t1, e2) =~= upsert_entries(s, e2));
    } else {
        let t1 = upsert_entries(s, e1);
        assert(t1 == s.push(e1));
        assert(t1[s.len() as int].public_key == k);
        assert(has_key(t1, k));
        let w2 = choose|i: int| 0 <= i < t1.len() && t1[i].public_key == k;
        assert(w2 == s.len()) by {
            if w2 != s.len() {
                assert(t1[w2] == s[w2]);
                assert(has_key(s, k));
            }
        }
        assert(upsert_entries(t1, e2) =~= upsert_entries(s, e2));
    }
    lemma_upsert_wf(s, e2);
}

/// Upserting preserves well-formedness, establishes the key, and leaves the
/// entries of every other key untouched, in both directions: an entry of the
/// result with another key already stood in the old sequence, and an old
/// entry with another key still stands at its index.
pub proof fn lemma_upsert_wf(s: Seq<PeerEntryV>, e: PeerEntryV)
    requires
        wf_entries(s),
    ensures
        wf_entries(upsert_entries(s, e)),
        has_key(upsert_entries(s, e), e.public_key),
        forall|i: int|
            0 <= i < upsert_entries(s, e).len() && upsert_entries(s, e)[i].public_key
                != e.public_key ==> 0 <= i < s.len() && upsert_entries(s, e)[i] == s[i],
        forall|i: int|
            0 <= i < s.len() && s[i].public_key != e.public_key ==> upsert_entries(s, e)[i]
                == s[i],
{
    let t = upsert_entries(s, e);
    if has_key(s, e.public_key) {
        let w = choose|w: int| 0 <= w < s.len() && s[w].public_key == e.public_key;
        assert(t == s.update(w, e));
        assert(t[w] == e);
    } else {
        assert(t == s.push(e));
        assert(t[s.len() as int] == e);
    }
}

/// The entry of a well-formed sequence that carries key `k` (meaningful only
/// when `has_key(s, k)` holds: well-formedness makes it unique).
pub open spec fn entry_for(s: Seq<PeerEntryV>, k: Seq<u8>) -> PeerEntryV {
    s[choose|i: int| 0 <= i < s.len() && s[i].public_key == k]
}

/// What one upsert does to every key at once: the upserted key is present
/// and carries exactly the new entry, and every other key keeps both its
/// presence and its entry.
pub proof fn lemma_upsert_entry_for(s: Seq<PeerEntryV>, e: PeerEntryV)
    requires
        wf_entries(s),
    ensures
        wf_entries(upsert_entries(s, e)),
        forall|k: Seq<u8>|
            #[trigger] has_key(upsert_entries(s, e), k) <==> (has_key(s, k) || k
                == e.public_key),
        entry_for(upsert_entries(s, e), e.public_key) == e,
        forall|k: Seq<u8>|
            k != e.public_key && has_key(s, k) ==> #[trigger] entry_for(upsert_entries(s, e), k)
                == entry_for(s, k),
{
    lemma_upsert_wf(s, e);
    let t = upsert_entries(s, e);
    assert forall|k: Seq<u8>| #[trigger] has_key(t, k) implies (has_key(s, k) || k
        == e.public_key) by {
        if k != e.public_key {
            let i = choose|i: int| 0 <= i < t.len() && t[i].public_key == k;
            assert(t[i] == s[i]);
        }
    }
    assert forall|k: Seq<u8>| has_key(s, k) implies has_key(t, k) by {
        if k != e.public_key {
            let i = choose|i: int| 0 <= i < s.len() && s[i].public_key == k;
            assert(t[i] == s[i]);
        }
    }
    assert(entry_for(t, e.public_key) == e) by {
        let j = choose|i: int| 0 <= i < t.len() && t[i].public_key == e.public_key;
        if has_key(s, e.public_key) {
            let w = choose|w: int| 0 <= w < s.len() && s[w].public_key == e.public_key;
            assert(t == s.update(w, e));
            assert(t[w] == e);
            assert(j == w);
        } else {
            assert(t == s.push(e));
            assert(t[s.len() as int] == e);
            assert(j == s.len());
        }
    }
    assert forall|k: Seq<u8>| k != e.public_key && has_key(s, k) implies #[trigger] entry_for(
        t,
        k,
    ) == entry_for(s, k) by {
        let i = choose|i: int| 0 <= i < s.len() && s[i].public_key == k;
        assert(t[i] == s[i]);
        let j = choose|j: int| 0 <= j < t.len() && t[j].public_key == k;
        assert(j == i);
    }
}

} // verus!
