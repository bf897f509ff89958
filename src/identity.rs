//! The stream-identifier to speaker-identity map, and its grouping by speaker.

use vstd::prelude::*;
use std::collections::HashMap;
use vstd::std_specs::iter::IteratorSpec;
use crate::bytes::{
    le32, le64, lemma_u32_round_trip, lemma_u64_round_trip, push_u32, push_u64, read_u32, read_u64,
    u32_at, u64_at,
};
use crate::codec::CodecError;

verus! {

/// First bytes of an identity snapshot.
pub const SNAPSHOT_MAGIC: [u8; 4] = [0x57, 0x52, 0x54, 0x4d];

/// The identity snapshot format version.
pub const SNAPSHOT_VERSION: u8 = 1;

/// The bytes of one snapshot entry.
pub open spec fn entry_bytes(e: (u32, u64)) -> Seq<u8> {
    le32(e.0) + le64(e.1)
}

/// The bytes of a list of snapshot entries.
pub open spec fn entries_bytes(e: Seq<(u32, u64)>) -> Seq<u8>
    decreases e.len(),
{
    if e.len() == 0 {
        Seq::empty()
    } else {
        entries_bytes(e.drop_last()) + entry_bytes(e.last())
    }
}

/// A snapshot: magic, version, entry count, then each entry (stream
/// identifier, speaker identity), ascending by stream identifier.
pub open spec fn snapshot_bytes(e: Seq<(u32, u64)>) -> Seq<u8> {
    seq![0x57u8, 0x52u8, 0x54u8, 0x4du8, SNAPSHOT_VERSION] + le32(e.len() as u32) + entries_bytes(e)
}

/// The entries a snapshot holds, or why it holds none.
pub open spec fn snapshot_entries(b: Seq<u8>) -> Result<Seq<(u32, u64)>, CodecError> {
    if b.len() < 9 {
        Err(CodecError::TruncatedHeader)
    } else if b[0] != 0x57u8 || b[1] != 0x52u8 || b[2] != 0x54u8 || b[3] != 0x4du8 {
        Err(CodecError::BadMagic)
    } else if b[4] != SNAPSHOT_VERSION {
        Err(CodecError::UnsupportedVersion(b[4]))
    } else if b.len() != 9 + 12 * u32_at(b, 5) {
        Err(CodecError::MalformedSnapshot)
    } else {
        let e = Seq::new(
            u32_at(b, 5) as nat,
            |i: int| (u32_at(b, 9 + 12 * i), u64_at(b, 13 + 12 * i)),
        );
        if keys_increasing(e) {
            Ok(e)
        } else {
            Err(CodecError::MalformedSnapshot)
        }
    }
}

proof fn lemma_entries_bytes_len(e: Seq<(u32, u64)>)
    ensures
        entries_bytes(e).len() == 12 * e.len(),
    decreases e.len(),
{
    if e.len() > 0 {
        lemma_entries_bytes_len(e.drop_last());
    }
}

proof fn lemma_entries_bytes_at(e: Seq<(u32, u64)>, i: int)
    requires
        0 <= i < e.len(),
    ensures
        entries_bytes(e).subrange(12 * i, 12 * i + 12) == entry_bytes(e[i]),
    decreases e.len(),
{
    lemma_entries_bytes_len(e.drop_last());
    if i < e.len() - 1 {
        lemma_entries_bytes_at(e.drop_last(), i);
        assert(entries_bytes(e).subrange(12 * i, 12 * i + 12) =~= entries_bytes(
            e.drop_last(),
        ).subrange(12 * i, 12 * i + 12));
    } else {
        assert(entries_bytes(e).subrange(12 * i, 12 * i + 12) =~= entry_bytes(e[i]));
    }
}

/// Reading a snapshot back gives the entries it was written from.
pub proof fn lemma_snapshot_round_trip(e: Seq<(u32, u64)>)
    requires
        keys_increasing(e),
        e.len() <= u32::MAX,
    ensures
        snapshot_entries(snapshot_bytes(e)) == Ok::<Seq<(u32, u64)>, CodecError>(e),
{
    let b = snapshot_bytes(e);
    let body = entries_bytes(e);
    lemma_entries_bytes_len(e);
    lemma_u32_round_trip(e.len() as u32);
    assert(u32_at(b, 5) == u32_at(le32(e.len() as u32), 0));
    assert(u32_at(b, 5) == e.len());
    let d = Seq::new(
        u32_at(b, 5) as nat,
        |i: int| (u32_at(b, 9 + 12 * i), u64_at(b, 13 + 12 * i)),
    );
    assert forall|i: int| 0 <= i < e.len() implies #[trigger] d[i] == e[i] by {
        lemma_entries_bytes_at(e, i);
        let eb = entry_bytes(e[i]);
        assert forall|k: int| 0 <= k < 12 implies b[9 + 12 * i + k] == #[trigger] eb[k] by {
            assert(b[9 + 12 * i + k] == body[12 * i + k]);
            assert(body.subrange(12 * i, 12 * i + 12)[k] == body[12 * i + k]);
        }
        lemma_u32_round_trip(e[i].0);
        lemma_u64_round_trip(e[i].1);
        assert forall|k: int| 0 <= k < 4 implies b[9 + 12 * i + k] == #[trigger] le32(e[i].0)[k] by {
            assert(eb[k] == le32(e[i].0)[k]);
        }
        assert forall|k: int| 0 <= k < 8 implies b[13 + 12 * i + k] == #[trigger] le64(e[i].1)[k] by {
            assert(eb[4 + k] == le64(e[i].1)[k]);
            assert(b[9 + 12 * i + (4 + k)] == eb[4 + k]);
        }
        assert(u32_at(b, 9 + 12 * i) == u32_at(le32(e[i].0), 0));
        assert(u64_at(b, 13 + 12 * i) == u64_at(le64(e[i].1), 0));
    }
    assert(d =~= e);
}

/// Stream identifiers strictly increase along the entries.
pub open spec fn keys_increasing(e: Seq<(u32, u64)>) -> bool {
    forall|i: int, j: int| 0 <= i < j < e.len() ==> #[trigger] e[i].0 < #[trigger] e[j].0
}

/// `k` is the stream identifier of some entry.
pub open spec fn has_key(e: Seq<(u32, u64)>, k: u32) -> bool {
    exists|i: int| 0 <= i < e.len() && (#[trigger] e[i]).0 == k
}

/// The map that a list of entries stands for.
pub open spec fn entries_map(e: Seq<(u32, u64)>) -> Map<u32, u64> {
    Map::new(
        |k: u32| has_key(e, k),
        |k: u32| e[choose|i: int| 0 <= i < e.len() && (#[trigger] e[i]).0 == k].1,
    )
}

/// The map after a speaking-state notification: a known speaker identity is
/// recorded for the stream, an unknown one changes nothing.
pub open spec fn after_update(m: Map<u32, u64>, ssrc: u32, user: Option<u64>) -> Map<u32, u64> {
    match user {
        Some(u) => m.insert(ssrc, u),
        None => m,
    }
}

proof fn lemma_entries_map_at(e: Seq<(u32, u64)>, i: int)
    requires
        keys_increasing(e),
        0 <= i < e.len(),
    ensures
        entries_map(e).contains_key(e[i].0),
        entries_map(e)[e[i].0] == e[i].1,
{
    let k = e[i].0;
    assert(has_key(e, k));
    let j = choose|j: int| 0 <= j < e.len() && (#[trigger] e[j]).0 == k;
    if j < i {
        assert(e[j].0 < e[i].0);
    } else if j > i {
        assert(e[i].0 < e[j].0);
    }
}

/// Applying the same speaking-state update twice leaves the map as applying it once.
pub proof fn lemma_update_idempotent(m: Map<u32, u64>, ssrc: u32, user: Option<u64>)
    ensures
        after_update(after_update(m, ssrc, user), ssrc, user) == after_update(m, ssrc, user),
{
    match user {
        Some(u) => {
            assert(m.insert(ssrc, u).insert(ssrc, u) =~= m.insert(ssrc, u));
        },
        None => {},
    }
}

/// Which speaker each stream identifier belongs to. Frames may arrive for a
/// stream before its speaker is known; the map is consulted at export time.
#[derive(Debug, Clone)]
pub struct IdentityMap {
    entries: Vec<(u32, u64)>,
}

impl View for IdentityMap {
    type V = Map<u32, u64>;

    closed spec fn view(&self) -> Map<u32, u64> {
        entries_map(self.entries@)
    }
}

impl IdentityMap {
    /// The entries are kept ordered by stream identifier, one per identifier.
    pub closed spec fn wf(&self) -> bool {
        keys_increasing(self.entries@)
    }

    /// The entries, ordered by stream identifier.
    pub closed spec fn entries_spec(&self) -> Seq<(u32, u64)> {
        self.entries@
    }

    /// An empty map.
    pub fn new() -> (r: IdentityMap)
        ensures
            r.wf(),
            r@ == Map::<u32, u64>::empty(),
    {
        let r = IdentityMap { entries: Vec::new() };
        assert(r@ =~= Map::<u32, u64>::empty());
        r
    }

    /// A copy of the map.
    pub fn clone_map(&self) -> (r: IdentityMap)
        requires
            self.wf(),
        ensures
            r.wf(),
            r@ == self@,
    {
        let mut entries: Vec<(u32, u64)> = Vec::new();
        let mut i: usize = 0;
        while i < self.entries.len()
            invariant
                0 <= i <= self.entries@.len(),
                entries@ == self.entries@.take(i as int),
            decreases self.entries@.len() - i,
        {
            entries.push(self.entries[i]);
            i = i + 1;
            assert(entries@ =~= self.entries@.take(i as int));
        }
        assert(entries@ =~= self.entries@);
        IdentityMap { entries }
    }

    /// The snapshot of the map, written whole at each flush.
    pub fn to_snapshot(&self) -> (r: Vec<u8>)
        requires
            self.wf(),
            self.entries_spec().len() <= u32::MAX,
        ensures
            r@ == snapshot_bytes(self.entries_spec()),
    {
        let mut out: Vec<u8> = Vec::new();
        out.push(0x57u8);
        out.push(0x52u8);
        out.push(0x54u8);
        out.push(0x4du8);
        out.push(SNAPSHOT_VERSION);
        push_u32(&mut out, self.entries.len() as u32);
        let ghost head = out@;
        let mut i: usize = 0;
        while i < self.entries.len()
            invariant
                0 <= i <= self.entries@.len(),
                out@ == head + entries_bytes(self.entries@.take(i as int)),
            decreases self.entries@.len() - i,
        {
            assert(self.entries@.take(i + 1).drop_last() =~= self.entries@.take(i as int));
            push_u32(&mut out, self.entries[i].0);
            push_u64(&mut out, self.entries[i].1);
            i = i + 1;
        }
        assert(self.entries@.take(i as int) =~= self.entries@);
        assert(out@ =~= snapshot_bytes(self.entries_spec()));
        out
    }

    /// The map a snapshot holds; an unknown magic or version, a length that
    /// does not match the entry count, or identifiers out of order are
    /// refused.
    pub fn from_snapshot(b: &[u8]) -> (r: Result<IdentityMap, CodecError>)
        ensures
            match (r, snapshot_entries(b@)) {
                (Ok(m), Ok(e)) => m.wf() && m.entries_spec() == e && m@ == entries_map(e),
                (Err(x), Err(y)) => x == y,
                _ => false,
            },
    {
        if b.len() < 9 {
            return Err(CodecError::TruncatedHeader);
        }
        if b[0] != 0x57u8 || b[1] != 0x52u8 || b[2] != 0x54u8 || b[3] != 0x4du8 {
            return Err(CodecError::BadMagic);
        }
        if b[4] != SNAPSHOT_VERSION {
            return Err(CodecError::UnsupportedVersion(b[4]));
        }
        let n = read_u32(b, 5) as usize;
        if (b.len() - 9) / 12 != n || (b.len() - 9) % 12 != 0 {
            return Err(CodecError::MalformedSnapshot);
        }
        let ghost e = Seq::new(
            n as nat,
            |i: int| (u32_at(b@, 9 + 12 * i), u64_at(b@, 13 + 12 * i)),
        );
        let blen = b.len();
        let mut entries: Vec<(u32, u64)> = Vec::new();
        let mut i: usize = 0;
        while i < n
            invariant
                0 <= i <= n,
                blen == b@.len(),
                b@.len() == 9 + 12 * n,
                n == u32_at(b@, 5),
                snapshot_entries(b@) == (if keys_increasing(e) {
                    Ok::<Seq<(u32, u64)>, CodecError>(e)
                } else {
                    Err(CodecError::MalformedSnapshot)
                }),
                e == Seq::new(
                    n as nat,
                    |i: int| (u32_at(b@, 9 + 12 * i), u64_at(b@, 13 + 12 * i)),
                ),
                entries@ == e.take(i as int),
                keys_increasing(entries@),
            decreases n - i,
        {
            let ssrc = read_u32(b, 9 + 12 * i);
            let user = read_u64(b, 13 + 12 * i);
            if i > 0 && entries[i - 1].0 >= ssrc {
                assert(e[i - 1].0 >= e[i as int].0);
                assert(!keys_increasing(e));
                assert(snapshot_entries(b@) == Err::<Seq<(u32, u64)>, CodecError>(
                    CodecError::MalformedSnapshot,
                ));
                return Err(CodecError::MalformedSnapshot);
            }
            entries.push((ssrc, user));
            i = i + 1;
            assert(entries@ =~= e.take(i as int));
        }
        assert(e.take(n as int) =~= e);
        Ok(IdentityMap { entries })
    }

    /// Number of stream identifiers known.
    pub fn len(&self) -> (r: usize)
        requires
            self.wf(),
        ensures
            r == self@.dom().len(),
    {
        proof {
            self.lemma_dom_len();
        }
        self.entries.len()
    }

    proof fn lemma_dom_len(&self)
        requires
            self.wf(),
        ensures
            self@.dom().len() == self.entries@.len(),
        decreases self.entries@.len(),
    {
        let e = self.entries@;
        let keys = e.map_values(|p: (u32, u64)| p.0);
        assert forall|i: int, j: int| 0 <= i < j < keys.len() implies keys[i] != keys[j] by {
            assert(e[i].0 < e[j].0);
        }
        assert(keys.no_duplicates());
        assert(self@.dom() =~= keys.to_set()) by {
            assert forall|k: u32| self@.dom().contains(k) implies keys.to_set().contains(k) by {
                let i = choose|i: int| 0 <= i < e.len() && (#[trigger] e[i]).0 == k;
                assert(keys[i] == k);
            }
            assert forall|k: u32| keys.to_set().contains(k) implies self@.dom().contains(k) by {
                let i = choose|i: int| 0 <= i < keys.len() && keys[i] == k;
                assert(e[i].0 == k);
            }
        }
        keys.unique_seq_to_set();
    }

    /// The entries, ordered by stream identifier.
    pub fn entries(&self) -> (r: &Vec<(u32, u64)>)
        ensures
            r@ == self.entries_spec(),
    {
        &self.entries
    }

    /// The speaker of `ssrc`, if known.
    pub fn get(&self, ssrc: u32) -> (r: Option<u64>)
        requires
            self.wf(),
        ensures
            r == (if self@.contains_key(ssrc) {
                Some(self@[ssrc])
            } else {
                None::<u64>
            }),
    {
        let mut i: usize = 0;
        while i < self.entries.len()
            invariant
                0 <= i <= self.entries@.len(),
                keys_increasing(self.entries@),
                forall|j: int| 0 <= j < i ==> (#[trigger] self.entries@[j]).0 != ssrc,
            decreases self.entries@.len() - i,
        {
            if self.entries[i].0 == ssrc {
                proof {
                    lemma_entries_map_at(self.entries@, i as int);
                }
                return Some(self.entries[i].1);
            }
            i = i + 1;
        }
        None
    }

    /// Records that `ssrc` belongs to `user`, replacing what was known of it.
    pub fn insert(&mut self, ssrc: u32, user: u64)
        requires
            old(self).wf(),
        ensures
            final(self).wf(),
            final(self)@ == old(self)@.insert(ssrc, user),
    {
        let e = Ghost(self.entries@);
        let mut p: usize = 0;
        while p < self.entries.len() && self.entries[p].0 < ssrc
            invariant
                0 <= p <= self.entries@.len(),
                self.entries@ == e@,
                forall|j: int| 0 <= j < p ==> (#[trigger] self.entries@[j]).0 < ssrc,
            decreases self.entries@.len() - p,
        {
            p = p + 1;
        }
        let replace = p < self.entries.len() && self.entries[p].0 == ssrc;
        if replace {
            self.entries.set(p, (ssrc, user));
        } else {
            self.entries.insert(p, (ssrc, user));
        }
        proof {
            let n = self.entries@;
            let pi = p as int;
            if replace {
                assert(n == e@.update(pi, (ssrc, user)));
            } else {
                assert(n == e@.insert(pi, (ssrc, user)));
            }
            assert forall|i: int, j: int| 0 <= i < j < n.len() implies #[trigger] n[i].0
                < #[trigger] n[j].0 by {
                if !replace {
                    if i < pi && j > pi {
                        assert(n[j] == e@[j - 1]);
                    } else if j > pi && i > pi {
                        assert(n[j] == e@[j - 1] && n[i] == e@[i - 1]);
                    } else if i == pi {
                        assert(n[j] == e@[j - 1]);
                        assert(e@[pi].0 >= ssrc);
                        assert(e@[pi].0 != ssrc);
                        if j - 1 > pi {
                            assert(e@[pi].0 < e@[j - 1].0);
                        }
                    }
                } else {
                    if j == pi && i < pi {
                    } else if i == pi && j > pi {
                        assert(e@[pi].0 < e@[j].0);
                    }
                }
            }
            assert(self@ =~= old(self)@.insert(ssrc, user)) by {
                assert forall|k: u32| #[trigger] self@.contains_key(k) == old(
                    self,
                )@.insert(ssrc, user).contains_key(k) by {
                    if k == ssrc {
                        assert(n[pi].0 == ssrc);
                    } else if has_key(e@, k) {
                        let i = choose|i: int| 0 <= i < e@.len() && (#[trigger] e@[i]).0 == k;
                        if replace || i < pi {
                            assert(n[i].0 == k);
                        } else {
                            assert(n[i + 1].0 == k);
                        }
                    } else if has_key(n, k) {
                        let i = choose|i: int| 0 <= i < n.len() && (#[trigger] n[i]).0 == k;
                        if replace || i < pi {
                            assert(e@[i].0 == k);
                        } else {
                            assert(i != pi);
                            assert(e@[i - 1].0 == k);
                        }
                    }
                }
                assert forall|k: u32| #[trigger] self@.contains_key(k) implies self@[k] == old(
                    self,
                )@.insert(ssrc, user)[k] by {
                    if k == ssrc {
                        lemma_entries_map_at(n, pi);
                    } else {
                        let i = choose|i: int| 0 <= i < n.len() && (#[trigger] n[i]).0 == k;
                        lemma_entries_map_at(n, i);
                        if replace || i < pi {
                            lemma_entries_map_at(e@, i);
                        } else {
                            lemma_entries_map_at(e@, i - 1);
                        }
                    }
                }
            }
        }
    }

    /// Applies a speaking-state notification: a known speaker identity is
    /// recorded for the stream; without one nothing changes.
    pub fn update(&mut self, ssrc: u32, user: Option<u64>)
        requires
            old(self).wf(),
        ensures
            final(self).wf(),
            final(self)@ == after_update(old(self)@, ssrc, user),
    {
        match user {
            Some(u) => self.insert(ssrc, u),
            None => {},
        }
    }
}

/// Strictly increasing.
pub open spec fn increasing_u32(s: Seq<u32>) -> bool {
    forall|i: int, j: int| 0 <= i < j < s.len() ==> #[trigger] s[i] < #[trigger] s[j]
}

/// The stream identifiers of speaker `u`, in the order of the entries.
pub open spec fn ssrcs_of(e: Seq<(u32, u64)>, u: u64) -> Seq<u32>
    decreases e.len(),
{
    if e.len() == 0 {
        Seq::empty()
    } else {
        let r = ssrcs_of(e.drop_last(), u);
        if e.last().1 == u {
            r.push(e.last().0)
        } else {
            r
        }
    }
}

/// `ids` lists exactly the stream identifiers that `m` gives to `user`, ascending.
pub open spec fn lists_streams_of(m: Map<u32, u64>, user: u64, ids: Seq<u32>) -> bool {
    &&& increasing_u32(ids)
    &&& forall|s: u32| #[trigger] ids.contains(s) <==> (m.contains_key(s) && m[s] == user)
}

proof fn lemma_ssrcs_of(e: Seq<(u32, u64)>, u: u64)
    ensures
        forall|s: u32| #[trigger]
            ssrcs_of(e, u).contains(s) <==> exists|i: int|
                0 <= i < e.len() && (#[trigger] e[i]).0 == s && e[i].1 == u,
        keys_increasing(e) ==> increasing_u32(ssrcs_of(e, u)),
    decreases e.len(),
{
    if e.len() > 0 {
        let d = e.drop_last();
        lemma_ssrcs_of(d, u);
        let r = ssrcs_of(d, u);
        assert forall|s: u32| #[trigger] ssrcs_of(e, u).contains(s) <==> exists|i: int|
            0 <= i < e.len() && (#[trigger] e[i]).0 == s && e[i].1 == u by {
            if ssrcs_of(e, u).contains(s) {
                if e.last().1 == u && s == e.last().0 {
                    assert(e[e.len() - 1].0 == s);
                } else {
                    if e.last().1 == u {
                        let k = choose|k: int| 0 <= k < r.push(e.last().0).len() && r.push(
                            e.last().0,
                        )[k] == s;
                        if k < r.len() {
                            assert(r[k] == s);
                        }
                    }
                    assert(r.contains(s));
                    let i = choose|i: int| 0 <= i < d.len() && (#[trigger] d[i]).0 == s && d[i].1
                        == u;
                    assert(e[i] == d[i]);
                }
            }
            if exists|i: int| 0 <= i < e.len() && (#[trigger] e[i]).0 == s && e[i].1 == u {
                let i = choose|i: int| 0 <= i < e.len() && (#[trigger] e[i]).0 == s && e[i].1 == u;
                if i == e.len() - 1 {
                    assert(ssrcs_of(e, u) == r.push(s));
                    assert(r.push(s)[r.len() as int] == s);
                } else {
                    assert(d[i] == e[i]);
                    assert(r.contains(s));
                    let k = choose|k: int| 0 <= k < r.len() && r[k] == s;
                    if e.last().1 == u {
                        assert(r.push(e.last().0)[k] == s);
                    }
                }
            }
        }
        if keys_increasing(e) {
            assert(keys_increasing(d)) by {
                assert forall|i: int, j: int| 0 <= i < j < d.len() implies #[trigger] d[i].0
                    < #[trigger] d[j].0 by {
                    assert(d[i] == e[i] && d[j] == e[j]);
                }
            }
            if e.last().1 == u {
                assert forall|k: int| 0 <= k < r.len() implies #[trigger] r[k] < e.last().0 by {
                    assert(r.contains(r[k]));
                    let i = choose|i: int| 0 <= i < d.len() && (#[trigger] d[i]).0 == r[k] && d[i].1
                        == u;
                    assert(e[i] == d[i]);
                    assert(e[i].0 < e[e.len() - 1].0);
                }
                let t = r.push(e.last().0);
                assert forall|i: int, j: int| 0 <= i < j < t.len() implies #[trigger] t[i]
                    < #[trigger] t[j] by {
                    if j == r.len() {
                        assert(t[i] == r[i]);
                    } else {
                        assert(t[i] == r[i] && t[j] == r[j]);
                    }
                }
            }
        }
    }
}

proof fn lemma_ssrcs_of_map(e: Seq<(u32, u64)>, u: u64)
    requires
        keys_increasing(e),
    ensures
        lists_streams_of(entries_map(e), u, ssrcs_of(e, u)),
{
    lemma_ssrcs_of(e, u);
    let m = entries_map(e);
    assert forall|s: u32| #[trigger] ssrcs_of(e, u).contains(s) <==> (m.contains_key(s) && m[s]
        == u) by {
        if ssrcs_of(e, u).contains(s) {
            let i = choose|i: int| 0 <= i < e.len() && (#[trigger] e[i]).0 == s && e[i].1 == u;
            lemma_entries_map_at(e, i);
        }
        if m.contains_key(s) && m[s] == u {
            let i = choose|i: int| 0 <= i < e.len() && (#[trigger] e[i]).0 == s;
            lemma_entries_map_at(e, i);
            assert(e[i].0 == s && e[i].1 == u);
        }
    }
}

fn ssrcs_for(e: &Vec<(u32, u64)>, u: u64) -> (r: Vec<u32>)
    ensures
        r@ == ssrcs_of(e@, u),
{
    let mut out: Vec<u32> = Vec::new();
    let mut j: usize = 0;
    while j < e.len()
        invariant
            0 <= j <= e@.len(),
            out@ == ssrcs_of(e@.take(j as int), u),
        decreases e@.len() - j,
    {
        assert(e@.take(j + 1).drop_last() =~= e@.take(j as int));
        if e[j].1 == u {
            out.push(e[j].0);
        }
        j = j + 1;
    }
    assert(e@.take(j as int) =~= e@);
    out
}

/// Stream identifiers grouped by the speaker they belong to, one group per
/// speaker, each group's identifiers ascending.
#[derive(Debug, Clone)]
pub struct SpeakerGroups {
    groups: Vec<(u64, Vec<u32>)>,
}

impl SpeakerGroups {
    /// The speakers, in the order their first stream identifier appears.
    pub closed spec fn users(&self) -> Seq<u64> {
        self.groups@.map_values(|g: (u64, Vec<u32>)| g.0)
    }

    /// The stream identifiers of the `i`-th group.
    pub closed spec fn ids(&self, i: int) -> Seq<u32> {
        self.groups@[i].1@
    }

    /// The groups describe `m`: one per speaker, each listing exactly that
    /// speaker's stream identifiers in ascending order.
    pub open spec fn describes(&self, m: Map<u32, u64>) -> bool {
        &&& forall|i: int, j: int|
            0 <= i < j < self.users().len() ==> #[trigger] self.users()[i] != #[trigger] self.users()[j]
        &&& forall|i: int|
            0 <= i < self.users().len() ==> lists_streams_of(m, #[trigger] self.users()[i], self.ids(i))
        &&& forall|i: int| 0 <= i < self.users().len() ==> #[trigger] self.ids(i).len() > 0
        &&& forall|s: u32| #[trigger]
            m.contains_key(s) ==> exists|i: int|
                0 <= i < self.users().len() && #[trigger] self.users()[i] == m[s]
    }

    /// Number of speakers.
    pub fn len(&self) -> (r: usize)
        ensures
            r == self.users().len(),
    {
        self.groups.len()
    }

    /// The speaker of the `i`-th group.
    pub fn user_at(&self, i: usize) -> (r: u64)
        requires
            i < self.users().len(),
        ensures
            r == self.users()[i as int],
    {
        self.groups[i].0
    }

    /// The stream identifiers of the `i`-th group.
    pub fn ids_at(&self, i: usize) -> (r: &Vec<u32>)
        requires
            i < self.users().len(),
        ensures
            r@ == self.ids(i as int),
    {
        &self.groups[i].1
    }

    /// The stream identifiers of `user`, if it has any.
    pub fn get(&self, user: &u64) -> (r: Option<&Vec<u32>>)
        ensures
            r matches Some(ids) ==> exists|i: int|
                0 <= i < self.users().len() && self.users()[i] == *user && self.ids(i) == ids@,
            r is None ==> forall|i: int| 0 <= i < self.users().len() ==> self.users()[i] != *user,
    {
        let mut i: usize = 0;
        while i < self.groups.len()
            invariant
                0 <= i <= self.groups@.len(),
                forall|j: int| 0 <= j < i ==> self.users()[j] != *user,
                self.users().len() == self.groups@.len(),
                forall|j: int| 0 <= j < self.groups@.len() ==> #[trigger] self.users()[j] == self.groups@[j].0,
            decreases self.groups@.len() - i,
        {
            if self.groups[i].0 == *user {
                let r = &self.groups[i].1;
                assert(self.users()[i as int] == *user);
                assert(self.ids(i as int) == r@);
                return Some(r);
            }
            i = i + 1;
        }
        None
    }
}

impl IdentityMap {
    /// The identity map holding the same pairs as `m`.
    pub fn from_hash_map(m: &HashMap<u32, u64>) -> (r: IdentityMap)
        ensures
            r.wf(),
            r@ == m@,
    {
        broadcast use vstd::std_specs::hash::group_hash_axioms;
        let mut id = IdentityMap::new();
        let ghost v = vstd::std_specs::hash::spec_hash_map_iter(m).remaining();
        for kv in it: m.iter()
            invariant
                it.seq() == v,
                v.len() == m@.dom().len(),
                v.no_duplicates(),
                forall|j: int| 0 <= j < v.len() ==> m@.contains_key(*(#[trigger] v[j]).0) && m@[*v[j].0]
                    == *v[j].1,
                forall|k: u32| #[trigger] m@.contains_key(k) ==> v.contains((&k, &m@[k])),
                id.wf(),
                forall|j: int|
                    0 <= j < it.index() ==> id@.contains_key(*(#[trigger] v[j]).0) && id@[*v[j].0]
                        == *v[j].1,
                forall|k: u32|
                    #[trigger] id@.contains_key(k) ==> exists|j: int|
                        0 <= j < it.index() && *(#[trigger] v[j]).0 == k,
        {
            let ghost idx = it.index();
            proof {
                assert(v[idx] == (kv.0, kv.1));
            }
            id.insert(*kv.0, *kv.1);
            proof {
                assert forall|j: int| 0 <= j < idx + 1 implies id@.contains_key(*(#[trigger] v[j]).0)
                    && id@[*v[j].0] == *v[j].1 by {
                    if j < idx && *v[j].0 == *kv.0 {
                        assert(v[j] == v[idx]);
                    }
                }
                assert forall|k: u32| #[trigger] id@.contains_key(k) implies exists|j: int|
                    0 <= j < idx + 1 && *(#[trigger] v[j]).0 == k by {
                    if k == *kv.0 {
                        assert(*v[idx].0 == k);
                    }
                }
            }
        }
        proof {
            assert(id@ =~= m@) by {
                assert forall|k: u32| #[trigger] m@.contains_key(k) implies id@.contains_key(k)
                    && id@[k] == m@[k] by {
                    let j = choose|j: int| 0 <= j < v.len() && v[j] == (&k, &m@[k]);
                    assert(*v[j].0 == k);
                }
                assert forall|k: u32| #[trigger] id@.contains_key(k) implies m@.contains_key(k) by {
                    let j = choose|j: int| 0 <= j < v.len() && *(#[trigger] v[j]).0 == k;
                }
            }
        }
        id
    }
}

/// Groups stream identifiers by the speaker they map to: one group per
/// speaker, its identifiers ascending.
pub fn group_ssrcs_by_user(ssrc_map: &HashMap<u32, u64>) -> (r: SpeakerGroups)
    ensures
        r.describes(ssrc_map@),
{
    let id = IdentityMap::from_hash_map(ssrc_map);
    group_by_speaker(&id)
}

/// Groups the stream identifiers of `map` by speaker: one group per
/// speaker, its identifiers ascending.
pub fn group_by_speaker(map: &IdentityMap) -> (r: SpeakerGroups)
    requires
        map.wf(),
    ensures
        r.describes(map@),
{
    let e = &map.entries;
    let mut groups: Vec<(u64, Vec<u32>)> = Vec::new();
    let mut i: usize = 0;
    while i < e.len()
        invariant
            0 <= i <= e@.len(),
            e@ == map.entries@,
            keys_increasing(e@),
            forall|a: int, b: int|
                0 <= a < b < groups@.len() ==> #[trigger] groups@[a].0 != #[trigger] groups@[b].0,
            forall|a: int|
                0 <= a < groups@.len() ==> (#[trigger] groups@[a]).1@ == ssrcs_of(e@, groups@[a].0),
            forall|a: int|
                0 <= a < groups@.len() ==> exists|k: int|
                    0 <= k < e@.len() && (#[trigger] e@[k]).1 == (#[trigger] groups@[a]).0,
            forall|k: int|
                0 <= k < i ==> exists|a: int|
                    0 <= a < groups@.len() && (#[trigger] groups@[a]).0 == (#[trigger] e@[k]).1,
        decreases e@.len() - i,
    {
        let u = e[i].1;
        let mut g: usize = 0;
        let mut found = false;
        while g < groups.len()
            invariant
                0 <= g <= groups@.len(),
                !found ==> forall|a: int| 0 <= a < g ==> (#[trigger] groups@[a]).0 != u,
                found ==> exists|a: int| 0 <= a < groups@.len() && (#[trigger] groups@[a]).0 == u,
            decreases groups@.len() - g,
        {
            if groups[g].0 == u {
                found = true;
            }
            g = g + 1;
        }
        if !found {
            let ids = ssrcs_for(e, u);
            let ghost old_groups = groups@;
            groups.push((u, ids));
            proof {
                assert(groups@[groups@.len() - 1].0 == u);
                assert forall|k: int| 0 <= k < i + 1 implies exists|a: int|
                    0 <= a < groups@.len() && (#[trigger] groups@[a]).0 == (#[trigger] e@[k]).1 by {
                    if k < i {
                        let a = choose|a: int|
                            0 <= a < old_groups.len() && (#[trigger] old_groups[a]).0 == e@[k].1;
                        assert(groups@[a] == old_groups[a]);
                    } else {
                        assert(groups@[old_groups.len() as int].0 == e@[k].1);
                    }
                }
                assert forall|a: int|
                    0 <= a < groups@.len() implies exists|k: int|
                    0 <= k < e@.len() && (#[trigger] e@[k]).1 == (#[trigger] groups@[a]).0 by {
                    if a < old_groups.len() {
                        assert(groups@[a] == old_groups[a]);
                    } else {
                        assert(e@[i as int].1 == groups@[a].0);
                    }
                }
            }
        }
        i = i + 1;
    }
    let r = SpeakerGroups { groups };
    proof {
        let m = map@;
        assert forall|a: int| 0 <= a < r.users().len() implies lists_streams_of(
            m,
            #[trigger] r.users()[a],
            r.ids(a),
        ) by {
            lemma_ssrcs_of_map(e@, r.users()[a]);
        }
        assert forall|a: int| 0 <= a < r.users().len() implies #[trigger] r.ids(a).len() > 0 by {
            let u = r.users()[a];
            let k = choose|k: int| 0 <= k < e@.len() && (#[trigger] e@[k]).1 == r.groups@[a].0;
            lemma_ssrcs_of_map(e@, u);
            lemma_entries_map_at(e@, k);
            assert(r.ids(a).contains(e@[k].0));
        }
        assert forall|s: u32| #[trigger] m.contains_key(s) implies exists|a: int|
            0 <= a < r.users().len() && #[trigger] r.users()[a] == m[s] by {
            let k = choose|k: int| 0 <= k < e@.len() && (#[trigger] e@[k]).0 == s;
            lemma_entries_map_at(e@, k);
            let a = choose|a: int| 0 <= a < groups@.len() && (#[trigger] groups@[a]).0 == e@[k].1;
            assert(r.users()[a] == m[s]);
        }
        assert forall|a: int, b: int|
            0 <= a < b < r.users().len() implies #[trigger] r.users()[a] != #[trigger] r.users()[b] by {
            assert(r.users()[a] == groups@[a].0 && r.users()[b] == groups@[b].0);
        }
    }
    r
}

} // verus!
