//! A size-bounded cache of texts whose eviction goes by insertion time.
//!
//! Entries live in a concurrent map; a separate index of expiry records,
//! kept in order of time, decides what leaves first. A record may outlive its
//! entry (after a replacement or an eviction): it is dropped when it comes up.
use vstd::prelude::*;
use crate::clock::now_millis;
use crate::shared_map::{text_entries, text_map_get, text_map_insert, text_map_new, text_map_remove};
use crate::text::{encoded_len, utf8_len};

verus! {

/// When a key was put in the cache.
pub struct ExpiryRecord {
    pub at: i64,
    pub key: String,
}

/// The abstract form of an expiry record: a time and a key.
pub type Stamp = (int, Seq<char>);

/// The keys that some record of `q` names.
pub open spec fn keys_in(q: Seq<Stamp>) -> Set<Seq<char>> {
    Set::new(|k: Seq<char>| exists|i: int| 0 <= i < q.len() && q[i].1 == k)
}

/// Records come in order of time, earliest first.
pub open spec fn sorted_by_time(q: Seq<Stamp>) -> bool {
    forall|i: int, j: int| 0 <= i <= j < q.len() ==> q[i].0 <= q[j].0
}

/// The sum of the encoded lengths of all contents of `m`.
pub open spec fn total_bytes(m: Map<Seq<char>, Seq<char>>) -> nat
    decreases m.dom().len(),
    via total_bytes_decreases
{
    if !m.dom().finite() || m.dom().len() == 0 {
        0
    } else {
        let k = choose|k: Seq<char>| m.dom().contains(k);
        utf8_len(m[k]) + total_bytes(m.remove(k))
    }
}

#[via_fn]
proof fn total_bytes_decreases(m: Map<Seq<char>, Seq<char>>) {
    if m.dom().finite() && m.dom().len() != 0 {
        if !(exists|a: Seq<char>| m.dom().contains(a)) {
            assert(m.dom() =~= Set::empty());
        }
        let k = m.dom().choose();
        assert(m.dom().contains(k));
        assert(m.remove(k).dom() =~= m.dom().remove(k));
    }
}

/// `q` with `s` placed after every record that is not later than it.
pub open spec fn placed_by_time(q: Seq<Stamp>, s: Stamp, r: Seq<Stamp>) -> bool {
    exists|p: int|
        0 <= p <= q.len() && r == q.insert(p, s) && (forall|i: int| 0 <= i < p ==> q[i].0 <= s.0)
            && (forall|i: int| p <= i < q.len() ==> q[i].0 > s.0)
}

/// What is left of `m` once the first `n` records of `q` have been taken.
pub open spec fn after_prefix(m: Map<Seq<char>, Seq<char>>, q: Seq<Stamp>, n: int) -> Map<Seq<char>, Seq<char>> {
    m.remove_keys(keys_in(q.take(n)))
}

/// What a lookup finds: the content, when the cache is in use and holds the key.
pub open spec fn cached(enabled: bool, m: Map<Seq<char>, Seq<char>>, k: Seq<char>) -> Option<Seq<char>> {
    if enabled && m.contains_key(k) {
        Some(m[k])
    } else {
        None
    }
}

/// The bound in bytes for a capacity given in mebibytes.
pub open spec fn capacity_bytes(mib: u64) -> int {
    if mib * 1048576 <= u64::MAX {
        mib * 1048576
    } else {
        u64::MAX as int
    }
}

/// Taking one key out of a map takes its content's length out of the total.
pub proof fn lemma_total_bytes_remove(m: Map<Seq<char>, Seq<char>>, k: Seq<char>)
    requires
        m.dom().finite(),
        m.contains_key(k),
    ensures
        total_bytes(m) == utf8_len(m[k]) + total_bytes(m.remove(k)),
    decreases m.dom().len(),
{
    assert(m.dom().len() != 0) by {
        if m.dom().len() == 0 {
            m.dom().lemma_len0_is_empty();
        }
    }
    let j = choose|j: Seq<char>| m.dom().contains(j);
    assert(m.remove(k).dom() =~= m.dom().remove(k));
    assert(m.remove(j).dom() =~= m.dom().remove(j));
    if j != k {
        lemma_total_bytes_remove(m.remove(j), k);
        lemma_total_bytes_remove(m.remove(k), j);
        assert(m.remove(j).remove(k) =~= m.remove(k).remove(j));
    }
}

/// Putting a key in a map replaces what it held in the total by the new length.
pub proof fn lemma_total_bytes_insert(m: Map<Seq<char>, Seq<char>>, k: Seq<char>, v: Seq<char>)
    requires
        m.dom().finite(),
    ensures
        total_bytes(m.insert(k, v)) == utf8_len(v) + total_bytes(m.remove(k)),
        m.contains_key(k) ==> total_bytes(m) == utf8_len(m[k]) + total_bytes(m.remove(k)),
{
    lemma_total_bytes_remove(m.insert(k, v), k);
    assert(m.insert(k, v).remove(k) =~= m.remove(k));
    if m.contains_key(k) {
        lemma_total_bytes_remove(m, k);
    }
}

/// In a cache in use, a lookup right after a put of a key finds exactly the
/// content that was put.
pub proof fn law_get_after_put(m: Map<Seq<char>, Seq<char>>, k: Seq<char>, v: Seq<char>)
    ensures
        cached(true, m.insert(k, v), k) == Some(v),
{
}

/// A disabled cache finds nothing, whatever it was handed: every read falls
/// through to the store.
pub proof fn law_disabled_cache_misses(m: Map<Seq<char>, Seq<char>>, k: Seq<char>)
    ensures
        cached(false, m, k) is None,
{
}

/// Eviction goes by time: when a record of `a` at `t1` precedes every record
/// of `b`, and a pass of the size bound has taken `b` out, it has taken `a`
/// out too.
pub proof fn law_expiry_order(
    m: Map<Seq<char>, Seq<char>>,
    q: Seq<Stamp>,
    n: int,
    a: Seq<char>,
    t1: int,
    b: Seq<char>,
)
    requires
        sorted_by_time(q),
        q.contains((t1, a)),
        forall|j: int| 0 <= j < q.len() && q[j].1 == b ==> q[j].0 > t1,
        m.contains_key(b),
        0 <= n <= q.len(),
    ensures
        !after_prefix(m, q, n).contains_key(b) ==> !after_prefix(m, q, n).contains_key(a),
{
    if !after_prefix(m, q, n).contains_key(b) {
        let t = q.take(n);
        assert(keys_in(t).contains(b));
        let j = choose|j: int| 0 <= j < t.len() && t[j].1 == b;
        let i = choose|i: int| 0 <= i < q.len() && q[i] == (t1, a);
        assert(q[j].0 > t1);
        if j <= i {
            assert(q[j].0 <= q[i].0);
        }
        assert(t[i].1 == a);
        assert(keys_in(t).contains(a));
    }
}

/// A cache of texts by key, bounded in size by eviction of the earliest entries.
pub struct ExpiringCache {
    entries: dashmap::DashMap<String, String>,
    expiries: Vec<ExpiryRecord>,
    bytes: u64,
    capacity_mib: Option<u64>,
}

impl ExpiringCache {
    /// What the cache holds, key to content.
    pub closed spec fn contents(&self) -> Map<Seq<char>, Seq<char>> {
        text_entries(self.entries)
    }

    /// The expiry index, earliest first.
    pub closed spec fn queue(&self) -> Seq<Stamp> {
        self.expiries@.map_values(|r: ExpiryRecord| (r.at as int, r.key@))
    }

    /// The size that the cache accounts for, in bytes.
    pub closed spec fn size(&self) -> nat {
        self.bytes as nat
    }

    /// The capacity it was configured with, in mebibytes; none when disabled.
    pub closed spec fn capacity(&self) -> Option<u64> {
        self.capacity_mib
    }

    pub open spec fn enabled(&self) -> bool {
        self.capacity() is Some
    }

    pub closed spec fn wf(&self) -> bool {
        &&& self.contents().dom().finite()
        &&& self.size() == total_bytes(self.contents())
        &&& sorted_by_time(self.queue())
        &&& self.contents().dom().subset_of(keys_in(self.queue()))
    }

    /// A cache with the given capacity in mebibytes, or a disabled one.
    pub fn new(capacity_mib: Option<u64>) -> (r: Self)
        ensures
            r.wf(),
            r.capacity() == capacity_mib,
            r.contents() == Map::<Seq<char>, Seq<char>>::empty(),
            r.queue() == Seq::<Stamp>::empty(),
            r.size() == 0,
    {
        let r = ExpiringCache { entries: text_map_new(), expiries: Vec::new(), bytes: 0, capacity_mib };
        proof {
            assert(r.contents() =~= Map::empty());
            assert(r.queue() =~= Seq::empty());
        }
        r
    }

    /// The size that the cache accounts for, in bytes.
    pub fn size_bytes(&self) -> (r: u64)
        ensures
            r == self.size(),
    {
        self.bytes
    }

    /// Whether a capacity was configured.
    pub fn is_enabled(&self) -> (r: bool)
        ensures
            r == self.enabled(),
    {
        self.capacity_mib.is_some()
    }

    /// Puts `content` under `key` as of time `at` (milliseconds), replacing
    /// what the key held, and records the time in the expiry index. A disabled
    /// cache stays as it is; so does one whose size would pass what a `u64`
    /// can count.
    pub fn put_at(&mut self, key: String, content: String, at: i64)
        requires
            old(self).wf(),
        ensures
            final(self).wf(),
            final(self).capacity() == old(self).capacity(),
            if old(self).enabled() && old(self).size() + utf8_len(content@) <= u64::MAX {
                &&& final(self).contents() == old(self).contents().insert(key@, content@)
                &&& placed_by_time(old(self).queue(), (at as int, key@), final(self).queue())
            } else {
                &&& final(self).contents() == old(self).contents()
                &&& final(self).queue() == old(self).queue()
            },
    {
        if self.capacity_mib.is_none() {
            return;
        }
        let len = encoded_len(content.as_str());
        if self.bytes as u128 + len > u64::MAX as u128 {
            return;
        }
        let ghost q0 = self.queue();
        let ghost c0 = self.contents();
        let mut p: usize = self.expiries.len();
        while p > 0 && self.expiries[p - 1].at > at
            invariant
                p <= self.expiries.len(),
                self.queue() == q0,
                forall|i: int| p <= i < q0.len() ==> q0[i].0 > at,
            decreases p,
        {
            p = p - 1;
        }
        let rec = ExpiryRecord { at, key: key.clone() };
        self.expiries.insert(p, rec);
        let old_v = text_map_insert(&mut self.entries, key, content);
        proof {
            lemma_total_bytes_insert(c0, key@, content@);
        }
        match old_v {
            Some(v) => {
                let vl = encoded_len(v.as_str());
                self.bytes = (self.bytes as u128 + len - vl) as u64;
            },
            None => {
                proof {
                    assert(c0.remove(key@) =~= c0);
                }
                self.bytes = (self.bytes as u128 + len) as u64;
            },
        }
        proof {
            let q1 = self.queue();
            let st = (at as int, key@);
            assert(forall|i: int| 0 <= i < p ==> q0[i].0 <= at) by {
                if p > 0 {
                    assert(q0[p - 1].0 <= at);
                }
            }
            assert(q1 =~= q0.insert(p as int, st));
            assert(sorted_by_time(q1)) by {
                assert forall|i: int, j: int| 0 <= i <= j < q1.len() implies q1[i].0 <= q1[j].0 by {
                    if p > 0 && i < p && j >= p + 1 {
                        assert(q0[i].0 <= q0[p - 1].0);
                    }
                }
            }
            assert(self.contents().dom().subset_of(keys_in(q1))) by {
                assert forall|k: Seq<char>| self.contents().dom().contains(k) implies keys_in(q1).contains(k) by {
                    if k == key@ {
                        assert(q1[p as int].1 == k);
                    } else {
                        assert(keys_in(q0).contains(k));
                        let i = choose|i: int| 0 <= i < q0.len() && q0[i].1 == k;
                        if i < p {
                            assert(q1[i].1 == k);
                        } else {
                            assert(q1[i + 1].1 == k);
                        }
                    }
                }
            }
        }
    }

    /// Puts `content` under `key` as of now.
    pub fn put(&mut self, key: String, content: String)
        requires
            old(self).wf(),
        ensures
            final(self).wf(),
            final(self).capacity() == old(self).capacity(),
            if old(self).enabled() && old(self).size() + utf8_len(content@) <= u64::MAX {
                &&& final(self).contents() == old(self).contents().insert(key@, content@)
                &&& exists|at: i64| placed_by_time(old(self).queue(), (at as int, key@), final(self).queue())
            } else {
                &&& final(self).contents() == old(self).contents()
                &&& final(self).queue() == old(self).queue()
            },
    {
        let at = now_millis();
        self.put_at(key, content, at);
    }

    /// The content under `key`: none when the cache is disabled or does not
    /// hold the key. A lookup changes nothing.
    pub fn get(&self, key: &String) -> (r: Option<String>)
        ensures
            r is Some <==> cached(self.enabled(), self.contents(), key@) is Some,
            r is Some ==> r->0@ == cached(self.enabled(), self.contents(), key@)->0,
    {
        if self.capacity_mib.is_none() {
            return None;
        }
        text_map_get(&self.entries, key)
    }

    /// Takes expiry records from the front of the index, earliest first, and
    /// evicts the entry each one names while the size is above `max_bytes`
    /// and records remain. A record whose entry is gone is dropped and changes
    /// no size. A disabled cache stays as it is.
    pub fn enforce_size_bound(&mut self, max_bytes: u64)
        requires
            old(self).wf(),
        ensures
            final(self).wf(),
            final(self).capacity() == old(self).capacity(),
            old(self).enabled() ==> final(self).size() <= max_bytes,
            old(self).enabled() ==> exists|n: int|
                0 <= n <= old(self).queue().len()
                && final(self).queue() == old(self).queue().skip(n)
                && final(self).contents() == after_prefix(old(self).contents(), old(self).queue(), n)
                && forall|m: int| 0 <= m < n
                    ==> total_bytes(after_prefix(old(self).contents(), old(self).queue(), m)) > max_bytes,
            !old(self).enabled() ==> final(self).contents() == old(self).contents()
                && final(self).queue() == old(self).queue(),
    {
        if self.capacity_mib.is_none() {
            return;
        }
        let ghost q0 = self.queue();
        let ghost c0 = self.contents();
        let ghost mut n: int = 0;
        let ghost cap0 = self.capacity_mib;
        proof {
            assert(q0.skip(0) =~= q0);
            assert(keys_in(q0.take(0)) =~= Set::empty());
            assert(after_prefix(c0, q0, 0) =~= c0);
        }
        while self.bytes > max_bytes && self.expiries.len() > 0
            invariant
                self.wf(),
                self.capacity_mib == cap0,
                cap0 is Some,
                0 <= n <= q0.len(),
                self.queue() == q0.skip(n),
                self.contents() == after_prefix(c0, q0, n),
                forall|m: int| 0 <= m < n ==> total_bytes(after_prefix(c0, q0, m)) > max_bytes,
            decreases self.expiries.len(),
        {
            let ghost c1 = self.contents();
            let ghost q1 = self.queue();
            let rec = self.expiries.remove(0);
            let removed = text_map_remove(&mut self.entries, &rec.key);
            proof {
                assert(q1[0] == (rec.at as int, rec.key@));
                assert(q0[n] == q1[0]);
                assert(keys_in(q0.take(n + 1)) =~= keys_in(q0.take(n)).insert(rec.key@)) by {
                    assert forall|k: Seq<char>| keys_in(q0.take(n + 1)).contains(k) implies
                        keys_in(q0.take(n)).insert(rec.key@).contains(k) by {
                        let t = q0.take(n + 1);
                        let i = choose|i: int| 0 <= i < t.len() && t[i].1 == k;
                        if i < n {
                            assert(q0.take(n)[i].1 == k);
                        }
                    }
                    assert forall|k: Seq<char>| keys_in(q0.take(n)).insert(rec.key@).contains(k) implies
                        keys_in(q0.take(n + 1)).contains(k) by {
                        if k == rec.key@ {
                            assert(q0.take(n + 1)[n].1 == k);
                        } else {
                            let t = q0.take(n);
                            let i = choose|i: int| 0 <= i < t.len() && t[i].1 == k;
                            assert(q0.take(n + 1)[i].1 == k);
                        }
                    }
                }
                assert(after_prefix(c0, q0, n + 1) =~= c1.remove(rec.key@));
                assert(self.queue() =~= q1.skip(1));
                assert(q1.skip(1) =~= q0.skip(n + 1));
            }
            match removed {
                Some(v) => {
                    proof {
                        lemma_total_bytes_remove(c1, rec.key@);
                    }
                    let vl = encoded_len(v.as_str());
                    self.bytes = (self.bytes as u128 - vl) as u64;
                },
                None => {
                    proof {
                        assert(c1.remove(rec.key@) =~= c1);
                    }
                },
            }
            proof {
                let q2 = self.queue();
                assert(q2 =~= q1.skip(1));
                assert(self.contents().dom().subset_of(keys_in(q2))) by {
                    assert forall|k: Seq<char>| self.contents().dom().contains(k) implies keys_in(q2).contains(k) by {
                        assert(keys_in(q1).contains(k));
                        let i = choose|i: int| 0 <= i < q1.len() && q1[i].1 == k;
                        assert(i != 0);
                        assert(q2[i - 1].1 == k);
                    }
                }
                n = n + 1;
            }
        }
        proof {
            if self.expiries.len() == 0 {
                assert(self.contents().dom() =~= Set::empty()) by {
                    assert forall|k: Seq<char>| !self.contents().dom().contains(k) by {
                        if self.contents().dom().contains(k) {
                            assert(keys_in(self.queue()).contains(k));
                        }
                    }
                }
            }
        }
    }

    /// Runs the size bound for the configured capacity, if there is one.
    pub fn enforce_configured(&mut self)
        requires
            old(self).wf(),
        ensures
            final(self).wf(),
            final(self).capacity() == old(self).capacity(),
            old(self).enabled() ==> final(self).size() <= capacity_bytes(old(self).capacity()->0),
            !old(self).enabled() ==> final(self).contents() == old(self).contents()
                && final(self).queue() == old(self).queue(),
    {
        match self.capacity_mib {
            Some(mib) => {
                let max_bytes: u64 = match mib.checked_mul(1048576) {
                    Some(b) => b,
                    None => u64::MAX,
                };
                self.enforce_size_bound(max_bytes);
            },
            None => {},
        }
    }

    /// Every state of a cache accounts for exactly the bytes it holds, never fewer.
    pub proof fn lemma_size_is_exact(&self)
        requires
            self.wf(),
        ensures
            self.size() == total_bytes(self.contents()),
    {
    }
}

} // verus!
