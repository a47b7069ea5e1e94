//! Byte-bounded pool of captured hybrid-state checkpoints.
//!
//! A checkpoint is keyed by its cache domain, the boundary `p` (the target has
//! processed the tokens `[0, p)`), and the fingerprint of that token prefix.
//! Two prompts that share a prefix share the checkpoint; two that diverge
//! before the boundary get entries of their own.
//!
//! Checkpoints are captured only at page-aligned completed boundaries: a state
//! at the end of a chunk cannot be relabelled as an earlier one. The byte
//! ceiling is a hard bound. A stored blob owns device memory that nothing
//! frees on drop, so every blob that leaves the pool is handed to the caller.

use crate::fingerprint::{prefix_fingerprint, token_fingerprint};
use crate::serve_contract::{
    CacheDomain, CheckpointId, DomainView, DrafterDecision, LastTokenHandling, MissReason,
    PrefixLookup, ResumeBundle, ResumePlan, PAGE_TOKENS,
};
use vstd::multiset::Multiset;
use vstd::prelude::*;

verus! {

/// A stored checkpoint's bytes.
pub trait CheckpointBlob {
    /// Bytes that the blob occupies, as a fixed property of the blob.
    open spec fn size(&self) -> u64 {
        arbitrary()
    }

    /// Total bytes this blob occupies, for the pool's accounting.
    fn bytes_len(&self) -> (n: u64)
        ensures
            n == self.size(),
    ;
}

/// Key of a checkpoint: domain, boundary, prefix fingerprint.
pub type CheckpointKey = (CacheDomain, u64, u64);

/// A key as a mathematical value.
pub type KeyView = (DomainView, u64, u64);

/// A stored checkpoint as a mathematical value.
pub struct Held<B> {
    pub id: CheckpointId,
    pub blob: B,
    pub pinned: bool,
    /// Access stamp; smaller is older.
    pub stamp: int,
}

/// The pool as a mathematical value.
pub struct PoolView<B> {
    pub entries: Map<KeyView, Held<B>>,
    /// Keys whose checkpoint was evicted and not captured again.
    pub evicted: Set<KeyView>,
    pub max_bytes: int,
    /// Next id to mint.
    pub next_id: int,
    /// Stamp of the latest access.
    pub clock: int,
}

/// Bytes held by the entries.
pub open spec fn held_bytes<B: CheckpointBlob>(m: Map<KeyView, Held<B>>) -> int
    decreases m.dom().len(),
{
    if m.dom().finite() && m.dom().len() > 0 {
        let k = m.dom().choose();
        m[k].blob.size() + held_bytes(m.remove(k))
    } else {
        0
    }
}

/// The blobs held by the entries.
pub open spec fn held_blobs<B: CheckpointBlob>(m: Map<KeyView, Held<B>>) -> Multiset<B>
    decreases m.dom().len(),
{
    if m.dom().finite() && m.dom().len() > 0 {
        let k = m.dom().choose();
        held_blobs(m.remove(k)).insert(m[k].blob)
    } else {
        Multiset::empty()
    }
}

/// The pinned entries.
pub open spec fn pinned_only<B>(m: Map<KeyView, Held<B>>) -> Map<KeyView, Held<B>> {
    Map::new(|k: KeyView| m.contains_key(k) && m[k].pinned, |k: KeyView| m[k])
}

/// `k` is the entry that eviction takes next: unpinned, and no unpinned entry
/// is older.
pub open spec fn is_oldest<B>(m: Map<KeyView, Held<B>>, k: KeyView) -> bool {
    &&& m.contains_key(k)
    &&& !m[k].pinned
    &&& forall|j: KeyView| #[trigger]
        m.contains_key(j) && !m[j].pinned ==> m[k].stamp <= m[j].stamp
}

/// Eviction has to go on: the entries exceed `room` and some can go.
pub open spec fn must_evict<B: CheckpointBlob>(m: Map<KeyView, Held<B>>, room: int) -> bool {
    &&& m.dom().finite()
    &&& held_bytes(m) > room
    &&& exists|k: KeyView| is_oldest(m, k)
}

/// The entry that eviction takes next.
pub open spec fn oldest<B>(m: Map<KeyView, Held<B>>) -> KeyView {
    choose|k: KeyView| is_oldest(m, k)
}

/// The keys evicted, oldest first, until the entries fit in `room` or all that
/// are left are pinned.
pub open spec fn evictions<B: CheckpointBlob>(
    m: Map<KeyView, Held<B>>,
    room: int,
) -> Seq<KeyView>
    decreases m.dom().len(),
{
    if must_evict(m, room) {
        seq![oldest(m)] + evictions(m.remove(oldest(m)), room)
    } else {
        Seq::empty()
    }
}

/// The entries that such an eviction leaves.
pub open spec fn survivors<B: CheckpointBlob>(
    m: Map<KeyView, Held<B>>,
    room: int,
) -> Map<KeyView, Held<B>>
    decreases m.dom().len(),
{
    if must_evict(m, room) {
        survivors(m.remove(oldest(m)), room)
    } else {
        m
    }
}

/// A boundary at which a state may be captured.
pub open spec fn aligned(p: int) -> bool {
    p % (PAGE_TOKENS as int) == 0
}

impl<B: CheckpointBlob> PoolView<B> {
    /// What every operation keeps: the byte ceiling holds, boundaries are
    /// aligned, ids are distinct and already minted, stamps are distinct and
    /// past, and no evicted key is stored.
    pub open spec fn valid(self) -> bool {
        &&& self.entries.dom().finite()
        &&& held_bytes(self.entries) <= self.max_bytes
        &&& self.next_id >= 1
        &&& forall|k: KeyView| #[trigger]
            self.entries.contains_key(k) ==> {
                &&& aligned(k.1 as int)
                &&& 1 <= self.entries[k].id.0 < self.next_id
                &&& self.entries[k].stamp <= self.clock
                &&& !self.evicted.contains(k)
            }
        &&& forall|k: KeyView, j: KeyView|
            k != j && #[trigger] self.entries.contains_key(k)
                && #[trigger] self.entries.contains_key(j) ==> {
                &&& self.entries[k].id != self.entries[j].id
                &&& self.entries[k].stamp != self.entries[j].stamp
            }
    }

    /// Room that a capture of `bytes` leaves for the other entries.
    pub open spec fn room(self, bytes: u64) -> int {
        self.max_bytes - bytes
    }

    /// Whether a capture of `bytes` at `key` is stored: once the replaced entry
    /// and the evicted ones are gone, the rest leaves room for it.
    pub open spec fn accepts(self, key: KeyView, bytes: u64) -> bool {
        &&& aligned(key.1 as int)
        &&& held_bytes(survivors(self.entries.remove(key), self.room(bytes))) <= self.room(bytes)
    }

    /// The id that a stored capture at `key` carries: that of the entry it
    /// replaces, or a fresh one.
    pub open spec fn id_for(self, key: KeyView) -> int {
        if self.entries.contains_key(key) {
            self.entries[key].id.0 as int
        } else {
            self.next_id
        }
    }

    /// The pool after a capture of `blob` at `key`.
    pub open spec fn inserted(self, key: KeyView, blob: B) -> PoolView<B> {
        let base = self.entries.remove(key);
        let room = self.room(blob.size());
        let rest = survivors(base, room);
        let evicted = self.evicted.remove(key).union(evictions(base, room).to_set());
        if !aligned(key.1 as int) {
            self
        } else if self.accepts(key, blob.size()) {
            PoolView {
                entries: rest.insert(
                    key,
                    Held {
                        id: CheckpointId(self.id_for(key) as u64),
                        blob,
                        pinned: false,
                        stamp: self.clock + 1,
                    },
                ),
                evicted,
                max_bytes: self.max_bytes,
                next_id: if self.entries.contains_key(key) {
                    self.next_id
                } else {
                    self.next_id + 1
                },
                clock: self.clock + 1,
            }
        } else {
            PoolView { entries: rest, evicted, ..self }
        }
    }

    /// The blobs that a capture of `blob` at `key` hands back: the one it
    /// replaces, those it evicts, oldest first, and `blob` itself when refused.
    pub open spec fn displaced(self, key: KeyView, blob: B) -> Seq<B> {
        let base = self.entries.remove(key);
        if !aligned(key.1 as int) {
            seq![blob]
        } else {
            (if self.entries.contains_key(key) {
                seq![self.entries[key].blob]
            } else {
                Seq::empty()
            }) + evictions(base, self.room(blob.size())).map_values(|k: KeyView| base[k].blob) + (
            if self.accepts(key, blob.size()) {
                Seq::empty()
            } else {
                seq![blob]
            })
        }
    }

    /// The pool once the entry at `key` is evicted.
    pub open spec fn without(self, key: KeyView) -> PoolView<B> {
        if self.entries.contains_key(key) {
            PoolView {
                entries: self.entries.remove(key),
                evicted: self.evicted.insert(key),
                ..self
            }
        } else {
            self
        }
    }

    /// The pool once the entry at `key` is pinned or unpinned.
    pub open spec fn with_pin(self, key: KeyView, pinned: bool) -> PoolView<B> {
        if self.entries.contains_key(key) {
            PoolView {
                entries: self.entries.insert(key, Held { pinned, ..self.entries[key] }),
                ..self
            }
        } else {
            self
        }
    }

    /// The pool once the entry at `key` has been accessed.
    pub open spec fn touched(self, key: KeyView) -> PoolView<B> {
        if self.entries.contains_key(key) {
            PoolView {
                entries: self.entries.insert(
                    key,
                    Held { stamp: self.clock + 1, ..self.entries[key] },
                ),
                clock: self.clock + 1,
                ..self
            }
        } else {
            self
        }
    }
}

// ---- Facts about held bytes and blobs ----

proof fn lemma_held_remove<B: CheckpointBlob>(m: Map<KeyView, Held<B>>, k: KeyView)
    requires
        m.dom().finite(),
        m.contains_key(k),
    ensures
        held_bytes(m) == m[k].blob.size() + held_bytes(m.remove(k)),
        held_blobs(m) == held_blobs(m.remove(k)).insert(m[k].blob),
    decreases m.dom().len(),
{
    let c = m.dom().choose();
    if c != k {
        let mc = m.remove(c);
        let mk = m.remove(k);
        lemma_held_remove(mc, k);
        lemma_held_remove(mk, c);
        assert(mc.remove(k) =~= mk.remove(c));
        assert(held_blobs(m) =~= held_blobs(mk).insert(m[k].blob));
    }
}

proof fn lemma_held_insert<B: CheckpointBlob>(m: Map<KeyView, Held<B>>, k: KeyView, h: Held<B>)
    requires
        m.dom().finite(),
        !m.contains_key(k),
    ensures
        held_bytes(m.insert(k, h)) == h.blob.size() + held_bytes(m),
        held_blobs(m.insert(k, h)) == held_blobs(m).insert(h.blob),
        m.insert(k, h).dom().finite(),
{
    lemma_held_remove(m.insert(k, h), k);
    assert(m.insert(k, h).remove(k) =~= m);
}

proof fn lemma_held_nonnegative<B: CheckpointBlob>(m: Map<KeyView, Held<B>>)
    ensures
        held_bytes(m) >= 0,
    decreases m.dom().len(),
{
    if m.dom().finite() && m.dom().len() > 0 {
        lemma_held_nonnegative(m.remove(m.dom().choose()));
    }
}

proof fn lemma_held_update<B: CheckpointBlob>(m: Map<KeyView, Held<B>>, k: KeyView, h: Held<B>)
    requires
        m.dom().finite(),
        m.contains_key(k),
        h.blob == m[k].blob,
    ensures
        held_bytes(m.insert(k, h)) == held_bytes(m),
        held_blobs(m.insert(k, h)) == held_blobs(m),
{
    lemma_held_remove(m, k);
    lemma_held_remove(m.insert(k, h), k);
    assert(m.insert(k, h).remove(k) =~= m.remove(k));
}

// ---- Stored entries ----

struct CheckpointEntry<B> {
    key: CheckpointKey,
    id: CheckpointId,
    blob: B,
    pinned: bool,
    lru_stamp: u64,
}

spec fn key_view(k: CheckpointKey) -> KeyView {
    (k.0@, k.1, k.2)
}

spec fn held<B>(e: CheckpointEntry<B>) -> Held<B> {
    Held { id: e.id, blob: e.blob, pinned: e.pinned, stamp: e.lru_stamp as int }
}

spec fn has_key<B>(s: Seq<CheckpointEntry<B>>, k: KeyView) -> bool {
    exists|i: int| 0 <= i < s.len() && key_view((#[trigger] s[i]).key) == k
}

spec fn index_of<B>(s: Seq<CheckpointEntry<B>>, k: KeyView) -> int {
    choose|i: int| 0 <= i < s.len() && key_view((#[trigger] s[i]).key) == k
}

spec fn distinct<B>(s: Seq<CheckpointEntry<B>>) -> bool {
    forall|i: int, j: int|
        0 <= i < j < s.len() ==> key_view((#[trigger] s[i]).key) != key_view(
            (#[trigger] s[j]).key,
        )
}

spec fn to_map<B>(s: Seq<CheckpointEntry<B>>) -> Map<KeyView, Held<B>> {
    Map::new(|k: KeyView| has_key(s, k), |k: KeyView| held(s[index_of(s, k)]))
}

spec fn key_set(s: Seq<CheckpointKey>) -> Set<KeyView> {
    Set::new(|k: KeyView| exists|i: int| 0 <= i < s.len() && key_view(#[trigger] s[i]) == k)
}

proof fn lemma_map_at<B>(s: Seq<CheckpointEntry<B>>, i: int)
    requires
        distinct(s),
        0 <= i < s.len(),
    ensures
        to_map(s).contains_key(key_view(s[i].key)),
        to_map(s)[key_view(s[i].key)] == held(s[i]),
{
    let k = key_view(s[i].key);
    assert(has_key(s, k));
    let j = index_of(s, k);
    assert(0 <= j < s.len() && key_view(s[j].key) == k);
    if j < i {
    } else if i < j {
    }
}

proof fn lemma_map_remove<B>(s: Seq<CheckpointEntry<B>>, i: int)
    requires
        distinct(s),
        0 <= i < s.len(),
    ensures
        distinct(s.remove(i)),
        to_map(s.remove(i)) == to_map(s).remove(key_view(s[i].key)),
{
    let t = s.remove(i);
    let k0 = key_view(s[i].key);
    let ma = to_map(t);
    let mb = to_map(s).remove(k0);
    assert forall|a: int, b: int| 0 <= a < b < t.len() implies key_view((#[trigger] t[a]).key)
        != key_view((#[trigger] t[b]).key) by {
        let a0 = if a < i {
            a
        } else {
            a + 1
        };
        let b0 = if b < i {
            b
        } else {
            b + 1
        };
        assert(t[a] == s[a0] && t[b] == s[b0]);
    }
    assert forall|k: KeyView| #![trigger ma.dom().contains(k)] #![trigger mb.dom().contains(k)]
        ma.dom().contains(k) == mb.dom().contains(k) && (ma.dom().contains(k) ==> ma[k] == mb[k]) by {
        if has_key(t, k) {
            let j = index_of(t, k);
            let j0 = if j < i {
                j
            } else {
                j + 1
            };
            assert(t[j] == s[j0]);
            lemma_map_at(s, j0);
            lemma_map_at(t, j);
        } else if has_key(s, k) && k != k0 {
            let j0 = index_of(s, k);
            let j = if j0 < i {
                j0
            } else {
                j0 - 1
            };
            assert(t[j] == s[j0]);
            assert(has_key(t, k));
        }
    }
    assert(ma.dom() =~= mb.dom());
    assert(ma =~= mb);
}

proof fn lemma_map_push<B>(s: Seq<CheckpointEntry<B>>, e: CheckpointEntry<B>)
    requires
        distinct(s),
        !has_key(s, key_view(e.key)),
    ensures
        distinct(s.push(e)),
        to_map(s.push(e)) == to_map(s).insert(key_view(e.key), held(e)),
{
    let t = s.push(e);
    let ke = key_view(e.key);
    let ma = to_map(t);
    let mb = to_map(s).insert(ke, held(e));
    assert(t[s.len() as int] == e);
    assert forall|a: int, b: int| 0 <= a < b < t.len() implies key_view((#[trigger] t[a]).key)
        != key_view((#[trigger] t[b]).key) by {
        assert(t[a] == s[a]);
        if b < s.len() {
            assert(t[b] == s[b]);
        }
    }
    assert forall|k: KeyView| #![trigger ma.dom().contains(k)] #![trigger mb.dom().contains(k)]
        ma.dom().contains(k) == mb.dom().contains(k) && (ma.dom().contains(k) ==> ma[k] == mb[k]) by {
        if k == ke {
            lemma_map_at(t, s.len() as int);
        } else if has_key(s, k) {
            let j = index_of(s, k);
            assert(t[j] == s[j]);
            lemma_map_at(s, j);
            lemma_map_at(t, j);
        } else if has_key(t, k) {
            let j = index_of(t, k);
            assert(t[j] == s[j]);
            assert(has_key(s, k));
        }
    }
    assert(ma.dom() =~= mb.dom());
    assert(ma =~= mb);
}

proof fn lemma_map_update<B>(s: Seq<CheckpointEntry<B>>, i: int, e: CheckpointEntry<B>)
    requires
        distinct(s),
        0 <= i < s.len(),
        key_view(e.key) == key_view(s[i].key),
    ensures
        distinct(s.update(i, e)),
        to_map(s.update(i, e)) == to_map(s).insert(key_view(e.key), held(e)),
{
    let t = s.update(i, e);
    let ke = key_view(e.key);
    let ma = to_map(t);
    let mb = to_map(s).insert(ke, held(e));
    assert forall|a: int, b: int| 0 <= a < b < t.len() implies key_view((#[trigger] t[a]).key)
        != key_view((#[trigger] t[b]).key) by {
        assert(key_view(s[a].key) != key_view(s[b].key));
    }
    assert forall|k: KeyView| #![trigger ma.dom().contains(k)] #![trigger mb.dom().contains(k)]
        ma.dom().contains(k) == mb.dom().contains(k) && (ma.dom().contains(k) ==> ma[k] == mb[k]) by {
        if k == ke {
            lemma_map_at(t, i);
        } else if has_key(s, k) {
            let j = index_of(s, k);
            assert(t[j] == s[j]);
            lemma_map_at(s, j);
            lemma_map_at(t, j);
        } else if has_key(t, k) {
            let j = index_of(t, k);
            assert(t[j] == s[j]);
            assert(has_key(s, k));
        }
    }
    assert(ma.dom() =~= mb.dom());
    assert(ma =~= mb);
}

proof fn lemma_map_finite<B>(s: Seq<CheckpointEntry<B>>)
    requires
        distinct(s),
    ensures
        to_map(s).dom().finite(),
        to_map(s).dom().len() == s.len(),
    decreases s.len(),
{
    if s.len() == 0 {
        assert(to_map(s) =~= Map::empty());
    } else {
        let i = s.len() - 1;
        lemma_map_remove(s, i);
        lemma_map_finite(s.remove(i));
        lemma_map_at(s, i);
        assert(to_map(s).dom() =~= to_map(s).remove(key_view(s[i].key)).dom().insert(
            key_view(s[i].key),
        ));
    }
}

// ---- The pool ----

/// Byte-bounded pool of immutable checkpoints with least-recently-used
/// eviction. Pinned checkpoints survive eviction.
pub struct QwenCheckpointPool<B: CheckpointBlob> {
    entries: Vec<CheckpointEntry<B>>,
    evicted: Vec<CheckpointKey>,
    total_bytes: u64,
    max_bytes: u64,
    next_id: u64,
    lru_clock: u64,
}

impl<B: CheckpointBlob> View for QwenCheckpointPool<B> {
    type V = PoolView<B>;

    closed spec fn view(&self) -> PoolView<B> {
        PoolView {
            entries: to_map(self.entries@),
            evicted: key_set(self.evicted@),
            max_bytes: self.max_bytes as int,
            next_id: self.next_id as int,
            clock: self.lru_clock as int,
        }
    }
}

impl<B: CheckpointBlob> QwenCheckpointPool<B> {
    /// The invariant that constructors establish and methods keep.
    pub closed spec fn wf(&self) -> bool {
        &&& distinct(self.entries@)
        &&& self.total_bytes == held_bytes(self@.entries)
        &&& self@.valid()
    }

    /// A pool that meets its invariant holds a valid state.
    pub proof fn lemma_valid(&self)
        requires
            self.wf(),
        ensures
            self@.valid(),
    {
    }

    /// A pool with a byte capacity of `max_bytes`.
    pub fn new(max_bytes: u64) -> (pool: Self)
        ensures
            pool.wf(),
            pool@ == PoolView::<B>::fresh(max_bytes as int),
    {
        let pool = QwenCheckpointPool {
            entries: Vec::new(),
            evicted: Vec::new(),
            total_bytes: 0,
            max_bytes,
            next_id: 1,
            lru_clock: 0,
        };
        proof {
            assert(to_map(pool.entries@) =~= Map::empty());
            assert(key_set(pool.evicted@) =~= Set::empty());
        }
        pool
    }

    /// Byte capacity.
    pub fn max_bytes(&self) -> (n: u64)
        requires
            self.wf(),
        ensures
            n == self@.max_bytes,
    {
        self.max_bytes
    }

    /// Bytes held across all entries.
    pub fn total_bytes(&self) -> (n: u64)
        requires
            self.wf(),
        ensures
            n == held_bytes(self@.entries),
            n <= self@.max_bytes,
    {
        self.total_bytes
    }

    /// Number of entries.
    pub fn len(&self) -> (n: usize)
        requires
            self.wf(),
        ensures
            n == self@.entries.dom().len(),
    {
        proof {
            lemma_map_finite(self.entries@);
        }
        self.entries.len()
    }

    /// Whether the pool holds no entries.
    pub fn is_empty(&self) -> (r: bool)
        requires
            self.wf(),
        ensures
            r == (self@.entries.dom().len() == 0),
    {
        proof {
            lemma_map_finite(self.entries@);
        }
        self.entries.len() == 0
    }

    fn find(&self, domain: &CacheDomain, p: u64, fp: u64) -> (r: Option<usize>)
        requires
            distinct(self.entries@),
        ensures
            match r {
                Some(i) => {
                    &&& i < self.entries@.len()
                    &&& key_view(self.entries@[i as int].key) == (domain@, p, fp)
                    &&& self@.entries.contains_key((domain@, p, fp))
                    &&& self@.entries[(domain@, p, fp)] == held(self.entries@[i as int])
                },
                None => !self@.entries.contains_key((domain@, p, fp)) && !has_key(
                    self.entries@,
                    (domain@, p, fp),
                ),
            },
    {
        let mut i: usize = 0;
        while i < self.entries.len()
            invariant
                i <= self.entries@.len(),
                distinct(self.entries@),
                forall|j: int|
                    0 <= j < i ==> key_view((#[trigger] self.entries@[j]).key) != (domain@, p, fp),
            decreases self.entries@.len() - i,
        {
            let e = &self.entries[i];
            if e.key.1 == p && e.key.2 == fp && e.key.0.same(domain) {
                proof {
                    lemma_map_at(self.entries@, i as int);
                }
                return Some(i);
            }
            i = i + 1;
        }
        None
    }

    /// Whether `p` is a capture boundary: a multiple of the page size.
    fn is_aligned(p: u64) -> (r: bool)
        ensures
            r == aligned(p as int),
    {
        p == 0 || p % (PAGE_TOKENS as u64) == 0
    }

    /// Whether a checkpoint exists at `(domain, p, fp)`.
    pub fn contains(&self, domain: &CacheDomain, p: u64, fp: u64) -> (r: bool)
        requires
            self.wf(),
        ensures
            r == self@.entries.contains_key((domain@, p, fp)),
    {
        self.find(domain, p, fp).is_some()
    }

    /// The id of the checkpoint at `(domain, p, fp)`, if present.
    pub fn id_of(&self, domain: &CacheDomain, p: u64, fp: u64) -> (r: Option<CheckpointId>)
        requires
            self.wf(),
        ensures
            r == if self@.entries.contains_key((domain@, p, fp)) {
                Some(self@.entries[(domain@, p, fp)].id)
            } else {
                None
            },
    {
        match self.find(domain, p, fp) {
            Some(i) => Some(self.entries[i].id),
            None => None,
        }
    }

    /// Borrows the blob at `(domain, p, fp)` without refreshing its recency.
    pub fn peek(&self, domain: &CacheDomain, p: u64, fp: u64) -> (r: Option<&B>)
        requires
            self.wf(),
        ensures
            match r {
                Some(b) => self@.entries.contains_key((domain@, p, fp)) && *b == self@.entries[(
                    domain@,
                    p,
                    fp,
                )].blob,
                None => !self@.entries.contains_key((domain@, p, fp)),
            },
    {
        match self.find(domain, p, fp) {
            Some(i) => Some(&self.entries[i].blob),
            None => None,
        }
    }

    /// Whether the checkpoint at `(domain, p, fp)` is pinned.
    pub fn is_pinned(&self, domain: &CacheDomain, p: u64, fp: u64) -> (r: bool)
        requires
            self.wf(),
        ensures
            r == (self@.entries.contains_key((domain@, p, fp)) && self@.entries[(
                domain@,
                p,
                fp,
            )].pinned),
    {
        match self.find(domain, p, fp) {
            Some(i) => self.entries[i].pinned,
            None => false,
        }
    }
}

// ---- Validity under the pool's operations ----

proof fn lemma_valid_without<B: CheckpointBlob>(v: PoolView<B>, k: KeyView)
    requires
        v.valid(),
    ensures
        v.without(k).valid(),
        v.entries.contains_key(k) ==> held_bytes(v.without(k).entries) + v.entries[k].blob.size()
            == held_bytes(v.entries),
{
    if v.entries.contains_key(k) {
        lemma_held_remove(v.entries, k);
    }
}

proof fn lemma_valid_with_pin<B: CheckpointBlob>(v: PoolView<B>, k: KeyView, pinned: bool)
    requires
        v.valid(),
    ensures
        v.with_pin(k, pinned).valid(),
        held_bytes(v.with_pin(k, pinned).entries) == held_bytes(v.entries),
{
    if v.entries.contains_key(k) {
        lemma_held_update(v.entries, k, Held { pinned, ..v.entries[k] });
    }
}

proof fn lemma_valid_touched<B: CheckpointBlob>(v: PoolView<B>, k: KeyView)
    requires
        v.valid(),
    ensures
        v.touched(k).valid(),
        held_bytes(v.touched(k).entries) == held_bytes(v.entries),
{
    if v.entries.contains_key(k) {
        lemma_held_update(v.entries, k, Held { stamp: v.clock + 1, ..v.entries[k] });
    }
}

/// The entry that eviction takes next is the only one of its kind.
proof fn lemma_oldest_unique<B: CheckpointBlob>(v: PoolView<B>, k: KeyView)
    requires
        v.valid(),
        is_oldest(v.entries, k),
    ensures
        oldest(v.entries) == k,
{
    let o = oldest(v.entries);
    assert(is_oldest(v.entries, o));
    if o != k {
        assert(v.entries.contains_key(o) && v.entries.contains_key(k));
    }
}

impl<B: CheckpointBlob> QwenCheckpointPool<B> {
    /// Removes the entry at index `i`, accounting its bytes and recording the
    /// eviction; hands its blob back.
    fn evict_at(&mut self, i: usize) -> (blob: B)
        requires
            old(self).wf(),
            i < old(self).entries@.len(),
        ensures
            final(self).wf(),
            ({
                let k = key_view(old(self).entries@[i as int].key);
                &&& old(self)@.entries.contains_key(k)
                &&& final(self)@ == old(self)@.without(k)
                &&& blob == old(self)@.entries[k].blob
            }),
            final(self).max_bytes == old(self).max_bytes,
            final(self).total_bytes <= old(self).total_bytes,
    {
        let ghost v = self@;
        let ghost k = key_view(self.entries@[i as int].key);
        let ghost keys = self.evicted@;
        proof {
            lemma_map_at(self.entries@, i as int);
            lemma_map_remove(self.entries@, i as int);
            lemma_valid_without(v, k);
            lemma_held_nonnegative(v.without(k).entries);
        }
        let e = self.entries.remove(i);
        self.total_bytes = self.total_bytes - e.blob.bytes_len();
        self.evicted.push(e.key);
        proof {
            lemma_key_set_push(keys, e.key);
            assert(self@.entries =~= v.without(k).entries);
            assert(self@.evicted =~= v.without(k).evicted);
        }
        e.blob
    }

    /// Index of the oldest unpinned entry.
    fn find_oldest_unpinned(&self) -> (r: Option<usize>)
        requires
            self.wf(),
        ensures
            match r {
                Some(i) => i < self.entries@.len() && is_oldest(
                    self@.entries,
                    key_view(self.entries@[i as int].key),
                ),
                None => forall|k: KeyView| #[trigger]
                    self@.entries.contains_key(k) ==> self@.entries[k].pinned,
            },
    {
        let mut best: Option<usize> = None;
        let mut i: usize = 0;
        while i < self.entries.len()
            invariant
                i <= self.entries@.len(),
                match best {
                    Some(b) => {
                        &&& b < i
                        &&& !self.entries@[b as int].pinned
                        &&& forall|j: int|
                            0 <= j < i && !(#[trigger] self.entries@[j]).pinned
                                ==> self.entries@[b as int].lru_stamp
                                <= self.entries@[j].lru_stamp
                    },
                    None => forall|j: int| 0 <= j < i ==> (#[trigger] self.entries@[j]).pinned,
                },
            decreases self.entries@.len() - i,
        {
            if !self.entries[i].pinned {
                match best {
                    Some(b) => {
                        if self.entries[i].lru_stamp < self.entries[b].lru_stamp {
                            best = Some(i);
                        }
                    },
                    None => {
                        best = Some(i);
                    },
                }
            }
            i = i + 1;
        }
        proof {
            assert forall|k: KeyView| #[trigger] self@.entries.contains_key(k) implies exists|j: int|
                0 <= j < self.entries@.len() && key_view((#[trigger] self.entries@[j]).key) == k
                    && self@.entries[k] == held(self.entries@[j]) by {
                let j = index_of(self.entries@, k);
                assert(has_key(self.entries@, k));
                lemma_map_at(self.entries@, j);
            }
            if let Some(b) = best {
                lemma_map_at(self.entries@, b as int);
            }
        }
        best
    }

    fn is_evicted_key(k: &CheckpointKey, domain: &CacheDomain, p: u64, fp: u64) -> (r: bool)
        ensures
            r == (key_view(*k) == (domain@, p, fp)),
    {
        k.1 == p && k.2 == fp && k.0.same(domain)
    }

    /// Forgets that `(domain, p, fp)` was evicted.
    fn clear_eviction(&mut self, domain: &CacheDomain, p: u64, fp: u64)
        ensures
            final(self)@.evicted == old(self)@.evicted.remove((domain@, p, fp)),
            final(self)@ == (PoolView { evicted: final(self)@.evicted, ..old(self)@ }),
            final(self).entries == old(self).entries,
            final(self).total_bytes == old(self).total_bytes,
            final(self).max_bytes == old(self).max_bytes,
            final(self).next_id == old(self).next_id,
            final(self).lru_clock == old(self).lru_clock,
    {
        let ghost k0 = (domain@, p, fp);
        let ghost all = self.evicted@;
        let ghost me = *self;
        let mut rest: Vec<CheckpointKey> = Vec::new();
        std::mem::swap(&mut rest, &mut self.evicted);
        let mut kept: Vec<CheckpointKey> = Vec::new();
        proof {
            assert(key_set(all).remove(k0) =~= key_set(kept@).union(key_set(rest@).remove(k0)));
        }
        while rest.len() > 0
            invariant
                key_set(all).remove(k0) == key_set(kept@).union(key_set(rest@).remove(k0)),
                k0 == (domain@, p, fp),
            decreases rest@.len(),
        {
            let ghost rest0 = rest@;
            let ghost kept0 = kept@;
            match rest.pop() {
                Some(k) => {
                    proof {
                        assert(rest0 =~= rest@.push(k));
                        lemma_key_set_push(rest@, k);
                        lemma_key_set_push(kept@, k);
                    }
                    if !Self::is_evicted_key(&k, domain, p, fp) {
                        kept.push(k);
                    }
                    assert(key_set(kept0).union(key_set(rest0).remove(k0)) =~= key_set(
                        kept@,
                    ).union(key_set(rest@).remove(k0)));
                },
                None => {},
            }
        }
        assert(key_set(kept@).union(key_set(rest@).remove(k0)) =~= key_set(kept@));
        self.evicted = kept;
    }

    /// Evicts the checkpoint at `(domain, p, fp)`; hands its blob back, or
    /// `None` when there was no entry.
    pub fn evict(&mut self, domain: &CacheDomain, p: u64, fp: u64) -> (r: Option<B>)
        requires
            old(self).wf(),
        ensures
            final(self).wf(),
            final(self)@ == old(self)@.without((domain@, p, fp)),
            r == if old(self)@.entries.contains_key((domain@, p, fp)) {
                Some(old(self)@.entries[(domain@, p, fp)].blob)
            } else {
                None
            },
    {
        match self.find(domain, p, fp) {
            Some(i) => Some(self.evict_at(i)),
            None => None,
        }
    }

    fn set_pin(&mut self, domain: &CacheDomain, p: u64, fp: u64, pinned: bool) -> (r: bool)
        requires
            old(self).wf(),
        ensures
            final(self).wf(),
            final(self)@ == old(self)@.with_pin((domain@, p, fp), pinned),
            r == old(self)@.entries.contains_key((domain@, p, fp)),
    {
        let ghost v = self@;
        let ghost k = (domain@, p, fp);
        match self.find(domain, p, fp) {
            Some(i) => {
                let ghost s = self.entries@;
                self.entries[i].pinned = pinned;
                proof {
                    let e = self.entries@[i as int];
                    assert(self.entries@ =~= s.update(i as int, e));
                    lemma_map_update(s, i as int, e);
                    lemma_valid_with_pin(v, k, pinned);
                    assert(self@.entries =~= v.with_pin(k, pinned).entries);
                }
                true
            },
            None => false,
        }
    }

    /// Pins the checkpoint at `(domain, p, fp)` so that it survives eviction.
    /// Returns whether the entry was found.
    pub fn pin(&mut self, domain: &CacheDomain, p: u64, fp: u64) -> (r: bool)
        requires
            old(self).wf(),
        ensures
            final(self).wf(),
            final(self)@ == old(self)@.with_pin((domain@, p, fp), true),
            r == old(self)@.entries.contains_key((domain@, p, fp)),
    {
        self.set_pin(domain, p, fp, true)
    }

    /// Unpins the checkpoint at `(domain, p, fp)`. Returns whether the entry
    /// was found.
    pub fn unpin(&mut self, domain: &CacheDomain, p: u64, fp: u64) -> (r: bool)
        requires
            old(self).wf(),
        ensures
            final(self).wf(),
            final(self)@ == old(self)@.with_pin((domain@, p, fp), false),
            r == old(self)@.entries.contains_key((domain@, p, fp)),
    {
        self.set_pin(domain, p, fp, false)
    }

    /// Borrows the blob at `(domain, p, fp)`, refreshing its recency.
    pub fn get(&mut self, domain: &CacheDomain, p: u64, fp: u64) -> (r: Option<&B>)
        requires
            old(self).wf(),
            old(self)@.entries.contains_key((domain@, p, fp)) ==> old(self)@.clock < u64::MAX,
        ensures
            final(self).wf(),
            final(self)@ == old(self)@.touched((domain@, p, fp)),
            match r {
                Some(b) => old(self)@.entries.contains_key((domain@, p, fp)) && *b == old(
                    self,
                )@.entries[(domain@, p, fp)].blob,
                None => !old(self)@.entries.contains_key((domain@, p, fp)),
            },
    {
        let ghost v = self@;
        let ghost k = (domain@, p, fp);
        match self.find(domain, p, fp) {
            Some(i) => {
                let ghost s = self.entries@;
                self.lru_clock = self.lru_clock + 1;
                self.entries[i].lru_stamp = self.lru_clock;
                proof {
                    let e = self.entries@[i as int];
                    assert(self.entries@ =~= s.update(i as int, e));
                    lemma_map_update(s, i as int, e);
                    lemma_valid_touched(v, k);
                    assert(self@.entries =~= v.touched(k).entries);
                    assert(self@ == v.touched(k));
                }
                Some(&self.entries[i].blob)
            },
            None => None,
        }
    }
}

proof fn lemma_key_set_push(s: Seq<CheckpointKey>, k: CheckpointKey)
    ensures
        key_set(s.push(k)) == key_set(s).insert(key_view(k)),
{
    let t = s.push(k);
    assert(t[s.len() as int] == k);
    assert forall|x: KeyView| #[trigger] key_set(t).contains(x) == key_set(s).insert(
        key_view(k),
    ).contains(x) by {
        if key_set(s).contains(x) {
            let i = choose|i: int| 0 <= i < s.len() && key_view(#[trigger] s[i]) == x;
            assert(t[i] == s[i]);
        }
        if key_set(t).contains(x) && x != key_view(k) {
            let i = choose|i: int| 0 <= i < t.len() && key_view(#[trigger] t[i]) == x;
            assert(t[i] == s[i]);
        }
    }
    assert(key_set(t) =~= key_set(s).insert(key_view(k)));
}

// ---- Capture ----

/// Eviction only drops entries.
proof fn lemma_survivors_sub<B: CheckpointBlob>(m: Map<KeyView, Held<B>>, room: int)
    requires
        m.dom().finite(),
    ensures
        survivors(m, room).dom().finite(),
        forall|k: KeyView| #[trigger]
            survivors(m, room).contains_key(k) ==> m.contains_key(k) && survivors(m, room)[k]
                == m[k],
        forall|k: KeyView| #[trigger]
            m.contains_key(k) && m[k].pinned ==> survivors(m, room).contains_key(k),
    decreases m.dom().len(),
{
    if must_evict(m, room) {
        let o = oldest(m);
        assert(is_oldest(m, o));
        lemma_survivors_sub(m.remove(o), room);
        assert forall|k: KeyView| #[trigger]
            m.contains_key(k) && m[k].pinned implies survivors(m, room).contains_key(k) by {
            assert(m.remove(o).contains_key(k));
        }
        assert forall|k: KeyView| #[trigger]
            survivors(m, room).contains_key(k) implies m.contains_key(k) && survivors(m, room)[k]
            == m[k] by {
            assert(survivors(m.remove(o), room).contains_key(k));
        }
    }
}

/// The keys that eviction takes are those that do not survive it.
proof fn lemma_evictions_are_the_rest<B: CheckpointBlob>(m: Map<KeyView, Held<B>>, room: int)
    requires
        m.dom().finite(),
    ensures
        forall|k: KeyView| #[trigger]
            evictions(m, room).contains(k) <==> m.contains_key(k) && !survivors(
                m,
                room,
            ).contains_key(k),
    decreases m.dom().len(),
{
    lemma_survivors_sub(m, room);
    if must_evict(m, room) {
        let o = oldest(m);
        assert(is_oldest(m, o));
        let rest = evictions(m.remove(o), room);
        lemma_evictions_are_the_rest(m.remove(o), room);
        lemma_survivors_sub(m.remove(o), room);
        assert forall|k: KeyView| #[trigger]
            evictions(m, room).contains(k) <==> m.contains_key(k) && !survivors(
                m,
                room,
            ).contains_key(k) by {
            let all = evictions(m, room);
            if k == o {
                assert(all[0] == o);
            } else {
                if all.contains(k) {
                    let i = choose|i: int| 0 <= i < all.len() && all[i] == k;
                    assert(rest[i - 1] == k);
                }
                if rest.contains(k) {
                    let i = choose|i: int| 0 <= i < rest.len() && rest[i] == k;
                    assert(all[i + 1] == k);
                }
                assert(m.remove(o).contains_key(k) == m.contains_key(k));
            }
        }
    }
}

/// A capture keeps the pool valid.
proof fn lemma_valid_inserted<B: CheckpointBlob>(v: PoolView<B>, key: KeyView, blob: B)
    requires
        v.valid(),
        v.next_id < u64::MAX || v.entries.contains_key(key) || !v.accepts(key, blob.size()),
    ensures
        v.inserted(key, blob).valid(),
        v.accepts(key, blob.size()) ==> held_bytes(v.inserted(key, blob).entries) == held_bytes(
            survivors(v.entries.remove(key), v.room(blob.size())),
        ) + blob.size(),
{
    let base = v.entries.remove(key);
    let room = v.room(blob.size());
    let rest = survivors(base, room);
    let after = v.inserted(key, blob);
    if aligned(key.1 as int) {
        lemma_survivors_sub(base, room);
        lemma_evictions_are_the_rest(base, room);
        lemma_survivors_bytes(base, room);
        if v.entries.contains_key(key) {
            lemma_held_remove(v.entries, key);
        } else {
            assert(base =~= v.entries);
        }
        assert forall|k: KeyView| #[trigger] rest.contains_key(k) implies {
            &&& v.entries.contains_key(k)
            &&& k != key
            &&& v.entries[k] == rest[k]
            &&& !after.evicted.contains(k)
        } by {
            assert(base.contains_key(k));
            assert(!evictions(base, room).contains(k));
        }
        if v.accepts(key, blob.size()) {
            lemma_held_insert(rest, key, after.entries[key]);
            assert(!evictions(base, room).contains(key));
            assert forall|k: KeyView| #[trigger] after.entries.contains_key(k) && k != key implies {
                &&& rest.contains_key(k)
                &&& after.entries[k] == rest[k]
            } by {}
        }
    }
}

proof fn lemma_survivors_bytes<B: CheckpointBlob>(m: Map<KeyView, Held<B>>, room: int)
    requires
        m.dom().finite(),
    ensures
        0 <= held_bytes(survivors(m, room)) <= held_bytes(m),
    decreases m.dom().len(),
{
    lemma_held_nonnegative(m);
    if must_evict(m, room) {
        let o = oldest(m);
        assert(is_oldest(m, o));
        lemma_held_remove(m, o);
        lemma_survivors_bytes(m.remove(o), room);
    }
}

impl<B: CheckpointBlob> QwenCheckpointPool<B> {
    /// Captures `blob` at `(domain, p, fp)`, replacing what was stored there.
    ///
    /// The entry is stored only at a page-aligned boundary. If the pool cannot
    /// afford it, the oldest unpinned checkpoint is evicted until it fits; if
    /// every remaining entry is pinned and it still does not fit, the capture
    /// is refused. A replaced entry's id is kept, so references to it stay
    /// good. Returns the id, or the id 0 when the capture was refused, and
    /// every blob that the call displaced.
    pub fn insert(&mut self, domain: CacheDomain, p: u64, fp: u64, blob: B) -> (r: (
        CheckpointId,
        Vec<B>,
    ))
        requires
            old(self).wf(),
            aligned(p as int) ==> held_bytes(old(self)@.entries.remove((domain@, p, fp)))
                + blob.size() <= u64::MAX,
            old(self)@.accepts((domain@, p, fp), blob.size()) ==> old(self)@.clock < u64::MAX && (
            old(self)@.entries.contains_key((domain@, p, fp)) || old(self)@.next_id < u64::MAX),
        ensures
            final(self).wf(),
            final(self)@ == old(self)@.inserted((domain@, p, fp), blob),
            r.0.0 == if old(self)@.accepts((domain@, p, fp), blob.size()) {
                old(self)@.id_for((domain@, p, fp))
            } else {
                0
            },
            r.1@ == old(self)@.displaced((domain@, p, fp), blob),
    {
        let ghost v = self@;
        let ghost key = (domain@, p, fp);
        let ghost base = v.entries.remove(key);
        let mut displaced: Vec<B> = Vec::new();
        if !Self::is_aligned(p) {
            displaced.push(blob);
            assert(displaced@ =~= seq![blob]);
            return (CheckpointId::none(), displaced);
        }
        let bytes: u64 = blob.bytes_len();
        let ghost room = v.room(bytes);
        let mut reuse_id: Option<CheckpointId> = None;
        proof {
            lemma_valid_inserted(v, key, blob);
            if v.entries.contains_key(key) {
                lemma_held_remove(v.entries, key);
                lemma_held_nonnegative(base);
            } else {
                assert(base =~= v.entries);
            }
        }
        match self.find(&domain, p, fp) {
            Some(i) => {
                proof {
                    lemma_map_remove(self.entries@, i as int);
                }
                let e = self.entries.remove(i);
                self.total_bytes = self.total_bytes - e.blob.bytes_len();
                reuse_id = Some(e.id);
                displaced.push(e.blob);
            },
            None => {},
        }
        self.clear_eviction(&domain, p, fp);
        let ghost pre = displaced@;
        let ghost v1 = PoolView { entries: base, evicted: v.evicted.remove(key), ..v };
        let ghost mut done = Seq::<KeyView>::empty();
        proof {
            assert(self@.entries =~= base);
            assert(self@ == v1);
            assert(v1.valid());
            assert(evictions(base, room) =~= done + evictions(base, room));
            assert(done.map_values(|k: KeyView| base[k].blob) =~= Seq::<B>::empty());
            assert(done.to_set() =~= Set::empty());
            assert(v1.evicted.union(done.to_set()) =~= v1.evicted);
            assert(pre + Seq::<B>::empty() =~= pre);
            assert(pre =~= if v.entries.contains_key(key) {
                seq![v.entries[key].blob]
            } else {
                Seq::empty()
            });
        }
        while self.total_bytes + bytes > self.max_bytes
            invariant
                self.wf(),
                v.valid(),
                v1.valid(),
                v == old(self)@,
                v1 == (PoolView { entries: base, evicted: v.evicted.remove(key), ..v }),
                key == (domain@, p, fp),
                base == v.entries.remove(key),
                bytes == blob.size(),
                room == v.room(bytes),
                aligned(p as int),
                self.max_bytes == v.max_bytes,
                self.next_id == v.next_id,
                self.lru_clock == v.clock,
                self.total_bytes + bytes <= u64::MAX,
                base.dom().finite(),
                evictions(base, room) == done + evictions(self@.entries, room),
                survivors(base, room) == survivors(self@.entries, room),
                displaced@ == pre + done.map_values(|k: KeyView| base[k].blob),
                self@.evicted == v1.evicted.union(done.to_set()),
                forall|k: KeyView| #[trigger]
                    self@.entries.contains_key(k) ==> base.contains_key(k) && self@.entries[k]
                        == base[k],
                pre == if v.entries.contains_key(key) {
                    seq![v.entries[key].blob]
                } else {
                    Seq::empty()
                },
            decreases self.entries@.len(),
        {
            let ghost cur = self@;
            proof {
                lemma_map_finite(self.entries@);
            }
            match self.find_oldest_unpinned() {
                Some(i) => {
                    let ghost k = key_view(self.entries@[i as int].key);
                    proof {
                        lemma_oldest_unique(cur, k);
                        assert(must_evict(cur.entries, room));
                    }
                    let gone = self.evict_at(i);
                    displaced.push(gone);
                    proof {
                        lemma_map_finite(self.entries@);
                        assert(base.contains_key(k));
                        assert(done + (seq![k] + evictions(self@.entries, room)) =~= done.push(k)
                            + evictions(self@.entries, room));
                        let done0 = done;
                        done = done.push(k);
                        assert(displaced@ =~= pre + done.map_values(|k: KeyView| base[k].blob));
                        assert(done.to_set() =~= done0.to_set().insert(k)) by {
                            lemma_to_set_push(done0, k);
                        }
                        assert(self@.evicted =~= v1.evicted.union(done.to_set()));
                    }
                },
                None => {
                    proof {
                        assert(!must_evict(cur.entries, room)) by {
                            if must_evict(cur.entries, room) {
                                let o = oldest(cur.entries);
                                assert(is_oldest(cur.entries, o));
                            }
                        }
                        assert(done + Seq::<KeyView>::empty() =~= done);
                    }
                    displaced.push(blob);
                    proof {
                        assert(self@.evicted =~= v.inserted(key, blob).evicted);
                        assert(self@ == v.inserted(key, blob));
                        assert(displaced@ =~= v.displaced(key, blob));
                    }
                    return (CheckpointId::none(), displaced);
                },
            }
        }
        proof {
            assert(!must_evict(self@.entries, room));
            assert(done + Seq::<KeyView>::empty() =~= done);
            assert(displaced@ =~= v.displaced(key, blob));
            assert(v.accepts(key, bytes));
            lemma_valid_inserted(v, key, blob);
        }
        let id: CheckpointId = match reuse_id {
            Some(id) => id,
            None => {
                let id = CheckpointId(self.next_id);
                self.next_id = self.next_id + 1;
                id
            },
        };
        self.lru_clock = self.lru_clock + 1;
        self.total_bytes = self.total_bytes + bytes;
        let stamp: u64 = self.lru_clock;
        let entry = CheckpointEntry {
            key: (domain, p, fp),
            id,
            blob,
            pinned: false,
            lru_stamp: stamp,
        };
        proof {
            let s = self.entries@;
            assert(!to_map(s).contains_key(key));
            lemma_map_push(s, entry);
        }
        self.entries.push(entry);
        proof {
            assert(self@.entries =~= v.inserted(key, blob).entries);
            assert(self@.evicted =~= v.inserted(key, blob).evicted);
            assert(self@ == v.inserted(key, blob));
        }
        (id, displaced)
    }
}

proof fn lemma_to_set_push(s: Seq<KeyView>, k: KeyView)
    ensures
        s.push(k).to_set() == s.to_set().insert(k),
{
    let t = s.push(k);
    assert(t[s.len() as int] == k);
    assert forall|x: KeyView| #[trigger] t.to_set().contains(x) == s.to_set().insert(k).contains(
        x,
    ) by {
        if s.contains(x) {
            let i = choose|i: int| 0 <= i < s.len() && s[i] == x;
            assert(t[i] == x);
        }
        if t.contains(x) && x != k {
            let i = choose|i: int| 0 <= i < t.len() && t[i] == x;
            assert(s[i] == x);
        }
    }
    assert(t.to_set() =~= s.to_set().insert(k));
}

// ---- Affordability and draining ----

spec fn seq_bytes<B: CheckpointBlob>(s: Seq<CheckpointEntry<B>>) -> int
    decreases s.len(),
{
    if s.len() == 0 {
        0
    } else {
        seq_bytes(s.drop_last()) + s.last().blob.size()
    }
}

spec fn seq_blobs<B>(s: Seq<CheckpointEntry<B>>) -> Seq<B> {
    s.map_values(|e: CheckpointEntry<B>| e.blob)
}

proof fn lemma_prefix_map<B: CheckpointBlob>(s: Seq<CheckpointEntry<B>>, i: int)
    requires
        distinct(s),
        0 <= i < s.len(),
    ensures
        distinct(s.take(i)),
        distinct(s.take(i + 1)),
        !has_key(s.take(i), key_view(s[i].key)),
        to_map(s.take(i + 1)) == to_map(s.take(i)).insert(key_view(s[i].key), held(s[i])),
{
    let t = s.take(i);
    assert forall|a: int, b: int| 0 <= a < b < t.len() implies key_view((#[trigger] t[a]).key)
        != key_view((#[trigger] t[b]).key) by {
        assert(t[a] == s[a] && t[b] == s[b]);
    }
    if has_key(t, key_view(s[i].key)) {
        let j = index_of(t, key_view(s[i].key));
        assert(t[j] == s[j]);
    }
    lemma_map_push(t, s[i]);
    assert(s.take(i + 1) =~= t.push(s[i]));
}

proof fn lemma_seq_bytes<B: CheckpointBlob>(s: Seq<CheckpointEntry<B>>)
    requires
        distinct(s),
    ensures
        held_bytes(to_map(s)) == seq_bytes(s),
        held_blobs(to_map(s)) == seq_blobs(s).to_multiset(),
    decreases s.len(),
{
    if s.len() == 0 {
        assert(to_map(s) =~= Map::empty());
        assert(seq_blobs(s) =~= Seq::empty());
        seq_blobs(s).to_multiset_ensures();
        assert(seq_blobs(s).to_multiset() =~= Multiset::empty());
    } else {
        let i = s.len() - 1;
        lemma_prefix_map(s, i);
        assert(s.take(i) =~= s.drop_last());
        assert(s.take(i + 1) =~= s);
        lemma_seq_bytes(s.drop_last());
        lemma_map_finite(s.drop_last());
        lemma_held_insert(to_map(s.drop_last()), key_view(s[i].key), held(s[i]));
        seq_blobs(s.drop_last()).to_multiset_ensures();
        assert(seq_blobs(s) =~= seq_blobs(s.drop_last()).push(s[i].blob));
    }
}

proof fn lemma_seq_bytes_monotone<B: CheckpointBlob>(s: Seq<CheckpointEntry<B>>, i: int)
    requires
        0 <= i <= s.len(),
    ensures
        0 <= seq_bytes(s.take(i)) <= seq_bytes(s),
    decreases s.len(),
{
    if i == s.len() {
        assert(s.take(i) =~= s);
        if i > 0 {
            lemma_seq_bytes_monotone(s.drop_last(), i - 1);
            assert(s.drop_last().take(i - 1) =~= s.drop_last());
        }
    } else {
        lemma_seq_bytes_monotone(s.drop_last(), i);
        assert(s.drop_last().take(i) =~= s.take(i));
    }
}

impl<B: CheckpointBlob> PoolView<B> {
    /// Bytes that no capture at `key` can free: those of the other pinned
    /// entries.
    pub open spec fn pinned_floor(self, key: KeyView) -> int {
        held_bytes(pinned_only(self.entries.remove(key)))
    }

    /// The pinned entries at other keys leave room for `bytes` at `key`. A sum
    /// past the largest word is taken for that word.
    pub open spec fn affordable(self, key: KeyView, bytes: u64) -> bool {
        let need = self.pinned_floor(key) + bytes;
        if need > u64::MAX {
            u64::MAX == self.max_bytes
        } else {
            need <= self.max_bytes
        }
    }
}

impl<B: CheckpointBlob> QwenCheckpointPool<B> {
    /// Whether a blob of `bytes` could be captured at `key` within the ceiling,
    /// counting the entry it would replace and every unpinned entry as freed.
    pub fn can_afford(&self, key: &CheckpointKey, bytes: u64) -> (r: bool)
        requires
            self.wf(),
        ensures
            r == self@.affordable((key.0@, key.1, key.2), bytes),
    {
        let ghost k0 = (key.0@, key.1, key.2);
        let ghost s = self.entries@;
        let mut floor: u64 = 0;
        let mut i: usize = 0;
        proof {
            lemma_seq_bytes(s);
            assert(s.take(0) =~= Seq::empty());
            assert(pinned_only(to_map(s.take(0)).remove(k0)) =~= Map::empty());
        }
        while i < self.entries.len()
            invariant
                i <= s.len(),
                s == self.entries@,
                distinct(s),
                k0 == (key.0@, key.1, key.2),
                seq_bytes(s) == self.total_bytes,
                floor == held_bytes(pinned_only(to_map(s.take(i as int)).remove(k0))),
                pinned_only(to_map(s.take(i as int)).remove(k0)).dom().finite(),
                floor <= seq_bytes(s.take(i as int)),
            decreases s.len() - i,
        {
            let e = &self.entries[i];
            proof {
                lemma_prefix_map(s, i as int);
                lemma_seq_bytes_monotone(s, i + 1);
                assert(s.take(i + 1).drop_last() =~= s.take(i as int));
                let k = key_view(s[i as int].key);
                let m0 = to_map(s.take(i as int));
                let m1 = to_map(s.take(i + 1));
                let p0 = pinned_only(m0.remove(k0));
                let p1 = pinned_only(m1.remove(k0));
                assert(!m0.contains_key(k));
                if e.pinned && k != k0 {
                    assert(p1 =~= p0.insert(k, held(*e)));
                    lemma_held_insert(p0, k, held(*e));
                } else {
                    assert(p1 =~= p0);
                }
            }
            if e.pinned && !Self::is_evicted_key(&e.key, &key.0, key.1, key.2) {
                floor = floor + e.blob.bytes_len();
            }
            i = i + 1;
        }
        assert(s.take(i as int) =~= s);
        floor.saturating_add(bytes) <= self.max_bytes
    }

    /// Takes every stored blob out and leaves the pool without entries. Which
    /// keys were evicted earlier stays known.
    pub fn drain_blobs(&mut self) -> (r: Vec<B>)
        requires
            old(self).wf(),
        ensures
            final(self).wf(),
            final(self)@ == (PoolView {
                entries: Map::<KeyView, Held<B>>::empty(),
                ..old(self)@
            }),
            r@.to_multiset() == held_blobs(old(self)@.entries),
    {
        let ghost s = self.entries@;
        let mut entries: Vec<CheckpointEntry<B>> = Vec::new();
        std::mem::swap(&mut entries, &mut self.entries);
        self.total_bytes = 0;
        let mut out: Vec<B> = Vec::new();
        proof {
            lemma_seq_bytes(s);
            assert(s.take(s.len() as int) =~= s);
            out@.to_multiset_ensures();
            assert(out@.to_multiset().add(seq_blobs(s).to_multiset()) =~= seq_blobs(
                s,
            ).to_multiset());
        }
        while entries.len() > 0
            invariant
                entries@.len() <= s.len(),
                entries@ == s.take(entries@.len() as int),
                out@.to_multiset().add(seq_blobs(entries@).to_multiset()) == seq_blobs(
                    s,
                ).to_multiset(),
            decreases entries@.len(),
        {
            let ghost e0 = entries@;
            match entries.pop() {
                Some(e) => {
                    proof {
                        assert(e0 =~= entries@.push(e));
                        seq_blobs(entries@).to_multiset_ensures();
                        assert(seq_blobs(e0) =~= seq_blobs(entries@).push(e.blob));
                        out@.to_multiset_ensures();
                    }
                    out.push(e.blob);
                    proof {
                        assert(out@.to_multiset().add(seq_blobs(entries@).to_multiset())
                            =~= seq_blobs(s).to_multiset());
                        assert(entries@ =~= s.take(entries@.len() as int));
                    }
                },
                None => {},
            }
        }
        proof {
            seq_blobs(entries@).to_multiset_ensures();
            assert(seq_blobs(entries@) =~= Seq::empty());
            assert(out@.to_multiset() =~= seq_blobs(s).to_multiset());
            assert(to_map(self.entries@) =~= Map::empty());
        }
        out
    }

    /// Whether a checkpoint of `domain` at any boundary in `(0, max_p]` was
    /// evicted, whatever its prefix.
    fn was_evicted(&self, domain: &CacheDomain, max_p: u64) -> (r: bool)
        ensures
            r == self@.evicted_up_to(domain@, max_p),
    {
        let mut i: usize = 0;
        while i < self.evicted.len()
            invariant
                i <= self.evicted@.len(),
                forall|j: int|
                    0 <= j < i ==> !(key_view(#[trigger] self.evicted@[j]).0 == domain@ && 0
                        < self.evicted@[j].1 <= max_p),
            decreases self.evicted@.len() - i,
        {
            let k = &self.evicted[i];
            if k.1 <= max_p && k.1 > 0 && k.0.same(domain) {
                assert(self@.evicted.contains(key_view(self.evicted@[i as int])));
                return true;
            }
            i = i + 1;
        }
        proof {
            assert forall|k: KeyView| #[trigger] self@.evicted.contains(k) implies !(k.0 == domain@
                && 0 < k.1 <= max_p) by {
                let j = choose|j: int|
                    0 <= j < self.evicted@.len() && key_view(#[trigger] self.evicted@[j]) == k;
            }
        }
        false
    }
}

// ---- Resume planning ----

impl<B: CheckpointBlob> PoolView<B> {
    /// Some checkpoint of `domain` with a boundary in `(0, max_p]` was evicted.
    pub open spec fn evicted_up_to(self, domain: DomainView, max_p: u64) -> bool {
        exists|k: KeyView| #[trigger]
            self.evicted.contains(k) && k.0 == domain && 0 < k.1 <= max_p
    }

    /// The checkpoint key of the first `p` of `tokens`.
    pub open spec fn prefix_key(domain: DomainView, tokens: Seq<u32>, p: int) -> KeyView {
        (domain, p as u64, token_fingerprint(tokens.take(p)))
    }

    /// A checkpoint of exactly the first `p` of `tokens` is stored.
    pub open spec fn has_prefix(self, domain: DomainView, tokens: Seq<u32>, p: int) -> bool {
        0 <= p <= tokens.len() && self.entries.contains_key(Self::prefix_key(domain, tokens, p))
    }

    /// The largest stored boundary of `tokens` among the first `pages` page
    /// boundaries past 0; 0 if there is none.
    pub open spec fn largest_boundary(
        self,
        domain: DomainView,
        tokens: Seq<u32>,
        pages: int,
    ) -> int
        decreases pages,
    {
        if pages <= 0 {
            0
        } else if self.has_prefix(domain, tokens, pages * PAGE_TOKENS) {
            pages * PAGE_TOKENS
        } else {
            self.largest_boundary(domain, tokens, pages - 1)
        }
    }

    /// Bytes to restore at boundary `p`: none for the initial state.
    pub open spec fn restore_bytes(self, domain: DomainView, tokens: Seq<u32>, p: int) -> u64 {
        if p == 0 {
            0
        } else {
            self.entries[Self::prefix_key(domain, tokens, p)].blob.size()
        }
    }

    /// The boundary to resume at, with how the last token is handled: the
    /// largest stored one within what is resumable, or the one before it when
    /// the prompt ends exactly there. An empty prompt resumes at the initial
    /// state.
    pub open spec fn resume_boundary(
        self,
        domain: DomainView,
        tokens: Seq<u32>,
        resumable: u64,
    ) -> Option<(int, LastTokenHandling)> {
        let best = self.largest_boundary(domain, tokens, resumable as int / PAGE_TOKENS as int);
        if tokens.len() == 0 {
            Some((0, LastTokenHandling::SuffixRecompute))
        } else if best > 0 && best == tokens.len() {
            Some(
                (
                    self.largest_boundary(domain, tokens, best / PAGE_TOKENS as int - 1),
                    LastTokenHandling::EarlierBoundary,
                ),
            )
        } else if best > 0 {
            Some((best, LastTokenHandling::SuffixRecompute))
        } else {
            None
        }
    }

    /// The resume plan, or why there is none.
    pub open spec fn resume_plan(
        self,
        domain: DomainView,
        tokens: Seq<u32>,
        resumable: u64,
        drafter: DrafterDecision,
    ) -> Result<ResumePlan, MissReason> {
        match self.resume_boundary(domain, tokens, resumable) {
            Some((p, last_token)) => Ok(
                ResumePlan {
                    boundary: p as u64,
                    bundle: whole_bundle(drafter),
                    byte_cost: self.restore_bytes(domain, tokens, p),
                    last_token,
                },
            ),
            None => if self.evicted_up_to(domain, resumable) {
                Err(MissReason::Evicted)
            } else {
                Err(MissReason::NoCheckpoint)
            },
        }
    }
}

/// A bundle with every part of the state at hand.
pub open spec fn whole_bundle(drafter: DrafterDecision) -> ResumeBundle {
    ResumeBundle {
        attention_pages: true,
        dn_matrices_scales: true,
        conv_rings: true,
        ef_residual: true,
        drafter,
    }
}

/// A bundle with every required part of the state. A stored checkpoint covers
/// the recurrent matrices, scales, convolution rings and residuals; the prefix
/// index guarantees the attention pages up to what it calls resumable.
fn complete_bundle(drafter: DrafterDecision) -> (b: ResumeBundle)
    ensures
        b == whole_bundle(drafter),
{
    ResumeBundle {
        attention_pages: true,
        dn_matrices_scales: true,
        conv_rings: true,
        ef_residual: true,
        drafter,
    }
}

/// The largest stored boundary of `tokens` among the first `pages` page
/// boundaries past 0.
fn find_largest_pool_checkpoint<B: CheckpointBlob>(
    pool: &QwenCheckpointPool<B>,
    domain: &CacheDomain,
    tokens: &[u32],
    pages: u64,
) -> (r: Option<u64>)
    requires
        pool.wf(),
        pages * PAGE_TOKENS <= u64::MAX,
    ensures
        ({
            let best = pool@.largest_boundary(domain@, tokens@, pages as int);
            match r {
                Some(p) => p == best && best > 0,
                None => best == 0,
            }
        }),
{
    let page: u64 = PAGE_TOKENS as u64;
    let mut left: u64 = pages;
    while left > 0
        invariant
            pool.wf(),
            page == PAGE_TOKENS,
            left <= pages,
            pages * PAGE_TOKENS <= u64::MAX,
            pool@.largest_boundary(domain@, tokens@, pages as int) == pool@.largest_boundary(
                domain@,
                tokens@,
                left as int,
            ),
        decreases left,
    {
        let p: u64 = left * page;
        if p <= tokens.len() as u64 {
            let prefix = vstd::slice::slice_subrange(tokens, 0, p as usize);
            assert(prefix@ =~= tokens@.take(p as int));
            if pool.contains(domain, p, prefix_fingerprint(prefix)) {
                return Some(p);
            }
        }
        left = left - 1;
    }
    None
}

proof fn lemma_largest_boundary<B: CheckpointBlob>(
    v: PoolView<B>,
    domain: DomainView,
    tokens: Seq<u32>,
    pages: int,
)
    requires
        0 <= pages,
    ensures
        ({
            let best = v.largest_boundary(domain, tokens, pages);
            &&& 0 <= best <= pages * PAGE_TOKENS
            &&& aligned(best)
            &&& best <= tokens.len()
            &&& best > 0 ==> v.has_prefix(domain, tokens, best)
        }),
    decreases pages,
{
    if pages > 0 {
        lemma_largest_boundary(v, domain, tokens, pages - 1);
    }
}

fn plan_resume_inner<B: CheckpointBlob>(
    pool: &QwenCheckpointPool<B>,
    domain: &CacheDomain,
    prompt_tokens: &[u32],
    lookup: &PrefixLookup,
    drafter: DrafterDecision,
) -> (r: Result<ResumePlan, MissReason>)
    requires
        pool.wf(),
    ensures
        r == pool@.resume_plan(domain@, prompt_tokens@, lookup.resumable_tokens, drafter),
{
    let page: u64 = PAGE_TOKENS as u64;
    let prompt_len: u64 = prompt_tokens.len() as u64;
    let resumable: u64 = lookup.resumable_tokens;
    let best_p: Option<u64> = find_largest_pool_checkpoint(
        pool,
        domain,
        prompt_tokens,
        resumable / page,
    );
    proof {
        lemma_largest_boundary(pool@, domain@, prompt_tokens@, resumable as int / PAGE_TOKENS as int);
    }
    let (boundary, last_token): (u64, LastTokenHandling) = match best_p {
        Some(p) => {
            if prompt_len == p {
                // The prompt ends on the boundary: an earlier checkpoint, or
                // the initial state, so that the last token can be run.
                proof {
                    lemma_largest_boundary(
                        pool@,
                        domain@,
                        prompt_tokens@,
                        p as int / PAGE_TOKENS as int - 1,
                    );
                }
                match find_largest_pool_checkpoint(pool, domain, prompt_tokens, p / page - 1) {
                    Some(q) => (q, LastTokenHandling::EarlierBoundary),
                    None => (0, LastTokenHandling::EarlierBoundary),
                }
            } else {
                (p, LastTokenHandling::SuffixRecompute)
            }
        },
        None => {
            if prompt_len == 0 {
                (0, LastTokenHandling::SuffixRecompute)
            } else if pool.was_evicted(domain, resumable) {
                return Err(MissReason::Evicted);
            } else {
                return Err(MissReason::NoCheckpoint);
            }
        },
    };
    let byte_cost: u64 = if boundary == 0 {
        0
    } else {
        let prefix = vstd::slice::slice_subrange(prompt_tokens, 0, boundary as usize);
        assert(prefix@ =~= prompt_tokens@.take(boundary as int));
        match pool.peek(domain, boundary, prefix_fingerprint(prefix)) {
            Some(b) => b.bytes_len(),
            None => 0,
        }
    };
    match ResumePlan::new(boundary, complete_bundle(drafter), byte_cost, last_token) {
        Ok(plan) => Ok(plan),
        Err(_) => Err(MissReason::NoCheckpoint),
    }
}

/// Plans a resume from the checkpoint pool.
///
/// Chooses the largest page-aligned boundary within what the index calls
/// resumable that has a checkpoint of exactly this prompt's prefix. A prompt
/// that ends on that boundary takes an earlier one, or the initial state: the
/// state of the whole prompt is never restored to run its last token again. An
/// empty prompt resumes at the initial state, whatever was matched.
/// The chosen checkpoint is pinned, so an unrelated capture cannot evict it
/// before it is restored.
pub fn plan_resume<B: CheckpointBlob>(
    pool: &mut QwenCheckpointPool<B>,
    domain: &CacheDomain,
    prompt_tokens: &[u32],
    lookup: &PrefixLookup,
    drafter: DrafterDecision,
) -> (r: Result<ResumePlan, MissReason>)
    requires
        old(pool).wf(),
    ensures
        final(pool).wf(),
        r == old(pool)@.resume_plan(domain@, prompt_tokens@, lookup.resumable_tokens, drafter),
        prompt_tokens@.len() == 0 ==> r is Ok && r->Ok_0.boundary == 0 && final(pool)@ == old(
            pool,
        )@,
        final(pool)@ == match r {
            Ok(plan) if plan.boundary > 0 => old(pool)@.with_pin(
                PoolView::<B>::prefix_key(domain@, prompt_tokens@, plan.boundary as int),
                true,
            ),
            _ => old(pool)@,
        },
{
    let r: Result<ResumePlan, MissReason> = plan_resume_inner(
        pool,
        domain,
        prompt_tokens,
        lookup,
        drafter,
    );
    proof {
        law_plan_boundary(
            pool@,
            domain@,
            prompt_tokens@,
            lookup.resumable_tokens,
            drafter,
        );
    }
    match &r {
        Ok(plan) => {
            if plan.boundary > 0 && plan.boundary <= prompt_tokens.len() as u64 {
                let prefix = vstd::slice::slice_subrange(prompt_tokens, 0, plan.boundary as usize);
                assert(prefix@ =~= prompt_tokens@.take(plan.boundary as int));
                let found: bool = pool.pin(domain, plan.boundary, prefix_fingerprint(prefix));
                assert(found);
            }
        },
        Err(_) => {},
    }
    r
}

// ---- Laws ----

/// A planned boundary is page-aligned and within what is resumable, a
/// checkpoint of exactly this prompt's prefix is stored there unless it is the
/// initial state, and it leaves at least one prompt token to run, unless there
/// is none.
pub proof fn law_plan_boundary<B: CheckpointBlob>(
    v: PoolView<B>,
    domain: DomainView,
    tokens: Seq<u32>,
    resumable: u64,
    drafter: DrafterDecision,
)
    ensures
        match v.resume_plan(domain, tokens, resumable, drafter) {
            Ok(plan) => {
                &&& aligned(plan.boundary as int)
                &&& plan.boundary <= resumable
                &&& plan.boundary > 0 ==> v.has_prefix(domain, tokens, plan.boundary as int)
                &&& plan.boundary < tokens.len() || (plan.boundary == 0 && tokens.len() == 0)
            },
            Err(_) => true,
        },
{
    let page = PAGE_TOKENS as int;
    let pages = resumable as int / page;
    lemma_largest_boundary(v, domain, tokens, pages);
    let best = v.largest_boundary(domain, tokens, pages);
    if best > 0 {
        lemma_largest_boundary(v, domain, tokens, best / page - 1);
    }
}

/// A pinned checkpoint survives every capture at another key, unchanged.
pub proof fn law_pinned_survives_capture<B: CheckpointBlob>(
    v: PoolView<B>,
    key: KeyView,
    blob: B,
    k: KeyView,
)
    requires
        v.valid(),
        v.entries.contains_key(k),
        v.entries[k].pinned,
        k != key,
    ensures
        v.inserted(key, blob).entries.contains_key(k),
        v.inserted(key, blob).entries[k] == v.entries[k],
{
    let base = v.entries.remove(key);
    lemma_survivors_sub(base, v.room(blob.size()));
    assert(base.contains_key(k));
}

/// A checkpoint that a plan has chosen is still there, with the same state,
/// after any capture at another key.
pub proof fn law_planned_checkpoint_survives_capture<B: CheckpointBlob>(
    v: PoolView<B>,
    domain: DomainView,
    tokens: Seq<u32>,
    resumable: u64,
    drafter: DrafterDecision,
    key: KeyView,
    blob: B,
)
    requires
        v.valid(),
        v.resume_plan(domain, tokens, resumable, drafter) is Ok,
        v.resume_plan(domain, tokens, resumable, drafter)->Ok_0.boundary > 0,
        key != PoolView::<B>::prefix_key(
            domain,
            tokens,
            v.resume_plan(domain, tokens, resumable, drafter)->Ok_0.boundary as int,
        ),
    ensures
        ({
            let p = v.resume_plan(domain, tokens, resumable, drafter)->Ok_0.boundary as int;
            let k = PoolView::<B>::prefix_key(domain, tokens, p);
            let after = v.with_pin(k, true).inserted(key, blob);
            after.has_prefix(domain, tokens, p) && after.entries[k].blob == v.entries[k].blob
        }),
{
    let p = v.resume_plan(domain, tokens, resumable, drafter)->Ok_0.boundary as int;
    let k = PoolView::<B>::prefix_key(domain, tokens, p);
    law_plan_boundary(v, domain, tokens, resumable, drafter);
    lemma_valid_with_pin(v, k, true);
    law_pinned_survives_capture(v.with_pin(k, true), key, blob, k);
}

/// Eviction goes by age: whatever a capture evicts is older than every unpinned
/// entry that it leaves.
pub proof fn law_evicts_oldest_first<B: CheckpointBlob>(
    v: PoolView<B>,
    key: KeyView,
    blob: B,
    gone: KeyView,
    left: KeyView,
)
    requires
        v.valid(),
        gone != key,
        left != key,
        v.entries.contains_key(gone),
        v.entries.contains_key(left),
        !v.entries[left].pinned,
        !v.inserted(key, blob).entries.contains_key(gone),
        v.inserted(key, blob).entries.contains_key(left),
    ensures
        !v.entries[gone].pinned,
        v.entries[gone].stamp < v.entries[left].stamp,
{
    let base = v.entries.remove(key);
    let room = v.room(blob.size());
    assert(base.contains_key(gone) && base.contains_key(left));
    lemma_survivors_sub(base, room);
    lemma_evicted_older(base, room, gone, left);
    assert(base[gone].stamp != base[left].stamp);
}

proof fn lemma_evicted_older<B: CheckpointBlob>(
    m: Map<KeyView, Held<B>>,
    room: int,
    gone: KeyView,
    left: KeyView,
)
    requires
        m.dom().finite(),
        m.contains_key(gone),
        m.contains_key(left),
        !m[left].pinned,
        !survivors(m, room).contains_key(gone),
        survivors(m, room).contains_key(left),
    ensures
        !m[gone].pinned,
        m[gone].stamp <= m[left].stamp,
    decreases m.dom().len(),
{
    lemma_survivors_sub(m, room);
    if must_evict(m, room) {
        let o = oldest(m);
        assert(is_oldest(m, o));
        lemma_survivors_sub(m.remove(o), room);
        if o != gone {
            assert(survivors(m.remove(o), room).contains_key(left));
            assert(m.remove(o).contains_key(left));
            lemma_evicted_older(m.remove(o), room, gone, left);
        }
    }
}

/// No blob is lost: what the pool holds after a capture, together with what the
/// capture hands back, is what it held before and the captured blob.
pub proof fn law_blobs_conserved<B: CheckpointBlob>(v: PoolView<B>, key: KeyView, blob: B)
    requires
        v.valid(),
    ensures
        held_blobs(v.inserted(key, blob).entries).add(v.displaced(key, blob).to_multiset())
            == held_blobs(v.entries).insert(blob),
{
    let base = v.entries.remove(key);
    let room = v.room(blob.size());
    let rest = survivors(base, room);
    let seen = evictions(base, room).map_values(|k: KeyView| base[k].blob);
    if !aligned(key.1 as int) {
        lemma_one_blob(blob);
        assert(held_blobs(v.entries).add(seq![blob].to_multiset()) =~= held_blobs(
            v.entries,
        ).insert(blob));
    } else {
        lemma_evicted_blobs(base, base, room);
        let head = if v.entries.contains_key(key) {
            seq![v.entries[key].blob]
        } else {
            Seq::empty()
        };
        let tail = if v.accepts(key, blob.size()) {
            Seq::empty()
        } else {
            seq![blob]
        };
        assert(v.displaced(key, blob) == head + seen + tail);
        vstd::seq_lib::lemma_multiset_commutative(head + seen, tail);
        vstd::seq_lib::lemma_multiset_commutative(head, seen);
        lemma_survivors_sub(base, room);
        if v.entries.contains_key(key) {
            lemma_held_remove(v.entries, key);
            lemma_one_blob(v.entries[key].blob);
        } else {
            assert(base =~= v.entries);
            Seq::<B>::empty().to_multiset_ensures();
        }
        Seq::<B>::empty().to_multiset_ensures();
        if v.accepts(key, blob.size()) {
            lemma_held_insert(rest, key, v.inserted(key, blob).entries[key]);
        } else {
            lemma_one_blob(blob);
        }
        assert(held_blobs(v.inserted(key, blob).entries).add(
            v.displaced(key, blob).to_multiset(),
        ) =~= held_blobs(v.entries).insert(blob));
    }
}

proof fn lemma_one_blob<B>(b: B)
    ensures
        seq![b].to_multiset() == Multiset::empty().insert(b),
{
    Seq::<B>::empty().to_multiset_ensures();
    assert(seq![b] =~= Seq::empty().push(b));
    assert(Seq::<B>::empty().to_multiset() =~= Multiset::empty());
}

proof fn lemma_evicted_blobs<B: CheckpointBlob>(
    all: Map<KeyView, Held<B>>,
    m: Map<KeyView, Held<B>>,
    room: int,
)
    requires
        m.dom().finite(),
        forall|k: KeyView| #[trigger] m.contains_key(k) ==> m[k] == all[k],
    ensures
        held_blobs(survivors(m, room)).add(
            evictions(m, room).map_values(|k: KeyView| all[k].blob).to_multiset(),
        ) == held_blobs(m),
    decreases m.dom().len(),
{
    let f = |k: KeyView| all[k].blob;
    if must_evict(m, room) {
        let o = oldest(m);
        assert(is_oldest(m, o));
        let rest = m.remove(o);
        assert forall|k: KeyView| #[trigger] rest.contains_key(k) implies rest[k] == all[k] by {
            assert(m.contains_key(k));
        }
        lemma_evicted_blobs(all, rest, room);
        lemma_held_remove(m, o);
        let tail = evictions(rest, room).map_values(f);
        assert(evictions(m, room).map_values(f) =~= seq![all[o].blob] + tail);
        vstd::seq_lib::lemma_multiset_commutative(seq![all[o].blob], tail);
        lemma_one_blob(all[o].blob);
        assert(held_blobs(survivors(m, room)).add(
            evictions(m, room).map_values(f).to_multiset(),
        ) =~= held_blobs(m));
    } else {
        assert(evictions(m, room).map_values(f) =~= Seq::empty());
        Seq::<B>::empty().to_multiset_ensures();
        assert(held_blobs(m).add(Seq::<B>::empty().to_multiset()) =~= held_blobs(m));
    }
}

/// A capture at an aligned boundary is stored exactly when it can be afforded.
pub proof fn law_affordable_is_accepted<B: CheckpointBlob>(
    v: PoolView<B>,
    key: KeyView,
    bytes: u64,
)
    requires
        v.valid(),
        aligned(key.1 as int),
        v.pinned_floor(key) + bytes <= u64::MAX,
    ensures
        v.accepts(key, bytes) <==> v.affordable(key, bytes),
{
    let base = v.entries.remove(key);
    let room = v.room(bytes);
    let rest = survivors(base, room);
    lemma_survivors_sub(base, room);
    lemma_survivors_stop(base, room);
    assert(pinned_only(rest) =~= pinned_only(base));
    lemma_pinned_bytes(rest);
    if held_bytes(rest) > room {
        assert(pinned_only(rest) =~= rest);
    }
}

proof fn lemma_pinned_bytes<B: CheckpointBlob>(m: Map<KeyView, Held<B>>)
    requires
        m.dom().finite(),
    ensures
        held_bytes(pinned_only(m)) <= held_bytes(m),
        pinned_only(m).dom().finite(),
    decreases m.dom().len(),
{
    if m.dom().len() == 0 {
        assert(pinned_only(m).dom() =~= m.dom());
        assert(pinned_only(m) =~= m);
    } else {
        let k = m.dom().choose();
        let r = m.remove(k);
        lemma_pinned_bytes(r);
        if m[k].pinned {
            assert(pinned_only(m) =~= pinned_only(r).insert(k, m[k]));
            lemma_held_insert(pinned_only(r), k, m[k]);
        } else {
            assert(pinned_only(m) =~= pinned_only(r));
        }
    }
}

/// Eviction stops only when the rest fits or is all pinned.
proof fn lemma_survivors_stop<B: CheckpointBlob>(m: Map<KeyView, Held<B>>, room: int)
    requires
        m.dom().finite(),
    ensures
        held_bytes(survivors(m, room)) <= room || forall|k: KeyView| #[trigger]
            survivors(m, room).contains_key(k) ==> survivors(m, room)[k].pinned,
    decreases m.dom().len(),
{
    if must_evict(m, room) {
        let o = oldest(m);
        assert(is_oldest(m, o));
        lemma_survivors_stop(m.remove(o), room);
    } else if held_bytes(m) > room {
        assert forall|k: KeyView| #[trigger] m.contains_key(k) implies m[k].pinned by {
            if !m[k].pinned {
                lemma_oldest_exists(m, k);
            }
        }
    }
}

proof fn lemma_oldest_exists<B>(m: Map<KeyView, Held<B>>, k: KeyView)
    requires
        m.dom().finite(),
        m.contains_key(k),
        !m[k].pinned,
    ensures
        exists|o: KeyView| is_oldest(m, o),
    decreases m.dom().len(),
{
    if !is_oldest(m, k) {
        let j = choose|j: KeyView| #[trigger]
            m.contains_key(j) && !m[j].pinned && m[j].stamp < m[k].stamp;
        let r = m.remove(k);
        assert(r.contains_key(j));
        lemma_oldest_exists(r, j);
        let o = choose|o: KeyView| is_oldest(r, o);
        assert(m.contains_key(o));
        assert forall|i: KeyView| #[trigger] m.contains_key(i) && !m[i].pinned implies m[o].stamp
            <= m[i].stamp by {
            assert(r.contains_key(j) && !r[j].pinned);
            if i != k {
                assert(r.contains_key(i));
            }
        }
        assert(is_oldest(m, o));
    }
}

/// Domains do not share state: two pools that hold the same checkpoints and
/// eviction records of a domain plan the same resume for it.
pub proof fn law_domain_isolation<B: CheckpointBlob>(
    v: PoolView<B>,
    w: PoolView<B>,
    domain: DomainView,
    tokens: Seq<u32>,
    resumable: u64,
    drafter: DrafterDecision,
)
    requires
        forall|k: KeyView|
            k.0 == domain ==> (#[trigger] v.entries.contains_key(k) == w.entries.contains_key(k))
                && (v.entries.contains_key(k) ==> v.entries[k].blob == w.entries[k].blob),
        forall|k: KeyView|
            k.0 == domain ==> #[trigger] v.evicted.contains(k) == w.evicted.contains(k),
    ensures
        v.resume_plan(domain, tokens, resumable, drafter) == w.resume_plan(
            domain,
            tokens,
            resumable,
            drafter,
        ),
{
    let page = PAGE_TOKENS as int;
    let pages = resumable as int / page;
    lemma_same_boundary(v, w, domain, tokens, pages);
    lemma_largest_boundary(v, domain, tokens, pages);
    let best = v.largest_boundary(domain, tokens, pages);
    lemma_same_boundary(v, w, domain, tokens, best / page - 1);
    if best > 0 {
        lemma_largest_boundary(v, domain, tokens, best / page - 1);
    }
    assert(v.evicted_up_to(domain, resumable) == w.evicted_up_to(domain, resumable)) by {
        if v.evicted_up_to(domain, resumable) {
            let k = choose|k: KeyView| #[trigger]
                v.evicted.contains(k) && k.0 == domain && 0 < k.1 <= resumable;
            assert(w.evicted.contains(k));
        }
        if w.evicted_up_to(domain, resumable) {
            let k = choose|k: KeyView| #[trigger]
                w.evicted.contains(k) && k.0 == domain && 0 < k.1 <= resumable;
            assert(v.evicted.contains(k));
        }
    }
}

proof fn lemma_same_boundary<B: CheckpointBlob>(
    v: PoolView<B>,
    w: PoolView<B>,
    domain: DomainView,
    tokens: Seq<u32>,
    pages: int,
)
    requires
        forall|k: KeyView|
            k.0 == domain ==> (#[trigger] v.entries.contains_key(k) == w.entries.contains_key(k)),
    ensures
        v.largest_boundary(domain, tokens, pages) == w.largest_boundary(domain, tokens, pages),
    decreases pages,
{
    if pages > 0 {
        lemma_same_boundary(v, w, domain, tokens, pages - 1);
        let k = PoolView::<B>::prefix_key(domain, tokens, pages * PAGE_TOKENS);
        assert(v.entries.contains_key(k) == w.entries.contains_key(k));
    }
}

/// Prompts that share their first `p` tokens share the checkpoint there.
pub proof fn law_shared_prefix_shares_checkpoint<B: CheckpointBlob>(
    v: PoolView<B>,
    domain: DomainView,
    a: Seq<u32>,
    b: Seq<u32>,
    p: int,
)
    requires
        0 <= p <= a.len(),
        p <= b.len(),
        a.take(p) == b.take(p),
    ensures
        PoolView::<B>::prefix_key(domain, a, p) == PoolView::<B>::prefix_key(domain, b, p),
        v.has_prefix(domain, a, p) == v.has_prefix(domain, b, p),
{
}

/// A capture at a new key gets the next id, which is above every id minted so
/// far, and one that replaces an entry keeps that entry's id.
pub proof fn law_ids_are_stable<B: CheckpointBlob>(v: PoolView<B>, key: KeyView, blob: B)
    requires
        v.valid(),
        v.next_id < u64::MAX,
        v.accepts(key, blob.size()),
    ensures
        v.inserted(key, blob).entries.contains_key(key),
        v.inserted(key, blob).entries[key].id.0 == v.id_for(key),
        v.entries.contains_key(key) ==> v.inserted(key, blob).entries[key].id
            == v.entries[key].id && v.inserted(key, blob).next_id == v.next_id,
        !v.entries.contains_key(key) ==> v.inserted(key, blob).entries[key].id.0 == v.next_id
            && v.inserted(key, blob).next_id == v.next_id + 1,
        v.inserted(key, blob).entries[key].id.0 != 0,
{
}

// ---- Every sequence of calls ----

/// One call that changes a pool.
pub enum PoolCall<B> {
    Insert(KeyView, B),
    Evict(KeyView),
    Get(KeyView),
    Pin(KeyView),
    Unpin(KeyView),
    Drain,
}

impl<B: CheckpointBlob> PoolView<B> {
    /// A new pool.
    pub open spec fn fresh(max_bytes: int) -> PoolView<B> {
        PoolView {
            entries: Map::<KeyView, Held<B>>::empty(),
            evicted: Set::<KeyView>::empty(),
            max_bytes,
            next_id: 1,
            clock: 0,
        }
    }

    /// The pool after one call.
    pub open spec fn called(self, c: PoolCall<B>) -> PoolView<B> {
        match c {
            PoolCall::Insert(key, blob) => self.inserted(key, blob),
            PoolCall::Evict(key) => self.without(key),
            PoolCall::Get(key) => self.touched(key),
            PoolCall::Pin(key) => self.with_pin(key, true),
            PoolCall::Unpin(key) => self.with_pin(key, false),
            PoolCall::Drain => PoolView {
                entries: Map::<KeyView, Held<B>>::empty(),
                ..self
            },
        }
    }

    /// The pool after a sequence of calls.
    pub open spec fn after(self, calls: Seq<PoolCall<B>>) -> PoolView<B>
        decreases calls.len(),
    {
        if calls.len() == 0 {
            self
        } else {
            self.after(calls.drop_last()).called(calls.last())
        }
    }

    /// The id that a call returns for the capture it stores; `None` for any
    /// other call.
    pub open spec fn returned_id(self, c: PoolCall<B>) -> Option<int> {
        match c {
            PoolCall::Insert(key, blob) => if self.accepts(key, blob.size()) {
                Some(self.id_for(key))
            } else {
                None
            },
            _ => None,
        }
    }
}

/// What holds of a pool however many ids it has handed out.
spec fn within_ceiling<B: CheckpointBlob>(v: PoolView<B>) -> bool {
    &&& v.entries.dom().finite()
    &&& held_bytes(v.entries) <= v.max_bytes
    &&& v.next_id >= 1
    &&& forall|k: KeyView| #[trigger]
        v.entries.contains_key(k) ==> aligned(k.1 as int) && v.entries[k].id.0 < v.next_id
}

proof fn lemma_ceiling_inserted<B: CheckpointBlob>(v: PoolView<B>, key: KeyView, blob: B)
    requires
        within_ceiling(v),
    ensures
        within_ceiling(v.inserted(key, blob)),
{
    let base = v.entries.remove(key);
    let room = v.room(blob.size());
    let rest = survivors(base, room);
    let after = v.inserted(key, blob);
    if aligned(key.1 as int) {
        lemma_survivors_sub(base, room);
        lemma_survivors_bytes(base, room);
        if v.entries.contains_key(key) {
            lemma_held_remove(v.entries, key);
        } else {
            assert(base =~= v.entries);
        }
        assert forall|k: KeyView| #[trigger] rest.contains_key(k) implies {
            &&& v.entries.contains_key(k)
            &&& k != key
            &&& v.entries[k] == rest[k]
        } by {
            assert(base.contains_key(k));
        }
        if v.accepts(key, blob.size()) {
            lemma_held_insert(rest, key, after.entries[key]);
            assert forall|k: KeyView| #[trigger] after.entries.contains_key(k) && k != key implies {
                &&& rest.contains_key(k)
                &&& after.entries[k] == rest[k]
            } by {}
        }
    }
}

proof fn lemma_ceiling_called<B: CheckpointBlob>(v: PoolView<B>, c: PoolCall<B>)
    requires
        within_ceiling(v),
    ensures
        within_ceiling(v.called(c)),
{
    lemma_held_nonnegative(v.entries);
    match c {
        PoolCall::Insert(key, blob) => {
            lemma_ceiling_inserted(v, key, blob);
        },
        PoolCall::Evict(key) => {
            if v.entries.contains_key(key) {
                lemma_held_remove(v.entries, key);
            }
        },
        PoolCall::Get(key) => {
            if v.entries.contains_key(key) {
                lemma_held_update(
                    v.entries,
                    key,
                    Held { stamp: v.clock + 1, ..v.entries[key] },
                );
            }
        },
        PoolCall::Pin(key) => {
            if v.entries.contains_key(key) {
                lemma_held_update(v.entries, key, Held { pinned: true, ..v.entries[key] });
            }
        },
        PoolCall::Unpin(key) => {
            if v.entries.contains_key(key) {
                lemma_held_update(v.entries, key, Held { pinned: false, ..v.entries[key] });
            }
        },
        PoolCall::Drain => {},
    }
}

proof fn lemma_calls<B: CheckpointBlob>(max_bytes: int, calls: Seq<PoolCall<B>>)
    requires
        0 <= max_bytes,
    ensures
        within_ceiling(PoolView::<B>::fresh(max_bytes).after(calls)),
        PoolView::<B>::fresh(max_bytes).after(calls).max_bytes == max_bytes,
    decreases calls.len(),
{
    if calls.len() > 0 {
        lemma_calls::<B>(max_bytes, calls.drop_last());
        lemma_ceiling_called(
            PoolView::<B>::fresh(max_bytes).after(calls.drop_last()),
            calls.last(),
        );
    }
}

/// The byte ceiling is hard: whatever calls a pool has taken, also refused
/// captures, it holds no more bytes than it was made for, its capacity is what
/// it was made with, and every stored boundary is page-aligned.
pub proof fn law_byte_ceiling_is_hard<B: CheckpointBlob>(max_bytes: u64, calls: Seq<PoolCall<B>>)
    ensures
        ({
            let v = PoolView::<B>::fresh(max_bytes as int).after(calls);
            &&& v.max_bytes == max_bytes
            &&& held_bytes(v.entries) <= max_bytes
            &&& forall|k: KeyView| #[trigger] v.entries.contains_key(k) ==> aligned(k.1 as int)
        }),
{
    lemma_calls::<B>(max_bytes as int, calls);
}

/// Every call keeps a pool valid, as long as there are ids left to hand out.
pub proof fn law_calls_keep_pools_valid<B: CheckpointBlob>(
    max_bytes: u64,
    calls: Seq<PoolCall<B>>,
)
    requires
        PoolView::<B>::fresh(max_bytes as int).after(calls).next_id <= u64::MAX,
    ensures
        PoolView::<B>::fresh(max_bytes as int).after(calls).valid(),
    decreases calls.len(),
{
    if calls.len() > 0 {
        let v = PoolView::<B>::fresh(max_bytes as int).after(calls.drop_last());
        law_calls_keep_pools_valid::<B>(max_bytes, calls.drop_last());
        match calls.last() {
            PoolCall::Insert(key, blob) => {
                lemma_valid_inserted(v, key, blob);
            },
            PoolCall::Evict(key) => {
                lemma_valid_without(v, key);
            },
            PoolCall::Get(key) => {
                lemma_valid_touched(v, key);
            },
            PoolCall::Pin(key) => {
                lemma_valid_with_pin(v, key, true);
            },
            PoolCall::Unpin(key) => {
                lemma_valid_with_pin(v, key, false);
            },
            PoolCall::Drain => {
                lemma_held_nonnegative(v.entries);
            },
        }
    }
}

proof fn lemma_next_id_grows<B: CheckpointBlob>(
    max_bytes: int,
    calls: Seq<PoolCall<B>>,
    i: int,
)
    requires
        0 <= i <= calls.len(),
    ensures
        PoolView::<B>::fresh(max_bytes).after(calls.take(i)).next_id <= PoolView::<B>::fresh(
            max_bytes,
        ).after(calls).next_id,
    decreases calls.len() - i,
{
    if i < calls.len() {
        lemma_next_id_grows::<B>(max_bytes, calls, i + 1);
        assert(calls.take(i + 1).drop_last() =~= calls.take(i));
    } else {
        assert(calls.take(i) =~= calls);
    }
}

/// No id is handed out for two checkpoints: after any calls, a capture at a key
/// that is not stored gets an id above every id that the pool has ever
/// returned, and one at a stored key gets the id that is stored there.
pub proof fn law_ids_are_never_reused<B: CheckpointBlob>(
    max_bytes: u64,
    calls: Seq<PoolCall<B>>,
    i: int,
    key: KeyView,
    blob: B,
)
    requires
        0 <= i < calls.len(),
    ensures
        ({
            let start = PoolView::<B>::fresh(max_bytes as int);
            let v = start.after(calls);
            let earlier = start.after(calls.take(i)).returned_id(calls[i]);
            let now = v.returned_id(PoolCall::Insert(key, blob));
            &&& now is Some && v.entries.contains_key(key) ==> now->Some_0 == v.entries[key].id.0
            &&& now is Some && !v.entries.contains_key(key) && earlier is Some ==> earlier->Some_0
                < now->Some_0
        }),
{
    lemma_calls::<B>(max_bytes as int, calls.take(i));
    lemma_next_id_grows::<B>(max_bytes as int, calls, i + 1);
    assert(calls.take(i + 1).drop_last() =~= calls.take(i));
}

/// The first id that a pool returns is 1: as long as no capture was stored, the
/// next one gets it.
pub proof fn law_first_id_is_one<B: CheckpointBlob>(
    max_bytes: u64,
    calls: Seq<PoolCall<B>>,
    key: KeyView,
    blob: B,
)
    requires
        forall|i: int|
            0 <= i < calls.len() ==> PoolView::<B>::fresh(max_bytes as int).after(
                calls.take(i),
            ).returned_id(#[trigger] calls[i]) is None,
        PoolView::<B>::fresh(max_bytes as int).after(calls).accepts(key, blob.size()),
    ensures
        PoolView::<B>::fresh(max_bytes as int).after(calls).returned_id(
            PoolCall::Insert(key, blob),
        ) == Some(1int),
{
    lemma_nothing_minted::<B>(max_bytes as int, calls);
}

proof fn lemma_nothing_minted<B: CheckpointBlob>(max_bytes: int, calls: Seq<PoolCall<B>>)
    requires
        forall|i: int|
            0 <= i < calls.len() ==> PoolView::<B>::fresh(max_bytes).after(
                calls.take(i),
            ).returned_id(#[trigger] calls[i]) is None,
    ensures
        PoolView::<B>::fresh(max_bytes).after(calls).next_id == 1,
        PoolView::<B>::fresh(max_bytes).after(calls).entries == Map::<KeyView, Held<B>>::empty(),
    decreases calls.len(),
{
    if calls.len() > 0 {
        let init = calls.drop_last();
        assert forall|i: int| 0 <= i < init.len() implies PoolView::<B>::fresh(max_bytes).after(
            init.take(i),
        ).returned_id(#[trigger] init[i]) is None by {
            assert(init.take(i) =~= calls.take(i));
            assert(init[i] == calls[i]);
        }
        lemma_nothing_minted::<B>(max_bytes, init);
        let n = calls.len() - 1;
        assert(calls.take(n) =~= init);
        assert(calls[n] == calls.last());
        let v = PoolView::<B>::fresh(max_bytes).after(init);
        assert(v.returned_id(calls[n]) is None);
        match calls.last() {
            PoolCall::Insert(key, blob) => {
                assert(v.entries.remove(key) =~= v.entries);
                lemma_survivors_sub(v.entries, v.room(blob.size()));
                assert(survivors(v.entries, v.room(blob.size())) =~= v.entries);
            },
            _ => {},
        }
    }
}

/// What a capture stores can be read back, and a capture of the same prefix
/// replaces it without touching the checkpoints of other prefixes.
pub proof fn law_capture_reads_back<B: CheckpointBlob>(
    v: PoolView<B>,
    key: KeyView,
    blob: B,
    other: KeyView,
)
    requires
        v.valid(),
        v.accepts(key, blob.size()),
        other != key,
    ensures
        v.inserted(key, blob).entries.contains_key(key),
        v.inserted(key, blob).entries[key].blob == blob,
        v.inserted(key, blob).entries.contains_key(other) ==> v.entries.contains_key(other)
            && v.inserted(key, blob).entries[other] == v.entries[other],
{
    let base = v.entries.remove(key);
    lemma_survivors_sub(base, v.room(blob.size()));
    if v.inserted(key, blob).entries.contains_key(other) {
        assert(survivors(base, v.room(blob.size())).contains_key(other));
    }
}

// ---- Capture and restore decisions ----

/// What to do about capturing a live state at a boundary.
#[derive(Debug, Clone, Copy, PartialEq, Eq, Structural)]
pub enum CaptureStep {
    /// The boundary is not page-aligned: an error.
    Misaligned,
    /// The pool cannot afford the state: no checkpoint, no device work.
    Refused,
    /// Take the snapshot and insert it under this prefix fingerprint.
    Snapshot(u64),
}

/// Error text of a capture at a boundary that is not page-aligned.
pub fn capture_misaligned_text() -> (r: &'static str)
    ensures
        r@ == "capture_checkpoint: boundary not page-aligned"@,
{
    "capture_checkpoint: boundary not page-aligned"
}

/// Error text of a restore from a checkpoint that is not stored.
pub fn restore_missing_text() -> (r: &'static str)
    ensures
        r@ == "restore_private: checkpoint not found"@,
{
    "restore_private: checkpoint not found"
}

/// Decides, before any snapshot is paid for, whether the state of `bytes` at
/// boundary `p` is to be captured. The snapshot then goes to
/// [`QwenCheckpointPool::insert`] with the fingerprint given here.
pub fn capture_checkpoint<B: CheckpointBlob>(
    pool: &QwenCheckpointPool<B>,
    domain: CacheDomain,
    p: u64,
    boundary_tokens: &[u32],
    bytes: u64,
) -> (r: CaptureStep)
    requires
        pool.wf(),
    ensures
        ({
            let fp = token_fingerprint(boundary_tokens@);
            r == if !aligned(p as int) {
                CaptureStep::Misaligned
            } else if pool@.affordable((domain@, p, fp), bytes) {
                CaptureStep::Snapshot(fp)
            } else {
                CaptureStep::Refused
            }
        }),
{
    if !QwenCheckpointPool::<B>::is_aligned(p) {
        return CaptureStep::Misaligned;
    }
    let fp: u64 = prefix_fingerprint(boundary_tokens);
    let key: CheckpointKey = (domain, p, fp);
    if pool.can_afford(&key, bytes) {
        CaptureStep::Snapshot(fp)
    } else {
        CaptureStep::Refused
    }
}

/// The stored state that a request restores into its own private copy; `None`
/// when there is no checkpoint at `(domain, p, fp)`. The stored state is never
/// handed out for writing.
pub fn restore_private<'a, B: CheckpointBlob>(
    pool: &'a QwenCheckpointPool<B>,
    domain: &CacheDomain,
    p: u64,
    fp: u64,
) -> (r: Result<&'a B, &'static str>)
    requires
        pool.wf(),
    ensures
        match r {
            Ok(b) => pool@.entries.contains_key((domain@, p, fp)) && *b == pool@.entries[(
                domain@,
                p,
                fp,
            )].blob,
            Err(text) => !pool@.entries.contains_key((domain@, p, fp)) && text@
                == "restore_private: checkpoint not found"@,
        },
{
    match pool.peek(domain, p, fp) {
        Some(b) => Ok(b),
        None => Err(restore_missing_text()),
    }
}

// ---- Laws of resume plans, over the stored checkpoints ----

proof fn lemma_nothing_larger<B: CheckpointBlob>(
    v: PoolView<B>,
    domain: DomainView,
    tokens: Seq<u32>,
    pages: int,
    q: int,
)
    requires
        0 < q <= tokens.len(),
        q % (PAGE_TOKENS as int) == 0,
        q <= pages * PAGE_TOKENS,
        v.entries.contains_key((domain, q as u64, token_fingerprint(tokens.take(q)))),
    ensures
        v.largest_boundary(domain, tokens, pages) >= q,
    decreases pages,
{
    let page = PAGE_TOKENS as int;
    assert(q == (q / page) * page);
    if pages <= 0 {
        assert(pages * page <= 0) by (nonlinear_arith)
            requires
                pages <= 0,
                page > 0,
        ;
    } else if pages * page != q {
        assert(q <= (pages - 1) * page) by (nonlinear_arith)
            requires
                q == (q / page) * page,
                q <= pages * page,
                q != pages * page,
                page > 0,
        ;
        if !v.has_prefix(domain, tokens, pages * page) {
            lemma_nothing_larger(v, domain, tokens, pages - 1, q);
        }
    } else {
        assert(v.has_prefix(domain, tokens, pages * page));
    }
}

/// A plan takes the largest checkpoint: where one of exactly the first `q` prompt
/// tokens is stored, page-aligned and within what is resumable, there is a plan,
/// and it resumes no earlier than at `q`; where the prompt ends at `q`, it
/// resumes before that and says so.
pub proof fn law_plan_takes_the_largest_checkpoint<B: CheckpointBlob>(
    v: PoolView<B>,
    domain: DomainView,
    tokens: Seq<u32>,
    resumable: u64,
    drafter: DrafterDecision,
    q: int,
)
    requires
        0 < q <= tokens.len(),
        q <= resumable,
        q % (PAGE_TOKENS as int) == 0,
        v.entries.contains_key((domain, q as u64, token_fingerprint(tokens.take(q)))),
    ensures
        v.resume_plan(domain, tokens, resumable, drafter) is Ok,
        ({
            let plan = v.resume_plan(domain, tokens, resumable, drafter)->Ok_0;
            &&& q < tokens.len() ==> plan.boundary >= q
            &&& q == tokens.len() ==> plan.boundary < q && plan.last_token
                == LastTokenHandling::EarlierBoundary
        }),
{
    let page = PAGE_TOKENS as int;
    let pages = resumable as int / page;
    assert(q <= pages * page) by (nonlinear_arith)
        requires
            q <= resumable,
            q % page == 0,
            page > 0,
            pages == resumable as int / page,
    {
        vstd::arithmetic::div_mod::lemma_fundamental_div_mod(q, page);
        vstd::arithmetic::div_mod::lemma_fundamental_div_mod(resumable as int, page);
        vstd::arithmetic::div_mod::lemma_div_is_ordered(q, resumable as int, page);
        vstd::arithmetic::mul::lemma_mul_inequality(q / page, pages, page);
    }
    lemma_nothing_larger(v, domain, tokens, pages, q);
    lemma_largest_boundary(v, domain, tokens, pages);
    let best = v.largest_boundary(domain, tokens, pages);
    assert(best == (best / page) * page);
    if best == tokens.len() {
        lemma_largest_boundary(v, domain, tokens, best / page - 1);
        if q < best {
            assert(q <= (best / page - 1) * page) by (nonlinear_arith)
                requires
                    q < best,
                    best == (best / page) * page,
                    q % page == 0,
                    page > 0,
            {
                vstd::arithmetic::div_mod::lemma_fundamental_div_mod(q, page);
                if q / page >= best / page {
                    vstd::arithmetic::mul::lemma_mul_inequality(best / page, q / page, page);
                }
                vstd::arithmetic::mul::lemma_mul_inequality(q / page, best / page - 1, page);
            }
            lemma_nothing_larger(v, domain, tokens, best / page - 1, q);
        }
    }
}

/// A plan resumes at a checkpoint that is there: its boundary is the initial
/// state, or a page boundary within what is resumable and before the end of the
/// prompt at which the state of exactly those prompt tokens is stored; its cost is
/// that state's size. Only a prompt that ends on a stored boundary gives up its
/// last one, and every part of the state is there to restore.
pub proof fn law_plans_resume_at_stored_checkpoints<B: CheckpointBlob>(
    v: PoolView<B>,
    domain: DomainView,
    tokens: Seq<u32>,
    resumable: u64,
    drafter: DrafterDecision,
)
    requires
        v.resume_plan(domain, tokens, resumable, drafter) is Ok,
    ensures
        ({
            let plan = v.resume_plan(domain, tokens, resumable, drafter)->Ok_0;
            let p = plan.boundary as int;
            let k = (domain, plan.boundary, token_fingerprint(tokens.take(p)));
            let whole = (domain, tokens.len() as u64, token_fingerprint(tokens));
            &&& p <= resumable
            &&& p % (PAGE_TOKENS as int) == 0
            &&& p > 0 ==> p < tokens.len() && v.entries.contains_key(k) && plan.byte_cost
                == v.entries[k].blob.size()
            &&& p == 0 ==> plan.byte_cost == 0
            &&& p == 0 && tokens.len() > 0 ==> plan.last_token
                == LastTokenHandling::EarlierBoundary
            &&& plan.last_token == LastTokenHandling::EarlierBoundary ==> tokens.len() > 0
                && tokens.len() as int % (PAGE_TOKENS as int) == 0 && tokens.len() <= resumable
                && v.entries.contains_key(whole)
            &&& plan.bundle.drafter == drafter
            &&& plan.bundle.attention_pages && plan.bundle.dn_matrices_scales
                && plan.bundle.conv_rings && plan.bundle.ef_residual
        }),
{
    law_plan_boundary(v, domain, tokens, resumable, drafter);
    let plan = v.resume_plan(domain, tokens, resumable, drafter)->Ok_0;
    let page = PAGE_TOKENS as int;
    let pages = resumable as int / page;
    lemma_largest_boundary(v, domain, tokens, pages);
    assert(pages * page <= resumable);
    let best = v.largest_boundary(domain, tokens, pages);
    if tokens.len() > 0 && best == tokens.len() {
        assert(tokens.take(best) =~= tokens);
        assert(v.has_prefix(domain, tokens, best));
        lemma_largest_boundary(v, domain, tokens, best / page - 1);
        assert((best / page - 1) * page <= best);
        assert(plan.boundary == v.largest_boundary(domain, tokens, best / page - 1));
    } else {
        assert(plan.last_token == LastTokenHandling::SuffixRecompute);
        assert(tokens.len() > 0 ==> plan.boundary == best && best > 0);
    }
    assert(plan.byte_cost == v.restore_bytes(domain, tokens, plan.boundary as int));
}

/// A refused resume says why: no checkpoint of a prefix of the prompt is stored
/// within what is resumable, and the miss is blamed on eviction exactly where a
/// checkpoint of the domain within it was evicted.
pub proof fn law_misses_say_why<B: CheckpointBlob>(
    v: PoolView<B>,
    domain: DomainView,
    tokens: Seq<u32>,
    resumable: u64,
    drafter: DrafterDecision,
)
    ensures
        tokens.len() == 0 ==> v.resume_plan(domain, tokens, resumable, drafter) is Ok,
        v.resume_plan(domain, tokens, resumable, drafter) is Err && (exists|k: KeyView| #[trigger]
            v.evicted.contains(k) && k.0 == domain && 0 < k.1 <= resumable) ==> v.resume_plan(
            domain,
            tokens,
            resumable,
            drafter,
        ) == Err::<ResumePlan, MissReason>(MissReason::Evicted),
        v.resume_plan(domain, tokens, resumable, drafter) is Err && !(exists|k: KeyView|
         #[trigger]
            v.evicted.contains(k) && k.0 == domain && 0 < k.1 <= resumable) ==> v.resume_plan(
            domain,
            tokens,
            resumable,
            drafter,
        ) == Err::<ResumePlan, MissReason>(MissReason::NoCheckpoint),
        tokens.len() > 0 && (forall|q: int|
            0 < q <= resumable && q <= tokens.len() && q % (PAGE_TOKENS as int) == 0
                ==> !v.entries.contains_key(
                (domain, q as u64, #[trigger] token_fingerprint(tokens.take(q))),
            )) ==> v.resume_plan(domain, tokens, resumable, drafter) is Err,
{
    let pages = resumable as int / PAGE_TOKENS as int;
    lemma_largest_boundary(v, domain, tokens, pages);
    let best = v.largest_boundary(domain, tokens, pages);
    assert(pages * PAGE_TOKENS <= resumable);
    if best > 0 {
        assert(v.entries.contains_key(
            (domain, best as u64, token_fingerprint(tokens.take(best))),
        ));
    }
}

/// Pinning changes one flag: the pool holds the same checkpoints with the same
/// states, and only the one at `k` has become pinned or unpinned.
pub proof fn law_pinning_changes_one_flag<B: CheckpointBlob>(
    v: PoolView<B>,
    k: KeyView,
    pinned: bool,
    j: KeyView,
)
    ensures
        ({
            let after = v.with_pin(k, pinned);
            &&& after.entries.contains_key(j) <==> v.entries.contains_key(j)
            &&& v.entries.contains_key(j) ==> {
                &&& after.entries[j].blob == v.entries[j].blob
                &&& after.entries[j].id == v.entries[j].id
                &&& after.entries[j].stamp == v.entries[j].stamp
                &&& after.entries[j].pinned == if j == k {
                    pinned
                } else {
                    v.entries[j].pinned
                }
            }
            &&& after.evicted == v.evicted && after.max_bytes == v.max_bytes
        }),
{
}

/// A capture that fits beside the others evicts nothing: it is stored, unpinned,
/// and every other checkpoint stays as it was.
pub proof fn law_captures_that_fit_evict_nothing<B: CheckpointBlob>(
    v: PoolView<B>,
    key: KeyView,
    blob: B,
    j: KeyView,
)
    requires
        v.valid(),
        key.1 % (PAGE_TOKENS as u64) == 0,
        held_bytes(v.entries.remove(key)) + blob.size() <= v.max_bytes,
    ensures
        ({
            let after = v.inserted(key, blob);
            &&& after.entries.contains_key(key)
            &&& after.entries[key].blob == blob
            &&& !after.entries[key].pinned
            &&& !after.evicted.contains(key)
            &&& j != key ==> {
                &&& after.entries.contains_key(j) <==> v.entries.contains_key(j)
                &&& v.entries.contains_key(j) ==> after.entries[j] == v.entries[j]
                &&& after.evicted.contains(j) <==> v.evicted.contains(j)
            }
        }),
{
    let base = v.entries.remove(key);
    let room = v.room(blob.size());
    assert(survivors(base, room) == base);
    assert(evictions(base, room) =~= Seq::empty());
    assert(!evictions(base, room).contains(j));
    assert(!evictions(base, room).contains(key));
}

proof fn lemma_last_evicted<B: CheckpointBlob>(
    m: Map<KeyView, Held<B>>,
    room: int,
    gone: KeyView,
)
    requires
        m.dom().finite(),
        m.contains_key(gone),
        !survivors(m, room).contains_key(gone),
        forall|j: KeyView|
            #[trigger] m.contains_key(j) && !survivors(m, room).contains_key(j) && j != gone
                ==> m[j].stamp < m[gone].stamp,
    ensures
        held_bytes(survivors(m, room)) + m[gone].blob.size() > room,
    decreases m.dom().len(),
{
    if must_evict(m, room) {
        let o = oldest(m);
        assert(is_oldest(m, o));
        let rest = m.remove(o);
        lemma_survivors_sub(rest, room);
        lemma_held_remove(m, o);
        if o == gone {
            if must_evict(rest, room) {
                let p = oldest(rest);
                assert(is_oldest(rest, p));
                assert(m.contains_key(p));
                lemma_survivors_sub(rest.remove(p), room);
                assert(!survivors(m, room).contains_key(p)) by {
                    if survivors(rest.remove(p), room).contains_key(p) {
                        assert(rest.remove(p).contains_key(p));
                    }
                }
                assert(m[gone].stamp <= m[p].stamp);
            }
        } else {
            assert(rest.contains_key(gone));
            assert forall|j: KeyView|
                #[trigger] rest.contains_key(j) && !survivors(rest, room).contains_key(j) && j
                    != gone implies rest[j].stamp < rest[gone].stamp by {
                assert(m.contains_key(j));
            }
            lemma_last_evicted(rest, room, gone);
        }
    }
}

/// A capture evicts no more than it must: with the last checkpoint it evicted, the
/// newest of them, it would still not fit. Each is recorded as evicted.
pub proof fn law_captures_evict_no_more_than_they_must<B: CheckpointBlob>(
    v: PoolView<B>,
    key: KeyView,
    blob: B,
    gone: KeyView,
)
    requires
        v.valid(),
        gone != key,
        v.entries.contains_key(gone),
        !v.inserted(key, blob).entries.contains_key(gone),
        forall|j: KeyView|
            j != key && j != gone && #[trigger] v.entries.contains_key(j) && !v.inserted(
                key,
                blob,
            ).entries.contains_key(j) ==> v.entries[j].stamp < v.entries[gone].stamp,
    ensures
        held_bytes(v.inserted(key, blob).entries.remove(key)) + v.entries[gone].blob.size()
            + blob.size() > v.max_bytes,
        v.inserted(key, blob).evicted.contains(gone),
{
    let base = v.entries.remove(key);
    let room = v.room(blob.size());
    let rest = survivors(base, room);
    lemma_survivors_sub(base, room);
    lemma_evictions_are_the_rest(base, room);
    assert(base.contains_key(gone));
    assert(!rest.contains_key(key)) by {
        assert(!base.contains_key(key));
    }
    assert forall|j: KeyView|
        #[trigger] base.contains_key(j) && !rest.contains_key(j) && j != gone implies base[j].stamp
        < base[gone].stamp by {
        assert(v.entries.contains_key(j));
    }
    lemma_last_evicted(base, room, gone);
    assert(v.inserted(key, blob).entries.remove(key) =~= rest);
    assert(evictions(base, room).contains(gone));
}

/// What was read last goes last: a capture that evicts the checkpoint read just
/// before leaves no other unpinned one that it found.
pub proof fn law_what_was_read_last_goes_last<B: CheckpointBlob>(
    v: PoolView<B>,
    read: KeyView,
    key: KeyView,
    blob: B,
    other: KeyView,
)
    requires
        v.valid(),
        v.entries.contains_key(read),
        v.entries.contains_key(other),
        read != other,
        read != key,
        other != key,
        !v.entries[other].pinned,
        !v.touched(read).inserted(key, blob).entries.contains_key(read),
    ensures
        !v.touched(read).inserted(key, blob).entries.contains_key(other),
{
    lemma_valid_touched(v, read);
    let t = v.touched(read);
    if t.inserted(key, blob).entries.contains_key(other) {
        law_evicts_oldest_first(t, key, blob, read, other);
    }
}

/// An eviction takes one checkpoint and remembers it; a capture of the same
/// prefix that is stored makes up for it.
pub proof fn law_evictions_are_remembered<B: CheckpointBlob>(
    v: PoolView<B>,
    k: KeyView,
    j: KeyView,
    blob: B,
)
    requires
        v.entries.contains_key(k),
    ensures
        !v.without(k).entries.contains_key(k),
        v.without(k).evicted.contains(k),
        j != k ==> {
            &&& v.without(k).entries.contains_key(j) <==> v.entries.contains_key(j)
            &&& v.entries.contains_key(j) ==> v.without(k).entries[j] == v.entries[j]
            &&& v.without(k).evicted.contains(j) <==> v.evicted.contains(j)
        },
        v.valid() && v.without(k).inserted(k, blob).entries.contains_key(k) ==> !v.without(
            k,
        ).inserted(k, blob).evicted.contains(k),
{
    let w = v.without(k);
    let base = w.entries.remove(k);
    if v.valid() {
        lemma_survivors_sub(base, w.room(blob.size()));
        lemma_evictions_are_the_rest(base, w.room(blob.size()));
        assert(!evictions(base, w.room(blob.size())).contains(k));
    }
}

/// The bytes held are the sizes added up: an empty pool holds none, and a further
/// checkpoint adds its own size.
pub proof fn law_bytes_are_the_sizes_added_up<B: CheckpointBlob>(
    m: Map<KeyView, Held<B>>,
    k: KeyView,
    h: Held<B>,
)
    requires
        m.dom().finite(),
        !m.contains_key(k),
    ensures
        held_bytes(Map::<KeyView, Held<B>>::empty()) == 0,
        held_bytes(m.insert(k, h)) == held_bytes(m) + h.blob.size(),
{
    lemma_held_insert(m, k, h);
}

} // verus!
