use vstd::prelude::*;

use crate::cache::{kept, lru_insert, LruCache};
use crate::constants::DEFAULT_MAX_COUNT_FALLBACK_PEERS;
use crate::types::{PeerId, TxHash};

verus! {

/// What the fetcher knows of a hash it tracks.
pub struct FetchMeta {
    /// How many request attempts have failed for the hash.
    pub retries: u8,
    /// Peers that announced the hash and were not asked for it yet, least recent first.
    pub fallback_peers: Seq<PeerId>,
    /// Encoded size of the transaction, as last announced.
    pub tx_encoded_length: Option<usize>,
}

/// Metadata of a transaction hash that is yet to be fetched.
pub struct TxFetchMetadata {
    retries: u8,
    fallback_peers: LruCache<PeerId>,
    tx_encoded_length: Option<usize>,
}

impl View for TxFetchMetadata {
    type V = FetchMeta;

    closed spec fn view(&self) -> FetchMeta {
        FetchMeta {
            retries: self.retries,
            fallback_peers: self.fallback_peers@,
            tx_encoded_length: self.tx_encoded_length,
        }
    }
}

/// Whether `peers` can be the fallback peers of a tracked hash.
pub open spec fn fallback_peers_ok(peers: Seq<PeerId>) -> bool {
    peers.len() <= DEFAULT_MAX_COUNT_FALLBACK_PEERS && peers.no_duplicates()
}

impl TxFetchMetadata {
    pub closed spec fn peers(&self) -> LruCache<PeerId> {
        self.fallback_peers
    }

    pub open spec fn wf(&self) -> bool {
        &&& self.peers().wf()
        &&& self.peers().capacity() == DEFAULT_MAX_COUNT_FALLBACK_PEERS
        &&& self@.fallback_peers == self.peers()@
    }

    pub fn new(
        retries: u8,
        fallback_peers: LruCache<PeerId>,
        tx_encoded_length: Option<usize>,
    ) -> (r: Self)
        ensures
            r@ == (FetchMeta { retries, fallback_peers: fallback_peers@, tx_encoded_length }),
            r.peers() == fallback_peers,
    {
        TxFetchMetadata { retries, fallback_peers, tx_encoded_length }
    }

    /// Metadata of a newly seen hash: no retries, no fallback peers.
    pub fn fresh(tx_encoded_length: Option<usize>) -> (r: Self)
        ensures
            r.wf(),
            r@ == (FetchMeta {
                retries: 0,
                fallback_peers: Seq::empty(),
                tx_encoded_length,
            }),
    {
        TxFetchMetadata {
            retries: 0,
            fallback_peers: LruCache::new(DEFAULT_MAX_COUNT_FALLBACK_PEERS as usize),
            tx_encoded_length,
        }
    }

    pub fn fallback_peers_mut(&mut self) -> (r: &mut LruCache<PeerId>)
        ensures
            *r == old(self).peers(),
            final(self).peers() == *final(r),
            final(self)@.retries == old(self)@.retries,
            final(self)@.tx_encoded_length == old(self)@.tx_encoded_length,
    {
        &mut self.fallback_peers
    }

    pub fn fallback_peers(&self) -> (r: &LruCache<PeerId>)
        ensures
            *r == self.peers(),
    {
        &self.fallback_peers
    }

    pub fn retries(&self) -> (r: u8)
        ensures
            r == self@.retries,
    {
        self.retries
    }

    pub fn tx_encoded_len(&self) -> (r: Option<usize>)
        ensures
            r == self@.tx_encoded_length,
    {
        self.tx_encoded_length
    }
}

/// Tracked hashes with their metadata, in a `schnellru::LruMap` without a length limit.
#[verifier::external_body]
pub struct TrackedHashes {
    map: schnellru::LruMap<TxHash, TxFetchMetadata, schnellru::Unlimited>,
}

/// What a `TrackedHashes` map holds: hash to metadata.
pub uninterp spec fn tracked_entries(m: TrackedHashes) -> Map<TxHash, TxFetchMetadata>;

/// Relies on `schnellru::LruMap::new` with the `Unlimited` limiter: an empty map.
#[verifier::external_body]
fn tracked_new() -> (r: TrackedHashes)
    ensures
        tracked_entries(r).dom() == Set::<TxHash>::empty(),
{
    TrackedHashes { map: schnellru::LruMap::new(schnellru::Unlimited) }
}

/// Relies on `schnellru::LruMap::len`: the number of entries.
#[verifier::external_body]
fn tracked_len(m: &TrackedHashes) -> (r: usize)
    ensures
        r == tracked_entries(*m).len(),
{
    m.map.len()
}

/// Relies on `schnellru::LruMap::peek`: the value for `k`, leaving the map as it is.
#[verifier::external_body]
fn tracked_peek<'a>(m: &'a TrackedHashes, k: &TxHash) -> (r: Option<&'a TxFetchMetadata>)
    ensures
        match r {
            Some(v) => tracked_entries(*m).contains_key(*k) && *v == tracked_entries(*m)[*k],
            None => !tracked_entries(*m).contains_key(*k),
        },
{
    m.map.peek(k)
}

/// Relies on `schnellru::LruMap::remove`: removes `k` and returns its value.
#[verifier::external_body]
fn tracked_remove(m: &mut TrackedHashes, k: &TxHash) -> (r: Option<TxFetchMetadata>)
    ensures
        match r {
            Some(v) => tracked_entries(*old(m)).contains_key(*k) && v == tracked_entries(*old(m))[*k],
            None => !tracked_entries(*old(m)).contains_key(*k),
        },
        tracked_entries(*final(m)) == tracked_entries(*old(m)).remove(*k),
{
    m.map.remove(k)
}

/// Relies on `schnellru::LruMap::insert` under the `Unlimited` limiter, which accepts
/// every key (`Unlimited::on_insert`) and never asks for an eviction: `k` is mapped to
/// `v` and nothing else changes. The one other path, where the table cannot grow and
/// entries are evicted or the insertion given up, is taken only when the allocator
/// refuses memory, which these clauses leave out as std's own collections do.
#[verifier::external_body]
fn tracked_insert(m: &mut TrackedHashes, k: TxHash, v: TxFetchMetadata) -> (r: bool)
    ensures
        r,
        tracked_entries(*final(m)) == tracked_entries(*old(m)).insert(k, v),
{
    m.map.insert(k, v)
}

/// The hashes the fetcher tracks, each with its metadata.
pub struct HashRegistry {
    map: TrackedHashes,
}

impl View for HashRegistry {
    type V = Map<TxHash, FetchMeta>;

    closed spec fn view(&self) -> Map<TxHash, FetchMeta> {
        tracked_entries(self.map).map_values(|m: TxFetchMetadata| m@)
    }
}

impl HashRegistry {
    pub closed spec fn wf(&self) -> bool {
        &&& tracked_entries(self.map).dom().finite()
        &&& forall|h: TxHash| #[trigger]
            tracked_entries(self.map).contains_key(h) ==> tracked_entries(self.map)[h].wf()
    }

    /// Every tracked hash has well-formed fallback peers.
    pub proof fn lemma_fallbacks_ok(&self, h: TxHash)
        requires
            self.wf(),
            self@.contains_key(h),
        ensures
            fallback_peers_ok(self@[h].fallback_peers),
    {
        assert(tracked_entries(self.map).contains_key(h));
    }

    /// A well-formed registry tracks finitely many hashes.
    pub proof fn lemma_finite(&self)
        requires
            self.wf(),
        ensures
            self@.dom().finite(),
    {
        assert(self@.dom() =~= tracked_entries(self.map).dom());
    }

    pub fn new() -> (r: Self)
        ensures
            r.wf(),
            r@ == Map::<TxHash, FetchMeta>::empty(),
    {
        let map = tracked_new();
        proof {
            assert(tracked_entries(map).dom() =~= Set::<TxHash>::empty());
        }
        let r = HashRegistry { map };
        proof {
            assert(r@ =~= Map::<TxHash, FetchMeta>::empty());
        }
        r
    }

    pub fn len(&self) -> (r: usize)
        requires
            self.wf(),
        ensures
            r == self@.len(),
            self@.dom().finite(),
    {
        proof {
            assert(self@.dom() =~= tracked_entries(self.map).dom());
        }
        tracked_len(&self.map)
    }

    pub fn contains(&self, h: &TxHash) -> (r: bool)
        requires
            self.wf(),
        ensures
            r == self@.contains_key(*h),
    {
        tracked_peek(&self.map, h).is_some()
    }

    /// The metadata of `h`, when tracked.
    pub fn peek(&self, h: &TxHash) -> (r: Option<&TxFetchMetadata>)
        requires
            self.wf(),
        ensures
            match r {
                Some(m) => self@.contains_key(*h) && m@ == self@[*h] && m.wf(),
                None => !self@.contains_key(*h),
            },
    {
        tracked_peek(&self.map, h)
    }

    /// Starts tracking `h`, which is not tracked yet.
    pub fn insert_new(&mut self, h: TxHash, meta: TxFetchMetadata)
        requires
            old(self).wf(),
            !old(self)@.contains_key(h),
            meta.wf(),
        ensures
            final(self).wf(),
            final(self)@ == old(self)@.insert(h, meta@),
    {
        let ghost mv = meta@;
        tracked_insert(&mut self.map, h, meta);
        proof {
            assert(self@ =~= old(self)@.insert(h, mv));
        }
    }

    /// Stops tracking `h`; returns whether it was tracked.
    pub fn remove(&mut self, h: &TxHash) -> (r: bool)
        requires
            old(self).wf(),
        ensures
            final(self).wf(),
            final(self)@ == old(self)@.remove(*h),
            r == old(self)@.contains_key(*h),
    {
        let r = tracked_remove(&mut self.map, h).is_some();
        proof {
            assert(self@ =~= old(self)@.remove(*h));
        }
        r
    }

    /// Takes the metadata of the tracked hash `h` out, for it to be put back changed.
    fn take(&mut self, h: &TxHash) -> (r: TxFetchMetadata)
        requires
            old(self).wf(),
            old(self)@.contains_key(*h),
        ensures
            r@ == old(self)@[*h],
            r.wf(),
            final(self).wf(),
            tracked_entries(final(self).map) == tracked_entries(old(self).map).remove(*h),
    {
        tracked_remove(&mut self.map, h).unwrap()
    }

    /// Puts back the metadata of `h`, taken out by `take`.
    fn put_back(&mut self, h: TxHash, m: TxFetchMetadata)
        requires
            old(self).wf(),
            m.wf(),
        ensures
            final(self).wf(),
            tracked_entries(final(self).map) == tracked_entries(old(self).map).insert(h, m),
    {
        tracked_insert(&mut self.map, h, m);
    }

    /// Records `size` as the encoded size of the tracked hash `h`.
    pub fn set_size(&mut self, h: &TxHash, size: usize)
        requires
            old(self).wf(),
            old(self)@.contains_key(*h),
        ensures
            final(self).wf(),
            final(self)@ == old(self)@.insert(
                *h,
                FetchMeta { tx_encoded_length: Some(size), ..old(self)@[*h] },
            ),
    {
        let mut m = self.take(h);
        m.tx_encoded_length = Some(size);
        self.put_back(*h, m);
        proof {
            assert(self@ =~= old(self)@.insert(
                *h,
                FetchMeta { tx_encoded_length: Some(size), ..old(self)@[*h] },
            ));
        }
    }

    /// Counts one more failed attempt for the tracked hash `h`.
    pub fn increment_retries(&mut self, h: &TxHash)
        requires
            old(self).wf(),
            old(self)@.contains_key(*h),
            old(self)@[*h].retries < u8::MAX,
        ensures
            final(self).wf(),
            final(self)@ == old(self)@.insert(
                *h,
                FetchMeta { retries: (old(self)@[*h].retries + 1) as u8, ..old(self)@[*h] },
            ),
    {
        let mut m = self.take(h);
        m.retries = m.retries + 1;
        self.put_back(*h, m);
        proof {
            assert(self@ =~= old(self)@.insert(
                *h,
                FetchMeta { retries: (old(self)@[*h].retries + 1) as u8, ..old(self)@[*h] },
            ));
        }
    }

    /// Touches `peer` among the fallback peers of the tracked hash `h`.
    pub fn insert_fallback_peer(&mut self, h: &TxHash, peer: PeerId)
        requires
            old(self).wf(),
            old(self)@.contains_key(*h),
        ensures
            final(self).wf(),
            final(self)@ == old(self)@.insert(
                *h,
                FetchMeta {
                    fallback_peers: lru_insert(
                        old(self)@[*h].fallback_peers,
                        peer,
                        DEFAULT_MAX_COUNT_FALLBACK_PEERS as nat,
                    ),
                    ..old(self)@[*h]
                },
            ),
    {
        let mut m = self.take(h);
        m.fallback_peers.insert(peer);
        self.put_back(*h, m);
        proof {
            assert(self@ =~= old(self)@.insert(
                *h,
                FetchMeta {
                    fallback_peers: lru_insert(
                        old(self)@[*h].fallback_peers,
                        peer,
                        DEFAULT_MAX_COUNT_FALLBACK_PEERS as nat,
                    ),
                    ..old(self)@[*h]
                },
            ));
        }
    }

    /// Removes `peer` from the fallback peers of the tracked hash `h`.
    pub fn remove_fallback_peer(&mut self, h: &TxHash, peer: &PeerId)
        requires
            old(self).wf(),
            old(self)@.contains_key(*h),
        ensures
            final(self).wf(),
            final(self)@ == old(self)@.insert(
                *h,
                FetchMeta {
                    fallback_peers: old(self)@[*h].fallback_peers.remove_value(*peer),
                    ..old(self)@[*h]
                },
            ),
    {
        let mut m = self.take(h);
        m.fallback_peers.remove(peer);
        self.put_back(*h, m);
        proof {
            assert(self@ =~= old(self)@.insert(
                *h,
                FetchMeta {
                    fallback_peers: old(self)@[*h].fallback_peers.remove_value(*peer),
                    ..old(self)@[*h]
                },
            ));
        }
    }

    /// Keeps, among the fallback peers of the tracked hash `h`, those at the positions
    /// where `keep` is true.
    pub fn retain_fallback_peers(&mut self, h: &TxHash, keep: &Vec<bool>)
        requires
            old(self).wf(),
            old(self)@.contains_key(*h),
            keep@.len() == old(self)@[*h].fallback_peers.len(),
        ensures
            final(self).wf(),
            final(self)@ == old(self)@.insert(
                *h,
                FetchMeta {
                    fallback_peers: kept(old(self)@[*h].fallback_peers, keep@),
                    ..old(self)@[*h]
                },
            ),
    {
        let mut m = self.take(h);
        m.fallback_peers.retain_marked(keep);
        self.put_back(*h, m);
        proof {
            assert(self@ =~= old(self)@.insert(
                *h,
                FetchMeta {
                    fallback_peers: kept(old(self)@[*h].fallback_peers, keep@),
                    ..old(self)@[*h]
                },
            ));
        }
    }
}

} // verus!
