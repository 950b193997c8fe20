use vstd::prelude::*;

use crate::cache::{kept, lemma_kept_subseq};
use crate::types::{CacheKey, TxHash};

verus! {

/// Version of the `eth` wire protocol spoken on a peer connection.
#[derive(Clone, Copy, Debug, PartialEq, Eq, Hash, Structural)]
pub enum EthVersion {
    Eth66,
    Eth67,
    Eth68,
}

impl EthVersion {
    pub fn is_eth68(&self) -> (r: bool)
        ensures
            r == (*self == EthVersion::Eth68),
    {
        match self {
            EthVersion::Eth68 => true,
            _ => false,
        }
    }
}

/// Metadata that a newer-protocol announcement carries for a hash: transaction type
/// and encoded byte size.
pub type TxMetadata = Option<(u8, usize)>;

/// The announced size of an entry, zero when the announcement carries none.
pub open spec fn entry_size(e: (TxHash, TxMetadata)) -> int {
    match e.1 {
        Some(m) => m.1 as int,
        None => 0,
    }
}

/// The hashes of a sequence of announcement entries, in order.
pub open spec fn entry_hashes(s: Seq<(TxHash, TxMetadata)>) -> Seq<TxHash> {
    s.map_values(|e: (TxHash, TxMetadata)| e.0)
}

/// Whether every entry of `s` carries size metadata.
pub open spec fn all_sized(s: Seq<(TxHash, TxMetadata)>) -> bool {
    forall|i: int| 0 <= i < s.len() ==> (#[trigger] s[i]).1.is_some()
}

/// Whether no hash occurs twice among the entries of `s`.
pub open spec fn distinct_hashes(s: Seq<(TxHash, TxMetadata)>) -> bool {
    forall|i: int, j: int| 0 <= i < s.len() && 0 <= j < s.len() && i != j ==> s[i].0 != s[j].0
}

/// An ordered sequence of transaction hashes to request from one peer.
#[derive(Debug)]
pub struct RequestTxHashes {
    hashes: Vec<TxHash>,
}

impl View for RequestTxHashes {
    type V = Seq<TxHash>;

    closed spec fn view(&self) -> Seq<TxHash> {
        self.hashes@
    }
}

impl RequestTxHashes {
    pub fn new(hashes: Vec<TxHash>) -> (r: Self)
        ensures
            r@ == hashes@,
    {
        RequestTxHashes { hashes }
    }

    pub fn with_capacity(capacity: usize) -> (r: Self)
        ensures
            r@ == Seq::<TxHash>::empty(),
    {
        RequestTxHashes { hashes: Vec::with_capacity(capacity) }
    }

    pub fn empty() -> (r: Self)
        ensures
            r@ == Seq::<TxHash>::empty(),
    {
        RequestTxHashes { hashes: Vec::new() }
    }

    pub fn len(&self) -> (r: usize)
        ensures
            r == self@.len(),
    {
        self.hashes.len()
    }

    pub fn is_empty(&self) -> (r: bool)
        ensures
            r == (self@.len() == 0),
    {
        self.hashes.len() == 0
    }

    pub fn get(&self, i: usize) -> (r: TxHash)
        requires
            i < self@.len(),
        ensures
            r == self@[i as int],
    {
        self.hashes[i]
    }

    pub fn first(&self) -> (r: Option<TxHash>)
        ensures
            r == (if self@.len() > 0 {
                Some(self@[0])
            } else {
                None
            }),
    {
        if self.hashes.len() > 0 {
            Some(self.hashes[0])
        } else {
            None
        }
    }

    pub fn push(&mut self, hash: TxHash)
        ensures
            final(self)@ == old(self)@.push(hash),
    {
        self.hashes.push(hash);
    }

    /// Splits off the hashes from position `at` on, which are returned; the first `at`
    /// stay.
    pub fn split_off(&mut self, at: usize) -> (r: Self)
        requires
            at <= old(self)@.len(),
        ensures
            final(self)@ == old(self)@.take(at as int),
            r@ == old(self)@.skip(at as int),
    {
        let rest = self.hashes.split_off(at);
        RequestTxHashes { hashes: rest }
    }

    pub fn into_vec(self) -> (r: Vec<TxHash>)
        ensures
            r@ == self@,
    {
        self.hashes
    }
}

/// The hashes of one announcement that passed validation, each with the metadata the
/// announcement carried for it, in the order they were announced.
#[derive(Debug)]
pub struct ValidAnnouncementData {
    data: Vec<(TxHash, TxMetadata)>,
    version: EthVersion,
}

impl View for ValidAnnouncementData {
    type V = Seq<(TxHash, TxMetadata)>;

    closed spec fn view(&self) -> Seq<(TxHash, TxMetadata)> {
        self.data@
    }
}

impl ValidAnnouncementData {
    pub closed spec fn version(&self) -> EthVersion {
        self.version
    }

    pub open spec fn wf(&self) -> bool {
        distinct_hashes(self@)
    }

    /// An empty announcement of the given protocol version.
    pub fn empty(version: EthVersion) -> (r: Self)
        ensures
            r.wf(),
            r@ == Seq::<(TxHash, TxMetadata)>::empty(),
            r.version() == version,
    {
        ValidAnnouncementData { data: Vec::new(), version }
    }

    /// An empty announcement of protocol version 68.
    pub fn empty_eth68() -> (r: Self)
        ensures
            r.wf(),
            r@ == Seq::<(TxHash, TxMetadata)>::empty(),
            r.version() == EthVersion::Eth68,
    {
        Self::empty(EthVersion::Eth68)
    }

    /// An empty announcement of protocol version 66.
    pub fn empty_eth66() -> (r: Self)
        ensures
            r.wf(),
            r@ == Seq::<(TxHash, TxMetadata)>::empty(),
            r.version() == EthVersion::Eth66,
    {
        Self::empty(EthVersion::Eth66)
    }

    pub fn msg_version(&self) -> (r: EthVersion)
        ensures
            r == self.version(),
    {
        self.version
    }

    pub fn len(&self) -> (r: usize)
        ensures
            r == self@.len(),
    {
        self.data.len()
    }

    pub fn get(&self, i: usize) -> (r: (TxHash, TxMetadata))
        requires
            i < self@.len(),
        ensures
            r == self@[i as int],
    {
        self.data[i]
    }

    /// Records `hash` with `metadata`. A hash already present keeps its position and
    /// has its metadata replaced; the previous metadata is returned.
    pub fn insert(&mut self, hash: TxHash, metadata: TxMetadata) -> (r: Option<TxMetadata>)
        requires
            old(self).wf(),
        ensures
            final(self).wf(),
            final(self).version() == old(self).version(),
            match r {
                Some(prev) => exists|i: int|
                    0 <= i < old(self)@.len() && old(self)@[i] == (hash, prev) && final(self)@
                        == old(self)@.update(i, (hash, metadata)),
                None => !entry_hashes(old(self)@).contains(hash) && final(self)@ == old(
                    self,
                )@.push((hash, metadata)),
            },
    {
        let mut i: usize = 0;
        while i < self.data.len()
            invariant
                i <= self.data@.len(),
                self.data@ == old(self)@,
                self.version == old(self).version,
                distinct_hashes(old(self)@),
                forall|j: int| 0 <= j < i ==> self.data@[j].0 != hash,
            decreases self.data@.len() - i,
        {
            if self.data[i].0.same(&hash) {
                let prev = self.data[i].1;
                self.data.set(i, (hash, metadata));
                proof {
                    assert(old(self)@[i as int] == (hash, prev));
                    assert forall|a: int, b: int|
                        0 <= a < self@.len() && 0 <= b < self@.len() && a != b implies self@[a].0
                        != self@[b].0 by {
                        assert(self@[a].0 == old(self)@[a].0);
                        assert(self@[b].0 == old(self)@[b].0);
                    }
                }
                return Some(prev);
            }
            i += 1;
        }
        proof {
            if entry_hashes(old(self)@).contains(hash) {
                let k = choose|k: int|
                    0 <= k < entry_hashes(old(self)@).len() && entry_hashes(old(self)@)[k] == hash;
                assert(old(self)@[k].0 == hash);
            }
        }
        self.data.push((hash, metadata));
        None
    }

    /// Keeps the entries at the positions where `keep` is true, in order.
    pub fn retain_marked(&mut self, keep: &Vec<bool>)
        requires
            old(self).wf(),
            keep@.len() == old(self)@.len(),
        ensures
            final(self).wf(),
            final(self).version() == old(self).version(),
            final(self)@ == kept(old(self)@, keep@),
    {
        let mut out: Vec<(TxHash, TxMetadata)> = Vec::new();
        let mut i: usize = 0;
        while i < self.data.len()
            invariant
                i <= self.data@.len(),
                keep@.len() == self.data@.len(),
                self.data@ == old(self)@,
                out@ == kept(self.data@.take(i as int), keep@.take(i as int)),
            decreases self.data@.len() - i,
        {
            proof {
                assert(self.data@.take(i + 1).drop_last() =~= self.data@.take(i as int));
                assert(keep@.take(i + 1).drop_last() =~= keep@.take(i as int));
            }
            if keep[i] {
                out.push(self.data[i]);
            }
            i += 1;
        }
        proof {
            assert(self.data@.take(i as int) =~= self.data@);
            assert(keep@.take(i as int) =~= keep@);
            lemma_kept_distinct(old(self)@, keep@);
        }
        self.data = out;
    }

    /// The announced hashes in order, and the protocol version.
    pub fn into_request_hashes(self) -> (r: (RequestTxHashes, EthVersion))
        ensures
            r.0@ == entry_hashes(self@),
            r.1 == self.version(),
    {
        let mut hashes: Vec<TxHash> = Vec::with_capacity(self.data.len());
        let mut i: usize = 0;
        while i < self.data.len()
            invariant
                i <= self.data@.len(),
                hashes@ == entry_hashes(self.data@.take(i as int)),
            decreases self.data@.len() - i,
        {
            proof {
                assert(entry_hashes(self.data@.take(i + 1)) =~= entry_hashes(
                    self.data@.take(i as int),
                ).push(self.data@[i as int].0));
            }
            hashes.push(self.data[i].0);
            i += 1;
        }
        proof {
            assert(self.data@.take(i as int) =~= self.data@);
        }
        (RequestTxHashes { hashes }, self.version)
    }
}

/// Every entry kept from `s` is an entry of `s`, and distinct hashes stay distinct.
pub proof fn lemma_kept_distinct(s: Seq<(TxHash, TxMetadata)>, keep: Seq<bool>)
    requires
        keep.len() == s.len(),
    ensures
        forall|e| kept(s, keep).contains(e) ==> s.contains(e),
        distinct_hashes(s) ==> distinct_hashes(kept(s, keep)),
    decreases s.len(),
{
    lemma_kept_subseq(s, keep);
    if s.len() > 0 {
        lemma_kept_distinct(s.drop_last(), keep.drop_last());
        lemma_kept_subseq(s.drop_last(), keep.drop_last());
        let rest = kept(s.drop_last(), keep.drop_last());
        if distinct_hashes(s) {
            assert(distinct_hashes(s.drop_last()));
            if keep.last() {
                let r = kept(s, keep);
                assert forall|i: int, j: int|
                    0 <= i < r.len() && 0 <= j < r.len() && i != j implies r[i].0 != r[j].0 by {
                    if i == r.len() - 1 || j == r.len() - 1 {
                        let o = if i == r.len() - 1 { j } else { i };
                        assert(rest[o] == r[o]);
                        assert(rest.contains(r[o]));
                        assert(s.drop_last().contains(r[o]));
                        let k = choose|k: int| 0 <= k < s.drop_last().len() && s.drop_last()[k] == r[o];
                        assert(s[k] == r[o]);
                    }
                }
            }
        }
    }
}

} // verus!
