use vstd::prelude::*;

use crate::announcement::{
    all_sized, entry_hashes, entry_size, EthVersion, RequestTxHashes, ValidAnnouncementData,
};
use crate::cache::kept;
use crate::cache::LruCache;
use crate::constants::{
    DEFAULT_SOFT_LIMIT_BYTE_SIZE_POOLED_TRANSACTIONS_RESPONSE, MEDIAN_BYTE_SIZE_SMALL_LEGACY_TX_ENCODED,
    SOFT_LIMIT_COUNT_HASHES_IN_GET_POOLED_TRANSACTIONS_REQUEST, AVERAGE_BYTE_SIZE_TX_ENCODED, DEFAULT_BUDGET_FIND_IDLE_FALLBACK_PEER,
    DEFAULT_SOFT_LIMIT_BYTE_SIZE_POOLED_TRANSACTIONS_RESPONSE_ON_FETCH_PENDING_HASHES,
    DEFAULT_SOFT_LIMIT_COUNT_HASHES_IN_GET_POOLED_TRANSACTIONS_REQUEST_ON_FETCH_PENDING_HASHES,
    DEFAULT_BUDGET_FIND_INTERSECTION_ANNOUNCED_BY_PEER_AND_PENDING_FETCH,
    DEFAULT_MAX_CAPACITY_CACHE_PENDING_FETCH, DEFAULT_MAX_COUNT_CONCURRENT_REQUESTS, DEFAULT_MAX_COUNT_CONCURRENT_REQUESTS_PER_PEER,
    DEFAULT_MAX_COUNT_PENDING_FETCH, DEFAULT_MAX_INFLIGHT_REQUESTS_ON_FETCH_PENDING_HASHES,
    DEFAULT_MAX_RETRIES,
};
use crate::model::{
    announce_fold, announce_step, announced_size, live_flags, buffer_fold, buffered, queue_hash, rebuffered, state_ok, strike_fold, untrack_all,
    FetcherState,
};
use crate::packing::{
    pack_counted, pack_counted_hashes, pack_sized, pack_sized_hashes, total_size,
};
use crate::peers::{
    active_counts, active_limit, active_peers_get, active_peers_insert, active_peers_len,
    active_peers_new, active_peers_peek, active_peers_remove, ActivePeers,
};
use crate::registry::{HashRegistry, TxFetchMetadata};
use crate::types::{vec_contains, CacheKey, PeerId, TxHash};

verus! {

/// Limits on how busy the fetcher may get before it narrows its searches.
pub struct TransactionFetcherInfo {
    /// Number of in-flight requests above which the fetcher counts as busy.
    max_inflight_transaction_requests: usize,
    /// Number of hashes pending fetch at which the fetcher counts as busy.
    max_hashes_pending_fetch: usize,
}

impl TransactionFetcherInfo {
    pub closed spec fn max_inflight(&self) -> usize {
        self.max_inflight_transaction_requests
    }

    pub closed spec fn max_pending(&self) -> usize {
        self.max_hashes_pending_fetch
    }

    pub fn new(max_inflight_transaction_requests: usize, max_hashes_pending_fetch: usize) -> (r: Self)
        ensures
            r.max_inflight() == max_inflight_transaction_requests,
            r.max_pending() == max_hashes_pending_fetch,
    {
        TransactionFetcherInfo { max_inflight_transaction_requests, max_hashes_pending_fetch }
    }

    pub fn max_inflight_transaction_requests(&self) -> (r: usize)
        ensures
            r == self.max_inflight(),
    {
        self.max_inflight_transaction_requests
    }

    pub fn max_hashes_pending_fetch(&self) -> (r: usize)
        ensures
            r == self.max_pending(),
    {
        self.max_hashes_pending_fetch
    }
}

impl Default for TransactionFetcherInfo {
    fn default() -> (r: Self)
        ensures
            r.max_inflight() == DEFAULT_MAX_INFLIGHT_REQUESTS_ON_FETCH_PENDING_HASHES,
            r.max_pending() == DEFAULT_MAX_COUNT_PENDING_FETCH,
    {
        Self::new(
            DEFAULT_MAX_INFLIGHT_REQUESTS_ON_FETCH_PENDING_HASHES,
            DEFAULT_MAX_COUNT_PENDING_FETCH,
        )
    }
}

/// Error of a request to a peer.
#[derive(Clone, Copy, Debug, PartialEq, Eq, Structural)]
pub enum RequestError {
    /// The channel to the peer's session closed before a response came.
    ChannelClosed,
    /// The connection to the peer dropped.
    ConnectionDropped,
    /// The peer does not support the request.
    UnsupportedCapability,
    /// The request timed out.
    Timeout,
    /// The peer sent a response that does not match the request.
    BadResponse,
}

/// How a request for pooled transactions resolved.
pub enum RequestOutcome<T> {
    /// The peer answered with `transactions`, whose hashes are `hashes`.
    Response { hashes: Vec<TxHash>, transactions: Vec<T> },
    /// The peer answered with an error.
    Failed(RequestError),
    /// The response channel closed before an answer came.
    ChannelClosed,
}

/// An event of the fetcher, one per resolved request.
pub enum FetchEvent<T> {
    /// Transactions came from `peer_id`.
    TransactionsFetched { peer_id: PeerId, transactions: Vec<T> },
    /// The request to `peer_id` failed.
    FetchError { peer_id: PeerId, error: RequestError },
}

/// For each requested hash, whether the response holds it.
pub open spec fn in_response_flags(requested: Seq<TxHash>, response: Seq<TxHash>) -> Seq<bool> {
    Seq::new(requested.len(), |i: int| response.contains(requested[i]))
}

/// For each requested hash, whether the response lacks it.
pub open spec fn missing_flags(requested: Seq<TxHash>, response: Seq<TxHash>) -> Seq<bool> {
    Seq::new(requested.len(), |i: int| !response.contains(requested[i]))
}

/// The in-flight counts once one request to `p` resolved: a peer whose last request
/// resolved leaves.
pub open spec fn decremented(counts: Map<PeerId, u8>, p: PeerId) -> Map<PeerId, u8> {
    if !counts.contains_key(p) {
        counts
    } else if counts[p] <= 1 {
        counts.remove(p)
    } else {
        counts.insert(p, (counts[p] - 1) as u8)
    }
}

/// A peer with an active session, as the scheduler sees it.
pub struct Peer {
    pub peer_id: PeerId,
    /// Protocol version of the connection.
    pub version: EthVersion,
    /// Hashes the peer is known to have seen.
    pub seen_transactions: LruCache<TxHash>,
}

/// The identifiers of `peers`, in order.
pub open spec fn peer_ids(peers: Seq<Peer>) -> Seq<PeerId> {
    peers.map_values(|p: Peer| p.peer_id)
}

/// Position of the first of `peers`, from `i` on, with identifier `id`.
pub open spec fn find_peer_from(peers: Seq<Peer>, id: PeerId, i: int) -> Option<int>
    decreases peers.len() - i,
{
    if i < 0 || i >= peers.len() {
        None
    } else if peers[i].peer_id == id {
        Some(i)
    } else {
        find_peer_from(peers, id, i + 1)
    }
}

/// The first of `peers`, from position `i` on, that is idle according to `counts` and
/// among `live`.
pub open spec fn first_idle_live(peers: Seq<PeerId>, counts: Map<PeerId, u8>, live: Seq<PeerId>, i: int) -> Option<PeerId>
    decreases peers.len() - i,
{
    if i < 0 || i >= peers.len() {
        None
    } else if is_idle_in(counts, peers[i]) && live.contains(peers[i]) {
        Some(peers[i])
    } else {
        first_idle_live(peers, counts, live, i + 1)
    }
}

/// The first fallback peer of `h` that is idle and live, if `h` is tracked.
pub open spec fn idle_peer_for(st: FetcherState, counts: Map<PeerId, u8>, live: Seq<PeerId>, h: TxHash) -> Option<PeerId> {
    if st.registry.contains_key(h) {
        first_idle_live(st.registry[h].fallback_peers, counts, live, 0)
    } else {
        None
    }
}

/// How many pending hashes a search looks at: all of them without a budget, else the
/// budget (at least one).
pub open spec fn scan_limit(budget: Option<usize>, len: int) -> int {
    match budget {
        None => len,
        Some(b) => {
            let n = if b == 0 { 1 } else { b as int };
            if n < len { n } else { len }
        },
    }
}

/// Position of the first pending hash, from `i` up to `end`, that has an idle live
/// fallback peer.
pub open spec fn first_pending_with_idle_peer(
    st: FetcherState,
    counts: Map<PeerId, u8>,
    live: Seq<PeerId>,
    i: int,
    end: int,
) -> Option<int>
    decreases end - i,
{
    if i < 0 || i >= end || i >= st.pending.len() {
        None
    } else if idle_peer_for(st, counts, live, st.pending[i]).is_some() {
        Some(i)
    } else {
        first_pending_with_idle_peer(st, counts, live, i + 1, end)
    }
}

/// The expected encoded size of `h`: as announced, or a typical size when unknown.
pub open spec fn size_estimate(reg: Map<TxHash, crate::registry::FetchMeta>, h: TxHash) -> int {
    if reg.contains_key(h) {
        match reg[h].tx_encoded_length {
            Some(s) => s as int,
            None => AVERAGE_BYTE_SIZE_TX_ENCODED as int,
        }
    } else {
        AVERAGE_BYTE_SIZE_TX_ENCODED as int
    }
}

/// Hashes added to a request from the pending queue, scanning positions `i` up to
/// `end`: each pending hash the peer has seen is added, until the expected response
/// size `acc` or the hash count `n` reaches its limit.
pub open spec fn fill_from(
    st: FetcherState,
    seen: Seq<TxHash>,
    i: int,
    end: int,
    acc: int,
    n: int,
) -> Seq<TxHash>
    decreases end - i,
{
    if i < 0 || i >= end || i >= st.pending.len() {
        Seq::empty()
    } else {
        let h = st.pending[i];
        if seen.contains(h) {
            let acc2 = acc + size_estimate(st.registry, h);
            let n2 = n + 1;
            if acc2 >= DEFAULT_SOFT_LIMIT_BYTE_SIZE_POOLED_TRANSACTIONS_RESPONSE_ON_FETCH_PENDING_HASHES
                || n2 >= DEFAULT_SOFT_LIMIT_COUNT_HASHES_IN_GET_POOLED_TRANSACTIONS_REQUEST_ON_FETCH_PENDING_HASHES {
                seq![h]
            } else {
                seq![h] + fill_from(st, seen, i + 1, end, acc2, n2)
            }
        } else {
            fill_from(st, seen, i + 1, end, acc, n)
        }
    }
}

/// Hashes added to the request `buf` (whose first hash sets the starting size) from
/// the pending queue, looking at as many pending hashes as `budget` allows.
pub open spec fn filled(st: FetcherState, buf: Seq<TxHash>, seen: Seq<TxHash>, budget: Option<usize>) -> Seq<TxHash> {
    if buf.len() == 0 {
        Seq::empty()
    } else {
        let acc0 = size_estimate(st.registry, buf[0]);
        if acc0 >= DEFAULT_SOFT_LIMIT_BYTE_SIZE_POOLED_TRANSACTIONS_RESPONSE_ON_FETCH_PENDING_HASHES {
            Seq::empty()
        } else {
            fill_from(st, seen, 0, scan_limit(budget, st.pending.len() as int), acc0, buf.len() as int)
        }
    }
}

/// `p` with each of `hs` removed, in order.
pub open spec fn remove_all_pending(p: Seq<TxHash>, hs: Seq<TxHash>) -> Seq<TxHash>
    decreases hs.len(),
{
    if hs.len() == 0 {
        p
    } else {
        remove_all_pending(p, hs.drop_last()).remove_value(hs.last())
    }
}

/// Removing each of `hs` from a duplicate-free sequence leaves none of them, adds
/// nothing, and keeps it duplicate-free.
pub proof fn lemma_remove_all_pending(p: Seq<TxHash>, hs: Seq<TxHash>)
    requires
        p.no_duplicates(),
    ensures
        remove_all_pending(p, hs).no_duplicates(),
        forall|h: TxHash| #[trigger] hs.contains(h) ==> !remove_all_pending(p, hs).contains(h),
        forall|y: TxHash| #[trigger] remove_all_pending(p, hs).contains(y) ==> p.contains(y),
    decreases hs.len(),
{
    if hs.len() > 0 {
        let prev = remove_all_pending(p, hs.drop_last());
        lemma_remove_all_pending(p, hs.drop_last());
        crate::laws::lemma_remove_value_no_dup(prev, hs.last());
        assert forall|h: TxHash| #[trigger] hs.contains(h) implies !remove_all_pending(p, hs).contains(h) by {
            if h != hs.last() {
                let k = choose|k: int| 0 <= k < hs.len() && hs[k] == h;
                assert(hs.drop_last()[k] == h);
                assert(hs.drop_last().contains(h));
            }
        }
        assert forall|y: TxHash| #[trigger] remove_all_pending(p, hs).contains(y) implies p.contains(y) by {
            assert(prev.contains(y));
        }
    }
}

/// What fetching pending hashes plans, before the request is admitted: the peer, the
/// hashes to request, and the state once they have left the pending queue. `None`
/// when no pending hash within the budget has an idle live fallback peer.
pub open spec fn fetch_plan(
    st: FetcherState,
    counts: Map<PeerId, u8>,
    peers: Seq<Peer>,
    limits: TransactionFetcherInfo,
    inflight_requests: usize,
    budget: Option<usize>,
) -> Option<(PeerId, Seq<TxHash>, FetcherState)> {
    let live = peer_ids(peers);
    match first_pending_with_idle_peer(st, counts, live, 0, scan_limit(budget, st.pending.len() as int)) {
        None => None,
        Some(i) => {
            let h = st.pending[i];
            let p = idle_peer_for(st, counts, live, h).unwrap();
            let st1 = FetcherState { registry: st.registry, pending: st.pending.remove_value(h) };
            let k = find_peer_from(peers, p, 0).unwrap();
            let budget2 = if inflight_requests <= limits.max_inflight()
                && st1.pending.len() < limits.max_pending() {
                None
            } else {
                Some(DEFAULT_BUDGET_FIND_INTERSECTION_ANNOUNCED_BY_PEER_AND_PENDING_FETCH)
            };
            let req = seq![h] + filled(st1, seq![h], peers[k].seen_transactions@, budget2);
            Some((p, req, FetcherState { registry: st.registry, pending: remove_all_pending(st1.pending, req) }))
        },
    }
}

pub proof fn lemma_first_idle_live(peers: Seq<PeerId>, counts: Map<PeerId, u8>, live: Seq<PeerId>, i: int)
    ensures
        first_idle_live(peers, counts, live, i) matches Some(p) ==> live.contains(p) && is_idle_in(counts, p),
    decreases peers.len() - i,
{
    if 0 <= i < peers.len() {
        lemma_first_idle_live(peers, counts, live, i + 1);
    }
}

pub proof fn lemma_find_peer(peers: Seq<Peer>, id: PeerId, i: int, j: int)
    requires
        0 <= i <= j < peers.len(),
        peers[j].peer_id == id,
    ensures
        find_peer_from(peers, id, i) matches Some(k) && 0 <= k < peers.len() && peers[k].peer_id == id,
    decreases j - i,
{
    if peers[i].peer_id != id {
        lemma_find_peer(peers, id, i + 1, j);
    }
}

/// Number of requests in flight to `p` according to `counts`.
pub open spec fn in_flight_of(counts: Map<PeerId, u8>, p: PeerId) -> int {
    if counts.contains_key(p) {
        counts[p] as int
    } else {
        0
    }
}

/// Whether `p` can take one more request.
pub open spec fn is_idle_in(counts: Map<PeerId, u8>, p: PeerId) -> bool {
    in_flight_of(counts, p) < DEFAULT_MAX_COUNT_CONCURRENT_REQUESTS_PER_PEER
}

/// Keeps track of the transaction hashes that are being fetched, of the hashes that
/// wait for an idle peer, and of the peers that have requests in flight.
pub struct TransactionFetcher {
    /// Peers with requests in flight, with their number of requests in flight.
    active_peers: ActivePeers,
    /// Hashes awaiting an idle fallback peer so they can be fetched.
    hashes_pending_fetch: LruCache<TxHash>,
    /// Every hash the fetcher tracks, with its metadata.
    hashes_unknown_to_pool: HashRegistry,
    /// Limits on how busy the fetcher may get.
    info: TransactionFetcherInfo,
}

impl TransactionFetcher {
    /// The tracked hashes and the pending queue.
    pub closed spec fn state(&self) -> FetcherState {
        FetcherState {
            registry: self.hashes_unknown_to_pool@,
            pending: self.hashes_pending_fetch@,
        }
    }

    /// Number of requests in flight per active peer.
    pub closed spec fn in_flight(&self) -> Map<PeerId, u8> {
        active_counts(self.active_peers)
    }

    /// Largest number of peers with requests in flight at once.
    pub closed spec fn peer_limit(&self) -> nat {
        active_limit(self.active_peers)
    }

    pub closed spec fn limits(&self) -> TransactionFetcherInfo {
        self.info
    }

    pub closed spec fn wf(&self) -> bool {
        &&& self.hashes_unknown_to_pool.wf()
        &&& self.hashes_pending_fetch.wf()
        &&& self.hashes_pending_fetch.capacity() == DEFAULT_MAX_CAPACITY_CACHE_PENDING_FETCH
        &&& forall|h: TxHash|
            #[trigger] self.hashes_pending_fetch@.contains(h)
                ==> self.hashes_unknown_to_pool@.contains_key(h)
        &&& forall|p: PeerId|
            #[trigger] self.in_flight().contains_key(p) ==> self.in_flight()[p]
                <= DEFAULT_MAX_COUNT_CONCURRENT_REQUESTS_PER_PEER
        &&& self.limits().max_inflight() <= self.peer_limit()
    }

    /// The bookkeeping of a well-formed fetcher meets `state_ok`.
    pub proof fn lemma_state_ok(&self)
        requires
            self.wf(),
        ensures
            state_ok(self.state()),
            forall|p: PeerId| #[trigger]
                self.in_flight().contains_key(p) ==> self.in_flight()[p]
                    <= DEFAULT_MAX_COUNT_CONCURRENT_REQUESTS_PER_PEER,
    {
        self.hashes_unknown_to_pool.lemma_finite();
        assert forall|h: TxHash| #[trigger] self.state().registry.contains_key(h) implies crate::registry::fallback_peers_ok(
            self.state().registry[h].fallback_peers,
        ) by {
            self.hashes_unknown_to_pool.lemma_fallbacks_ok(h);
        }
    }

    proof fn lemma_keys_kept(a: Self, b: Self)
        requires
            a.wf(),
            b.hashes_unknown_to_pool.wf(),
            b.hashes_pending_fetch == a.hashes_pending_fetch,
            b.active_peers == a.active_peers,
            b.info == a.info,
            forall|h: TxHash| #[trigger]
                a.hashes_unknown_to_pool@.contains_key(h) ==> b.hashes_unknown_to_pool@.contains_key(h),
        ensures
            b.wf(),
    {
        assert forall|h: TxHash| #[trigger] b.hashes_pending_fetch@.contains(h) implies b.hashes_unknown_to_pool@.contains_key(h) by {
            assert(a.hashes_pending_fetch@.contains(h));
            assert(a.hashes_unknown_to_pool@.contains_key(h));
        }
        assert(b.in_flight() == a.in_flight());
        assert(b.hashes_pending_fetch.wf());
        assert(b.hashes_unknown_to_pool.wf());
    }

    /// Stops tracking each of `hashes`: they leave the registry and the pending queue.
    pub fn remove_from_unknown_hashes(&mut self, hashes: Vec<TxHash>)
        requires
            old(self).wf(),
        ensures
            final(self).wf(),
            final(self).state() == untrack_all(old(self).state(), hashes@),
            final(self).in_flight() == old(self).in_flight(),
            final(self).peer_limit() == old(self).peer_limit(),
            final(self).limits() == old(self).limits(),
    {
        let mut i: usize = 0;
        while i < hashes.len()
            invariant
                i <= hashes@.len(),
                self.wf(),
                self.state() == untrack_all(old(self).state(), hashes@.take(i as int)),
                self.active_peers == old(self).active_peers,
                self.info == old(self).info,
            decreases hashes@.len() - i,
        {
            let h = hashes[i];
            let ghost before = *self;
            self.hashes_unknown_to_pool.remove(&h);
            self.hashes_pending_fetch.remove(&h);
            proof {
                assert forall|g: TxHash| #[trigger] self.hashes_pending_fetch@.contains(g) implies self.hashes_unknown_to_pool@.contains_key(g) by {
                    assert(g != h);
                    assert(before.hashes_pending_fetch@.contains(g));
                    assert(before.hashes_unknown_to_pool@.contains_key(g));
                }
                assert(self.in_flight() == before.in_flight());
                assert(hashes@.take(i + 1).drop_last() =~= hashes@.take(i as int));
            }
            i += 1;
        }
        proof {
            assert(hashes@.take(i as int) =~= hashes@);
        }
    }

    /// Touches `h`, which is tracked, in the pending queue; an evicted hash is noted in
    /// `dropped`.
    fn queue_pending(&mut self, h: TxHash, dropped: &mut Vec<TxHash>)
        requires
            old(self).wf(),
            old(self).state().registry.contains_key(h),
        ensures
            final(self).wf(),
            (final(self).state(), final(dropped)@) == queue_hash(old(self).state(), h, old(dropped)@),
            final(self).active_peers == old(self).active_peers,
            final(self).info == old(self).info,
    {
        let (_, evicted) = self.hashes_pending_fetch.insert_and_get_evicted(h);
        match evicted {
            Some(e) => dropped.push(e),
            None => {},
        }
        proof {
            let cap = DEFAULT_MAX_CAPACITY_CACHE_PENDING_FETCH as nat;
            let op = old(self).hashes_pending_fetch@;
            let np = self.hashes_pending_fetch@;
            assert forall|g: TxHash| #[trigger] np.contains(g) implies self.hashes_unknown_to_pool@.contains_key(g) by {
                if g != h {
                    let k = choose|k: int| 0 <= k < np.len() && np[k] == g;
                    if op.contains(h) {
                        let jj = choose|j: int| 0 <= j < op.len() && op[j] == h;
                        crate::cache::lemma_remove_value_at(op, jj);
                        assert(np == op.remove(jj).push(h));
                        assert(op.remove(jj)[k] == g);
                        assert(op.remove(jj).contains(g));
                        assert(op.contains(g));
                    } else if op.len() < cap {
                        assert(op[k] == g);
                        assert(op.contains(g));
                    } else {
                        assert(op[k + 1] == g);
                        assert(op.contains(g));
                    }
                    assert(old(self).hashes_unknown_to_pool@.contains_key(g));
                }
            }
            assert(self.in_flight() == old(self).in_flight());
        }
    }

    /// Buffers `hashes` (see `buffered`). Pass a `fallback_peer` only for a peer that
    /// has not been asked for these hashes yet; without one, this is a retry.
    pub fn buffer_hashes(&mut self, hashes: RequestTxHashes, fallback_peer: Option<PeerId>)
        requires
            old(self).wf(),
        ensures
            final(self).wf(),
            final(self).state() == buffered(old(self).state(), hashes@, fallback_peer),
            final(self).in_flight() == old(self).in_flight(),
            final(self).peer_limit() == old(self).peer_limit(),
            final(self).limits() == old(self).limits(),
    {
        let mut dropped: Vec<TxHash> = Vec::new();
        let mut i: usize = 0;
        while i < hashes.len()
            invariant
                i <= hashes@.len(),
                self.wf(),
                (self.state(), dropped@) == buffer_fold(old(self).state(), hashes@.take(i as int), fallback_peer),
                self.active_peers == old(self).active_peers,
                self.info == old(self).info,
            decreases hashes@.len() - i,
        {
            let h = hashes.get(i);
            proof {
                assert(hashes@.take(i + 1).drop_last() =~= hashes@.take(i as int));
                assert(hashes@.take(i + 1).last() == h);
            }
            let retries: Option<u8> = match self.hashes_unknown_to_pool.peek(&h) {
                Some(meta) => Some(meta.retries()),
                None => None,
            };
            match retries {
                None => {},
                Some(r) => {
                    match fallback_peer {
                        Some(p) => {
                            let ghost before = *self;
                            self.hashes_unknown_to_pool.insert_fallback_peer(&h, p);
                            proof {
                                Self::lemma_keys_kept(before, *self);
                            }
                            self.queue_pending(h, &mut dropped);
                        },
                        None => {
                            if r >= DEFAULT_MAX_RETRIES {
                                dropped.push(h);
                            } else {
                                let ghost before = *self;
                                self.hashes_unknown_to_pool.increment_retries(&h);
                                proof {
                                    Self::lemma_keys_kept(before, *self);
                                }
                                self.queue_pending(h, &mut dropped);
                            }
                        },
                    }
                },
            }
            i += 1;
        }
        proof {
            assert(hashes@.take(i as int) =~= hashes@);
        }
        self.remove_from_unknown_hashes(dropped);
    }

    /// Re-buffers `hashes` after `peer_failed_to_serve` failed to deliver them (see
    /// `rebuffered`).
    pub fn buffer_hashes_for_retry(&mut self, hashes: RequestTxHashes, peer_failed_to_serve: &PeerId)
        requires
            old(self).wf(),
        ensures
            final(self).wf(),
            final(self).state() == rebuffered(old(self).state(), hashes@, *peer_failed_to_serve),
            final(self).in_flight() == old(self).in_flight(),
            final(self).peer_limit() == old(self).peer_limit(),
            final(self).limits() == old(self).limits(),
    {
        let mut retained = RequestTxHashes::with_capacity(hashes.len());
        let mut i: usize = 0;
        while i < hashes.len()
            invariant
                i <= hashes@.len(),
                self.wf(),
                (self.state(), retained@) == strike_fold(old(self).state(), hashes@.take(i as int), *peer_failed_to_serve),
                self.active_peers == old(self).active_peers,
                self.info == old(self).info,
            decreases hashes@.len() - i,
        {
            let h = hashes.get(i);
            proof {
                assert(hashes@.take(i + 1).drop_last() =~= hashes@.take(i as int));
                assert(hashes@.take(i + 1).last() == h);
            }
            if self.hashes_unknown_to_pool.contains(&h) {
                let ghost before = *self;
                self.hashes_unknown_to_pool.remove_fallback_peer(&h, peer_failed_to_serve);
                proof {
                    Self::lemma_keys_kept(before, *self);
                }
                retained.push(h);
            }
            i += 1;
        }
        proof {
            assert(hashes@.take(i as int) =~= hashes@);
        }
        self.buffer_hashes(retained, None);
    }
    proof fn lemma_in_flight_kept(a: Self, b: Self, p: PeerId)
        requires
            a.wf(),
            b.hashes_unknown_to_pool == a.hashes_unknown_to_pool,
            b.hashes_pending_fetch == a.hashes_pending_fetch,
            b.info == a.info,
            b.peer_limit() == a.peer_limit(),
            b.in_flight().remove(p).submap_of(a.in_flight()),
            b.in_flight().contains_key(p) ==> b.in_flight()[p]
                <= DEFAULT_MAX_COUNT_CONCURRENT_REQUESTS_PER_PEER,
        ensures
            b.wf(),
    {
        assert forall|q: PeerId| #[trigger] b.in_flight().contains_key(q) implies b.in_flight()[q]
            <= DEFAULT_MAX_COUNT_CONCURRENT_REQUESTS_PER_PEER by {
            if q != p {
                assert(b.in_flight().remove(p).contains_key(q));
                assert(a.in_flight().contains_key(q));
            }
        }
    }

    proof fn lemma_pending_shrunk(a: Self, b: Self)
        requires
            a.wf(),
            b.hashes_unknown_to_pool == a.hashes_unknown_to_pool,
            b.active_peers == a.active_peers,
            b.info == a.info,
            b.hashes_pending_fetch.wf(),
            b.hashes_pending_fetch.capacity() == a.hashes_pending_fetch.capacity(),
            forall|h: TxHash| #[trigger]
                b.hashes_pending_fetch@.contains(h) ==> a.hashes_pending_fetch@.contains(h),
        ensures
            b.wf(),
    {
        assert forall|h: TxHash| #[trigger] b.hashes_pending_fetch@.contains(h) implies b.hashes_unknown_to_pool@.contains_key(h) by {
            assert(a.hashes_pending_fetch@.contains(h));
        }
        assert(b.in_flight() == a.in_flight());
    }

    /// Registers the entries of an announcement from `peer_id` (see `announce_step`)
    /// and keeps, in `new_announced_hashes`, those the caller should still request:
    /// the hashes seen for the first time and those pending fetch, which stay queued.
    /// `live_peers` are the peers whose sessions are active.
    pub fn filter_unseen_and_pending_hashes(
        &mut self,
        new_announced_hashes: &mut ValidAnnouncementData,
        peer_id: &PeerId,
        live_peers: &Vec<PeerId>,
    )
        requires
            old(self).wf(),
            old(new_announced_hashes).wf(),
        ensures
            final(self).wf(),
            final(new_announced_hashes).wf(),
            final(new_announced_hashes).version() == old(new_announced_hashes).version(),
            final(self).state() == announce_fold(
                old(self).state(),
                old(new_announced_hashes)@,
                *peer_id,
                live_peers@,
            ).0,
            final(new_announced_hashes)@ == kept(
                old(new_announced_hashes)@,
                announce_fold(old(self).state(), old(new_announced_hashes)@, *peer_id, live_peers@).1,
            ),
            final(self).in_flight() == old(self).in_flight(),
            final(self).peer_limit() == old(self).peer_limit(),
            final(self).limits() == old(self).limits(),
    {
        let ghost entries = new_announced_hashes@;
        let mut keep: Vec<bool> = Vec::with_capacity(new_announced_hashes.len());
        let mut i: usize = 0;
        while i < new_announced_hashes.len()
            invariant
                i <= entries.len(),
                entries == new_announced_hashes@,
                self.wf(),
                (self.state(), keep@) == announce_fold(old(self).state(), entries.take(i as int), *peer_id, live_peers@),
                keep@.len() == i,
                self.active_peers == old(self).active_peers,
                self.info == old(self).info,
            decreases entries.len() - i,
        {
            let (h, meta) = new_announced_hashes.get(i);
            proof {
                assert(entries.take(i + 1).drop_last() =~= entries.take(i as int));
                assert(entries.take(i + 1).last() == (h, meta));
            }
            let size: Option<usize> = match meta {
                Some(m) => Some(m.1),
                None => None,
            };
            assert(size == announced_size(meta));
            let ghost st0 = self.state();
            if self.hashes_unknown_to_pool.contains(&h) {
                match size {
                    Some(sz) => {
                        let ghost before = *self;
                        self.hashes_unknown_to_pool.set_size(&h, sz);
                        proof {
                            Self::lemma_keys_kept(before, *self);
                        }
                    },
                    None => {
                        proof {
                            assert(st0.registry.insert(h, crate::registry::FetchMeta {
                                retries: st0.registry[h].retries,
                                fallback_peers: st0.registry[h].fallback_peers,
                                tx_encoded_length: st0.registry[h].tx_encoded_length,
                            }) =~= st0.registry);
                        }
                    },
                }
                if self.hashes_pending_fetch.contains(&h) {
                    keep.push(true);
                } else {
                    let flags = self.live_fallback_flags(&h, live_peers);
                    let ghost b1 = *self;
                    self.hashes_unknown_to_pool.retain_fallback_peers(&h, &flags);
                    proof {
                        Self::lemma_keys_kept(b1, *self);
                    }
                    let ghost b2 = *self;
                    self.hashes_unknown_to_pool.insert_fallback_peer(&h, *peer_id);
                    proof {
                        Self::lemma_keys_kept(b2, *self);
                    }
                    keep.push(false);
                }
            } else {
                let ghost before = *self;
                self.hashes_unknown_to_pool.insert_new(h, TxFetchMetadata::fresh(size));
                proof {
                    Self::lemma_keys_kept(before, *self);
                }
                keep.push(true);
            }
            proof {
                let s = announce_step(st0, h, size, *peer_id, live_peers@);
                assert(self.state().registry =~= s.0.registry);
                assert(self.state().pending =~= s.0.pending);
            }
            i += 1;
        }
        proof {
            assert(entries.take(i as int) =~= entries);
        }
        new_announced_hashes.retain_marked(&keep);
    }

    /// For each fallback peer of the tracked hash `h`, in order, whether it is live.
    fn live_fallback_flags(&self, h: &TxHash, live_peers: &Vec<PeerId>) -> (r: Vec<bool>)
        requires
            self.wf(),
            self.state().registry.contains_key(*h),
        ensures
            r@ == live_flags(self.state().registry[*h].fallback_peers, live_peers@),
    {
        let meta = self.hashes_unknown_to_pool.peek(h).unwrap();
        let peers = meta.fallback_peers();
        let mut flags: Vec<bool> = Vec::new();
        let mut j: usize = 0;
        while j < peers.len()
            invariant
                j <= peers@.len(),
                peers@ == self.state().registry[*h].fallback_peers,
                flags@ =~= live_flags(peers@, live_peers@).take(j as int),
            decreases peers@.len() - j,
        {
            flags.push(vec_contains(live_peers, &peers.get(j)));
            j += 1;
        }
        proof {
            assert(live_flags(peers@, live_peers@).take(j as int) =~= live_flags(peers@, live_peers@));
        }
        flags
    }

    /// The first fallback peer of `hash` that is idle and whose session is active, if
    /// `hash` is tracked.
    pub fn get_idle_peer_for(&self, hash: &TxHash, live_peers: &Vec<PeerId>) -> (r: Option<PeerId>)
        requires
            self.wf(),
        ensures
            r == idle_peer_for(self.state(), self.in_flight(), live_peers@, *hash),
    {
        let meta = match self.hashes_unknown_to_pool.peek(hash) {
            Some(m) => m,
            None => return None,
        };
        let peers = meta.fallback_peers();
        let ghost fp = peers@;
        let mut i: usize = 0;
        while i < peers.len()
            invariant
                i <= fp.len(),
                fp == peers@,
                fp == self.state().registry[*hash].fallback_peers,
                self.state().registry.contains_key(*hash),
                first_idle_live(fp, self.in_flight(), live_peers@, 0) == first_idle_live(
                    fp,
                    self.in_flight(),
                    live_peers@,
                    i as int,
                ),
            decreases fp.len() - i,
        {
            let p = peers.get(i);
            if self.is_idle(&p) && vec_contains(live_peers, &p) {
                return Some(p);
            }
            i += 1;
        }
        None
    }

    /// Looks, in least recently touched order, for a pending hash with an idle live
    /// fallback peer, looking at no more hashes than `budget` allows (a budget of zero
    /// counts as one). A hash found is taken out of the pending queue and pushed onto
    /// `hashes_to_request`, and its peer is returned.
    pub fn find_any_idle_fallback_peer_for_any_pending_hash(
        &mut self,
        hashes_to_request: &mut RequestTxHashes,
        live_peers: &Vec<PeerId>,
        budget: Option<usize>,
    ) -> (r: Option<PeerId>)
        requires
            old(self).wf(),
        ensures
            final(self).wf(),
            final(self).in_flight() == old(self).in_flight(),
            final(self).peer_limit() == old(self).peer_limit(),
            final(self).limits() == old(self).limits(),
            match first_pending_with_idle_peer(
                old(self).state(),
                old(self).in_flight(),
                live_peers@,
                0,
                scan_limit(budget, old(self).state().pending.len() as int),
            ) {
                Some(i) => {
                    let h = old(self).state().pending[i];
                    &&& r == idle_peer_for(old(self).state(), old(self).in_flight(), live_peers@, h)
                    &&& r.is_some()
                    &&& final(hashes_to_request)@ == old(hashes_to_request)@.push(h)
                    &&& final(self).state() == (FetcherState {
                        registry: old(self).state().registry,
                        pending: old(self).state().pending.remove_value(h),
                    })
                },
                None => {
                    &&& r.is_none()
                    &&& final(hashes_to_request)@ == old(hashes_to_request)@
                    &&& final(self).state() == old(self).state()
                },
            },
    {
        let len = self.hashes_pending_fetch.len();
        let end: usize = match budget {
            None => len,
            Some(b) => {
                let n: usize = if b == 0 { 1 } else { b };
                if n < len { n } else { len }
            },
        };
        let ghost st = self.state();
        let ghost counts = self.in_flight();
        let mut i: usize = 0;
        while i < end
            invariant
                i <= end,
                end == scan_limit(budget, st.pending.len() as int),
                end <= st.pending.len(),
                *self == *old(self),
                self.wf(),
                st == old(self).state(),
                counts == old(self).in_flight(),
                *hashes_to_request == *old(hashes_to_request),
                first_pending_with_idle_peer(st, counts, live_peers@, 0, end as int)
                    == first_pending_with_idle_peer(st, counts, live_peers@, i as int, end as int),
            decreases end - i,
        {
            let h = self.hashes_pending_fetch.get(i);
            match self.get_idle_peer_for(&h, live_peers) {
                Some(p) => {
                    hashes_to_request.push(h);
                    let ghost before = *self;
                    self.hashes_pending_fetch.remove(&h);
                    proof {
                        Self::lemma_pending_shrunk(before, *self);
                    }
                    return Some(p);
                },
                None => {},
            }
            i += 1;
        }
        None
    }

    /// The expected encoded size of the tracked hash `h`.
    fn size_estimate_of(&self, h: &TxHash) -> (r: usize)
        requires
            self.wf(),
        ensures
            r == size_estimate(self.state().registry, *h),
    {
        match self.hashes_unknown_to_pool.peek(h) {
            Some(meta) => match meta.tx_encoded_len() {
                Some(size) => size,
                None => AVERAGE_BYTE_SIZE_TX_ENCODED,
            },
            None => AVERAGE_BYTE_SIZE_TX_ENCODED,
        }
    }

    /// Takes each of `hashes` out of the pending queue.
    fn remove_from_pending(&mut self, hashes: &RequestTxHashes)
        requires
            old(self).wf(),
        ensures
            final(self).wf(),
            final(self).state() == (FetcherState {
                registry: old(self).state().registry,
                pending: remove_all_pending(old(self).state().pending, hashes@),
            }),
            final(self).active_peers == old(self).active_peers,
            final(self).info == old(self).info,
    {
        let mut i: usize = 0;
        while i < hashes.len()
            invariant
                i <= hashes@.len(),
                self.wf(),
                self.hashes_unknown_to_pool == old(self).hashes_unknown_to_pool,
                self.active_peers == old(self).active_peers,
                self.info == old(self).info,
                self.hashes_pending_fetch@ == remove_all_pending(old(self).state().pending, hashes@.take(i as int)),
            decreases hashes@.len() - i,
        {
            let h = hashes.get(i);
            let ghost before = *self;
            self.hashes_pending_fetch.remove(&h);
            proof {
                Self::lemma_pending_shrunk(before, *self);
                assert(hashes@.take(i + 1).drop_last() =~= hashes@.take(i as int));
            }
            i += 1;
        }
        proof {
            assert(hashes@.take(i as int) =~= hashes@);
        }
    }

    /// Fills the request `hashes_to_request`, whose first hash was taken from the
    /// pending queue, with more pending hashes that the chosen peer has seen
    /// (`seen_hashes`), in least recently touched order, until the expected response
    /// size or the number of hashes reaches its limit, or `budget` pending hashes were
    /// looked at (a budget of zero counts as one). Every hash of the request is then
    /// out of the pending queue.
    pub fn fill_request_from_hashes_pending_fetch(
        &mut self,
        hashes_to_request: &mut RequestTxHashes,
        seen_hashes: &LruCache<TxHash>,
        budget: Option<usize>,
    )
        requires
            old(self).wf(),
        ensures
            final(self).wf(),
            final(self).in_flight() == old(self).in_flight(),
            final(self).peer_limit() == old(self).peer_limit(),
            final(self).limits() == old(self).limits(),
            final(hashes_to_request)@ == old(hashes_to_request)@ + filled(
                old(self).state(),
                old(hashes_to_request)@,
                seen_hashes@,
                budget,
            ),
            final(self).state() == (FetcherState {
                registry: old(self).state().registry,
                pending: remove_all_pending(old(self).state().pending, final(hashes_to_request)@),
            }),
    {
        let ghost st = self.state();
        let ghost buf0 = hashes_to_request@;
        let limit = DEFAULT_SOFT_LIMIT_BYTE_SIZE_POOLED_TRANSACTIONS_RESPONSE_ON_FETCH_PENDING_HASHES;
        let count_limit = DEFAULT_SOFT_LIMIT_COUNT_HASHES_IN_GET_POOLED_TRANSACTIONS_REQUEST_ON_FETCH_PENDING_HASHES;
        if hashes_to_request.len() > 0 {
            let first = hashes_to_request.get(0);
            let acc0 = self.size_estimate_of(&first);
            if acc0 < limit {
                let len = self.hashes_pending_fetch.len();
                let end: usize = match budget {
                    None => len,
                    Some(b) => {
                        let n: usize = if b == 0 { 1 } else { b };
                        if n < len { n } else { len }
                    },
                };
                let ghost end_s = scan_limit(budget, st.pending.len() as int);
                let mut acc: usize = acc0;
                let mut i: usize = 0;
                let mut stop = false;
                let ghost mut added: Seq<TxHash> = Seq::empty();
                let ghost full = fill_from(st, seen_hashes@, 0, end_s, acc0 as int, buf0.len() as int);
                proof {
                    assert(buf0 + added =~= buf0);
                }
                while i < end && !stop
                    invariant
                        i <= end,
                        end == end_s,
                        end <= st.pending.len(),
                        *self == *old(self),
                        self.wf(),
                        st == old(self).state(),
                        limit == DEFAULT_SOFT_LIMIT_BYTE_SIZE_POOLED_TRANSACTIONS_RESPONSE_ON_FETCH_PENDING_HASHES,
                        count_limit == DEFAULT_SOFT_LIMIT_COUNT_HASHES_IN_GET_POOLED_TRANSACTIONS_REQUEST_ON_FETCH_PENDING_HASHES,
                        acc < limit,
                        hashes_to_request@ == buf0 + added,
                        !stop ==> full == added + fill_from(st, seen_hashes@, i as int, end_s, acc as int, hashes_to_request@.len() as int),
                        stop ==> full == added,
                    decreases end - i,
                {
                    let h = self.hashes_pending_fetch.get(i);
                    let ghost n0 = hashes_to_request@.len() as int;
                    let ghost cur = fill_from(st, seen_hashes@, i as int, end_s, acc as int, n0);
                    let ghost rest = fill_from(st, seen_hashes@, i + 1, end_s, acc as int, n0);
                    assert(h == st.pending[i as int]);
                    assert(self.state() == st);
                    if seen_hashes.contains(&h) {
                        let size = self.size_estimate_of(&h);
                        let ghost acc2 = acc + size;
                        let ghost rest2 = fill_from(st, seen_hashes@, i + 1, end_s, acc2, hashes_to_request@.len() + 1int);
                        hashes_to_request.push(h);
                        proof {
                            assert(buf0 + added.push(h) =~= (buf0 + added).push(h));
                            added = added.push(h);
                        }
                        if size >= limit - acc || hashes_to_request.len() >= count_limit {
                            proof {
                                assert(cur == seq![h]);
                                assert(added =~= added.drop_last() + seq![h]);
                            }
                            stop = true;
                        } else {
                            acc = acc + size;
                            proof {
                                assert(cur == seq![h] + rest2);
                                assert(added.drop_last() + (seq![h] + rest2) =~= added + rest2);
                            }
                        }
                    } else {
                        assert(cur == rest);
                    }
                    i += 1;
                }
                proof {
                    if !stop {
                        assert(added + Seq::<TxHash>::empty() =~= added);
                    }
                    assert(filled(st, buf0, seen_hashes@, budget) == full);
                }
            } else {
                proof {
                    assert(buf0 + Seq::<TxHash>::empty() =~= buf0);
                }
            }
        } else {
            proof {
                assert(buf0 + Seq::<TxHash>::empty() =~= buf0);
            }
        }
        self.remove_from_pending(hashes_to_request);
    }

    /// Tries to request hashes pending fetch: finds the first pending hash with an idle
    /// live fallback peer (within `budget_find_idle_fallback_peer`), fills the request
    /// with more pending hashes that peer has seen (see `fetch_plan`), and asks for it
    /// to be admitted. An admitted request is returned, with its peer, to be sent; a
    /// refused one is re-buffered for retry with that peer struck. `peers` are the peers
    /// with active sessions; `inflight_requests` is the size of the in-flight request
    /// pool.
    pub fn on_fetch_pending_hashes(
        &mut self,
        peers: &Vec<Peer>,
        inflight_requests: usize,
        budget_find_idle_fallback_peer: Option<usize>,
    ) -> (r: Option<(PeerId, RequestTxHashes)>)
        requires
            old(self).wf(),
        ensures
            final(self).wf(),
            final(self).peer_limit() == old(self).peer_limit(),
            final(self).limits() == old(self).limits(),
            old(self).in_flight().len() >= old(self).limits().max_inflight() ==> r is None,
            match fetch_plan(
                old(self).state(),
                old(self).in_flight(),
                peers@,
                old(self).limits(),
                inflight_requests,
                budget_find_idle_fallback_peer,
            ) {
                None => r is None && final(self).state() == old(self).state()
                    && final(self).in_flight() == old(self).in_flight(),
                Some(plan) => {
                    &&& r matches Some(sent) ==> {
                        &&& forall|i: int| 0 <= i < sent.1@.len() ==> !final(self).state().pending.contains(#[trigger] sent.1@[i])
                        &&& sent.0 == plan.0
                        &&& sent.1@ == plan.1
                        &&& final(self).state() == plan.2
                        &&& final(self).in_flight().contains_key(plan.0)
                        &&& final(self).in_flight()[plan.0] == in_flight_of(old(self).in_flight(), plan.0) + 1
                        &&& final(self).in_flight().remove(plan.0).submap_of(old(self).in_flight())
                    }
                    &&& r is None ==> final(self).state() == rebuffered(plan.2, plan.1, plan.0)
                        && final(self).in_flight().submap_of(old(self).in_flight())
                    &&& old(self).in_flight().len() < old(self).limits().max_inflight() ==> r is Some
                        && final(self).in_flight() == old(self).in_flight().insert(
                        plan.0,
                        (in_flight_of(old(self).in_flight(), plan.0) + 1) as u8,
                    )
                },
            },
    {
        let ghost st0 = self.state();
        let ghost counts = self.in_flight();
        let mut hashes_to_request = RequestTxHashes::with_capacity(32);
        let mut live: Vec<PeerId> = Vec::with_capacity(peers.len());
        let mut j: usize = 0;
        while j < peers.len()
            invariant
                j <= peers@.len(),
                live@ =~= peer_ids(peers@).take(j as int),
            decreases peers@.len() - j,
        {
            live.push(peers[j].peer_id);
            j += 1;
        }
        proof {
            assert(live@ =~= peer_ids(peers@));
        }
        let peer_id = match self.find_any_idle_fallback_peer_for_any_pending_hash(
            &mut hashes_to_request,
            &live,
            budget_find_idle_fallback_peer,
        ) {
            Some(p) => p,
            None => return None,
        };
        let ghost i = first_pending_with_idle_peer(st0, counts, live@, 0, scan_limit(budget_find_idle_fallback_peer, st0.pending.len() as int)).unwrap();
        let ghost h = st0.pending[i];
        proof {
            lemma_first_idle_live(st0.registry[h].fallback_peers, counts, live@, 0);
            assert(live@.contains(peer_id));
            let jj = choose|jj: int| 0 <= jj < live@.len() && live@[jj] == peer_id;
            assert(peers@[jj].peer_id == peer_id);
            lemma_find_peer(peers@, peer_id, 0, jj);
            assert(hashes_to_request@ =~= seq![h]);
        }
        let mut k: usize = 0;
        while k < peers.len()
            invariant
                k <= peers@.len(),
                find_peer_from(peers@, peer_id, 0) == find_peer_from(peers@, peer_id, k as int),
                find_peer_from(peers@, peer_id, 0).is_some(),
            ensures
                k <= peers@.len(),
                find_peer_from(peers@, peer_id, 0) == find_peer_from(peers@, peer_id, k as int),
                find_peer_from(peers@, peer_id, 0).is_some(),
                k < peers@.len() ==> peers@[k as int].peer_id == peer_id,
            decreases peers@.len() - k,
        {
            if peers[k].peer_id.same(&peer_id) {
                break;
            }
            k += 1;
        }
        proof {
            assert(find_peer_from(peers@, peer_id, 0) == Some(k as int));
        }
        let budget = self.search_breadth_budget_find_intersection_pending_hashes_and_hashes_seen_by_peer(
            inflight_requests,
        );
        self.fill_request_from_hashes_pending_fetch(
            &mut hashes_to_request,
            &peers[k].seen_transactions,
            budget,
        );
        proof {
            let mid = old(self).state().pending.remove_value(h);
            crate::laws::lemma_remove_value_no_dup(old(self).state().pending, h);
            lemma_remove_all_pending(mid, hashes_to_request@);
            assert forall|i: int| 0 <= i < hashes_to_request@.len() implies !self.state().pending.contains(#[trigger] hashes_to_request@[i]) by {
                assert(hashes_to_request@.contains(hashes_to_request@[i]));
            }
        }
        match self.request_transactions_from_peer(hashes_to_request, peer_id) {
            Ok(hashes) => Some((peer_id, hashes)),
            Err(hashes) => {
                self.buffer_hashes_for_retry(hashes, &peer_id);
                None
            },
        }
    }

    /// Handles a resolved request to `peer_id` for `requested_hashes`. The peer's
    /// in-flight count goes down. On a response, the requested hashes it holds stop
    /// being tracked and the others are re-buffered for retry with the peer struck;
    /// on an error or a closed channel all of them are. Exactly one event comes out.
    pub fn on_resolved_request<T>(
        &mut self,
        peer_id: PeerId,
        requested_hashes: RequestTxHashes,
        outcome: RequestOutcome<T>,
    ) -> (r: FetchEvent<T>)
        requires
            old(self).wf(),
        ensures
            final(self).wf(),
            final(self).peer_limit() == old(self).peer_limit(),
            final(self).limits() == old(self).limits(),
            final(self).in_flight() == decremented(old(self).in_flight(), peer_id),
            match outcome {
                RequestOutcome::Response { hashes, transactions } => {
                    &&& r == FetchEvent::TransactionsFetched { peer_id, transactions }
                    &&& final(self).state() == rebuffered(
                        untrack_all(
                            old(self).state(),
                            kept(requested_hashes@, in_response_flags(requested_hashes@, hashes@)),
                        ),
                        kept(requested_hashes@, missing_flags(requested_hashes@, hashes@)),
                        peer_id,
                    )
                },
                RequestOutcome::Failed(error) => {
                    &&& r == FetchEvent::<T>::FetchError { peer_id, error }
                    &&& final(self).state() == rebuffered(old(self).state(), requested_hashes@, peer_id)
                },
                RequestOutcome::ChannelClosed => {
                    &&& r == FetchEvent::<T>::FetchError { peer_id, error: RequestError::ChannelClosed }
                    &&& final(self).state() == rebuffered(old(self).state(), requested_hashes@, peer_id)
                },
            },
    {
        self.decrement_inflight_request_count_for(&peer_id);
        match outcome {
            RequestOutcome::Response { hashes, transactions } => {
                let ghost req = requested_hashes@;
                let mut fetched: Vec<TxHash> = Vec::new();
                let mut missing = RequestTxHashes::with_capacity(requested_hashes.len());
                let mut i: usize = 0;
                while i < requested_hashes.len()
                    invariant
                        i <= req.len(),
                        req == requested_hashes@,
                        fetched@ == kept(req.take(i as int), in_response_flags(req, hashes@).take(i as int)),
                        missing@ == kept(req.take(i as int), missing_flags(req, hashes@).take(i as int)),
                    decreases req.len() - i,
                {
                    let h = requested_hashes.get(i);
                    proof {
                        assert(req.take(i + 1).drop_last() =~= req.take(i as int));
                        assert(in_response_flags(req, hashes@).take(i + 1).drop_last() =~= in_response_flags(req, hashes@).take(i as int));
                        assert(missing_flags(req, hashes@).take(i + 1).drop_last() =~= missing_flags(req, hashes@).take(i as int));
                    }
                    if vec_contains(&hashes, &h) {
                        fetched.push(h);
                    } else {
                        missing.push(h);
                    }
                    i += 1;
                }
                proof {
                    assert(req.take(i as int) =~= req);
                    assert(in_response_flags(req, hashes@).take(i as int) =~= in_response_flags(req, hashes@));
                    assert(missing_flags(req, hashes@).take(i as int) =~= missing_flags(req, hashes@));
                }
                self.remove_from_unknown_hashes(fetched);
                self.buffer_hashes_for_retry(missing, &peer_id);
                FetchEvent::TransactionsFetched { peer_id, transactions }
            },
            RequestOutcome::Failed(error) => {
                self.buffer_hashes_for_retry(requested_hashes, &peer_id);
                FetchEvent::FetchError { peer_id, error }
            },
            RequestOutcome::ChannelClosed => {
                self.buffer_hashes_for_retry(requested_hashes, &peer_id);
                FetchEvent::FetchError { peer_id, error: RequestError::ChannelClosed }
            },
        }
    }

    /// Stops tracking `hashes`, whose transactions arrived by broadcast.
    pub fn on_received_full_transactions_broadcast(&mut self, hashes: Vec<TxHash>)
        requires
            old(self).wf(),
        ensures
            final(self).wf(),
            final(self).state() == untrack_all(old(self).state(), hashes@),
            final(self).in_flight() == old(self).in_flight(),
            final(self).peer_limit() == old(self).peer_limit(),
            final(self).limits() == old(self).limits(),
    {
        self.remove_from_unknown_hashes(hashes)
    }

    /// Packs hashes of an announcement into `hashes_to_request` by the rule of its
    /// protocol version (see `pack_hashes_eth68` and `pack_hashes_eth66`) and returns
    /// the hashes left over.
    pub fn pack_hashes(
        &self,
        hashes_to_request: &mut RequestTxHashes,
        hashes_from_announcement: ValidAnnouncementData,
    ) -> (surplus: RequestTxHashes)
        requires
            hashes_from_announcement.version() == EthVersion::Eth68 ==> all_sized(
                hashes_from_announcement@,
            ),
        ensures
            hashes_from_announcement.version() == EthVersion::Eth68 ==> {
                let p = pack_sized(
                    hashes_from_announcement@,
                    DEFAULT_SOFT_LIMIT_BYTE_SIZE_POOLED_TRANSACTIONS_RESPONSE as int,
                    MEDIAN_BYTE_SIZE_SMALL_LEGACY_TX_ENCODED as int,
                );
                &&& final(hashes_to_request)@ == old(hashes_to_request)@ + entry_hashes(p.0)
                &&& surplus@ == p.1
            },
            hashes_from_announcement.version() != EthVersion::Eth68 ==> {
                let p = pack_counted(
                    entry_hashes(hashes_from_announcement@),
                    SOFT_LIMIT_COUNT_HASHES_IN_GET_POOLED_TRANSACTIONS_REQUEST as int,
                );
                &&& final(hashes_to_request)@ == p.0
                &&& surplus@ == p.1
            },
    {
        if hashes_from_announcement.msg_version().is_eth68() {
            return self.pack_hashes_eth68(hashes_to_request, hashes_from_announcement);
        }
        self.pack_hashes_eth66(hashes_to_request, hashes_from_announcement)
    }

    /// Packs hashes of an announcement of protocol version 68, which carries sizes,
    /// within the soft response-size limit (see `pack_sized`), appending them to
    /// `hashes_to_request`; returns the hashes left over.
    pub fn pack_hashes_eth68(
        &self,
        hashes_to_request: &mut RequestTxHashes,
        hashes_from_announcement: ValidAnnouncementData,
    ) -> (surplus: RequestTxHashes)
        requires
            all_sized(hashes_from_announcement@),
        ensures
            ({
                let p = pack_sized(
                    hashes_from_announcement@,
                    DEFAULT_SOFT_LIMIT_BYTE_SIZE_POOLED_TRANSACTIONS_RESPONSE as int,
                    MEDIAN_BYTE_SIZE_SMALL_LEGACY_TX_ENCODED as int,
                );
                &&& final(hashes_to_request)@ == old(hashes_to_request)@ + entry_hashes(p.0)
                &&& surplus@ == p.1
                &&& hashes_from_announcement@.len() > 0 && entry_size(hashes_from_announcement@[0])
                    < DEFAULT_SOFT_LIMIT_BYTE_SIZE_POOLED_TRANSACTIONS_RESPONSE ==> total_size(p.0)
                    <= DEFAULT_SOFT_LIMIT_BYTE_SIZE_POOLED_TRANSACTIONS_RESPONSE
                &&& hashes_from_announcement@.len() > 0 && entry_size(hashes_from_announcement@[0])
                    >= DEFAULT_SOFT_LIMIT_BYTE_SIZE_POOLED_TRANSACTIONS_RESPONSE ==> entry_hashes(p.0)
                    == seq![hashes_from_announcement@[0].0]
            }),
    {
        pack_sized_hashes(
            hashes_to_request,
            &hashes_from_announcement,
            DEFAULT_SOFT_LIMIT_BYTE_SIZE_POOLED_TRANSACTIONS_RESPONSE,
            MEDIAN_BYTE_SIZE_SMALL_LEGACY_TX_ENCODED,
        )
    }

    /// Packs hashes of an announcement of protocol version 66, which carries no sizes:
    /// `hashes_to_request` becomes the first hashes up to the soft count limit, and the
    /// rest are returned.
    pub fn pack_hashes_eth66(
        &self,
        hashes_to_request: &mut RequestTxHashes,
        hashes_from_announcement: ValidAnnouncementData,
    ) -> (surplus: RequestTxHashes)
        ensures
            ({
                let p = pack_counted(
                    entry_hashes(hashes_from_announcement@),
                    SOFT_LIMIT_COUNT_HASHES_IN_GET_POOLED_TRANSACTIONS_REQUEST as int,
                );
                &&& final(hashes_to_request)@ == p.0
                &&& surplus@ == p.1
                &&& final(hashes_to_request)@.len() <= SOFT_LIMIT_COUNT_HASHES_IN_GET_POOLED_TRANSACTIONS_REQUEST
                &&& final(hashes_to_request)@ + surplus@ == entry_hashes(hashes_from_announcement@)
            }),
    {
        pack_counted_hashes(
            hashes_to_request,
            hashes_from_announcement,
            SOFT_LIMIT_COUNT_HASHES_IN_GET_POOLED_TRANSACTIONS_REQUEST,
        )
    }

    /// Whether `peer_id` can take one more request.
    pub fn is_idle(&self, peer_id: &PeerId) -> (r: bool)
        ensures
            r == is_idle_in(self.in_flight(), *peer_id),
    {
        match active_peers_peek(&self.active_peers, peer_id) {
            None => true,
            Some(count) => count < DEFAULT_MAX_COUNT_CONCURRENT_REQUESTS_PER_PEER,
        }
    }

    /// Number of requests in flight to `peer_id`, if it has any entry.
    pub fn inflight_count_for(&self, peer_id: &PeerId) -> (r: Option<u8>)
        ensures
            r == crate::peers::lookup(self.in_flight(), *peer_id),
    {
        active_peers_peek(&self.active_peers, peer_id)
    }

    /// Counts one request to `peer_id` as resolved. A peer whose last request resolved
    /// leaves the tracker.
    pub fn decrement_inflight_request_count_for(&mut self, peer_id: &PeerId)
        requires
            old(self).wf(),
        ensures
            final(self).wf(),
            final(self).state() == old(self).state(),
            final(self).limits() == old(self).limits(),
            final(self).peer_limit() == old(self).peer_limit(),
            final(self).in_flight() == decremented(old(self).in_flight(), *peer_id),
    {
        match active_peers_get(&mut self.active_peers, peer_id) {
            Some(count) => {
                if count <= 1 {
                    active_peers_remove(&mut self.active_peers, peer_id);
                } else {
                    active_peers_insert(&mut self.active_peers, *peer_id, count - 1);
                }
            },
            None => {},
        }
        proof {
            assert(self.in_flight().remove(*peer_id) =~= old(self).in_flight().remove(*peer_id));
            Self::lemma_in_flight_kept(*old(self), *self, *peer_id);
        }
    }

    /// Decides whether a request for `hashes`, none of which may still be pending fetch,
    /// may go to `peer_id` now. It may not when as many peers as allowed have requests
    /// in flight, or when the peer has as many requests in flight as allowed: the
    /// hashes come back unchanged as `Err`. Otherwise it may: the peer's in-flight count
    /// goes up by one and the hashes come back as `Ok`, to be sent.
    pub fn request_transactions_from_peer(&mut self, hashes: RequestTxHashes, peer_id: PeerId) -> (r: Result<RequestTxHashes, RequestTxHashes>)
        requires
            old(self).wf(),
            forall|i: int| 0 <= i < hashes@.len() ==> !old(self).state().pending.contains(#[trigger] hashes@[i]),
        ensures
            final(self).wf(),
            final(self).state() == old(self).state(),
            final(self).limits() == old(self).limits(),
            final(self).peer_limit() == old(self).peer_limit(),
            match r {
                Ok(h) => h@ == hashes@,
                Err(h) => h@ == hashes@,
            },
            forall|p: PeerId| #[trigger] final(self).in_flight().contains_key(p) ==> final(self).in_flight()[p]
                <= DEFAULT_MAX_COUNT_CONCURRENT_REQUESTS_PER_PEER,
            old(self).in_flight().len() >= old(self).limits().max_inflight() ==> r is Err
                && final(self).in_flight() == old(self).in_flight(),
            !is_idle_in(old(self).in_flight(), peer_id) ==> r is Err && final(self).in_flight()
                == old(self).in_flight(),
            old(self).in_flight().len() < old(self).limits().max_inflight() && is_idle_in(
                old(self).in_flight(),
                peer_id,
            ) ==> r is Ok && final(self).in_flight() == old(self).in_flight().insert(
                peer_id,
                (in_flight_of(old(self).in_flight(), peer_id) + 1) as u8,
            ),
    {
        if active_peers_len(&self.active_peers) >= self.info.max_inflight_transaction_requests {
            return Err(hashes);
        }
        let count = match active_peers_get(&mut self.active_peers, &peer_id) {
            Some(c) => {
                proof {
                    assert(old(self).in_flight().contains_key(peer_id));
                    assert(self.in_flight() == old(self).in_flight());
                    assert(c <= DEFAULT_MAX_COUNT_CONCURRENT_REQUESTS_PER_PEER);
                }
                c
            },
            None => {
                if !active_peers_insert(&mut self.active_peers, peer_id, 0) {
                    proof {
                        assert(self.in_flight().remove(peer_id) =~= self.in_flight());
                        Self::lemma_in_flight_kept(*old(self), *self, peer_id);
                    }
                    return Err(hashes);
                }
                proof {
                    assert(self.in_flight().remove(peer_id).submap_of(old(self).in_flight()));
                }
                0
            },
        };
        if count >= DEFAULT_MAX_COUNT_CONCURRENT_REQUESTS_PER_PEER {
            proof {
                Self::lemma_in_flight_kept(*old(self), *self, peer_id);
            }
            return Err(hashes);
        }
        let ghost mid = self.in_flight();
        active_peers_insert(&mut self.active_peers, peer_id, count + 1);
        proof {
            assert(self.in_flight() == mid.insert(peer_id, (count + 1) as u8));
            assert(self.in_flight().remove(peer_id) =~= mid.remove(peer_id));
            assert(self.in_flight()[peer_id] <= DEFAULT_MAX_COUNT_CONCURRENT_REQUESTS_PER_PEER);
            Self::lemma_in_flight_kept(*old(self), *self, peer_id);
        }
        Ok(hashes)
    }

    /// Whether the fetcher has room to fetch pending hashes: it has not more than the
    /// allowed number of requests in flight (`inflight_requests`, the size of the
    /// in-flight request pool), and fewer hashes pending than the allowed number.
    pub fn has_capacity_for_fetching_pending_hashes(&self, inflight_requests: usize) -> (r: bool)
        ensures
            r == (inflight_requests <= self.limits().max_inflight()
                && self.state().pending.len() < self.limits().max_pending()),
    {
        inflight_requests <= self.info.max_inflight_transaction_requests
            && self.hashes_pending_fetch.len() < self.info.max_hashes_pending_fetch
    }

    /// How many pending hashes to look at in search of one with an idle fallback peer:
    /// no limit while the fetcher has capacity, a fixed budget otherwise.
    pub fn search_breadth_budget_find_idle_fallback_peer(&self, inflight_requests: usize) -> (r: Option<usize>)
        ensures
            r == (if inflight_requests <= self.limits().max_inflight()
                && self.state().pending.len() < self.limits().max_pending() {
                None
            } else {
                Some(DEFAULT_BUDGET_FIND_IDLE_FALLBACK_PEER)
            }),
    {
        if self.has_capacity_for_fetching_pending_hashes(inflight_requests) {
            None
        } else {
            Some(DEFAULT_BUDGET_FIND_IDLE_FALLBACK_PEER)
        }
    }

    /// How many pending hashes to look at in search of more hashes that a chosen peer
    /// has seen: no limit while the fetcher has capacity, a fixed budget otherwise.
    pub fn search_breadth_budget_find_intersection_pending_hashes_and_hashes_seen_by_peer(
        &self,
        inflight_requests: usize,
    ) -> (r: Option<usize>)
        ensures
            r == (if inflight_requests <= self.limits().max_inflight()
                && self.state().pending.len() < self.limits().max_pending() {
                None
            } else {
                Some(DEFAULT_BUDGET_FIND_INTERSECTION_ANNOUNCED_BY_PEER_AND_PENDING_FETCH)
            }),
    {
        if self.has_capacity_for_fetching_pending_hashes(inflight_requests) {
            None
        } else {
            Some(DEFAULT_BUDGET_FIND_INTERSECTION_ANNOUNCED_BY_PEER_AND_PENDING_FETCH)
        }
    }

    /// The queue of hashes pending fetch.
    pub fn hashes_pending_fetch(&self) -> (r: &LruCache<TxHash>)
        ensures
            r@ == self.state().pending,
    {
        &self.hashes_pending_fetch
    }

    /// The metadata of `hash`, if it is tracked.
    pub fn metadata(&self, hash: &TxHash) -> (r: Option<&TxFetchMetadata>)
        requires
            self.wf(),
        ensures
            match r {
                Some(m) => self.state().registry.contains_key(*hash) && m@ == self.state().registry[*hash],
                None => !self.state().registry.contains_key(*hash),
            },
    {
        self.hashes_unknown_to_pool.peek(hash)
    }

    /// Number of tracked hashes.
    pub fn tracked_len(&self) -> (r: usize)
        requires
            self.wf(),
        ensures
            r == self.state().registry.len(),
    {
        self.hashes_unknown_to_pool.len()
    }
}

impl Default for TransactionFetcher {
    fn default() -> (r: Self)
        ensures
            r.wf(),
            r.state().registry == Map::<TxHash, crate::registry::FetchMeta>::empty(),
            r.state().pending == Seq::<TxHash>::empty(),
            r.in_flight() == Map::<PeerId, u8>::empty(),
            r.peer_limit() == DEFAULT_MAX_COUNT_CONCURRENT_REQUESTS,
            r.limits().max_inflight() == DEFAULT_MAX_INFLIGHT_REQUESTS_ON_FETCH_PENDING_HASHES,
            r.limits().max_pending() == DEFAULT_MAX_COUNT_PENDING_FETCH,
    {
        let active_peers = active_peers_new(DEFAULT_MAX_COUNT_CONCURRENT_REQUESTS);
        proof {
            assert(active_counts(active_peers) =~= Map::<PeerId, u8>::empty());
        }
        TransactionFetcher {
            active_peers,
            hashes_pending_fetch: LruCache::new(DEFAULT_MAX_CAPACITY_CACHE_PENDING_FETCH),
            hashes_unknown_to_pool: HashRegistry::new(),
            info: TransactionFetcherInfo::default(),
        }
    }
}

} // verus!
