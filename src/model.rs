use vstd::prelude::*;

use crate::cache::{kept, lru_evicted, lru_insert};
use crate::constants::{
    DEFAULT_MAX_CAPACITY_CACHE_PENDING_FETCH, DEFAULT_MAX_COUNT_FALLBACK_PEERS, DEFAULT_MAX_RETRIES,
};
use crate::announcement::TxMetadata;
use crate::registry::{fallback_peers_ok, FetchMeta};
use crate::types::{PeerId, TxHash};

verus! {

/// The tracked hashes with their metadata, and the hashes pending fetch, least
/// recently touched first.
pub struct FetcherState {
    pub registry: Map<TxHash, FetchMeta>,
    pub pending: Seq<TxHash>,
}

/// The invariant of the fetcher's hash bookkeeping: the pending queue is a bounded
/// duplicate-free sequence of tracked hashes, and every tracked hash has at most the
/// configured number of distinct fallback peers.
pub open spec fn state_ok(st: FetcherState) -> bool {
    &&& st.registry.dom().finite()
    &&& st.pending.no_duplicates()
    &&& st.pending.len() <= DEFAULT_MAX_CAPACITY_CACHE_PENDING_FETCH
    &&& forall|h: TxHash| #[trigger] st.pending.contains(h) ==> st.registry.contains_key(h)
    &&& forall|h: TxHash|
        #[trigger] st.registry.contains_key(h) ==> fallback_peers_ok(st.registry[h].fallback_peers)
}

/// Stops tracking each of `hashes`, in order: each leaves the registry and the pending
/// queue.
pub open spec fn untrack_all(st: FetcherState, hashes: Seq<TxHash>) -> FetcherState
    decreases hashes.len(),
{
    if hashes.len() == 0 {
        st
    } else {
        let r = untrack_all(st, hashes.drop_last());
        FetcherState {
            registry: r.registry.remove(hashes.last()),
            pending: r.pending.remove_value(hashes.last()),
        }
    }
}

/// Touches `h` in the pending queue; a hash the queue evicts is noted in `dropped`.
pub open spec fn queue_hash(st: FetcherState, h: TxHash, dropped: Seq<TxHash>) -> (
    FetcherState,
    Seq<TxHash>,
) {
    let cap = DEFAULT_MAX_CAPACITY_CACHE_PENDING_FETCH as nat;
    (
        FetcherState { registry: st.registry, pending: lru_insert(st.pending, h, cap) },
        match lru_evicted(st.pending, h, cap) {
            Some(e) => dropped.push(e),
            None => dropped,
        },
    )
}

/// Buffers one hash. An untracked hash is ignored. With a fallback peer, the peer is
/// touched among the hash's fallback peers. Without one, this is a retry: a hash that
/// reached the retry limit is noted in `dropped`, any other has its retry count
/// raised. A hash that is not dropped is touched in the pending queue.
pub open spec fn buffer_step(
    st: FetcherState,
    dropped: Seq<TxHash>,
    h: TxHash,
    fallback_peer: Option<PeerId>,
) -> (FetcherState, Seq<TxHash>) {
    if !st.registry.contains_key(h) {
        (st, dropped)
    } else {
        let m = st.registry[h];
        match fallback_peer {
            Some(p) => queue_hash(
                FetcherState {
                    registry: st.registry.insert(
                        h,
                        FetchMeta {
                            retries: m.retries,
                            fallback_peers: lru_insert(
                                m.fallback_peers,
                                p,
                                DEFAULT_MAX_COUNT_FALLBACK_PEERS as nat,
                            ),
                            tx_encoded_length: m.tx_encoded_length,
                        },
                    ),
                    pending: st.pending,
                },
                h,
                dropped,
            ),
            None => if m.retries >= DEFAULT_MAX_RETRIES {
                (st, dropped.push(h))
            } else {
                queue_hash(
                    FetcherState {
                        registry: st.registry.insert(
                            h,
                            FetchMeta {
                                retries: (m.retries + 1) as u8,
                                fallback_peers: m.fallback_peers,
                                tx_encoded_length: m.tx_encoded_length,
                            },
                        ),
                        pending: st.pending,
                    },
                    h,
                    dropped,
                )
            },
        }
    }
}

/// Buffers `hashes` in order, collecting the hashes to drop.
pub open spec fn buffer_fold(st: FetcherState, hashes: Seq<TxHash>, fallback_peer: Option<PeerId>) -> (
    FetcherState,
    Seq<TxHash>,
)
    decreases hashes.len(),
{
    if hashes.len() == 0 {
        (st, Seq::empty())
    } else {
        let r = buffer_fold(st, hashes.drop_last(), fallback_peer);
        buffer_step(r.0, r.1, hashes.last(), fallback_peer)
    }
}

/// The state after buffering `hashes`: each is buffered in order, then the hashes that
/// reached the retry limit or were evicted from the pending queue stop being tracked.
pub open spec fn buffered(st: FetcherState, hashes: Seq<TxHash>, fallback_peer: Option<PeerId>) -> FetcherState {
    let r = buffer_fold(st, hashes, fallback_peer);
    untrack_all(r.0, r.1)
}

/// Strikes `peer` from the fallback peers of each tracked hash of `hashes`; the tracked
/// hashes are kept, in order.
pub open spec fn strike_fold(st: FetcherState, hashes: Seq<TxHash>, peer: PeerId) -> (
    FetcherState,
    Seq<TxHash>,
)
    decreases hashes.len(),
{
    if hashes.len() == 0 {
        (st, Seq::empty())
    } else {
        let r = strike_fold(st, hashes.drop_last(), peer);
        let h = hashes.last();
        if r.0.registry.contains_key(h) {
            let m = r.0.registry[h];
            (
                FetcherState {
                    registry: r.0.registry.insert(
                        h,
                        FetchMeta {
                            retries: m.retries,
                            fallback_peers: m.fallback_peers.remove_value(peer),
                            tx_encoded_length: m.tx_encoded_length,
                        },
                    ),
                    pending: r.0.pending,
                },
                r.1.push(h),
            )
        } else {
            r
        }
    }
}

/// The state after re-buffering `hashes` for retry once `peer` failed to serve them:
/// `peer` is struck from their fallback peers, the hashes no longer tracked are
/// dropped, and the rest are buffered as a retry.
pub open spec fn rebuffered(st: FetcherState, hashes: Seq<TxHash>, peer: PeerId) -> FetcherState {
    let r = strike_fold(st, hashes, peer);
    buffered(r.0, r.1, None)
}

/// The fallback-peer positions to keep when only the peers in `live` are alive.
pub open spec fn live_flags(peers: Seq<PeerId>, live: Seq<PeerId>) -> Seq<bool> {
    Seq::new(peers.len(), |i: int| live.contains(peers[i]))
}

/// Registers one announced entry. A tracked hash has its size updated when the entry
/// carries one. If it is pending it stays queued and is kept, for the caller to
/// reconsider; otherwise it is in flight: its fallback peers are cut down to the live
/// ones, the announcer is touched among them, and it is not kept. An untracked hash
/// starts being tracked with no retries and no fallback peers, and is kept.
pub open spec fn announce_step(
    st: FetcherState,
    h: TxHash,
    size: Option<usize>,
    announcer: PeerId,
    live: Seq<PeerId>,
) -> (FetcherState, bool) {
    if st.registry.contains_key(h) {
        let m0 = st.registry[h];
        let m = FetchMeta {
            retries: m0.retries,
            fallback_peers: m0.fallback_peers,
            tx_encoded_length: match size {
                Some(s) => Some(s),
                None => m0.tx_encoded_length,
            },
        };
        if st.pending.contains(h) {
            (
                FetcherState {
                    registry: st.registry.insert(h, m),
                    pending: st.pending,
                },
                true,
            )
        } else {
            let alive = kept(m.fallback_peers, live_flags(m.fallback_peers, live));
            (
                FetcherState {
                    registry: st.registry.insert(
                        h,
                        FetchMeta {
                            retries: m.retries,
                            fallback_peers: lru_insert(
                                alive,
                                announcer,
                                DEFAULT_MAX_COUNT_FALLBACK_PEERS as nat,
                            ),
                            tx_encoded_length: m.tx_encoded_length,
                        },
                    ),
                    pending: st.pending,
                },
                false,
            )
        }
    } else {
        (
            FetcherState {
                registry: st.registry.insert(
                    h,
                    FetchMeta { retries: 0, fallback_peers: Seq::empty(), tx_encoded_length: size },
                ),
                pending: st.pending,
            },
            true,
        )
    }
}

/// The size an announcement entry's metadata gives, if any.
pub open spec fn announced_size(meta: TxMetadata) -> Option<usize> {
    match meta {
        Some(m) => Some(m.1),
        None => None,
    }
}

/// Registers each entry of an announcement from `announcer` in order (see
/// `announce_step`); the flags tell which entries are kept for the caller.
pub open spec fn announce_fold(
    st: FetcherState,
    entries: Seq<(TxHash, TxMetadata)>,
    announcer: PeerId,
    live: Seq<PeerId>,
) -> (FetcherState, Seq<bool>)
    decreases entries.len(),
{
    if entries.len() == 0 {
        (st, Seq::empty())
    } else {
        let r = announce_fold(st, entries.drop_last(), announcer, live);
        let e = entries.last();
        let s = announce_step(r.0, e.0, announced_size(e.1), announcer, live);
        (s.0, r.1.push(s.1))
    }
}

} // verus!
