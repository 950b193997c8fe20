use vstd::prelude::*;

use crate::cache::{lemma_remove_value_at, lru_evicted, lru_insert};
use crate::constants::{
    DEFAULT_MAX_CAPACITY_CACHE_PENDING_FETCH, DEFAULT_MAX_COUNT_FALLBACK_PEERS, DEFAULT_MAX_RETRIES,
};
use crate::announcement::TxMetadata;
use crate::cache::kept;
use crate::fetcher::{
    fetch_plan, filled, find_peer_from, first_idle_live, first_pending_with_idle_peer,
    idle_peer_for, in_response_flags, is_idle_in, lemma_find_peer, missing_flags, peer_ids,
    remove_all_pending, scan_limit, fill_from, Peer, TransactionFetcherInfo,
};
use crate::model::{
    announce_fold, buffer_fold, buffer_step, buffered, queue_hash, rebuffered, state_ok, strike_fold,
    untrack_all, FetcherState,
};
use crate::registry::{fallback_peers_ok, FetchMeta};
use crate::types::{PeerId, TxHash};

verus! {

/// Removing a value from a duplicate-free sequence removes its only occurrence and
/// keeps every other element.
pub proof fn lemma_remove_value_no_dup<T>(s: Seq<T>, x: T)
    requires
        s.no_duplicates(),
    ensures
        s.remove_value(x).no_duplicates(),
        !s.remove_value(x).contains(x),
        s.remove_value(x).len() <= s.len(),
        s.contains(x) ==> s.remove_value(x).len() == s.len() - 1,
        forall|y: T| y != x ==> (s.remove_value(x).contains(y) <==> s.contains(y)),
{
    if s.contains(x) {
        let i = choose|i: int| 0 <= i < s.len() && s[i] == x;
        lemma_remove_value_at(s, i);
        assert(s.remove(i).len() == s.len() - 1);
    } else {
        s.index_of_first_ensures(x);
    }
}

/// Touching `x` in a duplicate-free sequence bounded by `cap` keeps it so, and leaves
/// `x` in it; any other element of the result was there before, and the evicted
/// element, if any, is not `x` and has left.
pub proof fn lemma_lru_insert_ok<T>(s: Seq<T>, x: T, cap: nat)
    requires
        s.no_duplicates(),
        s.len() <= cap,
        cap > 0,
    ensures
        lru_insert(s, x, cap).no_duplicates(),
        lru_insert(s, x, cap).len() <= cap,
        lru_insert(s, x, cap).contains(x),
        forall|y: T| lru_insert(s, x, cap).contains(y) && y != x ==> s.contains(y),
        match lru_evicted(s, x, cap) {
            Some(e) => e != x && !lru_insert(s, x, cap).contains(e),
            None => true,
        },
{
    let r = lru_insert(s, x, cap);
    assert(r[r.len() - 1] == x);
    if s.contains(x) {
        lemma_remove_value_no_dup(s, x);
        let m = s.remove_value(x);
        assert forall|a: int, b: int| 0 <= a < r.len() && 0 <= b < r.len() && a != b implies r[a]
            != r[b] by {
            if a == r.len() - 1 {
                assert(m.contains(r[b]));
            } else if b == r.len() - 1 {
                assert(m.contains(r[a]));
            } else {
                assert(r[a] == m[a] && r[b] == m[b]);
            }
        }
        assert forall|y: T| r.contains(y) && y != x implies s.contains(y) by {
            let k = choose|k: int| 0 <= k < r.len() && r[k] == y;
            assert(m[k] == y);
            assert(m.contains(y));
        }
    } else if s.len() < cap {
        assert forall|a: int, b: int| 0 <= a < r.len() && 0 <= b < r.len() && a != b implies r[a]
            != r[b] by {
            if a == r.len() - 1 {
                assert(s.contains(r[b]));
            } else if b == r.len() - 1 {
                assert(s.contains(r[a]));
            }
        }
        assert forall|y: T| r.contains(y) && y != x implies s.contains(y) by {
            let k = choose|k: int| 0 <= k < r.len() && r[k] == y;
            assert(s[k] == y);
        }
    } else {
        let m = s.drop_first();
        assert forall|a: int, b: int| 0 <= a < r.len() && 0 <= b < r.len() && a != b implies r[a]
            != r[b] by {
            if a == r.len() - 1 {
                assert(s[b + 1] == r[b]);
                assert(s.contains(r[b]));
            } else if b == r.len() - 1 {
                assert(s[a + 1] == r[a]);
                assert(s.contains(r[a]));
            } else {
                assert(r[a] == s[a + 1] && r[b] == s[b + 1]);
            }
        }
        assert forall|y: T| r.contains(y) && y != x implies s.contains(y) by {
            let k = choose|k: int| 0 <= k < r.len() && r[k] == y;
            assert(s[k + 1] == y);
        }
        if r.contains(s[0]) {
            let k = choose|k: int| 0 <= k < r.len() && r[k] == s[0];
            if k < r.len() - 1 {
                assert(s[k + 1] == s[0]);
            }
        }
    }
}

/// What one re-buffering of the single hash `h` after `peer` failed does.
pub proof fn lemma_rebuffer_one(st: FetcherState, h: TxHash, peer: PeerId)
    requires
        state_ok(st),
    ensures
        state_ok(rebuffered(st, seq![h], peer)),
        !st.registry.contains_key(h) ==> rebuffered(st, seq![h], peer) == st,
        st.registry.contains_key(h) && st.registry[h].retries >= DEFAULT_MAX_RETRIES
            ==> !rebuffered(st, seq![h], peer).registry.contains_key(h),
        st.registry.contains_key(h) && st.registry[h].retries < DEFAULT_MAX_RETRIES ==> {
            &&& rebuffered(st, seq![h], peer).registry.contains_key(h)
            &&& rebuffered(st, seq![h], peer).registry[h].retries == st.registry[h].retries + 1
            &&& rebuffered(st, seq![h], peer).pending.contains(h)
            &&& !rebuffered(st, seq![h], peer).registry[h].fallback_peers.contains(peer)
        },
        forall|g: TxHash| g != h && #[trigger] rebuffered(st, seq![h], peer).registry.contains_key(g)
            ==> st.registry.contains_key(g),
        forall|g: TxHash| g != h && #[trigger] rebuffered(st, seq![h], peer).pending.contains(g)
            ==> st.pending.contains(g),
{
    let one = seq![h];
    let none = Seq::<TxHash>::empty();
    assert(one.drop_last() =~= none);
    assert(one.last() == h);
    let s0 = strike_fold(st, none, peer);
    assert(s0 == (st, none));
    let s1 = strike_fold(st, one, peer);
    let cap = DEFAULT_MAX_CAPACITY_CACHE_PENDING_FETCH as nat;
    if !st.registry.contains_key(h) {
        assert(s1 == (st, none));
        assert(buffer_fold(st, none, None) == (st, none));
        assert(untrack_all(st, none) == st);
    } else {
        let m = st.registry[h];
        let st1 = s1.0;
        assert(s1.1 == one);
        assert(st1.pending == st.pending);
        assert(st1.registry.dom() =~= st.registry.dom());
        let m1 = st1.registry[h];
        assert(m1.retries == m.retries);
        assert(buffer_fold(st1, none, None) == (st1, none));
        let b = buffer_fold(st1, one, None);
        assert(b == buffer_step(st1, none, h, None));
        assert(fallback_peers_ok(m.fallback_peers));
        lemma_remove_value_no_dup(m.fallback_peers, peer);
        assert(fallback_peers_ok(m1.fallback_peers));
        if m.retries >= DEFAULT_MAX_RETRIES {
            assert(b == (st1, none.push(h)));
            assert(none.push(h) =~= one);
            let u = untrack_all(st1, one);
            assert(untrack_all(st1, none) == st1);
            assert(u.registry == st1.registry.remove(h));
            assert(u.pending == st1.pending.remove_value(h));
            lemma_remove_value_no_dup(st1.pending, h);
            assert(u.registry.dom() =~= st1.registry.dom().remove(h));
            assert forall|g: TxHash| #[trigger] u.pending.contains(g) implies u.registry.contains_key(g) by {
                assert(st.pending.contains(g));
            }
            assert forall|g: TxHash| #[trigger] u.registry.contains_key(g) implies fallback_peers_ok(
                u.registry[g].fallback_peers,
            ) by {
                assert(st.registry.contains_key(g));
            }
        } else {
            let m2 = FetchMeta {
                retries: (m1.retries + 1) as u8,
                fallback_peers: m1.fallback_peers,
                tx_encoded_length: m1.tx_encoded_length,
            };
            let st2pre = FetcherState { registry: st1.registry.insert(h, m2), pending: st1.pending };
            assert(b == queue_hash(st2pre, h, none));
            let st2 = b.0;
            lemma_lru_insert_ok(st.pending, h, cap);
            assert(st2.pending == lru_insert(st.pending, h, cap));
            assert(st2.registry == st1.registry.insert(h, m2));
            let u = untrack_all(st2, b.1);
            match lru_evicted(st.pending, h, cap) {
                Some(e) => {
                    assert(b.1 == none.push(e));
                    assert(none.push(e).drop_last() =~= none);
                    assert(untrack_all(st2, none) == st2);
                    assert(u.registry == st2.registry.remove(e));
                    assert(u.pending == st2.pending.remove_value(e));
                    lemma_remove_value_no_dup(st2.pending, e);
                    assert(u.registry.dom() =~= st2.registry.dom().remove(e));
                    assert forall|g: TxHash| #[trigger] u.pending.contains(g) implies u.registry.contains_key(g) by {
                        assert(st2.pending.contains(g));
                        if g != h {
                            assert(st.pending.contains(g));
                        }
                    }
                    assert forall|g: TxHash| #[trigger] u.registry.contains_key(g) implies fallback_peers_ok(
                        u.registry[g].fallback_peers,
                    ) by {
                        if g != h {
                            assert(st.registry.contains_key(g));
                        }
                    }
                    assert(u.pending.contains(h));
                    assert forall|g: TxHash| g != h && #[trigger] u.pending.contains(g) implies st.pending.contains(g) by {
                        assert(st2.pending.contains(g));
                    }
                },
                None => {
                    assert(b.1 == none);
                    assert(u == st2);
                    assert(st2.registry.dom() =~= st.registry.dom());
                    assert forall|g: TxHash| #[trigger] u.pending.contains(g) implies u.registry.contains_key(g) by {
                        if g != h {
                            assert(st.pending.contains(g));
                        }
                    }
                    assert forall|g: TxHash| #[trigger] u.registry.contains_key(g) implies fallback_peers_ok(
                        u.registry[g].fallback_peers,
                    ) by {
                        if g != h {
                            assert(st.registry.contains_key(g));
                        }
                    }
                },
            }
        }
    }
}

/// The state after re-buffering the single hash `h` once for each peer of `peers`, in
/// order, each time after that peer failed to serve it.
pub open spec fn rebuffered_times(st: FetcherState, h: TxHash, peers: Seq<PeerId>) -> FetcherState
    decreases peers.len(),
{
    if peers.len() == 0 {
        st
    } else {
        rebuffered(rebuffered_times(st, h, peers.drop_last()), seq![h], peers.last())
    }
}

proof fn lemma_rebuffered_times(st: FetcherState, h: TxHash, peers: Seq<PeerId>)
    requires
        state_ok(st),
    ensures
        state_ok(rebuffered_times(st, h, peers)),
        rebuffered_times(st, h, peers).registry.contains_key(h) ==> {
            &&& peers.len() <= DEFAULT_MAX_RETRIES
            &&& rebuffered_times(st, h, peers).registry[h].retries >= peers.len()
        },
    decreases peers.len(),
{
    if peers.len() > 0 {
        let prev = rebuffered_times(st, h, peers.drop_last());
        lemma_rebuffered_times(st, h, peers.drop_last());
        lemma_rebuffer_one(prev, h, peers.last());
    }
}

/// Retry bound: a tracked hash that is re-buffered for retry `DEFAULT_MAX_RETRIES + 1`
/// times in a row is, afterwards, neither tracked nor pending fetch.
pub proof fn lemma_retry_bound(st: FetcherState, h: TxHash, peers: Seq<PeerId>)
    requires
        state_ok(st),
        peers.len() == DEFAULT_MAX_RETRIES + 1,
    ensures
        !rebuffered_times(st, h, peers).registry.contains_key(h),
        !rebuffered_times(st, h, peers).pending.contains(h),
{
    lemma_rebuffered_times(st, h, peers);
}

/// Announcing a hash that is in flight (tracked and not pending fetch) never changes
/// its retry count and never moves it into the pending queue, whatever the
/// announcement holds.
pub proof fn lemma_announce_keeps_in_flight(
    st: FetcherState,
    entries: Seq<(TxHash, TxMetadata)>,
    announcer: PeerId,
    live: Seq<PeerId>,
    h: TxHash,
)
    requires
        st.registry.contains_key(h),
        !st.pending.contains(h),
    ensures
        announce_fold(st, entries, announcer, live).0.registry.contains_key(h),
        announce_fold(st, entries, announcer, live).0.registry[h].retries == st.registry[h].retries,
        !announce_fold(st, entries, announcer, live).0.pending.contains(h),
    decreases entries.len(),
{
    if entries.len() > 0 {
        lemma_announce_keeps_in_flight(st, entries.drop_last(), announcer, live, h);
    }
}

/// Touching `p` again in a duplicate-free sequence that already ends with it changes
/// nothing.
proof fn lemma_lru_insert_again(g: Seq<PeerId>, p: PeerId, cap: nat)
    requires
        g.no_duplicates(),
        g.len() > 0,
        g.last() == p,
    ensures
        lru_insert(g, p, cap) == g,
{
    lemma_remove_value_at(g, g.len() - 1);
    assert(g.contains(p)) by {
        assert(g[g.len() - 1] == p);
    }
    assert(g.remove(g.len() - 1).push(p) =~= g);
}

/// The fallback peers of `h` once `p` was touched for it if `h` is among `hashes`.
pub open spec fn fallbacks_after(st: FetcherState, hashes: Seq<TxHash>, p: PeerId, h: TxHash) -> Seq<PeerId> {
    if hashes.contains(h) {
        lru_insert(st.registry[h].fallback_peers, p, DEFAULT_MAX_COUNT_FALLBACK_PEERS as nat)
    } else {
        st.registry[h].fallback_peers
    }
}

proof fn lemma_buffer_fold_fallbacks(st: FetcherState, hashes: Seq<TxHash>, p: PeerId)
    requires
        state_ok(st),
    ensures
        buffer_fold(st, hashes, Some(p)).0.registry.dom() == st.registry.dom(),
        forall|h: TxHash| #[trigger] st.registry.contains_key(h) ==> buffer_fold(st, hashes, Some(p)).0.registry[h].fallback_peers
            == fallbacks_after(st, hashes, p, h),
    decreases hashes.len(),
{
    let cap = DEFAULT_MAX_COUNT_FALLBACK_PEERS as nat;
    if hashes.len() == 0 {
        assert forall|h: TxHash| #[trigger] st.registry.contains_key(h) implies buffer_fold(st, hashes, Some(p)).0.registry[h].fallback_peers
            == fallbacks_after(st, hashes, p, h) by {}
    } else {
        let prev_hs = hashes.drop_last();
        let x = hashes.last();
        lemma_buffer_fold_fallbacks(st, prev_hs, p);
        let r = buffer_fold(st, prev_hs, Some(p));
        let next = buffer_fold(st, hashes, Some(p)).0;
        assert(buffer_fold(st, hashes, Some(p)) == buffer_step(r.0, r.1, x, Some(p)));
        assert forall|h: TxHash| #[trigger] hashes.contains(h) <==> (prev_hs.contains(h) || h == x) by {
            if hashes.contains(h) && h != x {
                let k = choose|k: int| 0 <= k < hashes.len() && hashes[k] == h;
                assert(prev_hs[k] == h);
            }
            if prev_hs.contains(h) {
                let k = choose|k: int| 0 <= k < prev_hs.len() && prev_hs[k] == h;
                assert(hashes[k] == h);
            }
            if h == x {
                assert(hashes[hashes.len() - 1] == h);
            }
        }
        if r.0.registry.contains_key(x) {
            assert(next.registry.dom() =~= st.registry.dom());
            let fx = st.registry[x].fallback_peers;
            assert(fallback_peers_ok(fx));
            lemma_lru_insert_ok(fx, p, cap);
            if prev_hs.contains(x) {
                lemma_lru_insert_again(lru_insert(fx, p, cap), p, cap);
            }
        } else {
            assert(next == r.0);
        }
    }
}

proof fn lemma_untrack_keeps_entries(st: FetcherState, hashes: Seq<TxHash>)
    ensures
        forall|h: TxHash| #[trigger] untrack_all(st, hashes).registry.contains_key(h) ==> st.registry.contains_key(h)
            && untrack_all(st, hashes).registry[h] == st.registry[h],
    decreases hashes.len(),
{
    if hashes.len() > 0 {
        lemma_untrack_keeps_entries(st, hashes.drop_last());
        let prev = untrack_all(st, hashes.drop_last());
        let cur = untrack_all(st, hashes);
        assert(cur.registry == prev.registry.remove(hashes.last()));
        assert forall|h: TxHash| #[trigger] cur.registry.contains_key(h) implies st.registry.contains_key(h)
            && cur.registry[h] == st.registry[h] by {
            assert(prev.registry.contains_key(h));
        }
    }
}

/// Fallback-set bound: after buffering `hashes` with the fallback peer `p`, a hash that
/// is still tracked was tracked before and has at most `DEFAULT_MAX_COUNT_FALLBACK_PEERS`
/// fallback peers. A buffered one has `p` among them, and if its set was full without
/// `p`, the oldest member was evicted and `p` appended, the others kept in order. A
/// hash that was not buffered keeps its fallback peers.
pub proof fn lemma_fallback_bound(st: FetcherState, hashes: Seq<TxHash>, p: PeerId, h: TxHash)
    requires
        state_ok(st),
        buffered(st, hashes, Some(p)).registry.contains_key(h),
    ensures
        st.registry.contains_key(h),
        buffered(st, hashes, Some(p)).registry[h].fallback_peers.len() <= DEFAULT_MAX_COUNT_FALLBACK_PEERS,
        hashes.contains(h) ==> buffered(st, hashes, Some(p)).registry[h].fallback_peers.contains(p),
        hashes.contains(h) && st.registry[h].fallback_peers.len() == DEFAULT_MAX_COUNT_FALLBACK_PEERS
            && !st.registry[h].fallback_peers.contains(p) ==> buffered(st, hashes, Some(p)).registry[h].fallback_peers
            == st.registry[h].fallback_peers.drop_first().push(p),
        !hashes.contains(h) ==> buffered(st, hashes, Some(p)).registry[h].fallback_peers
            == st.registry[h].fallback_peers,
{
    let r = buffer_fold(st, hashes, Some(p));
    lemma_untrack_keeps_entries(r.0, r.1);
    lemma_buffer_fold_fallbacks(st, hashes, p);
    assert(r.0.registry.contains_key(h));
    assert(st.registry.contains_key(h));
    let fh = st.registry[h].fallback_peers;
    assert(fallback_peers_ok(fh));
    lemma_lru_insert_ok(fh, p, DEFAULT_MAX_COUNT_FALLBACK_PEERS as nat);
}

/// A failed request: after a request for `h` to `peer` failed (an error or a closed
/// channel), a hash below the retry limit is still tracked with one more retry, is
/// pending fetch again, and no longer has `peer` among its fallback peers.
pub proof fn lemma_failed_request_requeues(st: FetcherState, h: TxHash, peer: PeerId)
    requires
        state_ok(st),
        st.registry.contains_key(h),
        st.registry[h].retries < DEFAULT_MAX_RETRIES,
    ensures
        rebuffered(st, seq![h], peer).registry.contains_key(h),
        rebuffered(st, seq![h], peer).registry[h].retries == st.registry[h].retries + 1,
        rebuffered(st, seq![h], peer).pending.contains(h),
        !rebuffered(st, seq![h], peer).registry[h].fallback_peers.contains(peer),
{
    lemma_rebuffer_one(st, h, peer);
}

/// A partial response: when a request to `peer` for `h1` and `h2` is answered with
/// hashes that hold `h1` and not `h2`, `h1` is neither tracked nor pending afterwards,
/// and `h2` (below the retry limit) is tracked with one more retry, pending fetch, and
/// no longer has `peer` among its fallback peers.
pub proof fn lemma_partial_response(
    st: FetcherState,
    h1: TxHash,
    h2: TxHash,
    peer: PeerId,
    response: Seq<TxHash>,
)
    requires
        state_ok(st),
        h1 != h2,
        st.registry.contains_key(h2),
        st.registry[h2].retries < DEFAULT_MAX_RETRIES,
        response.contains(h1),
        !response.contains(h2),
    ensures
        ({
            let req = seq![h1, h2];
            let after = rebuffered(
                untrack_all(st, kept(req, in_response_flags(req, response))),
                kept(req, missing_flags(req, response)),
                peer,
            );
            &&& !after.registry.contains_key(h1)
            &&& !after.pending.contains(h1)
            &&& after.registry.contains_key(h2)
            &&& after.registry[h2].retries == st.registry[h2].retries + 1
            &&& after.pending.contains(h2)
            &&& !after.registry[h2].fallback_peers.contains(peer)
        }),
{
    let req = seq![h1, h2];
    let fin = in_response_flags(req, response);
    let fmiss = missing_flags(req, response);
    assert(fin[0] && !fin[1]);
    assert(!fmiss[0] && fmiss[1]);
    assert(req.drop_last() =~= seq![h1]);
    assert(fin.drop_last() =~= seq![true]);
    assert(fmiss.drop_last() =~= seq![false]);
    assert(seq![h1].drop_last() =~= Seq::<TxHash>::empty());
    assert(seq![true].drop_last() =~= Seq::<bool>::empty());
    assert(seq![false].drop_last() =~= Seq::<bool>::empty());
    assert(kept(Seq::<TxHash>::empty(), Seq::<bool>::empty()) == Seq::<TxHash>::empty());
    assert(seq![true].last() && !seq![false].last());
    assert(seq![h1].last() == h1);
    assert(Seq::<TxHash>::empty().push(h1) =~= seq![h1]);
    assert(kept(seq![h1], seq![true]) =~= seq![h1]);
    assert(kept(seq![h1], seq![false]) =~= Seq::<TxHash>::empty());
    assert(kept(req, fin) =~= seq![h1]);
    assert(kept(req, fmiss) =~= seq![h2]);
    let none = Seq::<TxHash>::empty();
    assert(seq![h1].drop_last() =~= none);
    assert(untrack_all(st, none) == st);
    let st1 = untrack_all(st, seq![h1]);
    assert(st1.registry == st.registry.remove(h1));
    assert(st1.pending == st.pending.remove_value(h1));
    lemma_remove_value_no_dup(st.pending, h1);
    assert(st1.registry.dom() =~= st.registry.dom().remove(h1));
    assert forall|g: TxHash| #[trigger] st1.pending.contains(g) implies st1.registry.contains_key(g) by {
        assert(st.pending.contains(g));
    }
    assert forall|g: TxHash| #[trigger] st1.registry.contains_key(g) implies fallback_peers_ok(
        st1.registry[g].fallback_peers,
    ) by {
        assert(st.registry.contains_key(g));
    }
    assert(state_ok(st1));
    lemma_rebuffer_one(st1, h2, peer);
}

/// First sighting, scheduled: when the only pending hash `h` has `p1` as its only
/// fallback peer, `p1` is idle and has a live session, the plan is a request to `p1`
/// for exactly `h`, after which nothing is pending and `h` is still tracked.
pub proof fn lemma_first_sighting_scheduled(
    st: FetcherState,
    counts: Map<PeerId, u8>,
    peers: Seq<Peer>,
    limits: TransactionFetcherInfo,
    inflight_requests: usize,
    h: TxHash,
    p1: PeerId,
)
    requires
        st.pending == seq![h],
        st.registry.contains_key(h),
        st.registry[h].fallback_peers == seq![p1],
        is_idle_in(counts, p1),
        peer_ids(peers).contains(p1),
    ensures
        fetch_plan(st, counts, peers, limits, inflight_requests, None) == Some(
            (p1, seq![h], FetcherState { registry: st.registry, pending: Seq::empty() }),
        ),
{
    let live = peer_ids(peers);
    let fb = seq![p1];
    assert(fb[0] == p1);
    assert(first_idle_live(fb, counts, live, 1) == None::<PeerId>);
    assert(first_idle_live(fb, counts, live, 0) == Some(p1));
    assert(idle_peer_for(st, counts, live, h) == Some(p1));
    assert(st.pending[0] == h);
    assert(scan_limit(None, st.pending.len() as int) == 1);
    assert(first_pending_with_idle_peer(st, counts, live, 0, 1) == Some(0int));
    let jj = choose|jj: int| 0 <= jj < live.len() && live[jj] == p1;
    assert(peers[jj].peer_id == p1);
    lemma_find_peer(peers, p1, 0, jj);
    st.pending.index_of_first_ensures(h);
    let st1 = FetcherState { registry: st.registry, pending: st.pending.remove_value(h) };
    lemma_remove_value_no_dup(st.pending, h);
    assert(st1.pending.len() == 0);
    assert(st1.pending =~= Seq::<TxHash>::empty());
    let k = find_peer_from(peers, p1, 0).unwrap();
    let seen = peers[k].seen_transactions@;
    let budget2 = if inflight_requests <= limits.max_inflight() && st1.pending.len()
        < limits.max_pending() {
        None
    } else {
        Some(crate::constants::DEFAULT_BUDGET_FIND_INTERSECTION_ANNOUNCED_BY_PEER_AND_PENDING_FETCH)
    };
    let acc0 = crate::fetcher::size_estimate(st1.registry, h);
    assert(fill_from(st1, seen, 0, scan_limit(budget2, 0), acc0, 1) =~= Seq::<TxHash>::empty());
    assert(filled(st1, seq![h], seen, budget2) =~= Seq::<TxHash>::empty());
    assert(seq![h] + Seq::<TxHash>::empty() =~= seq![h]);
    assert(seq![h].drop_last() =~= Seq::<TxHash>::empty());
    assert(remove_all_pending(st1.pending, Seq::<TxHash>::empty()) == st1.pending);
    Seq::<TxHash>::empty().index_of_first_ensures(h);
    assert(remove_all_pending(st1.pending, seq![h]) =~= Seq::<TxHash>::empty());
}

} // verus!
