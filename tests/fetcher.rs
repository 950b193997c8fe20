use std::collections::HashSet;

use tx_fetcher::constants::{
    DEFAULT_BUDGET_FIND_IDLE_FALLBACK_PEER, DEFAULT_MAX_COUNT_FALLBACK_PEERS, DEFAULT_MAX_RETRIES,
    DEFAULT_SOFT_LIMIT_BYTE_SIZE_POOLED_TRANSACTIONS_RESPONSE,
    DEFAULT_SOFT_LIMIT_BYTE_SIZE_POOLED_TRANSACTIONS_RESPONSE_ON_PACK_GET_POOLED_TRANSACTIONS_REQUEST,
    SOFT_LIMIT_BYTE_SIZE_POOLED_TRANSACTIONS_RESPONSE,
    SOFT_LIMIT_COUNT_HASHES_IN_GET_POOLED_TRANSACTIONS_REQUEST,
};
use tx_fetcher::{
    EthVersion, FetchEvent, LruCache, Peer, PeerId, RequestError, RequestOutcome,
    RequestTxHashes, TransactionFetcher, TransactionFetcherConfig, TransactionFetcherInfo,
    TransactionsManagerConfig, TxHash, ValidAnnouncementData,
};

fn hash(b: u8) -> TxHash {
    TxHash::repeat_byte(b)
}

fn peer(b: u8) -> PeerId {
    PeerId::repeat_byte(b)
}

fn peer_record(id: PeerId, seen: &[TxHash]) -> Peer {
    let mut seen_transactions = LruCache::new(64);
    for h in seen {
        seen_transactions.insert(*h);
    }
    Peer { peer_id: id, version: EthVersion::Eth68, seen_transactions }
}

fn eth66_announcement(hashes: &[TxHash]) -> ValidAnnouncementData {
    let mut data = ValidAnnouncementData::empty_eth66();
    for h in hashes {
        data.insert(*h, None);
    }
    data
}

/// Announces `hashes` from `from` with no idle peer, so they end up pending with
/// `from` as fallback peer.
fn announce_and_buffer(fetcher: &mut TransactionFetcher, hashes: &[TxHash], from: PeerId) {
    let mut data = eth66_announcement(hashes);
    fetcher.filter_unseen_and_pending_hashes(&mut data, &from, &vec![from]);
    let (request, _) = data.into_request_hashes();
    fetcher.buffer_hashes(request, Some(from));
}

fn hashes_of(r: &RequestTxHashes) -> Vec<TxHash> {
    (0..r.len()).map(|i| r.get(i)).collect()
}

fn pending_of(fetcher: &TransactionFetcher) -> Vec<TxHash> {
    let pending = fetcher.hashes_pending_fetch();
    (0..pending.len()).map(|i| pending.get(i)).collect()
}

#[test]
fn pack_eth68_request() {
    let tx_fetcher = &mut TransactionFetcher::default();

    let eth68_hashes = [hash(1), hash(2), hash(3), hash(4), hash(5)];
    let eth68_hashes_sizes = [
        DEFAULT_SOFT_LIMIT_BYTE_SIZE_POOLED_TRANSACTIONS_RESPONSE - 2,
        DEFAULT_SOFT_LIMIT_BYTE_SIZE_POOLED_TRANSACTIONS_RESPONSE,
        2,
        9,
        2,
    ];

    let possible_outcome_1 = [eth68_hashes[0], eth68_hashes[2]].into_iter().collect::<HashSet<_>>();
    let possible_outcome_2 = [eth68_hashes[0], eth68_hashes[4]].into_iter().collect::<HashSet<_>>();
    let possible_outcome_3 = [eth68_hashes[1]].into_iter().collect::<HashSet<_>>();
    let possible_outcome_4 =
        [eth68_hashes[2], eth68_hashes[3], eth68_hashes[4]].into_iter().collect::<HashSet<_>>();

    let possible_outcomes =
        [possible_outcome_1, possible_outcome_2, possible_outcome_3, possible_outcome_4];

    let mut eth68_hashes_to_request = RequestTxHashes::with_capacity(3);
    let mut valid_announcement_data = ValidAnnouncementData::empty_eth68();
    for i in 0..eth68_hashes.len() {
        valid_announcement_data.insert(eth68_hashes[i], Some((0, eth68_hashes_sizes[i])));
    }
    let surplus_eth68_hashes =
        tx_fetcher.pack_hashes_eth68(&mut eth68_hashes_to_request, valid_announcement_data);

    let combo_surplus_hashes = surplus_eth68_hashes.into_vec().into_iter().collect::<HashSet<_>>();
    for combo in possible_outcomes.clone() {
        assert_ne!(combo, combo_surplus_hashes)
    }

    let combo_hashes_to_request =
        eth68_hashes_to_request.into_vec().into_iter().collect::<HashSet<_>>();

    let mut combo_match = false;
    for combo in possible_outcomes {
        if combo == combo_hashes_to_request {
            combo_match = true;
        }
    }

    assert!(combo_match)
}

#[test]
fn pack_eth68_keeps_announced_order() {
    let fetcher = TransactionFetcher::default();
    let limit = DEFAULT_SOFT_LIMIT_BYTE_SIZE_POOLED_TRANSACTIONS_RESPONSE;
    let mut data = ValidAnnouncementData::empty_eth68();
    for (b, size) in [(1u8, limit - 2), (2, limit), (3, 2), (4, 9), (5, 2)] {
        data.insert(hash(b), Some((0, size)));
    }
    let mut request = RequestTxHashes::empty();
    let surplus = fetcher.pack_hashes_eth68(&mut request, data);
    assert_eq!(hashes_of(&request), vec![hash(1), hash(3)]);
    assert_eq!(surplus.into_vec(), vec![hash(2), hash(4), hash(5)]);
}

#[test]
fn pack_eth68_oversized_first_goes_alone() {
    let fetcher = TransactionFetcher::default();
    let limit = DEFAULT_SOFT_LIMIT_BYTE_SIZE_POOLED_TRANSACTIONS_RESPONSE;
    let mut data = ValidAnnouncementData::empty_eth68();
    data.insert(hash(1), Some((2, limit)));
    data.insert(hash(2), Some((2, 10)));
    data.insert(hash(3), Some((2, 10)));
    let mut request = RequestTxHashes::empty();
    let surplus = fetcher.pack_hashes(&mut request, data);
    assert_eq!(hashes_of(&request), vec![hash(1)]);
    assert_eq!(surplus.into_vec(), vec![hash(2), hash(3)]);
}

#[test]
fn pack_eth68_total_stays_within_limit() {
    let fetcher = TransactionFetcher::default();
    let limit = DEFAULT_SOFT_LIMIT_BYTE_SIZE_POOLED_TRANSACTIONS_RESPONSE;
    let sizes = [limit / 2, limit / 4, limit / 2, limit / 8, 1000, limit];
    let mut data = ValidAnnouncementData::empty_eth68();
    for (i, size) in sizes.iter().enumerate() {
        data.insert(hash(i as u8 + 1), Some((2, *size)));
    }
    let mut request = RequestTxHashes::empty();
    let surplus = fetcher.pack_hashes_eth68(&mut request, data);
    let requested = hashes_of(&request);
    let total: usize = requested.iter().map(|h| sizes[(h.0 & 0xff) as usize - 1]).sum();
    assert!(total <= limit);
    assert_eq!(requested, vec![hash(1), hash(2), hash(4), hash(5)]);
    assert_eq!(surplus.into_vec(), vec![hash(3), hash(6)]);
}

#[test]
fn pack_eth68_appends_to_buffer() {
    let fetcher = TransactionFetcher::default();
    let mut data = ValidAnnouncementData::empty_eth68();
    data.insert(hash(2), Some((0, 100)));
    let mut request = RequestTxHashes::new(vec![hash(9)]);
    let surplus = fetcher.pack_hashes_eth68(&mut request, data);
    assert_eq!(hashes_of(&request), vec![hash(9), hash(2)]);
    assert!(surplus.is_empty());
}

#[test]
fn pack_eth68_empty_announcement() {
    let fetcher = TransactionFetcher::default();
    let mut request = RequestTxHashes::empty();
    let surplus = fetcher.pack_hashes_eth68(&mut request, ValidAnnouncementData::empty_eth68());
    assert!(request.is_empty());
    assert!(surplus.is_empty());
}

#[test]
fn pack_eth66_splits_at_count_limit() {
    let fetcher = TransactionFetcher::default();
    let count = SOFT_LIMIT_COUNT_HASHES_IN_GET_POOLED_TRANSACTIONS_REQUEST;
    let hashes: Vec<TxHash> = (0..count + 5).map(|i| TxHash(i as u64, 0, 0, 0)).collect();
    let mut request = RequestTxHashes::new(vec![hash(200)]);
    let surplus = fetcher.pack_hashes(&mut request, eth66_announcement(&hashes));
    let requested = hashes_of(&request);
    assert_eq!(requested.len(), count);
    assert_eq!(requested[..], hashes[..count]);
    assert_eq!(surplus.into_vec()[..], hashes[count..]);
}

#[test]
fn pack_eth66_small_announcement_goes_whole() {
    let fetcher = TransactionFetcher::default();
    let hashes = [hash(1), hash(2), hash(3)];
    let mut request = RequestTxHashes::empty();
    let surplus = fetcher.pack_hashes_eth66(&mut request, eth66_announcement(&hashes));
    assert_eq!(hashes_of(&request), hashes.to_vec());
    assert!(surplus.is_empty());
}

#[test]
fn announcement_insert_replaces_metadata_in_place() {
    let mut data = ValidAnnouncementData::empty_eth68();
    assert_eq!(data.insert(hash(1), Some((0, 5))), None);
    assert_eq!(data.insert(hash(2), Some((0, 6))), None);
    assert_eq!(data.insert(hash(1), Some((1, 7))), Some(Some((0, 5))));
    assert_eq!(data.len(), 2);
    assert_eq!(data.get(0), (hash(1), Some((1, 7))));
    assert_eq!(data.msg_version(), EthVersion::Eth68);
}

#[test]
fn repeat_byte_fills_every_word() {
    assert_eq!(hash(1), TxHash(0x0101010101010101, 0x0101010101010101, 0x0101010101010101, 0x0101010101010101));
    assert_eq!(hash(0xff).3, u64::MAX);
    assert_eq!(peer(2).7, 0x0202020202020202);
    assert_ne!(hash(1), hash(2));
}

#[test]
fn lru_cache_evicts_least_recently_touched() {
    let mut cache = LruCache::new(2);
    assert_eq!(cache.insert_and_get_evicted(hash(1)), (true, None));
    assert_eq!(cache.insert_and_get_evicted(hash(2)), (true, None));
    assert_eq!(cache.insert_and_get_evicted(hash(1)), (false, None));
    assert_eq!(cache.insert_and_get_evicted(hash(3)), (true, Some(hash(2))));
    assert!(cache.contains(&hash(1)));
    assert!(cache.contains(&hash(3)));
    assert!(!cache.contains(&hash(2)));
    assert!(cache.remove(&hash(1)));
    assert!(!cache.remove(&hash(1)));
    assert_eq!(cache.len(), 1);
}

#[test]
fn fallback_peers_never_exceed_limit() {
    let mut fetcher = TransactionFetcher::default();
    let h = hash(1);
    let max = DEFAULT_MAX_COUNT_FALLBACK_PEERS as u8;
    for p in 1..=max + 2 {
        announce_and_buffer(&mut fetcher, &[h], peer(p));
        let meta = fetcher.metadata(&h).unwrap();
        assert!(meta.fallback_peers().len() <= max as usize);
    }
    let peers = fetcher.metadata(&h).unwrap().fallback_peers();
    assert_eq!(peers.len(), max as usize);
    assert!(!peers.contains(&peer(1)));
    assert!(!peers.contains(&peer(2)));
    assert_eq!(peers.get(0), peer(3));
    assert_eq!(peers.get(max as usize - 1), peer(max + 2));
}

#[test]
fn first_sighting_without_idle_peer_then_scheduled() {
    let mut fetcher = TransactionFetcher::default();
    let h = hash(7);
    let alice = peer(1);
    let mut data = eth66_announcement(&[h]);
    fetcher.filter_unseen_and_pending_hashes(&mut data, &alice, &vec![alice]);
    assert_eq!(data.len(), 1);
    let (request, _) = data.into_request_hashes();
    fetcher.buffer_hashes(request, Some(alice));

    assert_eq!(pending_of(&fetcher), vec![h]);
    assert_eq!(fetcher.tracked_len(), 1);
    let meta = fetcher.metadata(&h).unwrap();
    assert_eq!(meta.retries(), 0);
    assert_eq!(meta.fallback_peers().len(), 1);
    assert_eq!(meta.fallback_peers().get(0), alice);

    let peers = vec![peer_record(alice, &[])];
    let scheduled = fetcher.on_fetch_pending_hashes(&peers, 0, None);
    let (to, request) = scheduled.unwrap();
    assert_eq!(to, alice);
    assert_eq!(hashes_of(&request), vec![h]);
    assert!(pending_of(&fetcher).is_empty());
    assert_eq!(fetcher.inflight_count_for(&alice), Some(1));
}

#[test]
fn scheduling_fills_request_with_hashes_seen_by_peer() {
    let mut fetcher = TransactionFetcher::default();
    let p = peer(1);
    announce_and_buffer(&mut fetcher, &[hash(1), hash(2), hash(3)], p);
    let peers = vec![peer_record(p, &[hash(3)])];
    let (to, request) = fetcher.on_fetch_pending_hashes(&peers, 0, None).unwrap();
    assert_eq!(to, p);
    assert_eq!(hashes_of(&request), vec![hash(1), hash(3)]);
    assert_eq!(pending_of(&fetcher), vec![hash(2)]);
}

#[test]
fn scheduling_skips_dead_and_busy_peers() {
    let mut fetcher = TransactionFetcher::default();
    let alice = peer(1);
    let bob = peer(2);
    announce_and_buffer(&mut fetcher, &[hash(1)], alice);
    announce_and_buffer(&mut fetcher, &[hash(2)], bob);
    // alice has no session: the first pending hash has no live fallback peer.
    let peers = vec![peer_record(bob, &[])];
    let (to, request) = fetcher.on_fetch_pending_hashes(&peers, 0, None).unwrap();
    assert_eq!(to, bob);
    assert_eq!(hashes_of(&request), vec![hash(2)]);
    // bob is now busy, so nothing more can be scheduled.
    assert!(fetcher.on_fetch_pending_hashes(&peers, 0, None).is_none());
    assert_eq!(pending_of(&fetcher), vec![hash(1)]);
}

#[test]
fn idle_search_respects_budget() {
    let mut fetcher = TransactionFetcher::default();
    let alice = peer(1);
    let bob = peer(2);
    announce_and_buffer(&mut fetcher, &[hash(1)], alice);
    announce_and_buffer(&mut fetcher, &[hash(2)], bob);
    let live = vec![bob];
    let mut request = RequestTxHashes::empty();
    let found = fetcher.find_any_idle_fallback_peer_for_any_pending_hash(&mut request, &live, Some(1));
    assert_eq!(found, None);
    assert!(request.is_empty());
    let found = fetcher.find_any_idle_fallback_peer_for_any_pending_hash(&mut request, &live, Some(2));
    assert_eq!(found, Some(bob));
    assert_eq!(hashes_of(&request), vec![hash(2)]);
    assert_eq!(pending_of(&fetcher), vec![hash(1)]);
}

#[test]
fn announcing_in_flight_hash_keeps_retries_and_queue() {
    let mut fetcher = TransactionFetcher::default();
    let alice = peer(1);
    let bob = peer(2);
    announce_and_buffer(&mut fetcher, &[hash(1)], alice);
    let peers = vec![peer_record(alice, &[])];
    let (_, request) = fetcher.on_fetch_pending_hashes(&peers, 0, None).unwrap();
    fetcher.on_resolved_request::<()>(alice, request, RequestOutcome::ChannelClosed);
    fetcher.buffer_hashes(RequestTxHashes::new(vec![hash(1)]), Some(alice));
    let (_, _request) = fetcher.on_fetch_pending_hashes(&peers, 0, None).unwrap();
    assert_eq!(fetcher.metadata(&hash(1)).unwrap().retries(), 1);

    let mut data = ValidAnnouncementData::empty_eth68();
    data.insert(hash(1), Some((2, 321)));
    fetcher.filter_unseen_and_pending_hashes(&mut data, &bob, &vec![alice, bob]);
    assert_eq!(data.len(), 0);
    let meta = fetcher.metadata(&hash(1)).unwrap();
    assert_eq!(meta.retries(), 1);
    assert_eq!(meta.tx_encoded_len(), Some(321));
    assert!(meta.fallback_peers().contains(&bob));
    assert!(pending_of(&fetcher).is_empty());
}

#[test]
fn announcing_pending_hash_keeps_it_queued() {
    let mut fetcher = TransactionFetcher::default();
    let alice = peer(1);
    announce_and_buffer(&mut fetcher, &[hash(1)], alice);
    let mut data = eth66_announcement(&[hash(1), hash(2)]);
    fetcher.filter_unseen_and_pending_hashes(&mut data, &alice, &vec![alice]);
    assert_eq!(data.len(), 2);
    assert_eq!(pending_of(&fetcher), vec![hash(1)]);
    assert_eq!(fetcher.tracked_len(), 2);
}

#[test]
fn announcing_drops_fallback_peers_whose_session_ended() {
    let mut fetcher = TransactionFetcher::default();
    let (alice, bob, carol) = (peer(1), peer(2), peer(3));
    announce_and_buffer(&mut fetcher, &[hash(1)], alice);
    fetcher.buffer_hashes(RequestTxHashes::new(vec![hash(1)]), Some(bob));
    let peers = vec![peer_record(alice, &[])];
    fetcher.on_fetch_pending_hashes(&peers, 0, None).unwrap();
    let mut data = eth66_announcement(&[hash(1)]);
    fetcher.filter_unseen_and_pending_hashes(&mut data, &carol, &vec![alice, carol]);
    let fallbacks = fetcher.metadata(&hash(1)).unwrap().fallback_peers();
    assert!(fallbacks.contains(&alice));
    assert!(!fallbacks.contains(&bob));
    assert!(fallbacks.contains(&carol));
}

#[test]
fn new_hash_records_announced_size() {
    let mut fetcher = TransactionFetcher::default();
    let mut data = ValidAnnouncementData::empty_eth68();
    data.insert(hash(4), Some((2, 4000)));
    fetcher.filter_unseen_and_pending_hashes(&mut data, &peer(1), &vec![peer(1)]);
    let meta = fetcher.metadata(&hash(4)).unwrap();
    assert_eq!(meta.tx_encoded_len(), Some(4000));
    assert_eq!(meta.retries(), 0);
    assert_eq!(meta.fallback_peers().len(), 0);
}

#[test]
fn retry_limit_drops_hash() {
    let mut fetcher = TransactionFetcher::default();
    let h = hash(1);
    let p = peer(1);
    announce_and_buffer(&mut fetcher, &[h], p);
    for round in 0..DEFAULT_MAX_RETRIES {
        fetcher.buffer_hashes_for_retry(RequestTxHashes::new(vec![h]), &p);
        assert_eq!(fetcher.metadata(&h).unwrap().retries(), round + 1);
        assert_eq!(pending_of(&fetcher), vec![h]);
    }
    fetcher.buffer_hashes_for_retry(RequestTxHashes::new(vec![h]), &p);
    assert!(fetcher.metadata(&h).is_none());
    assert!(pending_of(&fetcher).is_empty());
}

#[test]
fn retry_of_untracked_hash_is_ignored() {
    let mut fetcher = TransactionFetcher::default();
    fetcher.buffer_hashes_for_retry(RequestTxHashes::new(vec![hash(5)]), &peer(1));
    assert_eq!(fetcher.tracked_len(), 0);
    assert!(pending_of(&fetcher).is_empty());
}

#[test]
fn per_peer_cap_refuses_second_request() {
    let mut fetcher = TransactionFetcher::default();
    let p = peer(1);
    let first = fetcher.request_transactions_from_peer(RequestTxHashes::new(vec![hash(1)]), p);
    assert_eq!(hashes_of(&first.unwrap()), vec![hash(1)]);
    assert_eq!(fetcher.inflight_count_for(&p), Some(1));
    assert!(!fetcher.is_idle(&p));
    let second = fetcher.request_transactions_from_peer(RequestTxHashes::new(vec![hash(2), hash(3)]), p);
    match second {
        Err(returned) => assert_eq!(hashes_of(&returned), vec![hash(2), hash(3)]),
        Ok(_) => panic!("a busy peer took another request"),
    }
    assert_eq!(fetcher.inflight_count_for(&p), Some(1));
}

#[test]
fn global_cap_refuses_new_peers() {
    let mut fetcher = TransactionFetcher::default();
    let max = TransactionFetcherInfo::default().max_inflight_transaction_requests();
    for i in 0..max {
        let p = PeerId(i as u64, 0, 0, 0, 0, 0, 0, 0);
        assert!(fetcher.request_transactions_from_peer(RequestTxHashes::new(vec![hash(1)]), p).is_ok());
        assert_eq!(fetcher.inflight_count_for(&p), Some(1));
    }
    let late = PeerId(u64::MAX, 0, 0, 0, 0, 0, 0, 0);
    let refused = fetcher.request_transactions_from_peer(RequestTxHashes::new(vec![hash(2)]), late);
    match refused {
        Err(returned) => assert_eq!(hashes_of(&returned), vec![hash(2)]),
        Ok(_) => panic!("admitted a request beyond the global cap"),
    }
    assert_eq!(fetcher.inflight_count_for(&late), None);
    fetcher.decrement_inflight_request_count_for(&PeerId(0, 0, 0, 0, 0, 0, 0, 0));
    assert!(fetcher.request_transactions_from_peer(RequestTxHashes::new(vec![hash(2)]), late).is_ok());
}

#[test]
fn first_request_to_untracked_peer_is_admitted() {
    let mut fetcher = TransactionFetcher::default();
    let alice = peer(1);
    announce_and_buffer(&mut fetcher, &[hash(2)], alice);
    assert_eq!(fetcher.inflight_count_for(&alice), None);
    let admitted = fetcher.request_transactions_from_peer(RequestTxHashes::new(vec![hash(1)]), alice);
    assert_eq!(hashes_of(&admitted.unwrap()), vec![hash(1)]);
    assert_eq!(fetcher.inflight_count_for(&alice), Some(1));
    assert_eq!(pending_of(&fetcher), vec![hash(2)]);
    // undoing the admission after a failed send leaves the peer idle again
    fetcher.decrement_inflight_request_count_for(&alice);
    assert_eq!(fetcher.inflight_count_for(&alice), None);
    assert!(fetcher.is_idle(&alice));
}

#[test]
fn full_tracker_schedules_nothing() {
    let mut fetcher = TransactionFetcher::default();
    let max = TransactionFetcherInfo::default().max_inflight_transaction_requests();
    for i in 0..max {
        let p = PeerId(i as u64 + 1000, 0, 0, 0, 0, 0, 0, 0);
        assert!(fetcher.request_transactions_from_peer(RequestTxHashes::new(vec![hash(9)]), p).is_ok());
    }
    let alice = peer(1);
    announce_and_buffer(&mut fetcher, &[hash(1)], alice);
    assert!(fetcher.on_fetch_pending_hashes(&vec![peer_record(alice, &[])], 0, None).is_none());
    assert_eq!(fetcher.inflight_count_for(&alice), None);
    assert_eq!(pending_of(&fetcher), vec![hash(1)]);
    assert_eq!(fetcher.metadata(&hash(1)).unwrap().retries(), 1);
}

#[test]
fn resolved_request_with_full_response() {
    let mut fetcher = TransactionFetcher::default();
    let h = hash(1);
    let p = peer(1);
    announce_and_buffer(&mut fetcher, &[h], p);
    let (_, request) = fetcher.on_fetch_pending_hashes(&vec![peer_record(p, &[])], 0, None).unwrap();
    let event = fetcher.on_resolved_request(
        p,
        request,
        RequestOutcome::Response { hashes: vec![h], transactions: vec!["tx1"] },
    );
    match event {
        FetchEvent::TransactionsFetched { peer_id, transactions } => {
            assert_eq!(peer_id, p);
            assert_eq!(transactions, vec!["tx1"]);
        }
        FetchEvent::FetchError { .. } => panic!("expected fetched transactions"),
    }
    assert!(fetcher.metadata(&h).is_none());
    assert_eq!(fetcher.inflight_count_for(&p), None);
    assert!(fetcher.is_idle(&p));
}

#[test]
fn resolved_request_with_partial_response() {
    let mut fetcher = TransactionFetcher::default();
    let (h1, h2) = (hash(1), hash(2));
    let p = peer(1);
    announce_and_buffer(&mut fetcher, &[h1, h2], p);
    let peers = vec![peer_record(p, &[h1, h2])];
    let (_, request) = fetcher.on_fetch_pending_hashes(&peers, 0, None).unwrap();
    assert_eq!(hashes_of(&request), vec![h1, h2]);
    let event = fetcher.on_resolved_request(
        p,
        request,
        RequestOutcome::Response { hashes: vec![h1], transactions: vec![1u32] },
    );
    assert!(matches!(event, FetchEvent::TransactionsFetched { .. }));
    assert!(fetcher.metadata(&h1).is_none());
    let meta = fetcher.metadata(&h2).unwrap();
    assert_eq!(meta.retries(), 1);
    assert!(!meta.fallback_peers().contains(&p));
    assert_eq!(pending_of(&fetcher), vec![h2]);
}

#[test]
fn resolved_request_with_closed_channel() {
    let mut fetcher = TransactionFetcher::default();
    let h = hash(1);
    let p = peer(1);
    announce_and_buffer(&mut fetcher, &[h], p);
    let (_, request) = fetcher.on_fetch_pending_hashes(&vec![peer_record(p, &[])], 0, None).unwrap();
    let event = fetcher.on_resolved_request::<()>(p, request, RequestOutcome::ChannelClosed);
    match event {
        FetchEvent::FetchError { peer_id, error } => {
            assert_eq!(peer_id, p);
            assert_eq!(error, RequestError::ChannelClosed);
        }
        FetchEvent::TransactionsFetched { .. } => panic!("expected an error"),
    }
    assert_eq!(pending_of(&fetcher), vec![h]);
    assert_eq!(fetcher.metadata(&h).unwrap().retries(), 1);
    assert_eq!(fetcher.inflight_count_for(&p), None);
}

#[test]
fn resolved_request_with_peer_error() {
    let mut fetcher = TransactionFetcher::default();
    let h = hash(1);
    let p = peer(1);
    announce_and_buffer(&mut fetcher, &[h], p);
    let (_, request) = fetcher.on_fetch_pending_hashes(&vec![peer_record(p, &[])], 0, None).unwrap();
    let event = fetcher.on_resolved_request::<()>(p, request, RequestOutcome::Failed(RequestError::Timeout));
    assert!(matches!(event, FetchEvent::FetchError { error: RequestError::Timeout, .. }));
    assert_eq!(pending_of(&fetcher), vec![h]);
    assert_eq!(fetcher.metadata(&h).unwrap().retries(), 1);
}

#[test]
fn broadcast_stops_tracking() {
    let mut fetcher = TransactionFetcher::default();
    announce_and_buffer(&mut fetcher, &[hash(1), hash(2)], peer(1));
    fetcher.on_received_full_transactions_broadcast(vec![hash(1)]);
    assert!(fetcher.metadata(&hash(1)).is_none());
    assert_eq!(pending_of(&fetcher), vec![hash(2)]);
    assert_eq!(fetcher.tracked_len(), 1);
}

#[test]
fn capacity_signals_and_budgets() {
    let fetcher = TransactionFetcher::default();
    let max = TransactionFetcherInfo::default().max_inflight_transaction_requests();
    assert!(fetcher.has_capacity_for_fetching_pending_hashes(max));
    assert!(!fetcher.has_capacity_for_fetching_pending_hashes(max + 1));
    assert_eq!(fetcher.search_breadth_budget_find_idle_fallback_peer(0), None);
    assert_eq!(
        fetcher.search_breadth_budget_find_idle_fallback_peer(max + 1),
        Some(DEFAULT_BUDGET_FIND_IDLE_FALLBACK_PEER)
    );
    assert!(fetcher
        .search_breadth_budget_find_intersection_pending_hashes_and_hashes_seen_by_peer(max + 1)
        .is_some());
}

#[test]
fn fetcher_info_and_config_constructors() {
    let info = TransactionFetcherInfo::new(3, 4);
    assert_eq!(info.max_inflight_transaction_requests(), 3);
    assert_eq!(info.max_hashes_pending_fetch(), 4);
    let config = TransactionFetcherConfig::new(11, 22);
    assert_eq!(config.soft_limit_byte_size_pooled_transactions_response, 11);
    assert_eq!(config.soft_limit_byte_size_pooled_transactions_response_on_pack_request, 22);
    let defaults = TransactionsManagerConfig::default().transaction_fetcher_config;
    assert_eq!(
        defaults.soft_limit_byte_size_pooled_transactions_response,
        SOFT_LIMIT_BYTE_SIZE_POOLED_TRANSACTIONS_RESPONSE
    );
    assert_eq!(
        defaults.soft_limit_byte_size_pooled_transactions_response_on_pack_request,
        DEFAULT_SOFT_LIMIT_BYTE_SIZE_POOLED_TRANSACTIONS_RESPONSE_ON_PACK_GET_POOLED_TRANSACTIONS_REQUEST
    );
}
