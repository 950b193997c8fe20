use vstd::prelude::*;

verus! {

/// Soft limit for the byte size of a pooled-transactions response, as the protocol
/// specifies it: 2 MiB.
pub const SOFT_LIMIT_BYTE_SIZE_POOLED_TRANSACTIONS_RESPONSE: usize = 2 * 1024 * 1024;

/// Default soft limit for the byte size of the response that a request packed from an
/// announcement is expected to bring.
pub const DEFAULT_SOFT_LIMIT_BYTE_SIZE_POOLED_TRANSACTIONS_RESPONSE: usize = 2 * 1024 * 1024;

/// Default soft limit for the byte size of the expected response when packing a request
/// with hashes, as configured on the fetcher.
pub const DEFAULT_SOFT_LIMIT_BYTE_SIZE_POOLED_TRANSACTIONS_RESPONSE_ON_PACK_GET_POOLED_TRANSACTIONS_REQUEST: usize = 128 * 1024;

/// Soft limit for the number of hashes in a request built from an announcement of a
/// protocol version that carries no sizes.
pub const SOFT_LIMIT_COUNT_HASHES_IN_GET_POOLED_TRANSACTIONS_REQUEST: usize = 256;

/// Median byte size of a small legacy transaction, encoded. A request stops growing
/// when less room than this is left in its expected response.
pub const MEDIAN_BYTE_SIZE_SMALL_LEGACY_TX_ENCODED: usize = 120;

/// Size assumed for a transaction whose size no announcement has given.
pub const AVERAGE_BYTE_SIZE_TX_ENCODED: usize = 110;

/// Default number of times a hash is requested again after a failed request before it
/// is dropped.
pub const DEFAULT_MAX_RETRIES: u8 = 2;

/// Default number of fallback peers remembered per hash.
pub const DEFAULT_MAX_COUNT_FALLBACK_PEERS: u8 = 3;

/// Default number of peers that can have requests in flight at once.
pub const DEFAULT_MAX_COUNT_CONCURRENT_REQUESTS: u32 = 130;

/// Default number of requests that can be in flight to one peer at once.
pub const DEFAULT_MAX_COUNT_CONCURRENT_REQUESTS_PER_PEER: u8 = 1;

/// Default capacity of the queue of hashes pending fetch.
pub const DEFAULT_MAX_CAPACITY_CACHE_PENDING_FETCH: usize = 25 * 1024;

/// Default number of in-flight requests above which the fetcher counts as busy when
/// it fetches pending hashes.
pub const DEFAULT_MAX_INFLIGHT_REQUESTS_ON_FETCH_PENDING_HASHES: usize = 130 * 3 / 4;

/// Default number of pending hashes at which the fetcher counts as busy.
pub const DEFAULT_MAX_COUNT_PENDING_FETCH: usize = 25 * 1024;

/// Soft limit for the byte size of the expected response of a request filled from the
/// hashes pending fetch.
pub const DEFAULT_SOFT_LIMIT_BYTE_SIZE_POOLED_TRANSACTIONS_RESPONSE_ON_FETCH_PENDING_HASHES: usize = 128 * 1024;

/// Soft limit for the number of hashes in a request filled from the hashes pending
/// fetch.
pub const DEFAULT_SOFT_LIMIT_COUNT_HASHES_IN_GET_POOLED_TRANSACTIONS_REQUEST_ON_FETCH_PENDING_HASHES: usize = 256;

/// Number of pending hashes looked at, when the fetcher is busy, in search of one with
/// an idle fallback peer.
pub const DEFAULT_BUDGET_FIND_IDLE_FALLBACK_PEER: usize = 130 / 4;

/// Number of pending hashes looked at, when the fetcher is busy, in search of more
/// hashes that the chosen peer has seen.
pub const DEFAULT_BUDGET_FIND_INTERSECTION_ANNOUNCED_BY_PEER_AND_PENDING_FETCH: usize = 25 * 1024 / 4;

} // verus!
