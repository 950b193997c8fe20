//! Transaction-hash fetching core of a peer-to-peer client: tracks announced hashes,
//! packs requests within size and count budgets, schedules them to idle peers and
//! resolves their outcomes with bounded retries.

pub mod types;
pub mod cache;
pub mod announcement;
pub mod constants;
pub mod packing;
pub mod registry;
pub mod peers;
pub mod model;
pub mod fetcher;
pub mod laws;
pub mod config;
pub mod node;

pub use announcement::{EthVersion, RequestTxHashes, ValidAnnouncementData};
pub use cache::LruCache;
pub use config::{TransactionFetcherConfig, TransactionsManagerConfig};
pub use fetcher::{
    FetchEvent, Peer, RequestError, RequestOutcome, TransactionFetcher, TransactionFetcherInfo,
};
pub use node::{OptimismNetwork, OptimismNode, OptimismPayloadBuilder, OptimismPoolBuilder};
pub use registry::TxFetchMetadata;
pub use types::{PeerId, TxHash};
