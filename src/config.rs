use vstd::prelude::*;

use crate::constants::{
    DEFAULT_SOFT_LIMIT_BYTE_SIZE_POOLED_TRANSACTIONS_RESPONSE_ON_PACK_GET_POOLED_TRANSACTIONS_REQUEST,
    SOFT_LIMIT_BYTE_SIZE_POOLED_TRANSACTIONS_RESPONSE,
};

verus! {

/// Configuration for managing transactions within the network.
#[derive(Debug)]
pub struct TransactionsManagerConfig {
    /// Configuration for fetching transactions.
    pub transaction_fetcher_config: TransactionFetcherConfig,
}

/// Configuration for fetching transactions.
#[derive(Debug)]
pub struct TransactionFetcherConfig {
    /// Soft limit for the byte size of a pooled-transactions response on assembling a
    /// request for pooled transactions.
    pub soft_limit_byte_size_pooled_transactions_response: usize,
    /// Soft limit for the byte size of the expected pooled-transactions response on
    /// packing a request with hashes.
    pub soft_limit_byte_size_pooled_transactions_response_on_pack_request: usize,
}

impl TransactionFetcherConfig {
    pub fn new(
        soft_limit_byte_size_pooled_transactions_response: usize,
        soft_limit_byte_size_pooled_transactions_response_on_pack_request: usize,
    ) -> (r: Self)
        ensures
            r.soft_limit_byte_size_pooled_transactions_response
                == soft_limit_byte_size_pooled_transactions_response,
            r.soft_limit_byte_size_pooled_transactions_response_on_pack_request
                == soft_limit_byte_size_pooled_transactions_response_on_pack_request,
    {
        TransactionFetcherConfig {
            soft_limit_byte_size_pooled_transactions_response,
            soft_limit_byte_size_pooled_transactions_response_on_pack_request,
        }
    }
}

impl Default for TransactionFetcherConfig {
    fn default() -> (r: Self)
        ensures
            r.soft_limit_byte_size_pooled_transactions_response
                == SOFT_LIMIT_BYTE_SIZE_POOLED_TRANSACTIONS_RESPONSE,
            r.soft_limit_byte_size_pooled_transactions_response_on_pack_request
                == DEFAULT_SOFT_LIMIT_BYTE_SIZE_POOLED_TRANSACTIONS_RESPONSE_ON_PACK_GET_POOLED_TRANSACTIONS_REQUEST,
    {
        Self::new(
            SOFT_LIMIT_BYTE_SIZE_POOLED_TRANSACTIONS_RESPONSE,
            DEFAULT_SOFT_LIMIT_BYTE_SIZE_POOLED_TRANSACTIONS_RESPONSE_ON_PACK_GET_POOLED_TRANSACTIONS_REQUEST,
        )
    }
}

impl Default for TransactionsManagerConfig {
    fn default() -> (r: Self)
        ensures
            r.transaction_fetcher_config.soft_limit_byte_size_pooled_transactions_response
                == SOFT_LIMIT_BYTE_SIZE_POOLED_TRANSACTIONS_RESPONSE,
            r.transaction_fetcher_config.soft_limit_byte_size_pooled_transactions_response_on_pack_request
                == DEFAULT_SOFT_LIMIT_BYTE_SIZE_POOLED_TRANSACTIONS_RESPONSE_ON_PACK_GET_POOLED_TRANSACTIONS_REQUEST,
    {
        TransactionsManagerConfig { transaction_fetcher_config: TransactionFetcherConfig::default() }
    }
}

} // verus!
