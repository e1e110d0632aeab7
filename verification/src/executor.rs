//! Order-executor handle: the credentials an execution layer needs.
//!
//! Submitting orders is I/O and lives outside this library; the library
//! only carries the executor's identity.

use vstd::prelude::*;

verus! {

/// Credentials for an order-execution endpoint.
#[derive(Debug, Clone)]
pub struct BinanceExecutor {
    /// API key.
    pub api_key: String,
    /// API secret.
    pub secret_key: String,
}

impl BinanceExecutor {
    /// Build an executor handle; the credentials are stored unchanged.
    pub fn new(api_key: String, secret_key: String) -> (r: BinanceExecutor)
        ensures
            r.api_key == api_key,
            r.secret_key == secret_key,
    {
        BinanceExecutor { api_key, secret_key }
    }
}

} // verus!
