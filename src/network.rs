//! The configured networks and the tokens watched on each.
use vstd::prelude::*;

verus! {

/// A token contract to query on one network.
#[derive(Clone, Debug, PartialEq, Eq)]
pub struct TokenSpec {
    pub symbol: String,
    /// The contract's address as configured, `0x`-prefixed hex.
    pub contract: String,
    pub decimals: u8,
}

/// A network reached through one JSON-RPC endpoint; `chain_id` identifies it.
#[derive(Clone, Debug, PartialEq, Eq)]
pub struct Network {
    pub chain_id: u64,
    pub name: String,
    pub rpc_url: String,
    pub tokens: Vec<TokenSpec>,
}

} // verus!
