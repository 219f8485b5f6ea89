//! Multi-network wallet balance engine: name hashing and two-step name
//! resolution, JSON-RPC request planning and reply decoding, fan-in of
//! per-network balance results, and grouping of those results for display.
pub mod hexfmt;
pub mod amount;
pub mod namehash;
pub mod rpc;
pub mod network;
pub mod fetch;
pub mod resolve;
pub mod report;
pub mod config;
