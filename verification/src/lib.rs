//! A small proof-of-work chain: blocks and their digests, the per-node chain
//! state with its longest-chain rule, the node loop, and the message fabric
//! that connects nodes.

pub mod base64;
pub mod base_encoding;
pub mod block;
pub mod chain;
pub mod network;
pub mod node;
pub mod transaction;
pub mod utils;
pub mod wallet;
