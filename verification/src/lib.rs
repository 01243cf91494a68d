//! A minimal distributed stream-processing core: partitioning an input
//! stream across a cluster of members, redundant dissemination via gossip
//! envelopes, a wire codec for the routed payloads, and a two-level
//! (local-then-merge) windowed reduction.

pub mod cluster;
pub mod codec;
pub mod gossip;
pub mod merge;
pub mod partition;
pub mod pipeline;
pub mod reduce;
mod rng;
pub mod router;
