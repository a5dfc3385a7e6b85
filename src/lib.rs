//! Resource-adaptive runtime layer of an inference server: a bounded
//! key-value cache buffer with eviction, the statistics and the rule table
//! that pick a storage precision, block-level deduplication, a bounded FIFO
//! window of feed-forward weight rows, and the draft/verify/commit loop of
//! speculative decoding.
//!
//! Fractional quantities are fixed-point integers: an activation value `v`
//! stands for `v / 1000`, and a ratio in `[0, 1]` (entropy, load, locality,
//! acceptance ratio, probability) is given in thousandths.
pub mod telemetry;
pub mod policy;
pub mod buffer;
pub mod eviction;
pub mod window;
pub mod sparsity;
pub mod speculative;
pub mod dedup;
pub mod metrics;
pub mod quantize;
pub mod kv_cache;
