//! Binary hyperdimensional computing with verified contracts: bit-packed
//! binary spatter codes (XOR binding, majority bundling, rotation), a
//! deterministic permutation engine, streaming accumulators and ring
//! buffers, associative reads, packed-code quantization, record framing,
//! and the configuration and error types around them.

pub mod board;
pub mod bits;
pub mod bsc;
pub mod rng;
pub mod bsc_eq;
pub mod seed;
pub mod index;
pub mod stream;
pub mod vsa;
pub mod setup;
pub mod error;
pub mod vsa_persist;
pub mod quantize;
pub mod dnvs;
pub mod memory;
pub mod frame;
pub mod search;

pub use bsc::{majority_from_sums, BinaryHDVector};
pub use vsa::VsaEngine;
pub use error::{GuddaError, GuddaResult};
pub use vsa_persist::{default_store_dir, model_bin_path, BIN_DIRNAME, BIN_FILENAME};
pub use seed::{deterministic_binary_hd_vector, deterministic_seed};
pub use setup::{VsaMode, VsaSystem, VsaSystemOptions};
