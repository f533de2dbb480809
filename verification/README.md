# guddalm_vsa

Vector symbolic architectures (hyperdimensional computing) with a verified
core. The library in `src/` is checked by Verus: every public function
states what it returns in its contract, and the algebraic laws the
representation promises are proved as proof functions.

## Layout

- `src/` — the verified library
  - `bits.rs` — bits of packed `u64` words, population counts
  - `bsc.rs`, `bsc_eq.rs` — binary spatter codes: XOR binding, majority
    bundling (pairwise and many-way), cyclic rotation, Hamming distance;
    laws: binding is self-inverse and commutative, rotation is invertible,
    bundling a vector with itself gives it back
  - `index.rs` — index vectors built on binary codes, role-filler encoding
  - `vsa.rs` — the deterministic shuffle engine and its exact inverse
  - `seed.rs`, `rng.rs` — reproducible seeds and seeded binary vectors
  - `stream.rs` — vote accumulator, ring buffers of recent vectors
  - `memory.rs` — selective majority reads, nearest-prototype cleanup
  - `search.rs` — ranking candidates by Hamming distance
  - `quantize.rs` — unpacking, word-wise differing bits, fixed-width level
    packing
  - `frame.rs` — the length-prefixed record stream format, with the proof
    that reading a written stream gives back the records
  - `setup.rs`, `dnvs.rs`, `board.rs`, `vsa_persist.rs`, `error.rs` —
    configuration, encoding modes, board squares, storage paths, errors
- `app/` — ordinary Rust around the library: float representations (MAP
  bipolar vectors, FHRR phase vectors), file and stream I/O, serde and
  error traits, and the float scores fed to the library's decisions
- `tests/` — tests of the library's behaviour on concrete values
