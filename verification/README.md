# ckb_samples

Verified logic of a few CKB contract samples and of the two crates they share.

- `src/fetcher.rs`: reading a cell's data through a fixed buffer, load after
  load, handing each piece to a `Visitor`. The decision after each load is a
  pure step function. The read's contract ties what the visitor receives, and
  what it answers, to a record of the read's loads on the requested cell;
  laws state that a read stops at the first piece the visitor declines, and
  that, for a record whose loads answered as CKB answers them, the pieces are
  the cell's data in order.
- `src/witness_hasher.rs`: the extra-witness hash, which on targets other than
  the CKB VM reports failure.
- `src/atomics_without_a.rs`, `src/legacy_c_dependency.rs`,
  `src/loads_of_hashes.rs`: the contracts' entry points, each split into the
  loads it makes and functions that decide its exit code from what was
  loaded.
- `src/ckb.rs`, `src/hashing.rs`, `src/bytes_buf.rs`: trusted wrappers around
  `ckb-std` syscalls, the two BLAKE2b crates and the `bytes` buffers.
- `app/main.rs`: runs a contract by name; it also holds the sample that only
  prints debug lines.

Where a contract panics (an unwrapped syscall, a failed assertion), the
library returns an `Abort` instead, and the program panics on it.
