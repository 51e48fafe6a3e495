//! Verified logic of a set of CKB contract samples and the crates they share:
//! reading cell data that may not fit in one buffer, hashing it, and checking
//! the results against a lock script's arguments.

use vstd::prelude::*;

pub mod ckb;
pub mod fetcher;
pub mod hashing;
pub mod bytes_buf;
pub mod witness_hasher;
pub mod atomics_without_a;
pub mod legacy_c_dependency;
pub mod loads_of_hashes;

verus! {

/// Why a contract stops without an exit code: a syscall result that it
/// unwraps failed, or a check that it asserts did not hold. The program that
/// runs the contract aborts on it.
#[derive(Clone, Copy, Debug, PartialEq, Eq)]
pub enum Abort {
    /// A syscall whose result the contract unwraps failed.
    Syscall(ckb_std::error::SysError),
    /// The transaction hash load answered this many bytes instead of 32.
    ShortTxHash(usize),
    /// Reading a cell's data stopped with this error.
    Fetch(fetcher::FetchError),
    /// The script arguments do not hold the transaction hash.
    TxHashMismatch,
    /// The script arguments do not start with the hash of the cells' data.
    CellHashMismatch,
    /// The script arguments do not end with the hash of the extra witnesses.
    WitnessHashMismatch,
}

/// Whether `a` and `b` hold the same bytes.
pub(crate) fn same_bytes(a: &[u8], b: &[u8]) -> (r: bool)
    ensures
        r == (a@ == b@),
{
    if a.len() != b.len() {
        return false;
    }
    let mut i: usize = 0;
    while i < a.len()
        invariant
            a@.len() == b@.len(),
            i <= a@.len(),
            forall|j: int| 0 <= j < i ==> a@[j] == b@[j],
        decreases a@.len() - i,
    {
        if a[i] != b[i] {
            return false;
        }
        i = i + 1;
    }
    assert(a@ =~= b@);
    true
}

} // verus!
