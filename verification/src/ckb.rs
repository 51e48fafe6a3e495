//! The CKB syscalls that the contracts make, each behind a trusted wrapper.
//!
//! A syscall answers from the transaction that the VM is running, so nothing
//! here names what comes back; each wrapper states only what holds of every
//! answer.

use vstd::prelude::*;
use ckb_std::ckb_constants::Source as CkbSource;

verus! {

/// An error that a CKB syscall reports.
#[verifier::external_type_specification]
#[verifier::external_body]
pub struct ExSysError(ckb_std::error::SysError);

/// Where a cell is looked up in the transaction.
#[derive(Clone, Copy, Debug, PartialEq, Eq)]
pub enum Source {
    Input,
    Output,
    CellDep,
    HeaderDep,
    GroupInput,
    GroupOutput,
}

/// What one load of cell data answered.
#[derive(Clone, Copy, Debug, PartialEq, Eq)]
pub enum LoadReply {
    /// The data from the requested offset on fit in the buffer; it is this long
    /// and fills the buffer's first bytes.
    Loaded(usize),
    /// The buffer was filled, and the data from the requested offset on is this
    /// long, more than the buffer holds.
    Partial(usize),
    /// The load failed with this error.
    Failed(ckb_std::error::SysError),
}

/// Calls `ckb_std::syscalls::load_cell_data`, which copies the cell's data
/// from `offset` on into `buf` and reports its full length from `offset` on.
/// ckb-std answers `Ok(n)` only when `n` is at most the buffer's length and
/// `Err(LengthNotEnough(n))` only when `n` exceeds it; those are the two
/// clauses claimed here. The bytes copied depend on the transaction and are
/// not stated.
#[verifier::external_body]
pub(crate) fn load_cell_data(buf: &mut [u8], offset: usize, index: usize, source: Source) -> (r: LoadReply)
    ensures
        final(buf)@.len() == old(buf)@.len(),
        r matches LoadReply::Loaded(n) ==> n <= old(buf)@.len(),
        r matches LoadReply::Partial(n) ==> n > old(buf)@.len(),
{
    let source = match source {
        Source::Input => CkbSource::Input,
        Source::Output => CkbSource::Output,
        Source::CellDep => CkbSource::CellDep,
        Source::HeaderDep => CkbSource::HeaderDep,
        Source::GroupInput => CkbSource::GroupInput,
        Source::GroupOutput => CkbSource::GroupOutput,
    };
    match ckb_std::syscalls::load_cell_data(buf, offset, index, source) {
        Ok(n) => LoadReply::Loaded(n),
        Err(ckb_std::error::SysError::LengthNotEnough(n)) => LoadReply::Partial(n),
        Err(e) => LoadReply::Failed(e),
    }
}

/// Calls `ckb_std::syscalls::load_tx_hash`, which copies the running
/// transaction's hash from `offset` on into `buf`. As with every load in
/// ckb-std, `Ok(n)` comes only with `n` at most the buffer's length; that and
/// the buffer's unchanged length are the claims. The hash is not stated.
#[verifier::external_body]
pub(crate) fn load_tx_hash_into(buf: &mut [u8], offset: usize) -> (r: Result<usize, ckb_std::error::SysError>)
    ensures
        final(buf)@.len() == old(buf)@.len(),
        r matches Ok(n) ==> n <= old(buf)@.len(),
{
    ckb_std::syscalls::load_tx_hash(buf, offset)
}

/// Calls `ckb_std::high_level::load_tx_hash`: the running transaction's
/// 32-byte hash, or the load's error. Nothing is claimed of either.
#[verifier::external_body]
pub(crate) fn load_tx_hash() -> (r: Result<[u8; 32], ckb_std::error::SysError>)
{
    ckb_std::high_level::load_tx_hash()
}

/// Calls `ckb_std::high_level::load_script` and, on success, takes the raw
/// bytes of the script's `args` field (`args().raw_data()`), whose length is
/// what `args().len()` counts in a script that loaded. Nothing is claimed of
/// the bytes or of the error.
#[verifier::external_body]
pub(crate) fn load_script_args() -> (r: Result<Vec<u8>, ckb_std::error::SysError>)
{
    match ckb_std::high_level::load_script() {
        Ok(script) => Ok(script.args().raw_data().to_vec()),
        Err(e) => Err(e),
    }
}

} // verus!
