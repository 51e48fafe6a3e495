//! Hashing the transaction's extra witnesses. The routine that does the
//! hashing is C code built only for the CKB VM (riscv64); on any other target
//! it is replaced by a routine that reports failure, and that target is the
//! one this crate is built for.

use vstd::prelude::*;

verus! {

/// The witness hashing routine of this target: it has no C implementation to
/// call, leaves `hash` as it is and reports the status -1.
fn hash_extra_witnesses_inner(hash: &mut [u8; 32]) -> (status: i32)
    ensures
        status == -1,
        *final(hash) == *old(hash),
{
    -1
}

/// What the witness hashing routine's `status` and the buffer it wrote,
/// `hash`, lead to: a nonzero status is passed on as the error, and status 0
/// gives the buffer.
pub fn witness_hash_result(status: i32, hash: [u8; 32]) -> (r: Result<[u8; 32], i32>)
    ensures
        status != 0 ==> r == Err::<[u8; 32], i32>(status),
        status == 0 ==> r == Ok::<[u8; 32], i32>(hash),
{
    if status != 0 {
        return Err(status);
    }
    Ok(hash)
}

/// The hash of the transaction's extra witnesses, or the nonzero status that
/// the hashing routine reported, as [`witness_hash_result`] decides. On this
/// target the routine always reports -1.
pub fn hash_extra_witnesses() -> (r: Result<[u8; 32], i32>)
    ensures
        r == Err::<[u8; 32], i32>(-1i32),
{
    let mut result = [0u8; 32];
    let s = hash_extra_witnesses_inner(&mut result);
    witness_hash_result(s, result)
}

} // verus!
