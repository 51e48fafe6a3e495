//! A contract that hashes the transaction hash with the C BLAKE2b code of
//! `blake2b-rs`, then checks that the lock script's arguments are the
//! transaction hash.

use vstd::prelude::*;
use crate::{Abort, same_bytes};
use crate::ckb::{load_tx_hash, load_script_args};
use ckb_std::error::SysError;
use crate::hashing::{blake2b_c_new, blake2b_c_update, blake2b_c_finalize, blake2b_c_digest};

verus! {

/// The personalization of the transaction hash digest, `b"tx"`.
pub open spec fn tx_personal() -> Seq<u8> {
    seq![116u8, 120u8]
}

/// The BLAKE2b-256 digest of the transaction hash under `b"tx"`, computed by
/// the C code of `blake2b-rs`.
pub fn tx_hash_digest(tx_hash: &[u8; 32]) -> (r: [u8; 32])
    ensures
        r@ == blake2b_c_digest(32, tx_personal(), tx_hash@),
{
    let personal: [u8; 2] = [116, 120];
    assert(personal@ =~= tx_personal());
    let mut blake2b = blake2b_c_new(32, &personal);
    blake2b_c_update(&mut blake2b, tx_hash);
    let mut result = [0u8; 32];
    blake2b_c_finalize(blake2b, &mut result);
    result
}

/// What the contract decides from the transaction hash and the script's
/// arguments: -1 when the arguments are not 32 bytes long, 0 when they are
/// the transaction hash, and an abort when they are 32 other bytes.
pub open spec fn tx_args_verdict(tx_hash: Seq<u8>, args: Seq<u8>) -> Result<i8, Abort> {
    if args.len() != 32 {
        Ok(-1i8)
    } else if args == tx_hash {
        Ok(0i8)
    } else {
        Err(Abort::TxHashMismatch)
    }
}

/// The contract on the transaction hash and the script's arguments:
/// arguments of another length than 32 exit with -1; 32-byte arguments exit
/// with 0 exactly when each of their bytes equals the byte of the
/// transaction hash at the same place, and abort with
/// [`Abort::TxHashMismatch`] exactly when some byte differs.
pub proof fn law_tx_args(tx_hash: Seq<u8>, args: Seq<u8>)
    requires
        tx_hash.len() == 32,
    ensures
        args.len() != 32 ==> tx_args_verdict(tx_hash, args) == Ok::<i8, Abort>(-1i8),
        args.len() == 32 ==> (tx_args_verdict(tx_hash, args) == Ok::<i8, Abort>(0i8) <==> forall|
            i: int,
        | 0 <= i < 32 ==> #[trigger] args[i] == tx_hash[i]),
        args.len() == 32 ==> (tx_args_verdict(tx_hash, args) == Err::<i8, Abort>(
            Abort::TxHashMismatch,
        ) <==> exists|i: int| 0 <= i < 32 && #[trigger] args[i] != tx_hash[i]),
{
    if args.len() == 32 && (forall|i: int| 0 <= i < 32 ==> #[trigger] args[i] == tx_hash[i]) {
        assert(args =~= tx_hash);
    }
}

/// Decides as [`tx_args_verdict`] says.
pub fn check_tx_hash_args(tx_hash: &[u8; 32], args: &[u8]) -> (r: Result<i8, Abort>)
    ensures
        r == tx_args_verdict(tx_hash@, args@),
{
    if args.len() != 32 {
        return Ok(-1);
    }
    if !same_bytes(args, tx_hash) {
        return Err(Abort::TxHashMismatch);
    }
    Ok(0)
}

/// What the contract decides once the script was loaded: a failed load
/// aborts the contract; otherwise it decides on the script's arguments as
/// [`tx_args_verdict`] says.
pub fn check_loaded_tx_args(tx_hash: &[u8; 32], args: Result<Vec<u8>, SysError>) -> (r: Result<
    i8,
    Abort,
>)
    ensures
        args matches Err(e) ==> r == Err::<i8, Abort>(Abort::Syscall(e)),
        args matches Ok(a) ==> r == tx_args_verdict(tx_hash@, a@),
{
    match args {
        Ok(a) => check_tx_hash_args(tx_hash, a.as_slice()),
        Err(e) => Err(Abort::Syscall(e)),
    }
}

/// Loads the transaction hash, takes its [`tx_hash_digest`] (which the
/// contract computes and does not use), loads the script, and decides as
/// [`check_loaded_tx_args`] does. A failed load aborts the contract.
pub fn program_entry() -> (r: Result<i8, Abort>)
    ensures
        r matches Ok(c) ==> c == 0 || c == -1,
        r matches Err(e) ==> e is Syscall || e is TxHashMismatch,
{
    let tx_hash = match load_tx_hash() {
        Ok(h) => h,
        Err(e) => {
            return Err(Abort::Syscall(e));
        },
    };
    let _digest = tx_hash_digest(&tx_hash);
    check_loaded_tx_args(&tx_hash, load_script_args())
}

} // verus!
