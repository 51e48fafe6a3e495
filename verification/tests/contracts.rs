use bytes::Bytes;
use ckb_samples::atomics_without_a::{exit_code, final_verdict, first_verdict, load, run, tx_hash_bytes};
use ckb_samples::fetcher::FetchError;
use ckb_samples::legacy_c_dependency::{check_loaded_tx_args, check_tx_hash_args, tx_hash_digest};
use ckb_samples::loads_of_hashes::{
    cell_hash, check_cells_with_witness_hash, check_hash_args, check_loaded_args, Hasher,
};
use ckb_samples::witness_hasher::{hash_extra_witnesses, witness_hash_result};
use ckb_samples::{atomics_without_a, legacy_c_dependency, loads_of_hashes, Abort};
use ckb_samples::fetcher::Visitor;
use ckb_std::error::SysError;

const OUTSIDE_VM: SysError = SysError::Unknown(u64::MAX);

#[test]
fn run_sums_small_bytes() {
    assert_eq!(run(Bytes::from(vec![1u8, 2, 3])), 6);
}

#[test]
fn run_of_nothing_is_zero() {
    assert_eq!(run(Bytes::new()), 0);
}

#[test]
fn run_reads_bytes_as_signed() {
    // 200 reads as -56.
    assert_eq!(run(Bytes::from(vec![200u8, 100])), 44);
    assert_eq!(run(Bytes::from(vec![128u8])), -128);
    assert_eq!(run(Bytes::from(vec![255u8, 255])), -2);
}

#[test]
fn run_wraps_around() {
    assert_eq!(run(Bytes::from(vec![100u8, 100])), -56);
    assert_eq!(run(Bytes::from(vec![1u8; 256])), 0);
    assert_eq!(run(Bytes::from(vec![1u8; 300])), 44);
}

#[test]
fn first_verdict_is_zero_when_first_half_sums_to_zero() {
    let mut data = vec![0u8; 32];
    data[0] = 128;
    data[1] = 128;
    data[20] = 5;
    assert_eq!(first_verdict(&Bytes::from(data)), Some(0));
}

#[test]
fn first_verdict_is_none_otherwise() {
    let mut data = vec![0u8; 32];
    data[3] = 1;
    assert_eq!(first_verdict(&Bytes::from(data)), None);
}

#[test]
fn final_verdict_sums_the_tail_and_the_second_load() {
    let mut data = vec![0u8; 32];
    data[3] = 1; // before the eighth byte: not summed
    data[8] = 7;
    let mut data2 = vec![0u8; 32];
    data2[31] = 249; // -7
    assert_eq!(final_verdict(&Bytes::from(data.clone()), Bytes::from(data2)), 1);
    assert_eq!(final_verdict(&Bytes::from(data), Bytes::from(vec![0u8; 32])), 0);
}

#[test]
fn load_outside_the_vm_aborts() {
    assert_eq!(load().err(), Some(Abort::Syscall(OUTSIDE_VM)));
    assert_eq!(atomics_without_a::program_entry(), Err(Abort::Syscall(OUTSIDE_VM)));
}

#[test]
fn tx_hash_args_of_wrong_length_exit_minus_one() {
    let hash = [9u8; 32];
    assert_eq!(check_tx_hash_args(&hash, &[9u8; 31]), Ok(-1));
    assert_eq!(check_tx_hash_args(&hash, &[]), Ok(-1));
}

#[test]
fn tx_hash_args_equal_to_hash_exit_zero() {
    let hash = [9u8; 32];
    assert_eq!(check_tx_hash_args(&hash, &hash), Ok(0));
}

#[test]
fn tx_hash_args_differing_from_hash_abort() {
    let hash = [9u8; 32];
    let mut args = hash;
    args[31] = 0;
    assert_eq!(check_tx_hash_args(&hash, &args), Err(Abort::TxHashMismatch));
}

#[test]
fn tx_hash_digest_is_personalized_blake2b() {
    let tx_hash = [0x42u8; 32];
    let mut expected = [0u8; 32];
    let mut h = blake2b_rs::Blake2bBuilder::new(32).personal(b"tx").build();
    h.update(&tx_hash);
    h.finalize(&mut expected);
    let digest = tx_hash_digest(&tx_hash);
    assert_eq!(digest, expected);
    assert_ne!(digest, tx_hash);
}

#[test]
fn legacy_entry_outside_the_vm_aborts() {
    assert_eq!(legacy_c_dependency::program_entry(), Err(Abort::Syscall(OUTSIDE_VM)));
}

fn args_of(cell: &[u8; 32], witness: &[u8; 32]) -> Vec<u8> {
    let mut v = cell.to_vec();
    v.extend_from_slice(witness);
    v
}

#[test]
fn hash_args_of_wrong_length_exit_minus_one() {
    assert_eq!(check_hash_args(&[0u8; 63], &[0u8; 32], &[0u8; 32]), Ok(-1));
    assert_eq!(check_hash_args(&[0u8; 32], &[0u8; 32], &[0u8; 32]), Ok(-1));
}

#[test]
fn hash_args_holding_both_hashes_exit_zero() {
    let cell = [1u8; 32];
    let witness = [2u8; 32];
    assert_eq!(check_hash_args(&args_of(&cell, &witness), &cell, &witness), Ok(0));
}

#[test]
fn hash_args_with_another_cell_hash_abort() {
    let cell = [1u8; 32];
    let witness = [2u8; 32];
    let args = args_of(&[3u8; 32], &[4u8; 32]);
    assert_eq!(check_hash_args(&args, &cell, &witness), Err(Abort::CellHashMismatch));
}

#[test]
fn hash_args_with_another_witness_hash_abort() {
    let cell = [1u8; 32];
    let witness = [2u8; 32];
    let args = args_of(&cell, &[4u8; 32]);
    assert_eq!(check_hash_args(&args, &cell, &witness), Err(Abort::WitnessHashMismatch));
}

#[test]
fn hasher_digest_is_personalized_blake2b_of_all_pieces() {
    let pieces: [&[u8]; 3] = [b"big ", b"cell ", b"data"];
    let mut hasher = Hasher::new();
    for p in pieces {
        assert!(hasher.visit(p));
    }
    let digest = hasher.finalize();
    let mut expected = [0u8; 32];
    let mut h = blake2b_ref::Blake2bBuilder::new(32).personal(b"cell").build();
    h.update(b"big cell data");
    h.finalize(&mut expected);
    assert_eq!(digest, expected);
}

#[test]
fn hasher_of_nothing_is_digest_of_empty_data() {
    let mut expected = [0u8; 32];
    let h = blake2b_ref::Blake2bBuilder::new(32).personal(b"cell").build();
    h.finalize(&mut expected);
    assert_eq!(Hasher::new().finalize(), expected);
    assert_ne!(expected, [0u8; 32]);
}

#[test]
fn witness_hash_fails_outside_the_vm() {
    assert_eq!(hash_extra_witnesses(), Err(-1));
}

#[test]
fn failed_witness_hash_exits_minus_one() {
    assert_eq!(check_cells_with_witness_hash(Err(-1)), Ok(-1));
    assert_eq!(check_cells_with_witness_hash(Err(7)), Ok(-1));
    assert_eq!(loads_of_hashes::program_entry(), Ok(-1));
}

#[test]
fn cell_read_outside_the_vm_aborts() {
    assert_eq!(
        check_cells_with_witness_hash(Ok([0u8; 32])),
        Err(Abort::Fetch(FetchError::Sys(OUTSIDE_VM)))
    );
}

#[test]
fn tx_hash_bytes_of_a_full_load_are_the_buffer() {
    let hash = [7u8; 32];
    let b = tx_hash_bytes(Ok(32), hash).unwrap();
    assert_eq!(&b[..], &hash[..]);
}

#[test]
fn tx_hash_bytes_of_a_short_load_abort() {
    assert_eq!(tx_hash_bytes(Ok(31), [0u8; 32]).err(), Some(Abort::ShortTxHash(31)));
    assert_eq!(tx_hash_bytes(Ok(0), [0u8; 32]).err(), Some(Abort::ShortTxHash(0)));
}

#[test]
fn tx_hash_bytes_of_a_failed_load_abort() {
    assert_eq!(
        tx_hash_bytes(Err(SysError::ItemMissing), [0u8; 32]).err(),
        Some(Abort::Syscall(SysError::ItemMissing))
    );
}

#[test]
fn witness_status_is_passed_on() {
    assert_eq!(witness_hash_result(0, [3u8; 32]), Ok([3u8; 32]));
    assert_eq!(witness_hash_result(-1, [3u8; 32]), Err(-1));
    assert_eq!(witness_hash_result(5, [3u8; 32]), Err(5));
}

#[test]
fn cell_hash_outside_the_vm_reports_the_read_error() {
    assert_eq!(cell_hash(), Err(FetchError::Sys(OUTSIDE_VM)));
}

#[test]
fn run_of_bytes_laid_end_to_end_is_the_wrapping_sum_of_runs() {
    let a = vec![100u8, 200, 7];
    let b = vec![90u8, 1, 255, 128];
    let mut ab = a.clone();
    ab.extend_from_slice(&b);
    let ra = run(Bytes::from(a));
    let rb = run(Bytes::from(b));
    assert_eq!(run(Bytes::from(ab)), ra.wrapping_add(rb));
}

#[test]
fn run_does_not_depend_on_the_order_of_the_bytes() {
    let a = vec![100u8, 200, 7, 90, 1, 255, 128];
    let mut b = a.clone();
    b.reverse();
    b.swap(0, 3);
    assert_eq!(run(Bytes::from(a)), run(Bytes::from(b)));
}

#[test]
fn exit_code_of_a_hash_whose_first_half_sums_to_zero_is_zero() {
    let mut data = vec![0u8; 32];
    data[0] = 128;
    data[1] = 128;
    data[20] = 5;
    assert_eq!(exit_code(&Bytes::from(data.clone()), None), Some(0));
    assert_eq!(exit_code(&Bytes::from(data), Some(Bytes::from(vec![1u8; 32]))), Some(0));
}

#[test]
fn exit_code_otherwise_waits_for_the_second_load() {
    let mut data = vec![0u8; 32];
    data[3] = 1;
    data[8] = 7;
    assert_eq!(exit_code(&Bytes::from(data.clone()), None), None);
    let mut data2 = vec![0u8; 32];
    data2[31] = 249;
    assert_eq!(exit_code(&Bytes::from(data.clone()), Some(Bytes::from(data2))), Some(1));
    assert_eq!(exit_code(&Bytes::from(data), Some(Bytes::from(vec![0u8; 32]))), Some(0));
}

#[test]
fn loaded_tx_args_decide_as_the_check() {
    let tx_hash = [5u8; 32];
    assert_eq!(check_loaded_tx_args(&tx_hash, Ok(tx_hash.to_vec())), Ok(0));
    assert_eq!(check_loaded_tx_args(&tx_hash, Ok(vec![5u8; 31])), Ok(-1));
    assert_eq!(check_loaded_tx_args(&tx_hash, Ok(vec![6u8; 32])), Err(Abort::TxHashMismatch));
    assert_eq!(
        check_loaded_tx_args(&tx_hash, Err(SysError::ItemMissing)),
        Err(Abort::Syscall(SysError::ItemMissing))
    );
}

#[test]
fn loaded_hash_args_decide_as_the_check() {
    let cell = [1u8; 32];
    let witness = [2u8; 32];
    assert_eq!(check_loaded_args(Ok(args_of(&cell, &witness)), &cell, &witness), Ok(0));
    assert_eq!(
        check_loaded_args(Ok(args_of(&witness, &cell)), &cell, &witness),
        Err(Abort::CellHashMismatch)
    );
    assert_eq!(check_loaded_args(Ok(vec![0u8; 10]), &cell, &witness), Ok(-1));
    assert_eq!(
        check_loaded_args(Err(SysError::IndexOutOfBound), &cell, &witness),
        Err(Abort::Syscall(SysError::IndexOutOfBound))
    );
}
