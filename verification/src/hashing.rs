//! BLAKE2b, as the two outside crates that the contracts use compute it:
//! `blake2b-ref` (pure Rust) and `blake2b-rs` (bindings to the C reference
//! code). Neither hash is written out here: each state is described by what
//! it was set up with and what it has absorbed, and a digest is named as a
//! function of those.

use vstd::prelude::*;

verus! {

/// A BLAKE2b state of `blake2b-ref`.
#[verifier::external_type_specification]
#[verifier::external_body]
pub struct ExBlake2bRef(blake2b_ref::Blake2b);

/// The digest length, in bytes, that a `blake2b-ref` state was built for.
pub uninterp spec fn blake2b_ref_out_len(state: blake2b_ref::Blake2b) -> nat;

/// The personalization bytes that a `blake2b-ref` state was built with.
pub uninterp spec fn blake2b_ref_personal(state: blake2b_ref::Blake2b) -> Seq<u8>;

/// The bytes that a `blake2b-ref` state has absorbed, in order.
pub uninterp spec fn blake2b_ref_absorbed(state: blake2b_ref::Blake2b) -> Seq<u8>;

/// The BLAKE2b digest of `data`, `out_len` bytes long, under the
/// personalization `personal`, as `blake2b-ref` computes it.
pub uninterp spec fn blake2b_ref_digest(out_len: nat, personal: Seq<u8>, data: Seq<u8>) -> Seq<u8>;

/// Calls `blake2b_ref::Blake2bBuilder::new(out_len)`, then `.personal(personal)`
/// and `.build()`: a state that has absorbed nothing, set to give `out_len`
/// bytes under `personal`. The builder asserts `1 <= out_len <= 64` and at
/// most 16 personalization bytes; `requires` leaves the rest out.
#[verifier::external_body]
pub(crate) fn blake2b_ref_new(out_len: usize, personal: &[u8]) -> (r: blake2b_ref::Blake2b)
    requires
        1 <= out_len <= 64,
        personal@.len() <= 16,
    ensures
        blake2b_ref_out_len(r) == out_len,
        blake2b_ref_personal(r) == personal@,
        blake2b_ref_absorbed(r) == Seq::<u8>::empty(),
{
    blake2b_ref::Blake2bBuilder::new(out_len).personal(personal).build()
}

/// Calls `blake2b_ref::Blake2b::update`: the state absorbs `data` after what
/// it absorbed before, and keeps its setup.
#[verifier::external_body]
pub(crate) fn blake2b_ref_update(state: &mut blake2b_ref::Blake2b, data: &[u8])
    ensures
        blake2b_ref_absorbed(*final(state)) == blake2b_ref_absorbed(*old(state)) + data@,
        blake2b_ref_out_len(*final(state)) == blake2b_ref_out_len(*old(state)),
        blake2b_ref_personal(*final(state)) == blake2b_ref_personal(*old(state)),
{
    state.update(data)
}

/// Calls `blake2b_ref::Blake2b::finalize`, which writes the digest of what
/// the state absorbed into `dst`; `dst` must be as long as the digest.
#[verifier::external_body]
pub(crate) fn blake2b_ref_finalize(state: blake2b_ref::Blake2b, dst: &mut [u8])
    requires
        old(dst)@.len() == blake2b_ref_out_len(state),
    ensures
        final(dst)@ == blake2b_ref_digest(
            blake2b_ref_out_len(state),
            blake2b_ref_personal(state),
            blake2b_ref_absorbed(state),
        ),
        final(dst)@.len() == old(dst)@.len(),
{
    state.finalize(dst)
}

/// A BLAKE2b state of `blake2b-rs`.
#[verifier::external_type_specification]
#[verifier::external_body]
pub struct ExBlake2bC(blake2b_rs::Blake2b);

/// The digest length, in bytes, that a `blake2b-rs` state was built for.
pub uninterp spec fn blake2b_c_out_len(state: blake2b_rs::Blake2b) -> nat;

/// The personalization bytes that a `blake2b-rs` state was built with.
pub uninterp spec fn blake2b_c_personal(state: blake2b_rs::Blake2b) -> Seq<u8>;

/// The bytes that a `blake2b-rs` state has absorbed, in order.
pub uninterp spec fn blake2b_c_absorbed(state: blake2b_rs::Blake2b) -> Seq<u8>;

/// The BLAKE2b digest of `data`, `out_len` bytes long, under the
/// personalization `personal`, as `blake2b-rs` computes it.
pub uninterp spec fn blake2b_c_digest(out_len: nat, personal: Seq<u8>, data: Seq<u8>) -> Seq<u8>;

/// Calls `blake2b_rs::Blake2bBuilder::new(out_len)`, then `.personal(personal)`
/// and `.build()`: a state that has absorbed nothing, set to give `out_len`
/// bytes under `personal`. The builder asserts `1 <= out_len <= 64` and at
/// most 16 personalization bytes; `requires` leaves the rest out.
#[verifier::external_body]
pub(crate) fn blake2b_c_new(out_len: usize, personal: &[u8]) -> (r: blake2b_rs::Blake2b)
    requires
        1 <= out_len <= 64,
        personal@.len() <= 16,
    ensures
        blake2b_c_out_len(r) == out_len,
        blake2b_c_personal(r) == personal@,
        blake2b_c_absorbed(r) == Seq::<u8>::empty(),
{
    blake2b_rs::Blake2bBuilder::new(out_len).personal(personal).build()
}

/// Calls `blake2b_rs::Blake2b::update`: the state absorbs `data` after what
/// it absorbed before, and keeps its setup.
#[verifier::external_body]
pub(crate) fn blake2b_c_update(state: &mut blake2b_rs::Blake2b, data: &[u8])
    ensures
        blake2b_c_absorbed(*final(state)) == blake2b_c_absorbed(*old(state)) + data@,
        blake2b_c_out_len(*final(state)) == blake2b_c_out_len(*old(state)),
        blake2b_c_personal(*final(state)) == blake2b_c_personal(*old(state)),
{
    state.update(data)
}

/// Calls `blake2b_rs::Blake2b::finalize`, which writes the digest of what
/// the state absorbed into `dst`; `dst` must be as long as the digest.
#[verifier::external_body]
pub(crate) fn blake2b_c_finalize(state: blake2b_rs::Blake2b, dst: &mut [u8])
    requires
        old(dst)@.len() == blake2b_c_out_len(state),
    ensures
        final(dst)@ == blake2b_c_digest(
            blake2b_c_out_len(state),
            blake2b_c_personal(state),
            blake2b_c_absorbed(state),
        ),
        final(dst)@.len() == old(dst)@.len(),
{
    state.finalize(dst)
}

} // verus!
