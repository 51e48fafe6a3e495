//! A contract that hashes the data of two cells, read piece by piece, with
//! the Rust BLAKE2b code of `blake2b-ref`, and checks that the lock script's
//! arguments hold that hash followed by the hash of the extra witnesses.

use vstd::prelude::*;
use crate::{Abort, same_bytes};
use crate::ckb::{Source, load_script_args};
use ckb_std::error::SysError;
use crate::fetcher::{
    Visitor, FetchError, LoadEvent, fetch_big_cell_data, is_fetch_run, is_fetch_record,
    asked_after_every_piece, pieces_of, answers_of, load_chains, answers_as_cell, law_read_yields_whole_cell,
};
use vstd::seq_lib::lemma_flatten_concat;
use crate::hashing::{
    blake2b_ref_new, blake2b_ref_update, blake2b_ref_finalize, blake2b_ref_out_len,
    blake2b_ref_personal, blake2b_ref_absorbed, blake2b_ref_digest,
};
use crate::witness_hasher::hash_extra_witnesses;

verus! {

/// The personalization of the cell hash, `b"cell"`.
pub open spec fn cell_personal() -> Seq<u8> {
    seq![99u8, 101u8, 108u8, 108u8]
}

/// A BLAKE2b-256 state under the personalization `b"cell"`, fed the pieces
/// of cell data that it visits.
pub struct Hasher(blake2b_ref::Blake2b, Ghost<Seq<Seq<u8>>>);

impl Hasher {
    #[verifier::type_invariant]
    spec fn is_cell_hasher(self) -> bool {
        &&& blake2b_ref_out_len(self.0) == 32
        &&& blake2b_ref_personal(self.0) == cell_personal()
        &&& blake2b_ref_absorbed(self.0) == self.1@.flatten()
    }

    /// The bytes the hasher has absorbed so far, in order.
    pub closed spec fn absorbed(self) -> Seq<u8> {
        blake2b_ref_absorbed(self.0)
    }

    /// A hasher that has absorbed nothing.
    pub fn new() -> (h: Self)
        ensures
            h.absorbed() == Seq::<u8>::empty(),
            h.pieces() == Seq::<Seq<u8>>::empty(),
    {
        let personal: [u8; 4] = [99, 101, 108, 108];
        assert(personal@ =~= cell_personal());
        Hasher(blake2b_ref_new(32, &personal), Ghost(Seq::empty()))
    }

    /// The BLAKE2b-256 digest, under `b"cell"`, of all that the hasher
    /// absorbed.
    pub fn finalize(self) -> (r: [u8; 32])
        ensures
            r@ == blake2b_ref_digest(32, cell_personal(), self.absorbed()),
            self.absorbed() == self.pieces().flatten(),
    {
        proof {
            use_type_invariant(&self);
        }
        let mut r = [0u8; 32];
        blake2b_ref_finalize(self.0, &mut r);
        r
    }
}

impl Visitor for Hasher {
    closed spec fn pieces(&self) -> Seq<Seq<u8>> {
        self.1@
    }

    /// A hasher wants all of the data: it answers every piece with `true`.
    open spec fn answers(&self) -> Seq<bool> {
        Seq::new(self.pieces().len(), |i: int| true)
    }

    /// Absorbs `data` and asks for more.
    fn visit(&mut self, data: &[u8]) -> (more: bool)
        ensures
            final(self).absorbed() == old(self).absorbed() + data@,
            more,
    {
        let ghost before = self.answers();
        proof {
            use_type_invariant(&*self);
        }
        let mut taken = Hasher::new();
        core::mem::swap(self, &mut taken);
        proof {
            use_type_invariant(&taken);
        }
        let Hasher(mut state, Ghost(pieces)) = taken;
        blake2b_ref_update(&mut state, data);
        proof {
            pieces.lemma_flatten_push(data@);
        }
        *self = Hasher(state, Ghost(pieces.push(data@)));
        assert(self.answers() =~= before.push(true));
        true
    }
}

/// What the contract decides from the script's arguments and the two hashes:
/// -1 when the arguments are not 64 bytes long; an abort when their first 32
/// bytes are not the cell hash, or else when their last 32 bytes are not the
/// witness hash; 0 when they are both.
pub open spec fn hash_args_verdict(args: Seq<u8>, cell_hash: Seq<u8>, witness_hash: Seq<u8>) -> Result<i8, Abort> {
    if args.len() != 64 {
        Ok(-1i8)
    } else if args.subrange(0, 32) != cell_hash {
        Err(Abort::CellHashMismatch)
    } else if args.subrange(32, 64) != witness_hash {
        Err(Abort::WitnessHashMismatch)
    } else {
        Ok(0i8)
    }
}

/// The contract on the script's arguments and the two hashes: arguments of
/// another length than 64 exit with -1. 64-byte arguments exit with 0 exactly
/// when each of their first 32 bytes equals the byte of the cell hash at the
/// same place and each of their last 32 bytes the byte of the witness hash at
/// the same place; they abort with [`Abort::CellHashMismatch`] when some byte
/// of the first half differs from the cell hash, and with
/// [`Abort::WitnessHashMismatch`] when the first half is the cell hash and
/// some byte of the second half differs from the witness hash.
pub proof fn law_hash_args(args: Seq<u8>, cell_hash: Seq<u8>, witness_hash: Seq<u8>)
    requires
        cell_hash.len() == 32,
        witness_hash.len() == 32,
    ensures
        args.len() != 64 ==> hash_args_verdict(args, cell_hash, witness_hash) == Ok::<i8, Abort>(
            -1i8,
        ),
        hash_args_verdict(args, cell_hash, witness_hash) == Ok::<i8, Abort>(0i8) <==> {
            &&& args.len() == 64
            &&& forall|i: int| 0 <= i < 32 ==> #[trigger] args[i] == cell_hash[i]
            &&& forall|i: int| 0 <= i < 32 ==> #[trigger] args[32 + i] == witness_hash[i]
        },
        args.len() == 64 && (exists|i: int| 0 <= i < 32 && #[trigger] args[i] != cell_hash[i])
            ==> hash_args_verdict(args, cell_hash, witness_hash) == Err::<i8, Abort>(
            Abort::CellHashMismatch,
        ),
        args.len() == 64 && (forall|i: int| 0 <= i < 32 ==> #[trigger] args[i] == cell_hash[i]) && (
        exists|i: int| 0 <= i < 32 && #[trigger] args[32 + i] != witness_hash[i])
            ==> hash_args_verdict(args, cell_hash, witness_hash) == Err::<i8, Abort>(
            Abort::WitnessHashMismatch,
        ),
{
    if args.len() == 64 {
        let head = args.subrange(0, 32);
        let tail = args.subrange(32, 64);
        if forall|i: int| 0 <= i < 32 ==> #[trigger] args[i] == cell_hash[i] {
            assert(head =~= cell_hash);
        }
        if forall|i: int| 0 <= i < 32 ==> #[trigger] args[32 + i] == witness_hash[i] {
            assert forall|i: int| 0 <= i < 32 implies tail[i] == witness_hash[i] by {
                assert(args[32 + i] == witness_hash[i]);
            }
            assert(tail =~= witness_hash);
        }
        if exists|i: int| 0 <= i < 32 && #[trigger] args[i] != cell_hash[i] {
            let i = choose|i: int| 0 <= i < 32 && #[trigger] args[i] != cell_hash[i];
            assert(head[i] != cell_hash[i]);
        }
        if exists|i: int| 0 <= i < 32 && #[trigger] args[32 + i] != witness_hash[i] {
            let i = choose|i: int| 0 <= i < 32 && #[trigger] args[32 + i] != witness_hash[i];
            assert(tail[i] != witness_hash[i]);
        }
        if head == cell_hash {
            assert forall|i: int| 0 <= i < 32 implies #[trigger] args[i] == cell_hash[i] by {
                assert(head[i] == args[i]);
            }
        }
        if tail == witness_hash {
            assert forall|i: int| 0 <= i < 32 implies #[trigger] args[32 + i] == witness_hash[i] by {
                assert(tail[i] == args[32 + i]);
            }
        }
    }
}

/// Decides as [`hash_args_verdict`] says.
pub fn check_hash_args(args: &[u8], cell_hash: &[u8; 32], witness_hash: &[u8; 32]) -> (r: Result<
    i8,
    Abort,
>)
    ensures
        r == hash_args_verdict(args@, cell_hash@, witness_hash@),
{
    if args.len() != 64 {
        return Ok(-1);
    }
    if !same_bytes(vstd::slice::slice_subrange(args, 0, 32), cell_hash) {
        return Err(Abort::CellHashMismatch);
    }
    if !same_bytes(vstd::slice::slice_subrange(args, 32, 64), witness_hash) {
        return Err(Abort::WitnessHashMismatch);
    }
    Ok(0)
}

/// What the contract decides once the script was loaded: a failed load
/// aborts the contract; otherwise it decides on the script's arguments as
/// [`hash_args_verdict`] says.
pub fn check_loaded_args(
    args: Result<Vec<u8>, SysError>,
    cell_hash: &[u8; 32],
    witness_hash: &[u8; 32],
) -> (r: Result<i8, Abort>)
    ensures
        args matches Err(e) ==> r == Err::<i8, Abort>(Abort::Syscall(e)),
        args matches Ok(a) ==> r == hash_args_verdict(a@, cell_hash@, witness_hash@),
{
    match args {
        Ok(a) => check_hash_args(a.as_slice(), cell_hash, witness_hash),
        Err(e) => Err(Abort::Syscall(e)),
    }
}

/// Whether every load of `trace` was made on cell `index` of `source`.
pub open spec fn reads_cell(trace: Seq<LoadEvent>, index: usize, source: Source) -> bool {
    forall|i: int|
        0 <= i < trace.len() ==> (#[trigger] trace[i]).index == index && trace[i].source == source
}

/// Whether `h` is the BLAKE2b-256 hash under `b"cell"` of the pieces of two
/// reads from the start through a 1024-byte buffer, recorded by `t1` (of
/// input cell 1) and `t2` (of output cell 0), that both returned `Ok(())` and
/// whose visitor asked for more after every piece.
pub open spec fn cells_hashed(t1: Seq<LoadEvent>, t2: Seq<LoadEvent>, h: Seq<u8>) -> bool {
    &&& reads_cell(t1, 1, Source::Input)
    &&& reads_cell(t2, 0, Source::Output)
    &&& is_fetch_run(0, 1024, t1, Ok(()))
    &&& asked_after_every_piece(0, 1024, t1)
    &&& is_fetch_run(0, 1024, t2, Ok(()))
    &&& asked_after_every_piece(0, 1024, t2)
    &&& h == blake2b_ref_digest(
        32,
        cell_personal(),
        (pieces_of(0, 1024, t1, t1.len()) + pieces_of(0, 1024, t2, t2.len())).flatten(),
    )
}

/// The hash of the cells' data: the data of input cell 1 and then of output
/// cell 0 are read through one 1024-byte buffer into a [`Hasher`]. A read
/// that fails stops with its error.
pub fn cell_hash() -> (r: Result<[u8; 32], FetchError>)
    ensures
        r matches Ok(h) ==> exists|t1: Seq<LoadEvent>, t2: Seq<LoadEvent>|
            #[trigger] cells_hashed(t1, t2, h@),
        r matches Err(e) ==> exists|t: Seq<LoadEvent>| #[trigger] is_fetch_run(0, 1024, t, Err(e)),
{
    let mut cell_hasher = Hasher::new();
    let mut buffer = [0u8; 1024];
    let ghost p0 = cell_hasher.pieces();
    let ghost a0 = cell_hasher.answers();
    let ghost b0 = buffer@;
    let r1 = fetch_big_cell_data(&mut cell_hasher, &mut buffer, 0, 1, Source::Input);
    let ghost t1 = choose|t: Seq<LoadEvent>|
        is_fetch_record(0, 1, Source::Input, t, r1, b0, buffer@, p0, cell_hasher.pieces(), a0, cell_hasher.answers());
    match r1 {
        Ok(()) => {},
        Err(e) => {
            assert(is_fetch_run(0, 1024, t1, Err(e)));
            return Err(e);
        },
    }
    proof {
        lemma_hasher_asked(0, t1, a0, cell_hasher.answers());
        assert forall|i: int| 0 <= i < t1.len() implies (#[trigger] t1[i]).index == 1
            && t1[i].source == Source::Input by {
            assert(load_chains(1, Source::Input, b0, t1, i));
        }
    }
    let ghost p1 = cell_hasher.pieces();
    let ghost a1 = cell_hasher.answers();
    let ghost b1 = buffer@;
    let r2 = fetch_big_cell_data(&mut cell_hasher, &mut buffer, 0, 0, Source::Output);
    let ghost t2 = choose|t: Seq<LoadEvent>|
        is_fetch_record(0, 0, Source::Output, t, r2, b1, buffer@, p1, cell_hasher.pieces(), a1, cell_hasher.answers());
    match r2 {
        Ok(()) => {},
        Err(e) => {
            assert(is_fetch_run(0, 1024, t2, Err(e)));
            return Err(e);
        },
    }
    proof {
        lemma_hasher_asked(0, t2, a1, cell_hasher.answers());
        assert forall|i: int| 0 <= i < t2.len() implies (#[trigger] t2[i]).index == 0
            && t2[i].source == Source::Output by {
            assert(load_chains(0, Source::Output, b1, t2, i));
        }
    }
    assert(cell_hasher.pieces() =~= pieces_of(0, 1024, t1, t1.len()) + pieces_of(0, 1024, t2, t2.len()));
    let h = cell_hasher.finalize();
    assert(cells_hashed(t1, t2, h@));
    let r: Result<[u8; 32], FetchError> = Ok(h);
    assert(r matches Ok(hh) && cells_hashed(t1, t2, hh@));
    r
}

/// Where a visitor's answers, all `true`, went from `before` to `after` by
/// those of a read, it asked for more after every piece of that read.
proof fn lemma_hasher_asked(offset: usize, trace: Seq<LoadEvent>, before: Seq<bool>, after: Seq<bool>)
    requires
        after == before + answers_of(offset, 1024, trace, trace.len()),
        forall|i: int| 0 <= i < after.len() ==> #[trigger] after[i],
    ensures
        asked_after_every_piece(offset, 1024, trace),
{
    let a = answers_of(offset, 1024, trace, trace.len());
    assert forall|i: int| 0 <= i < a.len() implies #[trigger] a[i] by {
        assert(after[before.len() + i] == a[i]);
    }
}

/// Where the two reads of [`cell_hash`] had their loads answered as CKB does
/// for the data `input` and `output`, the hash is that of `input` followed by
/// `output`, whatever the 1024-byte pieces were.
pub proof fn law_cell_hash_covers_cells(
    input: Seq<u8>,
    output: Seq<u8>,
    t1: Seq<LoadEvent>,
    t2: Seq<LoadEvent>,
    h: Seq<u8>,
)
    requires
        input.len() <= usize::MAX,
        output.len() <= usize::MAX,
        cells_hashed(t1, t2, h),
        forall|i: int| 0 <= i < t1.len() ==> #[trigger] answers_as_cell(input, 1024, t1[i]),
        forall|i: int| 0 <= i < t2.len() ==> #[trigger] answers_as_cell(output, 1024, t2[i]),
    ensures
        h == blake2b_ref_digest(32, cell_personal(), input + output),
{
    law_read_yields_whole_cell(input, 1024, t1, Ok(()));
    law_read_yields_whole_cell(output, 1024, t2, Ok(()));
    lemma_flatten_concat(pieces_of(0, 1024, t1, t1.len()), pieces_of(0, 1024, t2, t2.len()));
}

/// Whether `args` are 64 bytes that hold a hash of the cells' data, as two
/// reads recorded it ([`cells_hashed`]), followed by `witness_hash`.
pub open spec fn args_hold_hashes(args: Seq<u8>, witness_hash: Seq<u8>) -> bool {
    &&& args.len() == 64
    &&& args.subrange(32, 64) == witness_hash
    &&& exists|t1: Seq<LoadEvent>, t2: Seq<LoadEvent>|
        #[trigger] cells_hashed(t1, t2, args.subrange(0, 32))
}

/// The contract once the extra witnesses were hashed: a failed witness hash
/// exits with -1. Otherwise the cells' data are hashed as [`cell_hash`] does
/// (a failed read aborts the contract), the script is loaded, and the
/// contract decides as [`check_loaded_args`] does. It exits with 0 only where
/// the script's arguments hold the cells' hash followed by the witness hash.
pub fn check_cells_with_witness_hash(witness: Result<[u8; 32], i32>) -> (r: Result<i8, Abort>)
    ensures
        witness is Err ==> r == Ok::<i8, Abort>(-1i8),
        r matches Ok(c) ==> c == 0 || c == -1,
        r matches Err(Abort::Fetch(e)) ==> exists|t: Seq<LoadEvent>|
            #[trigger] is_fetch_run(0, 1024, t, Err(e)),
        r == Ok::<i8, Abort>(0i8) ==> (witness matches Ok(w) && exists|args: Seq<u8>|
            #[trigger] args_hold_hashes(args, w@)),
{
    let witness_hash = match witness {
        Ok(h) => h,
        Err(_) => {
            return Ok(-1);
        },
    };
    let cell_hash = match cell_hash() {
        Ok(h) => h,
        Err(e) => {
            return Err(Abort::Fetch(e));
        },
    };
    let args = load_script_args();
    let ghost loaded = args;
    let r = check_loaded_args(args, &cell_hash, &witness_hash);
    proof {
        if r == Ok::<i8, Abort>(0i8) {
            let a = loaded->Ok_0@;
            let (t1, t2) = choose|t1: Seq<LoadEvent>, t2: Seq<LoadEvent>| cells_hashed(t1, t2, cell_hash@);
            assert(cells_hashed(t1, t2, a.subrange(0, 32)));
            assert(args_hold_hashes(a, witness_hash@));
        }
    }
    r
}

/// Hashes the extra witnesses and goes on as
/// [`check_cells_with_witness_hash`] does. On this target the witness hash
/// always fails, so the contract exits with -1.
pub fn program_entry() -> (r: Result<i8, Abort>)
    ensures
        r == Ok::<i8, Abort>(-1i8),
{
    check_cells_with_witness_hash(hash_extra_witnesses())
}

} // verus!
