//! A contract that loads the transaction hash twice and plays with byte
//! buffers: it sums bytes with wrapping `i8` arithmetic and decides its exit
//! code from two such sums.

use vstd::prelude::*;
use vstd::arithmetic::div_mod::{
    lemma_fundamental_div_mod, lemma_mod_multiples_basic, lemma_mod_multiples_vanish, lemma_small_mod,
};
use bytes::Bytes;
use crate::Abort;
use crate::ckb::load_tx_hash_into;
use crate::bytes_buf::{
    bytes_contents, bytes_from_vec, bytes_len, bytes_slice, bytes_as_slice, bytes_mut_new,
    bytes_mut_extend, bytes_mut_freeze,
};

verus! {

/// The sum of the bytes of `s`, each read as an unsigned number.
pub open spec fn byte_sum(s: Seq<u8>) -> int
    decreases s.len(),
{
    if s.len() == 0 {
        0
    } else {
        byte_sum(s.drop_last()) + s.last()
    }
}

/// The `i8` that equals `x` modulo 256.
pub open spec fn wrap_i8(x: int) -> int {
    (x + 128) % 256 - 128
}

/// What [`run`] gives for bytes `s`: their sum, wrapped into an `i8`.
pub open spec fn wrapping_byte_sum(s: Seq<u8>) -> int {
    wrap_i8(byte_sum(s))
}

/// Wrapping the sum of a wrapped value and one more byte, read as an `i8`,
/// gives the wrapped sum with that byte.
proof fn lemma_wrap_step(x: int, b: u8)
    ensures
        ({
            let a = wrap_i8(x);
            &&& -128 <= a <= 127
            &&& vstd::wrapping::i8_specs::wrapping_add(a as i8, b as i8) == wrap_i8(
                x + b,
            )
        }),
{
    let a = wrap_i8(x);
    lemma_fundamental_div_mod(x + 128, 256);
    vstd::arithmetic::div_mod::lemma_mod_bound(x + 128, 256);
    let d = (x + 128) / 256;
    assert(a == x - 256 * d);
    let s: int = if b < 128 { b as int } else { b - 256 };
    assert(b < 128 ==> (b as i8) as i16 == b as i16) by (bit_vector);
    assert(b >= 128 ==> (b as i8) as i16 == (b as i16) - 256) by (bit_vector);
    assert((b as i8) as int == s);
    let w = vstd::wrapping::i8_specs::wrapping_add(a as i8, b as i8);
    let f: int = if a + s > 127 { -1 } else if a + s < -128 { 1 } else { 0 };
    assert(w == a + s + 256 * f);
    let e: int = if b < 128 { 0 } else { 1 };
    assert(w + 128 == 256 * (f - d - e) + (x + b + 128));
    lemma_mod_multiples_vanish(f - d - e, x + b + 128, 256);
    lemma_small_mod((w + 128) as nat, 256);
}

/// A value in `i8`'s range that differs from `z` by a multiple of 256 is
/// `z` wrapped into an `i8`.
proof fn lemma_wrap_of(z: int, v: int, k: int)
    requires
        -128 <= v <= 127,
        z == v + 256 * k,
    ensures
        wrap_i8(z) == v,
{
    lemma_mod_multiples_vanish(k, v + 128, 256);
    lemma_small_mod((v + 128) as nat, 256);
}

/// `z` wrapped into an `i8` is in `i8`'s range and differs from `z` by a
/// multiple of 256.
proof fn lemma_wrap_range(z: int)
    ensures
        -128 <= wrap_i8(z) <= 127,
        wrap_i8(z) == z - 256 * ((z + 128) / 256),
{
    lemma_fundamental_div_mod(z + 128, 256);
    vstd::arithmetic::div_mod::lemma_mod_bound(z + 128, 256);
}

/// The byte sum of two sequences laid end to end is the sum of their byte
/// sums.
proof fn lemma_byte_sum_concat(a: Seq<u8>, b: Seq<u8>)
    ensures
        byte_sum(a + b) == byte_sum(a) + byte_sum(b),
    decreases b.len(),
{
    if b.len() == 0 {
        assert(a + b =~= a);
    } else {
        lemma_byte_sum_concat(a, b.drop_last());
        assert((a + b).drop_last() =~= a + b.drop_last());
    }
}

/// Taking byte `i` out of `s` takes its value off the byte sum.
proof fn lemma_byte_sum_remove(s: Seq<u8>, i: int)
    requires
        0 <= i < s.len(),
    ensures
        byte_sum(s) == byte_sum(s.remove(i)) + s[i],
{
    let l = s.take(i);
    let m = seq![s[i]];
    let r = s.skip(i + 1);
    assert(s =~= (l + m) + r);
    assert(s.remove(i) =~= l + r);
    lemma_byte_sum_concat(l + m, r);
    lemma_byte_sum_concat(l, m);
    lemma_byte_sum_concat(l, r);
    assert(m.drop_last() =~= Seq::<u8>::empty());
    assert(byte_sum(m.drop_last()) == 0);
    assert(byte_sum(m) == s[i]);
}

/// Two sequences that hold the same bytes, in any order, have the same byte
/// sum.
proof fn lemma_byte_sum_permutation(s1: Seq<u8>, s2: Seq<u8>)
    requires
        s1.to_multiset() == s2.to_multiset(),
    ensures
        byte_sum(s1) == byte_sum(s2),
    decreases s1.len(),
{
    broadcast use vstd::seq_lib::group_to_multiset_ensures;

    if s1.len() == 0 {
        assert(s2.to_multiset().len() == 0);
        assert(s2 =~= Seq::<u8>::empty());
    } else {
        let n = s1.len() - 1;
        let x = s1[n];
        assert(s1.to_multiset().count(x) > 0);
        assert(s2.contains(x));
        let j = choose|j: int| 0 <= j < s2.len() && s2[j] == x;
        assert(s1.remove(n) =~= s1.drop_last());
        assert(s1.remove(n).to_multiset() =~= s2.remove(j).to_multiset());
        lemma_byte_sum_permutation(s1.remove(n), s2.remove(j));
        lemma_byte_sum_remove(s1, n);
        lemma_byte_sum_remove(s2, j);
    }
}

/// What [`run`] gives for two runs of bytes laid end to end is the wrapping
/// `i8` sum of what it gives for each, and it gives 0 for no bytes.
pub proof fn law_run_of_concatenation(a: Seq<u8>, b: Seq<u8>)
    ensures
        wrapping_byte_sum(a + b) == vstd::wrapping::i8_specs::wrapping_add(
            wrapping_byte_sum(a) as i8,
            wrapping_byte_sum(b) as i8,
        ),
        wrapping_byte_sum(Seq::<u8>::empty()) == 0,
{
    let x = byte_sum(a);
    let y = byte_sum(b);
    lemma_byte_sum_concat(a, b);
    lemma_wrap_range(x);
    lemma_wrap_range(y);
    let wa = wrap_i8(x);
    let wb = wrap_i8(y);
    let v = vstd::wrapping::i8_specs::wrapping_add(wa as i8, wb as i8) as int;
    let f: int = if wa + wb > 127 { -1 } else if wa + wb < -128 { 1 } else { 0 };
    assert(v == wa + wb + 256 * f);
    let k = (x + 128) / 256 + (y + 128) / 256 - f;
    assert(x + y == v + 256 * k);
    lemma_wrap_of(x + y, v, k);
    lemma_wrap_of(0, 0, 0);
}

/// What [`run`] gives does not depend on the order of the bytes.
pub proof fn law_run_ignores_order(a: Seq<u8>, b: Seq<u8>)
    requires
        a.to_multiset() == b.to_multiset(),
    ensures
        wrapping_byte_sum(a) == wrapping_byte_sum(b),
{
    lemma_byte_sum_permutation(a, b);
}

/// Sums the bytes of `data` with wrapping `i8` arithmetic, each byte read as
/// an `i8`.
pub fn run(data: Bytes) -> (r: i8)
    ensures
        r as int == wrapping_byte_sum(bytes_contents(data)),
{
    let bytes = bytes_as_slice(&data);
    let mut i: i8 = 0;
    let mut k: usize = 0;
    assert(bytes@.take(0) =~= Seq::<u8>::empty());
    while k < bytes.len()
        invariant
            k <= bytes@.len(),
            i as int == wrap_i8(byte_sum(bytes@.take(k as int))),
        decreases bytes@.len() - k,
    {
        let d = bytes[k];
        proof {
            lemma_wrap_step(byte_sum(bytes@.take(k as int)), d);
            assert(bytes@.take(k + 1).drop_last() =~= bytes@.take(k as int));
        }
        i = i.wrapping_add(d as i8);
        k = k + 1;
    }
    assert(bytes@.take(k as int) =~= bytes@);
    i
}

/// What a load of the transaction hash into `tx_hash` leads to: the load's
/// error aborts the contract, as does a load that answered other than 32
/// bytes; otherwise the buffer's 32 bytes.
pub fn tx_hash_bytes(loaded: Result<usize, ckb_std::error::SysError>, tx_hash: [u8; 32]) -> (r: Result<Bytes, Abort>)
    ensures
        match loaded {
            Err(e) => r == Err::<Bytes, Abort>(Abort::Syscall(e)),
            Ok(n) => if n != 32 {
                r == Err::<Bytes, Abort>(Abort::ShortTxHash(n))
            } else {
                r matches Ok(b) && bytes_contents(b) == tx_hash@
            },
        },
{
    let len = match loaded {
        Ok(n) => n,
        Err(e) => {
            return Err(Abort::Syscall(e));
        },
    };
    if len != 32 {
        return Err(Abort::ShortTxHash(len));
    }
    Ok(bytes_from_vec(vstd::slice::slice_to_vec(&tx_hash)))
}

/// Loads the running transaction's hash into a byte buffer and goes on as
/// [`tx_hash_bytes`] does. A failed load, or one that answers fewer than 32
/// bytes, aborts the contract.
pub fn load() -> (r: Result<Bytes, Abort>)
    ensures
        r matches Ok(b) ==> bytes_contents(b).len() == 32,
        r matches Err(e) ==> e is Syscall || e is ShortTxHash,
        r matches Err(Abort::ShortTxHash(n)) ==> n < 32,
{
    let mut tx_hash = [0u8; 32];
    let loaded = load_tx_hash_into(&mut tx_hash, 0);
    tx_hash_bytes(loaded, tx_hash)
}

/// The exit code that the first sum decides, if it decides one: 0 when the
/// first 16 bytes of `data` sum to 0.
pub fn first_verdict(data: &Bytes) -> (r: Option<i8>)
    requires
        bytes_contents(*data).len() >= 16,
    ensures
        r == (if wrapping_byte_sum(bytes_contents(*data).subrange(0, 16)) == 0 {
            Some(0i8)
        } else {
            None::<i8>
        }),
{
    let r = run(bytes_slice(data, 0, 16));
    if r == 0 {
        Some(0)
    } else {
        None
    }
}

/// The exit code when the first sum decided none: the bytes of `data` from
/// the ninth on, followed by those of `data2`, are summed; 0 when that sum is
/// not 0, and 1 when it is.
pub fn final_verdict(data: &Bytes, data2: Bytes) -> (r: i8)
    requires
        bytes_contents(*data).len() >= 8,
    ensures
        r == (if wrapping_byte_sum(
            bytes_contents(*data).subrange(8, bytes_contents(*data).len() as int) + bytes_contents(
                data2,
            ),
        ) != 0 {
            0i8
        } else {
            1i8
        }),
{
    let mut buf = bytes_mut_new();
    let end = bytes_len(data);
    bytes_mut_extend(&mut buf, bytes_slice(data, 8, end));
    bytes_mut_extend(&mut buf, data2);
    let r = run(bytes_mut_freeze(buf));
    if r != 0 {
        0
    } else {
        1
    }
}

/// The exit code that the loaded bytes decide: 0 when the first 16 bytes of
/// `data` sum to 0; otherwise, once the second load `data2` is at hand, as
/// [`final_verdict`] decides on it. `None` when the second load is needed and
/// not at hand.
pub open spec fn exit_code_spec(data: Seq<u8>, data2: Option<Seq<u8>>) -> Option<i8> {
    if wrapping_byte_sum(data.subrange(0, 16)) == 0 {
        Some(0i8)
    } else {
        match data2 {
            None => None,
            Some(d2) => Some(
                if wrapping_byte_sum(data.subrange(8, data.len() as int) + d2) != 0 {
                    0i8
                } else {
                    1i8
                },
            ),
        }
    }
}

/// A sum wrapped into an `i8` is 0 exactly when the sum is a multiple of 256.
proof fn lemma_wrap_zero(x: int)
    ensures
        (wrap_i8(x) == 0) == (x % 256 == 0),
{
    lemma_wrap_range(x);
    lemma_fundamental_div_mod(x, 256);
    if x % 256 == 0 {
        lemma_wrap_of(x, 0, x / 256);
    } else if wrap_i8(x) == 0 {
        let k = (x + 128) / 256;
        assert(x == k * 256);
        lemma_mod_multiples_basic(k, 256);
    }
}

/// The exit code that the loaded bytes decide. It is 0 as soon as the first
/// 16 bytes of the first load add up to a multiple of 256, whatever the second
/// load holds. Otherwise no code is decided without the second load; with it,
/// the code is 1 when the bytes of the first load from the ninth on and those
/// of the second load add up to a multiple of 256, and 0 when they do not.
pub proof fn law_exit_code(data: Seq<u8>, data2: Seq<u8>)
    requires
        data.len() >= 16,
    ensures
        byte_sum(data.subrange(0, 16)) % 256 == 0 ==> exit_code_spec(data, None) == Some(0i8)
            && exit_code_spec(data, Some(data2)) == Some(0i8),
        byte_sum(data.subrange(0, 16)) % 256 != 0 ==> {
            &&& exit_code_spec(data, None) is None
            &&& exit_code_spec(data, Some(data2)) == Some(
                if (byte_sum(data.subrange(8, data.len() as int)) + byte_sum(data2)) % 256 == 0 {
                    1i8
                } else {
                    0i8
                },
            )
        },
{
    lemma_wrap_zero(byte_sum(data.subrange(0, 16)));
    let tail = data.subrange(8, data.len() as int);
    lemma_byte_sum_concat(tail, data2);
    lemma_wrap_zero(byte_sum(tail + data2));
}

/// Decides the exit code as [`exit_code_spec`] says, from the first load
/// `data` and, where it is at hand, the second load `data2`.
pub fn exit_code(data: &Bytes, data2: Option<Bytes>) -> (r: Option<i8>)
    requires
        bytes_contents(*data).len() >= 16,
    ensures
        r == exit_code_spec(
            bytes_contents(*data),
            match data2 {
                Some(b) => Some(bytes_contents(b)),
                None => None,
            },
        ),
{
    match first_verdict(data) {
        Some(c) => Some(c),
        None => match data2 {
            Some(d2) => Some(final_verdict(data, d2)),
            None => None,
        },
    }
}

/// Loads the transaction hash and exits as [`exit_code`] decides on it;
/// where that needs a second load, loads the hash again and exits as
/// [`exit_code`] decides on both.
pub fn program_entry() -> (r: Result<i8, Abort>)
    ensures
        r matches Ok(c) ==> c == 0 || c == 1,
        r matches Err(e) ==> e is Syscall || e is ShortTxHash,
        r matches Err(Abort::ShortTxHash(n)) ==> n < 32,
{
    let data = load()?;
    match exit_code(&data, None) {
        Some(c) => Ok(c),
        None => {
            let data2 = load()?;
            let c = exit_code(&data, Some(data2));
            Ok(c.unwrap())
        },
    }
}

} // verus!
