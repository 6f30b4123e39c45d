//! Writing the bytes of a description: integers in the host's byte
//! order, distances, selector pointers and strings.
use vstd::prelude::*;

use crate::abi::{O_SEL_IS_OFFSET, SIDE_TYPE_BYTE_ORDER_BE, SIDE_TYPE_BYTE_ORDER_LE};
use vstd::string::StringSliceAdditionalSpecFns;

verus! {

broadcast use vstd::seq::group_seq_axioms;

/// `buf` with `v` written over it from byte `at`; what falls outside
/// `buf` is not written.
pub open spec fn overwrite(buf: Seq<u8>, at: int, v: Seq<u8>) -> Seq<u8> {
    Seq::new(buf.len(), |i: int| if at <= i < at + v.len() { v[i - at] } else { buf[i] })
}

/// Byte `i` of `v`, counting from the least significant.
pub open spec fn byte_of(v: u64, i: nat) -> u8 {
    (v >> ((8 * i) as u64)) as u8
}

/// The `n` least significant bytes of `v`, in the byte order `order`
/// names: most significant first for big endian, least significant
/// first otherwise.
pub open spec fn host_bytes(v: u64, n: nat, order: u8) -> Seq<u8> {
    Seq::new(
        n,
        |j: int|
            if order == SIDE_TYPE_BYTE_ORDER_BE {
                byte_of(v, (n - 1 - j) as nat)
            } else {
                byte_of(v, j as nat)
            },
    )
}

/// A byte order libside knows.
pub open spec fn is_byte_order(order: u8) -> bool {
    order == SIDE_TYPE_BYTE_ORDER_LE || order == SIDE_TYPE_BYTE_ORDER_BE
}

/// `buf` with the byte `v` written at `at`.
pub open spec fn write_u8(buf: Seq<u8>, at: int, v: u8) -> Seq<u8> {
    overwrite(buf, at, seq![v])
}

/// `buf` with the `n` least significant bytes of `v` written at `at`.
pub open spec fn write_uint(buf: Seq<u8>, at: int, v: u64, n: nat, order: u8) -> Seq<u8> {
    overwrite(buf, at, host_bytes(v, n, order))
}

/// The bytes of a distance from byte `at` to byte `target`, as
/// `side_ptr_rel_get()` reads them: a 64 bit two's complement integer
/// added to the address of the member holding it.
pub open spec fn rel_bytes(at: int, target: int, order: u8) -> Seq<u8> {
    host_bytes((target - at) as u64, 8, order)
}

/// `buf` with the distance from `at` to `target` written at `at`.
pub open spec fn write_rel(buf: Seq<u8>, at: int, target: int, order: u8) -> Seq<u8> {
    overwrite(buf, at, rel_bytes(at, target, order))
}

/// `buf` with a selector pointer at `at` holding the distance to
/// `target`, its selector byte saying it is a distance.
pub open spec fn write_sel_rel(buf: Seq<u8>, at: int, target: int, order: u8) -> Seq<u8> {
    overwrite(write_rel(buf, at, target, order), at + O_SEL_IS_OFFSET, seq![1u8])
}

/// A string as a description holds it: its bytes and a nul.
pub open spec fn c_str_bytes(s: &str) -> Seq<u8> {
    s.spec_bytes().push(0u8)
}

/// `u16::to_ne_bytes`, which writes an integer in the byte order of the
/// machine it runs on.
///
/// Trusted: the contract says only that the two bytes are those of
/// `value`, least significant first or most significant first, which is
/// what the two byte orders a Rust target can have give. Which of the
/// two is the machine's and is not named.
#[verifier::external_body]
fn u16_to_ne_bytes(value: u16) -> (r: [u8; 2])
    ensures
        r@ == seq![value as u8, (value >> 8u16) as u8] || r@ == seq![
            (value >> 8u16) as u8,
            value as u8,
        ],
{
    value.to_ne_bytes()
}

/// The byte order a machine has, as libside names it, from how it writes
/// the integer 1 in two bytes: least significant first is little endian,
/// anything else big endian.
pub fn byte_order_from_probe(probe: [u8; 2]) -> (r: u8)
    ensures
        r == (if probe@[0] == 1 {
            SIDE_TYPE_BYTE_ORDER_LE
        } else {
            SIDE_TYPE_BYTE_ORDER_BE
        }),
        is_byte_order(r),
{
    if probe[0] == 1 {
        SIDE_TYPE_BYTE_ORDER_LE
    } else {
        SIDE_TYPE_BYTE_ORDER_BE
    }
}

/// The byte order of the machine this runs on, as libside names it.
///
/// What a description is laid out in, and what it says it is laid out
/// in. Which of the two it is rests on the machine, and is not stated:
/// `byte_order_from_probe` says how it is told from the machine's own
/// bytes.
pub fn host_byte_order() -> (r: u8)
    ensures
        is_byte_order(r),
{
    let probe = u16_to_ne_bytes(1);
    byte_order_from_probe(probe)
}

pub fn put_u8(buf: &mut [u8], at: usize, value: u8)
    requires
        at < old(buf)@.len(),
    ensures
        final(buf)@ == overwrite(old(buf)@, at as int, seq![value]),
{
    buf[at] = value;
    assert(buf@ =~= overwrite(old(buf)@, at as int, seq![value]));
}

/// Write the `n` least significant bytes of `value` at `at`, in the
/// byte order `order`.
pub fn put_uint(buf: &mut [u8], at: usize, value: u64, n: usize, order: u8)
    requires
        n <= 8,
        at + n <= old(buf)@.len(),
    ensures
        final(buf)@ == overwrite(old(buf)@, at as int, host_bytes(value, n as nat, order)),
{
    let ghost want = host_bytes(value, n as nat, order);
    let mut k: usize = 0;
    while k < n
        invariant
            n <= 8,
            at + n <= buf@.len(),
            k <= n,
            want == host_bytes(value, n as nat, order),
            buf@.len() == old(buf)@.len(),
            buf@.len() == buf.len(),
            forall|p: int|
                0 <= p < buf@.len() ==> #[trigger] buf@[p] == if at <= p < at + k {
                    want[p - at]
                } else {
                    old(buf)@[p]
                },
        decreases n - k,
    {
        let index = if order == SIDE_TYPE_BYTE_ORDER_BE {
            n - 1 - k
        } else {
            k
        };
        let byte = (value >> (8 * index as u64)) as u8;
        assert(byte == want[k as int]);
        buf[at + k] = byte;
        k += 1;
    }
    assert(buf@ =~= overwrite(old(buf)@, at as int, want));
}

pub fn put_u16(buf: &mut [u8], at: usize, value: u16, order: u8)
    requires
        at + 2 <= old(buf)@.len(),
    ensures
        final(buf)@ == overwrite(old(buf)@, at as int, host_bytes(value as u64, 2, order)),
{
    put_uint(buf, at, value as u64, 2, order);
}

pub fn put_u32(buf: &mut [u8], at: usize, value: u32, order: u8)
    requires
        at + 4 <= old(buf)@.len(),
    ensures
        final(buf)@ == overwrite(old(buf)@, at as int, host_bytes(value as u64, 4, order)),
{
    put_uint(buf, at, value as u64, 4, order);
}

pub fn put_u64(buf: &mut [u8], at: usize, value: u64, order: u8)
    requires
        at + 8 <= old(buf)@.len(),
    ensures
        final(buf)@ == overwrite(old(buf)@, at as int, host_bytes(value, 8, order)),
{
    put_uint(buf, at, value, 8, order);
}

/// Write, at byte `at`, the distance from there to byte `target`.
///
/// This is what `side_ptr_rel_get()` reads: it adds the value to the
/// address of the member holding it. Both ends are within one object,
/// so the distance is known here and nothing is left for the loader.
pub fn put_rel(buf: &mut [u8], at: usize, target: usize, order: u8)
    requires
        at + 8 <= old(buf)@.len(),
        target <= i64::MAX,
        old(buf)@.len() <= i64::MAX,
    ensures
        final(buf)@ == write_rel(old(buf)@, at as int, target as int, order),
{
    let distance: i64 = target as i64 - at as i64;
    put_u64(buf, at, distance as u64, order);
}

/// Write, at byte `at`, a selector pointer holding the distance from
/// there to byte `target`.
///
/// A member which refers to a type by name holds either a distance or
/// an address, with a byte beside them saying which; what this crate
/// builds is always within the one description, so it is a distance.
pub fn put_sel_rel(buf: &mut [u8], at: usize, target: usize, order: u8)
    requires
        at + O_SEL_IS_OFFSET + 1 <= old(buf)@.len(),
        target <= i64::MAX,
        old(buf)@.len() <= i64::MAX,
    ensures
        final(buf)@ == write_sel_rel(old(buf)@, at as int, target as int, order),
{
    put_rel(buf, at, target, order);
    assert(buf@.len() == buf.len());
    put_u8(buf, at + O_SEL_IS_OFFSET, 1);
}

/// Write a nul terminated string at `pos`, and return where it starts
/// and where the next object goes.
pub fn put_str(buf: &mut [u8], pos: usize, value: &str) -> (r: (usize, usize))
    requires
        pos + value.spec_bytes().len() + 1 <= old(buf)@.len(),
    ensures
        final(buf)@ == overwrite(old(buf)@, pos as int, c_str_bytes(value)),
        r == (pos, (pos + value.spec_bytes().len() + 1) as usize),
{
    let bytes = value.as_bytes();
    let mut i: usize = 0;
    while i < bytes.len()
        invariant
            bytes@ == value.spec_bytes(),
            pos + bytes@.len() + 1 <= buf@.len(),
            i <= bytes@.len(),
            buf@.len() == old(buf)@.len(),
            buf@.len() == buf.len(),
            forall|p: int|
                0 <= p < buf@.len() ==> #[trigger] buf@[p] == if pos <= p < pos + i {
                    bytes@[p - pos]
                } else {
                    old(buf)@[p]
                },
        decreases bytes@.len() - i,
    {
        buf[pos + i] = bytes[i];
        i += 1;
    }
    assert(buf@.len() == buf.len());
    buf[pos + bytes.len()] = 0;
    assert(buf@ =~= overwrite(old(buf)@, pos as int, c_str_bytes(value)));
    (pos, pos + bytes.len() + 1)
}

/// The bytes of a description from `from`, which is the run between two
/// holes, or before the first, or after the last.
pub fn description_run<const N: usize>(bytes: &[u8], from: usize) -> (run: [u8; N])
    requires
        N == 0 || from + N <= bytes@.len(),
    ensures
        N == 0 ==> run@ == Seq::<u8>::empty(),
        N > 0 ==> run@ == bytes@.subrange(from as int, from + N),
{
    let mut run = [0u8;N];
    let mut i: usize = 0;
    while i < N
        invariant
            N == 0 || from + N <= bytes@.len(),
            i <= N,
            run@.len() == N,
            bytes@.len() == bytes.len(),
            forall|j: int| 0 <= j < i ==> run@[j] == bytes@[from + j],
        decreases N - i,
    {
        run[i] = bytes[from + i];
        i += 1;
    }
    if N > 0 {
        assert(run@ =~= bytes@.subrange(from as int, from + N));
    } else {
        assert(run@ =~= Seq::<u8>::empty());
    }
    run
}

} // verus!
