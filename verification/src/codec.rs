//! The wire codec: typed values written to and read from ordered byte
//! sequences.
//!
//! Every multi-byte integer is big-endian with a width fixed by its type.
//! Text is a two-byte length prefix followed by that many UTF-8 bytes.
//! An optional value is a one-byte presence flag, `0x01` before a present
//! value; any other flag byte reads back as absence. A homogeneous sequence
//! is a four-byte element count followed by the elements in order.
//!
//! Each encoding has a spec-level description (`enc_*`), a spec-level total
//! decoder (`dec_*`), executable functions proved against both, and a
//! round-trip lemma: decoding an encoding, wherever it sits in a larger
//! buffer, yields exactly the value that was written.

use vstd::prelude::*;
use vstd::string::StrSliceExecFns;
use vstd::utf8::{decode_utf8, encode_utf8, encode_utf8_decode_utf8, encode_utf8_valid_utf8,
    valid_utf8};

verus! {

/// Why a read from the wire failed.
#[derive(Clone, Copy, Debug, PartialEq, Eq, Structural)]
pub enum DecodeError {
    /// The input ended before the announced or fixed width was reached.
    UnexpectedEnd,
    /// A text field held bytes that are not valid UTF-8.
    InvalidEncoding,
}

/// Why a write to the wire failed.
#[derive(Clone, Copy, Debug, PartialEq, Eq, Structural)]
pub enum EncodeError {
    /// A text field was longer than its two-byte length prefix can announce.
    ValueTooLarge,
}

/// The big-endian bytes of `v` in width `n`: most significant byte first,
/// truncated to the low `n` bytes of `v`.
pub open spec fn be_bytes(v: nat, n: nat) -> Seq<u8>
    decreases n,
{
    if n == 0 {
        Seq::empty()
    } else {
        be_bytes(v / 256, (n - 1) as nat).push((v % 256) as u8)
    }
}

/// The value announced by a big-endian byte sequence.
pub open spec fn be_val(s: Seq<u8>) -> nat
    decreases s.len(),
{
    if s.len() == 0 {
        0
    } else {
        be_val(s.drop_last()) * 256 + s.last() as nat
    }
}

/// The number of values a width of `n` bytes can hold.
pub open spec fn pow256(n: nat) -> nat
    decreases n,
{
    if n == 0 {
        1
    } else {
        256 * pow256((n - 1) as nat)
    }
}

pub proof fn lemma_pow256_16()
    ensures
        pow256(1) == 0x100,
        pow256(2) == 0x10000,
        pow256(4) == 0x100000000,
        pow256(8) == 0x10000000000000000,
        pow256(16) == 0x100000000000000000000000000000000,
{
    assert(pow256(0) == 1);
    assert(pow256(1) == 0x100);
    assert(pow256(2) == 0x10000);
    assert(pow256(3) == 0x1000000);
    assert(pow256(4) == 0x100000000);
    assert(pow256(5) == 0x10000000000);
    assert(pow256(6) == 0x1000000000000);
    assert(pow256(7) == 0x100000000000000);
    assert(pow256(8) == 0x10000000000000000);
    assert(pow256(9) == 0x1000000000000000000);
    assert(pow256(10) == 0x100000000000000000000);
    assert(pow256(11) == 0x10000000000000000000000);
    assert(pow256(12) == 0x1000000000000000000000000);
    assert(pow256(13) == 0x100000000000000000000000000);
    assert(pow256(14) == 0x10000000000000000000000000000);
    assert(pow256(15) == 0x1000000000000000000000000000000);
    assert(pow256(16) == 0x100000000000000000000000000000000);
}

pub proof fn lemma_be_bytes_len(v: nat, n: nat)
    ensures
        be_bytes(v, n).len() == n,
    decreases n,
{
    if n > 0 {
        lemma_be_bytes_len(v / 256, (n - 1) as nat);
    }
}

/// Writing a value that fits in the width and reading it back is the
/// identity.
pub proof fn lemma_be_val_of_be_bytes(v: nat, n: nat)
    requires
        v < pow256(n),
    ensures
        be_val(be_bytes(v, n)) == v,
    decreases n,
{
    if n == 0 {
    } else {
        let rest = be_bytes(v / 256, (n - 1) as nat);
        lemma_be_bytes_len(v / 256, (n - 1) as nat);
        assert(be_bytes(v, n).drop_last() =~= rest);
        assert(v / 256 < pow256((n - 1) as nat)) by (nonlinear_arith)
            requires
                v < pow256(n),
                pow256(n) == 256 * pow256((n - 1) as nat),
        ;
        lemma_be_val_of_be_bytes(v / 256, (n - 1) as nat);
        assert(be_val(be_bytes(v, n)) == (v / 256) * 256 + v % 256);
        assert((v / 256) * 256 + v % 256 == v) by (nonlinear_arith);
    }
}

/// A big-endian byte sequence announces a value that fits in its width.
pub proof fn lemma_be_val_bound(s: Seq<u8>)
    ensures
        be_val(s) < pow256(s.len() as nat),
    decreases s.len(),
{
    if s.len() > 0 {
        lemma_be_val_bound(s.drop_last());
        assert(be_val(s.drop_last()) * 256 + s.last() < 256 * pow256((s.len() - 1) as nat))
            by (nonlinear_arith)
            requires
                be_val(s.drop_last()) < pow256((s.len() - 1) as nat),
                s.last() < 256,
        ;
    }
}

/// Appends the `n`-byte big-endian encoding of `v` to `out`.
fn write_be(v: u128, n: usize, out: &mut Vec<u8>)
    requires
        n <= 16,
    ensures
        final(out)@ == old(out)@ + be_bytes(v as nat, n as nat),
    decreases n,
{
    if n == 0 {
        proof {
            assert(out@ + be_bytes(v as nat, 0) =~= out@);
        }
    } else {
        write_be(v / 256, n - 1, out);
        let byte: u8 = (v % 256) as u8;
        out.push(byte);
        proof {
            assert((v / 256) as nat == v as nat / 256);
            assert((v % 256) as nat == v as nat % 256);
            assert(final(out)@ =~= old(out)@ + be_bytes(v as nat, n as nat));
        }
    }
}

/// Reads `n` big-endian bytes from `input` at `pos`, or reports that the
/// input ended too early.
fn read_be(input: &Vec<u8>, pos: usize, n: usize) -> (r: Result<(u128, usize), DecodeError>)
    requires
        n <= 16,
    ensures
        input@.len() <= usize::MAX,
        pos + n <= input@.len() ==> r == Ok::<(u128, usize), DecodeError>((
            be_val(input@.subrange(pos as int, pos + n)) as u128,
            (pos + n) as usize,
        )),
        pos + n > input@.len() ==> r == Err::<(u128, usize), DecodeError>(
            DecodeError::UnexpectedEnd,
        ),
{
    if n > input.len() || pos > input.len() - n {
        return Err(DecodeError::UnexpectedEnd);
    }
    let mut acc: u128 = 0;
    let mut i: usize = 0;
    proof {
        assert(input@.subrange(pos as int, pos as int) =~= Seq::<u8>::empty());
    }
    while i < n
        invariant
            i <= n,
            n <= 16,
            pos + n <= input@.len(),
            input@.len() <= usize::MAX,
            acc as nat == be_val(input@.subrange(pos as int, pos + i)),
            (acc as nat) < pow256(i as nat),
        decreases n - i,
    {
        let byte: u8 = input[pos + i];
        proof {
            lemma_pow256_16();
            assert(pow256(i as nat) * 256 <= pow256(16)) by {
                lemma_pow256_mono(i as nat + 1, 16);
            }
            assert((acc as nat) * 256 + byte < pow256(i as nat + 1)) by (nonlinear_arith)
                requires
                    (acc as nat) < pow256(i as nat),
                    byte < 256,
                    pow256(i as nat + 1) == 256 * pow256(i as nat),
            ;
            assert(input@.subrange(pos as int, pos + i + 1).drop_last() =~= input@.subrange(
                pos as int,
                pos + i,
            ));
            assert(input@.subrange(pos as int, pos + i + 1).last() == input@[pos + i]);
        }
        acc = acc * 256 + (byte as u128);
        i = i + 1;
    }
    Ok((acc, pos + n))
}

pub proof fn lemma_pow256_mono(a: nat, b: nat)
    requires
        a <= b,
    ensures
        pow256(a) <= pow256(b),
    decreases b,
{
    if a < b {
        lemma_pow256_mono(a, (b - 1) as nat);
        assert(pow256(b) == 256 * pow256((b - 1) as nat));
        assert(pow256((b - 1) as nat) <= 256 * pow256((b - 1) as nat)) by (nonlinear_arith)
            requires
                pow256((b - 1) as nat) >= 1 || true,
        ;
        lemma_pow256_pos((b - 1) as nat);
        assert(pow256((b - 1) as nat) <= 256 * pow256((b - 1) as nat)) by (nonlinear_arith)
            requires
                pow256((b - 1) as nat) >= 0,
        ;
    }
}

pub proof fn lemma_pow256_pos(n: nat)
    ensures
        pow256(n) >= 1,
    decreases n,
{
    if n > 0 {
        lemma_pow256_pos((n - 1) as nat);
    }
}

/// How an executable read result must mirror the spec-level decoder: same
/// value and same end position on success, the same error otherwise.
pub open spec fn read_matches<T>(
    r: Result<(T, usize), DecodeError>,
    d: Result<(T, int), DecodeError>,
) -> bool {
    match (r, d) {
        (Ok(o), Ok(k)) => o.0 == k.0 && o.1 as int == k.1,
        (Err(e), Err(k)) => e == k,
        _ => false,
    }
}

pub open spec fn enc_u8(v: u8) -> Seq<u8> {
    be_bytes(v as nat, 1)
}

pub open spec fn dec_u8(input: Seq<u8>, pos: int) -> Result<(u8, int), DecodeError> {
    if 0 <= pos && pos + 1 <= input.len() {
        Ok((be_val(input.subrange(pos, pos + 1)) as u8, pos + 1))
    } else {
        Err(DecodeError::UnexpectedEnd)
    }
}

pub fn write_u8(v: u8, out: &mut Vec<u8>)
    ensures
        final(out)@ == old(out)@ + enc_u8(v),
{
    write_be(v as u128, 1, out);
}

pub fn read_u8(input: &Vec<u8>, pos: usize) -> (r: Result<(u8, usize), DecodeError>)
    ensures
        read_matches(r, dec_u8(input@, pos as int)),
{
    proof {
        lemma_pow256_16();
        if pos + 1 <= input@.len() {
            lemma_be_val_bound(input@.subrange(pos as int, pos as int + 1));
            lemma_pow256_mono(1, 16);
        }
    }
    match read_be(input, pos, 1) {
        Ok((v, end)) => Ok(((v as u8), end)),
        Err(e) => Err(e),
    }
}

pub proof fn lemma_dec_enc_u8(input: Seq<u8>, pos: int, v: u8)
    requires
        0 <= pos,
        pos + 1 <= input.len(),
        input.subrange(pos, pos + 1) == enc_u8(v),
    ensures
        dec_u8(input, pos) == Ok::<(u8, int), DecodeError>((v, pos + 1)),
{
    lemma_pow256_16();
    lemma_be_val_of_be_bytes(v as nat, 1);
}

/// A one-byte encoding is just that byte.
pub proof fn lemma_enc_u8_byte(v: u8)
    ensures
        enc_u8(v) == seq![v],
{
    assert(be_bytes(v as nat / 256, 0) =~= Seq::<u8>::empty());
    assert(enc_u8(v) =~= seq![v]);
}

pub open spec fn enc_u16(v: u16) -> Seq<u8> {
    be_bytes(v as nat, 2)
}

pub open spec fn dec_u16(input: Seq<u8>, pos: int) -> Result<(u16, int), DecodeError> {
    if 0 <= pos && pos + 2 <= input.len() {
        Ok((be_val(input.subrange(pos, pos + 2)) as u16, pos + 2))
    } else {
        Err(DecodeError::UnexpectedEnd)
    }
}

pub fn write_u16(v: u16, out: &mut Vec<u8>)
    ensures
        final(out)@ == old(out)@ + enc_u16(v),
{
    write_be(v as u128, 2, out);
}

pub fn read_u16(input: &Vec<u8>, pos: usize) -> (r: Result<(u16, usize), DecodeError>)
    ensures
        read_matches(r, dec_u16(input@, pos as int)),
{
    proof {
        lemma_pow256_16();
        if pos + 2 <= input@.len() {
            lemma_be_val_bound(input@.subrange(pos as int, pos as int + 2));
            lemma_pow256_mono(2, 16);
        }
    }
    match read_be(input, pos, 2) {
        Ok((v, end)) => Ok(((v as u16), end)),
        Err(e) => Err(e),
    }
}

pub proof fn lemma_dec_enc_u16(input: Seq<u8>, pos: int, v: u16)
    requires
        0 <= pos,
        pos + 2 <= input.len(),
        input.subrange(pos, pos + 2) == enc_u16(v),
    ensures
        dec_u16(input, pos) == Ok::<(u16, int), DecodeError>((v, pos + 2)),
{
    lemma_pow256_16();
    lemma_be_val_of_be_bytes(v as nat, 2);
}

pub open spec fn enc_u32(v: u32) -> Seq<u8> {
    be_bytes(v as nat, 4)
}

pub open spec fn dec_u32(input: Seq<u8>, pos: int) -> Result<(u32, int), DecodeError> {
    if 0 <= pos && pos + 4 <= input.len() {
        Ok((be_val(input.subrange(pos, pos + 4)) as u32, pos + 4))
    } else {
        Err(DecodeError::UnexpectedEnd)
    }
}

pub fn write_u32(v: u32, out: &mut Vec<u8>)
    ensures
        final(out)@ == old(out)@ + enc_u32(v),
{
    write_be(v as u128, 4, out);
}

pub fn read_u32(input: &Vec<u8>, pos: usize) -> (r: Result<(u32, usize), DecodeError>)
    ensures
        read_matches(r, dec_u32(input@, pos as int)),
{
    proof {
        lemma_pow256_16();
        if pos + 4 <= input@.len() {
            lemma_be_val_bound(input@.subrange(pos as int, pos as int + 4));
            lemma_pow256_mono(4, 16);
        }
    }
    match read_be(input, pos, 4) {
        Ok((v, end)) => Ok(((v as u32), end)),
        Err(e) => Err(e),
    }
}

pub proof fn lemma_dec_enc_u32(input: Seq<u8>, pos: int, v: u32)
    requires
        0 <= pos,
        pos + 4 <= input.len(),
        input.subrange(pos, pos + 4) == enc_u32(v),
    ensures
        dec_u32(input, pos) == Ok::<(u32, int), DecodeError>((v, pos + 4)),
{
    lemma_pow256_16();
    lemma_be_val_of_be_bytes(v as nat, 4);
}

pub open spec fn enc_u64(v: u64) -> Seq<u8> {
    be_bytes(v as nat, 8)
}

pub open spec fn dec_u64(input: Seq<u8>, pos: int) -> Result<(u64, int), DecodeError> {
    if 0 <= pos && pos + 8 <= input.len() {
        Ok((be_val(input.subrange(pos, pos + 8)) as u64, pos + 8))
    } else {
        Err(DecodeError::UnexpectedEnd)
    }
}

pub fn write_u64(v: u64, out: &mut Vec<u8>)
    ensures
        final(out)@ == old(out)@ + enc_u64(v),
{
    write_be(v as u128, 8, out);
}

pub fn read_u64(input: &Vec<u8>, pos: usize) -> (r: Result<(u64, usize), DecodeError>)
    ensures
        read_matches(r, dec_u64(input@, pos as int)),
{
    proof {
        lemma_pow256_16();
        if pos + 8 <= input@.len() {
            lemma_be_val_bound(input@.subrange(pos as int, pos as int + 8));
            lemma_pow256_mono(8, 16);
        }
    }
    match read_be(input, pos, 8) {
        Ok((v, end)) => Ok(((v as u64), end)),
        Err(e) => Err(e),
    }
}

pub proof fn lemma_dec_enc_u64(input: Seq<u8>, pos: int, v: u64)
    requires
        0 <= pos,
        pos + 8 <= input.len(),
        input.subrange(pos, pos + 8) == enc_u64(v),
    ensures
        dec_u64(input, pos) == Ok::<(u64, int), DecodeError>((v, pos + 8)),
{
    lemma_pow256_16();
    lemma_be_val_of_be_bytes(v as nat, 8);
}

/// A 128-bit identifier travels as a fixed sixteen-byte big-endian integer.
pub open spec fn enc_u128(v: u128) -> Seq<u8> {
    be_bytes(v as nat, 16)
}

pub open spec fn dec_u128(input: Seq<u8>, pos: int) -> Result<(u128, int), DecodeError> {
    if 0 <= pos && pos + 16 <= input.len() {
        Ok((be_val(input.subrange(pos, pos + 16)) as u128, pos + 16))
    } else {
        Err(DecodeError::UnexpectedEnd)
    }
}

pub fn write_u128(v: u128, out: &mut Vec<u8>)
    ensures
        final(out)@ == old(out)@ + enc_u128(v),
{
    write_be(v, 16, out);
}

pub fn read_u128(input: &Vec<u8>, pos: usize) -> (r: Result<(u128, usize), DecodeError>)
    ensures
        read_matches(r, dec_u128(input@, pos as int)),
{
    proof {
        lemma_pow256_16();
        if pos + 16 <= input@.len() {
            lemma_be_val_bound(input@.subrange(pos as int, pos as int + 16));
        }
    }
    read_be(input, pos, 16)
}

pub proof fn lemma_dec_enc_u128(input: Seq<u8>, pos: int, v: u128)
    requires
        0 <= pos,
        pos + 16 <= input.len(),
        input.subrange(pos, pos + 16) == enc_u128(v),
    ensures
        dec_u128(input, pos) == Ok::<(u128, int), DecodeError>((v, pos + 16)),
{
    lemma_pow256_16();
    lemma_be_val_of_be_bytes(v as nat, 16);
}

/// The two's-complement image of a signed value, which is what travels on
/// the wire.
pub open spec fn u8_of_i8(v: i8) -> u8 {
    if v >= 0 {
        v as u8
    } else {
        (v + 0x100) as u8
    }
}

pub open spec fn i8_of_u8(u: u8) -> i8 {
    if u < 0x80 {
        u as i8
    } else {
        (u - 0x100) as i8
    }
}

pub open spec fn enc_i8(v: i8) -> Seq<u8> {
    enc_u8(u8_of_i8(v))
}

pub open spec fn dec_i8(input: Seq<u8>, pos: int) -> Result<(i8, int), DecodeError> {
    match dec_u8(input, pos) {
        Ok(d) => Ok((i8_of_u8(d.0), d.1)),
        Err(e) => Err(e),
    }
}

pub fn write_i8(v: i8, out: &mut Vec<u8>)
    ensures
        final(out)@ == old(out)@ + enc_i8(v),
{
    let u: u8 = if v >= 0 {
        v as u8
    } else {
        ((v as i16) + 0x100) as u8
    };
    write_u8(u, out);
}

pub fn read_i8(input: &Vec<u8>, pos: usize) -> (r: Result<(i8, usize), DecodeError>)
    ensures
        read_matches(r, dec_i8(input@, pos as int)),
{
    match read_u8(input, pos) {
        Ok((u, end)) => {
            let v: i8 = if u < 0x80 {
                u as i8
            } else {
                ((u as i16) - 0x100) as i8
            };
            Ok((v, end))
        },
        Err(e) => Err(e),
    }
}

pub proof fn lemma_dec_enc_i8(input: Seq<u8>, pos: int, v: i8)
    requires
        0 <= pos,
        pos + 1 <= input.len(),
        input.subrange(pos, pos + 1) == enc_i8(v),
    ensures
        dec_i8(input, pos) == Ok::<(i8, int), DecodeError>((v, pos + 1)),
{
    lemma_dec_enc_u8(input, pos, u8_of_i8(v));
}

pub open spec fn u16_of_i16(v: i16) -> u16 {
    if v >= 0 {
        v as u16
    } else {
        (v + 0x10000) as u16
    }
}

pub open spec fn i16_of_u16(u: u16) -> i16 {
    if u < 0x8000 {
        u as i16
    } else {
        (u - 0x10000) as i16
    }
}

pub open spec fn enc_i16(v: i16) -> Seq<u8> {
    enc_u16(u16_of_i16(v))
}

pub open spec fn dec_i16(input: Seq<u8>, pos: int) -> Result<(i16, int), DecodeError> {
    match dec_u16(input, pos) {
        Ok(d) => Ok((i16_of_u16(d.0), d.1)),
        Err(e) => Err(e),
    }
}

pub fn write_i16(v: i16, out: &mut Vec<u8>)
    ensures
        final(out)@ == old(out)@ + enc_i16(v),
{
    let u: u16 = if v >= 0 {
        v as u16
    } else {
        ((v as i32) + 0x10000) as u16
    };
    write_u16(u, out);
}

pub fn read_i16(input: &Vec<u8>, pos: usize) -> (r: Result<(i16, usize), DecodeError>)
    ensures
        read_matches(r, dec_i16(input@, pos as int)),
{
    match read_u16(input, pos) {
        Ok((u, end)) => {
            let v: i16 = if u < 0x8000 {
                u as i16
            } else {
                ((u as i32) - 0x10000) as i16
            };
            Ok((v, end))
        },
        Err(e) => Err(e),
    }
}

pub proof fn lemma_dec_enc_i16(input: Seq<u8>, pos: int, v: i16)
    requires
        0 <= pos,
        pos + 2 <= input.len(),
        input.subrange(pos, pos + 2) == enc_i16(v),
    ensures
        dec_i16(input, pos) == Ok::<(i16, int), DecodeError>((v, pos + 2)),
{
    lemma_dec_enc_u16(input, pos, u16_of_i16(v));
}

pub open spec fn u32_of_i32(v: i32) -> u32 {
    if v >= 0 {
        v as u32
    } else {
        (v + 0x100000000) as u32
    }
}

pub open spec fn i32_of_u32(u: u32) -> i32 {
    if u < 0x80000000 {
        u as i32
    } else {
        (u - 0x100000000) as i32
    }
}

pub open spec fn enc_i32(v: i32) -> Seq<u8> {
    enc_u32(u32_of_i32(v))
}

pub open spec fn dec_i32(input: Seq<u8>, pos: int) -> Result<(i32, int), DecodeError> {
    match dec_u32(input, pos) {
        Ok(d) => Ok((i32_of_u32(d.0), d.1)),
        Err(e) => Err(e),
    }
}

pub fn write_i32(v: i32, out: &mut Vec<u8>)
    ensures
        final(out)@ == old(out)@ + enc_i32(v),
{
    let u: u32 = if v >= 0 {
        v as u32
    } else {
        ((v as i64) + 0x100000000) as u32
    };
    write_u32(u, out);
}

pub fn read_i32(input: &Vec<u8>, pos: usize) -> (r: Result<(i32, usize), DecodeError>)
    ensures
        read_matches(r, dec_i32(input@, pos as int)),
{
    match read_u32(input, pos) {
        Ok((u, end)) => {
            let v: i32 = if u < 0x80000000 {
                u as i32
            } else {
                ((u as i64) - 0x100000000) as i32
            };
            Ok((v, end))
        },
        Err(e) => Err(e),
    }
}

pub proof fn lemma_dec_enc_i32(input: Seq<u8>, pos: int, v: i32)
    requires
        0 <= pos,
        pos + 4 <= input.len(),
        input.subrange(pos, pos + 4) == enc_i32(v),
    ensures
        dec_i32(input, pos) == Ok::<(i32, int), DecodeError>((v, pos + 4)),
{
    lemma_dec_enc_u32(input, pos, u32_of_i32(v));
}

pub open spec fn u64_of_i64(v: i64) -> u64 {
    if v >= 0 {
        v as u64
    } else {
        (v + 0x10000000000000000) as u64
    }
}

pub open spec fn i64_of_u64(u: u64) -> i64 {
    if u < 0x8000000000000000 {
        u as i64
    } else {
        (u - 0x10000000000000000) as i64
    }
}

pub open spec fn enc_i64(v: i64) -> Seq<u8> {
    enc_u64(u64_of_i64(v))
}

pub open spec fn dec_i64(input: Seq<u8>, pos: int) -> Result<(i64, int), DecodeError> {
    match dec_u64(input, pos) {
        Ok(d) => Ok((i64_of_u64(d.0), d.1)),
        Err(e) => Err(e),
    }
}

pub fn write_i64(v: i64, out: &mut Vec<u8>)
    ensures
        final(out)@ == old(out)@ + enc_i64(v),
{
    let u: u64 = if v >= 0 {
        v as u64
    } else {
        ((v as i128) + 0x10000000000000000) as u64
    };
    write_u64(u, out);
}

pub fn read_i64(input: &Vec<u8>, pos: usize) -> (r: Result<(i64, usize), DecodeError>)
    ensures
        read_matches(r, dec_i64(input@, pos as int)),
{
    match read_u64(input, pos) {
        Ok((u, end)) => {
            let v: i64 = if u < 0x8000000000000000 {
                u as i64
            } else {
                ((u as i128) - 0x10000000000000000) as i64
            };
            Ok((v, end))
        },
        Err(e) => Err(e),
    }
}

pub proof fn lemma_dec_enc_i64(input: Seq<u8>, pos: int, v: i64)
    requires
        0 <= pos,
        pos + 8 <= input.len(),
        input.subrange(pos, pos + 8) == enc_i64(v),
    ensures
        dec_i64(input, pos) == Ok::<(i64, int), DecodeError>((v, pos + 8)),
{
    lemma_dec_enc_u64(input, pos, u64_of_i64(v));
}

/// Text can only be announced by a two-byte length prefix, so its UTF-8
/// image must fit in 65535 bytes.
pub open spec fn str_encodable(s: Seq<char>) -> bool {
    encode_utf8(s).len() <= 0xffff
}

/// Text travels as a two-byte length prefix followed by its UTF-8 bytes.
pub open spec fn enc_str(s: Seq<char>) -> Seq<u8> {
    enc_u16(encode_utf8(s).len() as u16) + encode_utf8(s)
}

pub open spec fn dec_str(input: Seq<u8>, pos: int) -> Result<(Seq<char>, int), DecodeError> {
    match dec_u16(input, pos) {
        Ok(d) => {
            let n = d.0 as int;
            if d.1 + n <= input.len() {
                let bytes = input.subrange(d.1, d.1 + n);
                if valid_utf8(bytes) {
                    Ok((decode_utf8(bytes), d.1 + n))
                } else {
                    Err(DecodeError::InvalidEncoding)
                }
            } else {
                Err(DecodeError::UnexpectedEnd)
            }
        },
        Err(e) => Err(e),
    }
}

/// Appends a whole buffer to `out`.
pub fn push_bytes(out: &mut Vec<u8>, bytes: &Vec<u8>)
    ensures
        final(out)@ == old(out)@ + bytes@,
{
    proof {
        assert(out@ + bytes@.subrange(0, 0) =~= out@);
    }
    let ghost base = out@;
    let mut i: usize = 0;
    while i < bytes.len()
        invariant
            i <= bytes@.len(),
            out@ == base + bytes@.subrange(0, i as int),
        decreases bytes@.len() - i,
    {
        let b: u8 = bytes[i];
        out.push(b);
        i = i + 1;
        proof {
            assert(base + bytes@.subrange(0, i - 1 as int).push(b) =~= base + bytes@.subrange(
                0,
                i as int,
            ));
        }
    }
    proof {
        assert(bytes@.subrange(0, bytes@.len() as int) =~= bytes@);
    }
}

/// A fresh copy of `input[from..to]`.
pub fn copy_range(input: &Vec<u8>, from: usize, to: usize) -> (r: Vec<u8>)
    requires
        from <= to <= input@.len(),
    ensures
        r@ == input@.subrange(from as int, to as int),
{
    let mut out: Vec<u8> = Vec::new();
    proof {
        assert(input@.subrange(from as int, from as int) =~= Seq::<u8>::empty());
    }
    let mut i: usize = from;
    while i < to
        invariant
            from <= i <= to,
            to <= input@.len(),
            out@ == input@.subrange(from as int, i as int),
        decreases to - i,
    {
        let b: u8 = input[i];
        out.push(b);
        i = i + 1;
        proof {
            assert(input@.subrange(from as int, i - 1 as int).push(b) =~= input@.subrange(
                from as int,
                i as int,
            ));
        }
    }
    out
}

/// Relies on `String::from_utf8`: it succeeds exactly on input that is valid
/// UTF-8 and returns the character sequence those bytes encode.
#[verifier::external_body]
pub(crate) fn vec_to_string(bytes: Vec<u8>) -> (r: Result<String, DecodeError>)
    ensures
        ({
            match r {
                Ok(s) => valid_utf8(bytes@) && s@ == decode_utf8(bytes@),
                Err(e) => !valid_utf8(bytes@) && e == DecodeError::InvalidEncoding,
            }
        }),
{
    match String::from_utf8(bytes) {
        Ok(s) => Ok(s),
        Err(_) => Err(DecodeError::InvalidEncoding),
    }
}

pub fn write_string(s: &String, out: &mut Vec<u8>) -> (r: Result<(), EncodeError>)
    ensures
        str_encodable(s@) ==> r == Ok::<(), EncodeError>(()) && final(out)@ == old(out)@
            + enc_str(s@),
        !str_encodable(s@) ==> r == Err::<(), EncodeError>(EncodeError::ValueTooLarge)
            && final(out)@ == old(out)@,
{
    let bytes: Vec<u8> = s.as_str().as_bytes_vec();
    if bytes.len() > 0xffff {
        return Err(EncodeError::ValueTooLarge);
    }
    write_u16(bytes.len() as u16, out);
    proof {
        assert(out@ + bytes@.subrange(0, 0) =~= out@);
    }
    let ghost mid = out@;
    let mut i: usize = 0;
    while i < bytes.len()
        invariant
            i <= bytes@.len(),
            bytes@ == encode_utf8(s@),
            bytes@.len() <= 0xffff,
            mid == old(out)@ + enc_u16(bytes@.len() as u16),
            out@ == mid + bytes@.subrange(0, i as int),
        decreases bytes@.len() - i,
    {
        let b: u8 = bytes[i];
        out.push(b);
        i = i + 1;
        proof {
            assert(mid + bytes@.subrange(0, i - 1 as int).push(b) =~= mid + bytes@.subrange(
                0,
                i as int,
            ));
        }
    }
    proof {
        assert(bytes@.subrange(0, bytes@.len() as int) =~= bytes@);
        assert(out@ =~= old(out)@ + enc_str(s@));
    }
    Ok(())
}

pub fn read_string(input: &Vec<u8>, pos: usize) -> (r: Result<(String, usize), DecodeError>)
    ensures
        ({
            match (r, dec_str(input@, pos as int)) {
                (Ok(o), Ok(d)) => o.0@ == d.0 && o.1 as int == d.1,
                (Err(e), Err(d)) => e == d,
                _ => false,
            }
        }),
{
    let (n16, p) = match read_u16(input, pos) {
        Ok(x) => x,
        Err(e) => return Err(e),
    };
    let n = n16 as usize;
    if input.len() < n || p > input.len() - n {
        return Err(DecodeError::UnexpectedEnd);
    }
    let bytes: Vec<u8> = copy_range(input, p, p + n);
    match vec_to_string(bytes) {
        Ok(s) => Ok((s, p + n)),
        Err(e) => Err(e),
    }
}

/// Decoding the encoding of any text, wherever it sits in a buffer, yields
/// exactly that text.
pub proof fn lemma_dec_enc_str(input: Seq<u8>, pos: int, s: Seq<char>)
    requires
        0 <= pos,
        str_encodable(s),
        pos + enc_str(s).len() <= input.len(),
        input.subrange(pos, pos + enc_str(s).len()) == enc_str(s),
    ensures
        dec_str(input, pos) == Ok::<(Seq<char>, int), DecodeError>((
            s,
            pos + enc_str(s).len(),
        )),
{
    let bytes = encode_utf8(s);
    let n = bytes.len() as int;
    lemma_be_bytes_len((bytes.len() as u16) as nat, 2);
    assert(enc_str(s).len() == 2 + n);
    assert(input.subrange(pos, pos + 2) =~= enc_u16(bytes.len() as u16));
    lemma_dec_enc_u16(input, pos, bytes.len() as u16);
    assert forall|j: int| 0 <= j < n implies input.subrange(pos + 2, pos + 2 + n)[j]
        == bytes[j] by {
        assert(input.subrange(pos, pos + 2 + n)[2 + j] == enc_str(s)[2 + j]);
    }
    assert(input.subrange(pos + 2, pos + 2 + n) =~= bytes);
    encode_utf8_valid_utf8(s);
    encode_utf8_decode_utf8(s);
}

/// A buffer that holds `a + b` at `pos` holds `a` at `pos` and `b` right
/// after it. Composite encodings are concatenations, so their round-trip
/// proofs peel fields off with this.
pub proof fn lemma_subrange_split(input: Seq<u8>, pos: int, a: Seq<u8>, b: Seq<u8>)
    requires
        0 <= pos,
        pos + a.len() + b.len() <= input.len(),
        input.subrange(pos, pos + a.len() + b.len()) == a + b,
    ensures
        input.subrange(pos, pos + a.len()) == a,
        input.subrange(pos + a.len(), pos + a.len() + b.len()) == b,
{
    assert forall|j: int| 0 <= j < a.len() implies input.subrange(pos, pos + a.len())[j]
        == a[j] by {
        assert(input.subrange(pos, pos + a.len() + b.len())[j] == (a + b)[j]);
    }
    assert(input.subrange(pos, pos + a.len()) =~= a);
    assert forall|j: int| 0 <= j < b.len() implies input.subrange(
        pos + a.len(),
        pos + a.len() + b.len(),
    )[j] == b[j] by {
        assert(input.subrange(pos, pos + a.len() + b.len())[a.len() + j] == (a + b)[a.len() + j]);
        assert(input.subrange(pos, pos + a.len() + b.len())[a.len() + j] == input[pos + a.len()
            + j]);
        assert(input.subrange(pos + a.len(), pos + a.len() + b.len())[j] == input[pos + a.len()
            + j]);
    }
    assert(input.subrange(pos + a.len(), pos + a.len() + b.len()) =~= b);
}

/// A length prefix that announces more text bytes than the input still holds
/// is rejected with `UnexpectedEnd`; the read neither panics nor consumes
/// the stream.
pub proof fn lemma_truncated_string_rejected(input: Seq<u8>, pos: int)
    requires
        0 <= pos,
        pos + 2 <= input.len(),
        pos + 2 + be_val(input.subrange(pos, pos + 2)) > input.len(),
    ensures
        dec_str(input, pos) == Err::<(Seq<char>, int), DecodeError>(DecodeError::UnexpectedEnd),
{
    lemma_be_val_bound(input.subrange(pos, pos + 2));
    lemma_pow256_16();
}

} // verus!

