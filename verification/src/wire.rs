//! Big-endian fields read out of a byte buffer at a position.

use byteorder::{BigEndian, ByteOrder};
use vstd::prelude::*;
use vstd::slice::slice_subrange;

verus! {

broadcast use vstd::slice::group_slice_axioms;

/// Why a decode stopped.
#[derive(Debug, Clone, Copy, PartialEq, Eq, Structural)]
pub enum ParseError {
    /// A field or a payload of declared length runs past the end of the input.
    UnexpectedEof,
    /// The view name of a peer index table is not UTF-8.
    InvalidData,
    /// A prefix is longer than its address family allows, or has bits set
    /// beyond its length.
    InvalidPrefix,
}

/// The number that `bytes` spell in base 256, most significant byte first.
pub open spec fn be_value(bytes: Seq<u8>) -> nat
    decreases bytes.len(),
{
    if bytes.len() == 0 {
        0
    } else {
        be_value(bytes.drop_last()) * 256 + bytes.last() as nat
    }
}

/// 256 to the power `count`: one more than the largest number that `count`
/// bytes spell.
pub open spec fn radix_pow(count: nat) -> nat
    decreases count,
{
    if count == 0 {
        1
    } else {
        256 * radix_pow((count - 1) as nat)
    }
}

/// Bytes spell a number below 256 to the power of their count.
pub proof fn lemma_be_value_bound(bytes: Seq<u8>)
    ensures
        be_value(bytes) < radix_pow(bytes.len()),
    decreases bytes.len(),
{
    if bytes.len() > 0 {
        lemma_be_value_bound(bytes.drop_last());
    }
}

/// Bytes put behind others shift those up by their count and add their own
/// number.
pub proof fn lemma_be_value_concat(front: Seq<u8>, back: Seq<u8>)
    ensures
        be_value(front + back) == be_value(front) * radix_pow(back.len()) + be_value(back),
    decreases back.len(),
{
    let f = be_value(front) as int;
    if back.len() == 0 {
        assert(front + back =~= front);
        assert(radix_pow(0) == 1);
        assert(f * 1 == f);
    } else {
        let shorter = back.drop_last();
        assert((front + back).drop_last() =~= front + shorter);
        assert((front + back).last() == back.last());
        lemma_be_value_concat(front, shorter);
        let p = radix_pow(shorter.len()) as int;
        assert(radix_pow(back.len()) == 256 * p);
        assert(be_value(front + back) == (f * p + be_value(shorter)) * 256 + back.last());
        assert((f * p) * 256 == f * (256 * p)) by (nonlinear_arith);
    }
}

/// Zero bytes spell zero.
pub proof fn lemma_be_value_zeros(count: nat)
    ensures
        be_value(Seq::new(count, |i: int| 0u8)) == 0,
    decreases count,
{
    if count > 0 {
        let zeros = Seq::new(count, |i: int| 0u8);
        assert(zeros.drop_last() =~= Seq::new((count - 1) as nat, |i: int| 0u8));
        lemma_be_value_zeros((count - 1) as nat);
    }
}

/// `count` bytes of `input` lie at `pos`.
pub open spec fn has_bytes(input: Seq<u8>, pos: int, count: int) -> bool {
    0 <= pos && 0 <= count && pos + count <= input.len()
}

/// The 16-bit number whose two bytes start at `pos`.
pub open spec fn u16_at(input: Seq<u8>, pos: int) -> u16 {
    be_value(input.subrange(pos, pos + 2)) as u16
}

/// The 32-bit number whose four bytes start at `pos`.
pub open spec fn u32_at(input: Seq<u8>, pos: int) -> u32 {
    be_value(input.subrange(pos, pos + 4)) as u32
}

/// The 128-bit number whose sixteen bytes start at `pos`.
pub open spec fn u128_at(input: Seq<u8>, pos: int) -> u128 {
    be_value(input.subrange(pos, pos + 16)) as u128
}

/// The byte at `pos`.
pub open spec fn wire_u8(input: Seq<u8>, pos: int) -> Result<u8, ParseError> {
    if has_bytes(input, pos, 1) {
        Ok(input[pos])
    } else {
        Err(ParseError::UnexpectedEof)
    }
}

/// The 16-bit field at `pos`.
pub open spec fn wire_u16(input: Seq<u8>, pos: int) -> Result<u16, ParseError> {
    if has_bytes(input, pos, 2) {
        Ok(u16_at(input, pos))
    } else {
        Err(ParseError::UnexpectedEof)
    }
}

/// The 32-bit field at `pos`.
pub open spec fn wire_u32(input: Seq<u8>, pos: int) -> Result<u32, ParseError> {
    if has_bytes(input, pos, 4) {
        Ok(u32_at(input, pos))
    } else {
        Err(ParseError::UnexpectedEof)
    }
}

/// The 128-bit field at `pos`.
pub open spec fn wire_u128(input: Seq<u8>, pos: int) -> Result<u128, ParseError> {
    if has_bytes(input, pos, 16) {
        Ok(u128_at(input, pos))
    } else {
        Err(ParseError::UnexpectedEof)
    }
}

/// The `count` bytes at `pos`.
pub open spec fn wire_bytes(input: Seq<u8>, pos: int, count: int) -> Result<Seq<u8>, ParseError> {
    if has_bytes(input, pos, count) {
        Ok(input.subrange(pos, pos + count))
    } else {
        Err(ParseError::UnexpectedEof)
    }
}

/// The views of the items of `items`, in order.
pub open spec fn views<T: View>(items: Seq<T>) -> Seq<T::V> {
    Seq::new(items.len(), |i: int| items[i]@)
}

/// `res` is the outcome `expected`: the same error, or a value with the
/// expected view and the expected position behind it.
pub open spec fn decoded<T: View>(
    res: Result<(T, usize), ParseError>,
    expected: Result<(T::V, int), ParseError>,
) -> bool {
    match expected {
        Ok((value, next)) => res is Ok && res.unwrap().0@ == value && res.unwrap().1 == next,
        Err(e) => res == Err::<(T, usize), ParseError>(e),
    }
}

/// `res` is the outcome `expected`: the same error, or the expected value
/// and the expected position behind it.
pub open spec fn decoded_plain<T>(
    res: Result<(T, usize), ParseError>,
    expected: Result<(T, int), ParseError>,
) -> bool {
    match expected {
        Ok((value, next)) => res is Ok && res.unwrap().0 == value && res.unwrap().1 == next,
        Err(e) => res == Err::<(T, usize), ParseError>(e),
    }
}

/// `res` is the outcome `expected`: the same error, or a value with the
/// expected view.
pub open spec fn decoded_whole<T: View>(
    res: Result<T, ParseError>,
    expected: Result<T::V, ParseError>,
) -> bool {
    match expected {
        Ok(value) => res is Ok && res.unwrap()@ == value,
        Err(e) => res == Err::<T, ParseError>(e),
    }
}

/// `res` is the outcome `expected`: the same error, or items with the
/// expected views in the expected order.
pub open spec fn decoded_all<T: View>(
    res: Result<Vec<T>, ParseError>,
    expected: Result<Seq<T::V>, ParseError>,
) -> bool {
    match expected {
        Ok(items) => res is Ok && views(res.unwrap()@) == items,
        Err(e) => res == Err::<Vec<T>, ParseError>(e),
    }
}

/// A buffer is never longer than `usize` can count.
pub proof fn lemma_len_fits(input: &[u8])
    ensures
        input@.len() <= usize::MAX,
{
    assert(vstd::slice::spec_slice_len(input) == input@.len());
}

/// Pushing an item pushes its view.
pub proof fn lemma_views_push<T: View>(items: Seq<T>, item: T)
    ensures
        views(items.push(item)) == views(items).push(item@),
{
    assert(views(items.push(item)) =~= views(items).push(item@));
}

/// `byteorder::BigEndian::read_u16`, which panics on fewer than two bytes and
/// otherwise hands the first two to `u16::from_be_bytes`. Trusted: on exactly
/// two bytes the result is their big-endian value.
#[verifier::external_body]
fn be_u16(buf: &[u8]) -> (value: u16)
    requires
        buf@.len() == 2,
    ensures
        value as nat == be_value(buf@),
{
    BigEndian::read_u16(buf)
}

/// `byteorder::BigEndian::read_u32`, which panics on fewer than four bytes and
/// otherwise hands the first four to `u32::from_be_bytes`. Trusted: on exactly
/// four bytes the result is their big-endian value.
#[verifier::external_body]
fn be_u32(buf: &[u8]) -> (value: u32)
    requires
        buf@.len() == 4,
    ensures
        value as nat == be_value(buf@),
{
    BigEndian::read_u32(buf)
}

/// `byteorder::BigEndian::read_u128`, which panics on fewer than sixteen bytes
/// and otherwise hands the first sixteen to `u128::from_be_bytes`. Trusted: on
/// exactly sixteen bytes the result is their big-endian value.
#[verifier::external_body]
fn be_u128(buf: &[u8]) -> (value: u128)
    requires
        buf@.len() == 16,
    ensures
        value as nat == be_value(buf@),
{
    BigEndian::read_u128(buf)
}

/// Whether `count` bytes of `input` lie at `pos`.
pub fn available(input: &[u8], pos: usize, count: usize) -> (yes: bool)
    ensures
        yes == has_bytes(input@, pos as int, count as int),
        yes ==> pos + count <= usize::MAX,
{
    pos <= input.len() && count <= input.len() - pos
}

/// Reads the byte at `pos`.
pub fn read_u8(input: &[u8], pos: usize) -> (res: Result<u8, ParseError>)
    ensures
        res == wire_u8(input@, pos as int),
{
    if available(input, pos, 1) {
        Ok(input[pos])
    } else {
        Err(ParseError::UnexpectedEof)
    }
}

/// Reads the big-endian 16-bit field at `pos`.
pub fn read_u16(input: &[u8], pos: usize) -> (res: Result<u16, ParseError>)
    ensures
        res == wire_u16(input@, pos as int),
{
    if available(input, pos, 2) {
        Ok(be_u16(slice_subrange(input, pos, pos + 2)))
    } else {
        Err(ParseError::UnexpectedEof)
    }
}

/// Reads the big-endian 32-bit field at `pos`.
pub fn read_u32(input: &[u8], pos: usize) -> (res: Result<u32, ParseError>)
    ensures
        res == wire_u32(input@, pos as int),
{
    if available(input, pos, 4) {
        Ok(be_u32(slice_subrange(input, pos, pos + 4)))
    } else {
        Err(ParseError::UnexpectedEof)
    }
}

/// Reads the big-endian 128-bit field at `pos`.
pub fn read_u128(input: &[u8], pos: usize) -> (res: Result<u128, ParseError>)
    ensures
        res == wire_u128(input@, pos as int),
{
    if available(input, pos, 16) {
        Ok(be_u128(slice_subrange(input, pos, pos + 16)))
    } else {
        Err(ParseError::UnexpectedEof)
    }
}

/// Copies out the `length` bytes at `pos`.
pub fn read_exact(input: &[u8], pos: usize, length: usize) -> (res: Result<Vec<u8>, ParseError>)
    ensures
        match wire_bytes(input@, pos as int, length as int) {
            Ok(bytes) => res is Ok && res.unwrap()@ == bytes,
            Err(e) => res == Err::<Vec<u8>, ParseError>(e),
        },
{
    if available(input, pos, length) {
        Ok(vstd::slice::slice_to_vec(slice_subrange(input, pos, pos + length)))
    } else {
        Err(ParseError::UnexpectedEof)
    }
}

} // verus!
