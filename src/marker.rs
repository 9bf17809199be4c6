use vstd::prelude::*;

use rmp::Marker;

verus! {

/// rmp's `Marker`, with its variants visible: the format's marker kinds, with the
/// length or value that a fixed-size marker holds.
#[verifier::external_type_specification]
pub struct ExMarker(rmp::Marker);

/// The wire marker that a leading byte stands for, as the MessagePack format lays it out.
pub open spec fn marker_spec(n: u8) -> Marker {
    if n <= 0x7f {
        Marker::FixPos(n)
    } else if n <= 0x8f {
        Marker::FixMap((n - 0x80) as u8)
    } else if n <= 0x9f {
        Marker::FixArray((n - 0x90) as u8)
    } else if n <= 0xbf {
        Marker::FixStr((n - 0xa0) as u8)
    } else if n >= 0xe0 {
        Marker::FixNeg((n - 256) as i8)
    } else {
        match n {
            0xc0 => Marker::Null,
            0xc1 => Marker::Reserved,
            0xc2 => Marker::False,
            0xc3 => Marker::True,
            0xc4 => Marker::Bin8,
            0xc5 => Marker::Bin16,
            0xc6 => Marker::Bin32,
            0xc7 => Marker::Ext8,
            0xc8 => Marker::Ext16,
            0xc9 => Marker::Ext32,
            0xca => Marker::F32,
            0xcb => Marker::F64,
            0xcc => Marker::U8,
            0xcd => Marker::U16,
            0xce => Marker::U32,
            0xcf => Marker::U64,
            0xd0 => Marker::I8,
            0xd1 => Marker::I16,
            0xd2 => Marker::I32,
            0xd3 => Marker::I64,
            0xd4 => Marker::FixExt1,
            0xd5 => Marker::FixExt2,
            0xd6 => Marker::FixExt4,
            0xd7 => Marker::FixExt8,
            0xd8 => Marker::FixExt16,
            0xd9 => Marker::Str8,
            0xda => Marker::Str16,
            0xdb => Marker::Str32,
            0xdc => Marker::Array16,
            0xdd => Marker::Array32,
            0xde => Marker::Map16,
            _ => Marker::Map32,
        }
    }
}

/// Relies on `rmp::Marker::from_u8`: the marker that a leading byte stands for, by the
/// table of the MessagePack format.
pub assume_specification[ rmp::Marker::from_u8 ](n: u8) -> (r: Marker)
    ensures
        r == marker_spec(n),
;

/// The unsigned integer that `s` spells in big-endian byte order.
pub open spec fn be_value(s: Seq<u8>) -> nat
    decreases s.len(),
{
    if s.len() == 0 {
        0
    } else {
        be_value(s.drop_last()) * 256 + s.last() as nat
    }
}

/// `256` to the power `n`.
pub open spec fn pow256(n: nat) -> nat
    decreases n,
{
    if n == 0 {
        1
    } else {
        256 * pow256((n - 1) as nat)
    }
}

/// A big-endian number of `n` bytes is below `256^n`.
pub proof fn lemma_be_value_bound(s: Seq<u8>)
    ensures
        be_value(s) < pow256(s.len()),
    decreases s.len(),
{
    if s.len() > 0 {
        lemma_be_value_bound(s.drop_last());
        assert(pow256(s.len()) == 256 * pow256(s.drop_last().len()));
    }
}

/// The powers of 256 that the fixed-width numbers reach.
pub proof fn lemma_pow256_values()
    ensures
        pow256(1) == 0x100,
        pow256(2) == 0x1_0000,
        pow256(4) == 0x1_0000_0000,
        pow256(8) == 0x1_0000_0000_0000_0000,
{
    reveal_with_fuel(pow256, 9);
}

/// Relies on `byteorder::BigEndian::read_u16`: the first two bytes, big-endian.
#[verifier::external_body]
pub(crate) fn be_u16(b: &[u8]) -> (r: u16)
    requires
        b@.len() == 2,
    ensures
        r as nat == be_value(b@),
{
    <byteorder::BigEndian as byteorder::ByteOrder>::read_u16(b)
}

/// Relies on `byteorder::BigEndian::read_u32`: the first four bytes, big-endian.
#[verifier::external_body]
pub(crate) fn be_u32(b: &[u8]) -> (r: u32)
    requires
        b@.len() == 4,
    ensures
        r as nat == be_value(b@),
{
    <byteorder::BigEndian as byteorder::ByteOrder>::read_u32(b)
}

/// Relies on `byteorder::BigEndian::read_u64`: the first eight bytes, big-endian.
#[verifier::external_body]
pub(crate) fn be_u64(b: &[u8]) -> (r: u64)
    requires
        b@.len() == 8,
    ensures
        r as nat == be_value(b@),
{
    <byteorder::BigEndian as byteorder::ByteOrder>::read_u64(b)
}

/// The two's complement reading of an 8-bit pattern.
pub open spec fn signed8(v: u8) -> i8 {
    (if v < 0x80 { v as int } else { v as int - 0x100 }) as i8
}

/// The two's complement reading of a 16-bit pattern.
pub open spec fn signed16(v: u16) -> i16 {
    (if v < 0x8000 { v as int } else { v as int - 0x1_0000 }) as i16
}

/// The two's complement reading of a 32-bit pattern.
pub open spec fn signed32(v: u32) -> i32 {
    (if v < 0x8000_0000 { v as int } else { v as int - 0x1_0000_0000 }) as i32
}

/// The two's complement reading of a 64-bit pattern.
pub open spec fn signed64(v: u64) -> i64 {
    (if v < 0x8000_0000_0000_0000 { v as int } else { v as int - 0x1_0000_0000_0000_0000 }) as i64
}

pub fn to_i8(v: u8) -> (r: i8)
    ensures
        r == signed8(v),
{
    if v < 0x80 {
        v as i8
    } else {
        (v as i16 - 0x100) as i8
    }
}

pub fn to_i16(v: u16) -> (r: i16)
    ensures
        r == signed16(v),
{
    if v < 0x8000 {
        v as i16
    } else {
        (v as i32 - 0x1_0000) as i16
    }
}

pub fn to_i32(v: u32) -> (r: i32)
    ensures
        r == signed32(v),
{
    if v < 0x8000_0000 {
        v as i32
    } else {
        (v as i64 - 0x1_0000_0000) as i32
    }
}

pub fn to_i64(v: u64) -> (r: i64)
    ensures
        r == signed64(v),
{
    if v < 0x8000_0000_0000_0000 {
        v as i64
    } else {
        (v as i128 - 0x1_0000_0000_0000_0000) as i64
    }
}

} // verus!
