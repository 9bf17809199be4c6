use vstd::prelude::*;

use rmp::Marker;
use vstd::utf8::valid_utf8;

use crate::de::{enum_spec, option_spec};
use crate::error::Error;
use crate::marker::{be_value, marker_spec, pow256};
use crate::token::{next_spec, prefixed, TokenModel};

verus! {

/// The `w` bytes that spell `v` in big-endian order.
pub open spec fn be_bytes(v: nat, w: nat) -> Seq<u8>
    decreases w,
{
    if w == 0 {
        Seq::empty()
    } else {
        be_bytes(v / 256, (w - 1) as nat).push((v % 256) as u8)
    }
}

/// Spelling a number in big-endian bytes and reading them back gives the number.
pub proof fn lemma_be_bytes(v: nat, w: nat)
    requires
        v < pow256(w),
    ensures
        be_bytes(v, w).len() == w,
        be_value(be_bytes(v, w)) == v,
    decreases w,
{
    if w > 0 {
        let p = pow256((w - 1) as nat);
        assert(pow256(w) == 256 * p);
        assert(v / 256 < p) by (nonlinear_arith)
            requires
                v < 256 * p,
        ;
        lemma_be_bytes(v / 256, (w - 1) as nat);
        let s = be_bytes(v, w);
        assert(s.drop_last() =~= be_bytes(v / 256, (w - 1) as nat));
        assert((v / 256) * 256 + v % 256 == v) by (nonlinear_arith);
    }
}

/// A big-endian prefix of `w` bytes spelling `v`, followed by `rest`, reads as `v`.
pub proof fn lemma_prefixed(v: nat, w: nat, rest: Seq<u8>)
    requires
        v < pow256(w),
    ensures
        prefixed(w, be_bytes(v, w) + rest) == Some(v),
        (be_bytes(v, w) + rest).skip(w as int) == rest,
{
    lemma_be_bytes(v, w);
    let s = be_bytes(v, w) + rest;
    assert(s.take(w as int) =~= be_bytes(v, w));
    assert(s.skip(w as int) =~= rest);
}

/// The bit pattern that stands for a signed number in `w` bytes.
pub open spec fn unsigned_of(v: int, w: nat) -> nat {
    (if v >= 0 { v } else { v + pow256(w) }) as nat
}

/// A canonical MessagePack encoding of a token: numbers at their own width, strings,
/// binary payloads, arrays and maps with a 32-bit length.
pub open spec fn encode_token(t: TokenModel) -> Seq<u8> {
    match t {
        TokenModel::Unit => seq![0xc0u8],
        TokenModel::Bool(b) => seq![if b { 0xc3u8 } else { 0xc2u8 }],
        TokenModel::U8(v) => seq![0xccu8] + be_bytes(v as nat, 1),
        TokenModel::U16(v) => seq![0xcdu8] + be_bytes(v as nat, 2),
        TokenModel::U32(v) => seq![0xceu8] + be_bytes(v as nat, 4),
        TokenModel::U64(v) => seq![0xcfu8] + be_bytes(v as nat, 8),
        TokenModel::I8(v) => seq![0xd0u8] + be_bytes(unsigned_of(v as int, 1), 1),
        TokenModel::I16(v) => seq![0xd1u8] + be_bytes(unsigned_of(v as int, 2), 2),
        TokenModel::I32(v) => seq![0xd2u8] + be_bytes(unsigned_of(v as int, 4), 4),
        TokenModel::I64(v) => seq![0xd3u8] + be_bytes(unsigned_of(v as int, 8), 8),
        TokenModel::F32(v) => seq![0xcau8] + be_bytes(v as nat, 4),
        TokenModel::F64(v) => seq![0xcbu8] + be_bytes(v as nat, 8),
        TokenModel::Str(b) => seq![0xdbu8] + be_bytes(b.len(), 4) + b,
        TokenModel::InvalidStr(b) => seq![0xdbu8] + be_bytes(b.len(), 4) + b,
        TokenModel::Bytes(b) => seq![0xc6u8] + be_bytes(b.len(), 4) + b,
        TokenModel::ArrayLen(n) => seq![0xddu8] + be_bytes(n as nat, 4),
        TokenModel::MapLen(n) => seq![0xdfu8] + be_bytes(n as nat, 4),
    }
}

/// The tokens that `encode_token` can write: payloads fit a 32-bit length, and a string
/// payload is marked valid exactly when it is valid UTF-8.
pub open spec fn encodable(t: TokenModel) -> bool {
    match t {
        TokenModel::Str(b) => b.len() < 0x1_0000_0000 && valid_utf8(b),
        TokenModel::InvalidStr(b) => b.len() < 0x1_0000_0000 && !valid_utf8(b),
        TokenModel::Bytes(b) => b.len() < 0x1_0000_0000,
        _ => true,
    }
}

/// The byte after a marker byte `m`, and the rest.
proof fn lemma_split_marker(m: u8, body: Seq<u8>, rest: Seq<u8>)
    ensures
        (seq![m] + body + rest).len() > 0,
        (seq![m] + body + rest)[0] == m,
        (seq![m] + body + rest).skip(1) == body + rest,
{
    assert((seq![m] + body + rest).skip(1) =~= body + rest);
}

/// A fixed-width number written by `encode_token` reads back as written.
proof fn lemma_number_round_trip(m: u8, v: nat, w: nat, rest: Seq<u8>)
    requires
        v < pow256(w),
    ensures
        (seq![m] + be_bytes(v, w) + rest)[0] == m,
        (seq![m] + be_bytes(v, w) + rest).skip(1) == be_bytes(v, w) + rest,
        prefixed(w, be_bytes(v, w) + rest) == Some(v),
        (be_bytes(v, w) + rest).skip(w as int) == rest,
        (seq![m] + be_bytes(v, w)).len() == 1 + w,
{
    lemma_split_marker(m, be_bytes(v, w), rest);
    lemma_prefixed(v, w, rest);
    lemma_be_bytes(v, w);
}

/// A payload with a 32-bit length written by `encode_token` reads back as written.
proof fn lemma_payload_round_trip(m: u8, b: Seq<u8>, rest: Seq<u8>)
    requires
        b.len() < 0x1_0000_0000,
    ensures
        ({
            let inp = seq![m] + be_bytes(b.len(), 4) + b + rest;
            let body = inp.skip(1);
            &&& inp[0] == m
            &&& prefixed(4, body) == Some(b.len())
            &&& body.skip(4).len() >= b.len()
            &&& body.skip(4).take(b.len() as int) == b
            &&& body.skip(4 + b.len() as int) == rest
            &&& (seq![m] + be_bytes(b.len(), 4) + b).len() == 5 + b.len()
        }),
{
    crate::marker::lemma_pow256_values();
    lemma_be_bytes(b.len(), 4);
    let inp = seq![m] + be_bytes(b.len(), 4) + b + rest;
    lemma_split_marker(m, be_bytes(b.len(), 4) + b, rest);
    assert(inp =~= seq![m] + (be_bytes(b.len(), 4) + b) + rest);
    let body = inp.skip(1);
    assert(body =~= be_bytes(b.len(), 4) + (b + rest));
    lemma_prefixed(b.len(), 4, b + rest);
    assert(body.skip(4).take(b.len() as int) =~= b);
    assert(body.skip(4 + b.len() as int) =~= rest);
}

/// Decoding what `encode_token` wrote gives back the token, and takes exactly the bytes
/// written: the rest of the input is left for what follows. An array or a map head needs
/// room for one more level of nesting.
pub proof fn lemma_round_trip(t: TokenModel, rest: Seq<u8>, depth: usize)
    requires
        encodable(t),
        (t is ArrayLen || t is MapLen) ==> depth > 0,
    ensures
        next_spec(None, encode_token(t) + rest, depth) == (Ok::<TokenModel, Error>(t), encode_token(t).len()),
{
    crate::marker::lemma_pow256_values();
    let inp = encode_token(t) + rest;
    match t {
        TokenModel::Unit => {
            lemma_split_marker(0xc0, Seq::empty(), rest);
            assert(seq![0xc0u8] + Seq::<u8>::empty() =~= seq![0xc0u8]);
        },
        TokenModel::Bool(b) => {
            let m: u8 = if b { 0xc3 } else { 0xc2 };
            lemma_split_marker(m, Seq::empty(), rest);
            assert(seq![m] + Seq::<u8>::empty() =~= seq![m]);
        },
        TokenModel::U8(v) => lemma_number_round_trip(0xcc, v as nat, 1, rest),
        TokenModel::U16(v) => lemma_number_round_trip(0xcd, v as nat, 2, rest),
        TokenModel::U32(v) => lemma_number_round_trip(0xce, v as nat, 4, rest),
        TokenModel::U64(v) => lemma_number_round_trip(0xcf, v as nat, 8, rest),
        TokenModel::I8(v) => lemma_number_round_trip(0xd0, unsigned_of(v as int, 1), 1, rest),
        TokenModel::I16(v) => lemma_number_round_trip(0xd1, unsigned_of(v as int, 2), 2, rest),
        TokenModel::I32(v) => lemma_number_round_trip(0xd2, unsigned_of(v as int, 4), 4, rest),
        TokenModel::I64(v) => lemma_number_round_trip(0xd3, unsigned_of(v as int, 8), 8, rest),
        TokenModel::F32(v) => lemma_number_round_trip(0xca, v as nat, 4, rest),
        TokenModel::F64(v) => lemma_number_round_trip(0xcb, v as nat, 8, rest),
        TokenModel::Str(b) => lemma_payload_round_trip(0xdb, b, rest),
        TokenModel::InvalidStr(b) => lemma_payload_round_trip(0xdb, b, rest),
        TokenModel::Bytes(b) => lemma_payload_round_trip(0xc6, b, rest),
        TokenModel::ArrayLen(n) => lemma_number_round_trip(0xdd, n as nat, 4, rest),
        TokenModel::MapLen(n) => lemma_number_round_trip(0xdf, n as nat, 4, rest),
    }
}

/// Reading ahead for an optional value takes no byte twice. Nil reads as absent and
/// takes its one byte. Any other marker reads as present, and the decode that follows,
/// starting from the marker read ahead, gives the same item as decoding the input
/// directly, and the two together take the same bytes.
pub proof fn lemma_option_lookahead(inp: Seq<u8>, depth: usize)
    requires
        inp.len() > 0,
    ensures
        marker_spec(inp[0]) == Marker::Null ==> option_spec(None, inp) == (
            Ok::<bool, Error>(false),
            None::<Marker>,
            1nat,
        ),
        marker_spec(inp[0]) != Marker::Null ==> {
            let o = option_spec(None, inp);
            let after = next_spec(o.1, inp.skip(o.2 as int), depth);
            &&& o.0 == Ok::<bool, Error>(true)
            &&& after.0 == next_spec(None, inp, depth).0
            &&& o.2 + after.1 == next_spec(None, inp, depth).1
        },
{
}

/// The ways an enum value can be written read back as written: an index below 128 as a
/// single byte, any index as a 32-bit unsigned integer, both without payload; a map of
/// one entry as a variant whose index and payload follow; a map of any other size is
/// refused.
pub proof fn lemma_enum_forms(i: u32, rest: Seq<u8>, depth: usize, n: u8)
    requires
        n <= 15,
        n != 1,
    ensures
        i < 0x80 ==> enum_spec(None, seq![i as u8] + rest, depth) == (Ok::<Option<u32>, Error>(Some(i)), 1nat),
        enum_spec(None, seq![0xceu8] + be_bytes(i as nat, 4) + rest, depth) == (
            Ok::<Option<u32>, Error>(Some(i)),
            5nat,
        ),
        depth > 0 ==> enum_spec(None, seq![0x81u8] + rest, depth) == (Ok::<Option<u32>, Error>(None), 1nat),
        enum_spec(None, seq![(0x80 + n) as u8] + rest, depth).0 == Err::<Option<u32>, Error>(
            Error::TypeMismatch(Marker::FixMap(n)),
        ),
{
    crate::marker::lemma_pow256_values();
    lemma_split_marker(i as u8, Seq::empty(), rest);
    lemma_split_marker(0x81, Seq::empty(), rest);
    lemma_split_marker((0x80 + n) as u8, Seq::empty(), rest);
    lemma_number_round_trip(0xce, i as nat, 4, rest);
    assert(seq![i as u8] + Seq::<u8>::empty() =~= seq![i as u8]);
    assert(seq![0x81u8] + Seq::<u8>::empty() =~= seq![0x81u8]);
    assert(seq![(0x80 + n) as u8] + Seq::<u8>::empty() =~= seq![(0x80 + n) as u8]);
}

} // verus!
