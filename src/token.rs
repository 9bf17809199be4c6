use vstd::prelude::*;

use rmp::Marker;
use vstd::string::StringSliceAdditionalSpecFns;
use vstd::utf8::valid_utf8;

use crate::error::Error;
use crate::marker::{be_value, marker_spec};
use crate::read::Reference;

verus! {

/// A string handed out by a byte source: borrowed from the input, or copied and valid
/// only until the next read.
#[derive(Clone, Copy, Debug, PartialEq)]
pub enum StrRef<'b, 'c> {
    /// Borrowed from the input buffer.
    Borrowed(&'b str),
    /// Copied into a scratch buffer.
    Copied(&'c str),
}

impl<'b, 'c> StrRef<'b, 'c> {
    /// The UTF-8 bytes of the string.
    pub open spec fn bytes(self) -> Seq<u8> {
        match self {
            StrRef::Borrowed(s) => s.spec_bytes(),
            StrRef::Copied(s) => s.spec_bytes(),
        }
    }
}

/// One decoded MessagePack item: a scalar, a string or byte payload, or the head of an
/// array or a map whose elements follow on the wire.
#[derive(Clone, Copy, Debug, PartialEq)]
pub enum Token<'b, 'c> {
    Unit,
    Bool(bool),
    U8(u8),
    U16(u16),
    U32(u32),
    U64(u64),
    I8(i8),
    I16(i16),
    I32(i32),
    I64(i64),
    /// The IEEE 754 bit pattern of a single-precision float.
    F32(u32),
    /// The IEEE 754 bit pattern of a double-precision float.
    F64(u64),
    /// A string payload that is valid UTF-8.
    Str(StrRef<'b, 'c>),
    /// A string payload that is not valid UTF-8, as raw bytes.
    InvalidStr(Reference<'b, 'c>),
    /// A binary payload.
    Bytes(Reference<'b, 'c>),
    /// The head of an array of the given number of elements.
    ArrayLen(u32),
    /// The head of a map of the given number of key-value pairs.
    MapLen(u32),
}

/// What a token stands for, with payloads as byte sequences.
pub enum TokenModel {
    Unit,
    Bool(bool),
    U8(u8),
    U16(u16),
    U32(u32),
    U64(u64),
    I8(i8),
    I16(i16),
    I32(i32),
    I64(i64),
    F32(u32),
    F64(u64),
    Str(Seq<u8>),
    InvalidStr(Seq<u8>),
    Bytes(Seq<u8>),
    ArrayLen(u32),
    MapLen(u32),
}

impl<'b, 'c> Token<'b, 'c> {
    pub open spec fn view(self) -> TokenModel {
        match self {
            Token::Unit => TokenModel::Unit,
            Token::Bool(b) => TokenModel::Bool(b),
            Token::U8(v) => TokenModel::U8(v),
            Token::U16(v) => TokenModel::U16(v),
            Token::U32(v) => TokenModel::U32(v),
            Token::U64(v) => TokenModel::U64(v),
            Token::I8(v) => TokenModel::I8(v),
            Token::I16(v) => TokenModel::I16(v),
            Token::I32(v) => TokenModel::I32(v),
            Token::I64(v) => TokenModel::I64(v),
            Token::F32(v) => TokenModel::F32(v),
            Token::F64(v) => TokenModel::F64(v),
            Token::Str(s) => TokenModel::Str(s.bytes()),
            Token::InvalidStr(b) => TokenModel::InvalidStr(b.bytes()),
            Token::Bytes(b) => TokenModel::Bytes(b.bytes()),
            Token::ArrayLen(n) => TokenModel::ArrayLen(n),
            Token::MapLen(n) => TokenModel::MapLen(n),
        }
    }

    /// Every payload of the token is borrowed from the input rather than copied.
    pub open spec fn borrowed(self) -> bool {
        match self {
            Token::Str(s) => s is Borrowed,
            Token::InvalidStr(b) => b is Borrowed,
            Token::Bytes(b) => b is Borrowed,
            _ => true,
        }
    }
}

/// The big-endian number in the first `w` bytes of `inp`, if there are that many.
pub open spec fn prefixed(w: nat, inp: Seq<u8>) -> Option<nat> {
    if inp.len() >= w {
        Some(be_value(inp.take(w as int)))
    } else {
        None
    }
}

/// A string payload of `len` bytes after a `w`-byte length prefix.
pub open spec fn str_after(w: nat, len: nat, inp: Seq<u8>) -> (Result<TokenModel, Error>, nat) {
    let body = inp.skip(w as int);
    if body.len() >= len {
        let b = body.take(len as int);
        (Ok(if valid_utf8(b) { TokenModel::Str(b) } else { TokenModel::InvalidStr(b) }), w + len)
    } else {
        (Err(Error::InvalidDataRead), 0)
    }
}

/// A binary payload of `len` bytes after a `w`-byte length prefix.
pub open spec fn bin_after(w: nat, len: nat, inp: Seq<u8>) -> (Result<TokenModel, Error>, nat) {
    let body = inp.skip(w as int);
    if body.len() >= len {
        (Ok(TokenModel::Bytes(body.take(len as int))), w + len)
    } else {
        (Err(Error::InvalidDataRead), 0)
    }
}

/// A payload whose length is given by a `w`-byte prefix.
pub open spec fn sized(w: nat, inp: Seq<u8>, is_str: bool) -> (Result<TokenModel, Error>, nat) {
    match prefixed(w, inp) {
        Some(len) => if is_str { str_after(w, len, inp) } else { bin_after(w, len, inp) },
        None => (Err(Error::InvalidDataRead), 0),
    }
}

/// A number of `w` bytes, made into a token by `f`.
pub open spec fn number(w: nat, inp: Seq<u8>, f: spec_fn(nat) -> TokenModel) -> (Result<TokenModel, Error>, nat) {
    match prefixed(w, inp) {
        Some(v) => (Ok(f(v)), w),
        None => (Err(Error::InvalidDataRead), 0),
    }
}

/// The head of a container whose count is given by a `w`-byte prefix (or, for `w == 0`,
/// by `n`), where nesting may go one level deeper.
pub open spec fn container(w: nat, n: nat, inp: Seq<u8>, depth: usize, is_map: bool) -> (Result<TokenModel, Error>, nat) {
    if depth == 0 {
        (Err(Error::DepthLimitExceeded), 0)
    } else {
        let len = if w == 0 { Some(n) } else { prefixed(w, inp) };
        match len {
            Some(c) => (Ok(if is_map { TokenModel::MapLen(c as u32) } else { TokenModel::ArrayLen(c as u32) }), w),
            None => (Err(Error::InvalidDataRead), 0),
        }
    }
}

/// The item that follows marker `m` in `inp`, and how many bytes of `inp` it takes.
pub open spec fn after_marker(m: Marker, inp: Seq<u8>, depth: usize) -> (Result<TokenModel, Error>, nat) {
    match m {
        Marker::Null => (Ok(TokenModel::Unit), 0),
        Marker::True => (Ok(TokenModel::Bool(true)), 0),
        Marker::False => (Ok(TokenModel::Bool(false)), 0),
        Marker::FixPos(v) => (Ok(TokenModel::U8(v)), 0),
        Marker::FixNeg(v) => (Ok(TokenModel::I8(v)), 0),
        Marker::U8 => number(1, inp, |v: nat| TokenModel::U8(v as u8)),
        Marker::U16 => number(2, inp, |v: nat| TokenModel::U16(v as u16)),
        Marker::U32 => number(4, inp, |v: nat| TokenModel::U32(v as u32)),
        Marker::U64 => number(8, inp, |v: nat| TokenModel::U64(v as u64)),
        Marker::I8 => number(1, inp, |v: nat| TokenModel::I8(crate::marker::signed8(v as u8))),
        Marker::I16 => number(2, inp, |v: nat| TokenModel::I16(crate::marker::signed16(v as u16))),
        Marker::I32 => number(4, inp, |v: nat| TokenModel::I32(crate::marker::signed32(v as u32))),
        Marker::I64 => number(8, inp, |v: nat| TokenModel::I64(crate::marker::signed64(v as u64))),
        Marker::F32 => number(4, inp, |v: nat| TokenModel::F32(v as u32)),
        Marker::F64 => number(8, inp, |v: nat| TokenModel::F64(v as u64)),
        Marker::FixStr(n) => str_after(0, n as nat, inp),
        Marker::Str8 => sized(1, inp, true),
        Marker::Str16 => sized(2, inp, true),
        Marker::Str32 => sized(4, inp, true),
        Marker::Bin8 => sized(1, inp, false),
        Marker::Bin16 => sized(2, inp, false),
        Marker::Bin32 => sized(4, inp, false),
        Marker::FixArray(n) => container(0, n as nat, inp, depth, false),
        Marker::Array16 => container(2, 0, inp, depth, false),
        Marker::Array32 => container(4, 0, inp, depth, false),
        Marker::FixMap(n) => container(0, n as nat, inp, depth, true),
        Marker::Map16 => container(2, 0, inp, depth, true),
        Marker::Map32 => container(4, 0, inp, depth, true),
        _ => (Err(Error::TypeMismatch(m)), 0),
    }
}

/// The next item of `inp`, after a marker already read (`cached`) if there is one,
/// and how many bytes of `inp` it takes.
pub open spec fn next_spec(cached: Option<Marker>, inp: Seq<u8>, depth: usize) -> (Result<TokenModel, Error>, nat) {
    match cached {
        Some(m) => after_marker(m, inp, depth),
        None => if inp.len() == 0 {
            (Err(Error::InvalidMarkerRead), 0)
        } else {
            let r = after_marker(marker_spec(inp[0]), inp.skip(1), depth);
            (r.0, r.1 + 1)
        },
    }
}

} // verus!
