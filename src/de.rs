use vstd::prelude::*;

use rmp::Marker;
use vstd::string::StringSliceAdditionalSpecFns;
use vstd::utf8::valid_utf8;

use crate::error::Error;
use crate::marker::{
    be_u16, be_u32, be_u64, be_value, marker_spec, to_i16, to_i32, to_i64, to_i8,
};
use crate::read::{ReadReader, ReadRefReader, ReadSlice, Reference};
use crate::token::{after_marker, bin_after, container, next_spec, prefixed, sized, str_after, StrRef, Token, TokenModel};

verus! {

/// How deep containers may nest unless set otherwise.
pub const DEFAULT_MAX_DEPTH: usize = 1024;

/// Dropping a prefix and then another is dropping both at once.
pub proof fn lemma_skip_skip(s: Seq<u8>, a: int, b: int)
    requires
        0 <= a,
        0 <= b,
        a + b <= s.len(),
    ensures
        s.skip(a).skip(b) == s.skip(a + b),
{
    assert(s.skip(a).skip(b) =~= s.skip(a + b));
}

/// Whether `r` is what `expected` describes, for a source that held `before` and now
/// holds `after`.
pub open spec fn token_result<'b, 'c>(
    r: Result<Token<'b, 'c>, Error>,
    expected: (Result<TokenModel, Error>, nat),
    before: Seq<u8>,
    after: Seq<u8>,
) -> bool {
    match expected.0 {
        Ok(t) => {
            &&& r matches Ok(tok) && tok@ == t && tok.borrowed()
            &&& expected.1 <= before.len()
            &&& after == before.skip(expected.1 as int)
        },
        Err(e) => r == Err::<Token<'b, 'c>, Error>(e),
    }
}

/// The UTF-8 string that `b` holds, if it is valid UTF-8.
///
/// Relies on `std::str::from_utf8`: it succeeds exactly on valid UTF-8, and the string
/// it returns is made of the given bytes.
#[verifier::external_body]
fn utf8_str(b: &[u8]) -> (r: Option<&str>)
    ensures
        r is Some <==> valid_utf8(b@),
        r matches Some(s) ==> s.spec_bytes() == b@,
{
    std::str::from_utf8(b).ok()
}

/// The big-endian number that the bytes of `b` spell.
fn uint_of(b: &[u8]) -> (r: u64)
    requires
        b@.len() == 1 || b@.len() == 2 || b@.len() == 4 || b@.len() == 8,
    ensures
        r as nat == be_value(b@),
{
    if b.len() == 1 {
        assert(be_value(b@.drop_last()) == 0);
        b[0] as u64
    } else if b.len() == 2 {
        be_u16(b) as u64
    } else if b.len() == 4 {
        be_u32(b) as u64
    } else {
        be_u64(b)
    }
}

/// The marker to dispatch next: the one read ahead, or else the first byte of `inp`;
/// with the bytes of `inp` that follow it.
pub open spec fn next_marker(cached: Option<Marker>, inp: Seq<u8>) -> Option<(Marker, Seq<u8>)> {
    match cached {
        Some(m) => Some((m, inp)),
        None => if inp.len() == 0 {
            None
        } else {
            Some((marker_spec(inp[0]), inp.skip(1)))
        },
    }
}

/// What decoding an optional value finds: whether a value is present, the marker then
/// read ahead, and how many bytes of `inp` were read.
pub open spec fn option_spec(cached: Option<Marker>, inp: Seq<u8>) -> (Result<bool, Error>, Option<Marker>, nat) {
    let used: nat = if cached is Some { 0 } else { 1 };
    match next_marker(cached, inp) {
        None => (Err(Error::InvalidMarkerRead), None, 0),
        Some((m, _)) => if m == Marker::Null {
            (Ok(false), None, used)
        } else {
            (Ok(true), Some(m), used)
        },
    }
}

/// How an enum value is written after marker `m`: `Some` index for a bare index, `None`
/// for a map of one entry; with how many bytes of `inp` follow the marker.
pub open spec fn enum_after(m: Marker, inp: Seq<u8>, depth: usize) -> (Result<Option<u32>, Error>, nat) {
    match m {
        Marker::FixPos(v) => (Ok(Some(v as u32)), 0),
        Marker::FixMap(n) => if n != 1 {
            (Err(Error::TypeMismatch(m)), 0)
        } else if depth == 0 {
            (Err(Error::DepthLimitExceeded), 0)
        } else {
            (Ok(None), 0)
        },
        Marker::U8 => match prefixed(1, inp) {
            Some(v) => (Ok(Some(v as u32)), 1),
            None => (Err(Error::InvalidDataRead), 0),
        },
        Marker::U16 => match prefixed(2, inp) {
            Some(v) => (Ok(Some(v as u32)), 2),
            None => (Err(Error::InvalidDataRead), 0),
        },
        Marker::U32 => match prefixed(4, inp) {
            Some(v) => (Ok(Some(v as u32)), 4),
            None => (Err(Error::InvalidDataRead), 0),
        },
        _ => (Err(Error::TypeMismatch(m)), 0),
    }
}

/// How the next enum value of `inp` is written, and how many bytes of `inp` that takes.
pub open spec fn enum_spec(cached: Option<Marker>, inp: Seq<u8>, depth: usize) -> (Result<Option<u32>, Error>, nat) {
    let used: nat = if cached is Some { 0 } else { 1 };
    match next_marker(cached, inp) {
        None => (Err(Error::InvalidMarkerRead), 0),
        Some((m, rest)) => {
            let r = enum_after(m, rest, depth);
            (r.0, r.1 + used)
        },
    }
}

/// The array head that stands in for the empty payload of a variant written as a map,
/// after marker `m`: how many bytes of `inp` follow the marker.
pub open spec fn array_head_after(m: Marker, inp: Seq<u8>) -> (Result<(), Error>, nat) {
    match m {
        Marker::FixArray(_) => (Ok(()), 0),
        Marker::Array16 => if inp.len() >= 2 { (Ok(()), 2) } else { (Err(Error::InvalidDataRead), 0) },
        Marker::Array32 => if inp.len() >= 4 { (Ok(()), 4) } else { (Err(Error::InvalidDataRead), 0) },
        _ => (Err(Error::TypeMismatch(m)), 0),
    }
}

/// The next array head of `inp`, and how many bytes of `inp` it takes.
pub open spec fn array_head_spec(cached: Option<Marker>, inp: Seq<u8>) -> (Result<(), Error>, nat) {
    let used: nat = if cached is Some { 0 } else { 1 };
    match next_marker(cached, inp) {
        None => (Err(Error::InvalidMarkerRead), 0),
        Some((m, rest)) => {
            let r = array_head_after(m, rest);
            (r.0, r.1 + used)
        },
    }
}

/// The outcome of a string payload that is not valid UTF-8, given what the consumer made
/// of it as raw bytes: their value where it took them, else the UTF-8 error.
pub fn utf8_fallback<T>(as_bytes: Result<T, Error>) -> (r: Result<T, Error>)
    ensures
        as_bytes is Ok ==> r == as_bytes,
        as_bytes is Err ==> r == Err::<T, Error>(Error::Utf8Error),
{
    match as_bytes {
        Ok(v) => Ok(v),
        Err(_) => Err(Error::Utf8Error),
    }
}

/// A decoder of MessagePack data from a byte source.
///
/// It holds at most one marker that was read ahead while an optional value was decoded,
/// and a budget for how much deeper containers may still nest.
#[derive(Debug)]
pub struct Deserializer<R> {
    rd: R,
    marker: Option<Marker>,
    depth: usize,
}

impl<R> Deserializer<R> {
    /// The byte source.
    pub closed spec fn source(&self) -> R {
        self.rd
    }

    /// The marker read ahead and not yet dispatched, if any.
    pub closed spec fn cached(&self) -> Option<Marker> {
        self.marker
    }

    /// How many more levels of containers may be entered.
    pub closed spec fn depth_left(&self) -> usize {
        self.depth
    }
}

impl<R> Deserializer<ReadReader<R>> {
    /// Decodes from a stream; the same as `new`.
    pub fn from_read(rd: R) -> (r: Self)
        ensures
            r.source().stream() == rd,
            r.cached() is None,
            r.depth_left() == DEFAULT_MAX_DEPTH,
    {
        Self::new(rd)
    }

    /// Decodes from a stream, copying what it reads.
    pub fn new(rd: R) -> (r: Self)
        ensures
            r.source().stream() == rd,
            r.cached() is None,
            r.depth_left() == DEFAULT_MAX_DEPTH,
    {
        Deserializer { rd: ReadReader::new(rd), marker: None, depth: DEFAULT_MAX_DEPTH }
    }

    /// The stream decoded from.
    pub fn get_ref(&self) -> (r: &R)
        ensures
            *r == self.source().stream(),
    {
        self.rd.get_ref()
    }

    /// The stream decoded from, for change.
    pub fn get_mut(&mut self) -> (r: &mut R)
        ensures
            *r == old(self).source().stream(),
            final(self).source().stream() == *final(r),
            final(self).cached() == old(self).cached(),
            final(self).depth_left() == old(self).depth_left(),
    {
        self.rd.get_mut()
    }

    /// Gives the stream back.
    pub fn into_inner(self) -> (r: R)
        ensures
            r == self.source().stream(),
    {
        self.rd.into_inner()
    }
}

impl<'de> Deserializer<ReadRefReader<'de>> {
    /// Decodes from a buffer in memory, borrowing strings and bytes from it.
    pub fn from_read_ref(rd: &'de [u8]) -> (r: Self)
        ensures
            r.source().input() == rd@,
            r.source().remaining() == rd@,
            r.cached() is None,
            r.depth_left() == DEFAULT_MAX_DEPTH,
    {
        Deserializer { rd: ReadRefReader::new(rd), marker: None, depth: DEFAULT_MAX_DEPTH }
    }

    /// The buffer decoded from.
    pub fn get_ref(&self) -> (r: &'de [u8])
        ensures
            r@ == self.source().input(),
    {
        self.rd.get_ref()
    }

    /// How many bytes of the buffer have been read.
    pub fn position(&self) -> (r: u64)
        ensures
            r == self.source().consumed(),
            self.source().remaining() == self.source().input().skip(r as int),
    {
        self.rd.position()
    }
}

impl<'de, R: ReadSlice<'de>> Deserializer<R> {
    /// Sets how deep containers may nest.
    pub fn set_max_depth(&mut self, depth: usize)
        ensures
            final(self).depth_left() == depth,
            final(self).source() == old(self).source(),
            final(self).cached() == old(self).cached(),
    {
        self.depth = depth;
    }

    /// Takes the marker read ahead, or reads the next one.
    fn read_marker(&mut self) -> (r: Result<Marker, Error>)
        ensures
            final(self).cached() is None,
            final(self).depth_left() == old(self).depth_left(),
            final(self).source().in_memory() == old(self).source().in_memory(),
            r matches Err(e) ==> e == Error::InvalidMarkerRead,
            old(self).cached() matches Some(m) ==> r == Ok::<Marker, Error>(m)
                && final(self).source() == old(self).source(),
            old(self).source().in_memory() && old(self).cached() is None ==> {
                let rem = old(self).source().remaining();
                if rem.len() == 0 {
                    r is Err
                } else {
                    &&& r == Ok::<Marker, Error>(marker_spec(rem[0]))
                    &&& final(self).source().remaining() == rem.skip(1)
                }
            },
    {
        match self.marker {
            Some(m) => {
                self.marker = None;
                Ok(m)
            },
            None => match self.rd.read_slice(1) {
                Ok(s) => {
                    let b = match s {
                        Reference::Borrowed(x) => x[0],
                        Reference::Copied(x) => x[0],
                    };
                    Ok(Marker::from_u8(b))
                },
                Err(_) => Err(Error::InvalidMarkerRead),
            },
        }
    }

    /// Reads a big-endian number of `w` bytes.
    fn read_data(&mut self, w: usize) -> (r: Result<u64, Error>)
        requires
            w == 1 || w == 2 || w == 4 || w == 8,
        ensures
            final(self).cached() == old(self).cached(),
            final(self).depth_left() == old(self).depth_left(),
            final(self).source().in_memory() == old(self).source().in_memory(),
            r matches Err(e) ==> e == Error::InvalidDataRead,
            r matches Ok(v) ==> (v as nat) < crate::marker::pow256(w as nat),
            r matches Ok(v) ==> w == 1 ==> v < 0x100,
            r matches Ok(v) ==> w == 2 ==> v < 0x1_0000,
            r matches Ok(v) ==> w == 4 ==> v < 0x1_0000_0000,
            old(self).source().in_memory() ==> {
                let rem = old(self).source().remaining();
                match prefixed(w as nat, rem) {
                    Some(v) => {
                        &&& r matches Ok(x) && x as nat == v
                        &&& final(self).source().remaining() == rem.skip(w as int)
                    },
                    None => r is Err,
                }
            },
    {
        match self.rd.read_slice(w) {
            Ok(s) => {
                let v = match s {
                    Reference::Borrowed(x) => uint_of(x),
                    Reference::Copied(x) => uint_of(x),
                };
                proof {
                    crate::marker::lemma_be_value_bound(s.bytes());
                    crate::marker::lemma_pow256_values();
                }
                Ok(v)
            },
            Err(e) => Err(e),
        }
    }
    /// Reads a string payload of `len` bytes.
    fn read_str_data<'a>(&'a mut self, len: u32) -> (r: Result<Token<'de, 'a>, Error>)
        ensures
            final(self).cached() == old(self).cached(),
            final(self).depth_left() == old(self).depth_left(),
            final(self).source().in_memory() == old(self).source().in_memory(),
            r matches Err(e) ==> e == Error::InvalidDataRead,
            r matches Ok(t) ==> t is Str || t is InvalidStr,
            old(self).source().in_memory() ==> token_result(
                r,
                str_after(0, len as nat, old(self).source().remaining()),
                old(self).source().remaining(),
                final(self).source().remaining(),
            ),
    {
        proof {
            let rem = self.source().remaining();
            assert(rem.skip(0) =~= rem);
        }
        match self.read_bin_data(len) {
            Ok(Reference::Borrowed(b)) => match utf8_str(b) {
                Some(s) => Ok(Token::Str(StrRef::Borrowed(s))),
                None => Ok(Token::InvalidStr(Reference::Borrowed(b))),
            },
            Ok(Reference::Copied(b)) => match utf8_str(b) {
                Some(s) => Ok(Token::Str(StrRef::Copied(s))),
                None => Ok(Token::InvalidStr(Reference::Copied(b))),
            },
            Err(e) => Err(e),
        }
    }

    /// Reads a payload of `len` bytes.
    fn read_bin_data<'a>(&'a mut self, len: u32) -> (r: Result<Reference<'de, 'a>, Error>)
        ensures
            final(self).cached() == old(self).cached(),
            final(self).depth_left() == old(self).depth_left(),
            final(self).source().in_memory() == old(self).source().in_memory(),
            r matches Ok(s) ==> s.bytes().len() == len,
            r matches Err(e) ==> e == Error::InvalidDataRead,
            old(self).source().in_memory() ==> {
                let rem = old(self).source().remaining();
                &&& r is Ok <==> len <= rem.len()
                &&& r matches Ok(s) ==> {
                    &&& s is Borrowed
                    &&& s.bytes() == rem.take(len as int)
                    &&& final(self).source().remaining() == rem.skip(len as int)
                }
            },
    {
        self.rd.read_slice(len as usize)
    }

    /// Reads a binary payload of `len` bytes.
    fn read_bytes<'a>(&'a mut self, len: u32) -> (r: Result<Token<'de, 'a>, Error>)
        ensures
            final(self).cached() == old(self).cached(),
            final(self).depth_left() == old(self).depth_left(),
            final(self).source().in_memory() == old(self).source().in_memory(),
            r matches Err(e) ==> e == Error::InvalidDataRead,
            r matches Ok(t) ==> t is Bytes,
            old(self).source().in_memory() ==> token_result(
                r,
                bin_after(0, len as nat, old(self).source().remaining()),
                old(self).source().remaining(),
                final(self).source().remaining(),
            ),
    {
        proof {
            let rem = self.source().remaining();
            assert(rem.skip(0) =~= rem);
        }
        match self.read_bin_data(len) {
            Ok(b) => Ok(Token::Bytes(b)),
            Err(e) => Err(e),
        }
    }

    /// Reads a string or binary payload whose length is a `w`-byte prefix.
    fn read_sized<'a>(&'a mut self, w: usize, is_str: bool) -> (r: Result<Token<'de, 'a>, Error>)
        requires
            w == 1 || w == 2 || w == 4,
        ensures
            final(self).cached() == old(self).cached(),
            final(self).depth_left() == old(self).depth_left(),
            r matches Ok(t) ==> (if is_str { t is Str || t is InvalidStr } else { t is Bytes }),
            final(self).source().in_memory() == old(self).source().in_memory(),
            old(self).source().in_memory() ==> token_result(
                r,
                sized(w as nat, old(self).source().remaining(), is_str),
                old(self).source().remaining(),
                final(self).source().remaining(),
            ),
    {
        let ghost rem = self.source().remaining();
        let len = match self.read_data(w) {
            Ok(v) => v as u32,
            Err(e) => return Err(e),
        };
        let ghost rem1 = self.source().remaining();
        proof {
            assert(rem1.skip(0) =~= rem1);
            if w + len <= rem.len() {
                lemma_skip_skip(rem, w as int, len as int);
            }
        }
        if is_str {
            self.read_str_data(len)
        } else {
            self.read_bytes(len)
        }
    }

    /// Reads the head of a container whose count is a `w`-byte prefix, or `n` where
    /// `w` is zero, and enters it.
    fn read_container<'a>(&'a mut self, w: usize, n: u32, is_map: bool) -> (r: Result<
        Token<'de, 'a>,
        Error,
    >)
        requires
            w == 0 || w == 2 || w == 4,
        ensures
            final(self).cached() == old(self).cached(),
            final(self).source().in_memory() == old(self).source().in_memory(),
            r is Err ==> final(self).depth_left() == old(self).depth_left(),
            r is Ok ==> final(self).depth_left() == old(self).depth_left() - 1,
            r matches Ok(t) ==> (if is_map { t is MapLen } else { t is ArrayLen }),
            old(self).source().in_memory() ==> token_result(
                r,
                container(w as nat, n as nat, old(self).source().remaining(), old(self).depth_left(), is_map),
                old(self).source().remaining(),
                final(self).source().remaining(),
            ),
    {
        if self.depth == 0 {
            return Err(Error::DepthLimitExceeded);
        }
        let ghost rem = self.source().remaining();
        proof {
            assert(rem.skip(0) =~= rem);
        }
        let count: u32 = if w == 0 {
            n
        } else {
            match self.read_data(w) {
                Ok(v) => v as u32,
                Err(e) => return Err(e),
            }
        };
        self.depth = self.depth - 1;
        if is_map {
            Ok(Token::MapLen(count))
        } else {
            Ok(Token::ArrayLen(count))
        }
    }

    /// Reads the item that follows `marker`.
    #[verifier::rlimit(50)]
    fn dispatch<'a>(&'a mut self, marker: Marker) -> (r: Result<Token<'de, 'a>, Error>)
        ensures
            final(self).cached() == old(self).cached(),
            final(self).source().in_memory() == old(self).source().in_memory(),
            r is Err ==> final(self).depth_left() == old(self).depth_left(),
            r matches Ok(t) ==> final(self).depth_left() == (if t is ArrayLen || t is MapLen {
                (old(self).depth_left() - 1) as usize
            } else {
                old(self).depth_left()
            }),
            old(self).source().in_memory() ==> token_result(
                r,
                after_marker(marker, old(self).source().remaining(), old(self).depth_left()),
                old(self).source().remaining(),
                final(self).source().remaining(),
            ),
    {
        let ghost rem = self.source().remaining();
        proof {
            assert(rem.skip(0) =~= rem);
        }
        match marker {
            Marker::Null => Ok(Token::Unit),
            Marker::True => Ok(Token::Bool(true)),
            Marker::False => Ok(Token::Bool(false)),
            Marker::FixPos(v) => Ok(Token::U8(v)),
            Marker::FixNeg(v) => Ok(Token::I8(v)),
            Marker::U8 => match self.read_data(1) {
                Ok(v) => Ok(Token::U8(v as u8)),
                Err(e) => Err(e),
            },
            Marker::U16 => match self.read_data(2) {
                Ok(v) => Ok(Token::U16(v as u16)),
                Err(e) => Err(e),
            },
            Marker::U32 => match self.read_data(4) {
                Ok(v) => Ok(Token::U32(v as u32)),
                Err(e) => Err(e),
            },
            Marker::U64 => match self.read_data(8) {
                Ok(v) => Ok(Token::U64(v)),
                Err(e) => Err(e),
            },
            Marker::I8 => match self.read_data(1) {
                Ok(v) => Ok(Token::I8(to_i8(v as u8))),
                Err(e) => Err(e),
            },
            Marker::I16 => match self.read_data(2) {
                Ok(v) => Ok(Token::I16(to_i16(v as u16))),
                Err(e) => Err(e),
            },
            Marker::I32 => match self.read_data(4) {
                Ok(v) => Ok(Token::I32(to_i32(v as u32))),
                Err(e) => Err(e),
            },
            Marker::I64 => match self.read_data(8) {
                Ok(v) => Ok(Token::I64(to_i64(v))),
                Err(e) => Err(e),
            },
            Marker::F32 => match self.read_data(4) {
                Ok(v) => Ok(Token::F32(v as u32)),
                Err(e) => Err(e),
            },
            Marker::F64 => match self.read_data(8) {
                Ok(v) => Ok(Token::F64(v)),
                Err(e) => Err(e),
            },
            Marker::FixStr(n) => self.read_str_data(n as u32),
            Marker::Str8 => self.read_sized(1, true),
            Marker::Str16 => self.read_sized(2, true),
            Marker::Str32 => self.read_sized(4, true),
            Marker::Bin8 => self.read_sized(1, false),
            Marker::Bin16 => self.read_sized(2, false),
            Marker::Bin32 => self.read_sized(4, false),
            Marker::FixArray(n) => self.read_container(0, n as u32, false),
            Marker::Array16 => self.read_container(2, 0, false),
            Marker::Array32 => self.read_container(4, 0, false),
            Marker::FixMap(n) => self.read_container(0, n as u32, true),
            Marker::Map16 => self.read_container(2, 0, true),
            Marker::Map32 => self.read_container(4, 0, true),
            _ => Err(Error::TypeMismatch(marker)),
        }
    }

    /// Decodes the next item, after the marker read ahead if there is one.
    ///
    /// Scalars come whole; strings and binary payloads come as slices, borrowed from
    /// an in-memory source; an array or a map comes as its head, and enters one level
    /// of nesting, which `end_container` leaves once its elements have been decoded.
    pub fn decode_any<'a>(&'a mut self) -> (r: Result<Token<'de, 'a>, Error>)
        ensures
            final(self).cached() is None,
            final(self).source().in_memory() == old(self).source().in_memory(),
            r is Err ==> final(self).depth_left() == old(self).depth_left(),
            r matches Ok(t) ==> final(self).depth_left() == (if t is ArrayLen || t is MapLen {
                (old(self).depth_left() - 1) as usize
            } else {
                old(self).depth_left()
            }),
            old(self).source().in_memory() ==> token_result(
                r,
                next_spec(old(self).cached(), old(self).source().remaining(), old(self).depth_left()),
                old(self).source().remaining(),
                final(self).source().remaining(),
            ),
    {
        let ghost rem = self.source().remaining();
        let ghost cached = self.cached();
        let marker = match self.read_marker() {
            Ok(m) => m,
            Err(e) => return Err(e),
        };
        let ghost rem1 = self.source().remaining();
        proof {
            if cached is None && rem.len() > 0 {
                let n = after_marker(marker, rem1, self.depth_left()).1;
                if n + 1 <= rem.len() {
                    lemma_skip_skip(rem, 1, n as int);
                }
            }
        }
        self.dispatch(marker)
    }

    /// Decodes the start of an optional value: false for nil, which it consumes; true
    /// otherwise, keeping the marker it read for the next decode, which reads the value.
    pub fn decode_option(&mut self) -> (r: Result<bool, Error>)
        ensures
            final(self).depth_left() == old(self).depth_left(),
            final(self).source().in_memory() == old(self).source().in_memory(),
            r matches Err(e) ==> e == Error::InvalidMarkerRead,
            r == Ok::<bool, Error>(true) <==> final(self).cached() is Some,
            old(self).cached() is Some ==> final(self).source() == old(self).source(),
            old(self).source().in_memory() ==> {
                let rem = old(self).source().remaining();
                let expected = option_spec(old(self).cached(), rem);
                &&& r == expected.0
                &&& final(self).cached() == expected.1
                &&& r is Ok ==> final(self).source().remaining() == rem.skip(expected.2 as int)
            },
    {
        let marker = match self.read_marker() {
            Ok(m) => m,
            Err(e) => return Err(e),
        };
        match marker {
            Marker::Null => Ok(false),
            _ => {
                self.marker = Some(marker);
                Ok(true)
            },
        }
    }

    /// Decodes how an enum value is written: a bare index, as a non-negative fixint or
    /// an 8, 16 or 32-bit unsigned integer, for a variant without payload; or a map of
    /// exactly one entry, whose key and payload follow, and which enters one level of
    /// nesting that `end_container` leaves.
    pub fn decode_enum(&mut self) -> (r: Result<crate::access::EnumAccess, Error>)
        ensures
            final(self).cached() is None,
            final(self).source().in_memory() == old(self).source().in_memory(),
            r matches Ok(a) && a is Keyed ==> final(self).depth_left() == old(self).depth_left() - 1,
            !(r matches Ok(a) && a is Keyed) ==> final(self).depth_left() == old(self).depth_left(),
            old(self).source().in_memory() ==> {
                let rem = old(self).source().remaining();
                let expected = enum_spec(old(self).cached(), rem, old(self).depth_left());
                match expected.0 {
                    Ok(i) => r matches Ok(a) && a.index() == i && final(self).source().remaining()
                        == rem.skip(expected.1 as int),
                    Err(e) => r matches Err(x) && x == e,
                }
            },
    {
        let ghost rem = self.source().remaining();
        let ghost cached = self.cached();
        let marker = match self.read_marker() {
            Ok(m) => m,
            Err(e) => return Err(e),
        };
        let ghost rem1 = self.source().remaining();
        let idx: u32 = match marker {
            Marker::FixPos(v) => v as u32,
            Marker::FixMap(1) => {
                if self.depth == 0 {
                    return Err(Error::DepthLimitExceeded);
                }
                self.depth = self.depth - 1;
                return Ok(crate::access::EnumAccess::Keyed(crate::access::VariantAccess::new()));
            },
            Marker::U8 => match self.read_data(1) {
                Ok(v) => v as u32,
                Err(e) => return Err(e),
            },
            Marker::U16 => match self.read_data(2) {
                Ok(v) => v as u32,
                Err(e) => return Err(e),
            },
            Marker::U32 => match self.read_data(4) {
                Ok(v) => v as u32,
                Err(e) => return Err(e),
            },
            _ => return Err(Error::TypeMismatch(marker)),
        };
        proof {
            if cached is None && self.source().in_memory() {
                let n = enum_after(marker, rem1, self.depth_left()).1;
                lemma_skip_skip(rem, 1, n as int);
            }
        }
        Ok(crate::access::EnumAccess::Unit(crate::access::UnitVariantAccess::new(idx)))
    }

    /// Reads and drops the head of an array, which stands in for the empty payload of a
    /// variant without payload that was written as a map.
    pub(crate) fn read_array_head(&mut self) -> (r: Result<(), Error>)
        ensures
            final(self).cached() is None,
            final(self).depth_left() == old(self).depth_left(),
            final(self).source().in_memory() == old(self).source().in_memory(),
            old(self).source().in_memory() ==> {
                let rem = old(self).source().remaining();
                let expected = array_head_spec(old(self).cached(), rem);
                &&& r == expected.0
                &&& r is Ok ==> final(self).source().remaining() == rem.skip(expected.1 as int)
            },
    {
        let ghost rem = self.source().remaining();
        let ghost cached = self.cached();
        let marker = match self.read_marker() {
            Ok(m) => m,
            Err(e) => return Err(e),
        };
        let w: usize = match marker {
            Marker::FixArray(_) => 0,
            Marker::Array16 => 2,
            Marker::Array32 => 4,
            _ => return Err(Error::TypeMismatch(marker)),
        };
        if w > 0 {
            match self.read_data(w) {
                Ok(_) => {},
                Err(e) => return Err(e),
            }
        }
        proof {
            if cached is None && self.source().in_memory() {
                lemma_skip_skip(rem, 1, w as int);
            }
        }
        Ok(())
    }

    /// Leaves one level of nesting, once the elements of an array or a map, or the
    /// payload of a variant written as a map, have been decoded.
    pub fn end_container(&mut self)
        ensures
            final(self).source() == old(self).source(),
            final(self).cached() == old(self).cached(),
            final(self).depth_left() == (if old(self).depth_left() < usize::MAX {
                (old(self).depth_left() + 1) as usize
            } else {
                old(self).depth_left()
            }),
    {
        if self.depth < usize::MAX {
            self.depth = self.depth + 1;
        }
    }
}

} // verus!
