use vstd::prelude::*;

use crate::error::Error;

verus! {

/// Bytes handed out by a byte source: either borrowed from the caller's buffer, or
/// copied into the source's own scratch space and valid only until the next read.
#[derive(Clone, Copy, Debug, PartialEq)]
pub enum Reference<'b, 'c> {
    /// Borrowed from the input buffer.
    Borrowed(&'b [u8]),
    /// Copied into a scratch buffer.
    Copied(&'c [u8]),
}

impl<'b, 'c> Reference<'b, 'c> {
    /// The bytes referred to.
    pub open spec fn bytes(self) -> Seq<u8> {
        match self {
            Reference::Borrowed(b) => b@,
            Reference::Copied(c) => c@,
        }
    }
}

/// A byte source that hands out slices of a requested length.
pub trait ReadSlice<'de> {
    /// Whether the source is a buffer in memory: the bytes still to come are then known,
    /// and slices are borrowed from it rather than copied.
    spec fn in_memory(&self) -> bool;

    /// The bytes still to come, where `in_memory` holds.
    spec fn remaining(&self) -> Seq<u8>;

    /// Reads exactly `len` bytes.
    fn read_slice<'a>(&'a mut self, len: usize) -> (r: Result<Reference<'de, 'a>, Error>)
        ensures
            final(self).in_memory() == old(self).in_memory(),
            r matches Ok(s) ==> s.bytes().len() == len,
            r matches Err(e) ==> e == Error::InvalidDataRead,
            old(self).in_memory() ==> {
                &&& r is Ok <==> len <= old(self).remaining().len()
                &&& r matches Ok(s) ==> {
                    &&& s is Borrowed
                    &&& s.bytes() == old(self).remaining().take(len as int)
                    &&& final(self).remaining() == old(self).remaining().skip(len as int)
                }
            },
    ;
}

/// A sequential stream of bytes, such as a file or a socket.
pub trait ByteStream {
    /// Fills `buf` completely from the stream; false where the stream failed or ended
    /// before `buf` was full.
    fn read_exact_into(&mut self, buf: &mut [u8]) -> (ok: bool)
        ensures
            final(buf)@.len() == old(buf)@.len(),
    ;
}

/// A byte source over a stream, copying what it reads into a scratch buffer.
#[derive(Debug)]
pub struct ReadReader<R> {
    rd: R,
    buf: Vec<u8>,
}

impl<R> ReadReader<R> {
    /// The wrapped stream.
    pub closed spec fn stream(&self) -> R {
        self.rd
    }

    /// Wraps a stream.
    pub fn new(rd: R) -> (r: Self)
        ensures
            r.stream() == rd,
    {
        ReadReader { rd, buf: Vec::with_capacity(128) }
    }

    /// The wrapped stream.
    pub fn get_ref(&self) -> (r: &R)
        ensures
            *r == self.stream(),
    {
        &self.rd
    }

    /// The wrapped stream, for change.
    pub fn get_mut(&mut self) -> (r: &mut R)
        ensures
            *r == old(self).stream(),
            final(self).stream() == *final(r),
    {
        &mut self.rd
    }

    /// Gives the wrapped stream back.
    pub fn into_inner(self) -> (r: R)
        ensures
            r == self.stream(),
    {
        self.rd
    }
}

impl<'de, R: ByteStream> ReadSlice<'de> for ReadReader<R> {
    open spec fn in_memory(&self) -> bool {
        false
    }

    open spec fn remaining(&self) -> Seq<u8> {
        Seq::empty()
    }

    fn read_slice<'a>(&'a mut self, len: usize) -> (r: Result<Reference<'de, 'a>, Error>) {
        self.buf.resize(len, 0u8);
        if self.rd.read_exact_into(self.buf.as_mut_slice()) {
            Ok(Reference::Copied(self.buf.as_slice()))
        } else {
            Err(Error::InvalidDataRead)
        }
    }
}

/// A byte source over a borrowed buffer, handing out sub-slices of it without copying.
#[derive(Debug)]
pub struct ReadRefReader<'a> {
    whole: &'a [u8],
    buf: &'a [u8],
}

impl<'a> ReadRefReader<'a> {
    /// The buffer as it was given.
    pub closed spec fn input(&self) -> Seq<u8> {
        self.whole@
    }

    /// How many bytes have been read.
    pub closed spec fn consumed(&self) -> nat {
        (self.whole@.len() - self.buf@.len()) as nat
    }

    /// The bytes not yet read are the end of the buffer that was given.
    #[verifier::type_invariant]
    closed spec fn wf(&self) -> bool {
        &&& self.buf@.len() <= self.whole@.len()
        &&& self.buf@ == self.whole@.skip(self.whole@.len() - self.buf@.len())
    }

    /// Reads from the start of `rd`.
    pub fn new(rd: &'a [u8]) -> (r: Self)
        ensures
            r.input() == rd@,
            r.remaining() == rd@,
            r.consumed() == 0,
    {
        assert(rd@.skip(0) =~= rd@);
        ReadRefReader { whole: rd, buf: rd }
    }

    /// The buffer as it was given.
    pub fn get_ref(&self) -> (r: &'a [u8])
        ensures
            r@ == self.input(),
    {
        self.whole
    }

    /// How many bytes have been read.
    pub fn position(&self) -> (r: u64)
        ensures
            r == self.consumed(),
            self.remaining() == self.input().skip(r as int),
    {
        proof {
            use_type_invariant(self);
        }
        (self.whole.len() - self.buf.len()) as u64
    }
}

impl<'a> ByteStream for ReadRefReader<'a> {
    fn read_exact_into(&mut self, buf: &mut [u8]) -> (ok: bool) {
        if buf.len() > self.buf.len() {
            return false;
        }
        proof {
            use_type_invariant(&*self);
        }
        let (a, b) = self.buf.split_at(buf.len());
        let n = buf.len();
        let mut i: usize = 0;
        while i < n
            invariant
                buf@.len() == n,
                a@.len() == n,
                i <= n,
            decreases n - i,
        {
            buf[i] = a[i];
            i = i + 1;
        }
        assert(b@ =~= self.whole@.skip(self.whole@.len() - b@.len()));
        self.buf = b;
        true
    }
}

impl<'de> ReadSlice<'de> for ReadRefReader<'de> {
    open spec fn in_memory(&self) -> bool {
        true
    }

    closed spec fn remaining(&self) -> Seq<u8> {
        self.buf@
    }

    fn read_slice<'a>(&'a mut self, len: usize) -> (r: Result<Reference<'de, 'a>, Error>) {
        if len > self.buf.len() {
            return Err(Error::InvalidDataRead);
        }
        proof {
            use_type_invariant(&*self);
        }
        let (a, b) = self.buf.split_at(len);
        assert(b@ =~= self.whole@.skip(self.whole@.len() - b@.len()));
        self.buf = b;
        Ok(Reference::Borrowed(a))
    }
}

} // verus!
