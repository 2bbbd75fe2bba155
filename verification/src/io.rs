//! The codec's I/O abstraction: readers that produce bytes, with an
//! optional zero-copy borrow, and writers that accept bytes.

use vstd::prelude::*;

use crate::error::Error;
use crate::error::ErrorCode;

verus! {

/// Bytes handed out by a reader: either a slice borrowed from the reader's
/// backing storage (zero-copy) or a slice into the caller-supplied scratch
/// buffer the reader copied into. Callers must handle both; the
/// discriminator is preserved exactly as the reader produced it.
pub enum Reference<'a> {
    /// A slice directly into the reader's input.
    Borrowed(&'a [u8]),
    /// A slice into the caller's scratch buffer.
    Copied(&'a [u8]),
}

impl<'a> Reference<'a> {
    /// The bytes referred to, whichever arm carries them.
    pub open spec fn bytes(&self) -> Seq<u8> {
        match self {
            Reference::Borrowed(s) => s@,
            Reference::Copied(s) => s@,
        }
    }

    /// The bytes referred to, whichever arm carries them.
    pub fn as_slice(&self) -> (r: &'a [u8])
        ensures
            r@ == self.bytes(),
    {
        match self {
            Reference::Borrowed(s) => s,
            Reference::Copied(s) => s,
        }
    }

    /// The referred-to bytes' length.
    pub fn len(&self) -> (r: usize)
        ensures
            r == self.bytes().len(),
    {
        self.as_slice().len()
    }

    /// True on the borrowed arm.
    pub fn is_borrowed(&self) -> (r: bool)
        ensures
            r == (self is Borrowed),
    {
        match self {
            Reference::Borrowed(_) => true,
            Reference::Copied(_) => false,
        }
    }
}

/// A reader producing the bytes of one input, in order.
///
/// The input and the read position are ghost state; every method's contract
/// is exact over them, so a decoder built on any well-formed reader behaves
/// as a function of the input alone. `read` either borrows from the backing
/// storage or copies into the caller's scratch: which one is fixed per
/// reader type, via [`Read::borrows`].
pub trait Read: Sized {
    /// The whole input this reader ranges over.
    spec fn input(&self) -> Seq<u8>;

    /// How many of the input's bytes were consumed so far.
    spec fn offset(&self) -> int;

    /// True when `read` hands out slices borrowed from the backing storage;
    /// false when it copies into the caller's scratch.
    spec fn borrows() -> bool;

    /// The reader's invariant.
    spec fn wf(&self) -> bool;

    /// A well-formed reader's position lies within its input, and the input
    /// is addressable.
    proof fn lemma_wf(&self)
        requires
            self.wf(),
        ensures
            0 <= self.offset() <= self.input().len(),
            self.input().len() <= usize::MAX,
    ;

    /// How many bytes of the input remain.
    fn remaining(&self) -> (r: usize)
        requires
            self.wf(),
        ensures
            r == self.input().len() - self.offset(),
    ;

    /// The next byte, without advancing. Fails exactly at the end of the
    /// input.
    fn peek_one(&self) -> (r: Result<u8, Error>)
        requires
            self.wf(),
        ensures
            r matches Ok(b) ==> self.offset() < self.input().len() && b
                == self.input()[self.offset()],
            r matches Err(e) ==> self.offset() == self.input().len() && e.code
                == ErrorCode::UnexpectedEndOfFile,
    ;

    /// The next byte, advancing by 1. Fails exactly at the end of the
    /// input.
    fn read_one(&mut self) -> (r: Result<u8, Error>)
        requires
            old(self).wf(),
        ensures
            final(self).wf(),
            final(self).input() == old(self).input(),
            r matches Ok(b) ==> old(self).offset() < old(self).input().len() && b
                == old(self).input()[old(self).offset()]
                && final(self).offset() == old(self).offset() + 1,
            r matches Err(e) ==> old(self).offset() == old(self).input().len()
                && final(self).offset() == old(self).offset()
                && e.code == ErrorCode::UnexpectedEndOfFile,
    ;

    /// Fills `buf` exactly with the next `buf.len()` bytes. Fails when
    /// fewer remain; the position is then unspecified (a caller treats the
    /// failure as fatal).
    fn read_into(&mut self, buf: &mut Vec<u8>) -> (r: Result<(), Error>)
        requires
            old(self).wf(),
        ensures
            final(self).wf(),
            final(self).input() == old(self).input(),
            final(buf)@.len() == old(buf)@.len(),
            old(self).offset() + old(buf)@.len() <= old(self).input().len() <==> r is Ok,
            r matches Ok(()) ==> final(self).offset() == old(self).offset() + old(buf)@.len()
                && final(buf)@ == old(self).input().subrange(
                old(self).offset(),
                old(self).offset() + old(buf)@.len() as int,
            ),
            r matches Err(e) ==> final(self).offset() >= old(self).offset() && e.code
                == ErrorCode::UnexpectedEndOfFile,
    ;

    /// The next `len` bytes, either borrowed from the backing storage or
    /// copied into `scratch` — per [`Read::borrows`]. Fails exactly when
    /// fewer remain, leaving the position unchanged.
    fn read<'s>(&'s mut self, len: usize, scratch: &'s mut Vec<u8>) -> (r: Result<
        Reference<'s>,
        Error,
    >)
        requires
            old(self).wf(),
        ensures
            final(self).wf(),
            final(self).input() == old(self).input(),
            old(self).offset() + len <= old(self).input().len() <==> r is Ok,
            r matches Ok(rf) ==> final(self).offset() == old(self).offset() + len && rf.bytes()
                == old(self).input().subrange(old(self).offset(), old(self).offset() + len) && (
            rf is Borrowed <==> Self::borrows()),
            r matches Err(e) ==> final(self).offset() == old(self).offset() && e.code
                == ErrorCode::UnexpectedEndOfFile,
    ;

    /// Advances past the next `len` bytes without materializing them. Fails
    /// exactly when fewer remain, leaving the position unchanged.
    fn skip(&mut self, len: usize) -> (r: Result<(), Error>)
        requires
            old(self).wf(),
        ensures
            final(self).wf(),
            final(self).input() == old(self).input(),
            old(self).offset() + len <= old(self).input().len() <==> r is Ok,
            r matches Ok(()) ==> final(self).offset() == old(self).offset() + len,
            r matches Err(e) ==> final(self).offset() == old(self).offset() && e.code
                == ErrorCode::UnexpectedEndOfFile,
    ;
}

/// A reader over an in-memory buffer; it always borrows.
pub struct SliceReader<'de> {
    /// The backing input buffer.
    pub input: &'de [u8],
    /// How many bytes were consumed.
    pub pos: usize,
}

impl<'de> SliceReader<'de> {
    /// Creates a reader over `input`, positioned at its start.
    pub fn new(input: &'de [u8]) -> (r: Self)
        ensures
            r.wf(),
            r.input() == input@,
            r.offset() == 0,
    {
        let len = input.len();
        proof {
            assert(input@.len() == len as int);
        }
        SliceReader { input, pos: 0 }
    }
}

impl<'de> Read for SliceReader<'de> {
    open spec fn input(&self) -> Seq<u8> {
        self.input@
    }

    open spec fn offset(&self) -> int {
        self.pos as int
    }

    open spec fn borrows() -> bool {
        true
    }

    open spec fn wf(&self) -> bool {
        self.pos <= self.input@.len() && self.input@.len() <= usize::MAX
    }

    proof fn lemma_wf(&self) {
    }

    fn remaining(&self) -> (r: usize) {
        self.input.len() - self.pos
    }

    fn peek_one(&self) -> (r: Result<u8, Error>) {
        if self.pos < self.input.len() {
            Ok(self.input[self.pos])
        } else {
            Err(Error::unexpected_end_of_file(None))
        }
    }

    fn read_one(&mut self) -> (r: Result<u8, Error>) {
        if self.pos < self.input.len() {
            let b = self.input[self.pos];
            self.pos = self.pos + 1;
            Ok(b)
        } else {
            Err(Error::unexpected_end_of_file(None))
        }
    }

    fn read_into(&mut self, buf: &mut Vec<u8>) -> (r: Result<(), Error>) {
        let n = buf.len();
        if n > self.input.len() - self.pos {
            return Err(Error::unexpected_end_of_file(None));
        }
        let mut i: usize = 0;
        while i < n
            invariant
                i <= n,
                n == buf@.len(),
                self.pos + n <= self.input@.len(),
                self.input@.len() <= usize::MAX,
                self.input@ == old(self).input@,
                self.pos == old(self).pos,
                forall|j: int|
                    0 <= j < i ==> buf@[j] == self.input@[self.pos + j],
            decreases n - i,
        {
            let b = self.input[self.pos + i];
            buf[i] = b;
            i = i + 1;
        }
        self.pos = self.pos + n;
        proof {
            assert(buf@ =~= old(self).input@.subrange(
                old(self).pos as int,
                old(self).pos + n as int,
            ));
        }
        Ok(())
    }

    fn read<'s>(&'s mut self, len: usize, scratch: &'s mut Vec<u8>) -> (r: Result<
        Reference<'s>,
        Error,
    >) {
        if len > self.input.len() - self.pos {
            return Err(Error::unexpected_end_of_file(None));
        }
        let s = vstd::slice::slice_subrange(self.input, self.pos, self.pos + len);
        self.pos = self.pos + len;
        Ok(Reference::Borrowed(s))
    }

    fn skip(&mut self, len: usize) -> (r: Result<(), Error>) {
        if len > self.input.len() - self.pos {
            return Err(Error::unexpected_end_of_file(None));
        }
        self.pos = self.pos + len;
        Ok(())
    }
}

/// A reader over an owned buffer, standing in for a streaming byte source:
/// it cannot let callers retain a borrow, so it always copies into the
/// caller's scratch.
pub struct VecReader {
    /// The owned input buffer.
    pub input: Vec<u8>,
    /// How many bytes were consumed.
    pub pos: usize,
}

impl VecReader {
    /// Creates a reader over `input`, positioned at its start.
    pub fn new(input: Vec<u8>) -> (r: Self)
        ensures
            r.wf(),
            r.input() == input@,
            r.offset() == 0,
    {
        let len = input.len();
        proof {
            assert(input@.len() == len as int);
        }
        VecReader { input, pos: 0 }
    }
}

impl Read for VecReader {
    open spec fn input(&self) -> Seq<u8> {
        self.input@
    }

    open spec fn offset(&self) -> int {
        self.pos as int
    }

    open spec fn borrows() -> bool {
        false
    }

    open spec fn wf(&self) -> bool {
        self.pos <= self.input@.len() && self.input@.len() <= usize::MAX
    }

    proof fn lemma_wf(&self) {
    }

    fn remaining(&self) -> (r: usize) {
        self.input.len() - self.pos
    }

    fn peek_one(&self) -> (r: Result<u8, Error>) {
        if self.pos < self.input.len() {
            Ok(self.input[self.pos])
        } else {
            Err(Error::unexpected_end_of_file(None))
        }
    }

    fn read_one(&mut self) -> (r: Result<u8, Error>) {
        if self.pos < self.input.len() {
            let b = self.input[self.pos];
            self.pos = self.pos + 1;
            Ok(b)
        } else {
            Err(Error::unexpected_end_of_file(None))
        }
    }

    fn read_into(&mut self, buf: &mut Vec<u8>) -> (r: Result<(), Error>) {
        let n = buf.len();
        if n > self.input.len() - self.pos {
            return Err(Error::unexpected_end_of_file(None));
        }
        let mut i: usize = 0;
        while i < n
            invariant
                i <= n,
                n == buf@.len(),
                self.pos + n <= self.input@.len(),
                self.input@.len() <= usize::MAX,
                self.input@ == old(self).input@,
                self.pos == old(self).pos,
                forall|j: int|
                    0 <= j < i ==> buf@[j] == self.input@[self.pos + j],
            decreases n - i,
        {
            let b = self.input[self.pos + i];
            buf[i] = b;
            i = i + 1;
        }
        self.pos = self.pos + n;
        proof {
            assert(buf@ =~= old(self).input@.subrange(
                old(self).pos as int,
                old(self).pos + n as int,
            ));
        }
        Ok(())
    }

    fn read<'s>(&'s mut self, len: usize, scratch: &'s mut Vec<u8>) -> (r: Result<
        Reference<'s>,
        Error,
    >) {
        if len > self.input.len() - self.pos {
            return Err(Error::unexpected_end_of_file(None));
        }
        scratch.clear();
        let mut i: usize = 0;
        while i < len
            invariant
                i <= len,
                self.pos + len <= self.input@.len(),
                self.input@.len() <= usize::MAX,
                self.input@ == old(self).input@,
                self.pos == old(self).pos,
                scratch@.len() == i,
                forall|j: int|
                    0 <= j < i ==> scratch@[j] == self.input@[self.pos + j],
            decreases len - i,
        {
            let b = self.input[self.pos + i];
            scratch.push(b);
            i = i + 1;
        }
        self.pos = self.pos + len;
        proof {
            assert(scratch@ =~= old(self).input@.subrange(
                old(self).pos as int,
                old(self).pos + len as int,
            ));
        }
        Ok(Reference::Copied(scratch.as_slice()))
    }

    fn skip(&mut self, len: usize) -> (r: Result<(), Error>) {
        if len > self.input.len() - self.pos {
            return Err(Error::unexpected_end_of_file(None));
        }
        self.pos = self.pos + len;
        Ok(())
    }
}

/// A sink accepting bytes from the encoder.
///
/// Sink failures surface as [`ErrorCode::IoError`]; a writer whose
/// [`Write::infallible`] holds never fails.
pub trait Write: Sized {
    /// Everything written so far.
    spec fn out(&self) -> Seq<u8>;

    /// True when this writer never reports a sink error.
    spec fn infallible() -> bool;

    /// The writer's invariant.
    spec fn wf(&self) -> bool;

    /// Writes a single byte.
    fn write_one(&mut self, byte: u8) -> (r: Result<(), Error>)
        requires
            old(self).wf(),
        ensures
            final(self).wf(),
            r matches Ok(()) ==> final(self).out() == old(self).out().push(byte),
            r matches Err(e) ==> final(self).out() == old(self).out() && e.code
                == ErrorCode::IoError,
            Self::infallible() ==> r is Ok,
    ;

    /// Writes all of `bytes`.
    fn write_all(&mut self, bytes: &[u8]) -> (r: Result<(), Error>)
        requires
            old(self).wf(),
        ensures
            final(self).wf(),
            r matches Ok(()) ==> final(self).out() == old(self).out() + bytes@,
            r matches Err(e) ==> e.code == ErrorCode::IoError,
            Self::infallible() ==> r is Ok,
    ;
}

/// A writer into an owned byte vector; it never fails.
pub struct VecWriter {
    /// Everything written so far.
    pub out: Vec<u8>,
}

impl VecWriter {
    /// Creates an empty writer.
    pub fn new() -> (r: Self)
        ensures
            r.wf(),
            r.out() == Seq::<u8>::empty(),
    {
        VecWriter { out: Vec::new() }
    }

    /// The written bytes, consuming the writer.
    pub fn into_vec(self) -> (r: Vec<u8>)
        ensures
            r@ == self.out(),
    {
        self.out
    }
}

impl Write for VecWriter {
    open spec fn out(&self) -> Seq<u8> {
        self.out@
    }

    open spec fn infallible() -> bool {
        true
    }

    open spec fn wf(&self) -> bool {
        true
    }

    fn write_one(&mut self, byte: u8) -> (r: Result<(), Error>) {
        self.out.push(byte);
        Ok(())
    }

    fn write_all(&mut self, bytes: &[u8]) -> (r: Result<(), Error>) {
        let n = bytes.len();
        let mut i: usize = 0;
        while i < n
            invariant
                i <= n,
                n == bytes@.len(),
                self.out@ == old(self).out@ + bytes@.subrange(0, i as int),
            decreases n - i,
        {
            let b = bytes[i];
            self.out.push(b);
            i = i + 1;
        }
        proof {
            assert(bytes@.subrange(0, n as int) =~= bytes@);
        }
        Ok(())
    }
}

} // verus!
