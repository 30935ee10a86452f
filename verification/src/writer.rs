//! A typed writer composed over a minimal backend capability, and a bounded
//! in-memory backend.

use crate::errors::Error;
use crate::message::MessageWrite;
use crate::wire::le_bytes;
use crate::wire::varint_enc;
use crate::wire::zigzag_enc64;
use crate::wire::zigzag_wire32;
use byteorder_lite::ByteOrder;
use vstd::prelude::*;
use vstd::string::StringSliceAdditionalSpecFns;

verus! {

/// The sink behind a [`Writer`]: the minimal set of byte and fixed-width
/// little-endian write primitives. A bounded buffer is one backend
/// ([`BytesWriter`]); any streaming byte sink can supply another.
///
/// `out()` is the sequence of bytes the backend has accepted so far;
/// `rest()` the unwritten remainder behind it, which every accepted byte
/// consumes from the front; `can_write(n)` says that the next `n` bytes are
/// owed to succeed, and `must_fail(n)` that they are bound to fail;
/// `is_write_err(e)` says which errors a failed write may report. A failed
/// primitive leaves the backend unchanged: no partial writes occur.
pub trait WriterBackend: Sized {
    /// The bytes accepted so far. The default says nothing; a backend that
    /// verified code writes through redefines it.
    open spec fn out(&self) -> Seq<u8> {
        Seq::empty()
    }

    /// Accepting `n` more bytes is guaranteed to succeed. The default never
    /// promises.
    open spec fn can_write(&self, n: nat) -> bool {
        false
    }

    /// The errors a failed write may report. The default allows any.
    open spec fn is_write_err(e: Error) -> bool {
        true
    }

    /// Accepting `n` more bytes is bound to fail. The default never
    /// condemns; a bounded backend redefines it as running out of room.
    open spec fn must_fail(&self, n: nat) -> bool {
        false
    }

    /// The unwritten remainder behind the backend: what a bounded buffer
    /// still holds past its cursor. The default is empty.
    open spec fn rest(&self) -> Seq<u8> {
        Seq::empty()
    }

    /// Writes a single byte.
    fn pb_write_u8(&mut self, x: u8) -> (r: Result<(), Error>)
        ensures
            r is Ok ==> final(self).out() == old(self).out().push(x),
            r is Ok ==> forall|m: nat|
                old(self).can_write(m + 1) ==> final(self).can_write(m),
            r is Ok ==> !old(self).must_fail(1) && (forall|m: nat|
                old(self).must_fail((m + 1) as nat) ==> final(self).must_fail(m)),
            r is Ok ==> old(self).rest().len() >= 1 && final(self).rest() == old(self).rest().skip(1),
            r matches Err(e) ==> *final(self) == *old(self) && Self::is_write_err(e) && (forall|
                n: nat,
            |
                n >= 1 ==> !old(self).can_write(n)),
    ;

    /// Writes a `u32` as four little-endian bytes.
    fn pb_write_u32(&mut self, x: u32) -> (r: Result<(), Error>)
        ensures
            r is Ok ==> final(self).out() == old(self).out() + le_bytes(x as nat, 4),
            r is Ok ==> forall|m: nat|
                old(self).can_write(m + 4) ==> final(self).can_write(m),
            r is Ok ==> !old(self).must_fail(4) && (forall|m: nat|
                old(self).must_fail((m + 4) as nat) ==> final(self).must_fail(m)),
            r is Ok ==> old(self).rest().len() >= 4 && final(self).rest() == old(self).rest().skip(4),
            r matches Err(e) ==> *final(self) == *old(self) && Self::is_write_err(e) && (forall|
                n: nat,
            |
                n >= 4 ==> !old(self).can_write(n)),
    ;

    /// Writes an `i32` as four little-endian bytes, two's complement.
    fn pb_write_i32(&mut self, x: i32) -> (r: Result<(), Error>)
        ensures
            r is Ok ==> final(self).out() == old(self).out() + le_bytes((x as u32) as nat, 4),
            r is Ok ==> forall|m: nat|
                old(self).can_write(m + 4) ==> final(self).can_write(m),
            r is Ok ==> !old(self).must_fail(4) && (forall|m: nat|
                old(self).must_fail((m + 4) as nat) ==> final(self).must_fail(m)),
            r is Ok ==> old(self).rest().len() >= 4 && final(self).rest() == old(self).rest().skip(4),
            r matches Err(e) ==> *final(self) == *old(self) && Self::is_write_err(e) && (forall|
                n: nat,
            |
                n >= 4 ==> !old(self).can_write(n)),
    ;

    /// Writes a `u64` as eight little-endian bytes.
    fn pb_write_u64(&mut self, x: u64) -> (r: Result<(), Error>)
        ensures
            r is Ok ==> final(self).out() == old(self).out() + le_bytes(x as nat, 8),
            r is Ok ==> forall|m: nat|
                old(self).can_write(m + 8) ==> final(self).can_write(m),
            r is Ok ==> !old(self).must_fail(8) && (forall|m: nat|
                old(self).must_fail((m + 8) as nat) ==> final(self).must_fail(m)),
            r is Ok ==> old(self).rest().len() >= 8 && final(self).rest() == old(self).rest().skip(8),
            r matches Err(e) ==> *final(self) == *old(self) && Self::is_write_err(e) && (forall|
                n: nat,
            |
                n >= 8 ==> !old(self).can_write(n)),
    ;

    /// Writes an `i64` as eight little-endian bytes, two's complement.
    fn pb_write_i64(&mut self, x: i64) -> (r: Result<(), Error>)
        ensures
            r is Ok ==> final(self).out() == old(self).out() + le_bytes((x as u64) as nat, 8),
            r is Ok ==> forall|m: nat|
                old(self).can_write(m + 8) ==> final(self).can_write(m),
            r is Ok ==> !old(self).must_fail(8) && (forall|m: nat|
                old(self).must_fail((m + 8) as nat) ==> final(self).must_fail(m)),
            r is Ok ==> old(self).rest().len() >= 8 && final(self).rest() == old(self).rest().skip(8),
            r matches Err(e) ==> *final(self) == *old(self) && Self::is_write_err(e) && (forall|
                n: nat,
            |
                n >= 8 ==> !old(self).can_write(n)),
    ;

    /// Writes every byte of `buf`.
    fn pb_write_all(&mut self, buf: &[u8]) -> (r: Result<(), Error>)
        ensures
            r is Ok ==> final(self).out() == old(self).out() + buf@,
            r is Ok ==> forall|m: nat|
                old(self).can_write(m + buf@.len()) ==> final(self).can_write(m),
            r is Ok ==> !old(self).must_fail(buf@.len() as nat) && (forall|m: nat|
                old(self).must_fail((m + buf@.len()) as nat) ==> final(self).must_fail(m)),
            r is Ok ==> old(self).rest().len() >= buf@.len() && final(self).rest() == old(
                self,
            ).rest().skip(buf@.len() as int),
            r matches Err(e) ==> *final(self) == *old(self) && Self::is_write_err(e) && (forall|
                n: nat,
            |
                n >= buf@.len() ==> !old(self).can_write(n)),
    ;
}

/// A bounded backend: an owned byte buffer and a monotonic cursor. Every
/// write that would run past the buffer's length fails with
/// [`Error::UnexpectedEndOfBuffer`] and changes nothing.
pub struct BytesWriter {
    buf: Vec<u8>,
    cursor: usize,
}

impl BytesWriter {
    /// The cursor: how many bytes have been written.
    pub closed spec fn spec_cursor(&self) -> int {
        self.cursor as int
    }

    /// Where the written part of the buffer ends: the cursor, which in any
    /// state a constructor or a write can reach lies within the buffer.
    pub closed spec fn spec_written(&self) -> int {
        if self.spec_cursor() <= self.spec_buf().len() {
            self.spec_cursor()
        } else {
            self.spec_buf().len() as int
        }
    }

    /// The whole underlying buffer, written and unwritten parts alike.
    pub closed spec fn spec_buf(&self) -> Seq<u8> {
        self.buf@
    }

    /// Creates a backend that writes into `buf` from its front.
    pub fn new(buf: Vec<u8>) -> (r: BytesWriter)
        ensures
            r.spec_cursor() == 0,
            r.spec_buf() == buf@,
    {
        BytesWriter { buf, cursor: 0 }
    }

    /// Hands the buffer back: the bytes written so far, then the unwritten
    /// remainder.
    pub fn into_inner(self) -> (r: Vec<u8>)
        ensures
            r@ == self.out() + self.rest(),
    {
        proof {
            assert(self.buf@ =~= self.out() + self.rest());
        }
        self.buf
    }
}

impl WriterBackend for BytesWriter {
    open spec fn out(&self) -> Seq<u8> {
        self.spec_buf().take(self.spec_written())
    }

    open spec fn can_write(&self, n: nat) -> bool {
        self.spec_cursor() + n <= self.spec_buf().len()
    }

    open spec fn is_write_err(e: Error) -> bool {
        e == Error::UnexpectedEndOfBuffer
    }

    open spec fn must_fail(&self, n: nat) -> bool {
        self.spec_cursor() + n > self.spec_buf().len()
    }

    open spec fn rest(&self) -> Seq<u8> {
        self.spec_buf().skip(self.spec_written())
    }

    fn pb_write_u8(&mut self, x: u8) -> (r: Result<(), Error>) {
        if self.cursor < self.buf.len() {
            self.buf.set(self.cursor, x);
            self.cursor = self.cursor + 1;
            proof {
                assert(self.out() =~= old(self).out().push(x));
                assert(self.rest() =~= old(self).rest().skip(1));
            }
            Ok(())
        } else {
            Err(Error::UnexpectedEndOfBuffer)
        }
    }

    fn pb_write_u32(&mut self, x: u32) -> (r: Result<(), Error>) {
        if 4 <= self.buf.len() && self.cursor <= self.buf.len() - 4 {
            le_write_u32(&mut self.buf, self.cursor, x);
            self.cursor = self.cursor + 4;
            proof {
                crate::wire::lemma_le_bytes_len(x as nat, 4);
                assert(self.out() =~= old(self).out() + le_bytes(x as nat, 4));
                assert(self.rest() =~= old(self).rest().skip(4));
            }
            Ok(())
        } else {
            Err(Error::UnexpectedEndOfBuffer)
        }
    }

    fn pb_write_i32(&mut self, x: i32) -> (r: Result<(), Error>) {
        if 4 <= self.buf.len() && self.cursor <= self.buf.len() - 4 {
            le_write_u32(&mut self.buf, self.cursor, x as u32);
            self.cursor = self.cursor + 4;
            proof {
                crate::wire::lemma_le_bytes_len((x as u32) as nat, 4);
                assert(self.out() =~= old(self).out() + le_bytes((x as u32) as nat, 4));
                assert(self.rest() =~= old(self).rest().skip(4));
            }
            Ok(())
        } else {
            Err(Error::UnexpectedEndOfBuffer)
        }
    }

    fn pb_write_u64(&mut self, x: u64) -> (r: Result<(), Error>) {
        if 8 <= self.buf.len() && self.cursor <= self.buf.len() - 8 {
            le_write_u64(&mut self.buf, self.cursor, x);
            self.cursor = self.cursor + 8;
            proof {
                crate::wire::lemma_le_bytes_len(x as nat, 8);
                assert(self.out() =~= old(self).out() + le_bytes(x as nat, 8));
                assert(self.rest() =~= old(self).rest().skip(8));
            }
            Ok(())
        } else {
            Err(Error::UnexpectedEndOfBuffer)
        }
    }

    fn pb_write_i64(&mut self, x: i64) -> (r: Result<(), Error>) {
        if 8 <= self.buf.len() && self.cursor <= self.buf.len() - 8 {
            le_write_u64(&mut self.buf, self.cursor, x as u64);
            self.cursor = self.cursor + 8;
            proof {
                crate::wire::lemma_le_bytes_len((x as u64) as nat, 8);
                assert(self.out() =~= old(self).out() + le_bytes((x as u64) as nat, 8));
                assert(self.rest() =~= old(self).rest().skip(8));
            }
            Ok(())
        } else {
            Err(Error::UnexpectedEndOfBuffer)
        }
    }

    fn pb_write_all(&mut self, buf: &[u8]) -> (r: Result<(), Error>) {
        if buf.len() <= self.buf.len() && self.cursor <= self.buf.len() - buf.len() {
            let mut j: usize = 0;
            while j < buf.len()
                invariant
                    0 <= j <= buf@.len(),
                    self.cursor == old(self).cursor,
                    self.cursor + buf@.len() <= self.buf.len(),
                    self.buf@.len() == old(self).buf@.len(),
                    self.buf@ =~= old(self).buf@.take(self.cursor as int) + buf@.take(j as int)
                        + old(self).buf@.skip(self.cursor + j),
                decreases buf@.len() - j,
            {
                self.buf.set(self.cursor + j, buf[j]);
                proof {
                    assert(self.buf@ =~= old(self).buf@.take(self.cursor as int) + buf@.take(
                        j + 1,
                    ) + old(self).buf@.skip(self.cursor + j + 1));
                }
                j = j + 1;
            }
            self.cursor = self.cursor + buf.len();
            proof {
                assert(self.out() =~= old(self).out() + buf@);
                assert(self.rest() =~= old(self).rest().skip(buf@.len() as int));
            }
            Ok(())
        } else {
            Err(Error::UnexpectedEndOfBuffer)
        }
    }
}

/// A typed protobuf writer over a backend `W`. Every typed operation
/// translates to one or more backend calls; the backend is the sole source
/// of failure.
pub struct Writer<W: WriterBackend> {
    inner: W,
}

impl<W: WriterBackend> Writer<W> {
    /// The bytes the writer has emitted so far.
    pub closed spec fn out(&self) -> Seq<u8> {
        self.inner.out()
    }

    /// Emitting `n` more bytes is guaranteed to succeed.
    pub closed spec fn can_write(&self, n: nat) -> bool {
        self.inner.can_write(n)
    }

    /// Emitting `n` more bytes is bound to fail.
    pub closed spec fn must_fail(&self, n: nat) -> bool {
        self.inner.must_fail(n)
    }

    /// The unwritten remainder behind the backend.
    pub closed spec fn rest(&self) -> Seq<u8> {
        self.inner.rest()
    }

    /// The errors a failed write may report.
    pub closed spec fn is_write_err(e: Error) -> bool {
        W::is_write_err(e)
    }

    /// Creates a writer over the given backend.
    pub fn new(w: W) -> (r: Writer<W>)
        ensures
            r.out() == w.out(),
            r.rest() == w.rest(),
            forall|n: nat| r.can_write(n) <==> w.can_write(n),
            forall|n: nat| r.must_fail(n) <==> w.must_fail(n),
    {
        Writer { inner: w }
    }

    /// Hands the backend back.
    pub fn into_inner(self) -> (r: W)
        ensures
            r.out() == self.out(),
            r.rest() == self.rest(),
    {
        self.inner
    }

    /// Writes a single byte, NOT varint-coded.
    pub fn write_u8(&mut self, byte: u8) -> (r: Result<(), Error>)
        ensures
            r is Ok ==> final(self).out() == old(self).out().push(byte),
            r is Ok ==> forall|m: nat| old(self).can_write(m + 1) ==> final(self).can_write(m),
            r is Ok ==> old(self).rest().len() >= 1 && final(self).rest() == old(self).rest().skip(1),
            old(self).can_write(1) ==> r is Ok,
            r matches Err(e) ==> final(self).out() == old(self).out() && Self::is_write_err(e),
    {
        self.inner.pb_write_u8(byte)
    }

    /// Writes `v` as a base-128 varint: low seven bits first, continuation
    /// bit on every byte but the last.
    #[verifier::loop_isolation(false)]
    pub fn write_varint(&mut self, v: u64) -> (r: Result<(), Error>)
        ensures
            r is Ok ==> final(self).out() == old(self).out() + varint_enc(v as nat),
            r is Ok ==> forall|m: nat|
                old(self).can_write(m + varint_enc(v as nat).len()) ==> final(self).can_write(m),
            r is Ok ==> old(self).rest().len() >= varint_enc(v as nat).len() && final(self).rest()
                == old(self).rest().skip(varint_enc(v as nat).len() as int),
            (exists|n: nat| n >= varint_enc(v as nat).len() && #[trigger] old(self).can_write(n))
                ==> r is Ok,
            r matches Err(e) ==> Self::is_write_err(e) && (exists|k: int|
                0 <= k <= varint_enc(v as nat).len() && final(self).out() == old(self).out()
                    + #[trigger] varint_enc(v as nat).take(k)),
    {
        let ghost v0: nat = v as nat;
        let ghost done: int = 0;
        let mut v = v;
        while v > 0x7f
            invariant
                0 <= done,
                done + varint_enc(v as nat).len() == varint_enc(v0).len(),
                varint_enc(v0) =~= varint_enc(v0).take(done) + varint_enc(v as nat),
                self.out() == old(self).out() + varint_enc(v0).take(done),
                old(self).rest().len() >= done,
                self.rest() == old(self).rest().skip(done),
                forall|m: nat| old(self).can_write((m + done) as nat) ==> self.can_write(m),
            decreases v,
        {
            let b: u8 = #[verifier::truncate] (v as u8) & 0x7f | 0x80;
            let ghost mid = *self;
            proof {
                assert((#[verifier::truncate] (v as u8)) & 0x7f | 0x80 == (128 + (v % 128)) as u8)
                    by (bit_vector);
                assert((v >> 7) == v / 128) by (bit_vector);
                assert(v >> 7 < v) by (bit_vector)
                    requires
                        v > 0x7f,
                ;
                assert(varint_enc(v as nat) == seq![b] + varint_enc((v >> 7) as nat));
                assert(varint_enc(v0).take(done + 1) =~= varint_enc(v0).take(done) + seq![b]);
            }
            let q = self.inner.pb_write_u8(b);
            if let Err(e) = q {
                proof {
                    if exists|n: nat| n >= varint_enc(v0).len() && #[trigger] old(self).can_write(
                        n,
                    ) {
                        let n = choose|n: nat|
                            n >= varint_enc(v0).len() && #[trigger] old(self).can_write(n);
                        let rem: nat = (n - done) as nat;
                        assert(old(self).can_write((rem + done) as nat));
                        assert(mid.can_write(rem));
                        assert(!mid.inner.can_write(rem));
                        assert(false);
                    }
                    assert(0 <= done <= varint_enc(v0).len());
                    assert(self.out() == old(self).out() + varint_enc(v0).take(done));
                    assert(exists|k: int|
                        0 <= k <= varint_enc(v0).len() && self.out() == old(self).out()
                            + varint_enc(v0).take(k));
                }
                return Err(e);
            }
            proof {
                assert(self.out() =~= old(self).out() + varint_enc(v0).take(done + 1));
                assert(self.rest() =~= old(self).rest().skip(done + 1));
                done = done + 1;
                assert forall|m: nat| old(self).can_write((m + done) as nat) implies self.can_write(
                    m,
                ) by {
                    assert(old(self).can_write(((m + 1) + (done - 1)) as nat));
                    assert(mid.can_write((m + 1) as nat));
                    assert(mid.inner.can_write(m + 1));
                }
            }
            v = v >> 7;
        }
        let ghost mid = *self;
        proof {
            assert(varint_enc(v as nat) == seq![v as u8]);
            assert(varint_enc(v0).take(done + 1) =~= varint_enc(v0).take(done) + seq![v as u8]);
        }
        let q = self.inner.pb_write_u8(v as u8);
        match q {
            Ok(u) => {
                proof {
                    assert(done + 1 == varint_enc(v0).len());
                    assert(self.out() =~= old(self).out() + varint_enc(v0));
                    assert(self.rest() =~= old(self).rest().skip(varint_enc(v0).len() as int));
                    assert forall|m: nat|
                        old(self).can_write(m + varint_enc(v0).len()) implies self.can_write(m) by {
                        assert(old(self).can_write(((m + 1) + done) as nat));
                        assert(mid.can_write((m + 1) as nat));
                        assert(mid.inner.can_write(m + 1));
                    }
                }
                Ok(u)
            },
            Err(e) => {
                proof {
                    if exists|n: nat| n >= varint_enc(v0).len() && #[trigger] old(self).can_write(
                        n,
                    ) {
                        let n = choose|n: nat|
                            n >= varint_enc(v0).len() && #[trigger] old(self).can_write(n);
                        let rem: nat = (n - done) as nat;
                        assert(old(self).can_write((rem + done) as nat));
                        assert(mid.can_write(rem));
                        assert(!mid.inner.can_write(rem));
                        assert(false);
                    }
                    assert(0 <= done <= varint_enc(v0).len());
                    assert(self.out() == old(self).out() + varint_enc(v0).take(done));
                    assert(exists|k: int|
                        0 <= k <= varint_enc(v0).len() && self.out() == old(self).out()
                            + varint_enc(v0).take(k));
                }
                Err(e)
            },
        }
    }
    /// Writes a tag: the field number and wire type combined, as a varint.
    pub fn write_tag(&mut self, tag: u32) -> (r: Result<(), Error>)
        ensures
            r is Ok ==> final(self).out() == old(self).out() + varint_enc(tag as nat),
            r is Ok ==> forall|m: nat|
                old(self).can_write(m + varint_enc(tag as nat).len()) ==> final(self).can_write(m),
            r is Ok ==> old(self).rest().len() >= varint_enc(tag as nat).len() && final(self).rest()
                == old(self).rest().skip(varint_enc(tag as nat).len() as int),
            old(self).can_write(varint_enc(tag as nat).len() as nat) ==> r is Ok,
            r matches Err(e) ==> Self::is_write_err(e) && (exists|k: int|
                0 <= k <= varint_enc(tag as nat).len() && final(self).out() == old(self).out()
                    + varint_enc(tag as nat).take(k)),
    {
        self.write_varint(tag as u64)
    }

    /// Writes an `int32` field: the value sign-extended to 64 bits, then
    /// varint-coded, so a negative value takes ten bytes.
    pub fn write_int32(&mut self, v: i32) -> (r: Result<(), Error>)
        ensures
            r is Ok ==> final(self).out() == old(self).out() + varint_enc((v as u64) as nat),
            r is Ok ==> old(self).rest().len() >= varint_enc((v as u64) as nat).len() && final(self).rest()
                == old(self).rest().skip(varint_enc((v as u64) as nat).len() as int),
            old(self).can_write(varint_enc((v as u64) as nat).len() as nat) ==> r is Ok,
            r matches Err(e) ==> Self::is_write_err(e) && (exists|k: int|
                0 <= k <= varint_enc((v as u64) as nat).len() && final(self).out() == old(self).out()
                    + #[trigger] varint_enc((v as u64) as nat).take(k)),
    {
        self.write_varint(v as u64)
    }

    /// Writes an `int64` field: the value reinterpreted unsigned, then
    /// varint-coded.
    pub fn write_int64(&mut self, v: i64) -> (r: Result<(), Error>)
        ensures
            r is Ok ==> final(self).out() == old(self).out() + varint_enc((v as u64) as nat),
            r is Ok ==> old(self).rest().len() >= varint_enc((v as u64) as nat).len() && final(self).rest()
                == old(self).rest().skip(varint_enc((v as u64) as nat).len() as int),
            old(self).can_write(varint_enc((v as u64) as nat).len() as nat) ==> r is Ok,
            r matches Err(e) ==> Self::is_write_err(e) && (exists|k: int|
                0 <= k <= varint_enc((v as u64) as nat).len() && final(self).out() == old(self).out()
                    + #[trigger] varint_enc((v as u64) as nat).take(k)),
    {
        self.write_varint(v as u64)
    }

    /// Writes a `uint32` field as a varint.
    pub fn write_uint32(&mut self, v: u32) -> (r: Result<(), Error>)
        ensures
            r is Ok ==> final(self).out() == old(self).out() + varint_enc(v as nat),
            r is Ok ==> old(self).rest().len() >= varint_enc(v as nat).len() && final(self).rest()
                == old(self).rest().skip(varint_enc(v as nat).len() as int),
            old(self).can_write(varint_enc(v as nat).len() as nat) ==> r is Ok,
            r matches Err(e) ==> Self::is_write_err(e) && (exists|k: int|
                0 <= k <= varint_enc(v as nat).len() && final(self).out() == old(self).out()
                    + #[trigger] varint_enc(v as nat).take(k)),
    {
        self.write_varint(v as u64)
    }

    /// Writes a `uint64` field as a varint.
    pub fn write_uint64(&mut self, v: u64) -> (r: Result<(), Error>)
        ensures
            r is Ok ==> final(self).out() == old(self).out() + varint_enc(v as nat),
            r is Ok ==> old(self).rest().len() >= varint_enc(v as nat).len() && final(self).rest()
                == old(self).rest().skip(varint_enc(v as nat).len() as int),
            old(self).can_write(varint_enc(v as nat).len() as nat) ==> r is Ok,
            r matches Err(e) ==> Self::is_write_err(e) && (exists|k: int|
                0 <= k <= varint_enc(v as nat).len() && final(self).out() == old(self).out()
                    + #[trigger] varint_enc(v as nat).take(k)),
    {
        self.write_varint(v)
    }

    /// Writes a `sint32` field: the zig-zag encoding as a varint.
    pub fn write_sint32(&mut self, v: i32) -> (r: Result<(), Error>)
        ensures
            r is Ok ==> final(self).out() == old(self).out() + varint_enc(zigzag_wire32(v) as nat),
            r is Ok ==> old(self).rest().len() >= varint_enc(zigzag_wire32(v) as nat).len() && final(self).rest()
                == old(self).rest().skip(varint_enc(zigzag_wire32(v) as nat).len() as int),
            old(self).can_write(varint_enc(zigzag_wire32(v) as nat).len() as nat) ==> r is Ok,
            r matches Err(e) ==> Self::is_write_err(e) && (exists|k: int|
                0 <= k <= varint_enc(zigzag_wire32(v) as nat).len() && final(self).out() == old(self).out()
                    + #[trigger] varint_enc(zigzag_wire32(v) as nat).take(k)),
    {
        let wire: u64 = ((v << 1u32) ^ (v >> 31u32)) as u64;
        proof {
            assert(wire == zigzag_wire32(v)) by (bit_vector)
                requires
                    wire == ((v << 1u32) ^ (v >> 31u32)) as u64,
            ;
        }
        self.write_varint(wire)
    }

    /// Writes a `sint64` field: the zig-zag encoding as a varint.
    pub fn write_sint64(&mut self, v: i64) -> (r: Result<(), Error>)
        ensures
            r is Ok ==> final(self).out() == old(self).out() + varint_enc(zigzag_enc64(v) as nat),
            r is Ok ==> old(self).rest().len() >= varint_enc(zigzag_enc64(v) as nat).len() && final(self).rest()
                == old(self).rest().skip(varint_enc(zigzag_enc64(v) as nat).len() as int),
            old(self).can_write(varint_enc(zigzag_enc64(v) as nat).len() as nat) ==> r is Ok,
            r matches Err(e) ==> Self::is_write_err(e) && (exists|k: int|
                0 <= k <= varint_enc(zigzag_enc64(v) as nat).len() && final(self).out() == old(self).out()
                    + #[trigger] varint_enc(zigzag_enc64(v) as nat).take(k)),
    {
        let wire: u64 = ((v << 1u32) ^ (v >> 63u32)) as u64;
        proof {
            assert(wire == zigzag_enc64(v)) by (bit_vector)
                requires
                    wire == ((v << 1u32) ^ (v >> 63u32)) as u64,
            ;
        }
        self.write_varint(wire)
    }

    /// Writes a `fixed64` field: eight little-endian bytes.
    pub fn write_fixed64(&mut self, v: u64) -> (r: Result<(), Error>)
        ensures
            r is Ok ==> final(self).out() == old(self).out() + le_bytes(v as nat, 8),
            r is Ok ==> old(self).rest().len() >= 8 && final(self).rest() == old(
                self,
            ).rest().skip(8),
            old(self).can_write(8) ==> r is Ok,
            r matches Err(e) ==> Self::is_write_err(e) && final(self).out() == old(self).out(),
    {
        self.inner.pb_write_u64(v)
    }

    /// Writes a `fixed32` field: four little-endian bytes.
    pub fn write_fixed32(&mut self, v: u32) -> (r: Result<(), Error>)
        ensures
            r is Ok ==> final(self).out() == old(self).out() + le_bytes(v as nat, 4),
            r is Ok ==> old(self).rest().len() >= 4 && final(self).rest() == old(
                self,
            ).rest().skip(4),
            old(self).can_write(4) ==> r is Ok,
            r matches Err(e) ==> Self::is_write_err(e) && final(self).out() == old(self).out(),
    {
        self.inner.pb_write_u32(v)
    }

    /// Writes an `sfixed64` field: eight little-endian bytes, two's
    /// complement.
    pub fn write_sfixed64(&mut self, v: i64) -> (r: Result<(), Error>)
        ensures
            r is Ok ==> final(self).out() == old(self).out() + le_bytes((v as u64) as nat, 8),
            r is Ok ==> old(self).rest().len() >= 8 && final(self).rest() == old(
                self,
            ).rest().skip(8),
            old(self).can_write(8) ==> r is Ok,
            r matches Err(e) ==> Self::is_write_err(e) && final(self).out() == old(self).out(),
    {
        self.inner.pb_write_i64(v)
    }

    /// Writes an `sfixed32` field: four little-endian bytes, two's
    /// complement.
    pub fn write_sfixed32(&mut self, v: i32) -> (r: Result<(), Error>)
        ensures
            r is Ok ==> final(self).out() == old(self).out() + le_bytes((v as u32) as nat, 4),
            r is Ok ==> old(self).rest().len() >= 4 && final(self).rest() == old(
                self,
            ).rest().skip(4),
            old(self).can_write(4) ==> r is Ok,
            r matches Err(e) ==> Self::is_write_err(e) && final(self).out() == old(self).out(),
    {
        self.inner.pb_write_i32(v)
    }

    /// Writes a `bool` field: one byte, one for true and zero for false.
    pub fn write_bool(&mut self, v: bool) -> (r: Result<(), Error>)
        ensures
            r is Ok ==> final(self).out() == old(self).out().push(
                if v {
                    1u8
                } else {
                    0u8
                },
            ),
            r is Ok ==> old(self).rest().len() >= 1 && final(self).rest() == old(
                self,
            ).rest().skip(1),
            old(self).can_write(1) ==> r is Ok,
            r matches Err(e) ==> Self::is_write_err(e) && final(self).out() == old(self).out(),
    {
        self.inner.pb_write_u8(
            if v {
                1
            } else {
                0
            },
        )
    }

    /// Writes an `enum` field: its `i32` discriminant as an `int32`.
    pub fn write_enum(&mut self, v: i32) -> (r: Result<(), Error>)
        ensures
            r is Ok ==> final(self).out() == old(self).out() + varint_enc((v as u64) as nat),
            r is Ok ==> old(self).rest().len() >= varint_enc((v as u64) as nat).len() && final(self).rest()
                == old(self).rest().skip(varint_enc((v as u64) as nat).len() as int),
            old(self).can_write(varint_enc((v as u64) as nat).len() as nat) ==> r is Ok,
            r matches Err(e) ==> Self::is_write_err(e) && (exists|k: int|
                0 <= k <= varint_enc((v as u64) as nat).len() && final(self).out() == old(self).out()
                    + #[trigger] varint_enc((v as u64) as nat).take(k)),
    {
        self.write_int32(v)
    }

    /// Writes a `bytes` field: a varint length prefix, then the bytes.
    pub fn write_bytes(&mut self, bytes: &[u8]) -> (r: Result<(), Error>)
        ensures
            r is Ok ==> final(self).out() == old(self).out() + varint_enc(bytes@.len() as nat)
                + bytes@,
            r is Ok ==> forall|m: nat|
                old(self).can_write(
                    (m + varint_enc(bytes@.len() as nat).len() + bytes@.len()) as nat,
                ) ==> final(self).can_write(m),
            r is Ok ==> old(self).rest().len() >= varint_enc(bytes@.len() as nat).len()
                + bytes@.len() && final(self).rest() == old(self).rest().skip(
                (varint_enc(bytes@.len() as nat).len() + bytes@.len()) as int,
            ),
            old(self).can_write((varint_enc(bytes@.len() as nat).len() + bytes@.len()) as nat)
                ==> r is Ok,
            r matches Err(e) ==> Self::is_write_err(e) && (exists|k: int|
                0 <= k <= varint_enc(bytes@.len() as nat).len() && final(self).out() == old(
                    self,
                ).out() + #[trigger] varint_enc(bytes@.len() as nat).take(k)),
    {
        let ghost pre = *self;
        let q = self.write_varint(bytes.len() as u64);
        if let Err(e) = q {
            return Err(e);
        }
        let ghost mid = *self;
        proof {
            if pre.can_write((varint_enc(bytes@.len() as nat).len() + bytes@.len()) as nat) {
                assert(self.can_write(bytes@.len() as nat));
            }
        }
        match self.inner.pb_write_all(bytes) {
            Ok(u) => {
                proof {
                    assert(self.out() == pre.out() + varint_enc(bytes@.len() as nat) + bytes@);
                    assert(self.rest() =~= pre.rest().skip(
                        (varint_enc(bytes@.len() as nat).len() + bytes@.len()) as int,
                    ));
                    assert forall|m: nat|
                        pre.can_write(
                            (m + varint_enc(bytes@.len() as nat).len() + bytes@.len()) as nat,
                        ) implies self.can_write(m) by {
                        assert(mid.can_write((m + bytes@.len()) as nat));
                        assert(mid.inner.can_write(m + bytes@.len()));
                    }
                }
                Ok(u)
            },
            Err(e) => {
                proof {
                    let whole = varint_enc(bytes@.len() as nat).len() as int;
                    assert(varint_enc(bytes@.len() as nat).take(whole) =~= varint_enc(
                        bytes@.len() as nat,
                    ));
                    assert(self.out() == pre.out() + varint_enc(bytes@.len() as nat).take(whole));
                }
                Err(e)
            },
        }
    }

    /// Writes a `string` field: a varint length prefix, then the UTF-8
    /// bytes. Validity is not re-checked on write.
    pub fn write_string(&mut self, s: &str) -> (r: Result<(), Error>)
        ensures
            r is Ok ==> final(self).out() == old(self).out() + varint_enc(s.spec_bytes().len())
                + s.spec_bytes(),
            r is Ok ==> old(self).rest().len() >= varint_enc(s.spec_bytes().len()).len()
                + s.spec_bytes().len() && final(self).rest() == old(self).rest().skip(
                (varint_enc(s.spec_bytes().len()).len() + s.spec_bytes().len()) as int,
            ),
            old(self).can_write(
                (varint_enc(s.spec_bytes().len()).len() + s.spec_bytes().len()) as nat,
            ) ==> r is Ok,
            r matches Err(e) ==> Self::is_write_err(e) && (exists|k: int|
                0 <= k <= varint_enc(s.spec_bytes().len()).len() && final(self).out() == old(
                    self,
                ).out() + #[trigger] varint_enc(s.spec_bytes().len()).take(k)),
    {
        self.write_bytes(s.as_bytes())
    }

    /// Writes a message through its own implementation, without a length
    /// prefix; length-prefixed emission is the caller's affair.
    pub fn write_message<M: MessageWrite>(&mut self, m: &M) -> (r: Result<(), Error>)
        ensures
            r is Ok ==> final(self).out() == old(self).out() + m.encoding(),
    {
        m.write_message(self)
    }

    /// Writes the tag, then whatever `write` emits: a field's tag-+-payload
    /// pair in one call.
    pub fn write_with_tag<F: FnOnce(&mut Writer<W>) -> Result<(), Error>>(
        &mut self,
        tag: u32,
        write: F,
    ) -> (r: Result<(), Error>)
        requires
            forall|w: &mut Writer<W>|
                mut_ref_current(w).out() == old(self).out() + varint_enc(tag as nat)
                    ==> call_requires(write, (w,)),
        ensures
            (exists|w: &mut Writer<W>, q: Result<(), Error>|
                {
                    &&& q == r
                    &&& mut_ref_current(w).out() == old(self).out() + varint_enc(tag as nat)
                    &&& mut_ref_future(w) == *final(self)
                    &&& #[trigger] call_ensures(write, (w,), q)
                }) || (r matches Err(e) && Self::is_write_err(e) && (exists|k: int|
                0 <= k <= varint_enc(tag as nat).len() && final(self).out() == old(self).out()
                    + varint_enc(tag as nat).take(k))),
            old(self).can_write(varint_enc(tag as nat).len() as nat) ==> (exists|
                w: &mut Writer<W>,
                q: Result<(), Error>,
            |
                {
                    &&& q == r
                    &&& mut_ref_current(w).out() == old(self).out() + varint_enc(tag as nat)
                    &&& mut_ref_future(w) == *final(self)
                    &&& #[trigger] call_ensures(write, (w,), q)
                }),
    {
        let q = self.write_tag(tag);
        if let Err(e) = q {
            return Err(e);
        }
        write(self)
    }

    /// Writes a whole map entry: a length prefix of `size`, then the key's
    /// tag and payload, then the value's tag and payload. `size` must equal
    /// the exact serialized length of the two pairs; nothing verifies it.
    pub fn write_map<FK: FnOnce(&mut Writer<W>) -> Result<(), Error>, FV: FnOnce(
        &mut Writer<W>,
    ) -> Result<(), Error>>(
        &mut self,
        size: usize,
        tag_key: u32,
        write_key: FK,
        tag_val: u32,
        write_val: FV,
    ) -> (r: Result<(), Error>)
        requires
            forall|w: &mut Writer<W>| call_requires(write_key, (w,)),
            forall|w: &mut Writer<W>| call_requires(write_val, (w,)),
        ensures
            r is Ok ==> exists|
                wk: &mut Writer<W>,
                wv: &mut Writer<W>,
                qk: Result<(), Error>,
                qv: Result<(), Error>,
            |
                {
                    &&& qk is Ok
                    &&& qv is Ok
                    &&& mut_ref_current(wk).out() == old(self).out() + varint_enc(size as nat)
                        + varint_enc(tag_key as nat)
                    &&& #[trigger] call_ensures(write_key, (wk,), qk)
                    &&& mut_ref_current(wv).out() == mut_ref_future(wk).out() + varint_enc(
                        tag_val as nat,
                    )
                    &&& #[trigger] call_ensures(write_val, (wv,), qv)
                    &&& mut_ref_future(wv) == *final(self)
                },
            r matches Err(e) ==> (Self::is_write_err(e) && (exists|k: int|
                0 <= k <= varint_enc(size as nat).len() && final(self).out() == old(self).out()
                    + #[trigger] varint_enc(size as nat).take(k))) || (Self::is_write_err(e) && (
            exists|k: int|
                0 <= k <= varint_enc(tag_key as nat).len() && final(self).out() == old(self).out()
                    + varint_enc(size as nat) + #[trigger] varint_enc(tag_key as nat).take(k)))
                || (exists|w: &mut Writer<W>, q: Result<(), Error>|
                {
                    &&& q == r
                    &&& mut_ref_current(w).out() == old(self).out() + varint_enc(size as nat)
                        + varint_enc(tag_key as nat)
                    &&& mut_ref_future(w) == *final(self)
                    &&& #[trigger] call_ensures(write_key, (w,), q)
                }) || (exists|wk: &mut Writer<W>, qk: Result<(), Error>, k: int|
                {
                    &&& qk is Ok
                    &&& mut_ref_current(wk).out() == old(self).out() + varint_enc(size as nat)
                        + varint_enc(tag_key as nat)
                    &&& #[trigger] call_ensures(write_key, (wk,), qk)
                    &&& Self::is_write_err(e)
                    &&& 0 <= k <= varint_enc(tag_val as nat).len()
                    &&& final(self).out() == mut_ref_future(wk).out() + #[trigger] varint_enc(
                        tag_val as nat,
                    ).take(k)
                }) || (exists|
                wk: &mut Writer<W>,
                qk: Result<(), Error>,
                wv: &mut Writer<W>,
                qv: Result<(), Error>,
            |
                {
                    &&& qk is Ok
                    &&& mut_ref_current(wk).out() == old(self).out() + varint_enc(size as nat)
                        + varint_enc(tag_key as nat)
                    &&& #[trigger] call_ensures(write_key, (wk,), qk)
                    &&& mut_ref_current(wv).out() == mut_ref_future(wk).out() + varint_enc(
                        tag_val as nat,
                    )
                    &&& qv == r
                    &&& #[trigger] call_ensures(write_val, (wv,), qv)
                    &&& mut_ref_future(wv) == *final(self)
                }),
    {
        let q = self.write_varint(size as u64);
        if let Err(e) = q {
            return Err(e);
        }
        let q = self.write_tag(tag_key);
        if let Err(e) = q {
            return Err(e);
        }
        let q = write_key(self);
        if let Err(e) = q {
            return Err(e);
        }
        let q = self.write_tag(tag_val);
        if let Err(e) = q {
            return Err(e);
        }
        write_val(self)
    }
}

/// Relies on `byteorder_lite::LittleEndian::write_u32`: stores the four
/// little-endian bytes of `x` at offset `i` of `buf` and touches nothing
/// else.
#[verifier::external_body]
fn le_write_u32(buf: &mut Vec<u8>, i: usize, x: u32)
    requires
        i + 4 <= old(buf)@.len(),
    ensures
        final(buf)@ == old(buf)@.take(i as int) + le_bytes(x as nat, 4) + old(buf)@.skip(i + 4),
{
    byteorder_lite::LittleEndian::write_u32(&mut buf[i..], x);
}

/// Relies on `byteorder_lite::LittleEndian::write_u64`: stores the eight
/// little-endian bytes of `x` at offset `i` of `buf` and touches nothing
/// else.
#[verifier::external_body]
fn le_write_u64(buf: &mut Vec<u8>, i: usize, x: u64)
    requires
        i + 8 <= old(buf)@.len(),
    ensures
        final(buf)@ == old(buf)@.take(i as int) + le_bytes(x as nat, 8) + old(buf)@.skip(i + 8),
{
    byteorder_lite::LittleEndian::write_u64(&mut buf[i..], x);
}

} // verus!
