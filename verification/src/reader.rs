//! A pull reader over an externally owned byte buffer.

use crate::errors::Error;
use crate::message::MessageRead;
use crate::wire::all_cont;
use crate::wire::has_cont_bit;
use crate::wire::is_varint_at;
use crate::wire::le_value;
use crate::wire::payload_bits;
use crate::wire::varint_value_at;
use byteorder_lite::ByteOrder;
use vstd::arithmetic::div_mod::lemma_mod_multiples_vanish;
use vstd::arithmetic::div_mod::lemma_small_mod;
use vstd::arithmetic::power2::lemma2_to64;
use vstd::arithmetic::power2::lemma_pow2_strictly_increases;
use vstd::arithmetic::power2::pow2;
use vstd::bits::lemma_u32_shl_is_mul;
use vstd::bits::lemma_u64_shl_is_mul;
use vstd::prelude::*;
use vstd::string::StringSliceAdditionalSpecFns;
use vstd::utf8::valid_utf8;

verus! {

/// How far a varint scan may look: ten bytes, or to the scope's end,
/// whichever comes first.
pub open spec fn varint_scan_end(i: int, e: int) -> int {
    if e < i + 10 {
        e
    } else {
        i + 10
    }
}

/// A varint scan from `pre`'s position finds a terminating byte within its
/// bound and within ten bytes: the read succeeds.
pub open spec fn varint_found(s: Seq<u8>, pre: BytesReader) -> bool {
    !all_cont(s, pre.pos(), varint_scan_end(pre.pos(), pre.bound()))
}

/// What every successful varint read guarantees of the cursor: a
/// well-formed varint was consumed, at most ten bytes, within the scope.
pub open spec fn varint_read_ok(s: Seq<u8>, pre: BytesReader, post: BytesReader) -> bool {
    &&& is_varint_at(s, pre.pos(), post.pos() - pre.pos())
    &&& post.pos() <= pre.pos() + 10
    &&& post.pos() <= pre.bound()
}

/// The full, untruncated value of the varint a read consumed.
pub open spec fn varint_read_value(s: Seq<u8>, pre: BytesReader, post: BytesReader) -> nat {
    varint_value_at(s, pre.pos(), post.pos() - pre.pos())
}

/// Ten continued bytes stand at the position: a varint read fails with
/// [`Error::Varint`].
pub open spec fn varint_overlong(s: Seq<u8>, pre: BytesReader) -> bool {
    pre.pos() + 10 <= pre.bound() && all_cont(s, pre.pos(), pre.pos() + 10)
}

/// The scope ends before any terminating byte: a varint read fails with
/// [`Error::UnexpectedEndOfBuffer`].
pub open spec fn varint_runs_out(s: Seq<u8>, pre: BytesReader) -> bool {
    pre.bound() < pre.pos() + 10 && all_cont(s, pre.pos(), pre.bound())
}

/// A length prefix stands at `p`, wholly inside a scope that ends at `e`: a
/// varint of `n` bytes.
pub open spec fn entry_prefix_at(s: Seq<u8>, p: int, e: int, n: int) -> bool {
    is_varint_at(s, p, n) && n <= 10 && p + n <= e
}

/// A map entry at `p` declares a payload length of zero.
pub open spec fn map_entry_empty(s: Seq<u8>, p: int, e: int) -> bool {
    exists|n: int|
        #[trigger] entry_prefix_at(s, p, e, n) && varint_value_at(s, p, n) % 0x1_0000_0000 == 0
}

/// A map entry at `p` is framed whole within the scope, and its first tag
/// is a single byte whose field number is neither 1 nor 2.
pub open spec fn map_entry_bad_first_tag(s: Seq<u8>, p: int, e: int) -> bool {
    exists|n: int|
        {
            &&& #[trigger] entry_prefix_at(s, p, e, n)
            &&& varint_value_at(s, p, n) % 0x1_0000_0000 > 0
            &&& p + n + (varint_value_at(s, p, n) % 0x1_0000_0000) <= e
            &&& !has_cont_bit(s[p + n])
            &&& s[p + n] >> 3 != 1
            &&& s[p + n] >> 3 != 2
        }
}

/// A cursor `(start, end)` over a caller-owned byte buffer. `start` advances
/// with every successful read; `end` is temporarily narrowed while a
/// length-delimited scope is read and restored on exit. The buffer itself is
/// passed to every read, so returned sub-slices borrow from the caller.
#[derive(Debug, Clone, PartialEq, Eq, Structural)]
pub struct BytesReader {
    start: usize,
    end: usize,
}

impl BytesReader {
    /// The cursor's position: the offset of the next unread byte.
    pub closed spec fn pos(&self) -> int {
        self.start as int
    }

    /// The end bound of the current scope.
    pub closed spec fn bound(&self) -> int {
        self.end as int
    }

    /// The cursor is well-formed over a buffer of `s`'s length.
    pub open spec fn wf(&self, s: Seq<u8>) -> bool {
        0 <= self.pos() <= self.bound() <= s.len()
    }

    /// Creates a reader over the whole of `bytes`.
    pub fn from_bytes(bytes: &[u8]) -> (r: Self)
        ensures
            r.pos() == 0,
            r.bound() == bytes@.len(),
            r.wf(bytes@),
    {
        Self { start: 0, end: bytes.len() }
    }

    /// Reads the next byte, advancing the cursor by one.
    pub fn read_u8(&mut self, bytes: &[u8]) -> (r: Result<u8, Error>)
        requires
            old(self).wf(bytes@),
        ensures
            final(self).wf(bytes@),
            final(self).bound() == old(self).bound(),
            old(self).pos() < old(self).bound() ==> r == Ok::<u8, Error>(bytes@[old(self).pos()])
                && final(self).pos() == old(self).pos() + 1,
            old(self).pos() == old(self).bound() ==> r == Err::<u8, Error>(
                Error::UnexpectedEndOfBuffer,
            ) && final(self).pos() == old(self).pos(),
    {
        if self.start < self.end {
            let b = bytes[self.start];
            self.start = self.start + 1;
            Ok(b)
        } else {
            Err(Error::UnexpectedEndOfBuffer)
        }
    }

    /// Reads a varint-encoded `u32`: the result is the low 32 bits of the
    /// full decoded value. Bits beyond bit 31 are silently dropped, and a
    /// ten-byte encoding (a sign-extended negative) is accepted, exactly as
    /// the reference protobuf implementation does.
    #[verifier::loop_isolation(false)]
    pub fn read_varint32(&mut self, bytes: &[u8]) -> (r: Result<u32, Error>)
        requires
            old(self).wf(bytes@),
        ensures
            final(self).wf(bytes@),
            final(self).bound() == old(self).bound(),
            old(self).pos() <= final(self).pos(),
            (r is Ok <==> varint_found(bytes@, *old(self))),
            r matches Ok(v) ==> varint_read_ok(bytes@, *old(self), *final(self)) && v as nat
                == varint_read_value(bytes@, *old(self), *final(self)) % 0x1_0000_0000,
            (r == Err::<u32, Error>(Error::Varint) <==> varint_overlong(bytes@, *old(self))),
            (r == Err::<u32, Error>(Error::UnexpectedEndOfBuffer) <==> varint_runs_out(
                bytes@,
                *old(self),
            )),
            r == Err::<u32, Error>(Error::Varint) ==> final(self).pos() == old(self).pos() + 10,
            r == Err::<u32, Error>(Error::UnexpectedEndOfBuffer) ==> final(self).pos() == old(self).bound(),
    {
        let ghost s = bytes@;
        let ghost i = old(self).pos();
        let ghost e = old(self).bound();
        let mut r: u32 = 0;
        let mut j: usize = 0;
        proof {
            lemma2_to64();
            vstd::arithmetic::power2::lemma2_to64_rest();
        }
        while j < 4
            invariant
                self.wf(bytes@),
                0 <= j <= 4,
                self.pos() == i + j,
                self.bound() == e,
                all_cont(s, i, i + j),
                r as nat == varint_value_at(s, i, j as int),
                r < pow2((7 * j) as nat),
            decreases 4 - j,
        {
            let b = self.read_u8(bytes)?;
            let r0 = r;
            r = r | (((b & 0x7f) as u32) << ((7 * j) as u32));
            proof {
                let sh = (7 * j) as u32;
                lemma_u32_shl_is_mul(1u32, sh);
                assert(r0 | (((b & 0x7f) as u32) << sh) == r0 + ((b & 0x7f) as u32) * (1u32 << sh)
                    && r0 + ((b & 0x7f) as u32) * (1u32 << sh) < (1u32 << sh) * 128) by (bit_vector)
                    requires
                        r0 < (1u32 << sh),
                        sh <= 21,
                ;
                assert(s[i + j] == b);
                assert((1u32 << sh) == pow2((7 * j) as nat));
                assert(varint_value_at(s, i, j + 1) == varint_value_at(s, i, j as int) + pow2(
                    (7 * j) as nat,
                ) * (payload_bits(s[i + j]) as nat));
                assert(((b & 0x7f) as u32) * (1u32 << sh) == pow2((7 * j) as nat) * (payload_bits(
                    s[i + j],
                ) as nat)) by (nonlinear_arith)
                    requires
                        (1u32 << sh) == pow2((7 * j) as nat),
                        ((b & 0x7f) as u32) as nat == payload_bits(s[i + j]) as nat,
                ;
                assert(r as nat == varint_value_at(s, i, j + 1));
            }
            if b & 0x80 == 0 {
                proof {
                    lemma_pow2_strictly_increases((7 * (j + 1)) as nat, 32);
                    lemma_small_mod(r as nat, 0x1_0000_0000);
                    assert(!has_cont_bit(s[i + j]));
                }
                return Ok(r);
            }
            proof {
                assert(b & 0x80 == 0x80) by (bit_vector)
                    requires
                        b & 0x80 != 0,
                ;
                assert(all_cont(s, i, i + j + 1));
            }
            j = j + 1;
        }
        let b = self.read_u8(bytes)?;
        let r0 = r;
        r = r | (((b & 0xf) as u32) << 28u32);
        proof {
            assert(r0 | (((b & 0xf) as u32) << 28u32) == r0 + (((b & 0x7f) as u32) % 16)
                * 0x10000000) by (bit_vector)
                requires
                    r0 < 0x10000000,
            ;
            let p = payload_bits(s[i + 4]) as nat;
            assert(s[i + 4] == b);
            assert(p == ((b & 0x7f) as u32) as nat);
            assert(varint_value_at(s, i, 5) == varint_value_at(s, i, 4) + pow2(28) * p);
            assert(pow2(28) * p == 0x1_0000_0000 * (p / 16) + pow2(28) * (p % 16));
            lemma_mod_multiples_vanish(
                p as int / 16,
                (varint_value_at(s, i, 4) + pow2(28) * (p % 16)) as int,
                0x1_0000_0000,
            );
            lemma_small_mod(
                (varint_value_at(s, i, 4) + pow2(28) * (p % 16)) as nat,
                0x1_0000_0000,
            );
            assert(r as nat == varint_value_at(s, i, 5) % 0x1_0000_0000);
        }
        if b & 0x80 == 0 {
            proof {
                assert(!has_cont_bit(s[i + 4]));
            }
            return Ok(r);
        }
        proof {
            assert(b & 0x80 == 0x80) by (bit_vector)
                requires
                    b & 0x80 != 0,
            ;
            assert(all_cont(s, i, i + 5));
        }
        let mut extra: usize = 0;
        while extra < 5
            invariant
                self.wf(bytes@),
                0 <= extra <= 5,
                self.pos() == i + 5 + extra,
                self.bound() == e,
                all_cont(s, i, i + 5 + extra),
                r as nat == varint_value_at(s, i, 5) % 0x1_0000_0000,
            decreases 5 - extra,
        {
            let b2 = self.read_u8(bytes)?;
            if b2 & 0x80 == 0 {
                proof {
                    assert(s[i + 5 + extra] == b2);
                    assert(!has_cont_bit(s[i + 5 + extra]));
                    crate::wire::lemma_varint_value_mod32(s, i, 6 + extra);
                }
                return Ok(r);
            }
            proof {
                assert(b2 & 0x80 == 0x80) by (bit_vector)
                    requires
                        b2 & 0x80 != 0,
                ;
                assert(all_cont(s, i, i + 5 + extra + 1));
            }
            extra = extra + 1;
        }
        Err(Error::Varint)
    }

    /// Reads a varint-encoded `u64`: up to ten bytes of seven payload bits
    /// each. The tenth byte contributes a single bit at position 63; its
    /// remaining high bits are silently discarded, exactly as the reference
    /// protobuf implementation does.
    #[verifier::loop_isolation(false)]
    pub fn read_varint64(&mut self, bytes: &[u8]) -> (r: Result<u64, Error>)
        requires
            old(self).wf(bytes@),
        ensures
            final(self).wf(bytes@),
            final(self).bound() == old(self).bound(),
            old(self).pos() <= final(self).pos(),
            (r is Ok <==> varint_found(bytes@, *old(self))),
            r matches Ok(v) ==> varint_read_ok(bytes@, *old(self), *final(self)) && v as nat
                == varint_read_value(bytes@, *old(self), *final(self)) % 0x1_0000_0000_0000_0000,
            (r == Err::<u64, Error>(Error::Varint) <==> varint_overlong(bytes@, *old(self))),
            (r == Err::<u64, Error>(Error::UnexpectedEndOfBuffer) <==> varint_runs_out(
                bytes@,
                *old(self),
            )),
            r == Err::<u64, Error>(Error::Varint) ==> final(self).pos() == old(self).pos() + 10,
            r == Err::<u64, Error>(Error::UnexpectedEndOfBuffer) ==> final(self).pos() == old(self).bound(),
    {
        let ghost s = bytes@;
        let ghost i = old(self).pos();
        let ghost e = old(self).bound();
        let mut r: u64 = 0;
        let mut j: usize = 0;
        proof {
            lemma2_to64();
            vstd::arithmetic::power2::lemma2_to64_rest();
        }
        while j < 9
            invariant
                self.wf(bytes@),
                0 <= j <= 9,
                self.pos() == i + j,
                self.bound() == e,
                all_cont(s, i, i + j),
                r as nat == varint_value_at(s, i, j as int),
                r < pow2((7 * j) as nat),
            decreases 9 - j,
        {
            let b = self.read_u8(bytes)?;
            let r0 = r;
            r = r | (((b & 0x7f) as u64) << ((7 * j) as u64));
            proof {
                let sh = (7 * j) as u64;
                lemma_u64_shl_is_mul(1u64, sh);
                assert(r0 | (((b & 0x7f) as u64) << sh) == r0 + ((b & 0x7f) as u64) * (1u64 << sh)
                    && r0 + ((b & 0x7f) as u64) * (1u64 << sh) < (1u64 << sh) * 128) by (bit_vector)
                    requires
                        r0 < (1u64 << sh),
                        sh <= 56,
                ;
                assert(s[i + j] == b);
                assert((1u64 << sh) == pow2((7 * j) as nat));
                assert(varint_value_at(s, i, j + 1) == varint_value_at(s, i, j as int) + pow2(
                    (7 * j) as nat,
                ) * (payload_bits(s[i + j]) as nat));
                assert((payload_bits(s[i + j]) as nat) == ((b & 0x7f) as u64) as nat);
                assert(r == r0 + ((b & 0x7f) as u64) * (1u64 << sh));
                assert(((b & 0x7f) as u64) * (1u64 << sh) == pow2((7 * j) as nat) * (payload_bits(
                    s[i + j],
                ) as nat)) by (nonlinear_arith)
                    requires
                        (1u64 << sh) == pow2((7 * j) as nat),
                        ((b & 0x7f) as u64) as nat == payload_bits(s[i + j]) as nat,
                ;
                assert(r as nat == varint_value_at(s, i, j + 1));
            }
            if b & 0x80 == 0 {
                proof {
                    lemma_pow2_strictly_increases((7 * (j + 1)) as nat, 64);
                    lemma_small_mod(r as nat, 0x1_0000_0000_0000_0000);
                    assert(!has_cont_bit(s[i + j]));
                }
                return Ok(r);
            }
            proof {
                assert(b & 0x80 == 0x80) by (bit_vector)
                    requires
                        b & 0x80 != 0,
                ;
                assert(all_cont(s, i, i + j + 1));
            }
            j = j + 1;
        }
        let b = self.read_u8(bytes)?;
        let r0 = r;
        r = r | ((b as u64) << 63u64);
        if b & 0x80 == 0 {
            proof {
                assert(r0 | ((b as u64) << 63u64) == r0 + (((b & 0x7f) as u64) % 2)
                    * 0x8000000000000000 && (b as u64) % 2 == ((b & 0x7f) as u64) % 2 && (b & 0x7f)
                    == b) by (bit_vector)
                    requires
                        r0 < 0x8000000000000000,
                        b & 0x80 == 0,
                ;
                let p = payload_bits(s[i + 9]) as nat;
                assert(p == (b & 0x7f) as nat);
                assert(varint_value_at(s, i, 10) == varint_value_at(s, i, 9) + pow2(63) * p);
                assert(pow2(63) * p == 0x1_0000_0000_0000_0000 * (p / 2) + pow2(63) * (p % 2));
                lemma_mod_multiples_vanish(
                    p as int / 2,
                    (varint_value_at(s, i, 9) + pow2(63) * (p % 2)) as int,
                    0x1_0000_0000_0000_0000,
                );
                lemma_small_mod(
                    (varint_value_at(s, i, 9) + pow2(63) * (p % 2)) as nat,
                    0x1_0000_0000_0000_0000,
                );
                assert(r as nat == varint_value_at(s, i, 10) % 0x1_0000_0000_0000_0000);
                assert(!has_cont_bit(s[i + 9]));
            }
            return Ok(r);
        }
        proof {
            assert(b & 0x80 == 0x80) by (bit_vector)
                requires
                    b & 0x80 != 0,
            ;
            assert(s[i + 9] == b);
            assert(all_cont(s, i, i + 10));
        }
        Err(Error::Varint)
    }

    /// Reads the next field tag: a 32-bit varint whose low three bits are
    /// the wire type and whose remaining bits are the field number.
    pub fn next_tag(&mut self, bytes: &[u8]) -> (r: Result<u32, Error>)
        requires
            old(self).wf(bytes@),
        ensures
            final(self).wf(bytes@),
            final(self).bound() == old(self).bound(),
            old(self).pos() <= final(self).pos(),
            (r is Ok <==> varint_found(bytes@, *old(self))),
            r matches Ok(v) ==> varint_read_ok(bytes@, *old(self), *final(self)) && v as nat
                == varint_read_value(bytes@, *old(self), *final(self)) % 0x1_0000_0000,
            (r == Err::<u32, Error>(Error::Varint) <==> varint_overlong(bytes@, *old(self))),
            (r == Err::<u32, Error>(Error::UnexpectedEndOfBuffer) <==> varint_runs_out(
                bytes@,
                *old(self),
            )),
    {
        self.read_varint32(bytes)
    }

    /// Reads an `int32` field: a varint whose low 32 bits are reinterpreted
    /// as a two's-complement signed value.
    pub fn read_int32(&mut self, bytes: &[u8]) -> (r: Result<i32, Error>)
        requires
            old(self).wf(bytes@),
        ensures
            final(self).wf(bytes@),
            final(self).bound() == old(self).bound(),
            old(self).pos() <= final(self).pos(),
            (r is Ok <==> varint_found(bytes@, *old(self))),
            r matches Ok(v) ==> varint_read_ok(bytes@, *old(self), *final(self)) && v == (
            varint_read_value(bytes@, *old(self), *final(self)) % 0x1_0000_0000) as u32 as i32,
            (r == Err::<i32, Error>(Error::Varint) <==> varint_overlong(bytes@, *old(self))),
            (r == Err::<i32, Error>(Error::UnexpectedEndOfBuffer) <==> varint_runs_out(
                bytes@,
                *old(self),
            )),
    {
        match self.read_varint32(bytes) {
            Ok(n) => Ok(
                #[verifier::truncate]
                (n as i32),
            ),
            Err(e) => Err(e),
        }
    }

    /// Reads an `int64` field: a varint reinterpreted as a two's-complement
    /// signed value.
    pub fn read_int64(&mut self, bytes: &[u8]) -> (r: Result<i64, Error>)
        requires
            old(self).wf(bytes@),
        ensures
            final(self).wf(bytes@),
            final(self).bound() == old(self).bound(),
            old(self).pos() <= final(self).pos(),
            (r is Ok <==> varint_found(bytes@, *old(self))),
            r matches Ok(v) ==> varint_read_ok(bytes@, *old(self), *final(self)) && v == (
            varint_read_value(bytes@, *old(self), *final(self)) % 0x1_0000_0000_0000_0000) as u64
                as i64,
            (r == Err::<i64, Error>(Error::Varint) <==> varint_overlong(bytes@, *old(self))),
            (r == Err::<i64, Error>(Error::UnexpectedEndOfBuffer) <==> varint_runs_out(
                bytes@,
                *old(self),
            )),
    {
        match self.read_varint64(bytes) {
            Ok(n) => Ok(
                #[verifier::truncate]
                (n as i64),
            ),
            Err(e) => Err(e),
        }
    }

    /// Reads a `uint32` field: an unsigned varint, truncated to 32 bits.
    pub fn read_uint32(&mut self, bytes: &[u8]) -> (r: Result<u32, Error>)
        requires
            old(self).wf(bytes@),
        ensures
            final(self).wf(bytes@),
            final(self).bound() == old(self).bound(),
            old(self).pos() <= final(self).pos(),
            (r is Ok <==> varint_found(bytes@, *old(self))),
            r matches Ok(v) ==> varint_read_ok(bytes@, *old(self), *final(self)) && v as nat
                == varint_read_value(bytes@, *old(self), *final(self)) % 0x1_0000_0000,
            (r == Err::<u32, Error>(Error::Varint) <==> varint_overlong(bytes@, *old(self))),
            (r == Err::<u32, Error>(Error::UnexpectedEndOfBuffer) <==> varint_runs_out(
                bytes@,
                *old(self),
            )),
    {
        self.read_varint32(bytes)
    }

    /// Reads a `uint64` field: an unsigned varint.
    pub fn read_uint64(&mut self, bytes: &[u8]) -> (r: Result<u64, Error>)
        requires
            old(self).wf(bytes@),
        ensures
            final(self).wf(bytes@),
            final(self).bound() == old(self).bound(),
            old(self).pos() <= final(self).pos(),
            (r is Ok <==> varint_found(bytes@, *old(self))),
            r matches Ok(v) ==> varint_read_ok(bytes@, *old(self), *final(self)) && v as nat
                == varint_read_value(bytes@, *old(self), *final(self)) % 0x1_0000_0000_0000_0000,
            (r == Err::<u64, Error>(Error::Varint) <==> varint_overlong(bytes@, *old(self))),
            (r == Err::<u64, Error>(Error::UnexpectedEndOfBuffer) <==> varint_runs_out(
                bytes@,
                *old(self),
            )),
    {
        self.read_varint64(bytes)
    }

    /// Reads a `sint32` field: an unsigned varint, zig-zag decoded.
    pub fn read_sint32(&mut self, bytes: &[u8]) -> (r: Result<i32, Error>)
        requires
            old(self).wf(bytes@),
        ensures
            final(self).wf(bytes@),
            final(self).bound() == old(self).bound(),
            old(self).pos() <= final(self).pos(),
            (r is Ok <==> varint_found(bytes@, *old(self))),
            r matches Ok(v) ==> varint_read_ok(bytes@, *old(self), *final(self)) && v
                == crate::wire::zigzag_dec32(
                ((varint_read_value(bytes@, *old(self), *final(self)) % 0x1_0000_0000) as u32),
            ),
            (r == Err::<i32, Error>(Error::Varint) <==> varint_overlong(bytes@, *old(self))),
            (r == Err::<i32, Error>(Error::UnexpectedEndOfBuffer) <==> varint_runs_out(
                bytes@,
                *old(self),
            )),
    {
        match self.read_varint32(bytes) {
            Ok(n) => {
                proof {
                    assert(n & 1 < 2) by (bit_vector);
                }
                Ok(
                    (#[verifier::truncate]
                    ((n >> 1) as i32)) ^ (-(#[verifier::truncate]
                    ((n & 1) as i32))),
                )
            },
            Err(e) => Err(e),
        }
    }

    /// Reads a `sint64` field: an unsigned varint, zig-zag decoded.
    pub fn read_sint64(&mut self, bytes: &[u8]) -> (r: Result<i64, Error>)
        requires
            old(self).wf(bytes@),
        ensures
            final(self).wf(bytes@),
            final(self).bound() == old(self).bound(),
            old(self).pos() <= final(self).pos(),
            (r is Ok <==> varint_found(bytes@, *old(self))),
            r matches Ok(v) ==> varint_read_ok(bytes@, *old(self), *final(self)) && v
                == crate::wire::zigzag_dec64(
                ((varint_read_value(bytes@, *old(self), *final(self))
                    % 0x1_0000_0000_0000_0000) as u64),
            ),
            (r == Err::<i64, Error>(Error::Varint) <==> varint_overlong(bytes@, *old(self))),
            (r == Err::<i64, Error>(Error::UnexpectedEndOfBuffer) <==> varint_runs_out(
                bytes@,
                *old(self),
            )),
    {
        match self.read_varint64(bytes) {
            Ok(n) => {
                proof {
                    assert(n & 1 < 2) by (bit_vector);
                }
                Ok(
                    (#[verifier::truncate]
                    ((n >> 1) as i64)) ^ (-(#[verifier::truncate]
                    ((n & 1) as i64))),
                )
            },
            Err(e) => Err(e),
        }
    }

    /// Reads a `bool` field: a varint that is `false` exactly when its low
    /// 32 bits are zero.
    pub fn read_bool(&mut self, bytes: &[u8]) -> (r: Result<bool, Error>)
        requires
            old(self).wf(bytes@),
        ensures
            final(self).wf(bytes@),
            final(self).bound() == old(self).bound(),
            old(self).pos() <= final(self).pos(),
            (r is Ok <==> varint_found(bytes@, *old(self))),
            r matches Ok(v) ==> varint_read_ok(bytes@, *old(self), *final(self)) && v == (
            varint_read_value(bytes@, *old(self), *final(self)) % 0x1_0000_0000 != 0),
            (r == Err::<bool, Error>(Error::Varint) <==> varint_overlong(bytes@, *old(self))),
            (r == Err::<bool, Error>(Error::UnexpectedEndOfBuffer) <==> varint_runs_out(
                bytes@,
                *old(self),
            )),
    {
        match self.read_varint32(bytes) {
            Ok(n) => Ok(n != 0),
            Err(e) => Err(e),
        }
    }

    /// Reads an `enum` field: an `int32`, handed to the enum's own
    /// conversion from `i32`.
    pub fn read_enum<E: From<i32>>(&mut self, bytes: &[u8]) -> (r: Result<E, Error>)
        requires
            old(self).wf(bytes@),
        ensures
            final(self).wf(bytes@),
            final(self).bound() == old(self).bound(),
            old(self).pos() <= final(self).pos(),
            (r is Ok <==> varint_found(bytes@, *old(self))),
            r matches Ok(v) ==> varint_read_ok(bytes@, *old(self), *final(self)) && call_ensures(
                E::from,
                (((varint_read_value(bytes@, *old(self), *final(self))
                    % 0x1_0000_0000) as u32 as i32),),
                v,
            ),
            (r matches Err(e) ==> (e == Error::Varint <==> varint_overlong(bytes@, *old(self)))),
            (r matches Err(e) ==> (e == Error::UnexpectedEndOfBuffer <==> varint_runs_out(
                bytes@,
                *old(self),
            ))),
    {
        match self.read_int32(bytes) {
            Ok(n) => Ok(E::from(n)),
            Err(e) => Err(e),
        }
    }

    /// Reads a `fixed64` field: eight little-endian bytes, unsigned.
    pub fn read_fixed64(&mut self, bytes: &[u8]) -> (r: Result<u64, Error>)
        requires
            old(self).wf(bytes@),
        ensures
            final(self).wf(bytes@),
            final(self).bound() == old(self).bound(),
            (r is Ok <==> old(self).pos() + 8 <= old(self).bound()),
            r matches Ok(v) ==> final(self).pos() == old(self).pos() + 8 && v as nat == le_value(
                bytes@.subrange(old(self).pos(), old(self).pos() + 8),
            ),
            r is Err ==> r == Err::<u64, Error>(Error::UnexpectedEndOfBuffer) && *final(self)
                == *old(self),
    {
        if self.end - self.start < 8 {
            return Err(Error::UnexpectedEndOfBuffer);
        }
        let v = le_read_u64(bytes, self.start);
        self.start = self.start + 8;
        Ok(v)
    }

    /// Reads a `fixed32` field: four little-endian bytes, unsigned.
    pub fn read_fixed32(&mut self, bytes: &[u8]) -> (r: Result<u32, Error>)
        requires
            old(self).wf(bytes@),
        ensures
            final(self).wf(bytes@),
            final(self).bound() == old(self).bound(),
            (r is Ok <==> old(self).pos() + 4 <= old(self).bound()),
            r matches Ok(v) ==> final(self).pos() == old(self).pos() + 4 && v as nat == le_value(
                bytes@.subrange(old(self).pos(), old(self).pos() + 4),
            ),
            r is Err ==> r == Err::<u32, Error>(Error::UnexpectedEndOfBuffer) && *final(self)
                == *old(self),
    {
        if self.end - self.start < 4 {
            return Err(Error::UnexpectedEndOfBuffer);
        }
        let v = le_read_u32(bytes, self.start);
        self.start = self.start + 4;
        Ok(v)
    }

    /// Reads an `sfixed64` field: eight little-endian bytes, two's
    /// complement.
    pub fn read_sfixed64(&mut self, bytes: &[u8]) -> (r: Result<i64, Error>)
        requires
            old(self).wf(bytes@),
        ensures
            final(self).wf(bytes@),
            final(self).bound() == old(self).bound(),
            (r is Ok <==> old(self).pos() + 8 <= old(self).bound()),
            r matches Ok(v) ==> final(self).pos() == old(self).pos() + 8 && v == (le_value(
                bytes@.subrange(old(self).pos(), old(self).pos() + 8),
            ) as u64) as i64,
            r is Err ==> r == Err::<i64, Error>(Error::UnexpectedEndOfBuffer) && *final(self)
                == *old(self),
    {
        proof {
            lemma2_to64();
            vstd::arithmetic::power2::lemma2_to64_rest();
            crate::wire::lemma_le_value_bound(
                bytes@.subrange(old(self).pos(), old(self).pos() + 8),
            );
        }
        match self.read_fixed64(bytes) {
            Ok(n) => Ok(
                #[verifier::truncate]
                (n as i64),
            ),
            Err(e) => Err(e),
        }
    }

    /// Reads an `sfixed32` field: four little-endian bytes, two's
    /// complement.
    pub fn read_sfixed32(&mut self, bytes: &[u8]) -> (r: Result<i32, Error>)
        requires
            old(self).wf(bytes@),
        ensures
            final(self).wf(bytes@),
            final(self).bound() == old(self).bound(),
            (r is Ok <==> old(self).pos() + 4 <= old(self).bound()),
            r matches Ok(v) ==> final(self).pos() == old(self).pos() + 4 && v == (le_value(
                bytes@.subrange(old(self).pos(), old(self).pos() + 4),
            ) as u32) as i32,
            r is Err ==> r == Err::<i32, Error>(Error::UnexpectedEndOfBuffer) && *final(self)
                == *old(self),
    {
        proof {
            lemma2_to64();
            crate::wire::lemma_le_value_bound(
                bytes@.subrange(old(self).pos(), old(self).pos() + 4),
            );
        }
        match self.read_fixed32(bytes) {
            Ok(n) => Ok(
                #[verifier::truncate]
                (n as i32),
            ),
            Err(e) => Err(e),
        }
    }

    /// Reads a `bytes` field: a varint length, then a borrowed sub-slice of
    /// exactly that many bytes. The slice borrows from the caller's buffer;
    /// nothing is copied.
    pub fn read_bytes<'a>(&mut self, bytes: &'a [u8]) -> (r: Result<&'a [u8], Error>)
        requires
            old(self).wf(bytes@),
        ensures
            final(self).wf(bytes@),
            final(self).bound() == old(self).bound(),
            old(self).pos() <= final(self).pos(),
            r matches Ok(v) ==> ({
                let p = old(self).pos();
                let n = final(self).pos() - p - v@.len();
                &&& is_varint_at(bytes@, p, n)
                &&& n <= 10
                &&& varint_value_at(bytes@, p, n) % 0x1_0000_0000 == v@.len()
                &&& final(self).pos() == p + n + v@.len()
                &&& final(self).pos() <= old(self).bound()
                &&& v@ == bytes@.subrange(p + n, final(self).pos())
            }),
            (r == Err::<&'a [u8], Error>(Error::Varint) <==> varint_overlong(bytes@, *old(self))),
            varint_runs_out(bytes@, *old(self)) ==> r == Err::<&'a [u8], Error>(
                Error::UnexpectedEndOfBuffer,
            ),
            r == Err::<&'a [u8], Error>(Error::UnexpectedEndOfBuffer) && varint_found(
                bytes@,
                *old(self),
            ) ==> ({
                let p = old(self).pos();
                let n = final(self).pos() - p;
                &&& is_varint_at(bytes@, p, n)
                &&& varint_value_at(bytes@, p, n) % 0x1_0000_0000 > old(self).bound() - final(self).pos()
            }),
            r is Err ==> r == Err::<&'a [u8], Error>(Error::Varint) || r == Err::<&'a [u8], Error>(
                Error::UnexpectedEndOfBuffer,
            ),
    {
        let len32 = self.read_varint32(bytes)?;
        let len = len32 as usize;
        if self.end - self.start < len {
            return Err(Error::UnexpectedEndOfBuffer);
        }
        let v = vstd::slice::slice_subrange(bytes, self.start, self.start + len);
        self.start = self.start + len;
        Ok(v)
    }

    /// Reads a `string` field: a `bytes` field whose payload must be valid
    /// UTF-8; anything else fails with [`Error::Utf8`]. The string borrows
    /// from the caller's buffer.
    pub fn read_string<'a>(&mut self, bytes: &'a [u8]) -> (r: Result<&'a str, Error>)
        requires
            old(self).wf(bytes@),
        ensures
            final(self).wf(bytes@),
            final(self).bound() == old(self).bound(),
            old(self).pos() <= final(self).pos(),
            r matches Ok(v) ==> ({
                let p = old(self).pos();
                let n = final(self).pos() - p - v.spec_bytes().len();
                &&& is_varint_at(bytes@, p, n)
                &&& n <= 10
                &&& varint_value_at(bytes@, p, n) % 0x1_0000_0000 == v.spec_bytes().len()
                &&& final(self).pos() == p + n + v.spec_bytes().len()
                &&& final(self).pos() <= old(self).bound()
                &&& v.spec_bytes() == bytes@.subrange(p + n, final(self).pos())
                &&& valid_utf8(v.spec_bytes())
            }),
            r == Err::<&'a str, Error>(Error::Utf8) ==> exists|n: int|
                {
                    &&& #[trigger] is_varint_at(bytes@, old(self).pos(), n)
                    &&& n <= 10
                    &&& final(self).pos() == old(self).pos() + n + (varint_value_at(
                        bytes@,
                        old(self).pos(),
                        n,
                    ) % 0x1_0000_0000)
                    &&& !valid_utf8(
                        bytes@.subrange(old(self).pos() + n, final(self).pos()),
                    )
                },
            (r == Err::<&'a str, Error>(Error::Varint) <==> varint_overlong(bytes@, *old(self))),
            varint_runs_out(bytes@, *old(self)) ==> r == Err::<&'a str, Error>(
                Error::UnexpectedEndOfBuffer,
            ),
            r == Err::<&'a str, Error>(Error::UnexpectedEndOfBuffer) && varint_found(
                bytes@,
                *old(self),
            ) ==> ({
                let p = old(self).pos();
                let n = final(self).pos() - p;
                &&& is_varint_at(bytes@, p, n)
                &&& varint_value_at(bytes@, p, n) % 0x1_0000_0000 > old(self).bound() - final(self).pos()
            }),
            r is Err ==> r == Err::<&'a str, Error>(Error::Varint) || r == Err::<&'a str, Error>(
                Error::UnexpectedEndOfBuffer,
            ) || r == Err::<&'a str, Error>(Error::Utf8),
    {
        let ghost pre = *self;
        let v = self.read_bytes(bytes)?;
        let ghost n = self.pos() - pre.pos() - v@.len();
        match try_str_from_utf8(v) {
            Some(t) => Ok(t),
            None => {
                proof {
                    assert(is_varint_at(bytes@, pre.pos(), n) && n <= 10 && self.pos() == pre.pos()
                        + n + (varint_value_at(bytes@, pre.pos(), n) % 0x1_0000_0000)
                        && !valid_utf8(bytes@.subrange(pre.pos() + n, self.pos())));
                }
                Err(Error::Utf8)
            },
        }
    }

    /// Reads a nested message: a varint length, then the message itself,
    /// read by its own implementation inside a scope narrowed to exactly
    /// that many bytes. On success the cursor stands just past the scope,
    /// whether or not the implementation consumed all of it.
    pub fn read_message<'a, M: MessageRead<'a>>(&mut self, bytes: &'a [u8]) -> (r: Result<
        M,
        Error,
    >)
        requires
            old(self).wf(bytes@),
        ensures
            final(self).wf(bytes@),
            final(self).bound() == old(self).bound(),
            old(self).pos() <= final(self).pos(),
            r is Ok ==> exists|n: int|
                {
                    &&& #[trigger] is_varint_at(bytes@, old(self).pos(), n)
                    &&& n <= 10
                    &&& final(self).pos() == old(self).pos() + n + (varint_value_at(
                        bytes@,
                        old(self).pos(),
                        n,
                    ) % 0x1_0000_0000)
                    &&& final(self).pos() <= old(self).bound()
                },
            varint_overlong(bytes@, *old(self)) ==> r == Err::<M, Error>(Error::Varint),
            varint_runs_out(bytes@, *old(self)) ==> r == Err::<M, Error>(
                Error::UnexpectedEndOfBuffer,
            ),
            !varint_found(bytes@, *old(self)) ==> r is Err,
            (exists|n: int|
                #[trigger] is_varint_at(bytes@, old(self).pos(), n) && n <= 10 && old(self).pos()
                    + n <= old(self).bound() && varint_value_at(bytes@, old(self).pos(), n)
                    % 0x1_0000_0000 > old(self).bound() - old(self).pos() - n) ==> r == Err::<
                M,
                Error,
            >(Error::UnexpectedEndOfBuffer),
            (exists|n: int|
                #[trigger] is_varint_at(bytes@, old(self).pos(), n) && n <= 10 && old(self).pos()
                    + n <= old(self).bound() && varint_value_at(bytes@, old(self).pos(), n)
                    % 0x1_0000_0000 <= old(self).bound() - old(self).pos() - n) ==> (exists|
                n: int,
                rd: &mut BytesReader,
                q: Result<M, Error>,
            |
                {
                    &&& #[trigger] is_varint_at(bytes@, old(self).pos(), n)
                    &&& n <= 10
                    &&& q == r
                    &&& mut_ref_current(rd).pos() == old(self).pos() + n
                    &&& mut_ref_current(rd).bound() == old(self).pos() + n + (varint_value_at(
                        bytes@,
                        old(self).pos(),
                        n,
                    ) % 0x1_0000_0000)
                    &&& #[trigger] call_ensures(M::from_reader, (rd, bytes), q)
                }),
    {
        let ghost pre = *self;
        let len32 = self.read_varint32(bytes)?;
        let ghost na = self.pos() - pre.pos();
        let len = len32 as usize;
        if self.end - self.start < len {
            proof {
                if exists|n: int|
                    #[trigger] is_varint_at(bytes@, pre.pos(), n) && n <= 10 && pre.pos() + n
                        <= pre.bound() && varint_value_at(bytes@, pre.pos(), n) % 0x1_0000_0000
                        <= pre.bound() - pre.pos() - n {
                    let n = choose|n: int|
                        #[trigger] is_varint_at(bytes@, pre.pos(), n) && n <= 10 && pre.pos() + n
                            <= pre.bound() && varint_value_at(bytes@, pre.pos(), n) % 0x1_0000_0000
                            <= pre.bound() - pre.pos() - n;
                    crate::wire::lemma_varint_at_unique(bytes@, pre.pos(), n, na);
                }
            }
            return Err(Error::UnexpectedEndOfBuffer);
        }
        let cur_end = self.end;
        self.end = self.start + len;
        match M::from_reader(self, bytes) {
            Ok(v) => {
                self.start = self.end;
                self.end = cur_end;
                proof {
                    assert(is_varint_at(bytes@, pre.pos(), na));
                    if exists|n: int|
                        #[trigger] is_varint_at(bytes@, pre.pos(), n) && n <= 10 && pre.pos() + n
                            <= pre.bound() && varint_value_at(bytes@, pre.pos(), n) % 0x1_0000_0000
                            > pre.bound() - pre.pos() - n {
                        let n = choose|n: int|
                            #[trigger] is_varint_at(bytes@, pre.pos(), n) && n <= 10 && pre.pos()
                                + n <= pre.bound() && varint_value_at(bytes@, pre.pos(), n)
                                % 0x1_0000_0000 > pre.bound() - pre.pos() - n;
                        crate::wire::lemma_varint_at_unique(bytes@, pre.pos(), n, na);
                    }
                }
                Ok(v)
            },
            Err(e) => {
                self.end = cur_end;
                proof {
                    assert(is_varint_at(bytes@, pre.pos(), na));
                    if exists|n: int|
                        #[trigger] is_varint_at(bytes@, pre.pos(), n) && n <= 10 && pre.pos() + n
                            <= pre.bound() && varint_value_at(bytes@, pre.pos(), n) % 0x1_0000_0000
                            > pre.bound() - pre.pos() - n {
                        let n = choose|n: int|
                            #[trigger] is_varint_at(bytes@, pre.pos(), n) && n <= 10 && pre.pos()
                                + n <= pre.bound() && varint_value_at(bytes@, pre.pos(), n)
                                % 0x1_0000_0000 > pre.bound() - pre.pos() - n;
                        crate::wire::lemma_varint_at_unique(bytes@, pre.pos(), n, na);
                    }
                }
                Err(e)
            },
        }
    }

    /// Reads a nested message that has no length prefix and spans the whole
    /// of `bytes`; the reader must stand at the buffer's start with its full
    /// scope.
    pub fn read_message_without_len<'a, M: MessageRead<'a>>(&mut self, bytes: &'a [u8]) -> (r:
        Result<M, Error>)
        requires
            old(self).wf(bytes@),
        ensures
            final(self).wf(bytes@),
            final(self).bound() == old(self).bound(),
            old(self).pos() <= final(self).pos(),
            r is Ok ==> final(self).pos() == old(self).pos() + bytes@.len() && final(self).pos()
                <= old(self).bound(),
            old(self).bound() - old(self).pos() < bytes@.len() ==> r == Err::<M, Error>(
                Error::UnexpectedEndOfBuffer,
            ) && *final(self) == *old(self),
            old(self).bound() - old(self).pos() >= bytes@.len() ==> (exists|
                rd: &mut BytesReader,
                q: Result<M, Error>,
            |
                {
                    &&& q == r
                    &&& mut_ref_current(rd).pos() == old(self).pos()
                    &&& mut_ref_current(rd).bound() == old(self).pos() + bytes@.len()
                    &&& #[trigger] call_ensures(M::from_reader, (rd, bytes), q)
                }),
    {
        let len = bytes.len();
        if self.end - self.start < len {
            return Err(Error::UnexpectedEndOfBuffer);
        }
        let cur_end = self.end;
        self.end = self.start + len;
        match M::from_reader(self, bytes) {
            Ok(v) => {
                self.start = self.end;
                self.end = cur_end;
                Ok(v)
            },
            Err(e) => {
                self.end = cur_end;
                Err(e)
            },
        }
    }

    /// Reads a nested message of a known length, with no length prefix on
    /// the wire: the scope is narrowed to exactly `len` bytes.
    pub fn read_message_by_len<'a, M: MessageRead<'a>>(
        &mut self,
        bytes: &'a [u8],
        len: usize,
    ) -> (r: Result<M, Error>)
        requires
            old(self).wf(bytes@),
        ensures
            final(self).wf(bytes@),
            final(self).bound() == old(self).bound(),
            old(self).pos() <= final(self).pos(),
            r is Ok ==> final(self).pos() == old(self).pos() + len && final(self).pos() <= old(self).bound(),
            old(self).bound() - old(self).pos() < len ==> r == Err::<M, Error>(
                Error::UnexpectedEndOfBuffer,
            ) && *final(self) == *old(self),
            old(self).bound() - old(self).pos() >= len ==> (exists|
                rd: &mut BytesReader,
                q: Result<M, Error>,
            |
                {
                    &&& q == r
                    &&& mut_ref_current(rd).pos() == old(self).pos()
                    &&& mut_ref_current(rd).bound() == old(self).pos() + len
                    &&& #[trigger] call_ensures(M::from_reader, (rd, bytes), q)
                }),
    {
        if self.end - self.start < len {
            return Err(Error::UnexpectedEndOfBuffer);
        }
        let cur_end = self.end;
        self.end = self.start + len;
        match M::from_reader(self, bytes) {
            Ok(v) => {
                self.start = self.end;
                self.end = cur_end;
                Ok(v)
            },
            Err(e) => {
                self.end = cur_end;
                Err(e)
            },
        }
    }

    /// Reads one map entry: a length-delimited scope holding a key at field
    /// number 1 and a value at field number 2, each read by the caller's
    /// decoder. Each discriminator is decoded as a full varint tag, so the
    /// entry is framed correctly whatever the field number. A missing field
    /// keeps its type's default; a field number other than 1 or 2 fails with
    /// [`Error::MapField`], carrying the number's low eight bits.
    #[verifier::loop_isolation(false)]
    #[verifier::rlimit(30)]
    pub fn read_map<'a, K: Default, V: Default, F: Fn(&mut BytesReader, &'a [u8]) -> Result<
        K,
        Error,
    >, G: Fn(&mut BytesReader, &'a [u8]) -> Result<V, Error>>(
        &mut self,
        bytes: &'a [u8],
        read_key: F,
        read_val: G,
    ) -> (r: Result<(K, V), Error>)
        requires
            old(self).wf(bytes@),
            forall|rd: &mut BytesReader|
                mut_ref_current(rd).wf(bytes@) ==> call_requires(read_key, (rd, bytes)),
            forall|rd: &mut BytesReader|
                mut_ref_current(rd).wf(bytes@) ==> call_requires(read_val, (rd, bytes)),
            forall|rd: &mut BytesReader, out: Result<K, Error>|
                #[trigger] call_ensures(read_key, (rd, bytes), out) ==> (mut_ref_current(rd).wf(
                    bytes@,
                ) ==> mut_ref_future(rd).wf(bytes@) && mut_ref_future(rd).bound()
                    == mut_ref_current(rd).bound() && mut_ref_current(rd).pos() <= mut_ref_future(
                    rd,
                ).pos()),
            forall|rd: &mut BytesReader, out: Result<V, Error>|
                #[trigger] call_ensures(read_val, (rd, bytes), out) ==> (mut_ref_current(rd).wf(
                    bytes@,
                ) ==> mut_ref_future(rd).wf(bytes@) && mut_ref_future(rd).bound()
                    == mut_ref_current(rd).bound() && mut_ref_current(rd).pos() <= mut_ref_future(
                    rd,
                ).pos()),
        ensures
            final(self).wf(bytes@),
            final(self).bound() == old(self).bound(),
            old(self).pos() <= final(self).pos(),
            r is Ok ==> exists|n: int|
                {
                    &&& #[trigger] is_varint_at(bytes@, old(self).pos(), n)
                    &&& n <= 10
                    &&& final(self).pos() == old(self).pos() + n + (varint_value_at(
                        bytes@,
                        old(self).pos(),
                        n,
                    ) % 0x1_0000_0000)
                    &&& final(self).pos() <= old(self).bound()
                },
            varint_overlong(bytes@, *old(self)) ==> r == Err::<(K, V), Error>(Error::Varint),
            varint_runs_out(bytes@, *old(self)) ==> r == Err::<(K, V), Error>(
                Error::UnexpectedEndOfBuffer,
            ),
            !varint_found(bytes@, *old(self)) ==> r is Err,
            r matches Ok(p) ==> ((exists|rd: &mut BytesReader, q: Result<K, Error>|
                q == Ok::<K, Error>(p.0) && #[trigger] call_ensures(read_key, (rd, bytes), q))
                || call_ensures(K::default, (), p.0)),
            r matches Ok(p) ==> ((exists|rd: &mut BytesReader, q: Result<V, Error>|
                q == Ok::<V, Error>(p.1) && #[trigger] call_ensures(read_val, (rd, bytes), q))
                || call_ensures(V::default, (), p.1)),
            map_entry_empty(bytes@, old(self).pos(), old(self).bound()) ==> (r matches Ok(pair)
                && call_ensures(K::default, (), pair.0) && call_ensures(V::default, (), pair.1)),
            map_entry_bad_first_tag(bytes@, old(self).pos(), old(self).bound()) ==> (exists|n: int|
                entry_prefix_at(bytes@, old(self).pos(), old(self).bound(), n) && r == Err::<
                    (K, V),
                    Error,
                >(Error::MapField(#[trigger] bytes@[old(self).pos() + n] >> 3))),
    {
        let ghost pre = *self;
        let ghost s = bytes@;
        let ghost p = pre.pos();
        let ghost e = pre.bound();
        let len32 = self.read_varint32(bytes)?;
        let ghost na = self.pos() - p;
        let len = len32 as usize;
        if self.end - self.start < len {
            proof {
                if map_entry_empty(s, p, e) {
                    let n = choose|n: int|
                        #[trigger] entry_prefix_at(s, p, e, n) && varint_value_at(s, p, n)
                            % 0x1_0000_0000 == 0;
                    crate::wire::lemma_varint_at_unique(s, p, n, na);
                }
                if map_entry_bad_first_tag(s, p, e) {
                    let n = choose|n: int|
                        {
                            &&& #[trigger] entry_prefix_at(s, p, e, n)
                            &&& varint_value_at(s, p, n) % 0x1_0000_0000 > 0
                            &&& p + n + (varint_value_at(s, p, n) % 0x1_0000_0000) <= e
                            &&& !has_cont_bit(s[p + n])
                            &&& s[p + n] >> 3 != 1
                            &&& s[p + n] >> 3 != 2
                        };
                    crate::wire::lemma_varint_at_unique(s, p, n, na);
                }
            }
            return Err(Error::UnexpectedEndOfBuffer);
        }
        let cur_end = self.end;
        self.end = self.start + len;
        let ghost scope_end = self.bound();
        let mut k = K::default();
        let mut v = V::default();
        proof {
            if map_entry_bad_first_tag(s, p, e) {
                let n = choose|n: int|
                    {
                        &&& #[trigger] entry_prefix_at(s, p, e, n)
                        &&& varint_value_at(s, p, n) % 0x1_0000_0000 > 0
                        &&& p + n + (varint_value_at(s, p, n) % 0x1_0000_0000) <= e
                        &&& !has_cont_bit(s[p + n])
                        &&& s[p + n] >> 3 != 1
                        &&& s[p + n] >> 3 != 2
                    };
                crate::wire::lemma_varint_at_unique(s, p, n, na);
            }
        }
        while self.start < self.end
            invariant
                self.wf(bytes@),
                self.bound() == scope_end,
                scope_end <= cur_end <= bytes@.len(),
                p + na <= self.pos(),
                self.pos() == p + na ==> call_ensures(K::default, (), k) && call_ensures(
                    V::default,
                    (),
                    v,
                ),
                self.pos() > p + na ==> !map_entry_bad_first_tag(s, p, e),
                (exists|rd: &mut BytesReader, q: Result<K, Error>|
                    q == Ok::<K, Error>(k) && #[trigger] call_ensures(read_key, (rd, bytes), q))
                    || call_ensures(K::default, (), k),
                (exists|rd: &mut BytesReader, q: Result<V, Error>|
                    q == Ok::<V, Error>(v) && #[trigger] call_ensures(read_val, (rd, bytes), q))
                    || call_ensures(V::default, (), v),
            decreases self.bound() - self.pos(),
        {
            let ghost it_pos = self.pos();
            proof {
                if map_entry_empty(s, p, e) {
                    let n = choose|n: int|
                        #[trigger] entry_prefix_at(s, p, e, n) && varint_value_at(s, p, n)
                            % 0x1_0000_0000 == 0;
                    crate::wire::lemma_varint_at_unique(s, p, n, na);
                    assert(false);
                }
            }
            let t = match self.read_varint32(bytes) {
                Ok(t) => t,
                Err(e2) => {
                    proof {
                        if map_entry_bad_first_tag(s, p, e) {
                            assert(it_pos == p + na);
                            assert(has_cont_bit(s[p + na]));
                            assert(false);
                        }
                    }
                    self.end = cur_end;
                    return Err(e2);
                },
            };
            let f = t >> 3;
            proof {
                if map_entry_bad_first_tag(s, p, e) {
                    assert(it_pos == p + na);
                    let b = s[p + na];
                    assert(is_varint_at(s, p + na, 1));
                    crate::wire::lemma_varint_at_unique(s, p + na, 1, self.pos() - it_pos);
                    assert(varint_value_at(s, p + na, 1) == varint_value_at(s, p + na, 0) + pow2(0)
                        * (payload_bits(b) as nat));
                    lemma2_to64();
                    assert(payload_bits(b) == b && (((b as u32) >> 3) as u8) == (b >> 3) && ((
                    b as u32) >> 3) < 0x20) by (bit_vector)
                        requires
                            b & 0x80 != 0x80,
                    ;
                    lemma_small_mod(b as nat, 0x1_0000_0000);
                    assert(self.pos() - it_pos == 1);
                    assert(t as nat == varint_value_at(s, p + na, 1) % 0x1_0000_0000);
                    assert(varint_value_at(s, p + na, 0) == 0);
                    assert(pow2(0) == 1);
                    assert(pow2(0) * (payload_bits(b) as nat) == payload_bits(b) as nat)
                        by (nonlinear_arith)
                        requires
                            pow2(0) == 1,
                    ;
                    assert(varint_value_at(s, p + na, 1) == b as nat);
                    assert(t == b as u32);
                    assert((b as u32) >> 3 != 1 && (b as u32) >> 3 != 2) by (bit_vector)
                        requires
                            b >> 3 != 1 && b >> 3 != 2,
                    ;
                    assert(f != 1 && f != 2);
                }
            }
            if f == 1 {
                k = match read_key(self, bytes) {
                    Ok(k2) => k2,
                    Err(e2) => {
                        self.end = cur_end;
                        return Err(e2);
                    },
                };
            } else if f == 2 {
                v = match read_val(self, bytes) {
                    Ok(v2) => v2,
                    Err(e2) => {
                        self.end = cur_end;
                        return Err(e2);
                    },
                };
            } else {
                self.end = cur_end;
                proof {
                    if map_entry_bad_first_tag(s, p, e) {
                        let b = s[p + na];
                        assert((#[verifier::truncate] (f as u8)) == b >> 3) by (bit_vector)
                            requires
                                f == (b as u32) >> 3,
                        ;
                        assert(entry_prefix_at(s, p, e, na));
                    }
                }
                return Err(Error::MapField(
                    #[verifier::truncate]
                    (f as u8),
                ));
            }
        }
        self.start = self.end;
        self.end = cur_end;
        proof {
            assert(is_varint_at(bytes@, pre.pos(), self.pos() - len - pre.pos()));
        }
        Ok((k, v))
    }

    /// Skips one unknown field, directed by the wire type in the tag's low
    /// three bits: a varint is consumed and discarded; fixed fields advance
    /// by their width and length-delimited fields by their declared length,
    /// failing with [`Error::Varint`] when fewer bytes remain; group wire
    /// types fail as deprecated, and undefined wire types with
    /// [`Error::UnknownWireType`].
    pub fn read_unknown(&mut self, bytes: &[u8], tag_value: u32) -> (r: Result<(), Error>)
        requires
            old(self).wf(bytes@),
        ensures
            final(self).wf(bytes@),
            final(self).bound() == old(self).bound(),
            old(self).pos() <= final(self).pos(),
            tag_value & 7 == 0 ==> ({
                &&& (r is Ok <==> varint_found(bytes@, *old(self)))
                &&& (r is Ok ==> varint_read_ok(bytes@, *old(self), *final(self)))
                &&& (r == Err::<(), Error>(Error::Varint) <==> varint_overlong(
                    bytes@,
                    *old(self),
                ))
                &&& (r == Err::<(), Error>(Error::UnexpectedEndOfBuffer) <==> varint_runs_out(
                    bytes@,
                    *old(self),
                ))
            }),
            tag_value & 7 == 1 ==> ({
                &&& (r is Ok <==> old(self).pos() + 8 <= old(self).bound())
                &&& (r is Ok ==> final(self).pos() == old(self).pos() + 8)
                &&& (r is Err ==> r == Err::<(), Error>(Error::Varint) && *final(self) == *old(self))
            }),
            tag_value & 7 == 5 ==> ({
                &&& (r is Ok <==> old(self).pos() + 4 <= old(self).bound())
                &&& (r is Ok ==> final(self).pos() == old(self).pos() + 4)
                &&& (r is Err ==> r == Err::<(), Error>(Error::Varint) && *final(self) == *old(self))
            }),
            tag_value & 7 == 2 ==> ({
                &&& (r is Ok ==> exists|n: int|
                    {
                        &&& #[trigger] is_varint_at(bytes@, old(self).pos(), n)
                        &&& n <= 10
                        &&& final(self).pos() == old(self).pos() + n + (varint_value_at(
                            bytes@,
                            old(self).pos(),
                            n,
                        ) % 0x1_0000_0000_0000_0000)
                        &&& final(self).pos() <= old(self).bound()
                    })
                &&& (varint_overlong(bytes@, *old(self)) ==> r == Err::<(), Error>(Error::Varint))
                &&& (r == Err::<(), Error>(Error::UnexpectedEndOfBuffer) <==> varint_runs_out(
                    bytes@,
                    *old(self),
                ))
                &&& (r == Err::<(), Error>(Error::Varint) && varint_found(bytes@, *old(self))
                    ==> ({
                    let p = old(self).pos();
                    let n = final(self).pos() - p;
                    &&& is_varint_at(bytes@, p, n)
                    &&& varint_value_at(bytes@, p, n) % 0x1_0000_0000_0000_0000 > old(self).bound() - final(self).pos()
                }))
                &&& (r is Err ==> r == Err::<(), Error>(Error::Varint) || r == Err::<(), Error>(
                    Error::UnexpectedEndOfBuffer,
                ))
            }),
            tag_value & 7 == 3 || tag_value & 7 == 4 ==> r == Err::<(), Error>(
                Error::Deprecated("group"),
            ) && *final(self) == *old(self),
            tag_value & 7 == 6 || tag_value & 7 == 7 ==> r == Err::<(), Error>(
                Error::UnknownWireType((tag_value & 7) as u8),
            ) && *final(self) == *old(self),
    {
        proof {
            assert(tag_value & 7 < 8) by (bit_vector);
        }
        let wt = tag_value & 7;
        if wt == 0 {
            match self.read_varint64(bytes) {
                Ok(_) => Ok(()),
                Err(e) => Err(e),
            }
        } else if wt == 1 {
            if self.end - self.start < 8 {
                Err(Error::Varint)
            } else {
                self.start = self.start + 8;
                Ok(())
            }
        } else if wt == 5 {
            if self.end - self.start < 4 {
                Err(Error::Varint)
            } else {
                self.start = self.start + 4;
                Ok(())
            }
        } else if wt == 2 {
            let ghost pre = *self;
            let len64 = self.read_varint64(bytes)?;
            if len64 > usize::MAX as u64 {
                return Err(Error::Varint);
            }
            let len = len64 as usize;
            if self.end - self.start < len {
                return Err(Error::Varint);
            }
            self.start = self.start + len;
            proof {
                assert(is_varint_at(bytes@, pre.pos(), self.pos() - len - pre.pos()));
            }
            Ok(())
        } else if wt == 3 || wt == 4 {
            Err(Error::Deprecated("group"))
        } else {
            Err(Error::UnknownWireType(
                #[verifier::truncate]
                (wt as u8),
            ))
        }
    }

    /// The remaining length of bytes not read yet in the current scope.
    pub fn len(&self) -> (r: usize)
        requires
            self.pos() <= self.bound(),
        ensures
            r == self.bound() - self.pos(),
    {
        self.end - self.start
    }

    /// True when the current scope has been read to its end.
    pub fn is_eof(&self) -> (r: bool)
        ensures
            r == (self.pos() == self.bound()),
    {
        self.start == self.end
    }

    /// Advances the cursor to the end of the current scope, discarding
    /// whatever was not read.
    pub fn read_to_end(&mut self)
        ensures
            final(self).pos() == old(self).bound(),
            final(self).bound() == old(self).bound(),
    {
        self.start = self.end;
    }
}

/// Relies on `byteorder_lite::LittleEndian::read_u32`: reads the unsigned
/// 32-bit little-endian integer standing at offset `i` of `b`.
#[verifier::external_body]
fn le_read_u32(b: &[u8], i: usize) -> (r: u32)
    requires
        i + 4 <= b@.len(),
    ensures
        r as nat == le_value(b@.subrange(i as int, i + 4)),
{
    byteorder_lite::LittleEndian::read_u32(&b[i..])
}

/// Relies on `byteorder_lite::LittleEndian::read_u64`: reads the unsigned
/// 64-bit little-endian integer standing at offset `i` of `b`.
#[verifier::external_body]
fn le_read_u64(b: &[u8], i: usize) -> (r: u64)
    requires
        i + 8 <= b@.len(),
    ensures
        r as nat == le_value(b@.subrange(i as int, i + 8)),
{
    byteorder_lite::LittleEndian::read_u64(&b[i..])
}

/// Relies on `core::str::from_utf8`: returns the string over `b` exactly
/// when `b` is valid UTF-8, and nothing otherwise.
#[verifier::external_body]
fn try_str_from_utf8(b: &[u8]) -> (r: Option<&str>)
    ensures
        r matches Some(t) ==> valid_utf8(b@) && t.spec_bytes() == b@,
        r is None ==> !valid_utf8(b@),
{
    core::str::from_utf8(b).ok()
}

/// Deserializes a message from the whole of `bytes`, with no length prefix:
/// the result, success or failure, is exactly what the message's own reader
/// returns over a reader spanning the buffer.
pub fn decode<'a, M: MessageRead<'a>>(bytes: &'a [u8]) -> (r: Result<M, Error>)
    ensures
        exists|rd: &mut BytesReader, q: Result<M, Error>|
            {
                &&& q == r
                &&& mut_ref_current(rd).pos() == 0
                &&& mut_ref_current(rd).bound() == bytes@.len()
                &&& #[trigger] call_ensures(M::from_reader, (rd, bytes), q)
            },
{
    let mut reader = BytesReader::from_bytes(bytes);
    reader.read_message_without_len::<M>(bytes)
}

} // verus!
