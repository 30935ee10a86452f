//! The mathematical model of the wire format: base-128 varints, zig-zag
//! transforms for signed varints, and little-endian fixed-width integers.
//!
//! The reader's and writer's contracts are stated over these functions; the
//! laws at the end relate encoding and decoding.

use vstd::arithmetic::div_mod::lemma_mod_mod;
use vstd::arithmetic::div_mod::lemma_mod_multiples_vanish;
use vstd::arithmetic::power2::lemma2_to64;
use vstd::arithmetic::power2::lemma2_to64_rest;
use vstd::arithmetic::power2::lemma_pow2_adds;
use vstd::arithmetic::power2::lemma_pow2_pos;
use vstd::arithmetic::power2::lemma_pow2_strictly_increases;
use vstd::arithmetic::power2::pow2;
use vstd::prelude::*;

verus! {

/// True when varint byte `b` says that another byte follows.
pub open spec fn has_cont_bit(b: u8) -> bool {
    b & 0x80 == 0x80
}

/// The seven payload bits of a varint byte.
pub open spec fn payload_bits(b: u8) -> u8 {
    b & 0x7f
}

/// Every byte of `s` in `[i, j)` carries the continuation bit.
pub open spec fn all_cont(s: Seq<u8>, i: int, j: int) -> bool {
    forall|k: int| i <= k < j ==> has_cont_bit(#[trigger] s[k])
}

/// A well-formed varint of exactly `n` bytes stands at offset `i` of `s`:
/// `n - 1` continued bytes, then one terminating byte.
pub open spec fn is_varint_at(s: Seq<u8>, i: int, n: int) -> bool {
    &&& 0 <= i
    &&& 1 <= n
    &&& i + n <= s.len()
    &&& all_cont(s, i, i + n - 1)
    &&& !has_cont_bit(s[i + n - 1])
}

/// The unbounded value of the `n`-byte varint at offset `i` of `s`: seven
/// payload bits per byte, least significant group first.
pub open spec fn varint_value_at(s: Seq<u8>, i: int, n: int) -> nat
    decreases n,
{
    if n <= 0 {
        0
    } else {
        varint_value_at(s, i, n - 1) + pow2((7 * (n - 1)) as nat) * (payload_bits(
            s[i + n - 1],
        ) as nat)
    }
}

/// The base-128 encoding of `v`: low seven bits first, continuation bit on
/// every byte but the last.
pub open spec fn varint_enc(v: nat) -> Seq<u8>
    decreases v,
{
    if v < 128 {
        seq![v as u8]
    } else {
        seq![(128 + v % 128) as u8] + varint_enc(v / 128)
    }
}

/// The value of `s` read as a little-endian integer, one byte per place.
pub open spec fn le_value(s: Seq<u8>) -> nat
    decreases s.len(),
{
    if s.len() == 0 {
        0
    } else {
        (s[0] + 256 * le_value(s.drop_first())) as nat
    }
}

/// The `n`-byte little-endian encoding of `v`, least significant byte first.
pub open spec fn le_bytes(v: nat, n: nat) -> Seq<u8>
    decreases n,
{
    if n == 0 {
        Seq::empty()
    } else {
        seq![(v % 256) as u8] + le_bytes(v / 256, (n - 1) as nat)
    }
}

/// Beyond the fifth byte, further varint bytes cannot change the low 32
/// bits of the value: each contributes a multiple of two to the power 35.
pub proof fn lemma_varint_value_mod32(s: Seq<u8>, i: int, n: int)
    requires
        5 <= n,
    ensures
        varint_value_at(s, i, n) % 0x1_0000_0000 == varint_value_at(s, i, 5) % 0x1_0000_0000,
    decreases n,
{
    if n > 5 {
        lemma_varint_value_mod32(s, i, n - 1);
        let p = payload_bits(s[i + n - 1]) as nat;
        lemma2_to64();
        lemma_pow2_adds(32, (7 * (n - 1) - 32) as nat);
        assert(varint_value_at(s, i, n) == varint_value_at(s, i, n - 1) + (pow2(32) * pow2(
            (7 * (n - 1) - 32) as nat,
        )) * p);
        assert((pow2(32) * pow2((7 * (n - 1) - 32) as nat)) * p == pow2(32) * (pow2(
            (7 * (n - 1) - 32) as nat,
        ) * p)) by (nonlinear_arith);
        lemma_mod_multiples_vanish(
            (pow2((7 * (n - 1) - 32) as nat) * p) as int,
            varint_value_at(s, i, n - 1) as int,
            0x1_0000_0000,
        );
    }
}

/// At one offset only one varint length is possible: the first terminating
/// byte settles it.
pub proof fn lemma_varint_at_unique(s: Seq<u8>, i: int, n1: int, n2: int)
    requires
        is_varint_at(s, i, n1),
        is_varint_at(s, i, n2),
    ensures
        n1 == n2,
{
    if n1 < n2 {
        assert(has_cont_bit(s[i + n1 - 1]));
    }
    if n2 < n1 {
        assert(has_cont_bit(s[i + n2 - 1]));
    }
}

/// A little-endian value is bounded by the bytes that carry it.
pub proof fn lemma_le_value_bound(s: Seq<u8>)
    ensures
        le_value(s) < pow2((8 * s.len()) as nat),
    decreases s.len(),
{
    lemma_pow2_pos((8 * s.len()) as nat);
    if s.len() > 0 {
        lemma_le_value_bound(s.drop_first());
        lemma_pow2_adds(8, (8 * (s.len() - 1)) as nat);
        lemma2_to64();
    }
}

/// A little-endian encoding is as long as asked for.
pub proof fn lemma_le_bytes_len(v: nat, n: nat)
    ensures
        le_bytes(v, n).len() == n,
    decreases n,
{
    if n > 0 {
        lemma_le_bytes_len(v / 256, (n - 1) as nat);
    }
}

/// Zig-zag encoding of a 32-bit signed value: small magnitudes map to small
/// unsigned values.
pub open spec fn zigzag_enc32(n: i32) -> u32 {
    ((n << 1) ^ (n >> 31)) as u32
}

/// The `sint32` wire value: the zig-zag encoding, sign-extended to 64 bits
/// as it goes onto the wire.
pub open spec fn zigzag_wire32(n: i32) -> u64 {
    (((n << 1) ^ (n >> 31)) as i32) as u64
}

/// Zig-zag decoding of a 32-bit unsigned value.
pub open spec fn zigzag_dec32(u: u32) -> i32 {
    (((u >> 1) as i32) ^ ((-((u & 1) as i32)) as i32)) as i32
}

/// Zig-zag encoding of a 64-bit signed value.
pub open spec fn zigzag_enc64(n: i64) -> u64 {
    ((n << 1) ^ (n >> 63)) as u64
}

/// Zig-zag decoding of a 64-bit unsigned value.
pub open spec fn zigzag_dec64(u: u64) -> i64 {
    (((u >> 1) as i64) ^ ((-((u & 1) as i64)) as i64)) as i64
}

/// The varint value of a run of bytes can also be taken head first: the
/// first byte's payload, then the rest of the varint shifted up seven bits.
pub proof fn lemma_varint_value_cons(s: Seq<u8>, i: int, n: int)
    requires
        1 <= n,
    ensures
        varint_value_at(s, i, n) == payload_bits(s[i]) + 128 * varint_value_at(s, i + 1, n - 1),
    decreases n,
{
    lemma2_to64();
    if n > 1 {
        lemma_varint_value_cons(s, i, n - 1);
        lemma_pow2_adds(7, (7 * (n - 2)) as nat);
        assert(varint_value_at(s, i, n) == varint_value_at(s, i, n - 1) + pow2((7 * (n - 1)) as nat)
            * (payload_bits(s[i + n - 1]) as nat));
        assert(varint_value_at(s, i + 1, n - 1) == varint_value_at(s, i + 1, n - 2) + pow2(
            (7 * (n - 2)) as nat,
        ) * (payload_bits(s[i + n - 1]) as nat));
        assert(pow2((7 * (n - 1)) as nat) == 128 * pow2((7 * (n - 2)) as nat));
        assert(pow2((7 * (n - 1)) as nat) * (payload_bits(s[i + n - 1]) as nat) == 128 * (pow2(
            (7 * (n - 2)) as nat,
        ) * (payload_bits(s[i + n - 1]) as nat))) by (nonlinear_arith)
            requires
                pow2((7 * (n - 1)) as nat) == 128 * pow2((7 * (n - 2)) as nat),
        ;
        assert(128 * varint_value_at(s, i + 1, n - 1) == 128 * varint_value_at(s, i + 1, n - 2)
            + 128 * (pow2((7 * (n - 2)) as nat) * (payload_bits(s[i + n - 1]) as nat)));
    } else {
        assert(varint_value_at(s, i, 1) == varint_value_at(s, i, 0) + pow2(0) * (payload_bits(
            s[i],
        ) as nat));
        assert(varint_value_at(s, i + 1, 0) == 0);
    }
}

/// The varint value of a run of bytes depends only on those bytes, wherever
/// they stand.
pub proof fn lemma_varint_value_congruence(s1: Seq<u8>, i1: int, s2: Seq<u8>, i2: int, n: int)
    requires
        forall|j: int| 0 <= j < n ==> s1[#[trigger] (i1 + j)] == s2[i2 + j],
    ensures
        varint_value_at(s1, i1, n) == varint_value_at(s2, i2, n),
    decreases n,
{
    if n > 0 {
        lemma_varint_value_congruence(s1, i1, s2, i2, n - 1);
        assert(s1[i1 + (n - 1)] == s2[i2 + (n - 1)]);
    }
}

/// The encoding of any value is a well-formed varint: every byte but the
/// last continues, and the last does not.
pub proof fn lemma_varint_enc_shape(v: nat)
    ensures
        is_varint_at(varint_enc(v), 0, varint_enc(v).len() as int),
    decreases v,
{
    if v < 128 {
        let b = v as u8;
        assert(b & 0x80 != 0x80) by (bit_vector)
            requires
                b < 128,
        ;
    } else {
        let b = (128 + v % 128) as u8;
        let m = (v % 128) as u8;
        assert(((128 + m) as u8) & 0x80 == 0x80) by (bit_vector)
            requires
                m < 128,
        ;
        lemma_varint_enc_shape(v / 128);
        let t = varint_enc(v / 128);
        let e = varint_enc(v);
        assert(e == seq![b] + t);
        assert forall|k: int| 0 <= k < e.len() - 1 implies has_cont_bit(#[trigger] e[k]) by {
            if k > 0 {
                assert(e[k] == t[k - 1]);
            }
        }
        assert(e[e.len() - 1] == t[t.len() - 1]);
    }
}

/// Decoding the encoding of any value yields the value back.
pub proof fn lemma_varint_enc_value(v: nat)
    ensures
        varint_value_at(varint_enc(v), 0, varint_enc(v).len() as int) == v,
    decreases v,
{
    lemma2_to64();
    if v < 128 {
        let b = v as u8;
        assert(b & 0x7f == b) by (bit_vector)
            requires
                b < 128,
        ;
        assert(varint_enc(v) == seq![b]);
        assert(varint_value_at(varint_enc(v), 0, 1) == varint_value_at(varint_enc(v), 0, 0) + pow2(
            0,
        ) * (payload_bits(b) as nat));
    } else {
        let b = (128 + v % 128) as u8;
        let m = (v % 128) as u8;
        assert(((128 + m) as u8) & 0x7f == m) by (bit_vector)
            requires
                m < 128,
        ;
        lemma_varint_enc_value(v / 128);
        let t = varint_enc(v / 128);
        let e = varint_enc(v);
        assert(e == seq![b] + t);
        lemma_varint_value_cons(e, 0, e.len() as int);
        assert forall|j: int| 0 <= j < t.len() implies e[#[trigger] (1 + j)] == t[0 + j] by {
        }
        lemma_varint_value_congruence(e, 1, t, 0, t.len() as int);
        assert(varint_value_at(e, 0, e.len() as int) == v % 128 + 128 * (v / 128));
        assert(v % 128 + 128 * (v / 128) == v) by (nonlinear_arith);
    }
}

/// A value below two to the `7 * k` encodes in at most `k` bytes.
pub proof fn lemma_varint_enc_len_le(v: nat, k: nat)
    requires
        1 <= k,
        v < pow2((7 * k) as nat),
    ensures
        varint_enc(v).len() <= k,
    decreases k,
{
    lemma2_to64();
    if v >= 128 {
        assert(k >= 2) by {
            if k == 1 {
                assert(pow2(7) == 128);
            }
        }
        lemma_pow2_adds(7, (7 * (k - 1)) as nat);
        assert(v / 128 < pow2((7 * (k - 1)) as nat)) by (nonlinear_arith)
            requires
                v < 128 * pow2((7 * (k - 1)) as nat),
        ;
        lemma_varint_enc_len_le(v / 128, (k - 1) as nat);
    }
}

/// A value at least two to the `7 * (k - 1)` needs at least `k` bytes.
pub proof fn lemma_varint_enc_len_ge(v: nat, k: nat)
    requires
        1 <= k,
        v >= pow2((7 * (k - 1)) as nat),
    ensures
        varint_enc(v).len() >= k,
    decreases k,
{
    lemma2_to64();
    if k >= 2 {
        lemma_pow2_adds(7, (7 * (k - 2)) as nat);
        lemma_pow2_pos((7 * (k - 2)) as nat);
        assert(v >= 128) by (nonlinear_arith)
            requires
                v >= 128 * pow2((7 * (k - 2)) as nat),
                pow2((7 * (k - 2)) as nat) >= 1,
        ;
        assert(v / 128 >= pow2((7 * (k - 2)) as nat)) by (nonlinear_arith)
            requires
                v >= 128 * pow2((7 * (k - 2)) as nat),
        ;
        lemma_varint_enc_len_ge(v / 128, (k - 1) as nat);
    }
}

/// Law: varint round-trip. For every 64-bit value, the encoding is a
/// well-formed varint and decoding it yields the value back, with or
/// without the decoder's 64-bit truncation.
pub proof fn lemma_varint_round_trip(v: u64)
    ensures
        is_varint_at(varint_enc(v as nat), 0, varint_enc(v as nat).len() as int),
        varint_value_at(varint_enc(v as nat), 0, varint_enc(v as nat).len() as int) == v,
        varint_value_at(varint_enc(v as nat), 0, varint_enc(v as nat).len() as int)
            % 0x1_0000_0000_0000_0000 == v as nat,
{
    lemma_varint_enc_shape(v as nat);
    lemma_varint_enc_value(v as nat);
}

/// Law: varint length bound. Every 64-bit value encodes in at most ten
/// bytes, and takes all ten exactly when its high bit is set.
pub proof fn lemma_varint_length_bound(v: u64)
    ensures
        1 <= varint_enc(v as nat).len() <= 10,
        varint_enc(v as nat).len() == 10 <==> v >= 0x8000_0000_0000_0000,
{
    lemma2_to64();
    lemma2_to64_rest();
    lemma_pow2_strictly_increases(64, 70);
    lemma_varint_enc_len_le(v as nat, 10);
    assert(varint_enc(v as nat).len() >= 1);
    if v >= 0x8000_0000_0000_0000 {
        lemma_varint_enc_len_ge(v as nat, 10);
    } else {
        lemma_varint_enc_len_le(v as nat, 9);
    }
}

/// Law: silent truncation parity. Reading a varint as 32 bits yields
/// exactly the low 32 bits of what the 64-bit read of the same bytes
/// yields.
pub proof fn lemma_varint32_truncation(s: Seq<u8>, i: int, n: int)
    ensures
        varint_value_at(s, i, n) % 0x1_0000_0000 == (varint_value_at(s, i, n)
            % 0x1_0000_0000_0000_0000) % 0x1_0000_0000,
{
    lemma_mod_mod(varint_value_at(s, i, n) as int, 0x1_0000_0000, 0x1_0000_0000);
}

/// Law: zig-zag round-trip, 32 bits. Decoding the encoding of any signed
/// value yields the value back.
pub proof fn lemma_zigzag_round_trip32(n: i32)
    ensures
        zigzag_dec32(zigzag_enc32(n)) == n,
{
    assert(zigzag_dec32(zigzag_enc32(n)) == n) by (bit_vector);
}

/// Law: zig-zag round-trip, 64 bits.
pub proof fn lemma_zigzag_round_trip64(n: i64)
    ensures
        zigzag_dec64(zigzag_enc64(n)) == n,
{
    assert(zigzag_dec64(zigzag_enc64(n)) == n) by (bit_vector);
}

/// Law: the sign-extended wire form of a `sint32` decodes to the value
/// back once the reader truncates it to 32 bits.
pub proof fn lemma_zigzag_wire_round_trip32(n: i32)
    ensures
        zigzag_dec32(((zigzag_wire32(n) as nat % 0x1_0000_0000) as u32)) == n,
{
    assert(zigzag_dec32(((zigzag_wire32(n) as nat % 0x1_0000_0000) as u32)) == n) by (bit_vector);
}

/// Law: little-endian round-trip. A value below two to the `8 * n` comes
/// back from its `n`-byte little-endian encoding.
pub proof fn lemma_le_round_trip(v: nat, n: nat)
    requires
        v < pow2((8 * n) as nat),
    ensures
        le_value(le_bytes(v, n)) == v,
    decreases n,
{
    lemma2_to64();
    if n == 0 {
        assert(pow2(0) == 1);
    } else {
        lemma_pow2_adds(8, (8 * (n - 1)) as nat);
        assert(v / 256 < pow2((8 * (n - 1)) as nat)) by (nonlinear_arith)
            requires
                v < 256 * pow2((8 * (n - 1)) as nat),
        ;
        lemma_le_round_trip(v / 256, (n - 1) as nat);
        let t = le_bytes(v / 256, (n - 1) as nat);
        let e = le_bytes(v, n);
        assert(e == seq![(v % 256) as u8] + t);
        assert(e.drop_first() =~= t);
    }
}

} // verus!
