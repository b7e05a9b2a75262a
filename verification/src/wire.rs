//! The Kiwi wire encodings: bytes, bools, base-128 variable-length integers,
//! zigzag signed integers, var-floats, zero-terminated strings, byte arrays.

use vstd::prelude::*;
use vstd::slice::slice_subrange;
use crate::binary::{from_utf8_lossy, utf8_lossy};
use crate::error::{KErr, KiwiError};

verus! {

/// The low seven bits of a var-int byte.
pub open spec fn low7(b: u8) -> u8 {
    b & 127u8
}

/// Number of bytes of the var-int that starts at `i`, reading at most `max`
/// bytes: up to and including the first byte below 128, or `max` bytes.
/// `None` when the data ends first.
pub open spec fn varint_len(s: Seq<u8>, i: int, max: nat) -> Option<nat>
    decreases max,
{
    if i < 0 || i >= s.len() || max == 0 {
        None
    } else if s[i] < 128 || max == 1 {
        Some(1)
    } else {
        match varint_len(s, i + 1, (max - 1) as nat) {
            Some(k) => Some(k + 1),
            None => None,
        }
    }
}

/// The first `n` base-128 digits at `i`, little-endian, each shifted into a
/// `u32` (bits shifted past bit 31 are dropped).
pub open spec fn varint_value32(s: Seq<u8>, i: int, n: nat) -> u32
    decreases n,
{
    if n == 0 {
        0
    } else {
        varint_value32(s, i, (n - 1) as nat) | ((low7(s[i + n - 1]) as u32) << ((7 * (n - 1)) as u32))
    }
}

/// As `varint_value32`, into a `u64`.
pub open spec fn varint_value64(s: Seq<u8>, i: int, n: nat) -> u64
    decreases n,
{
    if n == 0 {
        0
    } else {
        varint_value64(s, i, (n - 1) as nat) | ((low7(s[i + n - 1]) as u64) << ((7 * (n - 1)) as u64))
    }
}

/// Zigzag decoding: even codes are non-negative, odd codes negative.
pub open spec fn zigzag(v: int) -> int {
    if v % 2 == 0 { v / 2 } else { -((v + 1) / 2) }
}

/// The var-float bit pattern: the four stored bytes as a little-endian word,
/// rotated left by 23 bits (exponent back in place).
pub open spec fn var_float_bits(b0: u8, b1: u8, b2: u8, b3: u8) -> u32 {
    let w = b0 as int + 256 * (b1 as int) + 65536 * (b2 as int) + 16777216 * (b3 as int);
    ((w % 512) * 8388608 + w / 512) as u32
}

/// The index of the first zero byte at or after `i`.
pub open spec fn first_zero_from(s: Seq<u8>, i: int) -> Option<int>
    decreases s.len() - i,
{
    if i < 0 || i >= s.len() {
        None
    } else if s[i] == 0 {
        Some(i)
    } else {
        first_zero_from(s, i + 1)
    }
}

/// One byte at `p`, and the position after it.
pub open spec fn sp_byte(s: Seq<u8>, p: int) -> Option<(u8, int)> {
    if 0 <= p < s.len() { Some((s[p], p + 1)) } else { None }
}

/// A 32-bit var-uint at `p` (at most five bytes), and the position after it.
pub open spec fn sp_var_uint(s: Seq<u8>, p: int) -> Option<(u32, int)> {
    match varint_len(s, p, 5) {
        Some(n) => Some((varint_value32(s, p, n), p + n)),
        None => None,
    }
}

/// A 64-bit var-uint at `p` (at most ten bytes), and the position after it.
pub open spec fn sp_var_uint64(s: Seq<u8>, p: int) -> Option<(u64, int)> {
    match varint_len(s, p, 10) {
        Some(n) => Some((varint_value64(s, p, n), p + n)),
        None => None,
    }
}

/// A var-float at `p`, as its bit pattern, and the position after it.
pub open spec fn sp_var_float(s: Seq<u8>, p: int) -> Result<(u32, int), KErr> {
    if p < 0 || p >= s.len() {
        Err(KErr::UnexpectedEnd)
    } else if s[p] == 0 {
        Ok((0, p + 1))
    } else if p + 4 > s.len() {
        Err(KErr::TruncatedFloat)
    } else {
        Ok((var_float_bits(s[p], s[p + 1], s[p + 2], s[p + 3]), p + 4))
    }
}

/// A zero-terminated string at `p`, and the position after its terminator.
pub open spec fn sp_string(s: Seq<u8>, p: int) -> Option<(Seq<char>, int)> {
    match first_zero_from(s, p) {
        Some(z) => Some((utf8_lossy(s.subrange(p, z)), z + 1)),
        None => None,
    }
}

/// A var-int is at least one byte long and ends inside the data.
pub proof fn lemma_varint_len_bounds(s: Seq<u8>, i: int, max: nat)
    ensures
        varint_len(s, i, max) matches Some(n) ==> 1 <= n <= max && 0 <= i && i + n <= s.len(),
    decreases max,
{
    if 0 <= i < s.len() && max > 1 && s[i] >= 128 {
        lemma_varint_len_bounds(s, i + 1, (max - 1) as nat);
    }
}

/// The base-128 encoding of `z`: seven low bits per byte, least significant
/// first, the high bit set on every byte but the last.
pub open spec fn leb128(z: nat) -> Seq<u8>
    decreases z,
{
    if z < 128 {
        seq![z as u8]
    } else {
        seq![(z % 128 + 128) as u8] + leb128(z / 128)
    }
}

/// The zigzag code of a signed number: `2n` for `n >= 0`, `-2n - 1` below.
pub open spec fn zigzag_code(n: int) -> nat {
    if n >= 0 { (2 * n) as nat } else { (-2 * n - 1) as nat }
}

/// `128^k`.
spec fn pow128(k: nat) -> nat
    decreases k,
{
    if k == 0 { 1 } else { 128 * pow128((k - 1) as nat) }
}

proof fn lemma_pow128_10()
    ensures
        pow128(10) == 0x400000000000000000nat,
{
    reveal_with_fuel(pow128, 11);
}

proof fn lemma_leb128_len(z: nat, k: nat)
    requires
        k >= 1,
        z < pow128(k),
    ensures
        1 <= leb128(z).len() <= k,
    decreases z,
{
    if z >= 128 {
        assert(k >= 2) by {
            if k == 1 {
                assert(pow128(1) == 128);
            }
        }
        let k1 = (k - 1) as nat;
        assert(z / 128 < pow128(k1)) by (nonlinear_arith)
            requires z < 128 * pow128(k1);
        lemma_leb128_len(z / 128, k1);
    }
}

proof fn lemma_varint_len_shift(s: Seq<u8>, t: Seq<u8>, i: int, j: int, max: nat)
    requires
        0 <= i <= s.len(),
        0 <= j <= t.len(),
        s.subrange(i, s.len() as int) == t.subrange(j, t.len() as int),
    ensures
        varint_len(s, i, max) == varint_len(t, j, max),
    decreases max,
{
    assert(s.subrange(i, s.len() as int).len() == t.subrange(j, t.len() as int).len());
    let ss = s.subrange(i, s.len() as int);
    let tt = t.subrange(j, t.len() as int);
    assert(ss.len() == s.len() - i);
    assert(tt.len() == t.len() - j);
    if i < s.len() {
        assert(j < t.len());
        assert(s[i] == ss[0]);
        assert(t[j] == tt[0]);
        if max > 1 && s[i] >= 128 {
            assert(s.subrange(i + 1, s.len() as int) =~= s.subrange(i, s.len() as int).subrange(1, s.len() - i));
            assert(t.subrange(j + 1, t.len() as int) =~= t.subrange(j, t.len() as int).subrange(1, t.len() - j));
            lemma_varint_len_shift(s, t, i + 1, j + 1, (max - 1) as nat);
        }
    } else {
        assert(s.subrange(i, s.len() as int).len() == 0);
    }
}

proof fn lemma_varint_value_shift(s: Seq<u8>, t: Seq<u8>, i: int, j: int, n: nat)
    requires
        0 <= i,
        i + n <= s.len(),
        0 <= j,
        j + n <= t.len(),
        s.subrange(i, i + n) == t.subrange(j, j + n),
    ensures
        varint_value64(s, i, n) == varint_value64(t, j, n),
    decreases n,
{
    if n > 0 {
        assert(s.subrange(i, i + n - 1) =~= s.subrange(i, i + n).subrange(0, n - 1));
        assert(t.subrange(j, j + n - 1) =~= t.subrange(j, j + n).subrange(0, n - 1));
        lemma_varint_value_shift(s, t, i, j, (n - 1) as nat);
        assert(s[i + n - 1] == s.subrange(i, i + n)[n - 1]);
        assert(t[j + n - 1] == t.subrange(j, j + n)[n - 1]);
    }
}

/// Reading one more digit in front shifts the rest up by seven bits.
proof fn lemma_varint_value_front(s: Seq<u8>, i: int, n: nat)
    requires
        n + 1 <= 10,
    ensures
        varint_value64(s, i, n + 1) == (low7(s[i]) as u64) | (varint_value64(s, i + 1, n) << 7u64),
    decreases n,
{
    let a = low7(s[i]) as u64;
    assert(varint_value64(s, i, 0) == 0u64);
    if n == 0 {
        assert(varint_value64(s, i, 1) == 0u64 | (a << 0u64));
        assert(varint_value64(s, i + 1, 0) == 0u64);
        assert(0u64 | (a << 0u64) == a | (0u64 << 7u64)) by (bit_vector);
    } else {
        lemma_varint_value_front(s, i, (n - 1) as nat);
        let v = varint_value64(s, i + 1, (n - 1) as nat);
        let c = low7(s[i + n]) as u64;
        let sh = (7 * (n - 1)) as u64;
        assert(sh + 7 < 64);
        assert(varint_value64(s, i, n + 1) == varint_value64(s, i, n) | (c << ((sh + 7) as u64)));
        assert(varint_value64(s, i + 1, n) == v | (c << sh));
        assert((a | (v << 7u64)) | (c << ((sh + 7) as u64)) == a | ((v | (c << sh)) << 7u64)) by (bit_vector)
            requires sh + 7 < 64;
    }
}

proof fn lemma_leb128_decodes(z: u64)
    ensures
        leb128(z as nat).len() <= 10,
        varint_len(leb128(z as nat), 0, 10) == Some(leb128(z as nat).len()),
        varint_value64(leb128(z as nat), 0, leb128(z as nat).len()) == z,
    decreases z,
{
    let e = leb128(z as nat);
    lemma_pow128_10();
    lemma_leb128_len(z as nat, 10);
    if z < 128 {
        assert(e == seq![z as u8]);
        let b = z as u8;
        assert(low7(b) == b) by (bit_vector)
            requires b < 128u8;
        assert(varint_value64(e, 0, 0) == 0u64);
        assert(varint_value64(e, 0, 1) == 0u64 | ((low7(e[0]) as u64) << 0u64));
        let x = low7(b) as u64;
        assert(0u64 | (x << 0u64) == x) by (bit_vector);
    } else {
        let q: u64 = z / 128;
        let rest = leb128(q as nat);
        let b = (z % 128 + 128) as u8;
        assert(e == seq![b] + rest);
        lemma_leb128_decodes(q);
        let k = rest.len();
        assert(e.subrange(1, e.len() as int) =~= rest.subrange(0, rest.len() as int));
        lemma_varint_len_shift(e, rest, 1, 0, 9);
        assert(varint_len(rest, 0, 9) == Some(k)) by {
            if k > 9 {
                assert(e.len() == k + 1);
            }
            lemma_varint_len_cap(rest, 0, 10, 9);
        }
        assert(b >= 128);
        assert(e.subrange(1, 1 + k as int) =~= rest.subrange(0, k as int));
        lemma_varint_value_shift(e, rest, 1, 0, k);
        lemma_varint_value_front(e, 0, k);
        let lo = low7(b) as u64;
        assert(lo == z % 128) by (bit_vector)
            requires b == (z % 128 + 128) as u8, lo == (b & 127u8) as u64;
        assert((z % 128) | ((z / 128) << 7u64) == z) by (bit_vector);
    }
}

/// Capping the var-int length at `m` changes nothing when the var-int is
/// shorter than `m`.
proof fn lemma_varint_len_cap(s: Seq<u8>, i: int, max: nat, m: nat)
    requires
        varint_len(s, i, max) matches Some(k) && k <= m && m <= max,
        m >= 1,
    ensures
        varint_len(s, i, m) == varint_len(s, i, max),
    decreases m,
{
    if s[i] >= 128 && max > 1 && m > 1 {
        lemma_varint_len_cap(s, i + 1, (max - 1) as nat, (m - 1) as nat);
    }
}

/// The signed 64-bit var-int round trip: the base-128 encoding of the zigzag
/// code of `n` is read back, in full, as `n`.
pub proof fn law_var_int64_round_trip(n: i64)
    ensures
        ({
            let enc = leb128(zigzag_code(n as int));
            &&& 1 <= enc.len() <= 10
            &&& varint_len(enc, 0, 10) == Some(enc.len())
            &&& zigzag(varint_value64(enc, 0, enc.len()) as int) == n
        }),
{
    let z = zigzag_code(n as int);
    assert(z <= 0xffff_ffff_ffff_ffff);
    lemma_leb128_decodes(z as u64);
    lemma_pow128_10();
    lemma_leb128_len(z, 10);
}

/// The four bytes the Kiwi encoder writes for the `f32` bit pattern `f`:
/// the pattern rotated right by 23 bits (exponent byte first), little-endian.
pub open spec fn kiwi_float_bytes(f: u32) -> Seq<u8> {
    let e = (f as int) / 8388608 + ((f as int) % 8388608) * 512;
    seq![(e % 256) as u8, (e / 256 % 256) as u8, (e / 65536 % 256) as u8, (e / 16777216) as u8]
}

/// Var-float decoding undoes the Kiwi encoder: the four bytes written for any
/// bit pattern `f` (whose first byte is not the zero marker) read back as `f`.
pub proof fn law_var_float_round_trip(f: u32)
    requires
        kiwi_float_bytes(f)[0] != 0,
    ensures
        ({
            let b = kiwi_float_bytes(f);
            &&& b[0] as int + 256 * (b[1] as int) + 65536 * (b[2] as int) + 16777216 * (b[3] as int)
                == ((f >> 23u32) | (f << 9u32)) as int
            &&& var_float_bits(b[0], b[1], b[2], b[3]) == f
            &&& sp_var_float(b, 0) == Ok::<(u32, int), KErr>((f, 4))
        }),
{
    let fi = f as int;
    let q = fi / 8388608;
    let r = fi % 8388608;
    let e = q + r * 512;
    assert(0 <= q < 512 && 0 <= r < 8388608) by (nonlinear_arith)
        requires fi == f as int, 0 <= fi < 0x1_0000_0000, q == fi / 8388608, r == fi % 8388608;
    assert(fi == q * 8388608 + r) by (nonlinear_arith)
        requires q == fi / 8388608, r == fi % 8388608;
    assert(0 <= e < 0x1_0000_0000);
    let b0 = e % 256;
    let b1 = e / 256 % 256;
    let b2 = e / 65536 % 256;
    let b3 = e / 16777216;
    assert(0 <= b0 < 256 && 0 <= b1 < 256 && 0 <= b2 < 256 && 0 <= b3 < 256
        && b0 + 256 * b1 + 65536 * b2 + 16777216 * b3 == e) by (nonlinear_arith)
        requires 0 <= e < 0x1_0000_0000, b0 == e % 256, b1 == e / 256 % 256, b2 == e / 65536 % 256,
            b3 == e / 16777216;
    let b = kiwi_float_bytes(f);
    assert(b[0] as int == b0 && b[1] as int == b1 && b[2] as int == b2 && b[3] as int == b3);
    assert(e % 512 == q && e / 512 == r) by (nonlinear_arith)
        requires e == q + r * 512, 0 <= q < 512, 0 <= r;
    let ev: u32 = e as u32;
    assert(ev as int == e);
    assert(ev == (f >> 23u32) | (f << 9u32)) by (bit_vector)
        requires ev == f / 8388608 + (f % 8388608) * 512;
}

/// A read cursor over a Kiwi message.
pub struct ByteBuf<'m> {
    pub data: &'m [u8],
    pub index: usize,
}

impl<'m> ByteBuf<'m> {
    /// The cursor stays inside the data.
    pub open spec fn wf(&self) -> bool {
        self.index <= self.data@.len()
    }

    /// What is left to read.
    pub open spec fn remaining(&self) -> int {
        self.data@.len() - self.index
    }

    pub fn new(data: &'m [u8]) -> (r: Self)
        ensures
            r.data@ == data@,
            r.index == 0,
            r.wf(),
    {
        ByteBuf { data, index: 0 }
    }

    pub fn read_byte(&mut self) -> (r: Result<u8, KiwiError>)
        requires
            old(self).wf(),
        ensures
            final(self).wf(),
            final(self).data == old(self).data,
            final(self).index >= old(self).index,
            old(self).index < old(self).data@.len() ==> r == Ok::<u8, KiwiError>(old(self).data@[old(self).index as int])
                && final(self).index == old(self).index + 1,
            old(self).index >= old(self).data@.len() ==> r == Err::<u8, KiwiError>(KiwiError::UnexpectedEnd)
                && final(self).index == old(self).index,
    {
        if self.index < self.data.len() {
            let b = self.data[self.index];
            self.index = self.index + 1;
            Ok(b)
        } else {
            Err(KiwiError::UnexpectedEnd)
        }
    }

    pub fn read_bool(&mut self) -> (r: Result<bool, KiwiError>)
        requires
            old(self).wf(),
        ensures
            final(self).wf(),
            final(self).data == old(self).data,
            final(self).index >= old(self).index,
            old(self).index >= old(self).data@.len() ==> r == Err::<bool, KiwiError>(KiwiError::UnexpectedEnd)
                && final(self).index == old(self).index,
            old(self).index < old(self).data@.len() ==> final(self).index == old(self).index + 1 && ({
                let b = old(self).data@[old(self).index as int];
                r == if b == 0 { Ok::<bool, KiwiError>(false) } else if b == 1 { Ok(true) } else { Err(KiwiError::InvalidBool) }
            }),
    {
        let b = self.read_byte()?;
        if b == 0 {
            Ok(false)
        } else if b == 1 {
            Ok(true)
        } else {
            Err(KiwiError::InvalidBool)
        }
    }

    pub fn read_var_uint(&mut self) -> (r: Result<u32, KiwiError>)
        requires
            old(self).wf(),
        ensures
            final(self).wf(),
            final(self).data == old(self).data,
            final(self).index >= old(self).index,
            varint_len(old(self).data@, old(self).index as int, 5) matches Some(n) ==> r == Ok::<u32, KiwiError>(
                varint_value32(old(self).data@, old(self).index as int, n)) && final(self).index == old(self).index + n,
            varint_len(old(self).data@, old(self).index as int, 5) is None ==> r == Err::<u32, KiwiError>(KiwiError::UnexpectedEnd)
                && final(self).index == old(self).data@.len(),
    {
        let ghost s = self.data@;
        let ghost d0 = self.data;
        let ghost i0 = self.index as int;
        let mut shift: u32 = 0;
        let mut result: u32 = 0;
        let mut k: usize = 0;
        loop
            invariant
                self.wf(),
                self.data == d0,
                d0@ == s,
                d0 == old(self).data,
                i0 == old(self).index,
                0 <= k < 5,
                shift == 7 * k,
                self.index == i0 + k,
                result == varint_value32(s, i0, k as nat),
                i0 + k <= s.len(),
                varint_len(s, i0, 5) == (match varint_len(s, i0 + k, (5 - k) as nat) {
                    Some(m) => Some((m + k) as nat),
                    None => None::<nat>,
                }),
            decreases 5 - k,
        {
            if self.index >= self.data.len() {
                return Err(KiwiError::UnexpectedEnd);
            }
            let byte = self.data[self.index];
            self.index = self.index + 1;
            result = result | (((byte & 127u8) as u32) << shift);
            shift = shift + 7;
            k = k + 1;
            if (byte & 128u8) == 0 || shift >= 35 {
                proof {
                    assert((byte & 128u8) == 0 <==> byte < 128) by (bit_vector);
                }
                return Ok(result);
            }
            proof {
                assert((byte & 128u8) != 0 ==> byte >= 128) by (bit_vector);
            }
        }
    }

    pub fn read_var_uint64(&mut self) -> (r: Result<u64, KiwiError>)
        requires
            old(self).wf(),
        ensures
            final(self).wf(),
            final(self).data == old(self).data,
            final(self).index >= old(self).index,
            varint_len(old(self).data@, old(self).index as int, 10) matches Some(n) ==> r == Ok::<u64, KiwiError>(
                varint_value64(old(self).data@, old(self).index as int, n)) && final(self).index == old(self).index + n,
            varint_len(old(self).data@, old(self).index as int, 10) is None ==> r == Err::<u64, KiwiError>(KiwiError::UnexpectedEnd)
                && final(self).index == old(self).data@.len(),
    {
        let ghost s = self.data@;
        let ghost d0 = self.data;
        let ghost i0 = self.index as int;
        let mut shift: u64 = 0;
        let mut result: u64 = 0;
        let mut k: usize = 0;
        loop
            invariant
                self.wf(),
                self.data == d0,
                d0@ == s,
                d0 == old(self).data,
                i0 == old(self).index,
                0 <= k < 10,
                shift == 7 * k,
                self.index == i0 + k,
                result == varint_value64(s, i0, k as nat),
                i0 + k <= s.len(),
                varint_len(s, i0, 10) == (match varint_len(s, i0 + k, (10 - k) as nat) {
                    Some(m) => Some((m + k) as nat),
                    None => None::<nat>,
                }),
            decreases 10 - k,
        {
            if self.index >= self.data.len() {
                return Err(KiwiError::UnexpectedEnd);
            }
            let byte = self.data[self.index];
            self.index = self.index + 1;
            result = result | (((byte & 127u8) as u64) << shift);
            shift = shift + 7;
            k = k + 1;
            if (byte & 128u8) == 0 || shift >= 70 {
                proof {
                    assert((byte & 128u8) == 0 <==> byte < 128) by (bit_vector);
                }
                return Ok(result);
            }
            proof {
                assert((byte & 128u8) != 0 ==> byte >= 128) by (bit_vector);
            }
        }
    }

    pub fn read_var_int(&mut self) -> (r: Result<i32, KiwiError>)
        requires
            old(self).wf(),
        ensures
            final(self).wf(),
            final(self).data == old(self).data,
            final(self).index >= old(self).index,
            varint_len(old(self).data@, old(self).index as int, 5) matches Some(n) ==> r == Ok::<i32, KiwiError>(
                zigzag(varint_value32(old(self).data@, old(self).index as int, n) as int) as i32)
                && final(self).index == old(self).index + n,
            varint_len(old(self).data@, old(self).index as int, 5) is None ==> r == Err::<i32, KiwiError>(KiwiError::UnexpectedEnd)
                && final(self).index == old(self).data@.len(),
    {
        let v = self.read_var_uint()?;
        Ok(zigzag32(v))
    }

    pub fn read_var_int64(&mut self) -> (r: Result<i64, KiwiError>)
        requires
            old(self).wf(),
        ensures
            final(self).wf(),
            final(self).data == old(self).data,
            final(self).index >= old(self).index,
            varint_len(old(self).data@, old(self).index as int, 10) matches Some(n) ==> r == Ok::<i64, KiwiError>(
                zigzag(varint_value64(old(self).data@, old(self).index as int, n) as int) as i64)
                && final(self).index == old(self).index + n,
            varint_len(old(self).data@, old(self).index as int, 10) is None ==> r == Err::<i64, KiwiError>(KiwiError::UnexpectedEnd)
                && final(self).index == old(self).data@.len(),
    {
        let v = self.read_var_uint64()?;
        Ok(zigzag64(v))
    }

    /// Var-float: a zero first byte means 0.0; otherwise four bytes whose
    /// little-endian word, rotated left by 23 bits, is the `f32` bit pattern.
    pub fn read_var_float(&mut self) -> (r: Result<u32, KiwiError>)
        requires
            old(self).wf(),
        ensures
            final(self).wf(),
            final(self).data == old(self).data,
            final(self).index >= old(self).index,
            ({
                let s = old(self).data@;
                let i = old(self).index as int;
                if i >= s.len() {
                    r == Err::<u32, KiwiError>(KiwiError::UnexpectedEnd) && final(self).index == i
                } else if s[i] == 0 {
                    r == Ok::<u32, KiwiError>(0) && final(self).index == i + 1
                } else if i + 4 > s.len() {
                    r == Err::<u32, KiwiError>(KiwiError::TruncatedFloat) && final(self).index == i + 1
                } else {
                    r == Ok::<u32, KiwiError>(var_float_bits(s[i], s[i + 1], s[i + 2], s[i + 3]))
                        && final(self).index == i + 4
                }
            }),
    {
        let first = self.read_byte()?;
        if first == 0 {
            return Ok(0);
        }
        if self.data.len() - self.index < 3 {
            return Err(KiwiError::TruncatedFloat);
        }
        let i = self.index;
        let w: u32 = (first as u32) + 256 * (self.data[i] as u32) + 65536 * (self.data[i + 1] as u32)
            + 16777216 * (self.data[i + 2] as u32);
        self.index = i + 3;
        Ok((w % 512) * 8388608 + w / 512)
    }

    /// A zero-terminated string, decoded as UTF-8 with invalid sequences replaced.
    pub fn read_string(&mut self) -> (r: Result<String, KiwiError>)
        requires
            old(self).wf(),
        ensures
            final(self).wf(),
            final(self).data == old(self).data,
            final(self).index >= old(self).index,
            first_zero_from(old(self).data@, old(self).index as int) matches Some(z) ==> (r matches Ok(st)
                && st@ == utf8_lossy(old(self).data@.subrange(old(self).index as int, z))
                && final(self).index == z + 1),
            first_zero_from(old(self).data@, old(self).index as int) matches Some(z) ==> (r matches Ok(st)
                && (vstd::utf8::valid_utf8(old(self).data@.subrange(old(self).index as int, z))
                ==> st@ == vstd::utf8::decode_utf8(old(self).data@.subrange(old(self).index as int, z)))),
            first_zero_from(old(self).data@, old(self).index as int) is None ==> r == Err::<String, KiwiError>(
                KiwiError::UnterminatedString) && final(self).index == old(self).data@.len(),
    {
        let start = self.index;
        let ghost s = self.data@;
        while self.index < self.data.len()
            invariant
                self.wf(),
                self.data == old(self).data,
                s == self.data@,
                start == old(self).index,
                start <= self.index,
                first_zero_from(s, start as int) == first_zero_from(s, self.index as int),
            decreases self.data@.len() - self.index,
        {
            if self.data[self.index] == 0 {
                let st = from_utf8_lossy(slice_subrange(self.data, start, self.index));
                self.index = self.index + 1;
                return Ok(st);
            }
            self.index = self.index + 1;
        }
        Err(KiwiError::UnterminatedString)
    }

    /// The next `len` bytes, borrowed from the message.
    pub fn take_bytes(&mut self, len: usize) -> (r: Result<&'m [u8], KiwiError>)
        requires
            old(self).wf(),
        ensures
            final(self).wf(),
            final(self).data == old(self).data,
            final(self).index >= old(self).index,
            old(self).index + len <= old(self).data@.len() ==> (r matches Ok(b)
                && b@ == old(self).data@.subrange(old(self).index as int, old(self).index + len)
                && final(self).index == old(self).index + len),
            old(self).index + len > old(self).data@.len() ==> r == Err::<&'m [u8], KiwiError>(KiwiError::TruncatedByteArray)
                && final(self).index == old(self).index,
    {
        if len > self.data.len() - self.index {
            return Err(KiwiError::TruncatedByteArray);
        }
        let out = slice_subrange(self.data, self.index, self.index + len);
        self.index = self.index + len;
        Ok(out)
    }
}

/// Zigzag decoding of a 32-bit code.
fn zigzag32(v: u32) -> (r: i32)
    ensures
        r as int == zigzag(v as int),
{
    let h = v >> 1;
    proof {
        assert(h == v / 2) by (bit_vector)
            requires h == v >> 1;
        assert((v & 1u32 == 0u32) == (v % 2 == 0)) by (bit_vector);
    }
    if v & 1 != 0 {
        let n = !h;
        proof {
            assert(n == 0xffff_ffffu32 - h) by (bit_vector)
                requires n == !h;
        }
        let r = -1i32 - (h as i32);
        assert(r == (n as i32)) by (bit_vector)
            requires n == !h, h == v >> 1u32, r == -1i32 - (h as i32);
        r
    } else {
        h as i32
    }
}

/// Zigzag decoding of a 64-bit code.
fn zigzag64(v: u64) -> (r: i64)
    ensures
        r as int == zigzag(v as int),
{
    let h = v >> 1;
    proof {
        assert(h == v / 2) by (bit_vector)
            requires h == v >> 1;
        assert((v & 1u64 == 0u64) == (v % 2 == 0)) by (bit_vector);
    }
    if v & 1 != 0 {
        -1i64 - (h as i64)
    } else {
        h as i64
    }
}

} // verus!
