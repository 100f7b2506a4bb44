//! Integers in byte buffers, and the CRC-32C checksum.

use vstd::prelude::*;

use crate::error::{CelError, CelResult, ErrorView};
use crate::text::concat;

verus! {

/// The number that a little-endian sequence of bytes stands for.
pub open spec fn le_nat(s: Seq<u8>) -> nat
    decreases s.len(),
{
    if s.len() == 0 {
        0
    } else {
        s[0] as nat + 256 * le_nat(s.skip(1))
    }
}

/// The number that a big-endian sequence of bytes stands for.
pub open spec fn be_nat(s: Seq<u8>) -> nat
    decreases s.len(),
{
    if s.len() == 0 {
        0
    } else {
        256 * be_nat(s.drop_last()) + s.last() as nat
    }
}

pub proof fn lemma_le2(s: Seq<u8>)
    requires
        s.len() == 2,
    ensures
        le_nat(s) == s[0] + 256 * s[1],
{
    reveal_with_fuel(le_nat, 3);
}

pub proof fn lemma_le4(s: Seq<u8>)
    requires
        s.len() == 4,
    ensures
        le_nat(s) == s[0] + 0x100 * s[1] + 0x1_0000 * s[2] + 0x100_0000 * s[3],
{
    lemma_le2(s.skip(2));
    assert(s.skip(1).skip(1) =~= s.skip(2));
    assert(le_nat(s) == s[0] + 256 * le_nat(s.skip(1)));
    assert(le_nat(s.skip(1)) == s[1] + 256 * le_nat(s.skip(2)));
}

pub proof fn lemma_le8(s: Seq<u8>)
    requires
        s.len() == 8,
    ensures
        le_nat(s) == s[0] + 0x100 * s[1] + 0x1_0000 * s[2] + 0x100_0000 * s[3] + 0x1_0000_0000
            * s[4] + 0x100_0000_0000 * s[5] + 0x1_0000_0000_0000 * s[6] + 0x100_0000_0000_0000
            * s[7],
{
    lemma_le4(s.skip(4));
    assert(s.skip(1).skip(1) =~= s.skip(2));
    assert(s.skip(2).skip(1) =~= s.skip(3));
    assert(s.skip(3).skip(1) =~= s.skip(4));
    assert(le_nat(s) == s[0] + 256 * le_nat(s.skip(1)));
    assert(le_nat(s.skip(1)) == s[1] + 256 * le_nat(s.skip(2)));
    assert(le_nat(s.skip(2)) == s[2] + 256 * le_nat(s.skip(3)));
    assert(le_nat(s.skip(3)) == s[3] + 256 * le_nat(s.skip(4)));
}

pub proof fn lemma_be4(s: Seq<u8>)
    requires
        s.len() == 4,
    ensures
        be_nat(s) == 0x100_0000 * s[0] + 0x1_0000 * s[1] + 0x100 * s[2] + s[3],
{
    reveal_with_fuel(be_nat, 5);
}

pub proof fn lemma_be8(s: Seq<u8>)
    requires
        s.len() == 8,
    ensures
        be_nat(s) == 0x100_0000_0000_0000 * s[0] + 0x1_0000_0000_0000 * s[1] + 0x100_0000_0000
            * s[2] + 0x1_0000_0000 * s[3] + 0x100_0000 * s[4] + 0x1_0000 * s[5] + 0x100 * s[6]
            + s[7],
{
    lemma_be4(s.take(4));
    assert(s.drop_last() =~= s.take(7));
    assert(s.take(7).drop_last() =~= s.take(6));
    assert(s.take(6).drop_last() =~= s.take(5));
    assert(s.take(5).drop_last() =~= s.take(4));
    assert(be_nat(s) == 256 * be_nat(s.take(7)) + s[7]);
    assert(be_nat(s.take(7)) == 256 * be_nat(s.take(6)) + s[6]);
    assert(be_nat(s.take(6)) == 256 * be_nat(s.take(5)) + s[5]);
    assert(be_nat(s.take(5)) == 256 * be_nat(s.take(4)) + s[4]);
}

/// Whether `buf` holds `n` bytes at `off`.
pub open spec fn holds(buf: Seq<u8>, off: usize, n: int) -> bool {
    off + n <= buf.len()
}

/// The failure of a read of `n` bytes at `off`: the end of the field is not
/// a position, or the buffer is too short.
pub open spec fn field_error(
    off: usize,
    n: int,
    overflow: &'static str,
    short: &'static str,
) -> CelError {
    if off + n > usize::MAX {
        CelError::Invalid(overflow)
    } else {
        CelError::Invalid(short)
    }
}

/// Reads a big-endian `u32` at `off`.
pub fn be_u32(buf: &[u8], off: usize) -> (r: CelResult<u32>)
    ensures
        match r {
            Ok(v) => holds(buf@, off, 4) && v == be_nat(buf@.subrange(off as int, off + 4)),
            Err(e) => !holds(buf@, off, 4) && e == field_error(
                off,
                4,
                "util: be_u32 overflow",
                "util: be_u32 short read",
            ),
        },
{
    let n: usize = buf.len();
    if off > usize::MAX - 4 {
        return Err(CelError::Invalid("util: be_u32 overflow"));
    }
    if off + 4 > n {
        return Err(CelError::Invalid("util: be_u32 short read"));
    }
    proof {
        lemma_be4(buf@.subrange(off as int, off + 4));
    }
    Ok(
        buf[off] as u32 * 0x100_0000 + buf[off + 1] as u32 * 0x1_0000 + buf[off + 2] as u32 * 0x100
            + buf[off + 3] as u32,
    )
}

/// Reads a big-endian `u64` at `off`.
pub fn be_u64(buf: &[u8], off: usize) -> (r: CelResult<u64>)
    ensures
        match r {
            Ok(v) => holds(buf@, off, 8) && v == be_nat(buf@.subrange(off as int, off + 8)),
            Err(e) => !holds(buf@, off, 8) && e == field_error(
                off,
                8,
                "util: be_u64 overflow",
                "util: be_u64 short read",
            ),
        },
{
    let n: usize = buf.len();
    if off > usize::MAX - 8 {
        return Err(CelError::Invalid("util: be_u64 overflow"));
    }
    if off + 8 > n {
        return Err(CelError::Invalid("util: be_u64 short read"));
    }
    proof {
        lemma_be8(buf@.subrange(off as int, off + 8));
    }
    Ok(
        buf[off] as u64 * 0x100_0000_0000_0000 + buf[off + 1] as u64 * 0x1_0000_0000_0000 + buf[off
            + 2] as u64 * 0x100_0000_0000 + buf[off + 3] as u64 * 0x1_0000_0000 + buf[off
            + 4] as u64 * 0x100_0000 + buf[off + 5] as u64 * 0x1_0000 + buf[off + 6] as u64 * 0x100
            + buf[off + 7] as u64,
    )
}

/// Reads a little-endian `u16` at `off`.
pub fn le_u16(buf: &[u8], off: usize) -> (r: CelResult<u16>)
    ensures
        match r {
            Ok(v) => holds(buf@, off, 2) && v == le_nat(buf@.subrange(off as int, off + 2)),
            Err(e) => !holds(buf@, off, 2) && e == field_error(
                off,
                2,
                "util: le_u16 overflow",
                "util: le_u16 short read",
            ),
        },
{
    let n: usize = buf.len();
    if off > usize::MAX - 2 {
        return Err(CelError::Invalid("util: le_u16 overflow"));
    }
    if off + 2 > n {
        return Err(CelError::Invalid("util: le_u16 short read"));
    }
    proof {
        lemma_le2(buf@.subrange(off as int, off + 2));
    }
    Ok(buf[off] as u16 + buf[off + 1] as u16 * 0x100)
}

/// Reads a little-endian `u32` at `off`.
pub fn le_u32(buf: &[u8], off: usize) -> (r: CelResult<u32>)
    ensures
        match r {
            Ok(v) => holds(buf@, off, 4) && v == le_nat(buf@.subrange(off as int, off + 4)),
            Err(e) => !holds(buf@, off, 4) && e == field_error(
                off,
                4,
                "util: le_u32 overflow",
                "util: le_u32 short read",
            ),
        },
{
    let n: usize = buf.len();
    if off > usize::MAX - 4 {
        return Err(CelError::Invalid("util: le_u32 overflow"));
    }
    if off + 4 > n {
        return Err(CelError::Invalid("util: le_u32 short read"));
    }
    proof {
        lemma_le4(buf@.subrange(off as int, off + 4));
    }
    Ok(
        buf[off] as u32 + buf[off + 1] as u32 * 0x100 + buf[off + 2] as u32 * 0x1_0000 + buf[off
            + 3] as u32 * 0x100_0000,
    )
}

/// Reads a little-endian `u64` at `off`.
pub fn le_u64(buf: &[u8], off: usize) -> (r: CelResult<u64>)
    ensures
        match r {
            Ok(v) => holds(buf@, off, 8) && v == le_nat(buf@.subrange(off as int, off + 8)),
            Err(e) => !holds(buf@, off, 8) && e == field_error(
                off,
                8,
                "util: le_u64 overflow",
                "util: le_u64 short read",
            ),
        },
{
    let n: usize = buf.len();
    if off > usize::MAX - 8 {
        return Err(CelError::Invalid("util: le_u64 overflow"));
    }
    if off + 8 > n {
        return Err(CelError::Invalid("util: le_u64 short read"));
    }
    proof {
        lemma_le8(buf@.subrange(off as int, off + 8));
    }
    Ok(
        buf[off] as u64 + buf[off + 1] as u64 * 0x100 + buf[off + 2] as u64 * 0x1_0000 + buf[off
            + 3] as u64 * 0x100_0000 + buf[off + 4] as u64 * 0x1_0000_0000 + buf[off + 5] as u64
            * 0x100_0000_0000 + buf[off + 6] as u64 * 0x1_0000_0000_0000 + buf[off + 7] as u64
            * 0x100_0000_0000_0000,
    )
}

/// Whether `buf` holds exactly `pat` at `off`.
pub open spec fn matches_at(buf: Seq<u8>, off: int, pat: Seq<u8>) -> bool {
    0 <= off && off + pat.len() <= buf.len() && buf.subrange(off, off + pat.len()) == pat
}

/// See [`matches_at`].
pub fn found_at(buf: &[u8], off: usize, pat: &[u8]) -> (r: bool)
    ensures
        r == matches_at(buf@, off as int, pat@),
{
    let n: usize = buf.len();
    if off > n || n - off < pat.len() {
        return false;
    }
    let mut i: usize = 0;
    while i < pat.len()
        invariant
            i <= pat@.len(),
            n == buf@.len(),
            off + pat@.len() <= n,
            forall|j: int| 0 <= j < i ==> buf@[off + j] == pat@[j],
        decreases pat@.len() - i,
    {
        if buf[off + i] != pat[i] {
            proof {
                let s = buf@.subrange(off as int, off + pat@.len());
                assert(s[i as int] != pat@[i as int]);
            }
            return false;
        }
        i = i + 1;
    }
    assert(buf@.subrange(off as int, off + pat@.len()) =~= pat@);
    true
}

/// Copies part of a buffer.
pub fn part(buf: &[u8], from: usize, to: usize) -> (r: Vec<u8>)
    requires
        from <= to <= buf@.len(),
    ensures
        r@ == buf@.subrange(from as int, to as int),
{
    let mut out: Vec<u8> = Vec::new();
    let mut i: usize = from;
    while i < to
        invariant
            from <= i <= to <= buf@.len(),
            out@ == buf@.subrange(from as int, i as int),
        decreases to - i,
    {
        out.push(buf[i]);
        i = i + 1;
        assert(out@ =~= buf@.subrange(from as int, i as int));
    }
    out
}

/// The big-endian number in `n` bytes at `off`.
pub open spec fn be_at(buf: Seq<u8>, off: int, n: int) -> nat {
    be_nat(buf.subrange(off, off + n))
}

/// The little-endian number in `n` bytes at `off`.
pub open spec fn le_at(buf: Seq<u8>, off: int, n: int) -> nat {
    le_nat(buf.subrange(off, off + n))
}

/// The big-endian 64-bit numbers that a table holds.
pub open spec fn be64_table(raw: Seq<u8>) -> Seq<u64> {
    Seq::new(raw.len() / 8, |i: int| be_at(raw, 8 * i, 8) as u64)
}

/// The little-endian 64-bit numbers that a table holds.
pub open spec fn le64_table(raw: Seq<u8>) -> Seq<u64> {
    Seq::new(raw.len() / 8, |i: int| le_at(raw, 8 * i, 8) as u64)
}

/// The little-endian 32-bit numbers that a table holds.
pub open spec fn le32_table(raw: Seq<u8>) -> Seq<u32> {
    Seq::new(raw.len() / 4, |i: int| le_at(raw, 4 * i, 4) as u32)
}

/// See [`be64_table`].
pub fn be64_entries(raw: &[u8]) -> (r: Vec<u64>)
    ensures
        r@ == be64_table(raw@),
{
    let n: usize = raw.len();
    let mut out: Vec<u64> = Vec::new();
    let mut at: usize = 0;
    while n - at >= 8
        invariant
            at <= n == raw@.len(),
            at == 8 * out@.len(),
            forall|i: int| 0 <= i < out@.len() ==> #[trigger] out@[i] == be64_table(raw@)[i],
        decreases n - at,
    {
        match be_u64(raw, at) {
            Ok(v) => {
                out.push(v);
            },
            Err(_) => {},
        }
        at = at + 8;
    }
    assert(out@ =~= be64_table(raw@));
    out
}

/// See [`le64_table`].
pub fn le64_entries(raw: &[u8]) -> (r: Vec<u64>)
    ensures
        r@ == le64_table(raw@),
{
    let n: usize = raw.len();
    let mut out: Vec<u64> = Vec::new();
    let mut at: usize = 0;
    while n - at >= 8
        invariant
            at <= n == raw@.len(),
            at == 8 * out@.len(),
            forall|i: int| 0 <= i < out@.len() ==> #[trigger] out@[i] == le64_table(raw@)[i],
        decreases n - at,
    {
        match le_u64(raw, at) {
            Ok(v) => {
                out.push(v);
            },
            Err(_) => {},
        }
        at = at + 8;
    }
    assert(out@ =~= le64_table(raw@));
    out
}

/// See [`le32_table`].
pub fn le32_entries(raw: &[u8]) -> (r: Vec<u32>)
    ensures
        r@ == le32_table(raw@),
{
    let n: usize = raw.len();
    let mut out: Vec<u32> = Vec::new();
    let mut at: usize = 0;
    while n - at >= 4
        invariant
            at <= n == raw@.len(),
            at == 4 * out@.len(),
            forall|i: int| 0 <= i < out@.len() ==> #[trigger] out@[i] == le32_table(raw@)[i],
        decreases n - at,
    {
        match le_u32(raw, at) {
            Ok(v) => {
                out.push(v);
            },
            Err(_) => {},
        }
        at = at + 4;
    }
    assert(out@ =~= le32_table(raw@));
    out
}

/// The quotient of two numbers, rounded up.
pub open spec fn ceil(a: nat, b: nat) -> nat {
    if a % b == 0 {
        a / b
    } else {
        a / b + 1
    }
}

/// See [`ceil`].
pub fn ceil_div(a: u64, b: u64) -> (r: u64)
    requires
        b > 0,
    ensures
        r == ceil(a as nat, b as nat),
{
    let q: u64 = a / b;
    if a % b == 0 {
        q
    } else {
        proof {
            vstd::arithmetic::div_mod::lemma_div_is_ordered_by_denominator(a as int, 2, b as int);
        }
        q + 1
    }
}

/// Whether a number is a power of two.
pub fn power_of_two(x: u64) -> (r: bool)
    ensures
        r == vstd::arithmetic::power2::is_pow2(x as int),
{
    reveal(vstd::arithmetic::power2::is_pow2);
    if x == 0 {
        return false;
    }
    let mut y: u64 = x;
    while y % 2 == 0
        invariant
            y > 0,
            vstd::arithmetic::power2::is_pow2(y as int) == vstd::arithmetic::power2::is_pow2(
                x as int,
            ),
        decreases y,
    {
        reveal(vstd::arithmetic::power2::is_pow2);
        y = y / 2;
    }
    y == 1
}

/// Stepping within a unit keeps its number.
pub proof fn lemma_same_unit(offset: nat, k: nat, unit: nat)
    requires
        unit > 0,
        offset % unit + k < unit,
    ensures
        (offset + k) / unit == offset / unit,
        (offset + k) % unit == offset % unit + k,
{
    let (o, u) = (offset as int, unit as int);
    vstd::arithmetic::div_mod::lemma_fundamental_div_mod(o, u);
    vstd::arithmetic::mul::lemma_mul_is_commutative(u, o / u);
    vstd::arithmetic::div_mod::lemma_fundamental_div_mod_converse(o + k, u, o / u, o % u + k);
}

/// What a read of up to `n` bytes at `off` finds in a file.
pub open spec fn clip(file: Seq<u8>, off: nat, n: nat) -> Seq<u8> {
    if off >= file.len() {
        Seq::empty()
    } else if off + n <= file.len() {
        file.subrange(off as int, (off + n) as int)
    } else {
        file.skip(off as int)
    }
}

/// What a read of exactly `n` bytes at `off` finds in a file, if the file
/// reaches that far.
pub open spec fn fetched(file: Seq<u8>, off: nat, n: nat) -> Option<Seq<u8>> {
    if n == 0 || off + n <= file.len() {
        Some(clip(file, off, n))
    } else {
        None
    }
}

/// Largest offset that a file can be positioned at.
pub const MAX_SEEK: u64 = 0x7FFF_FFFF_FFFF_FFFF;

/// The failure to position a file past [`MAX_SEEK`], in the words that Linux has
/// for it.
pub open spec fn unseekable(what: Seq<char>) -> ErrorView {
    ErrorView::Io(what + ": Invalid argument (os error 22)"@)
}

/// See [`unseekable`].
pub fn seek_failure(what: &str) -> (r: CelError)
    ensures
        r@ == unseekable(what@),
{
    CelError::Io(concat(what, ": Invalid argument (os error 22)"))
}

/// See [`clip`].
pub fn read_up_to(file: &[u8], off: u64, n: usize) -> (r: Vec<u8>)
    ensures
        r@ == clip(file@, off as nat, n as nat),
{
    let len: usize = file.len();
    if off >= len as u64 {
        return Vec::new();
    }
    let at: usize = off as usize;
    if n <= len - at {
        part(file, at, at + n)
    } else {
        let r = part(file, at, len);
        assert(r@ =~= file@.skip(at as int));
        r
    }
}

/// See [`fetched`].
pub fn read_whole(file: &[u8], off: u64, n: u64) -> (r: Option<Vec<u8>>)
    ensures
        match r {
            Some(v) => fetched(file@, off as nat, n as nat) == Some(v@),
            None => fetched(file@, off as nat, n as nat) is None,
        },
{
    let len: usize = file.len();
    if n == 0 {
        let v: Vec<u8> = Vec::new();
        assert(clip(file@, off as nat, 0) =~= Seq::empty());
        return Some(v);
    }
    if n > len as u64 || off > len as u64 - n {
        return None;
    }
    Some(part(file, off as usize, (off + n) as usize))
}

/// One bit of the checksum: the state shifts right, and the polynomial is
/// taken off when a one falls out.
pub open spec fn crc_bit(s: u32) -> u32 {
    if s & 1 != 0 {
        (s >> 1) ^ 0x82F6_3B78
    } else {
        s >> 1
    }
}

/// The state after `n` bits.
pub open spec fn crc_bits(s: u32, n: nat) -> u32
    decreases n,
{
    if n == 0 {
        s
    } else {
        crc_bit(crc_bits(s, (n - 1) as nat))
    }
}

/// The state after the bytes of `data`.
pub open spec fn crc_fed(s: u32, data: Seq<u8>) -> u32
    decreases data.len(),
{
    if data.len() == 0 {
        s
    } else {
        crc_bits(crc_fed(s, data.drop_last()) ^ data.last() as u32, 8)
    }
}

/// The CRC-32C (Castagnoli) of `data`.
pub open spec fn crc_of(data: Seq<u8>) -> u32 {
    crc_fed(0xFFFF_FFFF, data) ^ 0xFFFF_FFFF
}

/// Continues a checksum. Start at `0xFFFF_FFFF`, feed any number of chunks,
/// and finish with an exclusive or with `0xFFFF_FFFF`.
pub fn crc32c_continue(state: u32, data: &[u8]) -> (r: u32)
    ensures
        r == crc_fed(state, data@),
{
    let mut s: u32 = state;
    let mut i: usize = 0;
    assert(data@.take(0) =~= Seq::empty());
    while i < data.len()
        invariant
            i <= data@.len(),
            s == crc_fed(state, data@.take(i as int)),
        decreases data@.len() - i,
    {
        let ghost before = s;
        s = s ^ (data[i] as u32);
        let ghost mixed = s;
        let mut k: u32 = 0;
        while k < 8
            invariant
                k <= 8,
                s == crc_bits(mixed, k as nat),
            decreases 8 - k,
        {
            s = if s & 1 != 0 {
                (s >> 1) ^ 0x82F6_3B78
            } else {
                s >> 1
            };
            k = k + 1;
        }
        proof {
            let t = data@.take(i + 1);
            assert(t.drop_last() =~= data@.take(i as int));
            assert(t.last() == data@[i as int]);
        }
        i = i + 1;
    }
    assert(data@.take(i as int) =~= data@);
    s
}

/// The CRC-32C (Castagnoli) of `data`.
pub fn crc32c(data: &[u8]) -> (r: u32)
    ensures
        r == crc_of(data@),
{
    crc32c_continue(0xFFFF_FFFF, data) ^ 0xFFFF_FFFF
}

/// A checksum may be computed in pieces: feeding two chunks one after the
/// other is feeding them as one.
pub proof fn law_crc_streams(s: u32, a: Seq<u8>, b: Seq<u8>)
    ensures
        crc_fed(crc_fed(s, a), b) == crc_fed(s, a + b),
    decreases b.len(),
{
    if b.len() == 0 {
        assert(a + b =~= a);
    } else {
        law_crc_streams(s, a, b.drop_last());
        assert((a + b).drop_last() =~= a + b.drop_last());
        assert((a + b).last() == b.last());
    }
}

/// One byte of zeros and a state of which the low byte is set apart: what stands
/// above it moves down untouched.
proof fn lemma_crc_byte(low: u32, high: u32)
    requires
        high <= 0xFF_FFFF,
    ensures
        crc_bits(low ^ (high << 8u32), 8) == crc_bits(low, 8) ^ high,
{
    reveal_with_fuel(crc_bits, 9);
    assert(high <= 0xFF_FFFF ==> {
        let h = high << 8u32;
        &&& h >> 1u32 == high << 7u32
        &&& (high << 7u32) >> 1u32 == high << 6u32
        &&& (high << 6u32) >> 1u32 == high << 5u32
        &&& (high << 5u32) >> 1u32 == high << 4u32
        &&& (high << 4u32) >> 1u32 == high << 3u32
        &&& (high << 3u32) >> 1u32 == high << 2u32
        &&& (high << 2u32) >> 1u32 == high << 1u32
        &&& (high << 1u32) >> 1u32 == high
        &&& h & 1 == 0 && (high << 7u32) & 1 == 0 && (high << 6u32) & 1 == 0 && (high << 5u32) & 1
            == 0
        &&& (high << 4u32) & 1 == 0 && (high << 3u32) & 1 == 0 && (high << 2u32) & 1 == 0 && (high
            << 1u32) & 1 == 0
    }) by (bit_vector);
    lemma_crc_bit(low, high << 8u32);
    lemma_crc_bit(crc_bits(low, 1), high << 7u32);
    lemma_crc_bit(crc_bits(low, 2), high << 6u32);
    lemma_crc_bit(crc_bits(low, 3), high << 5u32);
    lemma_crc_bit(crc_bits(low, 4), high << 4u32);
    lemma_crc_bit(crc_bits(low, 5), high << 3u32);
    lemma_crc_bit(crc_bits(low, 6), high << 2u32);
    lemma_crc_bit(crc_bits(low, 7), high << 1u32);
}

/// A part of the state that ends in a zero only moves down.
proof fn lemma_crc_bit(a: u32, b: u32)
    requires
        b & 1 == 0,
    ensures
        crc_bit(a ^ b) == crc_bit(a) ^ (b >> 1u32),
{
    assert(b & 1 == 0 ==> (a ^ b) & 1 == a & 1 && (a ^ b) >> 1u32 == (a >> 1u32) ^ (b >> 1u32))
        by (bit_vector);
    let (x, y) = (a >> 1u32, b >> 1u32);
    assert((x ^ y) ^ 0x82F6_3B78 == (x ^ 0x82F6_3B78) ^ y) by (bit_vector);
}

/// The state after eight zero bits from four states.
proof fn lemma_crc_constants()
    ensures
        crc_bits(0xff, 8) == 0xad7d5351,
        crc_bits(0xad7d53ae, 8) == 0xe9e77d2,
        crc_bits(0xe9e772d, 8) == 0x9f9b5c7a,
        crc_bits(0x9f9b5c85, 8) == 0xb798b438,
{
    reveal_with_fuel(crc_bits, 9);
    assert(crc_bit(0xffu32) == 0x82f63b07 && crc_bit(0x82f63b07u32) == 0xc38d26fb && crc_bit(0xc38d26fbu32) == 0xe330a805 && crc_bit(0xe330a805u32) == 0xf36e6f7a && crc_bit(0xf36e6f7au32) == 0x79b737bd && crc_bit(0x79b737bdu32) == 0xbe2da0a6 && crc_bit(0xbe2da0a6u32) == 0x5f16d053 && crc_bit(0x5f16d053u32) == 0xad7d5351) by (bit_vector);
    assert(crc_bit(0xad7d53aeu32) == 0x56bea9d7 && crc_bit(0x56bea9d7u32) == 0xa9a96f93 && crc_bit(0xa9a96f93u32) == 0xd6228cb1 && crc_bit(0xd6228cb1u32) == 0xe9e77d20 && crc_bit(0xe9e77d20u32) == 0x74f3be90 && crc_bit(0x74f3be90u32) == 0x3a79df48 && crc_bit(0x3a79df48u32) == 0x1d3cefa4 && crc_bit(0x1d3cefa4u32) == 0xe9e77d2) by (bit_vector);
    assert(crc_bit(0xe9e772du32) == 0x85b900ee && crc_bit(0x85b900eeu32) == 0x42dc8077 && crc_bit(0x42dc8077u32) == 0xa3987b43 && crc_bit(0xa3987b43u32) == 0xd33a06d9 && crc_bit(0xd33a06d9u32) == 0xeb6b3814 && crc_bit(0xeb6b3814u32) == 0x75b59c0a && crc_bit(0x75b59c0au32) == 0x3adace05 && crc_bit(0x3adace05u32) == 0x9f9b5c7a) by (bit_vector);
    assert(crc_bit(0x9f9b5c85u32) == 0xcd3b953a && crc_bit(0xcd3b953au32) == 0x669dca9d && crc_bit(0x669dca9du32) == 0xb1b8de36 && crc_bit(0xb1b8de36u32) == 0x58dc6f1b && crc_bit(0x58dc6f1bu32) == 0xae980cf5 && crc_bit(0xae980cf5u32) == 0xd5ba3d02 && crc_bit(0xd5ba3d02u32) == 0x6add1e81 && crc_bit(0x6add1e81u32) == 0xb798b438) by (bit_vector);
}

/// Data that carries its own checksum behind it, the least byte first, has the
/// same checksum whatever it is. The number is that of the Castagnoli
/// polynomial, so a stored checksum can be told from a wrong one without taking
/// it off.
pub proof fn law_crc_residue(data: Seq<u8>, tail: Seq<u8>)
    requires
        tail.len() == 4,
        le_nat(tail) == crc_of(data),
    ensures
        crc_of(data + tail) == 0x48674BC7,
{
    lemma_le4(tail);
    let s = crc_fed(0xFFFF_FFFF, data);
    let c = s ^ 0xFFFF_FFFF;
    let (t0, t1, t2, t3) = (tail[0] as u32, tail[1] as u32, tail[2] as u32, tail[3] as u32);
    assert(t0 == c & 0xFF && t1 == (c >> 8u32) & 0xFF && t2 == (c >> 16u32) & 0xFF && t3 == c
        >> 24u32) by {
        assert(c == t0 + 0x100 * t1 + 0x1_0000 * t2 + 0x100_0000 * t3);
        assert(t0 <= 255 && t1 <= 255 && t2 <= 255 && t3 <= 255 && c == t0 + 0x100 * t1 + 0x1_0000
            * t2 + 0x100_0000 * t3 ==> t0 == c & 0xFF && t1 == (c >> 8u32) & 0xFF && t2 == (c
            >> 16u32) & 0xFF && t3 == c >> 24u32) by (bit_vector);
    }
    law_crc_streams(0xFFFF_FFFF, data, tail);
    lemma_crc_constants();
    let (h1, h2, h3) = (s >> 8u32, s >> 16u32, s >> 24u32);
    let (k1, k2, k3) = (0xad7d5351u32, 0xe9e77d2u32, 0x9f9b5c7au32);
    assert(h1 <= 0xFF_FFFF && h2 <= 0xFF_FFFF && h3 <= 0xFF_FFFF) by (bit_vector)
        requires
            h1 == s >> 8u32,
            h2 == s >> 16u32,
            h3 == s >> 24u32,
    ;
    assert(s ^ t0 == 0xFF ^ (h1 << 8u32) && (k1 ^ h1) ^ t1 == (k1 ^ 0xFF) ^ (h2 << 8u32) && (k2
        ^ h2) ^ t2 == (k2 ^ 0xFF) ^ (h3 << 8u32) && (k3 ^ h3) ^ t3 == (k3 ^ 0xFF)) by (bit_vector)
        requires
            h1 == s >> 8u32,
            h2 == s >> 16u32,
            h3 == s >> 24u32,
            c == s ^ 0xFFFF_FFFFu32,
            t0 == c & 0xFF,
            t1 == (c >> 8u32) & 0xFF,
            t2 == (c >> 16u32) & 0xFF,
            t3 == c >> 24u32,
    ;
    assert(k1 ^ 0xFF == 0xad7d53ae && k2 ^ 0xFF == 0xe9e772d && k3 ^ 0xFF == 0x9f9b5c85) by (bit_vector)
        requires
            k1 == 0xad7d5351u32,
            k2 == 0xe9e77d2u32,
            k3 == 0x9f9b5c7au32,
    ;
    lemma_crc_byte(0xFF, h1);
    lemma_crc_byte(k1 ^ 0xFF, h2);
    lemma_crc_byte(k2 ^ 0xFF, h3);
    let (p3, p2, p1, p0) = (tail.take(3), tail.take(2), tail.take(1), tail.take(0));
    assert(tail.drop_last() =~= p3 && p3.drop_last() =~= p2 && p2.drop_last() =~= p1
        && p1.drop_last() =~= p0);
    assert(crc_fed(s, p0) == s);
    assert(crc_fed(s, p1) == k1 ^ h1);
    assert(crc_fed(s, p2) == k2 ^ h2);
    assert(crc_fed(s, p3) == k3 ^ h3);
    assert(crc_fed(s, tail) == 0xB798_B438);
    assert(0xB798_B438u32 ^ 0xFFFF_FFFF == 0x48674BC7) by (bit_vector);
}

/// A field that would end past the last position is told apart from one that the
/// buffer is too short for.
pub proof fn law_field_errors(off: usize, n: int, far: &'static str, short: &'static str)
    ensures
        off + n <= usize::MAX ==> field_error(off, n, far, short) == CelError::Invalid(short),
        off + n > usize::MAX ==> field_error(off, n, far, short) == CelError::Invalid(far),
{
}

} // verus!
