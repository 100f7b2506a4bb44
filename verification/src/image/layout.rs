//! What the bytes of an image file mean: the guest disk that a file of each
//! format stands for, told from the bytes of the file alone.

use vstd::prelude::*;

use crate::error::{CelResult, ErrorView};
use crate::image::any;
use crate::image::any::AnyImage;
use crate::image::disk::DiskImage;
use crate::image::format::FormatKind;
use crate::image::qcow2;
use crate::image::qcow2::Qcow2Image;
use crate::image::util;
use crate::image::vhdx;
use crate::image::vhdx::{MetaItems, Metadata, RegionView, VhdxImage};
use crate::image::vmdk;
use crate::image::vmdk::VmdkImage;

verus! {

/// The number in two bytes at `at`, the first one the least.
pub open spec fn little2(f: Seq<u8>, at: int) -> int {
    f[at] + 0x100 * f[at + 1]
}

/// The number in four bytes at `at`, the first one the least.
#[verifier::opaque]
pub open spec fn little4(f: Seq<u8>, at: int) -> int {
    f[at] + 0x100 * f[at + 1] + 0x1_0000 * f[at + 2] + 0x100_0000 * f[at + 3]
}

/// The number in eight bytes at `at`, the first one the least.
#[verifier::opaque]
pub open spec fn little8(f: Seq<u8>, at: int) -> int {
    little4(f, at) + 0x1_0000_0000 * little4(f, at + 4)
}

/// The number in four bytes at `at`, the first one the greatest.
#[verifier::opaque]
pub open spec fn big4(f: Seq<u8>, at: int) -> int {
    0x100_0000 * f[at] + 0x1_0000 * f[at + 1] + 0x100 * f[at + 2] + f[at + 3]
}

/// The number in eight bytes at `at`, the first one the greatest.
#[verifier::opaque]
pub open spec fn big8(f: Seq<u8>, at: int) -> int {
    0x1_0000_0000 * big4(f, at) + big4(f, at + 4)
}

/// Numbers in a stretch of a file are numbers in the file.
proof fn lemma_numbers(f: Seq<u8>, raw: Seq<u8>, from: int, at: int)
    requires
        0 <= from,
        0 <= at,
        from + raw.len() <= f.len(),
        forall|i: int| 0 <= i < raw.len() ==> #[trigger] raw[i] == f[from + i],
    ensures
        at + 2 <= raw.len() ==> util::le_at(raw, at, 2) == little2(f, from + at),
        at + 4 <= raw.len() ==> util::le_at(raw, at, 4) == little4(f, from + at) && util::be_at(
            raw,
            at,
            4,
        ) == big4(f, from + at),
        at + 8 <= raw.len() ==> util::le_at(raw, at, 8) == little8(f, from + at) && util::be_at(
            raw,
            at,
            8,
        ) == big8(f, from + at),
        at + 4 <= raw.len() ==> 0 <= little4(f, from + at) <= u32::MAX && 0 <= big4(f, from + at)
            <= u32::MAX,
        at + 8 <= raw.len() ==> 0 <= little8(f, from + at) <= u64::MAX && 0 <= big8(f, from + at)
            <= u64::MAX,
{
    reveal(little4);
    reveal(little8);
    reveal(big4);
    reveal(big8);
    if at + 2 <= raw.len() {
        let s = raw.subrange(at, at + 2);
        util::lemma_le2(s);
        assert(s[0] == raw[at] && s[1] == raw[at + 1]);
    }
    if at + 4 <= raw.len() {
        let s = raw.subrange(at, at + 4);
        util::lemma_le4(s);
        util::lemma_be4(s);
        assert(forall|i: int| 0 <= i < 4 ==> s[i] == #[trigger] raw[at + i]);
        assert(s[0] == raw[at + 0] && s[1] == raw[at + 1] && s[2] == raw[at + 2] && s[3] == raw[at
            + 3]);
    }
    if at + 8 <= raw.len() {
        let s = raw.subrange(at, at + 8);
        util::lemma_le8(s);
        util::lemma_be8(s);
        assert(s[0] == raw[at + 0] && s[1] == raw[at + 1] && s[2] == raw[at + 2] && s[3] == raw[at
            + 3] && s[4] == raw[at + 4] && s[5] == raw[at + 5] && s[6] == raw[at + 6] && s[7]
            == raw[at + 7]);
    }
}

/// What a read of a whole stretch finds are the bytes of the file.
pub proof fn lemma_fetched(f: Seq<u8>, off: nat, n: nat)
    ensures
        util::fetched(f, off, n) is Some <==> n == 0 || off + n <= f.len(),
        util::fetched(f, off, n) matches Some(raw) ==> raw.len() == n && forall|i: int|
            0 <= i < n ==> #[trigger] raw[i] == f[off + i],
{
}

/// The features that a qcow2 reader has to know, bit by bit.
pub proof fn lemma_features(w: u64)
    ensures
        (w & 0x18 == 0) == (w / 8 % 4 == 0),
        0u64 & 0x18 == 0,
{
    assert((w & 0x18 == 0) == (w / 8 % 4 == 0) && 0u64 & 0x18 == 0) by (bit_vector);
}

/// The flags of a VHDX file, bit by bit.
pub proof fn lemma_flags(f: u32)
    ensures
        (f & 1 != 0) == (f % 2 == 1),
        (f & 2 != 0) == (f / 2 % 2 == 1),
{
    assert((f & 1 != 0) == (f % 2 == 1) && (f & 2 != 0) == (f / 2 % 2 == 1)) by (bit_vector);
}

/// The state and the place that an entry of a VHDX file holds.
pub proof fn lemma_state(e: u64)
    ensures
        e & 0x7 == e % 8,
        e & 0xFFFF_FFFF_FFF0_0000 == e / 0x10_0000 * 0x10_0000,
{
    assert(e & 0x7 == e % 8 && e & 0xFFFF_FFFF_FFF0_0000 == e / 0x10_0000 * 0x10_0000)
        by (bit_vector);
}

/// Whether the bytes `head` stand at the start of a file.
pub open spec fn begins(f: Seq<u8>, head: Seq<u8>) -> bool {
    f.len() >= head.len() && forall|i: int| 0 <= i < head.len() ==> f[i] == #[trigger] head[i]
}

proof fn lemma_begins(f: Seq<u8>, head: Seq<u8>)
    ensures
        util::matches_at(f, 0, head) == begins(f, head),
{
    if begins(f, head) {
        assert(f.subrange(0, head.len() as int) =~= head);
    }
    if util::matches_at(f, 0, head) {
        assert forall|i: int| 0 <= i < head.len() implies f[i] == #[trigger] head[i] by {
            assert(f.subrange(0, head.len() as int)[i] == f[i]);
        }
    }
}

/// A file begins as its first bytes do.
proof fn lemma_head(f: Seq<u8>, n: nat, head: Seq<u8>)
    requires
        0 < head.len() <= n,
    ensures
        begins(util::clip(f, 0, n), head) == begins(f, head),
{
    let c = util::clip(f, 0, n);
    assert(forall|i: int| 0 <= i < c.len() ==> #[trigger] c[i] == f[i]);
    if begins(f, head) {
        assert forall|i: int| 0 <= i < head.len() implies c[i] == #[trigger] head[i] by {
            assert(f[i] == head[i]);
        }
    }
    if begins(c, head) {
        assert forall|i: int| 0 <= i < head.len() implies f[i] == #[trigger] head[i] by {
            assert(c[i] == head[i]);
        }
    }
}

/// Whether a file can be read as a qcow2 image: version 2 or 3, clusters of 512
/// bytes to 2 MiB, no encryption, no backing file, no feature that changes the
/// tables, and a first-level table that the file holds.
pub open spec fn is_plain_qcow2(f: Seq<u8>) -> bool {
    &&& f.len() >= 72
    &&& begins(f, seq![0x51u8, 0x46, 0x49, 0xfb])
    &&& big4(f, 4) == 2 || big4(f, 4) == 3
    &&& big8(f, 8) == 0
    &&& 9 <= big4(f, 20) <= 21
    &&& big4(f, 32) == 0
    &&& 0 < big8(f, 40) <= 0x7FFF_FFFF_FFFF_FFFF
    &&& big8(f, 40) % 512 == 0
    &&& big4(f, 4) == 3 && f.len() >= 80 ==> big8(f, 72) / 8 % 4 == 0
    &&& big4(f, 36) == 0 || big8(f, 40) + 8 * big4(f, 36) <= f.len()
}

/// The numbers of a qcow2 header are within their ranges, and the header holds
/// them.
proof fn lemma_qcow2_fields(f: Seq<u8>)
    requires
        f.len() >= 72,
    ensures
        ({
            let head = util::clip(f, 0, 104);
            &&& head.len() >= 72
            &&& head.len() >= 80 <==> f.len() >= 80
            &&& util::be_at(head, 4, 4) == big4(f, 4) <= u32::MAX
            &&& util::be_at(head, 8, 8) == big8(f, 8) <= u64::MAX
            &&& util::be_at(head, 20, 4) == big4(f, 20) <= u32::MAX
            &&& util::be_at(head, 24, 8) == big8(f, 24) <= u64::MAX
            &&& util::be_at(head, 32, 4) == big4(f, 32) <= u32::MAX
            &&& util::be_at(head, 36, 4) == big4(f, 36) <= u32::MAX
            &&& util::be_at(head, 40, 8) == big8(f, 40) <= u64::MAX
            &&& f.len() >= 80 ==> util::be_at(head, 72, 8) == big8(f, 72) <= u64::MAX
        }),
{
    let head = util::clip(f, 0, 104);
    assert(forall|i: int| 0 <= i < head.len() ==> #[trigger] head[i] == f[0 + i]);
    lemma_numbers(f, head, 0, 4);
    lemma_numbers(f, head, 0, 8);
    lemma_numbers(f, head, 0, 20);
    lemma_numbers(f, head, 0, 24);
    lemma_numbers(f, head, 0, 32);
    lemma_numbers(f, head, 0, 36);
    lemma_numbers(f, head, 0, 40);
    lemma_numbers(f, head, 0, 72);
}

/// A file opens as a qcow2 image exactly if it is one that can be read, and its
/// header says what the disk is: how large, in clusters of which size, and where
/// the entries of the first-level table stand.
pub proof fn law_qcow2_header(path: Seq<char>, f: Seq<u8>)
    ensures
        qcow2::opened(path, f) is Ok <==> is_plain_qcow2(f),
        qcow2::opened(path, f) matches Ok(v) ==> {
            &&& v.path == path
            &&& v.file == f
            &&& v.header.version == big4(f, 4)
            &&& v.header.size == big8(f, 24)
            &&& v.header.cluster_size == vstd::arithmetic::power2::pow2(big4(f, 20) as nat)
            &&& v.l1.len() == big4(f, 36)
            &&& forall|i: int|
                0 <= i < v.l1.len() ==> #[trigger] v.l1[i] == big8(f, big8(f, 40) + 8 * i)
        },
{
    let head = util::clip(f, 0, 104);
    let magic = seq![0x51u8, 0x46, 0x49, 0xfb];
    assert(crate::image::format::qcow2_magic() =~= magic);
    lemma_begins(head, magic);
    lemma_head(f, 104, magic);
    if f.len() >= 72 {
        lemma_qcow2_fields(f);
        let bits = big4(f, 20) as u32;
        if 9 <= bits <= 21 {
            lemma_shift(bits);
        }
        let w = big8(f, 72) as u64;
        lemma_features(w);
        let (off, n) = (big8(f, 40) as nat, 8 * big4(f, 36) as nat);
        lemma_fetched(f, off, n);
        if qcow2::opened(path, f) is Ok {
            let v = qcow2::opened(path, f)->Ok_0;
            let raw = util::fetched(f, off, n)->0;
            assert forall|i: int| 0 <= i < v.l1.len() implies #[trigger] v.l1[i] == big8(
                f,
                big8(f, 40) + 8 * i,
            ) by {
                lemma_numbers(f, raw, off as int, 8 * i);
            }
        }
    }
}

/// Shifting a one left doubles it once for every place.
proof fn lemma_shift(bits: u32)
    requires
        bits <= 21,
    ensures
        1u64 << bits == vstd::arithmetic::power2::pow2(bits as nat),
{
    vstd::arithmetic::power2::lemma2_to64();
    assert(bits <= 21 ==> {
        &&& 1u64 << 0u32 == 1 && 1u64 << 1u32 == 2 && 1u64 << 2u32 == 4 && 1u64 << 3u32 == 8
        &&& 1u64 << 4u32 == 16 && 1u64 << 5u32 == 32 && 1u64 << 6u32 == 64 && 1u64 << 7u32 == 128
        &&& 1u64 << 8u32 == 256 && 1u64 << 9u32 == 512 && 1u64 << 10u32 == 1024
        &&& 1u64 << 11u32 == 2048 && 1u64 << 12u32 == 4096 && 1u64 << 13u32 == 8192
        &&& 1u64 << 14u32 == 16384 && 1u64 << 15u32 == 32768 && 1u64 << 16u32 == 65536
        &&& 1u64 << 17u32 == 131072 && 1u64 << 18u32 == 262144 && 1u64 << 19u32 == 524288
        &&& 1u64 << 20u32 == 1048576 && 1u64 << 21u32 == 2097152
    }) by (bit_vector);
}

/// The least of three numbers.
pub open spec fn least(a: int, b: int, c: int) -> int {
    if a <= b && a <= c {
        a
    } else if b <= c {
        b
    } else {
        c
    }
}

/// The `n` bytes of a file at `at`, as far as the file goes.
pub open spec fn stretch(f: Seq<u8>, at: int, n: int) -> Seq<u8> {
    if at + n <= f.len() {
        f.subrange(at, at + n)
    } else if at <= f.len() {
        f.skip(at)
    } else {
        Seq::empty()
    }
}

/// Where a qcow2 image keeps the disk. The cluster of a byte has its entry in
/// the table that the first level names for it, eight bytes wide and as many to
/// a table as fill one cluster. The entry says where in the file the cluster
/// stands; no table, no place, and the zero mark of version 3 are zeros; a
/// compressed cluster is refused. A read gives as much as was asked for, up to
/// the end of the cluster and of the disk.
pub proof fn law_qcow2_disk(image: &Qcow2Image, path: Seq<char>, f: Seq<u8>, offset: nat, len: nat)
    requires
        qcow2::opened(path, f) == Ok::<qcow2::Qcow2View, ErrorView>(image@),
        len > 0,
        offset < big8(f, 24),
    ensures
        image.summary().virtual_size == big8(f, 24),
        ({
            let cs = vstd::arithmetic::power2::pow2(big4(f, 20) as nat) as int;
            let i = offset as int / cs / (cs / 8);
            let k = offset as int / cs % (cs / 8);
            let within = offset as int % cs;
            let n = least(len as int, big8(f, 24) - offset, cs - within);
            let table = big8(f, big8(f, 40) + 8 * i) as u64 & 0x00ff_ffff_ffff_fe00;
            let entry = big8(f, table + 8 * k) as u64;
            let place = entry & 0x00ff_ffff_ffff_fe00;
            let got = image.reads()(offset, len);
            let zeros = got == Ok::<Seq<u8>, ErrorView>(Seq::new(n as nat, |j: int| 0u8));
            &&& i >= big4(f, 36) ==> got is Err
            &&& i < big4(f, 36) && table == 0 ==> zeros
            &&& i < big4(f, 36) && table != 0 && table + 8 * k + 8 > f.len() ==> got is Err
            &&& i < big4(f, 36) && table != 0 && table + 8 * k + 8 <= f.len() ==> {
                &&& entry & 0x4000_0000_0000_0000 != 0 ==> got is Err
                &&& entry & 0x4000_0000_0000_0000 == 0 && (place == 0 || (big4(f, 4) == 3 && entry
                    % 2 == 1)) ==> zeros
                &&& entry & 0x4000_0000_0000_0000 == 0 && place != 0 && !(big4(f, 4) == 3 && entry
                    % 2 == 1) ==> got == Ok::<Seq<u8>, ErrorView>(
                    stretch(f, place + within, n),
                )
            }
        }),
{
    law_qcow2_header(path, f);
    let v = image@;
    let h = v.header;
    let cs = h.cluster_size as int;
    qcow2::lemma_cluster_size(h);
    let i = offset as int / cs / (cs / 8);
    let k = offset as int / cs % (cs / 8);
    let within = offset as int % cs;
    let n = least(len as int, h.size - offset, cs - within);
    assert(0 <= i);
    if i < v.l1.len() {
        assert(v.l1[i] == big8(f, big8(f, 40) + 8 * i));
        let table = v.l1[i] & 0x00ff_ffff_ffff_fe00;
        if table != 0 {
            let at = (table + 8 * k) as nat;
            assert(0 <= k);
            assert(k * 8 == 8 * k);
            lemma_fetched(f, at, 8);
            if at + 8 <= f.len() {
                let b = util::fetched(f, at, 8)->0;
                lemma_numbers(f, b, at as int, 0);
                assert(b.subrange(0, 8) =~= b);
                let entry = util::be_nat(b) as u64;
                assert((entry & 1 != 0) == (entry % 2 == 1)) by (bit_vector);
                let place = (entry & 0x00ff_ffff_ffff_fe00) + within;
                assert(util::clip(f, place as nat, n as nat) =~= stretch(f, place, n));
            }
        }
    }
}

/// Rounding up a quotient is rounding down after adding almost a whole.
pub proof fn lemma_ceil(a: nat, b: nat)
    requires
        b > 0,
    ensures
        util::ceil(a, b) == (a + b - 1) / b as int,
{
    let (x, y) = (a as int, b as int);
    vstd::arithmetic::div_mod::lemma_fundamental_div_mod(x, y);
    let (q, m) = (x / y, x % y);
    assert(y * q == q * y) by (nonlinear_arith);
    if m == 0 {
        vstd::arithmetic::div_mod::lemma_fundamental_div_mod_converse(x + y - 1, y, q, y - 1);
    } else {
        assert((q + 1) * y == q * y + y) by (nonlinear_arith);
        vstd::arithmetic::div_mod::lemma_fundamental_div_mod_converse(x + y - 1, y, q + 1, m - 1);
    }
}

/// How many entries the grain directory of a VMDK file has: one for each grain
/// table, the last of which the disk may not fill.
pub open spec fn vmdk_tables(f: Seq<u8>) -> int {
    let sectors = little4(f, 44) * little8(f, 20);
    (little8(f, 12) + sectors - 1) / sectors
}

/// Whether a file can be read as a VMDK image: one sparse extent, version 1 to
/// 3, not compressed, grains of 4 KiB to 512 MiB, and a grain directory that the
/// file holds.
pub open spec fn is_plain_vmdk(f: Seq<u8>) -> bool {
    &&& f.len() >= 80
    &&& begins(f, seq![0x4bu8, 0x44, 0x4d, 0x56])
    &&& 1 <= little4(f, 4) <= 3
    &&& little2(f, 77) == 0
    &&& 8 <= little8(f, 20) <= 0x10_0000
    &&& vstd::arithmetic::power2::is_pow2(little8(f, 20))
    &&& vstd::arithmetic::power2::is_pow2(little4(f, 44))
    &&& 0 < 512 * little8(f, 56) <= 0x7FFF_FFFF_FFFF_FFFF
    &&& little8(f, 64) != 0
    &&& little8(f, 28) + little8(f, 36) <= u64::MAX
    &&& little8(f, 12) == 0 || 512 * little8(f, 56) + 4 * vmdk_tables(f) <= f.len()
}

/// The header of a VMDK file holds its numbers.
proof fn lemma_vmdk_fields(f: Seq<u8>)
    requires
        f.len() >= 80,
    ensures
        ({
            let head = util::clip(f, 0, 512);
            &&& head.len() >= 80
            &&& util::le_at(head, 4, 4) == little4(f, 4) <= u32::MAX
            &&& util::le_at(head, 12, 8) == little8(f, 12) <= u64::MAX
            &&& util::le_at(head, 20, 8) == little8(f, 20) <= u64::MAX
            &&& util::le_at(head, 28, 8) == little8(f, 28) <= u64::MAX
            &&& util::le_at(head, 36, 8) == little8(f, 36) <= u64::MAX
            &&& util::le_at(head, 44, 4) == little4(f, 44) <= u32::MAX
            &&& util::le_at(head, 56, 8) == little8(f, 56) <= u64::MAX
            &&& util::le_at(head, 64, 8) == little8(f, 64) <= u64::MAX
            &&& util::le_at(head, 77, 2) == little2(f, 77) <= u16::MAX
        }),
{
    let head = util::clip(f, 0, 512);
    assert(forall|i: int| 0 <= i < head.len() ==> #[trigger] head[i] == f[0 + i]);
    lemma_numbers(f, head, 0, 4);
    lemma_numbers(f, head, 0, 12);
    lemma_numbers(f, head, 0, 20);
    lemma_numbers(f, head, 0, 28);
    lemma_numbers(f, head, 0, 36);
    lemma_numbers(f, head, 0, 44);
    lemma_numbers(f, head, 0, 56);
    lemma_numbers(f, head, 0, 64);
    lemma_numbers(f, head, 0, 77);
}

/// A file opens as a VMDK image exactly if it is one that can be read, and its
/// header says what the disk is.
pub proof fn law_vmdk_header(path: Seq<char>, f: Seq<u8>)
    ensures
        vmdk::opened(path, f) is Ok <==> is_plain_vmdk(f),
        vmdk::opened(path, f) matches Ok(v) ==> {
            &&& v.path == path
            &&& v.file == f
            &&& v.virtual_size == if 512 * little8(f, 12) <= u64::MAX {
                512 * little8(f, 12)
            } else {
                u64::MAX as int
            }
            &&& v.grain_size_sectors == little8(f, 20)
            &&& v.num_gtes_per_gt == little4(f, 44)
            &&& v.gd.len() == vmdk_tables(f)
            &&& forall|i: int|
                0 <= i < v.gd.len() ==> #[trigger] v.gd[i] == little4(
                    f,
                    512 * little8(f, 56) + 4 * i,
                )
        },
{
    reveal(vstd::arithmetic::power2::is_pow2);
    let head = util::clip(f, 0, 512);
    let magic = seq![0x4bu8, 0x44, 0x4d, 0x56];
    assert(crate::image::format::vmdk_magic() =~= magic);
    lemma_begins(head, magic);
    lemma_head(f, 512, magic);
    if f.len() >= 80 {
        lemma_vmdk_fields(f);
        let (n, g) = (little4(f, 44), little8(f, 20));
        if n > 0 && g > 0 {
            assert(n * g > 0) by (nonlinear_arith)
                requires
                    n > 0,
                    g > 0,
            ;
            lemma_ceil(little8(f, 12) as nat, (n * g) as nat);
            let count = util::ceil(little8(f, 12) as nat, (n * g) as nat);
            assert(count == 0 <==> little8(f, 12) == 0) by {
                vstd::arithmetic::div_mod::lemma_fundamental_div_mod(little8(f, 12), n * g);
                if little8(f, 12) / (n * g) == 0 {
                    assert((n * g) * 0 == 0);
                }
            }
            let off = (512 * little8(f, 56)) as nat;
            lemma_fetched(f, off, count * 4);
            if vmdk::opened(path, f) is Ok {
                let v = vmdk::opened(path, f)->Ok_0;
                let raw = util::fetched(f, off, count * 4)->0;
                assert(v.gd.len() == count);
                assert forall|i: int| 0 <= i < v.gd.len() implies #[trigger] v.gd[i] == little4(
                    f,
                    512 * little8(f, 56) + 4 * i,
                ) by {
                    lemma_numbers(f, raw, off as int, 4 * i);
                }
            }
        }
    }
}

/// A byte of the disk has its place among the grain tables.
proof fn lemma_table_of(size: int, grain: int, per: int, cur: int)
    requires
        grain > 0,
        per > 0,
        0 <= cur < 512 * size,
    ensures
        0 <= cur / (512 * grain) / per < (size + per * grain - 1) / (per * grain),
{
    let u = 512 * grain;
    let g = cur / u;
    let t = g / per;
    let w = per * grain;
    assert(w > 0) by (nonlinear_arith)
        requires
            per > 0,
            grain > 0,
            w == per * grain,
    ;
    vstd::arithmetic::div_mod::lemma_fundamental_div_mod(cur, u);
    vstd::arithmetic::div_mod::lemma_fundamental_div_mod(g, per);
    assert(0 <= g) by (nonlinear_arith)
        requires
            g == cur / u,
            0 <= cur,
            u > 0,
    ;
    assert(0 <= t) by (nonlinear_arith)
        requires
            t == g / per,
            0 <= g,
            per > 0,
    ;
    assert(u * (per * t) <= u * g) by (nonlinear_arith)
        requires
            per * t <= g,
            u > 0,
    ;
    assert(u * (per * t) == 512 * (w * t)) by (nonlinear_arith)
        requires
            u == 512 * grain,
            w == per * grain,
    ;
    // The first byte of the table is on the disk.
    assert(w * t < size);
    let x = size + w - 1;
    vstd::arithmetic::div_mod::lemma_fundamental_div_mod(x, w);
    let q = x / w;
    if t >= q {
        assert(w * t >= w * q) by (nonlinear_arith)
            requires
                t >= q,
                w > 0,
        ;
    }
}

/// Where a VMDK image keeps the disk. The grain of a byte has its entry, four
/// bytes wide, in the grain table that the grain directory names for it; the
/// entry is the sector at which the grain stands. Nothing stored, which is 0 or
/// 1 at either level, reads as zero.
pub proof fn law_vmdk_disk(image: &VmdkImage, path: Seq<char>, f: Seq<u8>, offset: nat)
    requires
        vmdk::opened(path, f) == Ok::<vmdk::VmdkView, ErrorView>(image@),
        offset < image.summary().virtual_size,
    ensures
        image.summary().virtual_size == if 512 * little8(f, 12) <= u64::MAX {
            512 * little8(f, 12)
        } else {
            u64::MAX as int
        },
        ({
            let grain = offset as int / (512 * little8(f, 20));
            let within = offset as int % (512 * little8(f, 20));
            let per = little4(f, 44);
            let table = little4(f, 512 * little8(f, 56) + 4 * (grain / per));
            let entry = little4(f, 512 * table + 4 * (grain % per));
            let got = image.reads()(offset, 1);
            &&& table <= 1 ==> got == Ok::<Seq<u8>, ErrorView>(seq![0u8])
            &&& table > 1 && 512 * table + 4 * per > f.len() ==> got is Err
            &&& table > 1 && 512 * table + 4 * per <= f.len() ==> {
                &&& entry <= 1 ==> got == Ok::<Seq<u8>, ErrorView>(seq![0u8])
                &&& entry > 1 && 512 * entry + within < f.len() ==> got == Ok::<Seq<u8>, ErrorView>(
                    seq![f[512 * entry + within]],
                )
                &&& entry > 1 && 512 * entry + within >= f.len() ==> got is Err
            }
        }),
{
    law_vmdk_header(path, f);
    reveal(vstd::arithmetic::power2::is_pow2);
    let v = image@;
    let unit = 512 * v.grain_size_sectors as int;
    assert(unit == v.grain());
    let per = v.num_gtes_per_gt as int;
    let grain = offset as int / unit;
    let within = offset as int % unit;
    lemma_table_of(little8(f, 12), little8(f, 20), per, offset as int);
    let t = grain / per;
    assert(v.gd[t] == little4(f, 512 * little8(f, 56) + 4 * t));
    let table = v.gd[t] as int;
    let ghost single = vmdk::run(v, offset, 1);
    assert(vmdk::grain_run(v, offset, 1) == 1);
    assert(seq![0u8] =~= crate::image::disk::zeros(1));
    vmdk::lemma_one_byte(v, offset);
    if table > 1 {
        lemma_fetched(f, (512 * table) as nat, (4 * per) as nat);
        if 512 * table + 4 * per <= f.len() {
            let raw = util::fetched(f, (512 * table) as nat, (per * 4) as nat)->0;
            assert(0 <= grain % per < per);
            lemma_numbers(f, raw, 512 * table, 4 * (grain % per));
            let entry = vmdk::entry_for(v, offset)->Ok_0;
            if entry > 1 {
                let at = (512 * entry + within) as nat;
                lemma_fetched(f, at, 1);
                if at < f.len() {
                    assert(util::clip(f, at, 1) =~= seq![f[at as int]]);
                }
            }
        }
    }
}

/// Whether the sixteen bytes at `at` are the name `guid`.
pub open spec fn named(f: Seq<u8>, at: int, guid: Seq<u8>) -> bool {
    f.subrange(at, at + 16) == guid
}

/// The name of the region of a VHDX file that holds the block allocation table.
pub open spec fn bat_guid() -> Seq<u8> {
    seq![
        0x66u8, 0x77, 0xC2, 0x2D, 0x23, 0xF6, 0x00, 0x42,
        0x9D, 0x64, 0x11, 0x5E, 0x9B, 0xFD, 0x4A, 0x08,
    ]
}

/// The name of the region of a VHDX file that holds the metadata.
pub open spec fn metadata_guid() -> Seq<u8> {
    seq![
        0x06u8, 0xA2, 0x7C, 0x8B, 0x90, 0x47, 0x9A, 0x4B,
        0xB8, 0xFE, 0x57, 0x5F, 0x05, 0x0F, 0x88, 0x6E,
    ]
}

/// The name of the metadata item that tells the block size and the flags.
pub open spec fn parameters_guid() -> Seq<u8> {
    seq![
        0x37u8, 0x67, 0xA1, 0xCA, 0x36, 0xFA, 0x43, 0x4D,
        0xB3, 0xB6, 0x33, 0xF0, 0xAA, 0x44, 0xE7, 0x6B,
    ]
}

/// The name of the metadata item that tells the size of the disk.
pub open spec fn size_guid() -> Seq<u8> {
    seq![
        0x24u8, 0x42, 0xA5, 0x2F, 0x1B, 0xCD, 0x76, 0x48,
        0xB2, 0x11, 0x5D, 0xBE, 0xD8, 0x3B, 0xF4, 0xB8,
    ]
}

/// The name of the metadata item that tells the size of a sector.
pub open spec fn sector_guid() -> Seq<u8> {
    seq![
        0x1Du8, 0xBF, 0x41, 0x81, 0x6F, 0xA9, 0x09, 0x47,
        0xBA, 0x47, 0xF2, 0x33, 0xA8, 0xFA, 0xAB, 0x5F,
    ]
}

/// Whether entry `i` of the region table at `t` is the first with a name.
pub open spec fn first_region(f: Seq<u8>, t: int, guid: Seq<u8>, i: int) -> bool {
    &&& 0 <= i < little4(f, t + 8) <= 2047
    &&& named(f, t + 16 + 32 * i, guid)
    &&& forall|j: int| 0 <= j < i ==> !#[trigger] named(f, t + 16 + 32 * j, guid)
}

/// Where in a VHDX file the region of entry `i` of the region table at `t`
/// stands.
pub open spec fn region_start(f: Seq<u8>, t: int, i: int) -> int {
    little8(f, t + 32 + 32 * i)
}

/// Where in a VHDX file item `i` of the metadata region at `m` stands.
pub open spec fn item_start(f: Seq<u8>, m: int, i: int) -> int {
    m + little4(f, m + 48 + 32 * i)
}

/// Whether item `i` of the metadata region at `m` is the last one with a name
/// among the first `n`.
pub open spec fn last_item(f: Seq<u8>, m: int, guid: Seq<u8>, i: int, n: int) -> bool {
    &&& 0 <= i < n
    &&& named(f, m + 32 + 32 * i, guid)
    &&& forall|j: int| i < j < n ==> !#[trigger] named(f, m + 32 + 32 * j, guid)
}

/// What the metadata items read so far come from: of each name, the last one.
pub open spec fn items_come_from(f: Seq<u8>, m: int, n: int, x: MetaItems) -> bool {
    &&& x.parameters matches Some(p) ==> exists|i: int| #[trigger]
        last_item(f, m, parameters_guid(), i, n) && p.0 == little4(f, item_start(f, m, i)) && p.1
            == little4(f, item_start(f, m, i) + 4)
    &&& x.virtual_size matches Some(s) ==> exists|i: int| #[trigger]
        last_item(f, m, size_guid(), i, n) && s == little8(f, item_start(f, m, i))
    &&& x.logical_sector_size matches Some(s) ==> exists|i: int| #[trigger]
        last_item(f, m, sector_guid(), i, n) && s == little4(f, item_start(f, m, i))
}

/// An item that is not the last one with its name stays what it was.
proof fn lemma_last_item(f: Seq<u8>, m: int, guid: Seq<u8>, i: int, n: int)
    requires
        last_item(f, m, guid, i, n),
        !named(f, m + 32 + 32 * n, guid),
    ensures
        last_item(f, m, guid, i, n + 1),
{
}

pub proof fn lemma_guids()
    ensures
        vhdx::region_bat() == bat_guid(),
        vhdx::region_metadata() == metadata_guid(),
        vhdx::meta_file_parameters() == parameters_guid(),
        vhdx::meta_virtual_disk_size() == size_guid(),
        vhdx::meta_logical_sector_size() == sector_guid(),
        parameters_guid() != size_guid(),
        parameters_guid() != sector_guid(),
        size_guid() != sector_guid(),
{
    assert(vhdx::region_bat() =~= bat_guid());
    assert(vhdx::region_metadata() =~= metadata_guid());
    assert(vhdx::meta_file_parameters() =~= parameters_guid());
    assert(vhdx::meta_virtual_disk_size() =~= size_guid());
    assert(vhdx::meta_logical_sector_size() =~= sector_guid());
    assert(parameters_guid()[0] == 0x37 && size_guid()[0] == 0x24 && sector_guid()[0] == 0x1D);
}

proof fn lemma_items(f: Seq<u8>, m: nat, i: nat, n: nat, x: MetaItems)
    requires
        i <= n,
        items_come_from(f, m as int, i as int, x),
        vhdx::items_from(f, m, i, n, x) is Ok,
    ensures
        items_come_from(f, m as int, n as int, vhdx::items_from(f, m, i, n, x)->Ok_0),
    decreases n - i,
{
    if i < n {
        lemma_guids();
        let base = (m + 32 + i * 32) as nat;
        lemma_fetched(f, base, 32);
        let entry = util::fetched(f, base, 32)->0;
        lemma_numbers(f, entry, base as int, 16);
        lemma_numbers(f, entry, base as int, 20);
        let at = util::le_at(entry, 16, 4);
        let len = util::le_at(entry, 20, 4);
        lemma_fetched(f, m + at, len);
        let item = util::fetched(f, m + at, len)->0;
        lemma_numbers(f, item, (m + at) as int, 0);
        lemma_numbers(f, item, (m + at) as int, 4);
        let guid = entry.take(16);
        assert(guid =~= f.subrange(base as int, base as int + 16));
        let y = vhdx::absorbed(x, guid, item)->Ok_0;
        assert(base as int + 16 == m + 48 + 32 * i);
        assert(item_start(f, m as int, i as int) == m + at);
        let (mi, k) = (m as int, i as int);
        assert(named(f, mi + 32 + 32 * k, guid));
        if guid == parameters_guid() {
            assert(last_item(f, mi, parameters_guid(), k, k + 1));
        } else if x.parameters is Some {
            let p = x.parameters->0;
            let j = choose|j: int| #[trigger] last_item(f, mi, parameters_guid(), j, k) && p.0
                == little4(f, item_start(f, mi, j)) && p.1 == little4(f, item_start(f, mi, j) + 4);
            lemma_last_item(f, mi, parameters_guid(), j, k);
        }
        if guid == size_guid() {
            assert(last_item(f, mi, size_guid(), k, k + 1));
        } else if x.virtual_size is Some {
            let j = choose|j: int| #[trigger] last_item(f, mi, size_guid(), j, k)
                && x.virtual_size->0 == little8(f, item_start(f, mi, j));
            lemma_last_item(f, mi, size_guid(), j, k);
        }
        if guid == sector_guid() {
            assert(last_item(f, mi, sector_guid(), k, k + 1));
        } else if x.logical_sector_size is Some {
            let j = choose|j: int| #[trigger] last_item(f, mi, sector_guid(), j, k)
                && x.logical_sector_size->0 == little4(f, item_start(f, mi, j));
            lemma_last_item(f, mi, sector_guid(), j, k);
        }
        lemma_items(f, m, i + 1, n, y);
    }
}

/// Whether the metadata region at `m` of a VHDX file says this of the disk.
pub open spec fn metadata_says(
    f: Seq<u8>,
    m: int,
    block_size: int,
    fixed: bool,
    size: int,
    sector: int,
) -> bool {
    let n = little2(f, m + 10);
    &&& exists|i: int| #[trigger]
        last_item(f, m, parameters_guid(), i, n) && block_size == little4(f, item_start(f, m, i))
            && fixed == (little4(f, item_start(f, m, i) + 4) % 2 == 1) && little4(
            f,
            item_start(f, m, i) + 4,
        ) / 2 % 2 == 0
    &&& exists|i: int| #[trigger]
        last_item(f, m, size_guid(), i, n) && size == little8(f, item_start(f, m, i))
    &&& exists|i: int| #[trigger]
        last_item(f, m, sector_guid(), i, n) && sector == little4(f, item_start(f, m, i))
}

proof fn lemma_metadata(f: Seq<u8>, m: nat)
    requires
        vhdx::metadata_at(f, m) is Ok,
        vhdx::refusal(vhdx::metadata_at(f, m)->Ok_0) is None,
    ensures
        ({
            let x = vhdx::metadata_at(f, m)->Ok_0;
            metadata_says(
                f,
                m as int,
                x.block_size as int,
                x.leave_blocks_allocated,
                x.virtual_size as int,
                x.logical_sector_size as int,
            )
        }),
{
    lemma_fetched(f, m, 32);
    let hdr = util::fetched(f, m, 32)->0;
    lemma_numbers(f, hdr, m as int, 10);
    let n = vhdx::meta_count(hdr)->Ok_0;
    lemma_items(f, m, 0, n, vhdx::no_items());
    let items = vhdx::items_from(f, m, 0, n, vhdx::no_items())->Ok_0;
    let p = items.parameters->0;
    let flags = p.1;
    lemma_flags(flags);
}

/// A region that is found is the first one with its name.
proof fn lemma_region(f: Seq<u8>, t: int, rs: Seq<RegionView>, guid: Seq<u8>, i: int)
    requires
        0 <= i <= rs.len(),
        0 <= t,
        t + 16 + 32 * rs.len() <= f.len(),
        forall|j: int|
            0 <= j < rs.len() ==> (#[trigger] rs[j]).guid == f.subrange(
                t + 16 + 32 * j,
                t + 32 + 32 * j,
            ) && rs[j].file_offset == region_start(f, t, j),
        rs.len() == little4(f, t + 8) <= 2047,
        forall|j: int| 0 <= j < i ==> !#[trigger] named(f, t + 16 + 32 * j, guid),
        vhdx::region_named(rs, guid, i) is Some,
    ensures
        exists|k: int| #[trigger]
            first_region(f, t, guid, k) && vhdx::region_named(rs, guid, i)->0.file_offset
                == region_start(f, t, k),
    decreases rs.len() - i,
{
    if i < rs.len() {
        assert(rs[i].guid == f.subrange(t + 16 + 32 * i, t + 32 + 32 * i));
        if rs[i].guid == guid {
            assert(named(f, t + 16 + 32 * i, guid));
            assert(first_region(f, t, guid, i));
        } else {
            assert(!named(f, t + 16 + 32 * i, guid));
            lemma_region(f, t, rs, guid, i + 1);
        }
    }
}

/// The region table at `t` holds what the file has there.
proof fn lemma_regions(f: Seq<u8>, t: nat)
    requires
        vhdx::regions_at(f, t) is Ok,
    ensures
        ({
            let rs = vhdx::regions_at(f, t)->Ok_0;
            &&& rs.len() == little4(f, t as int + 8) <= 2047
            &&& t + 0x1_0000 <= f.len()
            &&& forall|j: int|
                0 <= j < rs.len() ==> (#[trigger] rs[j]).guid == f.subrange(
                    t + 16 + 32 * j,
                    t + 32 + 32 * j,
                ) && rs[j].file_offset == region_start(f, t as int, j)
        }),
{
    lemma_fetched(f, t, 0x1_0000);
    let b = util::fetched(f, t, 0x1_0000)->0;
    lemma_numbers(f, b, t as int, 8);
    let rs = vhdx::regions_at(f, t)->Ok_0;
    assert forall|j: int| 0 <= j < rs.len() implies (#[trigger] rs[j]).guid == f.subrange(
        t + 16 + 32 * j,
        t + 32 + 32 * j,
    ) && rs[j].file_offset == region_start(f, t as int, j) by {
        lemma_numbers(f, b, t as int, 16 + j * 32 + 16);
        assert(b.subrange(16 + j * 32, 16 + j * 32 + 16) =~= f.subrange(
            t + 16 + 32 * j,
            t + 32 + 32 * j,
        ));
    }
}

/// Whether a VHDX header stands at `at`: its mark, and its own checksum.
pub open spec fn has_header(f: Seq<u8>, at: int) -> bool {
    &&& at + 4096 <= f.len()
    &&& f[at] == 0x68 && f[at + 1] == 0x65 && f[at + 2] == 0x61 && f[at + 3] == 0x64
    &&& little4(f, at + 4) == util::crc_of(
        f.subrange(at, at + 4) + seq![0u8, 0, 0, 0] + f.subrange(at + 8, at + 4096),
    )
}

pub proof fn lemma_header_at(f: Seq<u8>, at: int)
    requires
        0 <= at,
    ensures
        vhdx::header_at(f, at as nat) is Some <==> has_header(f, at),
        vhdx::header_at(f, at as nat) matches Some(h) ==> h.sequence_number == little8(f, at + 8)
            && h.log_length == little4(f, at + 68),
{
    lemma_fetched(f, at as nat, 4096);
    if at + 4096 <= f.len() {
        let b = util::fetched(f, at as nat, 4096)->0;
        lemma_numbers(f, b, at, 4);
        lemma_numbers(f, b, at, 8);
        lemma_numbers(f, b, at, 68);
        let mark = seq![0x68u8, 0x65, 0x61, 0x64];
        assert(vhdx::header_sig() =~= mark);
        lemma_begins(b, mark);
        assert(b[0] == f[at + 0] && b[1] == f[at + 1] && b[2] == f[at + 2] && b[3] == f[at + 3]);
        assert(mark[0] == 0x68 && mark[1] == 0x65 && mark[2] == 0x61 && mark[3] == 0x64);
        assert(vhdx::wiped(b) =~= f.subrange(at, at + 4) + seq![0u8, 0, 0, 0] + f.subrange(
            at + 8,
            at + 4096,
        ));
    }
}

/// Whether a VHDX region table stands at `at`: its mark, its own checksum, and
/// no more entries than fit.
pub open spec fn has_regions(f: Seq<u8>, at: int) -> bool {
    &&& at + 0x1_0000 <= f.len()
    &&& f[at] == 0x72 && f[at + 1] == 0x65 && f[at + 2] == 0x67 && f[at + 3] == 0x69
    &&& little4(f, at + 4) == util::crc_of(
        f.subrange(at, at + 4) + seq![0u8, 0, 0, 0] + f.subrange(at + 8, at + 0x1_0000),
    )
    &&& little4(f, at + 8) <= 2047
}

pub proof fn lemma_regions_at(f: Seq<u8>, at: int)
    requires
        0 <= at,
    ensures
        vhdx::regions_at(f, at as nat) is Ok <==> has_regions(f, at),
{
    lemma_fetched(f, at as nat, 0x1_0000);
    if at + 0x1_0000 <= f.len() {
        let b = util::fetched(f, at as nat, 0x1_0000)->0;
        lemma_numbers(f, b, at, 4);
        lemma_numbers(f, b, at, 8);
        let mark = seq![0x72u8, 0x65, 0x67, 0x69];
        assert(vhdx::region_sig() =~= mark);
        lemma_begins(b, mark);
        assert(b[0] == f[at + 0] && b[1] == f[at + 1] && b[2] == f[at + 2] && b[3] == f[at + 3]);
        assert(mark[0] == 0x72 && mark[1] == 0x65 && mark[2] == 0x67 && mark[3] == 0x69);
        assert(vhdx::wiped(b) =~= f.subrange(at, at + 4) + seq![0u8, 0, 0, 0] + f.subrange(
            at + 8,
            at + 0x1_0000,
        ));
    }
}

/// The header of a VHDX file that counts stands at `at`, the other one at
/// `other`: it is usable, and newer than the other one if that is usable too.
pub open spec fn current_header(f: Seq<u8>, at: int, other: int) -> bool {
    has_header(f, at) && (has_header(f, other) ==> little8(f, at + 8) >= little8(f, other + 8))
}

/// What a VHDX file that opens holds. Its current header has an empty log. The
/// first region table that is usable names the regions; the metadata region says
/// what the disk is; the block allocation table has an entry for every block and
/// one more after every chunk, and its entries stand in the file one after the
/// other.
pub proof fn law_vhdx_file(path: Seq<char>, f: Seq<u8>)
    requires
        vhdx::opened(path, f) is Ok,
    ensures
        begins(f, seq![0x76u8, 0x68, 0x64, 0x78, 0x66, 0x69, 0x6c, 0x65]),
        (current_header(f, 0x1_0000, 0x2_0000) && little4(f, 0x1_0044) == 0) || (current_header(
            f,
            0x2_0000,
            0x1_0000,
        ) && little4(f, 0x2_0044) == 0),
        ({
            let v = vhdx::opened(path, f)->Ok_0;
            &&& v.path == path
            &&& v.file == f
            &&& v.block_size > 0 && v.block_size % 0x10_0000 == 0
            &&& v.logical_sector_size == 512 || v.logical_sector_size == 4096
            &&& v.chunk_ratio > 0
            &&& v.chunk_ratio * v.block_size <= 0x80_0000 * v.logical_sector_size < (v.chunk_ratio
                + 1) * v.block_size
            &&& ({
                let blocks = (v.virtual_size + v.block_size - 1) / v.block_size as int;
                v.bat.len() == blocks + (blocks + v.chunk_ratio - 1) / v.chunk_ratio as int
            })
            &&& exists|t: int, i: int, j: int|
                {
                    &&& t == 0x3_0000 || (t == 0x4_0000 && !has_regions(f, 0x3_0000))
                    &&& has_regions(f, t)
                    &&& #[trigger] first_region(f, t, bat_guid(), i)
                    &&& #[trigger] first_region(f, t, metadata_guid(), j)
                    &&& metadata_says(
                        f,
                        region_start(f, t, j),
                        v.block_size as int,
                        v.is_fixed,
                        v.virtual_size as int,
                        v.logical_sector_size as int,
                    )
                    &&& forall|k: int|
                        0 <= k < v.bat.len() ==> #[trigger] v.bat[k] == little8(
                            f,
                            region_start(f, t, i) + 8 * k,
                        )
                }
        }),
{
    let v = vhdx::opened(path, f)->Ok_0;
    lemma_guids();
    let magic = seq![0x76u8, 0x68, 0x64, 0x78, 0x66, 0x69, 0x6c, 0x65];
    assert(crate::image::format::vhdx_magic() =~= magic);
    lemma_fetched(f, 0, 8);
    assert(begins(f, magic)) by {
        let sig = util::fetched(f, 0, 8)->0;
        assert forall|i: int| 0 <= i < magic.len() implies f[i] == #[trigger] magic[i] by {
            assert(sig[i] == f[0 + i]);
        }
    }
    lemma_header_at(f, 0x1_0000);
    lemma_header_at(f, 0x2_0000);
    let t: nat = if vhdx::regions_at(f, 0x3_0000) is Ok {
        0x3_0000
    } else {
        0x4_0000
    };
    lemma_regions_at(f, 0x3_0000);
    lemma_regions_at(f, 0x4_0000);
    lemma_regions(f, t);
    let rs = vhdx::regions_at(f, t)->Ok_0;
    lemma_region(f, t as int, rs, bat_guid(), 0);
    lemma_region(f, t as int, rs, metadata_guid(), 0);
    let bat = vhdx::region_named(rs, bat_guid(), 0)->0;
    let meta = vhdx::region_named(rs, metadata_guid(), 0)->0;
    let i = choose|i: int| #[trigger] first_region(f, t as int, bat_guid(), i) && bat.file_offset
        == region_start(f, t as int, i);
    let j = choose|j: int| #[trigger] first_region(f, t as int, metadata_guid(), j)
        && meta.file_offset == region_start(f, t as int, j);
    let m = vhdx::metadata_at(f, meta.file_offset as nat)->Ok_0;
    lemma_metadata(f, meta.file_offset as nat);
    law_vhdx_chunk_ratio(m);
    let n = vhdx::bat_len(m);
    lemma_ceil(m.virtual_size as nat, m.block_size as nat);
    lemma_ceil(vhdx::blocks_of(m), vhdx::ratio_of(m));
    lemma_fetched(f, bat.file_offset as nat, n * 8);
    let raw = util::fetched(f, bat.file_offset as nat, n * 8)->0;
    assert forall|k: int| 0 <= k < v.bat.len() implies #[trigger] v.bat[k] == little8(
        f,
        region_start(f, t as int, i) + 8 * k,
    ) by {
        lemma_numbers(f, raw, bat.file_offset as int, 8 * k);
    }
    assert(first_region(f, t as int, bat_guid(), i) && first_region(
        f,
        t as int,
        metadata_guid(),
        j,
    ));
}

/// The chunk ratio is how many whole blocks one sector bitmap block tells of: a
/// bitmap block is one mebibyte and has a bit for every sector.
pub proof fn law_vhdx_chunk_ratio(m: Metadata)
    requires
        vhdx::refusal(m) is None,
    ensures
        ({
            let r = vhdx::ratio_of(m) as int;
            let covered = 8 * 0x10_0000 * m.logical_sector_size;
            &&& 0 < r <= u64::MAX
            &&& r * m.block_size <= covered < (r + 1) * m.block_size
        }),
{
    let bs = m.block_size as int;
    let top = 0x80_0000 * m.logical_sector_size as int;
    assert(bs >= 0x10_0000);
    let r = top / bs;
    vstd::arithmetic::div_mod::lemma_div_non_zero(top, bs);
    vstd::arithmetic::div_mod::lemma_fundamental_div_mod(top, bs);
    assert(bs * r == r * bs) by (nonlinear_arith);
    assert((r + 1) * bs == r * bs + bs) by (nonlinear_arith);
    vstd::arithmetic::div_mod::lemma_div_is_ordered_by_denominator(top, 1, bs);
}

/// Where a VHDX image keeps the disk. Block `b` has its entry `b` places into
/// the block allocation table, and one more for every chunk before it. State 6
/// names the mebibyte of the file at which the block stands; states 0 to 3 hold
/// nothing and read as zero; any other is refused.
pub proof fn law_vhdx_disk(image: &VhdxImage, path: Seq<char>, f: Seq<u8>, offset: nat)
    requires
        vhdx::opened(path, f) == Ok::<vhdx::VhdxView, ErrorView>(image@),
        offset < image@.virtual_size,
        f.len() <= 0x7FFF_FFFF_FFFF_FFFF,
    ensures
        image.summary().virtual_size == image@.virtual_size,
        ({
            let v = image@;
            let block = offset as int / v.block_size as int;
            let within = offset as int % v.block_size as int;
            let place = block + block / v.chunk_ratio as int;
            let entry = v.bat[place];
            let start = entry as int / 0x10_0000 * 0x10_0000 + within;
            let got = image.reads()(offset, 1);
            &&& 0 <= place < v.bat.len()
            &&& entry % 8 <= 3 ==> got == Ok::<Seq<u8>, ErrorView>(seq![0u8])
            &&& entry % 8 == 6 && start < f.len() ==> got == Ok::<Seq<u8>, ErrorView>(
                seq![f[start]],
            )
            &&& entry % 8 == 6 && start >= f.len() ==> got is Err
            &&& entry % 8 == 4 || entry % 8 == 5 || entry % 8 == 7 ==> got is Err
        }),
{
    law_vhdx_file(path, f);
    let v = image@;
    let unit = v.block_size as nat;
    let block = offset / unit;
    let place = (block + block / v.chunk_ratio as nat) as int;
    assert(v.wf());
    vhdx::lemma_one_byte(v, offset);
    assert(seq![0u8] =~= crate::image::disk::zeros(1));
    lemma_place(v.virtual_size as int, v.block_size as int, v.chunk_ratio as int, offset as int);
    assert(0 <= place < v.bat.len());
    let entry = v.bat[place];
    lemma_state(entry);
    let start = entry as int / 0x10_0000 * 0x10_0000 + offset as int % unit as int;
    if entry % 8 == 6 {
        lemma_fetched(f, start as nat, 1);
        if start < f.len() {
            assert(util::clip(f, start as nat, 1) =~= seq![f[start]]);
        }
    }
}

/// Every byte of the disk has its entry.
proof fn lemma_place(size: int, bs: int, r: int, cur: int)
    requires
        0 <= cur < size,
        bs > 0,
        r > 0,
    ensures
        ({
            let blocks = (size + bs - 1) / bs;
            0 <= cur / bs + cur / bs / r < blocks + (blocks + r - 1) / r
        }),
{
    let b = cur / bs;
    let blocks = (size + bs - 1) / bs;
    vstd::arithmetic::div_mod::lemma_fundamental_div_mod(cur, bs);
    vstd::arithmetic::div_mod::lemma_fundamental_div_mod(size + bs - 1, bs);
    vstd::arithmetic::div_mod::lemma_div_pos_is_pos(cur, bs);
    vstd::arithmetic::div_mod::lemma_div_pos_is_pos(b, r);
    if b >= blocks {
        assert(bs * b >= bs * blocks) by (nonlinear_arith)
            requires
                b >= blocks,
                bs > 0,
        ;
    }
    let q = b / r;
    let maps = (blocks + r - 1) / r;
    vstd::arithmetic::div_mod::lemma_fundamental_div_mod(b, r);
    vstd::arithmetic::div_mod::lemma_fundamental_div_mod(blocks + r - 1, r);
    if q >= maps {
        assert(r * q >= r * maps) by (nonlinear_arith)
            requires
                q >= maps,
                r > 0,
        ;
    }
}

/// The format of a file is told by how it begins, and a file that begins like
/// none of the others is raw. Only an empty file has no format.
pub proof fn law_format(f: Seq<u8>)
    ensures
        crate::image::format::detected(f) is None <==> f.len() == 0,
        crate::image::format::detected(f) == Some(FormatKind::Qcow2) <==> begins(
            f,
            seq![0x51u8, 0x46, 0x49, 0xfb],
        ),
        crate::image::format::detected(f) == Some(FormatKind::Vmdk) <==> begins(
            f,
            seq![0x4bu8, 0x44, 0x4d, 0x56],
        ),
        crate::image::format::detected(f) == Some(FormatKind::Vhdx) <==> begins(
            f,
            seq![0x76u8, 0x68, 0x64, 0x78, 0x66, 0x69, 0x6c, 0x65],
        ),
{
    let (a, b, c) = (
        seq![0x51u8, 0x46, 0x49, 0xfb],
        seq![0x4bu8, 0x44, 0x4d, 0x56],
        seq![0x76u8, 0x68, 0x64, 0x78, 0x66, 0x69, 0x6c, 0x65],
    );
    assert(crate::image::format::qcow2_magic() =~= a && crate::image::format::vmdk_magic() =~= b && crate::image::format::vhdx_magic() =~= c);
    lemma_begins(f, a);
    lemma_begins(f, b);
    lemma_begins(f, c);
    assert(a[0] == 0x51 && b[0] == 0x4b && c[0] == 0x76);
}

/// Opening a file gives an image of the format that the file begins like, and
/// the disk of a raw one is the file: a read gives the bytes at the offset, as
/// many as were asked for, up to the end.
pub proof fn law_open(path: Seq<char>, f: Seq<u8>, r: CelResult<AnyImage>, offset: nat, len: nat)
    requires
        any::opened_as(path, f, r),
    ensures
        f.len() == 0 ==> r is Err,
        r matches Ok(AnyImage::Qcow2(_)) ==> is_plain_qcow2(f),
        begins(f, seq![0x51u8, 0x46, 0x49, 0xfb]) ==> (r is Ok <==> is_plain_qcow2(f)),
        r matches Ok(AnyImage::Vmdk(_)) ==> is_plain_vmdk(f),
        begins(f, seq![0x4bu8, 0x44, 0x4d, 0x56]) ==> (r is Ok <==> is_plain_vmdk(f)),
        f.len() > 0 && !begins(f, seq![0x51u8, 0x46, 0x49, 0xfb]) && !begins(
            f,
            seq![0x4bu8, 0x44, 0x4d, 0x56],
        ) && !begins(f, seq![0x76u8, 0x68, 0x64, 0x78, 0x66, 0x69, 0x6c, 0x65]) ==> (r matches Ok(
            AnyImage::Raw(i),
        ) && i.reads()(offset, len) == Ok::<Seq<u8>, ErrorView>(
            stretch(f, offset as int, len as int),
        )),
{
    law_format(f);
    law_qcow2_header(path, f);
    law_vmdk_header(path, f);
    let s = util::clip(f, offset, len);
    assert(s =~= stretch(f, offset as int, len as int));
}

} // verus!
