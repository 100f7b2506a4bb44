//! What holds of image files that cannot be read, and of what is told of those
//! that can: which fault a header has, in which words, and that a file without a
//! fault is not refused.

use vstd::prelude::*;
use vstd::string::*;

use crate::error::{CelError, ErrorView};
use crate::image::any::AnyImage;
use crate::image::disk;
use crate::image::disk::{DiskImage, PieceView};
use crate::image::format::FormatKind;
use crate::image::layout;
use crate::image::qcow2;
use crate::image::qcow2::{Qcow2Header, Qcow2Image};
use crate::image::raw::RawImage;
use crate::image::util;
use crate::image::vhdx;
use crate::image::vhdx::{MetaItems, Metadata, VhdxImage};
use crate::image::vmdk;
use crate::image::vmdk::{VmdkHeader, VmdkImage};

verus! {

/// Why a qcow2 image is refused: its clusters have less than 512 bytes or more
/// than 2 MiB, it is encrypted, it has a backing file, its table does not stand
/// at a sector, or it needs compression or extended entries. Without any of these
/// it is not refused.
pub proof fn law_qcow2_refusals(h: Qcow2Header)
    ensures
        ({
            let r = qcow2::refusal(h);
            let a = h.cluster_bits < 9 || h.cluster_bits > 21;
            let b = h.crypt_method != 0;
            let c = h.backing_file_offset != 0;
            let d = h.l1_table_offset == 0 || h.l1_table_offset % 512 != 0;
            let e = h.version >= 3 && h.incompatible_features / 8 % 4 != 0;
            &&& a ==> r == Some(
                CelError::Invalid("qcow2: cluster_bits outside spec range 9..=21"),
            )
            &&& !a && b ==> r == Some(CelError::Invalid("qcow2: encrypted images not supported"))
            &&& !a && !b && c ==> r == Some(
                CelError::Invalid("qcow2: backing-file chains not supported"),
            )
            &&& !a && !b && !c && d ==> r == Some(
                CelError::Invalid("qcow2: invalid l1_table_offset"),
            )
            &&& !a && !b && !c && !d && e ==> r == Some(
                CelError::Invalid(
                    "qcow2: incompatible_features bit not supported (compress/extended-l2)",
                ),
            )
            &&& !a && !b && !c && !d && !e ==> r is None
        }),
{
    layout::lemma_features(h.incompatible_features);
}

/// Why the head of a file is no qcow2 header: it is too short, has another mark or
/// another version than 2 and 3, or a cluster size that no number holds.
pub proof fn law_qcow2_headers(buf: Seq<u8>)
    ensures
        ({
            let r = qcow2::parsed_header(buf);
            let mark = buf.subrange(0, 4) == seq![0x51u8, 0x46, 0x49, 0xfb];
            let version = util::be_at(buf, 4, 4);
            let bits = util::be_at(buf, 20, 4);
            &&& buf.len() < 72 ==> r == bad_qcow2("qcow2: header truncated")
            &&& buf.len() >= 72 && !mark ==> r == bad_qcow2("qcow2: bad magic")
            &&& buf.len() >= 72 && mark && version != 2 && version != 3 ==> r == bad_qcow2(
                "qcow2: only v2/v3 supported",
            )
            &&& buf.len() >= 72 && mark && (version == 2 || version == 3) && bits >= 64 ==> r
                == bad_qcow2("qcow2: cluster_bits out of range")
            &&& buf.len() >= 72 && mark && (version == 2 || version == 3) && bits < 64 ==> r is Ok
        }),
{
    let magic = crate::image::format::qcow2_magic();
    assert(magic =~= seq![0x51u8, 0x46, 0x49, 0xfb]);
    if buf.len() >= 72 {
        util::lemma_be4(buf.subrange(4, 8));
        util::lemma_be4(buf.subrange(20, 24));
    }
}

/// A qcow2 header that cannot be read.
pub open spec fn bad_qcow2(words: &'static str) -> Result<Qcow2Header, CelError> {
    Err(CelError::Invalid(words))
}

/// What an entry of the second level stands for: nothing that is stored where it
/// is empty or, from version 3 on, marked as zero; the stored bytes otherwise.
/// Compressed clusters are refused.
pub proof fn law_qcow2_entries(version: u32, entry: u64, intra: nat, take: nat)
    ensures
        ({
            let r = qcow2::resolved(version, entry, intra, take);
            let packed = entry / 0x4000_0000_0000_0000 % 2 == 1;
            let zero = version >= 3 && entry % 2 == 1;
            let at = entry % 0x100_0000_0000_0000 / 512 * 512;
            &&& packed ==> r == Err::<PieceView, ErrorView>(
                ErrorView::Invalid("qcow2: compressed cluster not supported"@),
            )
            &&& !packed && (zero || at == 0) ==> r == Ok::<PieceView, ErrorView>(
                PieceView::Zeros { len: take },
            )
            &&& !packed && !zero && at > 0 ==> r == Ok::<PieceView, ErrorView>(
                PieceView::Data { at: (at + intra) as nat, len: take },
            )
        }),
{
    assert((entry & 0x4000_0000_0000_0000 != 0) == (entry / 0x4000_0000_0000_0000 % 2 == 1) && (
    entry & 1 != 0) == (entry % 2 == 1) && entry & 0x00ff_ffff_ffff_fe00 == entry
        % 0x100_0000_0000_0000 / 512 * 512) by (bit_vector);
}

/// Why a VMDK image is refused. Without any of these faults it is not.
pub proof fn law_vmdk_refusals(h: VmdkHeader)
    ensures
        ({
            let r = vmdk::refusal(h);
            let a = h.compress_algorithm != 0;
            let b = h.grain_size_sectors < 8 || h.grain_size_sectors > 0x10_0000
                || !vstd::arithmetic::power2::is_pow2(h.grain_size_sectors as int);
            let c = !vstd::arithmetic::power2::is_pow2(h.num_gtes_per_gt as int);
            let d = h.gd_offset_sectors == 0;
            let e = h.overhead_sectors == 0;
            let f = h.descriptor_offset_sectors + h.descriptor_size_sectors
                > 0xFFFF_FFFF_FFFF_FFFF;
            &&& a ==> r == Some(
                CelError::Invalid("vmdk: compressed (streamOptimized) extents not supported"),
            )
            &&& !a && b ==> r == Some(CelError::Invalid("vmdk: grain_size_sectors out of spec"))
            &&& !a && !b && c ==> r == Some(
                CelError::Invalid("vmdk: num_gtes_per_gt must be a power of two"),
            )
            &&& !a && !b && !c && d ==> r == Some(
                CelError::Invalid(
                    "vmdk: gd_offset == 0 (descriptor-only / multi-extent images not supported)",
                ),
            )
            &&& !a && !b && !c && !d && e ==> r == Some(
                CelError::Invalid("vmdk: overhead == 0 (malformed)"),
            )
            &&& !a && !b && !c && !d && !e && f ==> r == Some(
                CelError::Invalid("vmdk: descriptor offset+size overflow"),
            )
            &&& !a && !b && !c && !d && !e && !f ==> r is None
        }),
{
}

/// Why the head of a file is no VMDK header: it is too short, has another mark, or
/// another version than 1, 2 and 3.
pub proof fn law_vmdk_headers(buf: Seq<u8>)
    ensures
        ({
            let r = vmdk::parsed_header(buf);
            let mark = buf.subrange(0, 4) == seq![0x4bu8, 0x44, 0x4d, 0x56];
            let version = util::le_at(buf, 4, 4);
            &&& buf.len() < 80 ==> r == bad_vmdk("vmdk: header truncated")
            &&& buf.len() >= 80 && !mark ==> r == bad_vmdk("vmdk: bad magic (not KDMV)")
            &&& buf.len() >= 80 && mark && (version == 0 || version > 3) ==> r == bad_vmdk(
                "vmdk: unsupported sparse extent version",
            )
            &&& buf.len() >= 80 && mark && 1 <= version <= 3 ==> r is Ok
        }),
{
    let magic = crate::image::format::vmdk_magic();
    assert(magic =~= seq![0x4bu8, 0x44, 0x4d, 0x56]);
}

/// A VMDK header that cannot be read.
pub open spec fn bad_vmdk(words: &'static str) -> Result<VmdkHeader, CelError> {
    Err(CelError::Invalid(words))
}

/// Why a VHDX image is refused: it builds on another one, its blocks are not
/// whole MiB, or its sectors have neither 512 nor 4096 bytes. Without any of these
/// it is not refused.
pub proof fn law_vhdx_refusals(m: Metadata)
    ensures
        ({
            let r = vhdx::refusal(m);
            let b = m.block_size == 0 || m.block_size % 0x10_0000 != 0;
            let c = m.logical_sector_size != 512 && m.logical_sector_size != 4096;
            &&& m.has_parent ==> r == Some(
                CelError::Invalid("vhdx: differencing images (HasParent) not supported"),
            )
            &&& !m.has_parent && b ==> r == Some(
                CelError::Invalid("vhdx: block_size must be a multiple of 1 MB"),
            )
            &&& !m.has_parent && !b && c ==> r == Some(
                CelError::Invalid("vhdx: logical_sector_size must be 512 or 4096"),
            )
            &&& !m.has_parent && !b && !c ==> r is None
        }),
{
}

/// What the items of a VHDX file make up: block size and flags, the size of the
/// disk and that of a sector, all of which have to be there.
pub proof fn law_vhdx_items(x: MetaItems)
    ensures
        ({
            let r = vhdx::complete(x);
            &&& r is Ok <==> x.parameters is Some && x.virtual_size is Some
                && x.logical_sector_size is Some
            &&& x.parameters is None ==> r == Err::<Metadata, CelError>(
                CelError::Invalid("vhdx: FileParameters missing"),
            )
            &&& x.parameters is Some && x.virtual_size is None ==> r == Err::<Metadata, CelError>(
                CelError::Invalid("vhdx: VirtualDiskSize missing"),
            )
            &&& x.parameters is Some && x.virtual_size is Some && x.logical_sector_size is None
                ==> r == Err::<Metadata, CelError>(
                CelError::Invalid("vhdx: LogicalSectorSize missing"),
            )
            &&& r matches Ok(m) ==> {
                let p = x.parameters->0;
                &&& m.block_size == p.0
                &&& m.virtual_size == x.virtual_size->0
                &&& m.logical_sector_size == x.logical_sector_size->0
                &&& m.leave_blocks_allocated == (p.1 % 2 == 1)
                &&& m.has_parent == (p.1 / 2 % 2 == 1)
            }
        }),
{
    if x.parameters is Some {
        let p = x.parameters->0;
        layout::lemma_flags(p.1);
    }
}

/// Why a structure of a VHDX file cannot be read: another mark, a checksum that is
/// not its own, too many entries or none, or an item that is too short or too
/// long.
pub proof fn law_vhdx_parts(buf: Seq<u8>, len: nat, x: MetaItems, item: Seq<u8>)
    ensures
        !util::matches_at(buf, 0, seq![0x68u8, 0x65, 0x61, 0x64]) ==> vhdx::parsed_header(buf)
            == Err::<vhdx::VhdxHeader, CelError>(
            CelError::Invalid("vhdx: header signature mismatch"),
        ),
        util::matches_at(buf, 0, seq![0x68u8, 0x65, 0x61, 0x64]) && !vhdx::sealed(buf)
            ==> vhdx::parsed_header(buf) == Err::<vhdx::VhdxHeader, CelError>(
            CelError::Invalid("vhdx: header CRC mismatch"),
        ),
        !util::matches_at(buf, 0, seq![0x72u8, 0x65, 0x67, 0x69]) ==> vhdx::parsed_regions(buf)
            == Err::<Seq<vhdx::RegionView>, CelError>(
            CelError::Invalid("vhdx: region signature mismatch"),
        ),
        util::matches_at(buf, 0, seq![0x72u8, 0x65, 0x67, 0x69]) && !vhdx::sealed(buf)
            ==> vhdx::parsed_regions(buf) == Err::<Seq<vhdx::RegionView>, CelError>(
            CelError::Invalid("vhdx: region CRC mismatch"),
        ),
        util::matches_at(buf, 0, seq![0x72u8, 0x65, 0x67, 0x69]) && vhdx::sealed(buf)
            && util::le_at(buf, 8, 4) > 2047 ==> vhdx::parsed_regions(buf) == Err::<
            Seq<vhdx::RegionView>,
            CelError,
        >(CelError::Invalid("vhdx: region entry count > 2047")),
        !util::matches_at(buf, 0, seq![0x6du8, 0x65, 0x74, 0x61, 0x64, 0x61, 0x74, 0x61])
            ==> vhdx::meta_count(buf) == Err::<nat, CelError>(
            CelError::Invalid("vhdx: metadata signature mismatch"),
        ),
        util::matches_at(buf, 0, seq![0x6du8, 0x65, 0x74, 0x61, 0x64, 0x61, 0x74, 0x61]) ==> (
        vhdx::meta_count(buf) is Ok <==> 1 <= util::le_at(buf, 10, 2) <= 2047) && (vhdx::meta_count(
            buf,
        ) matches Ok(n) ==> n == util::le_at(buf, 10, 2)),
        vhdx::item_len_ok(len) <==> 1 <= len <= 0x10_0000,
        item.len() < 8 ==> vhdx::absorbed(x, layout::parameters_guid(), item) is Err
            && vhdx::absorbed(x, layout::size_guid(), item) is Err,
        item.len() < 4 ==> vhdx::absorbed(x, layout::sector_guid(), item) is Err,
{
    assert(vhdx::header_sig() =~= seq![0x68u8, 0x65, 0x61, 0x64]);
    assert(vhdx::region_sig() =~= seq![0x72u8, 0x65, 0x67, 0x69]);
    assert(vhdx::metadata_sig() =~= seq![0x6du8, 0x65, 0x74, 0x61, 0x64, 0x61, 0x74, 0x61]);
    layout::lemma_guids();
}

/// What the state of a block says: 0 to 3 that nothing is stored, 6 that it is
/// stored where the entry says; 7 is refused as a piece of another image, and
/// anything else as unknown.
pub proof fn law_vhdx_states(bat: Seq<u64>, block_size: nat, ratio: nat, cur: nat, want: nat)
    requires
        block_size > 0,
        ratio > 0,
    ensures
        ({
            let i = cur / block_size + cur / block_size / ratio;
            let r = vhdx::located(bat, block_size, ratio, cur, want);
            &&& i >= bat.len() ==> r == Err::<PieceView, ErrorView>(
                ErrorView::Invalid("vhdx: BAT index out of range"@),
            )
            &&& i < bat.len() ==> {
                let state = bat[i as int] % 8;
                &&& state == 7 ==> r == Err::<PieceView, ErrorView>(
                    ErrorView::Invalid(
                        "vhdx: partially-present block (differencing) not supported"@,
                    ),
                )
                &&& state == 4 || state == 5 ==> r == Err::<PieceView, ErrorView>(
                    ErrorView::Invalid("vhdx: unknown BAT state"@),
                )
                &&& state <= 3 ==> (r matches Ok(PieceView::Zeros { len }) && len <= want && (len
                    == want || (cur + len) as int % block_size as int == 0))
            }
        }),
{
    let b = cur / block_size;
    let i = (b + b / ratio) as int;
    vstd::arithmetic::div_mod::lemma_fundamental_div_mod(cur as int, block_size as int);
    if i < bat.len() {
        let e = bat[i];
        layout::lemma_state(e);
        let room = block_size - cur % block_size;
        if want >= room {
            let q = cur as int / block_size as int;
            assert(cur + room == block_size * (q + 1)) by (nonlinear_arith)
                requires
                    cur == block_size * q + cur as int % block_size as int,
                    room == block_size - cur as int % block_size as int,
            ;
            vstd::arithmetic::div_mod::lemma_mod_multiples_basic(q + 1, block_size as int);
            vstd::arithmetic::mul::lemma_mul_is_commutative(block_size as int, q + 1);
        }
    }
}

/// What is told of an image: its format, the size of its disk, the unit in which
/// space is given to it, and how it is kept.
pub proof fn law_infos(a: &RawImage, b: &Qcow2Image, c: &VmdkImage, d: &VhdxImage)
    ensures
        a.summary().format == FormatKind::Raw,
        a.summary().cluster_size is None,
        a.summary().backend@ == "raw"@,
        b.summary().format == FormatKind::Qcow2,
        b.summary().virtual_size == b@.header.size,
        b.summary().cluster_size == Some(b@.header.cluster_size),
        b@.header.version == 2 ==> b.summary().backend@ == "qcow2-v2"@,
        b@.header.version == 3 ==> b.summary().backend@ == "qcow2-v3"@,
        c.summary().format == FormatKind::Vmdk,
        c.summary().virtual_size == c@.virtual_size,
        c@.grain_size_sectors <= 0x10_0000 ==> c.summary().cluster_size == Some(
            (512 * c@.grain_size_sectors) as u64,
        ),
        c.summary().backend@ == "vmdk-monolithic-sparse"@,
        d.summary().format == FormatKind::Vhdx,
        d.summary().virtual_size == d@.virtual_size,
        d.summary().cluster_size == Some(d@.block_size as u64),
        d@.is_fixed ==> d.summary().backend@ == "vhdx-fixed"@,
        !d@.is_fixed ==> d.summary().backend@ == "vhdx-dynamic"@,
        crate::image::format::tag_of(FormatKind::Raw)@ == "raw"@,
        crate::image::format::tag_of(FormatKind::Qcow2)@ == "qcow2"@,
        crate::image::format::tag_of(FormatKind::Vmdk)@ == "vmdk"@,
        crate::image::format::tag_of(FormatKind::Vhdx)@ == "vhdx"@,
{
}

/// A VHDX file is refused in these words if it has no usable header, a log to be
/// replayed, no usable region table, or not both regions that are needed.
pub proof fn law_vhdx_opening(path: Seq<char>, f: Seq<u8>)
    requires
        f.len() >= 8,
    ensures
        ({
            let r = vhdx::opened(path, f);
            let mark = f.take(8) == seq![0x76u8, 0x68, 0x64, 0x78, 0x66, 0x69, 0x6c, 0x65];
            let a = layout::has_header(f, 0x1_0000);
            let b = layout::has_header(f, 0x2_0000);
            let first = a && (!b || layout::little8(f, 0x1_0008) >= layout::little8(f, 0x2_0008));
            let log = if first {
                layout::little4(f, 0x1_0044)
            } else {
                layout::little4(f, 0x2_0044)
            };
            let tables = layout::has_regions(f, 0x3_0000) || layout::has_regions(f, 0x4_0000);
            &&& !mark ==> r == bad_vhdx("vhdx: bad file identifier"@)
            &&& mark && !a && !b ==> r == bad_vhdx("vhdx: no valid header (both CRCs bad)"@)
            &&& mark && (a || b) && log != 0 ==> r == bad_vhdx(
                "vhdx: non-empty log not supported (replay journal first)"@,
            )
            &&& mark && (a || b) && log == 0 && !tables ==> r is Err
            &&& mark && (a || b) && log == 0 && tables ==> {
                let at: int = if layout::has_regions(f, 0x3_0000) {
                    0x3_0000
                } else {
                    0x4_0000
                };
                let rs = vhdx::regions_at(f, at as nat)->Ok_0;
                let bat = vhdx::region_named(rs, layout::bat_guid(), 0);
                let meta = vhdx::region_named(rs, layout::metadata_guid(), 0);
                &&& bat is None ==> r == bad_vhdx("vhdx: BAT region missing"@)
                &&& bat is Some && meta is None ==> r == bad_vhdx("vhdx: metadata region missing"@)
                &&& bat is Some && meta is Some ==> match vhdx::metadata_at(
                    f,
                    meta->0.file_offset as nat,
                ) {
                    Err(e) => r == Err::<vhdx::VhdxView, ErrorView>(e),
                    Ok(m) => r == vhdx::mapped(path, f, bat->0, m),
                }
            }
        }),
{
    layout::lemma_fetched(f, 0, 8);
    let sig = util::fetched(f, 0, 8)->0;
    assert(sig =~= f.take(8));
    assert(crate::image::format::vhdx_magic() =~= seq![
        0x76u8,
        0x68,
        0x64,
        0x78,
        0x66,
        0x69,
        0x6c,
        0x65,
    ]);
    layout::lemma_header_at(f, 0x1_0000);
    layout::lemma_header_at(f, 0x2_0000);
    layout::lemma_regions_at(f, 0x3_0000);
    layout::lemma_regions_at(f, 0x4_0000);
    layout::lemma_guids();
}

/// A VHDX file that is refused.
pub open spec fn bad_vhdx(words: Seq<char>) -> Result<vhdx::VhdxView, ErrorView> {
    Err(ErrorView::Invalid(words))
}

/// A VHDX file whose metadata is sound is opened exactly if its table has a place
/// for every block of the disk, and one more for each group of blocks, and if the
/// file holds the table.
pub proof fn law_vhdx_tables(
    path: Seq<char>,
    f: Seq<u8>,
    bat: vhdx::RegionView,
    m: Metadata,
    blocks: int,
    groups: int,
)
    requires
        vhdx::refusal(m) is None,
        blocks >= 0,
        groups >= 0,
        m.virtual_size <= blocks * m.block_size < m.virtual_size + m.block_size,
        blocks <= groups * vhdx::ratio_of(m) < blocks + vhdx::ratio_of(m),
    ensures
        ({
            let r = vhdx::mapped(path, f, bat, m);
            let n = 8 * (blocks + groups);
            &&& n > bat.length ==> r == bad_vhdx(
                "vhdx: BAT region too small for declared virtual size"@,
            )
            &&& r is Ok <==> n <= bat.length && bat.file_offset <= 0x7FFF_FFFF_FFFF_FFFF && (n == 0
                || bat.file_offset + n <= f.len())
            &&& r matches Ok(v) ==> v.virtual_size == m.virtual_size && v.block_size == m.block_size
                && v.is_fixed == m.leave_blocks_allocated && v.bat.len() == blocks + groups
        }),
{
    lemma_ceil_is(m.virtual_size as nat, m.block_size as nat, blocks);
    lemma_ceil_is(blocks as nat, vhdx::ratio_of(m), groups);
    layout::lemma_fetched(f, bat.file_offset as nat, vhdx::bat_len(m) * 8);
}

proof fn lemma_ceil_is(a: nat, b: nat, q: int)
    requires
        q >= 0,
        a <= q * b < a + b,
    ensures
        util::ceil(a, b) == q,
{
    layout::lemma_ceil(a, b);
    let c = util::ceil(a, b) as int;
    vstd::arithmetic::div_mod::lemma_fundamental_div_mod(a + b - 1, b as int);
    assert(c * b == b * c) by (nonlinear_arith);
    assert(c == q) by (nonlinear_arith)
        requires
            b > 0,
            a <= q * b < a + b,
            a <= c * b < a + b,
    ;
}

/// The regions of a VHDX file are listed in entries of 32 bytes behind the first
/// 16 of the table, which tell how many there are. An entry holds the region's
/// name, its place, its length, and a mark that is odd if it is required.
pub proof fn law_vhdx_regions(buf: Seq<u8>, i: int)
    ensures
        vhdx::parsed_regions(buf) matches Ok(rs) ==> rs.len() == util::le_at(buf, 8, 4) && (0 <= i
            < rs.len() ==> {
            let at = 16 + 32 * i;
            &&& rs[i].guid == buf.subrange(at, at + 16)
            &&& rs[i].file_offset == util::le_at(buf, at + 16, 8) as u64
            &&& rs[i].length == util::le_at(buf, at + 24, 4) as u32
            &&& rs[i].required <==> util::le_at(buf, at + 28, 4) as u32 % 2 == 1
        }),
{
    let x = util::le_at(buf, 16 + 32 * i + 28, 4) as u32;
    assert(x & 1 != 0 <==> x % 2 == 1) by (bit_vector);
}

} // verus!
