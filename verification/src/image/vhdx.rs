//! VHDX disk images without a parent, fixed and dynamic.
//!
//! Two headers and two region tables, each under a checksum, lead to the
//! metadata and to the block allocation table. Blocks that are not present
//! read as zeros. Differencing images, and images whose log would have to be
//! replayed, are refused.

use vstd::prelude::*;
use vstd::string::*;

use crate::error;
use crate::error::{CelError, CelResult, ErrorView};
use crate::image::disk;
use crate::image::disk::{extend, zero_bytes, DiskImage, ImageInfo, Piece, PieceView};
use crate::image::format::{is_vhdx, FormatKind};
use crate::image::util;
use crate::image::util::{
    ceil_div, crc32c, found_at, le64_entries, le_u16, le_u32, le_u64, part, read_whole,
    seek_failure, MAX_SEEK,
};
use crate::text::concat;

verus! {

/// Where the first header stands.
pub const HEADER1_OFF: u64 = 0x1_0000;

/// Where the second header stands.
pub const HEADER2_OFF: u64 = 0x2_0000;

/// Where the first region table stands.
pub const REGION_TABLE1_OFF: u64 = 0x3_0000;

/// Where the second region table stands.
pub const REGION_TABLE2_OFF: u64 = 0x4_0000;

/// Length of a header.
pub const HEADER_LEN: u64 = 4096;

/// Length of a region table.
pub const REGION_TABLE_LEN: u64 = 0x1_0000;

/// Block sizes are multiples of this.
pub const MEGABYTE: u32 = 0x10_0000;

/// Longest metadata item that is read.
pub const MAX_ITEM: u32 = 0x10_0000;

/// Signature of a header: `head`.
pub open spec fn header_sig() -> Seq<u8> {
    seq![0x68, 0x65, 0x61, 0x64]
}

/// Signature of a region table: `regi`.
pub open spec fn region_sig() -> Seq<u8> {
    seq![0x72, 0x65, 0x67, 0x69]
}

/// Signature of the metadata region: `metadata`.
pub open spec fn metadata_sig() -> Seq<u8> {
    seq![0x6d, 0x65, 0x74, 0x61, 0x64, 0x61, 0x74, 0x61]
}

/// Name of the region of the block allocation table:
/// `2DC27766-F623-4200-9D64-115E9BFD4A08`.
pub open spec fn region_bat() -> Seq<u8> {
    seq![
        0x66, 0x77, 0xC2, 0x2D, 0x23, 0xF6, 0x00, 0x42,
        0x9D, 0x64, 0x11, 0x5E, 0x9B, 0xFD, 0x4A, 0x08,
    ]
}

/// Name of the metadata region: `8B7CA206-4790-4B9A-B8FE-575F050F886E`.
pub open spec fn region_metadata() -> Seq<u8> {
    seq![
        0x06, 0xA2, 0x7C, 0x8B, 0x90, 0x47, 0x9A, 0x4B,
        0xB8, 0xFE, 0x57, 0x5F, 0x05, 0x0F, 0x88, 0x6E,
    ]
}

/// Name of the file parameters: `CAA16737-FA36-4D43-B3B6-33F0AA44E76B`.
pub open spec fn meta_file_parameters() -> Seq<u8> {
    seq![
        0x37, 0x67, 0xA1, 0xCA, 0x36, 0xFA, 0x43, 0x4D,
        0xB3, 0xB6, 0x33, 0xF0, 0xAA, 0x44, 0xE7, 0x6B,
    ]
}

/// Name of the size of the disk: `2FA54224-CD1B-4876-B211-5DBED83BF4B8`.
pub open spec fn meta_virtual_disk_size() -> Seq<u8> {
    seq![
        0x24, 0x42, 0xA5, 0x2F, 0x1B, 0xCD, 0x76, 0x48,
        0xB2, 0x11, 0x5D, 0xBE, 0xD8, 0x3B, 0xF4, 0xB8,
    ]
}

/// Name of the size of a sector: `8141BF1D-A96F-4709-BA47-F233A8FAAB5F`.
pub open spec fn meta_logical_sector_size() -> Seq<u8> {
    seq![
        0x1D, 0xBF, 0x41, 0x81, 0x6F, 0xA9, 0x09, 0x47,
        0xBA, 0x47, 0xF2, 0x33, 0xA8, 0xFA, 0xAB, 0x5F,
    ]
}

/// Whether two names are the same.
fn same_guid(a: &Vec<u8>, b: &[u8]) -> (r: bool)
    ensures
        r == (a@ == b@),
{
    let r = a.len() == b.len() && found_at(a.as_slice(), 0, b);
    assert(a@.subrange(0, a@.len() as int) =~= a@);
    r
}

/// A structure with the checksum that it carries, at its bytes 4 to 8, wiped.
pub open spec fn wiped(buf: Seq<u8>) -> Seq<u8> {
    buf.take(4) + disk::zeros(4) + buf.skip(8)
}

/// Whether a structure carries its own checksum.
pub open spec fn sealed(buf: Seq<u8>) -> bool {
    util::le_at(buf, 4, 4) == util::crc_of(wiped(buf))
}

/// See [`sealed`].
pub fn check_seal(buf: &[u8]) -> (r: bool)
    requires
        buf@.len() >= 8,
    ensures
        r == sealed(buf@),
{
    let n: usize = buf.len();
    let mut copy = part(buf, 0, 4);
    let zero = zero_bytes(4);
    extend(&mut copy, &zero);
    let tail = part(buf, 8, n);
    extend(&mut copy, &tail);
    assert(copy@ =~= wiped(buf@));
    match le_u32(buf, 4) {
        Ok(stored) => stored == crc32c(copy.as_slice()),
        Err(_) => false,
    }
}

/// What counts of a header.
#[derive(Debug, Clone, Copy, PartialEq, Eq, Structural)]
pub struct VhdxHeader {
    /// The header with the higher number is the current one.
    pub sequence_number: u64,
    /// Length of the log; 0 if there is nothing to replay.
    pub log_length: u32,
}

/// The header that a stretch of a file holds.
pub open spec fn parsed_header(buf: Seq<u8>) -> Result<VhdxHeader, CelError> {
    if !util::matches_at(buf, 0, header_sig()) {
        Err(CelError::Invalid("vhdx: header signature mismatch"))
    } else if !sealed(buf) {
        Err(CelError::Invalid("vhdx: header CRC mismatch"))
    } else {
        Ok(
            VhdxHeader {
                sequence_number: util::le_at(buf, 8, 8) as u64,
                log_length: util::le_at(buf, 68, 4) as u32,
            },
        )
    }
}

/// Decodes a header.
pub fn read_header(buf: &[u8]) -> (r: CelResult<VhdxHeader>)
    requires
        buf@.len() == HEADER_LEN,
    ensures
        r == parsed_header(buf@),
{
    let sig: [u8; 4] = [0x68, 0x65, 0x61, 0x64];
    assert(sig@ =~= header_sig());
    if !found_at(buf, 0, sig.as_slice()) {
        return Err(CelError::Invalid("vhdx: header signature mismatch"));
    }
    if !check_seal(buf) {
        return Err(CelError::Invalid("vhdx: header CRC mismatch"));
    }
    let sequence_number: u64 = le_u64(buf, 8)?;
    let log_length: u32 = le_u32(buf, 68)?;
    Ok(VhdxHeader { sequence_number, log_length })
}

/// The current one of two headers, either of which may be unusable.
pub open spec fn picked_header(a: Option<VhdxHeader>, b: Option<VhdxHeader>) -> Option<VhdxHeader> {
    match (a, b) {
        (Some(x), Some(y)) => if x.sequence_number >= y.sequence_number {
            Some(x)
        } else {
            Some(y)
        },
        (Some(x), None) => Some(x),
        (None, y) => y,
    }
}

/// Picks the current header and checks that its log is empty.
pub fn pick_header(a: Option<VhdxHeader>, b: Option<VhdxHeader>) -> (r: CelResult<VhdxHeader>)
    ensures
        r == match picked_header(a, b) {
            None => Err(CelError::Invalid("vhdx: no valid header (both CRCs bad)")),
            Some(h) => Ok(h),
        },
{
    match (a, b) {
        (Some(x), Some(y)) => if x.sequence_number >= y.sequence_number {
            Ok(x)
        } else {
            Ok(y)
        },
        (Some(x), None) => Ok(x),
        (None, Some(y)) => Ok(y),
        (None, None) => Err(CelError::Invalid("vhdx: no valid header (both CRCs bad)")),
    }
}

/// An entry of a region table.
#[derive(Debug)]
pub struct RegionEntry {
    /// Name of the region.
    pub guid: Vec<u8>,
    /// Where in the file the region stands.
    pub file_offset: u64,
    /// Length of the region.
    pub length: u32,
    /// Whether a reader must know the region.
    pub required: bool,
}

/// Mathematical value of a [`RegionEntry`].
#[verifier::ext_equal]
pub struct RegionView {
    /// See [`RegionEntry::guid`].
    pub guid: Seq<u8>,
    /// See [`RegionEntry::file_offset`].
    pub file_offset: u64,
    /// See [`RegionEntry::length`].
    pub length: u32,
    /// See [`RegionEntry::required`].
    pub required: bool,
}

impl View for RegionEntry {
    type V = RegionView;

    open spec fn view(&self) -> RegionView {
        RegionView {
            guid: self.guid@,
            file_offset: self.file_offset,
            length: self.length,
            required: self.required,
        }
    }
}

/// The values of a list of regions.
pub open spec fn region_views(rs: Seq<RegionEntry>) -> Seq<RegionView> {
    Seq::new(rs.len(), |i: int| rs[i]@)
}

/// The entry of a region table at `base`.
pub open spec fn region_at(buf: Seq<u8>, base: int) -> RegionView {
    RegionView {
        guid: buf.subrange(base, base + 16),
        file_offset: util::le_at(buf, base + 16, 8) as u64,
        length: util::le_at(buf, base + 24, 4) as u32,
        required: util::le_at(buf, base + 28, 4) as u32 & 1 != 0,
    }
}

/// The regions that a region table lists.
pub open spec fn parsed_regions(buf: Seq<u8>) -> Result<Seq<RegionView>, CelError> {
    let count = util::le_at(buf, 8, 4);
    if !util::matches_at(buf, 0, region_sig()) {
        Err(CelError::Invalid("vhdx: region signature mismatch"))
    } else if !sealed(buf) {
        Err(CelError::Invalid("vhdx: region CRC mismatch"))
    } else if count > 2047 {
        Err(CelError::Invalid("vhdx: region entry count > 2047"))
    } else {
        Ok(Seq::new(count, |i: int| region_at(buf, 16 + i * 32)))
    }
}

/// Decodes a region table.
pub fn read_region_table(buf: &[u8]) -> (r: CelResult<Vec<RegionEntry>>)
    requires
        buf@.len() == REGION_TABLE_LEN,
    ensures
        match parsed_regions(buf@) {
            Ok(rs) => r is Ok && region_views(r->Ok_0@) == rs,
            Err(e) => r == Err::<Vec<RegionEntry>, CelError>(e),
        },
{
    let n: usize = buf.len();
    let sig: [u8; 4] = [0x72, 0x65, 0x67, 0x69];
    assert(sig@ =~= region_sig());
    if !found_at(buf, 0, sig.as_slice()) {
        return Err(CelError::Invalid("vhdx: region signature mismatch"));
    }
    if !check_seal(buf) {
        return Err(CelError::Invalid("vhdx: region CRC mismatch"));
    }
    let count: u32 = le_u32(buf, 8)?;
    if count > 2047 {
        return Err(CelError::Invalid("vhdx: region entry count > 2047"));
    }
    let mut out: Vec<RegionEntry> = Vec::new();
    let mut i: u32 = 0;
    while i < count
        invariant
            i <= count <= 2047,
            n == buf@.len() == 0x1_0000,
            out@.len() == i,
            forall|k: int|
                0 <= k < i ==> (#[trigger] out@[k])@ == region_at(buf@, 16 + k * 32),
            parsed_regions(buf@) is Ok,
        decreases count - i,
    {
        let base: usize = 16 + i as usize * 32;
        let guid = part(buf, base, base + 16);
        let file_offset: u64 = le_u64(buf, base + 16)?;
        let length: u32 = le_u32(buf, base + 24)?;
        let flags: u32 = le_u32(buf, base + 28)?;
        out.push(RegionEntry { guid, file_offset, length, required: flags & 1 != 0 });
        i = i + 1;
    }
    assert(region_views(out@) =~= Seq::new(
        count as nat,
        |k: int| region_at(buf@, 16 + k * 32),
    ));
    Ok(out)
}

/// The first region, from position `i` on, that has a name.
pub open spec fn region_named(rs: Seq<RegionView>, guid: Seq<u8>, i: int) -> Option<RegionView>
    decreases rs.len() - i,
{
    if i < 0 || i >= rs.len() {
        None
    } else if rs[i].guid == guid {
        Some(rs[i])
    } else {
        region_named(rs, guid, i + 1)
    }
}

/// Finds the first region with a name: where it stands and how long it is.
pub fn find_region(rs: &Vec<RegionEntry>, guid: &[u8]) -> (r: Option<(u64, u32)>)
    ensures
        r == match region_named(region_views(rs@), guid@, 0) {
            Some(x) => Some((x.file_offset, x.length)),
            None => None,
        },
{
    let mut i: usize = 0;
    while i < rs.len()
        invariant
            i <= rs@.len(),
            region_named(region_views(rs@), guid@, 0) == region_named(
                region_views(rs@),
                guid@,
                i as int,
            ),
        decreases rs@.len() - i,
    {
        if same_guid(&rs[i].guid, guid) {
            return Some((rs[i].file_offset, rs[i].length));
        }
        i = i + 1;
    }
    None
}

/// The metadata items that have been found so far.
#[derive(Debug, Clone, Copy)]
pub struct MetaItems {
    /// Block size and flags.
    pub parameters: Option<(u32, u32)>,
    /// Size of the disk.
    pub virtual_size: Option<u64>,
    /// Size of a sector.
    pub logical_sector_size: Option<u32>,
}

/// What a file says of itself.
#[derive(Debug, Clone, Copy, PartialEq, Eq, Structural)]
pub struct Metadata {
    /// Size of a block in bytes.
    pub block_size: u32,
    /// Whether every block is allocated from the start.
    pub leave_blocks_allocated: bool,
    /// Whether the image only holds differences from another one.
    pub has_parent: bool,
    /// Size of the disk in bytes.
    pub virtual_size: u64,
    /// Size of a sector in bytes.
    pub logical_sector_size: u32,
}

/// A place in the metadata region.
#[derive(Debug)]
pub struct MetaEntry {
    /// Name of the item.
    pub guid: Vec<u8>,
    /// Where the item stands, from the start of the region.
    pub offset: u32,
    /// Length of the item.
    pub len: u32,
}

/// No item found.
pub open spec fn no_items() -> MetaItems {
    MetaItems { parameters: None, virtual_size: None, logical_sector_size: None }
}

/// How many entries the metadata table has, from its first 32 bytes.
pub open spec fn meta_count(hdr: Seq<u8>) -> Result<nat, CelError> {
    let count = util::le_at(hdr, 10, 2);
    if !util::matches_at(hdr, 0, metadata_sig()) {
        Err(CelError::Invalid("vhdx: metadata signature mismatch"))
    } else if count == 0 || count > 2047 {
        Err(CelError::Invalid("vhdx: metadata entry count out of range"))
    } else {
        Ok(count)
    }
}

/// Decodes the start of the metadata region.
pub fn read_metadata_count(hdr: &[u8]) -> (r: CelResult<u16>)
    requires
        hdr@.len() == 32,
    ensures
        match meta_count(hdr@) {
            Ok(n) => r is Ok && r->Ok_0 == n,
            Err(e) => r == Err::<u16, CelError>(e),
        },
{
    let sig: [u8; 8] = [0x6d, 0x65, 0x74, 0x61, 0x64, 0x61, 0x74, 0x61];
    assert(sig@ =~= metadata_sig());
    if !found_at(hdr, 0, sig.as_slice()) {
        return Err(CelError::Invalid("vhdx: metadata signature mismatch"));
    }
    let count: u16 = le_u16(hdr, 10)?;
    if count == 0 || count > 2047 {
        return Err(CelError::Invalid("vhdx: metadata entry count out of range"));
    }
    Ok(count)
}

/// Whether a metadata item has a length that is read.
pub open spec fn item_len_ok(len: nat) -> bool {
    0 < len <= MAX_ITEM
}

/// Decodes an entry of the metadata table.
pub fn read_metadata_entry(entry: &[u8]) -> (r: CelResult<MetaEntry>)
    requires
        entry@.len() == 32,
    ensures
        match r {
            Ok(m) => m.guid@ == entry@.take(16) && m.offset == util::le_at(entry@, 16, 4) && m.len
                == util::le_at(entry@, 20, 4) && item_len_ok(m.len as nat),
            Err(e) => !item_len_ok(util::le_at(entry@, 20, 4)) && e == CelError::Invalid(
                "vhdx: metadata item length out of range",
            ),
        },
{
    let n: usize = entry.len();
    let guid = part(entry, 0, 16);
    assert(guid@ =~= entry@.take(16));
    let offset: u32 = le_u32(entry, 16)?;
    let len: u32 = le_u32(entry, 20)?;
    if len == 0 || len > MAX_ITEM {
        return Err(CelError::Invalid("vhdx: metadata item length out of range"));
    }
    Ok(MetaEntry { guid, offset, len })
}

/// The items once one more was read. Items with an unknown name are passed
/// over; of items with the same name the last one counts.
pub open spec fn absorbed(m: MetaItems, guid: Seq<u8>, item: Seq<u8>) -> Result<
    MetaItems,
    CelError,
> {
    if guid == meta_file_parameters() {
        if item.len() < 8 {
            Err(CelError::Invalid("vhdx: file_parameters short"))
        } else {
            Ok(
                MetaItems {
                    parameters: Some(
                        (util::le_at(item, 0, 4) as u32, util::le_at(item, 4, 4) as u32),
                    ),
                    ..m
                },
            )
        }
    } else if guid == meta_virtual_disk_size() {
        if item.len() < 8 {
            Err(CelError::Invalid("vhdx: virtual_disk_size short"))
        } else {
            Ok(MetaItems { virtual_size: Some(util::le_at(item, 0, 8) as u64), ..m })
        }
    } else if guid == meta_logical_sector_size() {
        if item.len() < 4 {
            Err(CelError::Invalid("vhdx: logical_sector_size short"))
        } else {
            Ok(MetaItems { logical_sector_size: Some(util::le_at(item, 0, 4) as u32), ..m })
        }
    } else {
        Ok(m)
    }
}

impl MetaItems {
    /// No item found.
    pub fn new() -> (r: MetaItems)
        ensures
            r == no_items(),
    {
        MetaItems { parameters: None, virtual_size: None, logical_sector_size: None }
    }

    /// Takes one more item in.
    pub fn absorb(self, guid: &Vec<u8>, item: &[u8]) -> (r: CelResult<MetaItems>)
        ensures
            r == absorbed(self, guid@, item@),
    {
        let params: [u8; 16] = [
            0x37, 0x67, 0xA1, 0xCA, 0x36, 0xFA, 0x43, 0x4D,
            0xB3, 0xB6, 0x33, 0xF0, 0xAA, 0x44, 0xE7, 0x6B,
        ];
        let size: [u8; 16] = [
            0x24, 0x42, 0xA5, 0x2F, 0x1B, 0xCD, 0x76, 0x48,
            0xB2, 0x11, 0x5D, 0xBE, 0xD8, 0x3B, 0xF4, 0xB8,
        ];
        let sector: [u8; 16] = [
            0x1D, 0xBF, 0x41, 0x81, 0x6F, 0xA9, 0x09, 0x47,
            0xBA, 0x47, 0xF2, 0x33, 0xA8, 0xFA, 0xAB, 0x5F,
        ];
        assert(params@ =~= meta_file_parameters());
        assert(size@ =~= meta_virtual_disk_size());
        assert(sector@ =~= meta_logical_sector_size());
        if same_guid(guid, params.as_slice()) {
            if item.len() < 8 {
                return Err(CelError::Invalid("vhdx: file_parameters short"));
            }
            let block_size: u32 = le_u32(item, 0)?;
            let flags: u32 = le_u32(item, 4)?;
            Ok(
                MetaItems {
                    parameters: Some((block_size, flags)),
                    virtual_size: self.virtual_size,
                    logical_sector_size: self.logical_sector_size,
                },
            )
        } else if same_guid(guid, size.as_slice()) {
            if item.len() < 8 {
                return Err(CelError::Invalid("vhdx: virtual_disk_size short"));
            }
            let v: u64 = le_u64(item, 0)?;
            Ok(
                MetaItems {
                    parameters: self.parameters,
                    virtual_size: Some(v),
                    logical_sector_size: self.logical_sector_size,
                },
            )
        } else if same_guid(guid, sector.as_slice()) {
            if item.len() < 4 {
                return Err(CelError::Invalid("vhdx: logical_sector_size short"));
            }
            let v: u32 = le_u32(item, 0)?;
            Ok(
                MetaItems {
                    parameters: self.parameters,
                    virtual_size: self.virtual_size,
                    logical_sector_size: Some(v),
                },
            )
        } else {
            Ok(self)
        }
    }

    /// The metadata, once every item was read.
    pub fn finish(self) -> (r: CelResult<Metadata>)
        ensures
            r == complete(self),
    {
        let (block_size, flags) = match self.parameters {
            Some(p) => p,
            None => {
                return Err(CelError::Invalid("vhdx: FileParameters missing"));
            },
        };
        let virtual_size: u64 = match self.virtual_size {
            Some(v) => v,
            None => {
                return Err(CelError::Invalid("vhdx: VirtualDiskSize missing"));
            },
        };
        let logical_sector_size: u32 = match self.logical_sector_size {
            Some(v) => v,
            None => {
                return Err(CelError::Invalid("vhdx: LogicalSectorSize missing"));
            },
        };
        Ok(
            Metadata {
                block_size,
                leave_blocks_allocated: flags & 1 != 0,
                has_parent: flags & 2 != 0,
                virtual_size,
                logical_sector_size,
            },
        )
    }
}

/// The metadata that the items make up.
pub open spec fn complete(m: MetaItems) -> Result<Metadata, CelError> {
    match m.parameters {
        None => Err(CelError::Invalid("vhdx: FileParameters missing")),
        Some(p) => match m.virtual_size {
            None => Err(CelError::Invalid("vhdx: VirtualDiskSize missing")),
            Some(v) => match m.logical_sector_size {
                None => Err(CelError::Invalid("vhdx: LogicalSectorSize missing")),
                Some(s) => Ok(
                    Metadata {
                        block_size: p.0,
                        leave_blocks_allocated: p.1 & 1 != 0,
                        has_parent: p.1 & 2 != 0,
                        virtual_size: v,
                        logical_sector_size: s,
                    },
                ),
            },
        },
    }
}

/// Why an image with this metadata is refused, if it is.
pub open spec fn refusal(m: Metadata) -> Option<CelError> {
    if m.has_parent {
        Some(CelError::Invalid("vhdx: differencing images (HasParent) not supported"))
    } else if m.block_size == 0 || m.block_size % MEGABYTE != 0 {
        Some(CelError::Invalid("vhdx: block_size must be a multiple of 1 MB"))
    } else if m.logical_sector_size != 512 && m.logical_sector_size != 4096 {
        Some(CelError::Invalid("vhdx: logical_sector_size must be 512 or 4096"))
    } else {
        None
    }
}

/// How many payload entries of the block allocation table stand between two
/// sector bitmap entries.
pub open spec fn ratio_of(m: Metadata) -> nat {
    0x80_0000 * m.logical_sector_size as nat / m.block_size as nat
}

/// How many payload blocks a disk has.
pub open spec fn blocks_of(m: Metadata) -> nat {
    util::ceil(m.virtual_size as nat, m.block_size as nat)
}

/// How many entries the block allocation table has.
pub open spec fn bat_len(m: Metadata) -> nat {
    blocks_of(m) + util::ceil(blocks_of(m), ratio_of(m))
}

/// Checks that an image with this metadata, and a block allocation table of
/// `bat_bytes` bytes, can be read. Gives the distance between sector bitmap
/// entries and the number of bytes of the table that count.
pub fn validate_metadata(m: &Metadata, bat_bytes: u32) -> (r: CelResult<(u64, u64)>)
    ensures
        match r {
            Ok(x) => refusal(*m) is None && x.0 == ratio_of(*m) && x.0 > 0 && x.1 == bat_len(*m) * 8
                && x.1 <= bat_bytes,
            Err(e) => match refusal(*m) {
                Some(f) => e == f,
                None => bat_len(*m) * 8 > bat_bytes && e == CelError::Invalid(
                    "vhdx: BAT region too small for declared virtual size",
                ),
            },
        },
{
    if m.has_parent {
        return Err(CelError::Invalid("vhdx: differencing images (HasParent) not supported"));
    }
    if m.block_size == 0 || m.block_size % MEGABYTE != 0 {
        return Err(CelError::Invalid("vhdx: block_size must be a multiple of 1 MB"));
    }
    if m.logical_sector_size != 512 && m.logical_sector_size != 4096 {
        return Err(CelError::Invalid("vhdx: logical_sector_size must be 512 or 4096"));
    }
    let bs: u64 = m.block_size as u64;
    let top: u64 = 0x80_0000 * m.logical_sector_size as u64;
    let ratio: u64 = top / bs;
    proof {
        assert(bs >= 0x10_0000);
        vstd::arithmetic::div_mod::lemma_div_non_zero(top as int, bs as int);
        vstd::arithmetic::div_mod::lemma_div_is_ordered_by_denominator(
            m.virtual_size as int,
            0x10_0000,
            bs as int,
        );
    }
    let blocks: u64 = ceil_div(m.virtual_size, bs);
    proof {
        vstd::arithmetic::div_mod::lemma_div_is_ordered_by_denominator(
            blocks as int,
            1,
            ratio as int,
        );
    }
    let maps: u64 = ceil_div(blocks, ratio);
    let bytes: u64 = (blocks + maps) * 8;
    if bytes > bat_bytes as u64 {
        return Err(CelError::Invalid("vhdx: BAT region too small for declared virtual size"));
    }
    Ok((ratio, bytes))
}

/// How the disk maps to the file: sizes and the block allocation table.
#[derive(Debug)]
pub struct VhdxMap {
    /// Size of the disk in bytes.
    pub virtual_size: u64,
    /// Size of a block in bytes.
    pub block_size: u32,
    /// Size of a sector in bytes.
    pub logical_sector_size: u32,
    /// Block allocation table, with a sector bitmap entry after every
    /// `chunk_ratio` payload entries.
    pub bat: Vec<u64>,
    /// See [`VhdxMap::bat`].
    pub chunk_ratio: u64,
    /// Whether every block was allocated from the start.
    pub is_fixed: bool,
}

/// Mathematical value of a [`VhdxImage`].
#[verifier::ext_equal]
pub struct VhdxView {
    /// Where the image was opened.
    pub path: Seq<char>,
    /// Bytes of the file.
    pub file: Seq<u8>,
    /// Size of the disk in bytes.
    pub virtual_size: u64,
    /// Size of a block in bytes.
    pub block_size: u32,
    /// Size of a sector in bytes.
    pub logical_sector_size: u32,
    /// Block allocation table.
    pub bat: Seq<u64>,
    /// Distance between sector bitmap entries.
    pub chunk_ratio: u64,
    /// Whether every block was allocated from the start.
    pub is_fixed: bool,
}

impl VhdxView {
    /// Blocks have a size, and the file one that can be told.
    pub open spec fn wf(self) -> bool {
        self.block_size > 0 && self.chunk_ratio > 0 && self.file.len() <= u64::MAX
    }
}

/// The failure of a read of payload that the file does not reach.
pub open spec fn short_of(what: Seq<char>) -> ErrorView {
    ErrorView::Storage(what + ": failed to fill whole buffer"@)
}

/// The failure of a read of structures that the file does not reach.
pub open spec fn io_short_of(what: Seq<char>) -> ErrorView {
    ErrorView::Io(what + ": failed to fill whole buffer"@)
}

/// See [`short_of`].
fn short(what: &str) -> (r: CelError)
    ensures
        r@ == short_of(what@),
{
    CelError::Storage(concat(what, ": failed to fill whole buffer"))
}

/// See [`io_short_of`].
fn io_short(what: &str) -> (r: CelError)
    ensures
        r@ == io_short_of(what@),
{
    CelError::Io(concat(what, ": failed to fill whole buffer"))
}

/// The place of the entry for a block in the block allocation table.
pub open spec fn bat_index(block: nat, ratio: nat) -> nat {
    block + block / ratio
}

/// Where a run of up to `want` bytes at `cur` comes from. It goes no further
/// than the end of its block.
pub open spec fn located(
    bat: Seq<u64>,
    block_size: nat,
    ratio: nat,
    cur: nat,
    want: nat,
) -> Result<PieceView, ErrorView> {
    let room = (block_size - cur % block_size) as nat;
    let len = if want < room {
        want
    } else {
        room
    };
    let i = bat_index(cur / block_size, ratio);
    if i >= bat.len() {
        Err(ErrorView::Invalid("vhdx: BAT index out of range"@))
    } else {
        let entry = bat[i as int];
        let state = entry & 0x7;
        let at = (entry & 0xFFFF_FFFF_FFF0_0000) as nat + cur % block_size;
        if state <= 3 {
            Ok(PieceView::Zeros { len })
        } else if state == 6 {
            if at > u64::MAX {
                Err(util::unseekable("seek vhdx block"@))
            } else {
                Ok(PieceView::Data { at, len })
            }
        } else if state == 7 {
            Err(
                ErrorView::Invalid(
                    "vhdx: partially-present block (differencing) not supported"@,
                ),
            )
        } else {
            Err(ErrorView::Invalid("vhdx: unknown BAT state"@))
        }
    }
}

impl VhdxMap {
    /// Blocks have a size.
    pub open spec fn wf(&self) -> bool {
        self.block_size > 0 && self.chunk_ratio > 0
    }

    /// Decodes the block allocation table, which `raw` holds.
    pub fn new(m: &Metadata, ratio: u64, raw: &[u8]) -> (r: VhdxMap)
        requires
            refusal(*m) is None,
            ratio > 0,
        ensures
            r.wf(),
            r.virtual_size == m.virtual_size,
            r.block_size == m.block_size,
            r.logical_sector_size == m.logical_sector_size,
            r.bat@ == util::le64_table(raw@),
            r.chunk_ratio == ratio,
            r.is_fixed == m.leave_blocks_allocated,
    {
        VhdxMap {
            virtual_size: m.virtual_size,
            block_size: m.block_size,
            logical_sector_size: m.logical_sector_size,
            bat: le64_entries(raw),
            chunk_ratio: ratio,
            is_fixed: m.leave_blocks_allocated,
        }
    }

    /// Where a run of up to `want` bytes at `cur` comes from.
    pub fn locate(&self, cur: u64, want: usize) -> (r: CelResult<Piece>)
        requires
            self.wf(),
        ensures
            error::result_view(r) == located(
                self.bat@,
                self.block_size as nat,
                self.chunk_ratio as nat,
                cur as nat,
                want as nat,
            ),
    {
        let unit: u64 = self.block_size as u64;
        let intra: u64 = cur % unit;
        let room: u64 = unit - intra;
        let len: usize = if (want as u64) < room {
            want
        } else {
            room as usize
        };
        let block: u64 = cur / unit;
        let maps: u64 = block / self.chunk_ratio;
        let n: usize = self.bat.len();
        if block >= n as u64 || maps >= n as u64 - block {
            return Err(CelError::Invalid("vhdx: BAT index out of range"));
        }
        let entry: u64 = self.bat[(block + maps) as usize];
        let state: u64 = entry & 0x7;
        if state <= 3 {
            return Ok(Piece::Zeros { len });
        }
        if state == 6 {
            let start: u64 = entry & 0xFFFF_FFFF_FFF0_0000;
            return match start.checked_add(intra) {
                Some(at) => Ok(Piece::Data { at, len }),
                None => Err(seek_failure("seek vhdx block")),
            };
        }
        if state == 7 {
            return Err(
                CelError::Invalid("vhdx: partially-present block (differencing) not supported"),
            );
        }
        Err(CelError::Invalid("vhdx: unknown BAT state"))
    }
}

/// A VHDX image.
#[derive(Debug)]
pub struct VhdxImage {
    path: String,
    file: Vec<u8>,
    map: VhdxMap,
}

impl View for VhdxImage {
    type V = VhdxView;

    closed spec fn view(&self) -> VhdxView {
        VhdxView {
            path: self.path@,
            file: self.file@,
            virtual_size: self.map.virtual_size,
            block_size: self.map.block_size,
            logical_sector_size: self.map.logical_sector_size,
            bat: self.map.bat@,
            chunk_ratio: self.map.chunk_ratio,
            is_fixed: self.map.is_fixed,
        }
    }
}

/// The header at an offset of a file, if there is a usable one.
pub open spec fn header_at(file: Seq<u8>, off: nat) -> Option<VhdxHeader> {
    match util::fetched(file, off, HEADER_LEN as nat) {
        None => None,
        Some(b) => match parsed_header(b) {
            Ok(h) => Some(h),
            Err(_) => None,
        },
    }
}

/// The region table at an offset of a file.
pub open spec fn regions_at(file: Seq<u8>, off: nat) -> Result<Seq<RegionView>, ErrorView> {
    match util::fetched(file, off, REGION_TABLE_LEN as nat) {
        None => Err(io_short_of("read region"@)),
        Some(b) => match parsed_regions(b) {
            Ok(rs) => Ok(rs),
            Err(e) => Err(e@),
        },
    }
}

/// The region table of a file: the first one if it is usable, else the second.
pub open spec fn picked_regions(file: Seq<u8>) -> Result<Seq<RegionView>, ErrorView> {
    match regions_at(file, REGION_TABLE1_OFF as nat) {
        Ok(rs) => Ok(rs),
        Err(_) => regions_at(file, REGION_TABLE2_OFF as nat),
    }
}

/// The items of the metadata region at `off` from entry `i` on, on top of
/// those that came before.
pub open spec fn items_from(file: Seq<u8>, off: nat, i: nat, n: nat, m: MetaItems) -> Result<
    MetaItems,
    ErrorView,
>
    decreases n - i,
{
    if i >= n {
        Ok(m)
    } else {
        match util::fetched(file, off + 32 + i * 32, 32) {
            None => Err(io_short_of("read meta entry"@)),
            Some(entry) => {
                let at = util::le_at(entry, 16, 4);
                let len = util::le_at(entry, 20, 4);
                if !item_len_ok(len) {
                    Err(ErrorView::Invalid("vhdx: metadata item length out of range"@))
                } else {
                    match util::fetched(file, off + at, len) {
                        None => Err(io_short_of("read meta item"@)),
                        Some(item) => match absorbed(m, entry.take(16), item) {
                            Err(e) => Err(e@),
                            Ok(x) => items_from(file, off, i + 1, n, x),
                        },
                    }
                }
            },
        }
    }
}

/// The metadata of a file whose metadata region stands at `off`.
pub open spec fn metadata_at(file: Seq<u8>, off: nat) -> Result<Metadata, ErrorView> {
    if off > MAX_SEEK {
        Err(util::unseekable("seek metadata"@))
    } else {
        match util::fetched(file, off, 32) {
            None => Err(io_short_of("read metadata header"@)),
            Some(hdr) => match meta_count(hdr) {
                Err(e) => Err(e@),
                Ok(n) => match items_from(file, off, 0, n, no_items()) {
                    Err(e) => Err(e),
                    Ok(m) => match complete(m) {
                        Err(e) => Err(e@),
                        Ok(x) => Ok(x),
                    },
                },
            },
        }
    }
}

/// The image of a file, once its regions are known.
pub open spec fn mapped(
    path: Seq<char>,
    file: Seq<u8>,
    bat: RegionView,
    m: Metadata,
) -> Result<VhdxView, ErrorView> {
    match refusal(m) {
        Some(e) => Err(e@),
        None => if bat_len(m) * 8 > bat.length {
            Err(ErrorView::Invalid("vhdx: BAT region too small for declared virtual size"@))
        } else if bat.file_offset > MAX_SEEK {
            Err(util::unseekable("seek bat"@))
        } else {
            match util::fetched(file, bat.file_offset as nat, bat_len(m) * 8) {
                None => Err(short_of("read bat"@)),
                Some(raw) => Ok(
                    VhdxView {
                        path,
                        file,
                        virtual_size: m.virtual_size,
                        block_size: m.block_size,
                        logical_sector_size: m.logical_sector_size,
                        bat: util::le64_table(raw),
                        chunk_ratio: ratio_of(m) as u64,
                        is_fixed: m.leave_blocks_allocated,
                    },
                ),
            }
        },
    }
}

/// The image that a file with these regions holds.
pub open spec fn from_regions(path: Seq<char>, file: Seq<u8>, rs: Seq<RegionView>) -> Result<
    VhdxView,
    ErrorView,
> {
    match region_named(rs, region_bat(), 0) {
        None => Err(ErrorView::Invalid("vhdx: BAT region missing"@)),
        Some(bat) => match region_named(rs, region_metadata(), 0) {
            None => Err(ErrorView::Invalid("vhdx: metadata region missing"@)),
            Some(meta) => match metadata_at(file, meta.file_offset as nat) {
                Err(e) => Err(e),
                Ok(m) => mapped(path, file, bat, m),
            },
        },
    }
}

/// The image that a file holds.
pub open spec fn opened(path: Seq<char>, file: Seq<u8>) -> Result<VhdxView, ErrorView> {
    match util::fetched(file, 0, 8) {
        None => Err(io_short_of("read fileid"@)),
        Some(sig) => if sig != crate::image::format::vhdx_magic() {
            Err(ErrorView::Invalid("vhdx: bad file identifier"@))
        } else {
            match picked_header(
                header_at(file, HEADER1_OFF as nat),
                header_at(file, HEADER2_OFF as nat),
            ) {
                None => Err(ErrorView::Invalid("vhdx: no valid header (both CRCs bad)"@)),
                Some(h) => if h.log_length != 0 {
                    Err(
                        ErrorView::Invalid(
                            "vhdx: non-empty log not supported (replay journal first)"@,
                        ),
                    )
                } else {
                    match picked_regions(file) {
                        Err(e) => Err(e),
                        Ok(rs) => from_regions(path, file, rs),
                    }
                },
            }
        },
    }
}

/// See [`header_at`].
fn load_header(file: &[u8], off: u64) -> (r: Option<VhdxHeader>)
    ensures
        r == header_at(file@, off as nat),
{
    match read_whole(file, off, HEADER_LEN) {
        None => None,
        Some(b) => match read_header(b.as_slice()) {
            Ok(h) => Some(h),
            Err(_) => None,
        },
    }
}

/// See [`regions_at`].
fn load_regions(file: &[u8], off: u64) -> (r: CelResult<Vec<RegionEntry>>)
    ensures
        match r {
            Ok(rs) => regions_at(file@, off as nat) == Ok::<Seq<RegionView>, ErrorView>(
                region_views(rs@),
            ),
            Err(e) => regions_at(file@, off as nat) == Err::<Seq<RegionView>, ErrorView>(e@),
        },
{
    match read_whole(file, off, REGION_TABLE_LEN) {
        None => Err(io_short("read region")),
        Some(b) => read_region_table(b.as_slice()),
    }
}

/// See [`picked_regions`].
fn pick_region_table(file: &[u8]) -> (r: CelResult<Vec<RegionEntry>>)
    ensures
        match r {
            Ok(rs) => picked_regions(file@) == Ok::<Seq<RegionView>, ErrorView>(
                region_views(rs@),
            ),
            Err(e) => picked_regions(file@) == Err::<Seq<RegionView>, ErrorView>(e@),
        },
{
    match load_regions(file, REGION_TABLE1_OFF) {
        Ok(rs) => Ok(rs),
        Err(_) => load_regions(file, REGION_TABLE2_OFF),
    }
}

/// See [`metadata_at`].
fn read_metadata_region(file: &[u8], off: u64) -> (r: CelResult<Metadata>)
    ensures
        match r {
            Ok(m) => metadata_at(file@, off as nat) == Ok::<Metadata, ErrorView>(m),
            Err(e) => metadata_at(file@, off as nat) == Err::<Metadata, ErrorView>(e@),
        },
{
    let size: usize = file.len();
    if off > MAX_SEEK {
        return Err(seek_failure("seek metadata"));
    }
    let hdr = match read_whole(file, off, 32) {
        Some(h) => h,
        None => {
            return Err(io_short("read metadata header"));
        },
    };
    let n: u16 = match read_metadata_count(hdr.as_slice()) {
        Ok(n) => n,
        Err(e) => {
            return Err(e);
        },
    };
    let mut items = MetaItems::new();
    let mut i: u16 = 0;
    let mut at: u64 = off;
    while i < n
        invariant
            i <= n,
            size == file@.len(),
            off + 32 <= size,
            at == off + i * 32,
            at + 32 <= size,
            off <= MAX_SEEK,
            util::fetched(file@, off as nat, 32) == Some(hdr@),
            meta_count(hdr@) == Ok::<nat, CelError>(n as nat),
            items_from(file@, off as nat, 0, n as nat, no_items()) == items_from(
                file@,
                off as nat,
                i as nat,
                n as nat,
                items,
            ),
        decreases n - i,
    {
        if at > u64::MAX - 64 {
            return Err(io_short("read meta entry"));
        }
        let entry = match read_whole(file, at + 32, 32) {
            Some(b) => b,
            None => {
                return Err(io_short("read meta entry"));
            },
        };
        let place = match read_metadata_entry(entry.as_slice()) {
            Ok(m) => m,
            Err(e) => {
                return Err(e);
            },
        };
        let start: u64 = match off.checked_add(place.offset as u64) {
            Some(s) => s,
            None => {
                return Err(io_short("read meta item"));
            },
        };
        let item = match read_whole(file, start, place.len as u64) {
            Some(b) => b,
            None => {
                return Err(io_short("read meta item"));
            },
        };
        items = match items.absorb(&place.guid, item.as_slice()) {
            Ok(m) => m,
            Err(e) => {
                return Err(e);
            },
        };
        i = i + 1;
        at = at + 32;
    }
    items.finish()
}

impl VhdxImage {
    /// Opens the file `file`, found at `path`.
    pub fn open(path: &str, file: Vec<u8>) -> (r: CelResult<VhdxImage>)
        ensures
            error::result_view(r) == opened(path@, file@),
            r matches Ok(i) ==> i.wf(),
    {
        let sig = match read_whole(file.as_slice(), 0, 8) {
            Some(s) => s,
            None => {
                return Err(io_short("read fileid"));
            },
        };
        assert(sig@.subrange(0, 8) =~= sig@);
        if !is_vhdx(sig.as_slice()) {
            return Err(CelError::Invalid("vhdx: bad file identifier"));
        }
        let h1 = load_header(file.as_slice(), HEADER1_OFF);
        let h2 = load_header(file.as_slice(), HEADER2_OFF);
        let h = match pick_header(h1, h2) {
            Ok(h) => h,
            Err(e) => {
                return Err(e);
            },
        };
        if h.log_length != 0 {
            return Err(
                CelError::Invalid("vhdx: non-empty log not supported (replay journal first)"),
            );
        }
        let regions = match pick_region_table(file.as_slice()) {
            Ok(rs) => rs,
            Err(e) => {
                return Err(e);
            },
        };
        let bat_guid: [u8; 16] = [
            0x66, 0x77, 0xC2, 0x2D, 0x23, 0xF6, 0x00, 0x42,
            0x9D, 0x64, 0x11, 0x5E, 0x9B, 0xFD, 0x4A, 0x08,
        ];
        let meta_guid: [u8; 16] = [
            0x06, 0xA2, 0x7C, 0x8B, 0x90, 0x47, 0x9A, 0x4B,
            0xB8, 0xFE, 0x57, 0x5F, 0x05, 0x0F, 0x88, 0x6E,
        ];
        assert(bat_guid@ =~= region_bat());
        assert(meta_guid@ =~= region_metadata());
        let (bat_off, bat_bytes) = match find_region(&regions, bat_guid.as_slice()) {
            Some(x) => x,
            None => {
                return Err(CelError::Invalid("vhdx: BAT region missing"));
            },
        };
        let (meta_off, _) = match find_region(&regions, meta_guid.as_slice()) {
            Some(x) => x,
            None => {
                return Err(CelError::Invalid("vhdx: metadata region missing"));
            },
        };
        let m = match read_metadata_region(file.as_slice(), meta_off) {
            Ok(m) => m,
            Err(e) => {
                return Err(e);
            },
        };
        let (ratio, bytes) = match validate_metadata(&m, bat_bytes) {
            Ok(x) => x,
            Err(e) => {
                return Err(e);
            },
        };
        if bat_off > MAX_SEEK {
            return Err(seek_failure("seek bat"));
        }
        match read_whole(file.as_slice(), bat_off, bytes) {
            None => Err(short("read bat")),
            Some(raw) => {
                let size: usize = file.len();
                assert(size <= u64::MAX);
                let map = VhdxMap::new(&m, ratio, raw.as_slice());
                Ok(VhdxImage { path: path.to_owned(), file, map })
            },
        }
    }

    /// Where the image was opened.
    pub fn path(&self) -> (r: &str)
        ensures
            r@ == self@.path,
    {
        self.path.as_str()
    }

    /// Whether every block was allocated from the start.
    pub fn is_fixed(&self) -> (r: bool)
        ensures
            r == self@.is_fixed,
    {
        self.map.is_fixed
    }

    /// Size of a sector in bytes.
    pub fn logical_sector_size(&self) -> (r: u32)
        ensures
            r == self@.logical_sector_size,
    {
        self.map.logical_sector_size
    }

    /// See [`run`].
    fn one_run(&self, cur: u64, want: usize) -> (r: CelResult<Vec<u8>>)
        requires
            self.wf(),
        ensures
            error::result_view(r) == run(self@, cur as nat, want as nat),
    {
        match self.map.locate(cur, want) {
            Err(e) => Err(e),
            Ok(Piece::Zeros { len }) => Ok(zero_bytes(len)),
            Ok(Piece::Data { at, len }) => {
                match read_whole(self.file.as_slice(), at, len as u64) {
                    Some(s) => Ok(s),
                    None => if at > MAX_SEEK {
                        Err(seek_failure("seek vhdx block"))
                    } else {
                        Err(short("read vhdx block"))
                    },
                }
            },
        }
    }
}

/// One run of bytes: `want` of them, but no further than the end of the block.
pub open spec fn run(v: VhdxView, cur: nat, want: nat) -> Result<Seq<u8>, ErrorView> {
    match located(v.bat, v.block_size as nat, v.chunk_ratio as nat, cur, want) {
        Err(e) => Err(e),
        Ok(PieceView::Zeros { len }) => Ok(disk::zeros(len)),
        Ok(PieceView::Data { at, len }) => match util::fetched(v.file, at, len) {
            Some(s) => Ok(s),
            None => if at > MAX_SEEK {
                Err(util::unseekable("seek vhdx block"@))
            } else {
                Err(short_of("read vhdx block"@))
            },
        },
    }
}

/// See [`run`].
pub open spec fn runs(v: VhdxView) -> spec_fn(nat, nat) -> Result<Seq<u8>, ErrorView> {
    |cur: nat, want: nat| run(v, cur, want)
}

/// The length of the run that starts at `cur`.
pub open spec fn block_run(v: VhdxView, cur: nat, want: nat) -> nat {
    let room = (v.block_size as nat - cur % v.block_size as nat) as nat;
    if want < room {
        want
    } else {
        room
    }
}

/// What a read of an image gives: everything that was asked for, up to the end
/// of the disk, or the first failure.
pub open spec fn reading(v: VhdxView, offset: nat, len: nat) -> Result<Seq<u8>, ErrorView> {
    if len == 0 || offset >= v.virtual_size {
        Ok(Seq::empty())
    } else if len < v.virtual_size - offset {
        disk::joined(runs(v), offset, len)
    } else {
        disk::joined(runs(v), offset, (v.virtual_size - offset) as nat)
    }
}

/// What a read that fails has read by then: every run before the one that
/// failed.
pub open spec fn reading_until(v: VhdxView, offset: nat, len: nat) -> Seq<u8> {
    if len == 0 || offset >= v.virtual_size {
        Seq::empty()
    } else if len < v.virtual_size - offset {
        disk::joined_until(runs(v), offset, len)
    } else {
        disk::joined_until(runs(v), offset, (v.virtual_size - offset) as nat)
    }
}

/// A run is neither empty nor longer than asked for.
proof fn lemma_run_len(v: VhdxView, cur: nat, want: nat)
    requires
        v.wf(),
        want > 0,
    ensures
        run(v, cur, want) matches Ok(s) ==> s.len() == block_run(v, cur, want),
        0 < block_run(v, cur, want) <= want,
{
    assert(cur % (v.block_size as nat) < v.block_size);
}

/// Bytes of one run come from the same place.
proof fn lemma_same_run(v: VhdxView, cur: nat, want: nat, k: nat)
    requires
        v.wf(),
        want > 0,
        k < block_run(v, cur, want),
    ensures
        run(v, cur, want) is Ok ==> run(v, cur + k, 1) == Ok::<Seq<u8>, ErrorView>(
            seq![run(v, cur, want)->Ok_0[k as int]],
        ),
        run(v, cur, want) is Err && k + 1 == block_run(v, cur, want) ==> run(v, cur + k, 1) is Err,
{
    let unit = v.block_size as nat;
    assert(cur % unit < unit);
    util::lemma_same_unit(cur, k, unit);
    assert(block_run(v, cur + k, 1) == 1);
    if run(v, cur, want) is Ok {
        let take = block_run(v, cur, want);
        match located(v.bat, unit, v.chunk_ratio as nat, cur, want)->Ok_0 {
            PieceView::Zeros { len } => {
                assert(disk::zeros(1) =~= seq![0u8]);
            },
            PieceView::Data { at, len } => {
                let n: nat = v.file.len();
                assert(at + take <= n);
                assert(util::clip(v.file, at + k, 1) =~= seq![
                    util::clip(v.file, at, take)[k as int],
                ]);
            },
        }
    }
}

proof fn lemma_clipped(v: VhdxView, offset: nat, len: nat)
    requires
        v.wf(),
    ensures
        offset >= v.virtual_size || len == 0 ==> reading(v, offset, len) == Ok::<
            Seq<u8>,
            ErrorView,
        >(Seq::empty()),
        reading(v, offset, len) matches Ok(s) ==> s.len() <= len && (s.len() > 0 ==> offset
            + s.len() <= v.virtual_size),
        reading_until(v, offset, len).len() <= len,
{
    if len > 0 && offset < v.virtual_size {
        assert forall|o: nat, w: nat| w > 0 && (#[trigger] runs(v)(o, w)) is Ok implies 0 < runs(
            v,
        )(o, w)->Ok_0.len() <= w by {
            lemma_run_len(v, o, w);
        }
        let want = if len < v.virtual_size - offset {
            len
        } else {
            (v.virtual_size - offset) as nat
        };
        disk::lemma_joined_len(runs(v), offset, want);
    }
}

/// A byte that can be read by itself is a run by itself.
proof fn lemma_single(v: VhdxView, i: nat, b: u8)
    requires
        v.wf(),
        i < v.virtual_size,
        reading(v, i, 1) == Ok::<Seq<u8>, ErrorView>(seq![b]),
    ensures
        run(v, i, 1) == Ok::<Seq<u8>, ErrorView>(seq![b]),
{
    lemma_run_len(v, i, 1);
    assert(reading(v, i, 1) == disk::joined(runs(v), i, 1));
    if run(v, i, 1) is Ok {
        let s = run(v, i, 1)->Ok_0;
        assert(disk::joined(runs(v), i + 1, 0) == Ok::<Seq<u8>, ErrorView>(Seq::empty()));
        assert(s + Seq::<u8>::empty() =~= s);
    }
}

/// Reading one byte is one run.
pub proof fn lemma_one_byte(v: VhdxView, i: nat)
    requires
        v.wf(),
        i < v.virtual_size,
    ensures
        reading(v, i, 1) == run(v, i, 1),
{
    lemma_run_len(v, i, 1);
    assert(reading(v, i, 1) == disk::joined(runs(v), i, 1));
    if run(v, i, 1) is Ok {
        let s = run(v, i, 1)->Ok_0;
        assert(disk::joined(runs(v), i + 1, 0) == Ok::<Seq<u8>, ErrorView>(Seq::empty()));
        assert(s + Seq::<u8>::empty() =~= s);
    }
}

/// A read that goes well gives everything that was asked for, up to the end of
/// the disk, and each byte as a read of that byte alone gives it.
pub proof fn law_read_is_bytewise(v: VhdxView, offset: nat, len: nat, k: nat)
    requires
        v.wf(),
        offset < v.virtual_size,
        reading(v, offset, len) is Ok,
        k < len,
        offset + k < v.virtual_size,
    ensures
        reading(v, offset, len)->Ok_0.len() == if len < v.virtual_size - offset {
            len as int
        } else {
            v.virtual_size - offset
        },
        reading(v, offset + k, 1) == Ok::<Seq<u8>, ErrorView>(
            seq![reading(v, offset, len)->Ok_0[k as int]],
        ),
{
    let want = if len < v.virtual_size - offset {
        len
    } else {
        (v.virtual_size - offset) as nat
    };
    assert forall|o: nat, w: nat| w > 0 && (#[trigger] runs(v)(o, w)) is Ok implies 0 < runs(v)(
        o,
        w,
    )->Ok_0.len() <= w by {
        lemma_run_len(v, o, w);
    }
    assert forall|o: nat, w: nat, i: nat|
        w > 0 && runs(v)(o, w) is Ok && i < runs(v)(o, w)->Ok_0.len() implies #[trigger] runs(v)(
        o + i,
        1,
    ) == Ok::<Seq<u8>, ErrorView>(seq![(#[trigger] runs(v)(o, w))->Ok_0[i as int]]) by {
        lemma_run_len(v, o, w);
        lemma_same_run(v, o, w, i);
    }
    disk::lemma_joined_bytes(runs(v), offset, want, k);
    lemma_one_byte(v, offset + k);
    assert(runs(v)(offset + k, 1) == run(v, offset + k, 1));
}

proof fn lemma_shows(v: VhdxView, c: Seq<u8>, offset: nat, len: nat)
    requires
        v.wf(),
        c.len() == v.virtual_size,
        forall|i: nat| i < c.len() ==> #[trigger] reading(v, i, 1) == Ok::<Seq<u8>, ErrorView>(
            seq![c[i as int]],
        ),
        offset < c.len(),
        len > 0,
    ensures
        disk::reads_a_run(reading(v, offset, len), c, offset, len),
{
    assert forall|o: nat, w: nat| w > 0 && o + w <= c.len() implies disk::reads_a_run(
        #[trigger] runs(v)(o, w),
        c,
        o,
        w,
    ) by {
        lemma_run_len(v, o, w);
        let take = block_run(v, o, w);
        let last = (take - 1) as nat;
        lemma_single(v, o + last, c[(o + last) as int]);
        lemma_same_run(v, o, w, last);
        let s = run(v, o, w)->Ok_0;
        assert forall|i: int| 0 <= i < s.len() implies s[i] == c[o + i] by {
            let k = i as nat;
            lemma_single(v, o + k, c[(o + k) as int]);
            lemma_same_run(v, o, w, k);
            assert(seq![s[i]][0] == seq![c[o + i]][0]);
        }
        assert(s =~= c.subrange(o as int, (o + s.len()) as int));
    }
    let want = if len < c.len() - offset {
        len
    } else {
        (c.len() - offset) as nat
    };
    disk::lemma_joined_shows(runs(v), c, offset, want);
}

impl DiskImage for VhdxImage {
    open spec fn wf(&self) -> bool {
        self@.wf()
    }

    open spec fn summary(&self) -> ImageInfo {
        ImageInfo {
            format: FormatKind::Vhdx,
            virtual_size: self@.virtual_size,
            cluster_size: Some(self@.block_size as u64),
            backend: if self@.is_fixed {
                "vhdx-fixed"
            } else {
                "vhdx-dynamic"
            },
        }
    }

    open spec fn reads(&self) -> spec_fn(nat, nat) -> Result<Seq<u8>, ErrorView> {
        |offset: nat, len: nat| reading(self@, offset, len)
    }

    open spec fn kept(&self, offset: nat, len: nat) -> Seq<u8> {
        reading_until(self@, offset, len)
    }

    proof fn law_read_is_clipped(&self, offset: nat, len: nat) {
        lemma_clipped(self@, offset, len);
    }

    proof fn law_read_shows_content(&self, c: Seq<u8>, offset: nat, len: nat) {
        assert forall|i: nat| i < c.len() implies #[trigger] reading(self@, i, 1) == Ok::<
            Seq<u8>,
            ErrorView,
        >(seq![c[i as int]]) by {
            assert(self.reads()(i, 1) == Ok::<Seq<u8>, ErrorView>(seq![c[i as int]]));
        }
        lemma_shows(self@, c, offset, len);
    }

    fn info(&self) -> (r: ImageInfo) {
        ImageInfo {
            format: FormatKind::Vhdx,
            virtual_size: self.map.virtual_size,
            cluster_size: Some(self.map.block_size as u64),
            backend: if self.map.is_fixed {
                "vhdx-fixed"
            } else {
                "vhdx-dynamic"
            },
        }
    }

    fn gather(&self, offset: u64, len: usize) -> (r: (Vec<u8>, Option<CelError>)) {
        if len == 0 || offset >= self.map.virtual_size {
            return (Vec::new(), None);
        }
        let left: u64 = self.map.virtual_size - offset;
        let want: usize = if (len as u64) < left {
            len
        } else {
            left as usize
        };
        let mut out: Vec<u8> = Vec::new();
        let mut cur: u64 = offset;
        assert(reading(self@, offset as nat, len as nat) == disk::joined(
            runs(self@),
            offset as nat,
            want as nat,
        ));
        proof {
            let rest = disk::joined(runs(self@), offset as nat, want as nat);
            if rest is Ok {
                assert(out@ + rest->Ok_0 =~= rest->Ok_0);
            }
            let until = disk::joined_until(runs(self@), offset as nat, want as nat);
            assert(out@ + until =~= until);
        }
        while out.len() < want
            invariant
                self.wf(),
                out@.len() <= want,
                offset + want <= self@.virtual_size,
                cur == offset + out@.len(),
                reading(self@, offset as nat, len as nat) == disk::prepended(
                    out@,
                    disk::joined(runs(self@), cur as nat, (want - out@.len()) as nat),
                ),
                reading_until(self@, offset as nat, len as nat) == out@ + disk::joined_until(
                    runs(self@),
                    cur as nat,
                    (want - out@.len()) as nat,
                ),
            decreases want - out@.len(),
        {
            let have: usize = out.len();
            proof {
                lemma_run_len(self@, cur as nat, (want - have) as nat);
            }
            match self.one_run(cur, want - have) {
                Err(e) => {
                    assert(out@ + Seq::<u8>::empty() =~= out@);
                    return (out, Some(e));
                },
                Ok(s) => {
                    let ghost before = out@;
                    let n: usize = s.len();
                    extend(&mut out, &s);
                    proof {
                        let rest = disk::joined(
                            runs(self@),
                            (cur + n) as nat,
                            (want - have - n) as nat,
                        );
                        if rest is Ok {
                            assert(before + (s@ + rest->Ok_0) =~= (before + s@) + rest->Ok_0);
                        }
                        let until = disk::joined_until(
                            runs(self@),
                            (cur + n) as nat,
                            (want - have - n) as nat,
                        );
                        assert(before + (s@ + until) =~= (before + s@) + until);
                    }
                    cur = cur + n as u64;
                },
            }
        }
        assert(out@ + Seq::<u8>::empty() =~= out@);
        (out, None)
    }
}

/// A block that is not present reads as zeros.
pub proof fn law_hole_reads_as_zeros(v: VhdxView, cur: nat, want: nat)
    requires
        v.wf(),
        bat_index(cur / v.block_size as nat, v.chunk_ratio as nat) < v.bat.len(),
        v.bat[bat_index(cur / v.block_size as nat, v.chunk_ratio as nat) as int] & 0x7 <= 3,
    ensures
        run(v, cur, want) == Ok::<Seq<u8>, ErrorView>(disk::zeros(block_run(v, cur, want))),
{
}

/// Every block of the disk has its own entry in the block allocation table:
/// no two blocks share one, and none lands on a sector bitmap entry.
pub proof fn law_blocks_have_their_own_entries(a: nat, b: nat, ratio: nat)
    requires
        ratio > 0,
        a < b,
    ensures
        bat_index(a, ratio) < bat_index(b, ratio),
        bat_index(a, ratio) % (ratio + 1) != ratio,
{
    let (x, r) = (a as int, ratio as int);
    vstd::arithmetic::div_mod::lemma_div_is_ordered(x, b as int, r);
    vstd::arithmetic::div_mod::lemma_fundamental_div_mod(x, r);
    let q = x / r;
    let m = x % r;
    assert(x + q == q * (r + 1) + m) by (nonlinear_arith)
        requires
            x == r * q + m,
    ;
    vstd::arithmetic::div_mod::lemma_fundamental_div_mod_converse(x + q, r + 1, q, m);
}

/// The block allocation table of an image that was opened has an entry for
/// every block of the disk.
pub proof fn law_table_covers_the_disk(m: Metadata, cur: nat)
    requires
        refusal(m) is None,
        cur < m.virtual_size,
    ensures
        bat_index(cur / m.block_size as nat, ratio_of(m)) < bat_len(m),
{
    let bs = m.block_size as int;
    let block = cur as int / bs;
    let top = 0x80_0000 * m.logical_sector_size as int;
    assert(bs >= 0x10_0000);
    vstd::arithmetic::div_mod::lemma_div_non_zero(top, bs);
    let r = ratio_of(m) as int;
    let blocks = blocks_of(m) as int;
    vstd::arithmetic::div_mod::lemma_div_is_ordered(cur as int, m.virtual_size as int, bs);
    vstd::arithmetic::div_mod::lemma_fundamental_div_mod(m.virtual_size as int, bs);
    vstd::arithmetic::div_mod::lemma_fundamental_div_mod(cur as int, bs);
    if block >= blocks {
        let q = m.virtual_size as int / bs;
        assert(block == q);
        assert(m.virtual_size as int == bs * q);
        assert(cur as int >= bs * q);
    }
    vstd::arithmetic::div_mod::lemma_div_is_ordered(block, blocks, r);
    vstd::arithmetic::div_mod::lemma_fundamental_div_mod(blocks, r);
    vstd::arithmetic::div_mod::lemma_fundamental_div_mod(block, r);
    if block / r >= util::ceil(blocks as nat, r as nat) {
        assert(block / r == blocks / r);
        assert(blocks == r * (blocks / r));
        assert(block >= r * (block / r));
    }
}

} // verus!
