//! VMDK disk images with one sparse extent in one file.
//!
//! A grain directory points at grain tables, and those at grains of data.
//! Entries 0 and 1 stand for nothing stored and read as zeros. Compressed
//! extents and layouts of more than one file are refused.

use vstd::prelude::*;
use vstd::string::*;

use crate::error;
use crate::error::{CelError, CelResult, ErrorView};
use crate::image::disk;
use crate::image::disk::{extend, zero_bytes, DiskImage, ImageInfo, Piece};
use crate::image::format::{is_vmdk, FormatKind};
use crate::image::util;
use crate::image::util::{
    ceil_div, le32_entries, le_u16, le_u32, le_u64, power_of_two, read_up_to, read_whole,
    seek_failure, MAX_SEEK,
};
use crate::text::concat;

verus! {

/// Bytes in a sector.
pub const SECTOR: u64 = 512;

/// How many bytes of a file hold the header.
pub const HEADER_BYTES: usize = 512;

/// Header of a sparse extent; sizes and places are in sectors.
#[derive(Debug, Clone, Copy, PartialEq, Eq, Structural)]
pub struct VmdkHeader {
    /// Size of the disk.
    pub capacity_sectors: u64,
    /// Size of a grain.
    pub grain_size_sectors: u64,
    /// Where the embedded description stands.
    pub descriptor_offset_sectors: u64,
    /// Size of the embedded description; 0 if there is none.
    pub descriptor_size_sectors: u64,
    /// Entries of a grain table.
    pub num_gtes_per_gt: u32,
    /// Where the grain directory stands.
    pub gd_offset_sectors: u64,
    /// Where the first grain may stand.
    pub overhead_sectors: u64,
    /// Kind of compression.
    pub compress_algorithm: u16,
    /// Flags.
    pub flags: u32,
}

/// The header that the first bytes of a file hold.
pub open spec fn parsed_header(buf: Seq<u8>) -> Result<VmdkHeader, CelError> {
    let version = util::le_at(buf, 4, 4);
    if buf.len() < 80 {
        Err(CelError::Invalid("vmdk: header truncated"))
    } else if !util::matches_at(buf, 0, crate::image::format::vmdk_magic()) {
        Err(CelError::Invalid("vmdk: bad magic (not KDMV)"))
    } else if !(1 <= version <= 3) {
        Err(CelError::Invalid("vmdk: unsupported sparse extent version"))
    } else {
        Ok(
            VmdkHeader {
                capacity_sectors: util::le_at(buf, 12, 8) as u64,
                grain_size_sectors: util::le_at(buf, 20, 8) as u64,
                descriptor_offset_sectors: util::le_at(buf, 28, 8) as u64,
                descriptor_size_sectors: util::le_at(buf, 36, 8) as u64,
                num_gtes_per_gt: util::le_at(buf, 44, 4) as u32,
                gd_offset_sectors: util::le_at(buf, 56, 8) as u64,
                overhead_sectors: util::le_at(buf, 64, 8) as u64,
                compress_algorithm: util::le_at(buf, 77, 2) as u16,
                flags: util::le_at(buf, 8, 4) as u32,
            },
        )
    }
}

/// Decodes the header from the first bytes of a file, of which up to
/// [`HEADER_BYTES`] count.
pub fn parse_header(buf: &[u8]) -> (r: CelResult<VmdkHeader>)
    ensures
        r == parsed_header(buf@),
{
    if buf.len() < 80 {
        return Err(CelError::Invalid("vmdk: header truncated"));
    }
    if !is_vmdk(buf) {
        return Err(CelError::Invalid("vmdk: bad magic (not KDMV)"));
    }
    let version: u32 = le_u32(buf, 4)?;
    if !(1 <= version && version <= 3) {
        return Err(CelError::Invalid("vmdk: unsupported sparse extent version"));
    }
    let flags: u32 = le_u32(buf, 8)?;
    let capacity_sectors: u64 = le_u64(buf, 12)?;
    let grain_size_sectors: u64 = le_u64(buf, 20)?;
    let descriptor_offset_sectors: u64 = le_u64(buf, 28)?;
    let descriptor_size_sectors: u64 = le_u64(buf, 36)?;
    let num_gtes_per_gt: u32 = le_u32(buf, 44)?;
    let gd_offset_sectors: u64 = le_u64(buf, 56)?;
    let overhead_sectors: u64 = le_u64(buf, 64)?;
    let compress_algorithm: u16 = le_u16(buf, 77)?;
    Ok(
        VmdkHeader {
            capacity_sectors,
            grain_size_sectors,
            descriptor_offset_sectors,
            descriptor_size_sectors,
            num_gtes_per_gt,
            gd_offset_sectors,
            overhead_sectors,
            compress_algorithm,
            flags,
        },
    )
}

/// Why a header is refused, if it is.
pub open spec fn refusal(h: VmdkHeader) -> Option<CelError> {
    if h.compress_algorithm != 0 {
        Some(CelError::Invalid("vmdk: compressed (streamOptimized) extents not supported"))
    } else if !(8 <= h.grain_size_sectors <= 0x10_0000) || !vstd::arithmetic::power2::is_pow2(
        h.grain_size_sectors as int,
    ) {
        Some(CelError::Invalid("vmdk: grain_size_sectors out of spec"))
    } else if !vstd::arithmetic::power2::is_pow2(h.num_gtes_per_gt as int) {
        Some(CelError::Invalid("vmdk: num_gtes_per_gt must be a power of two"))
    } else if h.gd_offset_sectors == 0 {
        Some(
            CelError::Invalid(
                "vmdk: gd_offset == 0 (descriptor-only / multi-extent images not supported)",
            ),
        )
    } else if h.overhead_sectors == 0 {
        Some(CelError::Invalid("vmdk: overhead == 0 (malformed)"))
    } else if h.descriptor_offset_sectors + h.descriptor_size_sectors > u64::MAX {
        Some(CelError::Invalid("vmdk: descriptor offset+size overflow"))
    } else {
        None
    }
}

/// Checks that an image with this header can be read. Flags that are not
/// known are let through.
pub fn validate_header(h: &VmdkHeader) -> (r: CelResult<()>)
    ensures
        match refusal(*h) {
            None => r is Ok,
            Some(e) => r == Err::<(), CelError>(e),
        },
{
    if h.compress_algorithm != 0 {
        return Err(CelError::Invalid("vmdk: compressed (streamOptimized) extents not supported"));
    }
    if h.grain_size_sectors < 8 || h.grain_size_sectors > 0x10_0000 || !power_of_two(
        h.grain_size_sectors,
    ) {
        return Err(CelError::Invalid("vmdk: grain_size_sectors out of spec"));
    }
    if !power_of_two(h.num_gtes_per_gt as u64) {
        return Err(CelError::Invalid("vmdk: num_gtes_per_gt must be a power of two"));
    }
    if h.gd_offset_sectors == 0 {
        return Err(
            CelError::Invalid(
                "vmdk: gd_offset == 0 (descriptor-only / multi-extent images not supported)",
            ),
        );
    }
    if h.overhead_sectors == 0 {
        return Err(CelError::Invalid("vmdk: overhead == 0 (malformed)"));
    }
    if h.descriptor_offset_sectors > u64::MAX - h.descriptor_size_sectors {
        return Err(CelError::Invalid("vmdk: descriptor offset+size overflow"));
    }
    Ok(())
}

impl VmdkHeader {
    /// Whether the file holds a description of itself.
    pub fn descriptor_present(&self) -> (r: bool)
        ensures
            r == (self.descriptor_offset_sectors != 0 && self.descriptor_size_sectors != 0),
    {
        self.descriptor_offset_sectors != 0 && self.descriptor_size_sectors != 0
    }

    /// Where the first grain may stand, in bytes.
    pub fn first_grain_byte(&self) -> (r: u64)
        requires
            self.overhead_sectors * SECTOR <= u64::MAX,
        ensures
            r == self.overhead_sectors * SECTOR,
    {
        self.overhead_sectors * SECTOR
    }
}

/// How many entries the grain directory has.
pub open spec fn directory_len(h: VmdkHeader) -> nat {
    util::ceil(
        h.capacity_sectors as nat,
        h.num_gtes_per_gt as nat * h.grain_size_sectors as nat,
    )
}

/// Where the grain directory stands in the file and how long it is, in bytes.
pub fn directory_extent(h: &VmdkHeader) -> (r: CelResult<(u64, u64)>)
    requires
        refusal(*h) is None,
    ensures
        match r {
            Ok(x) => x.0 == h.gd_offset_sectors * SECTOR && x.1 == directory_len(*h) * 4,
            Err(e) => h.gd_offset_sectors * SECTOR > u64::MAX && e == CelError::Invalid(
                "vmdk: GD offset overflow",
            ),
        },
{
    reveal(vstd::arithmetic::power2::is_pow2);
    let n: u64 = h.num_gtes_per_gt as u64;
    let g: u64 = h.grain_size_sectors;
    assert(8 <= n * g <= 0xffff_ffff * 0x10_0000) by (nonlinear_arith)
        requires
            1 <= n <= 0xffff_ffff,
            8 <= g <= 0x10_0000,
    ;
    let per: u64 = n * g;
    let count: u64 = ceil_div(h.capacity_sectors, per);
    proof {
        vstd::arithmetic::div_mod::lemma_div_is_ordered_by_denominator(
            h.capacity_sectors as int,
            8,
            per as int,
        );
    }
    match h.gd_offset_sectors.checked_mul(SECTOR) {
        Some(at) => Ok((at, count * 4)),
        None => Err(CelError::Invalid("vmdk: GD offset overflow")),
    }
}

/// The size of a disk in bytes, as far as it can be told.
pub open spec fn size_of(h: VmdkHeader) -> u64 {
    if h.capacity_sectors * SECTOR <= u64::MAX {
        (h.capacity_sectors * SECTOR) as u64
    } else {
        u64::MAX
    }
}

/// How the disk maps to the file: sizes and the grain directory.
#[derive(Debug)]
pub struct VmdkMap {
    /// Size of the disk in bytes.
    pub virtual_size: u64,
    /// Size of a grain in sectors.
    pub grain_size_sectors: u64,
    /// Entries of a grain table.
    pub num_gtes_per_gt: u32,
    /// Grain directory: the sectors of the grain tables.
    pub gd: Vec<u32>,
}

/// Where the search for a byte of the disk leads, after the grain directory.
#[derive(Debug, Clone, Copy, PartialEq, Eq, Structural)]
pub enum VmdkSpot {
    /// The search is over.
    Found(Piece),
    /// A grain table has to be read.
    Table {
        /// Where in the file the table stands.
        at: u64,
        /// Length of the table in bytes.
        bytes: u64,
        /// Entry of the table that counts.
        index: u64,
        /// Position within the grain.
        intra: u64,
        /// Length of the run.
        take: usize,
    },
}

/// Mathematical value of a [`VmdkImage`].
#[verifier::ext_equal]
pub struct VmdkView {
    /// Where the image was opened.
    pub path: Seq<char>,
    /// Bytes of the file.
    pub file: Seq<u8>,
    /// Size of the disk in bytes.
    pub virtual_size: u64,
    /// Size of a grain in sectors.
    pub grain_size_sectors: u64,
    /// Entries of a grain table.
    pub num_gtes_per_gt: u32,
    /// Grain directory.
    pub gd: Seq<u32>,
}

impl VmdkView {
    /// Size of a grain in bytes.
    pub open spec fn grain(self) -> nat {
        self.grain_size_sectors as nat * 512
    }

    /// Grains have a size within bounds, and tables are not empty.
    pub open spec fn wf(self) -> bool {
        8 <= self.grain_size_sectors <= 0x10_0000 && self.num_gtes_per_gt > 0
    }
}

/// The failure of a read that the file does not reach.
pub open spec fn short_of(what: Seq<char>) -> ErrorView {
    ErrorView::Storage(what + ": failed to fill whole buffer"@)
}

/// See [`short_of`].
fn short(what: &str) -> (r: CelError)
    ensures
        r@ == short_of(what@),
{
    CelError::Storage(concat(what, ": failed to fill whole buffer"))
}

/// The image that a file holds.
pub open spec fn opened(path: Seq<char>, file: Seq<u8>) -> Result<VmdkView, ErrorView> {
    match parsed_header(util::clip(file, 0, HEADER_BYTES as nat)) {
        Err(e) => Err(e@),
        Ok(h) => match refusal(h) {
            Some(e) => Err(e@),
            None => if h.gd_offset_sectors * SECTOR > u64::MAX {
                Err(ErrorView::Invalid("vmdk: GD offset overflow"@))
            } else if h.gd_offset_sectors * SECTOR > MAX_SEEK {
                Err(util::unseekable("seek gd "@ + path))
            } else {
                match util::fetched(
                    file,
                    (h.gd_offset_sectors * SECTOR) as nat,
                    directory_len(h) * 4,
                ) {
                    None => Err(short_of("read gd "@ + path)),
                    Some(raw) => Ok(
                        VmdkView {
                            path,
                            file,
                            virtual_size: size_of(h),
                            grain_size_sectors: h.grain_size_sectors,
                            num_gtes_per_gt: h.num_gtes_per_gt,
                            gd: util::le32_table(raw),
                        },
                    ),
                }
            },
        },
    }
}

/// The grain table entry that decides on the byte at `cur`, as a sector;
/// nothing stored is 0 or 1.
pub open spec fn entry_for(v: VmdkView, cur: nat) -> Result<u32, ErrorView> {
    let grain = cur / v.grain();
    let per = v.num_gtes_per_gt as nat;
    let table = grain / per;
    if table >= v.gd.len() || v.gd[table as int] <= 1 {
        Ok(0)
    } else {
        match util::fetched(v.file, v.gd[table as int] as nat * 512, per * 4) {
            None => Err(short_of("read gt"@)),
            Some(raw) => Ok(util::le_at(raw, 4 * (grain % per) as int, 4) as u32),
        }
    }
}

/// The length of the run that starts at `cur`.
pub open spec fn grain_run(v: VmdkView, cur: nat, want: nat) -> nat {
    let room = (v.grain() - cur % v.grain()) as nat;
    if want < room {
        want
    } else {
        room
    }
}

/// One run of bytes: `want` of them, but no further than the end of the grain.
pub open spec fn run(v: VmdkView, cur: nat, want: nat) -> Result<Seq<u8>, ErrorView> {
    let take = grain_run(v, cur, want);
    match entry_for(v, cur) {
        Err(e) => Err(e),
        Ok(gte) => if gte <= 1 {
            Ok(disk::zeros(take))
        } else {
            match util::fetched(v.file, gte as nat * 512 + cur % v.grain(), take) {
                None => Err(short_of("read grain"@)),
                Some(s) => Ok(s),
            }
        },
    }
}

/// See [`run`].
pub open spec fn runs(v: VmdkView) -> spec_fn(nat, nat) -> Result<Seq<u8>, ErrorView> {
    |cur: nat, want: nat| run(v, cur, want)
}

/// What a read of an image gives: everything that was asked for, up to the end
/// of the disk, or the first failure.
pub open spec fn reading(v: VmdkView, offset: nat, len: nat) -> Result<Seq<u8>, ErrorView> {
    if len == 0 || offset >= v.virtual_size {
        Ok(Seq::empty())
    } else if len < v.virtual_size - offset {
        disk::joined(runs(v), offset, len)
    } else {
        disk::joined(runs(v), offset, (v.virtual_size - offset) as nat)
    }
}

/// What a read that fails has read by then: every run before the one that
/// failed.
pub open spec fn reading_until(v: VmdkView, offset: nat, len: nat) -> Seq<u8> {
    if len == 0 || offset >= v.virtual_size {
        Seq::empty()
    } else if len < v.virtual_size - offset {
        disk::joined_until(runs(v), offset, len)
    } else {
        disk::joined_until(runs(v), offset, (v.virtual_size - offset) as nat)
    }
}

impl VmdkMap {
    /// See [`VmdkView::wf`].
    pub open spec fn wf(&self) -> bool {
        8 <= self.grain_size_sectors <= 0x10_0000 && self.num_gtes_per_gt > 0
    }

    /// Decodes the grain directory, which `raw` holds.
    pub fn new(h: &VmdkHeader, raw: &[u8]) -> (r: VmdkMap)
        requires
            refusal(*h) is None,
        ensures
            r.wf(),
            r.virtual_size == size_of(*h),
            r.grain_size_sectors == h.grain_size_sectors,
            r.num_gtes_per_gt == h.num_gtes_per_gt,
            r.gd@ == util::le32_table(raw@),
    {
        reveal(vstd::arithmetic::power2::is_pow2);
        let virtual_size: u64 = match h.capacity_sectors.checked_mul(SECTOR) {
            Some(n) => n,
            None => u64::MAX,
        };
        VmdkMap {
            virtual_size,
            grain_size_sectors: h.grain_size_sectors,
            num_gtes_per_gt: h.num_gtes_per_gt,
            gd: le32_entries(raw),
        }
    }

    /// First part of the search for up to `want` bytes at `cur`: the grain
    /// directory.
    pub fn locate(&self, cur: u64, want: usize) -> (r: VmdkSpot)
        requires
            self.wf(),
        ensures
            ({
                let unit = self.grain_size_sectors as nat * 512;
                let grain = cur as nat / unit;
                let per = self.num_gtes_per_gt as nat;
                let room = (unit - cur as nat % unit) as nat;
                let take = if want < room {
                    want
                } else {
                    room as usize
                };
                if grain / per >= self.gd@.len() || self.gd@[(grain / per) as int] <= 1 {
                    r == VmdkSpot::Found(Piece::Zeros { len: take })
                } else {
                    r == VmdkSpot::Table {
                        at: (self.gd@[(grain / per) as int] * 512) as u64,
                        bytes: (per * 4) as u64,
                        index: (grain % per) as u64,
                        intra: (cur as nat % unit) as u64,
                        take,
                    }
                }
            }),
    {
        let unit: u64 = self.grain_size_sectors * SECTOR;
        let intra: u64 = cur % unit;
        let room: u64 = unit - intra;
        let take: usize = if (want as u64) < room {
            want
        } else {
            room as usize
        };
        let grain: u64 = cur / unit;
        let per: u64 = self.num_gtes_per_gt as u64;
        let table: u64 = grain / per;
        let index: u64 = grain % per;
        if table >= self.gd.len() as u64 {
            return VmdkSpot::Found(Piece::Zeros { len: take });
        }
        let entry: u32 = self.gd[table as usize];
        if entry == 0 || entry == 1 {
            return VmdkSpot::Found(Piece::Zeros { len: take });
        }
        VmdkSpot::Table { at: entry as u64 * SECTOR, bytes: per * 4, index, intra, take }
    }

    /// Last part of the search, from the entry of the grain table.
    pub fn resolve(&self, gte: u32, intra: u64, take: usize) -> (r: Piece)
        requires
            self.wf(),
            intra < self.grain_size_sectors * SECTOR,
        ensures
            r == if gte <= 1 {
                Piece::Zeros { len: take }
            } else {
                Piece::Data { at: (gte * 512 + intra) as u64, len: take }
            },
    {
        if gte == 0 || gte == 1 {
            Piece::Zeros { len: take }
        } else {
            Piece::Data { at: gte as u64 * SECTOR + intra, len: take }
        }
    }
}

/// A VMDK image.
#[derive(Debug)]
pub struct VmdkImage {
    path: String,
    file: Vec<u8>,
    map: VmdkMap,
}

impl View for VmdkImage {
    type V = VmdkView;

    closed spec fn view(&self) -> VmdkView {
        VmdkView {
            path: self.path@,
            file: self.file@,
            virtual_size: self.map.virtual_size,
            grain_size_sectors: self.map.grain_size_sectors,
            num_gtes_per_gt: self.map.num_gtes_per_gt,
            gd: self.map.gd@,
        }
    }
}

impl VmdkImage {
    /// Opens the file `file`, found at `path`.
    pub fn open(path: &str, file: Vec<u8>) -> (r: CelResult<VmdkImage>)
        ensures
            error::result_view(r) == opened(path@, file@),
            r matches Ok(i) ==> i.wf(),
    {
        let head = read_up_to(file.as_slice(), 0, HEADER_BYTES);
        let h = match parse_header(head.as_slice()) {
            Ok(h) => h,
            Err(e) => {
                return Err(e);
            },
        };
        match validate_header(&h) {
            Ok(_) => {},
            Err(e) => {
                return Err(e);
            },
        }
        let (at, bytes) = match directory_extent(&h) {
            Ok(x) => x,
            Err(e) => {
                return Err(e);
            },
        };
        if at > MAX_SEEK {
            return Err(seek_failure(concat("seek gd ", path).as_str()));
        }
        match read_whole(file.as_slice(), at, bytes) {
            None => Err(short(concat("read gd ", path).as_str())),
            Some(raw) => {
                let map = VmdkMap::new(&h, raw.as_slice());
                Ok(VmdkImage { path: path.to_owned(), file, map })
            },
        }
    }

    /// Where the image was opened.
    pub fn path(&self) -> (r: &str)
        ensures
            r@ == self@.path,
    {
        self.path.as_str()
    }

    /// One entry of the grain table at `at`, which is `bytes` long.
    fn load_gt(&self, at: u64, bytes: u64, index: u64) -> (r: CelResult<u32>)
        requires
            4 * index + 4 <= bytes,
        ensures
            error::result_view(r) == match util::fetched(self@.file, at as nat, bytes as nat) {
                None => Err(short_of("read gt"@)),
                Some(raw) => Ok(util::le_at(raw, 4 * index, 4) as u32),
            },
    {
        match read_whole(self.file.as_slice(), at, bytes) {
            None => Err(short("read gt")),
            Some(raw) => {
                let n: usize = raw.len();
                assert(n == bytes);
                let v: u32 = le_u32(raw.as_slice(), 4 * index as usize)?;
                Ok(v)
            },
        }
    }

    /// See [`run`].
    fn one_run(&self, cur: u64, want: usize) -> (r: CelResult<Vec<u8>>)
        requires
            self.wf(),
            want > 0,
        ensures
            error::result_view(r) == run(self@, cur as nat, want as nat),
    {
        let unit: u64 = self.map.grain_size_sectors * SECTOR;
        assert(cur as nat % unit as nat == cur % unit);
        let piece = match self.map.locate(cur, want) {
            VmdkSpot::Found(p) => p,
            VmdkSpot::Table { at, bytes, index, intra, take } => {
                match self.load_gt(at, bytes, index) {
                    Err(e) => {
                        return Err(e);
                    },
                    Ok(gte) => self.map.resolve(gte, intra, take),
                }
            },
        };
        match piece {
            Piece::Zeros { len } => Ok(zero_bytes(len)),
            Piece::Data { at, len } => match read_whole(self.file.as_slice(), at, len as u64) {
                None => Err(short("read grain")),
                Some(s) => Ok(s),
            },
        }
    }
}

/// A run is neither empty nor longer than asked for.
proof fn lemma_run_len(v: VmdkView, cur: nat, want: nat)
    requires
        v.wf(),
        want > 0,
    ensures
        run(v, cur, want) matches Ok(s) ==> s.len() == grain_run(v, cur, want),
        0 < grain_run(v, cur, want) <= want,
{
    assert(cur % v.grain() < v.grain());
}

/// Bytes of one run come from the same place.
proof fn lemma_same_run(v: VmdkView, cur: nat, want: nat, k: nat)
    requires
        v.wf(),
        want > 0,
        k < grain_run(v, cur, want),
    ensures
        run(v, cur, want) is Ok ==> run(v, cur + k, 1) == Ok::<Seq<u8>, ErrorView>(
            seq![run(v, cur, want)->Ok_0[k as int]],
        ),
        run(v, cur, want) is Err && k + 1 == grain_run(v, cur, want) ==> run(v, cur + k, 1) is Err,
{
    assert(cur % v.grain() < v.grain());
    util::lemma_same_unit(cur, k, v.grain());
    assert(grain_run(v, cur + k, 1) == 1);
    assert(entry_for(v, cur + k) == entry_for(v, cur));
    if run(v, cur, want) is Ok {
        let gte = entry_for(v, cur)->Ok_0;
        if gte <= 1 {
            assert(disk::zeros(1) =~= seq![0u8]);
        } else {
            let at = gte as nat * 512 + cur % v.grain();
            let take = grain_run(v, cur, want);
            assert(util::clip(v.file, at + k, 1) =~= seq![util::clip(v.file, at, take)[k as int]]);
        }
    }
}

proof fn lemma_clipped(v: VmdkView, offset: nat, len: nat)
    requires
        v.wf(),
    ensures
        offset >= v.virtual_size || len == 0 ==> reading(v, offset, len) == Ok::<
            Seq<u8>,
            ErrorView,
        >(Seq::empty()),
        reading(v, offset, len) matches Ok(s) ==> s.len() <= len && (s.len() > 0 ==> offset
            + s.len() <= v.virtual_size),
        reading_until(v, offset, len).len() <= len,
{
    if len > 0 && offset < v.virtual_size {
        assert forall|o: nat, w: nat| w > 0 && (#[trigger] runs(v)(o, w)) is Ok implies 0 < runs(
            v,
        )(o, w)->Ok_0.len() <= w by {
            lemma_run_len(v, o, w);
        }
        let want = if len < v.virtual_size - offset {
            len
        } else {
            (v.virtual_size - offset) as nat
        };
        disk::lemma_joined_len(runs(v), offset, want);
    }
}

/// A byte that can be read by itself is a run by itself.
proof fn lemma_single(v: VmdkView, i: nat, b: u8)
    requires
        v.wf(),
        i < v.virtual_size,
        reading(v, i, 1) == Ok::<Seq<u8>, ErrorView>(seq![b]),
    ensures
        run(v, i, 1) == Ok::<Seq<u8>, ErrorView>(seq![b]),
{
    lemma_run_len(v, i, 1);
    assert(reading(v, i, 1) == disk::joined(runs(v), i, 1));
    if run(v, i, 1) is Ok {
        let s = run(v, i, 1)->Ok_0;
        assert(disk::joined(runs(v), i + 1, 0) == Ok::<Seq<u8>, ErrorView>(Seq::empty()));
        assert(s + Seq::<u8>::empty() =~= s);
    }
}

/// Reading one byte is one run.
pub proof fn lemma_one_byte(v: VmdkView, i: nat)
    requires
        v.wf(),
        i < v.virtual_size,
    ensures
        reading(v, i, 1) == run(v, i, 1),
{
    lemma_run_len(v, i, 1);
    assert(reading(v, i, 1) == disk::joined(runs(v), i, 1));
    if run(v, i, 1) is Ok {
        let s = run(v, i, 1)->Ok_0;
        assert(disk::joined(runs(v), i + 1, 0) == Ok::<Seq<u8>, ErrorView>(Seq::empty()));
        assert(s + Seq::<u8>::empty() =~= s);
    }
}

/// A read that goes well gives everything that was asked for, up to the end of
/// the disk, and each byte as a read of that byte alone gives it.
pub proof fn law_read_is_bytewise(v: VmdkView, offset: nat, len: nat, k: nat)
    requires
        v.wf(),
        offset < v.virtual_size,
        reading(v, offset, len) is Ok,
        k < len,
        offset + k < v.virtual_size,
    ensures
        reading(v, offset, len)->Ok_0.len() == if len < v.virtual_size - offset {
            len as int
        } else {
            v.virtual_size - offset
        },
        reading(v, offset + k, 1) == Ok::<Seq<u8>, ErrorView>(
            seq![reading(v, offset, len)->Ok_0[k as int]],
        ),
{
    let want = if len < v.virtual_size - offset {
        len
    } else {
        (v.virtual_size - offset) as nat
    };
    assert forall|o: nat, w: nat| w > 0 && (#[trigger] runs(v)(o, w)) is Ok implies 0 < runs(v)(
        o,
        w,
    )->Ok_0.len() <= w by {
        lemma_run_len(v, o, w);
    }
    assert forall|o: nat, w: nat, i: nat|
        w > 0 && runs(v)(o, w) is Ok && i < runs(v)(o, w)->Ok_0.len() implies #[trigger] runs(v)(
        o + i,
        1,
    ) == Ok::<Seq<u8>, ErrorView>(seq![(#[trigger] runs(v)(o, w))->Ok_0[i as int]]) by {
        lemma_run_len(v, o, w);
        lemma_same_run(v, o, w, i);
    }
    disk::lemma_joined_bytes(runs(v), offset, want, k);
    lemma_one_byte(v, offset + k);
    assert(runs(v)(offset + k, 1) == run(v, offset + k, 1));
}

proof fn lemma_shows(v: VmdkView, c: Seq<u8>, offset: nat, len: nat)
    requires
        v.wf(),
        c.len() == v.virtual_size,
        forall|i: nat| i < c.len() ==> #[trigger] reading(v, i, 1) == Ok::<Seq<u8>, ErrorView>(
            seq![c[i as int]],
        ),
        offset < c.len(),
        len > 0,
    ensures
        disk::reads_a_run(reading(v, offset, len), c, offset, len),
{
    assert forall|o: nat, w: nat| w > 0 && o + w <= c.len() implies disk::reads_a_run(
        #[trigger] runs(v)(o, w),
        c,
        o,
        w,
    ) by {
        lemma_run_len(v, o, w);
        let take = grain_run(v, o, w);
        let last = (take - 1) as nat;
        lemma_single(v, o + last, c[(o + last) as int]);
        lemma_same_run(v, o, w, last);
        let s = run(v, o, w)->Ok_0;
        assert forall|i: int| 0 <= i < s.len() implies s[i] == c[o + i] by {
            let k = i as nat;
            lemma_single(v, o + k, c[(o + k) as int]);
            lemma_same_run(v, o, w, k);
            assert(seq![s[i]][0] == seq![c[o + i]][0]);
        }
        assert(s =~= c.subrange(o as int, (o + s.len()) as int));
    }
    let want = if len < c.len() - offset {
        len
    } else {
        (c.len() - offset) as nat
    };
    disk::lemma_joined_shows(runs(v), c, offset, want);
}

impl DiskImage for VmdkImage {
    open spec fn wf(&self) -> bool {
        self@.wf()
    }

    open spec fn summary(&self) -> ImageInfo {
        ImageInfo {
            format: FormatKind::Vmdk,
            virtual_size: self@.virtual_size,
            cluster_size: Some((self@.grain_size_sectors * SECTOR) as u64),
            backend: "vmdk-monolithic-sparse",
        }
    }

    open spec fn reads(&self) -> spec_fn(nat, nat) -> Result<Seq<u8>, ErrorView> {
        |offset: nat, len: nat| reading(self@, offset, len)
    }

    open spec fn kept(&self, offset: nat, len: nat) -> Seq<u8> {
        reading_until(self@, offset, len)
    }

    proof fn law_read_is_clipped(&self, offset: nat, len: nat) {
        lemma_clipped(self@, offset, len);
    }

    proof fn law_read_shows_content(&self, c: Seq<u8>, offset: nat, len: nat) {
        assert forall|i: nat| i < c.len() implies #[trigger] reading(self@, i, 1) == Ok::<
            Seq<u8>,
            ErrorView,
        >(seq![c[i as int]]) by {
            assert(self.reads()(i, 1) == Ok::<Seq<u8>, ErrorView>(seq![c[i as int]]));
        }
        lemma_shows(self@, c, offset, len);
    }

    fn info(&self) -> (r: ImageInfo) {
        ImageInfo {
            format: FormatKind::Vmdk,
            virtual_size: self.map.virtual_size,
            cluster_size: Some(self.map.grain_size_sectors * SECTOR),
            backend: "vmdk-monolithic-sparse",
        }
    }

    fn gather(&self, offset: u64, len: usize) -> (r: (Vec<u8>, Option<CelError>)) {
        if len == 0 || offset >= self.map.virtual_size {
            return (Vec::new(), None);
        }
        let left: u64 = self.map.virtual_size - offset;
        let want: usize = if (len as u64) < left {
            len
        } else {
            left as usize
        };
        let mut out: Vec<u8> = Vec::new();
        let mut cur: u64 = offset;
        assert(reading(self@, offset as nat, len as nat) == disk::joined(
            runs(self@),
            offset as nat,
            want as nat,
        ));
        proof {
            let rest = disk::joined(runs(self@), offset as nat, want as nat);
            if rest is Ok {
                assert(out@ + rest->Ok_0 =~= rest->Ok_0);
            }
            let until = disk::joined_until(runs(self@), offset as nat, want as nat);
            assert(out@ + until =~= until);
        }
        while out.len() < want
            invariant
                self.wf(),
                out@.len() <= want,
                offset + want <= self@.virtual_size,
                cur == offset + out@.len(),
                reading(self@, offset as nat, len as nat) == disk::prepended(
                    out@,
                    disk::joined(runs(self@), cur as nat, (want - out@.len()) as nat),
                ),
                reading_until(self@, offset as nat, len as nat) == out@ + disk::joined_until(
                    runs(self@),
                    cur as nat,
                    (want - out@.len()) as nat,
                ),
            decreases want - out@.len(),
        {
            let have: usize = out.len();
            proof {
                lemma_run_len(self@, cur as nat, (want - have) as nat);
            }
            match self.one_run(cur, want - have) {
                Err(e) => {
                    assert(out@ + Seq::<u8>::empty() =~= out@);
                    return (out, Some(e));
                },
                Ok(s) => {
                    let ghost before = out@;
                    let n: usize = s.len();
                    extend(&mut out, &s);
                    proof {
                        let rest = disk::joined(
                            runs(self@),
                            (cur + n) as nat,
                            (want - have - n) as nat,
                        );
                        if rest is Ok {
                            assert(before + (s@ + rest->Ok_0) =~= (before + s@) + rest->Ok_0);
                        }
                        let until = disk::joined_until(
                            runs(self@),
                            (cur + n) as nat,
                            (want - have - n) as nat,
                        );
                        assert(before + (s@ + until) =~= (before + s@) + until);
                    }
                    cur = cur + n as u64;
                },
            }
        }
        assert(out@ + Seq::<u8>::empty() =~= out@);
        (out, None)
    }
}

/// Where no grain is stored, a run gives zeros: there is no grain table, or its
/// entry names no grain.
pub proof fn law_hole_reads_as_zeros(v: VmdkView, cur: nat, want: nat)
    requires
        v.wf(),
        cur / v.grain() / v.num_gtes_per_gt as nat >= v.gd.len() || v.gd[(cur / v.grain()
            / v.num_gtes_per_gt as nat) as int] <= 1 || (entry_for(v, cur) matches Ok(gte) && gte
            <= 1),
    ensures
        run(v, cur, want) == Ok::<Seq<u8>, ErrorView>(disk::zeros(grain_run(v, cur, want))),
{
}

} // verus!
