//! qcow2 disk images, versions 2 and 3.
//!
//! A two-level table maps clusters of the disk to clusters of the file.
//! Clusters that are not allocated, and zero clusters of version 3, read as
//! zeros. Compressed clusters, encryption, extended table entries and backing
//! files are refused.

use vstd::prelude::*;
use vstd::string::*;

use crate::error;
use crate::error::{CelError, CelResult, ErrorView};
use crate::image::disk;
use crate::image::disk::{run_length, zero_bytes, DiskImage, ImageInfo, Piece, PieceView};
use crate::image::format::{is_qcow2, FormatKind};
use crate::image::util;
use crate::image::util::{
    be64_entries, be_u32, be_u64, read_up_to, read_whole, seek_failure, MAX_SEEK,
};
use crate::text::concat;

verus! {

/// How many bytes of a file hold the header.
pub const HEADER_BYTES: usize = 104;

/// Bit of a table entry: the cluster is compressed.
pub const COMPRESSED: u64 = 0x4000_0000_0000_0000;

/// Bit of a table entry: the cluster is all zeros.
pub const ZERO_CLUSTER: u64 = 1;

/// Bits of a table entry that hold an offset in the file.
pub const OFFSET_MASK: u64 = 0x00ff_ffff_ffff_fe00;

/// Features that change the encoding of table entries: compression type and
/// extended entries.
pub const UNSUPPORTED: u64 = 0x18;

/// Header of an image.
#[derive(Debug, Clone, Copy, PartialEq, Eq, Structural)]
pub struct Qcow2Header {
    /// 2 or 3.
    pub version: u32,
    /// Binary logarithm of the cluster size.
    pub cluster_bits: u32,
    /// Cluster size in bytes.
    pub cluster_size: u64,
    /// Size of the disk in bytes.
    pub size: u64,
    /// Kind of encryption.
    pub crypt_method: u32,
    /// Where the name of a backing file stands; 0 if there is none.
    pub backing_file_offset: u64,
    /// Entries of the first-level table.
    pub l1_size: u32,
    /// Where the first-level table stands.
    pub l1_table_offset: u64,
    /// Features that a reader must know; 0 in version 2.
    pub incompatible_features: u64,
}

/// The header that the first bytes of a file hold.
pub open spec fn parsed_header(buf: Seq<u8>) -> Result<Qcow2Header, CelError> {
    let version = util::be_at(buf, 4, 4) as u32;
    let bits = util::be_at(buf, 20, 4) as u32;
    if buf.len() < 72 {
        Err(CelError::Invalid("qcow2: header truncated"))
    } else if !util::matches_at(buf, 0, crate::image::format::qcow2_magic()) {
        Err(CelError::Invalid("qcow2: bad magic"))
    } else if version != 2 && version != 3 {
        Err(CelError::Invalid("qcow2: only v2/v3 supported"))
    } else if bits >= 64 {
        Err(CelError::Invalid("qcow2: cluster_bits out of range"))
    } else {
        Ok(
            Qcow2Header {
                version,
                cluster_bits: bits,
                cluster_size: 1u64 << bits,
                size: util::be_at(buf, 24, 8) as u64,
                crypt_method: util::be_at(buf, 32, 4) as u32,
                backing_file_offset: util::be_at(buf, 8, 8) as u64,
                l1_size: util::be_at(buf, 36, 4) as u32,
                l1_table_offset: util::be_at(buf, 40, 8) as u64,
                incompatible_features: if version >= 3 && buf.len() >= 80 {
                    util::be_at(buf, 72, 8) as u64
                } else {
                    0
                },
            },
        )
    }
}

/// Decodes the header from the first bytes of a file, of which up to
/// [`HEADER_BYTES`] count.
pub fn parse_header(buf: &[u8]) -> (r: CelResult<Qcow2Header>)
    ensures
        r == parsed_header(buf@),
{
    if buf.len() < 72 {
        return Err(CelError::Invalid("qcow2: header truncated"));
    }
    if !is_qcow2(buf) {
        return Err(CelError::Invalid("qcow2: bad magic"));
    }
    let version: u32 = be_u32(buf, 4)?;
    if version != 2 && version != 3 {
        return Err(CelError::Invalid("qcow2: only v2/v3 supported"));
    }
    let backing_file_offset: u64 = be_u64(buf, 8)?;
    let cluster_bits: u32 = be_u32(buf, 20)?;
    let size: u64 = be_u64(buf, 24)?;
    let crypt_method: u32 = be_u32(buf, 32)?;
    let l1_size: u32 = be_u32(buf, 36)?;
    let l1_table_offset: u64 = be_u64(buf, 40)?;
    let incompatible_features: u64 = if version >= 3 && buf.len() >= 80 {
        be_u64(buf, 72)?
    } else {
        0
    };
    if cluster_bits >= 64 {
        return Err(CelError::Invalid("qcow2: cluster_bits out of range"));
    }
    Ok(
        Qcow2Header {
            version,
            cluster_bits,
            cluster_size: 1u64 << cluster_bits,
            size,
            crypt_method,
            backing_file_offset,
            l1_size,
            l1_table_offset,
            incompatible_features,
        },
    )
}

/// Why a header is refused, if it is.
pub open spec fn refusal(h: Qcow2Header) -> Option<CelError> {
    if !(9 <= h.cluster_bits <= 21) {
        Some(CelError::Invalid("qcow2: cluster_bits outside spec range 9..=21"))
    } else if h.crypt_method != 0 {
        Some(CelError::Invalid("qcow2: encrypted images not supported"))
    } else if h.backing_file_offset != 0 {
        Some(CelError::Invalid("qcow2: backing-file chains not supported"))
    } else if h.l1_table_offset == 0 || h.l1_table_offset % 512 != 0 {
        Some(CelError::Invalid("qcow2: invalid l1_table_offset"))
    } else if h.version >= 3 && h.incompatible_features & UNSUPPORTED != 0 {
        Some(
            CelError::Invalid(
                "qcow2: incompatible_features bit not supported (compress/extended-l2)",
            ),
        )
    } else {
        None
    }
}

/// Checks that an image with this header can be read.
pub fn validate_header(h: &Qcow2Header) -> (r: CelResult<()>)
    ensures
        match refusal(*h) {
            None => r is Ok,
            Some(e) => r == Err::<(), CelError>(e),
        },
{
    if !(9 <= h.cluster_bits && h.cluster_bits <= 21) {
        return Err(CelError::Invalid("qcow2: cluster_bits outside spec range 9..=21"));
    }
    if h.crypt_method != 0 {
        return Err(CelError::Invalid("qcow2: encrypted images not supported"));
    }
    if h.backing_file_offset != 0 {
        return Err(CelError::Invalid("qcow2: backing-file chains not supported"));
    }
    if h.l1_table_offset == 0 || h.l1_table_offset % 512 != 0 {
        return Err(CelError::Invalid("qcow2: invalid l1_table_offset"));
    }
    if h.version >= 3 && h.incompatible_features & UNSUPPORTED != 0 {
        return Err(
            CelError::Invalid(
                "qcow2: incompatible_features bit not supported (compress/extended-l2)",
            ),
        );
    }
    Ok(())
}

/// A header that was parsed and is not refused.
pub open spec fn sound(h: Qcow2Header) -> bool {
    refusal(h) is None && h.cluster_size == 1u64 << h.cluster_bits
}

/// Cluster sizes lie between 512 bytes and 2 MiB.
pub proof fn lemma_cluster_size(h: Qcow2Header)
    requires
        sound(h),
    ensures
        512 <= h.cluster_size <= 0x20_0000,
{
    let b = h.cluster_bits;
    assert(9 <= b <= 21 ==> 512u64 <= (1u64 << b) <= 0x20_0000u64) by (bit_vector);
}

/// How the disk maps to the file: the header and the first-level table.
#[derive(Debug)]
pub struct Qcow2Map {
    /// Header.
    pub header: Qcow2Header,
    /// First-level table.
    pub l1: Vec<u64>,
}

/// Where the search for a byte of the disk leads, after the first level.
#[derive(Debug, Clone, Copy, PartialEq, Eq, Structural)]
pub enum Qcow2Spot {
    /// The search is over.
    Found(Piece),
    /// The entry of the second level has to be read.
    Entry {
        /// Where in the file the 8 bytes of the entry stand.
        at: u64,
        /// Position within the cluster.
        intra: u64,
        /// Length of the run.
        take: usize,
    },
}

/// Mathematical value of a [`Qcow2Spot`].
pub enum Qcow2SpotView {
    /// See [`Qcow2Spot::Found`].
    Found(PieceView),
    /// See [`Qcow2Spot::Entry`].
    Entry {
        /// Where in the file the 8 bytes of the entry stand.
        at: nat,
        /// Position within the cluster.
        intra: nat,
        /// Length of the run.
        take: nat,
    },
}

impl View for Qcow2Spot {
    type V = Qcow2SpotView;

    open spec fn view(&self) -> Qcow2SpotView {
        match self {
            Qcow2Spot::Found(p) => Qcow2SpotView::Found(p@),
            Qcow2Spot::Entry { at, intra, take } => Qcow2SpotView::Entry {
                at: *at as nat,
                intra: *intra as nat,
                take: *take as nat,
            },
        }
    }
}

/// The first level of the search for `len` bytes at `offset`.
pub open spec fn located(h: Qcow2Header, l1: Seq<u64>, offset: nat, len: nat) -> Result<
    Qcow2SpotView,
    ErrorView,
> {
    let cs = h.cluster_size as nat;
    let cluster = offset / cs;
    let per_table = cs / 8;
    let take = disk::run_len(h.size as nat, cs, offset, len);
    if cluster / per_table >= l1.len() {
        Err(ErrorView::Invalid("qcow2: l1 index past l1 table"@))
    } else {
        let table = l1[(cluster / per_table) as int] & OFFSET_MASK;
        if table == 0 {
            Ok(Qcow2SpotView::Found(PieceView::Zeros { len: take }))
        } else {
            Ok(
                Qcow2SpotView::Entry {
                    at: table as nat + cluster % per_table * 8,
                    intra: offset % cs,
                    take,
                },
            )
        }
    }
}

/// The second level of the search, once the entry is known.
pub open spec fn resolved(version: u32, entry: u64, intra: nat, take: nat) -> Result<
    PieceView,
    ErrorView,
> {
    if entry & COMPRESSED != 0 {
        Err(ErrorView::Invalid("qcow2: compressed cluster not supported"@))
    } else if version >= 3 && entry & ZERO_CLUSTER != 0 {
        Ok(PieceView::Zeros { len: take })
    } else if entry & OFFSET_MASK == 0 {
        Ok(PieceView::Zeros { len: take })
    } else {
        Ok(PieceView::Data { at: (entry & OFFSET_MASK) as nat + intra, len: take })
    }
}

impl Qcow2Map {
    /// The header is sound.
    pub open spec fn wf(&self) -> bool {
        sound(self.header)
    }

    /// Decodes the first-level table, which `raw` holds.
    pub fn new(header: Qcow2Header, raw: &[u8]) -> (r: Qcow2Map)
        requires
            sound(header),
        ensures
            r.wf(),
            r.header == header,
            r.l1@ == util::be64_table(raw@),
    {
        Qcow2Map { header, l1: be64_entries(raw) }
    }

    /// First level of the search for `len` bytes at `offset`.
    pub fn locate(&self, offset: u64, len: usize) -> (r: CelResult<Qcow2Spot>)
        requires
            self.wf(),
            offset < self.header.size,
        ensures
            error::result_view(r) == located(self.header, self.l1@, offset as nat, len as nat),
    {
        proof {
            lemma_cluster_size(self.header);
        }
        let cs: u64 = self.header.cluster_size;
        let take: usize = run_length(self.header.size, cs, offset, len);
        let cluster: u64 = offset / cs;
        let per_table: u64 = cs / 8;
        let l1_index: u64 = cluster / per_table;
        let l2_index: u64 = cluster % per_table;
        if l1_index >= self.l1.len() as u64 {
            return Err(CelError::Invalid("qcow2: l1 index past l1 table"));
        }
        let entry: u64 = self.l1[l1_index as usize];
        let table: u64 = entry & OFFSET_MASK;
        if table == 0 {
            return Ok(Qcow2Spot::Found(Piece::Zeros { len: take }));
        }
        assert(entry & 0x00ff_ffff_ffff_fe00 <= 0x00ff_ffff_ffff_fe00) by (bit_vector);
        Ok(Qcow2Spot::Entry { at: table + l2_index * 8, intra: offset % cs, take })
    }

    /// Second level of the search, from the entry that was read.
    pub fn resolve(&self, entry: u64, intra: u64, take: usize) -> (r: CelResult<Piece>)
        requires
            self.wf(),
            intra < self.header.cluster_size,
        ensures
            error::result_view(r) == resolved(
                self.header.version,
                entry,
                intra as nat,
                take as nat,
            ),
    {
        if entry & COMPRESSED != 0 {
            return Err(CelError::Invalid("qcow2: compressed cluster not supported"));
        }
        if self.header.version >= 3 && entry & ZERO_CLUSTER != 0 {
            return Ok(Piece::Zeros { len: take });
        }
        let data: u64 = entry & OFFSET_MASK;
        if data == 0 {
            return Ok(Piece::Zeros { len: take });
        }
        proof {
            lemma_cluster_size(self.header);
            assert(entry & 0x00ff_ffff_ffff_fe00 <= 0x00ff_ffff_ffff_fe00) by (bit_vector);
        }
        Ok(Piece::Data { at: data + intra, len: take })
    }
}

/// A qcow2 image.
#[derive(Debug)]
pub struct Qcow2Image {
    path: String,
    file: Vec<u8>,
    map: Qcow2Map,
}

/// Mathematical value of a [`Qcow2Image`].
#[verifier::ext_equal]
pub struct Qcow2View {
    /// Where the image was opened.
    pub path: Seq<char>,
    /// Bytes of the file.
    pub file: Seq<u8>,
    /// Header.
    pub header: Qcow2Header,
    /// First-level table.
    pub l1: Seq<u64>,
}

impl View for Qcow2Image {
    type V = Qcow2View;

    closed spec fn view(&self) -> Qcow2View {
        Qcow2View {
            path: self.path@,
            file: self.file@,
            header: self.map.header,
            l1: self.map.l1@,
        }
    }
}

/// The failure of a read that the file does not reach.
pub open spec fn short_of(what: Seq<char>, path: Seq<char>) -> ErrorView {
    ErrorView::Storage(what + path + ": failed to fill whole buffer"@)
}

/// See [`short_of`].
fn short(what: &str, path: &str) -> (r: CelError)
    ensures
        r@ == short_of(what@, path@),
{
    let mut s = concat(what, path);
    s.append(": failed to fill whole buffer");
    CelError::Storage(s)
}

/// The image that a file holds.
pub open spec fn opened(path: Seq<char>, file: Seq<u8>) -> Result<Qcow2View, ErrorView> {
    match parsed_header(util::clip(file, 0, HEADER_BYTES as nat)) {
        Err(e) => Err(e@),
        Ok(h) => match refusal(h) {
            Some(e) => Err(e@),
            None => if h.l1_table_offset > MAX_SEEK {
                Err(util::unseekable("seek l1 "@ + path))
            } else {
                match util::fetched(file, h.l1_table_offset as nat, h.l1_size as nat * 8) {
                    None => Err(short_of("read l1 "@, path)),
                    Some(raw) => Ok(
                        Qcow2View { path, file, header: h, l1: util::be64_table(raw) },
                    ),
                }
            },
        },
    }
}

/// The bytes of a run that was found; a file that ends early cuts it short.
pub open spec fn shown(file: Seq<u8>, p: PieceView) -> Seq<u8> {
    match p {
        PieceView::Zeros { len } => disk::zeros(len),
        PieceView::Data { at, len } => util::clip(file, at, len),
    }
}

/// What a read of an image gives: one run, within a cluster.
pub open spec fn reading(v: Qcow2View, offset: nat, len: nat) -> Result<Seq<u8>, ErrorView> {
    if len == 0 || offset >= v.header.size {
        Ok(Seq::empty())
    } else {
        match located(v.header, v.l1, offset, len) {
            Err(e) => Err(e),
            Ok(Qcow2SpotView::Found(p)) => Ok(shown(v.file, p)),
            Ok(Qcow2SpotView::Entry { at, intra, take }) => match util::fetched(v.file, at, 8) {
                None => Err(short_of("read l2 "@, v.path)),
                Some(b) => match resolved(
                    v.header.version,
                    util::be_nat(b) as u64,
                    intra,
                    take,
                ) {
                    Err(e) => Err(e),
                    Ok(p) => Ok(shown(v.file, p)),
                },
            },
        }
    }
}

impl Qcow2Image {
    /// Opens the file `file`, found at `path`.
    pub fn open(path: &str, file: Vec<u8>) -> (r: CelResult<Qcow2Image>)
        ensures
            error::result_view(r) == opened(path@, file@),
            r matches Ok(i) ==> i.wf(),
    {
        let head = read_up_to(file.as_slice(), 0, HEADER_BYTES);
        let h = match parse_header(head.as_slice()) {
            Ok(h) => h,
            Err(e) => {
                return Err(e);
            },
        };
        match validate_header(&h) {
            Ok(_) => {},
            Err(e) => {
                return Err(e);
            },
        }
        if h.l1_table_offset > MAX_SEEK {
            return Err(seek_failure(concat("seek l1 ", path).as_str()));
        }
        match read_whole(file.as_slice(), h.l1_table_offset, h.l1_size as u64 * 8) {
            None => Err(short("read l1 ", path)),
            Some(raw) => {
                let map = Qcow2Map::new(h, raw.as_slice());
                Ok(Qcow2Image { path: path.to_owned(), file, map })
            },
        }
    }

    /// 2 or 3.
    pub fn version(&self) -> (r: u32)
        ensures
            r == self@.header.version,
    {
        self.map.header.version
    }

    /// Cluster size in bytes.
    pub fn cluster_size(&self) -> (r: u64)
        ensures
            r == self@.header.cluster_size,
    {
        self.map.header.cluster_size
    }

    /// Number of entries of the first-level table.
    pub fn l1_len(&self) -> (r: usize)
        ensures
            r == self@.l1.len(),
    {
        self.map.l1.len()
    }

    /// The bytes of a run that was found.
    fn show(&self, p: Piece) -> (r: Vec<u8>)
        ensures
            r@ == shown(self@.file, p@),
    {
        match p {
            Piece::Zeros { len } => zero_bytes(len),
            Piece::Data { at, len } => read_up_to(self.file.as_slice(), at, len),
        }
    }
}

/// A run is no longer than asked for and stays on the disk.
proof fn lemma_clipped(v: Qcow2View, offset: nat, len: nat)
    requires
        sound(v.header),
    ensures
        offset >= v.header.size || len == 0 ==> reading(v, offset, len) == Ok::<
            Seq<u8>,
            ErrorView,
        >(Seq::empty()),
        reading(v, offset, len) matches Ok(s) ==> s.len() <= len && (s.len() > 0 ==> offset
            + s.len() <= v.header.size),
{
    lemma_cluster_size(v.header);
    let cs = v.header.cluster_size as nat;
    assert(offset % cs < cs);
}

/// Bytes of one run come from the same place.
proof fn lemma_same_run(v: Qcow2View, offset: nat, len: nat, k: nat)
    requires
        sound(v.header),
        offset < v.header.size,
        len > 0,
        k < disk::run_len(v.header.size as nat, v.header.cluster_size as nat, offset, len),
        reading(v, offset + k, 1) is Ok,
        reading(v, offset + k, 1)->Ok_0.len() == 1,
    ensures
        reading(v, offset, len) is Ok,
        k < reading(v, offset, len)->Ok_0.len(),
        reading(v, offset, len)->Ok_0[k as int] == reading(v, offset + k, 1)->Ok_0[0],
{
    lemma_cluster_size(v.header);
    let cs = v.header.cluster_size as nat;
    assert(offset % cs < cs);
    util::lemma_same_unit(offset, k, cs);
    let take = disk::run_len(v.header.size as nat, cs, offset, len);
    assert(disk::run_len(v.header.size as nat, cs, offset + k, 1) == 1);
}

proof fn lemma_shows(v: Qcow2View, c: Seq<u8>, offset: nat, len: nat)
    requires
        sound(v.header),
        c.len() == v.header.size,
        forall|i: nat| i < c.len() ==> #[trigger] reading(v, i, 1) == Ok::<Seq<u8>, ErrorView>(
            seq![c[i as int]],
        ),
        offset < c.len(),
        len > 0,
    ensures
        disk::reads_a_run(reading(v, offset, len), c, offset, len),
{
    lemma_cluster_size(v.header);
    lemma_clipped(v, offset, len);
    let cs = v.header.cluster_size as nat;
    assert(offset % cs < cs);
    let take = disk::run_len(v.header.size as nat, cs, offset, len);
    assert(reading(v, offset + 0, 1) == Ok::<Seq<u8>, ErrorView>(seq![c[offset as int]]));
    lemma_same_run(v, offset, len, 0);
    let s = reading(v, offset, len)->Ok_0;
    assert(s.len() <= take);
    assert forall|i: int| 0 <= i < s.len() implies s[i] == c[offset + i] by {
        let k = i as nat;
        assert(reading(v, offset + k, 1) == Ok::<Seq<u8>, ErrorView>(
            seq![c[(offset + k) as int]],
        ));
        lemma_same_run(v, offset, len, k);
    }
    assert(s =~= c.subrange(offset as int, (offset + s.len()) as int));
}

impl Qcow2Image {
    /// Reads up to `len` bytes at `offset`, no further than the cluster goes.
    fn in_cluster(&self, offset: u64, len: usize) -> (r: CelResult<Vec<u8>>)
        requires
            self.wf(),
        ensures
            error::result_view(r) == reading(self@, offset as nat, len as nat),
    {
        if len == 0 || offset >= self.map.header.size {
            return Ok(Vec::new());
        }
        let spot = match self.map.locate(offset, len) {
            Ok(s) => s,
            Err(e) => {
                return Err(e);
            },
        };
        match spot {
            Qcow2Spot::Found(p) => Ok(self.show(p)),
            Qcow2Spot::Entry { at, intra, take } => {
                match read_whole(self.file.as_slice(), at, 8) {
                    None => Err(short("read l2 ", self.path.as_str())),
                    Some(b) => {
                        assert(b@.subrange(0, 8) =~= b@);
                        let entry: u64 = be_u64(b.as_slice(), 0)?;
                        proof {
                            lemma_cluster_size(self.map.header);
                        }
                        match self.map.resolve(entry, intra, take) {
                            Ok(p) => Ok(self.show(p)),
                            Err(e) => Err(e),
                        }
                    },
                }
            },
        }
    }
}

impl DiskImage for Qcow2Image {
    open spec fn wf(&self) -> bool {
        sound(self@.header)
    }

    open spec fn summary(&self) -> ImageInfo {
        ImageInfo {
            format: FormatKind::Qcow2,
            virtual_size: self@.header.size,
            cluster_size: Some(self@.header.cluster_size),
            backend: if self@.header.version == 3 {
                "qcow2-v3"
            } else {
                "qcow2-v2"
            },
        }
    }

    open spec fn reads(&self) -> spec_fn(nat, nat) -> Result<Seq<u8>, ErrorView> {
        |offset: nat, len: nat| reading(self@, offset, len)
    }

    open spec fn kept(&self, offset: nat, len: nat) -> Seq<u8> {
        Seq::empty()
    }

    proof fn law_read_is_clipped(&self, offset: nat, len: nat) {
        lemma_clipped(self@, offset, len);
    }

    proof fn law_read_shows_content(&self, c: Seq<u8>, offset: nat, len: nat) {
        assert forall|i: nat| i < c.len() implies #[trigger] reading(self@, i, 1) == Ok::<
            Seq<u8>,
            ErrorView,
        >(seq![c[i as int]]) by {
            assert(self.reads()(i, 1) == Ok::<Seq<u8>, ErrorView>(seq![c[i as int]]));
        }
        lemma_shows(self@, c, offset, len);
    }

    fn info(&self) -> (r: ImageInfo) {
        ImageInfo {
            format: FormatKind::Qcow2,
            virtual_size: self.map.header.size,
            cluster_size: Some(self.map.header.cluster_size),
            backend: if self.map.header.version == 3 {
                "qcow2-v3"
            } else {
                "qcow2-v2"
            },
        }
    }

    fn gather(&self, offset: u64, len: usize) -> (r: (Vec<u8>, Option<CelError>)) {
        match self.in_cluster(offset, len) {
            Ok(bytes) => (bytes, None),
            Err(e) => (Vec::new(), Some(e)),
        }
    }
}

/// A cluster that is not allocated, or marked as zeros, reads as zeros.
pub proof fn law_empty_cluster_reads_as_zeros(
    v: Qcow2View,
    offset: nat,
    len: nat,
    at: nat,
    intra: nat,
    take: nat,
)
    requires
        sound(v.header),
        offset < v.header.size,
        len > 0,
        located(v.header, v.l1, offset, len) == Ok::<Qcow2SpotView, ErrorView>(
            Qcow2SpotView::Entry { at, intra, take },
        ),
        util::fetched(v.file, at, 8) matches Some(b) && ({
            let entry = util::be_nat(b) as u64;
            &&& entry & COMPRESSED == 0
            &&& entry & OFFSET_MASK == 0 || (v.header.version >= 3 && entry & ZERO_CLUSTER != 0)
        }),
    ensures
        reading(v, offset, len) == Ok::<Seq<u8>, ErrorView>(disk::zeros(take)),
{
}

/// Where no second-level table is allocated, a read gives zeros.
pub proof fn law_hole_reads_as_zeros(v: Qcow2View, offset: nat, len: nat)
    requires
        sound(v.header),
        offset < v.header.size,
        len > 0,
        offset / v.header.cluster_size as nat / (v.header.cluster_size as nat / 8) < v.l1.len(),
        v.l1[(offset / v.header.cluster_size as nat / (v.header.cluster_size as nat / 8)) as int]
            & OFFSET_MASK == 0,
    ensures
        reading(v, offset, len) == Ok::<Seq<u8>, ErrorView>(
            disk::zeros(
                disk::run_len(v.header.size as nat, v.header.cluster_size as nat, offset, len),
            ),
        ),
{
}

} // verus!
