//! The checksum of a whole disk, and what holds of every image.

use vstd::prelude::*;

use crate::error;
use crate::error::{CelError, CelResult, ErrorView};
use crate::image::disk;
use crate::image::disk::DiskImage;
use crate::image::util;
use crate::image::util::crc32c_continue;

verus! {

/// How many bytes are read at a time.
pub const CHUNK: usize = 65536;

/// How much of the rest of a disk is read next.
pub open spec fn next_chunk(left: nat) -> nat {
    if left < CHUNK {
        left
    } else {
        CHUNK as nat
    }
}

/// The checksum of the bytes from `offset` to `size`, where `state` stands for
/// those before.
pub open spec fn digest_from(
    reads: spec_fn(nat, nat) -> Result<Seq<u8>, ErrorView>,
    size: nat,
    offset: nat,
    state: u32,
) -> Result<u32, ErrorView>
    decreases
            (if offset < size {
                size - offset
            } else {
                0
            }),
{
    if offset >= size {
        Ok(state ^ 0xFFFF_FFFF)
    } else {
        match reads(offset, next_chunk((size - offset) as nat)) {
            Err(e) => Err(e),
            Ok(s) => if s.len() == 0 {
                Err(ErrorView::Invalid("full_image_crc32c: short read before virtual_size"@))
            } else {
                digest_from(reads, size, offset + s.len(), util::crc_fed(state, s))
            },
        }
    }
}

/// The checksum of a disk of `size` bytes.
pub open spec fn digest(
    reads: spec_fn(nat, nat) -> Result<Seq<u8>, ErrorView>,
    size: nat,
) -> Result<u32, ErrorView> {
    if size == 0 {
        Err(ErrorView::Invalid("full_image_crc32c: virtual size is zero"@))
    } else {
        digest_from(reads, size, 0, 0xFFFF_FFFF)
    }
}

/// The CRC-32C of every byte of a disk.
pub fn full_image_crc32c<D: DiskImage>(image: &D) -> (r: CelResult<u32>)
    requires
        image.wf(),
    ensures
        error::result_view(r) == digest(image.reads(), image.summary().virtual_size as nat),
{
    let total: u64 = image.virtual_size();
    if total == 0 {
        return Err(CelError::Invalid("full_image_crc32c: virtual size is zero"));
    }
    let mut state: u32 = 0xFFFF_FFFF;
    let mut offset: u64 = 0;
    while offset < total
        invariant
            image.wf(),
            0 < total == image.summary().virtual_size,
            offset <= total,
            digest(image.reads(), total as nat) == digest_from(
                image.reads(),
                total as nat,
                offset as nat,
                state,
            ),
        decreases total - offset,
    {
        let left: u64 = total - offset;
        let want: usize = if left < CHUNK as u64 {
            left as usize
        } else {
            CHUNK
        };
        match image.read(offset, want) {
            Err(e) => {
                return Err(e);
            },
            Ok(s) => {
                proof {
                    image.law_read_is_clipped(offset as nat, want as nat);
                }
                let n: usize = s.len();
                if n == 0 {
                    return Err(
                        CelError::Invalid("full_image_crc32c: short read before virtual_size"),
                    );
                }
                state = crc32c_continue(state, s.as_slice());
                offset = offset + n as u64;
            },
        }
    }
    Ok(state ^ 0xFFFF_FFFF)
}

proof fn lemma_digest_from<D: DiskImage>(d: &D, c: Seq<u8>, offset: nat)
    requires
        d.wf(),
        c.len() == d.summary().virtual_size,
        disk::holds_content(d.reads(), c),
        offset <= c.len(),
    ensures
        digest_from(
            d.reads(),
            c.len(),
            offset,
            util::crc_fed(0xFFFF_FFFF, c.take(offset as int)),
        ) == Ok::<u32, ErrorView>(util::crc_of(c)),
    decreases c.len() - offset,
{
    if offset == c.len() {
        assert(c.take(offset as int) =~= c);
    } else {
        let want = next_chunk((c.len() - offset) as nat);
        d.law_read_shows_content(c, offset, want);
        let s = d.reads()(offset, want)->Ok_0;
        util::law_crc_streams(0xFFFF_FFFF, c.take(offset as int), s);
        assert(c.take(offset as int) + s =~= c.take((offset + s.len()) as int));
        lemma_digest_from(d, c, offset + s.len());
    }
}

/// The checksum of a disk is the CRC-32C of its bytes, in whatever runs the
/// image hands them out.
pub proof fn law_digest_is_that_of_the_content<D: DiskImage>(d: &D, c: Seq<u8>)
    requires
        d.wf(),
        c.len() == d.summary().virtual_size,
        c.len() > 0,
        disk::holds_content(d.reads(), c),
    ensures
        digest(d.reads(), c.len()) == Ok::<u32, ErrorView>(util::crc_of(c)),
{
    assert(c.take(0) =~= Seq::empty());
    lemma_digest_from(d, c, 0);
}

/// Two images of the same bytes have the same checksum, whatever their
/// formats.
pub proof fn law_digest_is_stable<A: DiskImage, B: DiskImage>(a: &A, b: &B, c: Seq<u8>)
    requires
        a.wf(),
        b.wf(),
        c.len() == a.summary().virtual_size,
        c.len() == b.summary().virtual_size,
        disk::holds_content(a.reads(), c),
        disk::holds_content(b.reads(), c),
    ensures
        digest(a.reads(), c.len()) == digest(b.reads(), c.len()),
{
    if c.len() > 0 {
        law_digest_is_that_of_the_content(a, c);
        law_digest_is_that_of_the_content(b, c);
    }
}

/// Filling a buffer gives the bytes of the disk if the disk reaches that far,
/// and fails with a short read if it does not.
pub proof fn law_exact_read<D: DiskImage>(d: &D, c: Seq<u8>, offset: nat, len: nat)
    requires
        d.wf(),
        c.len() == d.summary().virtual_size,
        disk::holds_content(d.reads(), c),
        len > 0,
    ensures
        disk::filled(d.reads(), offset, len) == if offset + len <= c.len() {
            Ok(c.subrange(offset as int, (offset + len) as int))
        } else {
            Err(ErrorView::Invalid("disk: short read"@))
        },
    decreases len,
{
    d.law_read_is_clipped(offset, len);
    if offset < c.len() {
        d.law_read_shows_content(c, offset, len);
        let s = d.reads()(offset, len)->Ok_0;
        let rest = (len - s.len()) as nat;
        if rest > 0 {
            law_exact_read(d, c, offset + s.len(), rest);
        }
        if offset + len <= c.len() {
            assert(s + c.subrange((offset + s.len()) as int, (offset + len) as int)
                =~= c.subrange(offset as int, (offset + len) as int));
            assert(s + Seq::<u8>::empty() =~= s);
        }
    }
}

} // verus!
