//! An image of whatever format.

use vstd::prelude::*;

use crate::error::{CelError, CelResult, ErrorView};
use crate::image::disk::{DiskImage, ImageInfo};
use crate::image::format::{detect_format, FormatKind};
use crate::image::qcow2;
use crate::image::qcow2::Qcow2Image;
use crate::image::raw::RawImage;
use crate::image::vhdx;
use crate::image::vhdx::VhdxImage;
use crate::image::vmdk;
use crate::image::vmdk::VmdkImage;

verus! {

/// An image of one of the formats that are recognised.
#[derive(Debug)]
pub enum AnyImage {
    /// See [`RawImage`].
    Raw(RawImage),
    /// See [`Qcow2Image`].
    Qcow2(Qcow2Image),
    /// See [`VmdkImage`].
    Vmdk(VmdkImage),
    /// See [`VhdxImage`].
    Vhdx(VhdxImage),
}

/// Whether `r` is what opening a file gives: the format that its first bytes
/// tell, and what the reader of that format makes of it.
pub open spec fn opened_as(path: Seq<char>, file: Seq<u8>, r: CelResult<AnyImage>) -> bool {
    match crate::image::format::detected(file) {
        None => r == Err::<AnyImage, CelError>(CelError::Invalid("image is empty")),
        Some(FormatKind::Raw) => r matches Ok(AnyImage::Raw(i)) && i.bytes() == file && i.name()
            == path,
        Some(FormatKind::Qcow2) => match qcow2::opened(path, file) {
            Ok(v) => r matches Ok(AnyImage::Qcow2(i)) && i@ == v,
            Err(f) => r matches Err(e) && e@ == f,
        },
        Some(FormatKind::Vmdk) => match vmdk::opened(path, file) {
            Ok(v) => r matches Ok(AnyImage::Vmdk(i)) && i@ == v,
            Err(f) => r matches Err(e) && e@ == f,
        },
        Some(FormatKind::Vhdx) => match vhdx::opened(path, file) {
            Ok(v) => r matches Ok(AnyImage::Vhdx(i)) && i@ == v,
            Err(f) => r matches Err(e) && e@ == f,
        },
    }
}

/// Opens the file `file`, found at `path`, in the format that its first bytes
/// tell.
pub fn open(path: &str, file: Vec<u8>) -> (r: CelResult<AnyImage>)
    ensures
        opened_as(path@, file@, r),
        r matches Ok(i) ==> i.wf(),
{
    match detect_format(file.as_slice()) {
        Err(e) => Err(e),
        Ok(FormatKind::Raw) => match RawImage::open(path, file) {
            Ok(i) => Ok(AnyImage::Raw(i)),
            Err(e) => Err(e),
        },
        Ok(FormatKind::Qcow2) => match Qcow2Image::open(path, file) {
            Ok(i) => Ok(AnyImage::Qcow2(i)),
            Err(e) => Err(e),
        },
        Ok(FormatKind::Vmdk) => match VmdkImage::open(path, file) {
            Ok(i) => Ok(AnyImage::Vmdk(i)),
            Err(e) => Err(e),
        },
        Ok(FormatKind::Vhdx) => match VhdxImage::open(path, file) {
            Ok(i) => Ok(AnyImage::Vhdx(i)),
            Err(e) => Err(e),
        },
    }
}

/// Opens a file and gives the summary of its image.
pub fn inspect(path: &str, file: Vec<u8>) -> (r: CelResult<ImageInfo>)
    ensures
        exists|o: CelResult<AnyImage>| #[trigger]
            opened_as(path@, file@, o) && match o {
                Ok(i) => r == Ok::<ImageInfo, CelError>(i.summary()),
                Err(e) => r == Err::<ImageInfo, CelError>(e),
            },
{
    let ghost bytes = file@;
    let o = open(path, file);
    assert(opened_as(path@, bytes, o));
    match o {
        Ok(i) => Ok(i.info()),
        Err(e) => Err(e),
    }
}

impl DiskImage for AnyImage {
    open spec fn wf(&self) -> bool {
        match self {
            AnyImage::Raw(i) => i.wf(),
            AnyImage::Qcow2(i) => i.wf(),
            AnyImage::Vmdk(i) => i.wf(),
            AnyImage::Vhdx(i) => i.wf(),
        }
    }

    open spec fn summary(&self) -> ImageInfo {
        match self {
            AnyImage::Raw(i) => i.summary(),
            AnyImage::Qcow2(i) => i.summary(),
            AnyImage::Vmdk(i) => i.summary(),
            AnyImage::Vhdx(i) => i.summary(),
        }
    }

    open spec fn reads(&self) -> spec_fn(nat, nat) -> Result<Seq<u8>, ErrorView> {
        match self {
            AnyImage::Raw(i) => i.reads(),
            AnyImage::Qcow2(i) => i.reads(),
            AnyImage::Vmdk(i) => i.reads(),
            AnyImage::Vhdx(i) => i.reads(),
        }
    }

    open spec fn kept(&self, offset: nat, len: nat) -> Seq<u8> {
        match self {
            AnyImage::Raw(i) => i.kept(offset, len),
            AnyImage::Qcow2(i) => i.kept(offset, len),
            AnyImage::Vmdk(i) => i.kept(offset, len),
            AnyImage::Vhdx(i) => i.kept(offset, len),
        }
    }

    proof fn law_read_is_clipped(&self, offset: nat, len: nat) {
        match self {
            AnyImage::Raw(i) => i.law_read_is_clipped(offset, len),
            AnyImage::Qcow2(i) => i.law_read_is_clipped(offset, len),
            AnyImage::Vmdk(i) => i.law_read_is_clipped(offset, len),
            AnyImage::Vhdx(i) => i.law_read_is_clipped(offset, len),
        }
    }

    proof fn law_read_shows_content(&self, c: Seq<u8>, offset: nat, len: nat) {
        match self {
            AnyImage::Raw(i) => i.law_read_shows_content(c, offset, len),
            AnyImage::Qcow2(i) => i.law_read_shows_content(c, offset, len),
            AnyImage::Vmdk(i) => i.law_read_shows_content(c, offset, len),
            AnyImage::Vhdx(i) => i.law_read_shows_content(c, offset, len),
        }
    }

    fn info(&self) -> (r: ImageInfo) {
        match self {
            AnyImage::Raw(i) => i.info(),
            AnyImage::Qcow2(i) => i.info(),
            AnyImage::Vmdk(i) => i.info(),
            AnyImage::Vhdx(i) => i.info(),
        }
    }

    fn gather(&self, offset: u64, len: usize) -> (r: (Vec<u8>, Option<CelError>)) {
        let out = match self {
            AnyImage::Raw(i) => i.gather(offset, len),
            AnyImage::Qcow2(i) => i.gather(offset, len),
            AnyImage::Vmdk(i) => i.gather(offset, len),
            AnyImage::Vhdx(i) => i.gather(offset, len),
        };
        assert(out.1 is Some ==> out.0@ =~= self.kept(offset as nat, len as nat));
        out
    }
}

} // verus!
