//! Raw disk images: the file is the disk.

use vstd::prelude::*;

use crate::error::{CelError, CelResult, ErrorView};
use crate::image::disk;
use crate::image::disk::{DiskImage, ImageInfo};
use crate::image::format::FormatKind;
use crate::image::util;
use crate::image::util::read_up_to;

verus! {

/// A raw image.
#[derive(Debug)]
pub struct RawImage {
    path: String,
    file: Vec<u8>,
}

impl RawImage {
    /// The bytes of the file.
    pub closed spec fn bytes(&self) -> Seq<u8> {
        self.file@
    }

    /// See [`RawImage::path`].
    pub closed spec fn name(&self) -> Seq<char> {
        self.path@
    }

    /// Opens the file `file`, found at `path`.
    pub fn open(path: &str, file: Vec<u8>) -> (r: CelResult<RawImage>)
        ensures
            r is Ok,
            r->Ok_0.wf(),
            r->Ok_0.bytes() == file@,
            r->Ok_0.name() == path@,
    {
        let n: usize = file.len();
        assert(n <= u64::MAX);
        Ok(RawImage { path: path.to_owned(), file })
    }

    /// Where the image was opened.
    pub fn path(&self) -> (r: &str)
        ensures
            r@ == self.name(),
    {
        self.path.as_str()
    }
}

impl DiskImage for RawImage {
    open spec fn wf(&self) -> bool {
        self.bytes().len() <= u64::MAX
    }

    open spec fn summary(&self) -> ImageInfo {
        ImageInfo {
            format: FormatKind::Raw,
            virtual_size: self.bytes().len() as u64,
            cluster_size: None,
            backend: "raw",
        }
    }

    open spec fn reads(&self) -> spec_fn(nat, nat) -> Result<Seq<u8>, ErrorView> {
        |offset: nat, len: nat| Ok(util::clip(self.bytes(), offset, len))
    }

    open spec fn kept(&self, offset: nat, len: nat) -> Seq<u8> {
        Seq::empty()
    }

    proof fn law_read_is_clipped(&self, offset: nat, len: nat) {
        if len == 0 {
            assert(util::clip(self.bytes(), offset, 0) =~= Seq::empty());
        }
    }

    proof fn law_read_shows_content(&self, c: Seq<u8>, offset: nat, len: nat) {
        let f = self.bytes();
        assert forall|i: int| 0 <= i < c.len() implies c[i] == f[i] by {
            assert(self.reads()(i as nat, 1) == Ok::<Seq<u8>, ErrorView>(seq![c[i]]));
            assert(util::clip(f, i as nat, 1)[0] == f[i]);
            assert(seq![c[i]][0] == c[i]);
        }
        let s = util::clip(f, offset, len);
        assert(s =~= c.subrange(offset as int, (offset + s.len()) as int));
    }

    fn info(&self) -> (r: ImageInfo) {
        ImageInfo {
            format: FormatKind::Raw,
            virtual_size: self.file.len() as u64,
            cluster_size: None,
            backend: "raw",
        }
    }

    fn gather(&self, offset: u64, len: usize) -> (r: (Vec<u8>, Option<CelError>)) {
        (read_up_to(self.file.as_slice(), offset, len), None)
    }
}

/// The disk in a raw image is the file, byte for byte.
pub proof fn law_disk_is_the_file(image: &RawImage)
    requires
        image.wf(),
    ensures
        image.summary().virtual_size == image.bytes().len(),
        disk::holds_content(image.reads(), image.bytes()),
{
    let f = image.bytes();
    assert forall|i: nat| i < f.len() implies #[trigger] image.reads()(i, 1) == Ok::<
        Seq<u8>,
        ErrorView,
    >(seq![f[i as int]]) by {
        assert(util::clip(f, i, 1) =~= seq![f[i as int]]);
    }
}

} // verus!
