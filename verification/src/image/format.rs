//! Detection of the format of a disk image.

use vstd::prelude::*;

use crate::error::{CelError, CelResult};
use crate::image::util;
use crate::image::util::found_at;

verus! {

/// The formats that are recognised.
#[derive(Debug, Clone, Copy, PartialEq, Eq, Hash, Structural)]
pub enum FormatKind {
    /// No header at all.
    Raw,
    /// QEMU qcow2, version 2 or 3.
    Qcow2,
    /// VMware VMDK, sparse.
    Vmdk,
    /// Microsoft VHDX.
    Vhdx,
}

/// The stable name of a format.
pub open spec fn tag_of(k: FormatKind) -> &'static str {
    match k {
        FormatKind::Raw => "raw",
        FormatKind::Qcow2 => "qcow2",
        FormatKind::Vmdk => "vmdk",
        FormatKind::Vhdx => "vhdx",
    }
}

impl FormatKind {
    /// Stable lowercase identifier.
    pub fn tag(self) -> (r: &'static str)
        ensures
            r == tag_of(self),
    {
        match self {
            FormatKind::Raw => "raw",
            FormatKind::Qcow2 => "qcow2",
            FormatKind::Vmdk => "vmdk",
            FormatKind::Vhdx => "vhdx",
        }
    }
}

/// The first bytes of a qcow2 file: `QFI` and `0xfb`.
pub open spec fn qcow2_magic() -> Seq<u8> {
    seq![0x51, 0x46, 0x49, 0xfb]
}

/// The first bytes of a sparse VMDK file: `KDMV`.
pub open spec fn vmdk_magic() -> Seq<u8> {
    seq![0x4b, 0x44, 0x4d, 0x56]
}

/// The first bytes of a VHDX file: `vhdxfile`.
pub open spec fn vhdx_magic() -> Seq<u8> {
    seq![0x76, 0x68, 0x64, 0x78, 0x66, 0x69, 0x6c, 0x65]
}

/// The format of a file that starts with `header`; nothing for an empty file.
pub open spec fn detected(header: Seq<u8>) -> Option<FormatKind> {
    if header.len() == 0 {
        None
    } else if util::matches_at(header, 0, qcow2_magic()) {
        Some(FormatKind::Qcow2)
    } else if util::matches_at(header, 0, vmdk_magic()) {
        Some(FormatKind::Vmdk)
    } else if util::matches_at(header, 0, vhdx_magic()) {
        Some(FormatKind::Vhdx)
    } else {
        Some(FormatKind::Raw)
    }
}

/// Whether a buffer starts as a qcow2 file does.
pub fn is_qcow2(header: &[u8]) -> (r: bool)
    ensures
        r == util::matches_at(header@, 0, qcow2_magic()),
{
    let m: [u8; 4] = [0x51, 0x46, 0x49, 0xfb];
    assert(m@ =~= qcow2_magic());
    found_at(header, 0, m.as_slice())
}

/// Whether a buffer starts as a sparse VMDK file does.
pub fn is_vmdk(header: &[u8]) -> (r: bool)
    ensures
        r == util::matches_at(header@, 0, vmdk_magic()),
{
    let m: [u8; 4] = [0x4b, 0x44, 0x4d, 0x56];
    assert(m@ =~= vmdk_magic());
    found_at(header, 0, m.as_slice())
}

/// Whether a buffer starts as a VHDX file does.
pub fn is_vhdx(header: &[u8]) -> (r: bool)
    ensures
        r == util::matches_at(header@, 0, vhdx_magic()),
{
    let m: [u8; 8] = [0x76, 0x68, 0x64, 0x78, 0x66, 0x69, 0x6c, 0x65];
    assert(m@ =~= vhdx_magic());
    found_at(header, 0, m.as_slice())
}

/// The format of a file, from its first bytes.
pub fn detect_from_bytes(header: &[u8]) -> (r: CelResult<FormatKind>)
    ensures
        match r {
            Ok(k) => detected(header@) == Some(k),
            Err(e) => detected(header@) is None && e == CelError::Invalid("image is empty"),
        },
{
    if header.len() == 0 {
        return Err(CelError::Invalid("image is empty"));
    }
    if is_qcow2(header) {
        return Ok(FormatKind::Qcow2);
    }
    if is_vmdk(header) {
        return Ok(FormatKind::Vmdk);
    }
    if is_vhdx(header) {
        return Ok(FormatKind::Vhdx);
    }
    Ok(FormatKind::Raw)
}

/// How many bytes of a file decide its format.
pub const SNIFF_BYTES: usize = 16;

/// The format of a file, from its bytes.
pub fn detect_format(file: &[u8]) -> (r: CelResult<FormatKind>)
    ensures
        match r {
            Ok(k) => detected(file@) == Some(k),
            Err(e) => detected(file@) is None && e == CelError::Invalid("image is empty"),
        },
{
    let head = util::read_up_to(file, 0, SNIFF_BYTES);
    proof {
        law_format_is_in_the_head(file@);
    }
    detect_from_bytes(head.as_slice())
}

/// The first sixteen bytes of a file decide its format.
pub proof fn law_format_is_in_the_head(file: Seq<u8>)
    ensures
        detected(util::clip(file, 0, SNIFF_BYTES as nat)) == detected(file),
{
    let head = util::clip(file, 0, SNIFF_BYTES as nat);
    assert(head.len() == if file.len() < 16 {
        file.len()
    } else {
        16
    });
    lemma_starts(file, head, qcow2_magic());
    lemma_starts(file, head, vmdk_magic());
    lemma_starts(file, head, vhdx_magic());
}

/// A short pattern starts a file if it starts its head.
proof fn lemma_starts(file: Seq<u8>, head: Seq<u8>, pat: Seq<u8>)
    requires
        pat.len() <= SNIFF_BYTES,
        head == util::clip(file, 0, SNIFF_BYTES as nat),
    ensures
        util::matches_at(head, 0, pat) == util::matches_at(file, 0, pat),
{
    let n = pat.len() as int;
    if file.len() == 0 {
        assert(head =~= file);
    } else if n <= file.len() {
        assert(head.subrange(0, n) =~= file.subrange(0, n));
    }
}

} // verus!
