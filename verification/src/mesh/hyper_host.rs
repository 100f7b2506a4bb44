//! Bridge to a hypervisor kernel that runs elsewhere.
//!
//! The kernel is driven by one request at a time. [`LoopbackHyperLink`] is a
//! kernel in this process. [`CelhyperVmHost`] turns VM operations into kernel
//! requests and kernel replies into operation replies; whoever holds the link
//! carries the messages.

use std::collections::BTreeMap;

use vstd::prelude::*;
use vstd::string::*;
use vstd::utf8::*;

use crate::error::{CelError, CelResult};
use crate::image::util;
use crate::image::util::crc32c;
use crate::mesh::capabilities;
use crate::mesh::capabilities::Capabilities;
use crate::mesh::federation;
use crate::mesh::federation::{clone_text, RemoteVm, RemoteVmView, RestartPolicy};
use crate::mesh::host;
use crate::mesh::host::{
    HostResult, HostStep, HostView, MemVmHost, SlotView, StoreCall, StoreOutcome, VmState,
};
use crate::mesh::membership::NodeId;
use crate::mesh::proto::{VmOp, VmOpReply};
use crate::mesh::vault;
use crate::mesh::vault::VolumeAttachment;
use crate::text;
use crate::text::{byte_len, concat, decimal_string, hex_encode};

verus! {

/// Number of VMs that a kernel holds.
pub const HYPER_MAX_VMS: usize = 4;

/// Exit code of a guest that halts.
pub const HYPER_HLT_EXIT_CODE: u32 = 12;

/// Largest image that a kernel stages, in bytes.
pub const MAX_STAGED_IMAGE_BYTES: usize = 4096;

/// Longest label, in bytes.
pub const HYPER_MAX_LABEL_BYTES: usize = 32;

/// Longest image path, in bytes.
pub const HYPER_MAX_PATH_BYTES: usize = 128;

/// Version of the bridge protocol.
pub const HYPER_IPC_VERSION: u32 = 1;

/// A kernel request.
#[derive(Debug, Clone, PartialEq, Eq)]
pub enum HyperRequest {
    /// Allocate a VM.
    Create {
        /// Label, at most 32 bytes.
        label: String,
        /// Image of the VM.
        image_path: Option<String>,
        /// Number of vCPUs.
        cpu_count: Option<u32>,
        /// Memory, in MiB.
        memory_mib: Option<u64>,
        /// Checksum of the boot blob.
        boot_blob_crc32c: Option<u32>,
    },
    /// Run a VM.
    Start {
        /// VM.
        vm_id: u32,
    },
    /// Stop a VM.
    Stop {
        /// VM.
        vm_id: u32,
    },
    /// Free a VM that has come to an end.
    Delete {
        /// VM.
        vm_id: u32,
    },
    /// List the VMs.
    List,
    /// Stage a boot image.
    ImageLoad {
        /// Length of the image in bytes.
        len: u32,
        /// Checksum of the image.
        crc32c: u32,
        /// The image in lower-case hexadecimal.
        bytes_hex: String,
    },
}

/// A kernel reply.
#[derive(Debug, Clone, PartialEq, Eq)]
pub enum HyperReply {
    /// A VM was allocated.
    Created {
        /// VM.
        vm_id: u32,
    },
    /// A VM was run or stopped.
    State {
        /// VM.
        vm_id: u32,
        /// Its state.
        state: String,
        /// Its last exit code.
        last_exit: Option<u32>,
    },
    /// A VM was freed.
    Deleted {
        /// VM.
        vm_id: u32,
    },
    /// The VMs.
    Listed {
        /// Rows.
        rows: Vec<HyperVmRow>,
    },
    /// The request was refused.
    Error {
        /// The kernel's words.
        message: String,
    },
    /// An image was staged.
    ImageLoaded {
        /// Its length.
        len: u32,
        /// Its checksum.
        crc32c: u32,
    },
}

/// One VM in a kernel's list.
#[derive(Debug, Clone, PartialEq, Eq)]
pub struct HyperVmRow {
    /// VM.
    pub vm_id: u32,
    /// Label.
    pub label: String,
    /// State.
    pub state: String,
    /// Last exit code.
    pub last_exit: Option<u32>,
    /// Image of the VM.
    pub image_path: Option<String>,
    /// Number of vCPUs.
    pub cpu_count: Option<u32>,
    /// Memory, in MiB.
    pub memory_mib: Option<u64>,
    /// Checksum of the boot blob.
    pub boot_blob_crc32c: Option<u32>,
}

/// Mathematical value of a [`HyperVmRow`].
#[verifier::ext_equal]
pub struct HyperVmRowView {
    /// See [`HyperVmRow::vm_id`].
    pub vm_id: u32,
    /// See [`HyperVmRow::label`].
    pub label: Seq<char>,
    /// See [`HyperVmRow::state`].
    pub state: Seq<char>,
    /// See [`HyperVmRow::last_exit`].
    pub last_exit: Option<u32>,
    /// See [`HyperVmRow::image_path`].
    pub image_path: Option<Seq<char>>,
    /// See [`HyperVmRow::cpu_count`].
    pub cpu_count: Option<u32>,
    /// See [`HyperVmRow::memory_mib`].
    pub memory_mib: Option<u64>,
    /// See [`HyperVmRow::boot_blob_crc32c`].
    pub boot_blob_crc32c: Option<u32>,
}

impl View for HyperVmRow {
    type V = HyperVmRowView;

    open spec fn view(&self) -> HyperVmRowView {
        HyperVmRowView {
            vm_id: self.vm_id,
            label: self.label@,
            state: self.state@,
            last_exit: self.last_exit,
            image_path: federation::text_view(self.image_path),
            cpu_count: self.cpu_count,
            memory_mib: self.memory_mib,
            boot_blob_crc32c: self.boot_blob_crc32c,
        }
    }
}

/// Mathematical value of a kernel's list.
pub open spec fn row_views(v: Seq<HyperVmRow>) -> Seq<HyperVmRowView> {
    Seq::new(v.len(), |i: int| v[i]@)
}

/// One VM of a [`LoopbackHyperLink`].
#[derive(Debug)]
pub struct LoopSlot {
    /// Label.
    pub label: String,
    /// State.
    pub state: VmState,
    /// Last exit code.
    pub last_exit: Option<u32>,
    /// Image of the VM.
    pub image_path: Option<String>,
    /// Number of vCPUs.
    pub cpu_count: Option<u32>,
    /// Memory, in MiB.
    pub memory_mib: Option<u64>,
    /// Checksum of the boot blob.
    pub boot_blob_crc32c: Option<u32>,
}

/// Mathematical value of a [`LoopSlot`].
#[verifier::ext_equal]
pub struct LoopSlotView {
    /// See [`LoopSlot::label`].
    pub label: Seq<char>,
    /// See [`LoopSlot::state`].
    pub state: VmState,
    /// See [`LoopSlot::last_exit`].
    pub last_exit: Option<u32>,
    /// See [`LoopSlot::image_path`].
    pub image_path: Option<Seq<char>>,
    /// See [`LoopSlot::cpu_count`].
    pub cpu_count: Option<u32>,
    /// See [`LoopSlot::memory_mib`].
    pub memory_mib: Option<u64>,
    /// See [`LoopSlot::boot_blob_crc32c`].
    pub boot_blob_crc32c: Option<u32>,
}

impl View for LoopSlot {
    type V = LoopSlotView;

    open spec fn view(&self) -> LoopSlotView {
        LoopSlotView {
            label: self.label@,
            state: self.state,
            last_exit: self.last_exit,
            image_path: federation::text_view(self.image_path),
            cpu_count: self.cpu_count,
            memory_mib: self.memory_mib,
            boot_blob_crc32c: self.boot_blob_crc32c,
        }
    }
}

/// A kernel in this process: a fixed number of VM slots.
#[derive(Debug)]
pub struct LoopbackHyperLink {
    /// Slots.
    pub slots: Vec<Option<LoopSlot>>,
}

/// The slots of a kernel.
pub type Slots = Seq<Option<LoopSlotView>>;

impl View for LoopbackHyperLink {
    type V = Slots;

    open spec fn view(&self) -> Slots {
        Seq::new(
            self.slots@.len(),
            |i: int|
                match self.slots@[i] {
                    Some(x) => Some(x@),
                    None => None,
                },
        )
    }
}

/// The first free slot from `i` on.
pub open spec fn first_free(slots: Slots, i: int) -> Option<int>
    decreases slots.len() - i,
{
    if i >= slots.len() {
        None
    } else if slots[i] is None {
        Some(i)
    } else {
        first_free(slots, i + 1)
    }
}

/// Why a VM cannot be addressed.
pub open spec fn slot_fault(slots: Slots, vm_id: u32) -> Option<&'static str> {
    if vm_id >= HYPER_MAX_VMS {
        Some("hyper: vm id out of range")
    } else if slots[vm_id as int] is None {
        Some("hyper: vm not allocated")
    } else {
        None
    }
}

/// The value of a lower-case hexadecimal digit.
pub open spec fn nibble(b: u8) -> Option<u8> {
    if 48 <= b <= 57 {
        Some((b - 48) as u8)
    } else if 97 <= b <= 102 {
        Some((b - 97 + 10) as u8)
    } else {
        None
    }
}

/// The bytes that a sequence of lower-case hexadecimal digits stands for.
pub open spec fn hex_decoded(s: Seq<u8>) -> Option<Seq<u8>>
    decreases s.len(),
{
    if s.len() == 0 {
        Some(Seq::empty())
    } else if s.len() == 1 {
        None
    } else {
        let n = s.len() as int;
        match (hex_decoded(s.take(n - 2)), nibble(s[n - 2]), nibble(s[n - 1])) {
            (Some(d), Some(hi), Some(lo)) => Some(d.push((hi * 16 + lo) as u8)),
            _ => None,
        }
    }
}

/// Why an image is not staged.
pub open spec fn image_fault(len: u32, crc: u32, hex: Seq<u8>) -> Option<&'static str> {
    let want = if 2 * len > usize::MAX {
        usize::MAX as int
    } else {
        2 * len
    };
    if hex.len() != want {
        Some("hyper: image_load: bytes_hex.len() != 2*len")
    } else if len == 0 {
        Some("hyper: image_load: len == 0")
    } else if len > MAX_STAGED_IMAGE_BYTES {
        Some("hyper: image_load: len > MAX_IMAGE_BYTES")
    } else {
        match hex_decoded(hex) {
            None => Some("hyper: image_load: non-hex byte (lowercase required)"),
            Some(d) => if util::crc_of(d) != crc {
                Some("hyper: image_load: crc32c mismatch")
            } else {
                None
            },
        }
    }
}

/// The rows of a kernel's VMs, from slot `i` on.
pub open spec fn listed_from(slots: Slots, i: int) -> Seq<HyperVmRowView>
    decreases slots.len() - i,
{
    if i >= slots.len() || i < 0 {
        Seq::empty()
    } else {
        match slots[i] {
            None => listed_from(slots, i + 1),
            Some(x) => seq![row_of(x, i as u32)] + listed_from(slots, i + 1),
        }
    }
}

/// The row of one VM.
pub open spec fn row_of(x: LoopSlotView, vm_id: u32) -> HyperVmRowView {
    HyperVmRowView {
        vm_id,
        label: x.label,
        state: host::state_tag(x.state)@,
        last_exit: x.last_exit,
        image_path: x.image_path,
        cpu_count: x.cpu_count,
        memory_mib: x.memory_mib,
        boot_blob_crc32c: x.boot_blob_crc32c,
    }
}

/// The request is refused with the given words.
pub open spec fn refuses(r: CelResult<HyperReply>, msg: &'static str) -> bool {
    r == Err::<HyperReply, CelError>(CelError::Invalid(msg))
}

/// The reply that tells the state of a VM.
pub open spec fn tells_state(r: CelResult<HyperReply>, vm_id: u32, x: LoopSlotView) -> bool {
    r matches Ok(HyperReply::State { vm_id: v, state, last_exit }) && v == vm_id && state@
        == host::state_tag(x.state)@ && last_exit == x.last_exit
}

/// What [`LoopbackHyperLink::apply`] does.
pub open spec fn applied(s: Slots, req: HyperRequest, n: Slots, r: CelResult<HyperReply>) -> bool {
    match req {
        HyperRequest::Create { label, image_path, cpu_count, memory_mib, boot_blob_crc32c } => if encode_utf8(
            label@,
        ).len() > HYPER_MAX_LABEL_BYTES {
            n == s && refuses(r, "hyper: label > 32 chars")
        } else if image_path is Some && encode_utf8(image_path->0@).len() > HYPER_MAX_PATH_BYTES {
            n == s && refuses(r, "hyper: image_path > 128 chars")
        } else {
            match first_free(s, 0) {
                None => n == s && refuses(r, "hyper: vm registry full"),
                Some(i) => n == s.update(
                    i,
                    Some(
                        LoopSlotView {
                            label: label@,
                            state: VmState::Created,
                            last_exit: None,
                            image_path: federation::text_view(image_path),
                            cpu_count,
                            memory_mib,
                            boot_blob_crc32c,
                        },
                    ),
                ) && r == Ok::<HyperReply, CelError>(HyperReply::Created { vm_id: i as u32 }),
            }
        },
        HyperRequest::Start { vm_id } => match slot_fault(s, vm_id) {
            Some(m) => n == s && refuses(r, m),
            None => {
                let x = s[vm_id as int]->0;
                if x.state.over() {
                    n == s && refuses(r, "hyper: vm already terminal")
                } else if x.state == VmState::Running {
                    n == s && refuses(r, "hyper: vm already running")
                } else {
                    let y = LoopSlotView {
                        state: VmState::Halted,
                        last_exit: Some(HYPER_HLT_EXIT_CODE),
                        ..x
                    };
                    n == s.update(vm_id as int, Some(y)) && tells_state(r, vm_id, y)
                }
            },
        },
        HyperRequest::Stop { vm_id } => match slot_fault(s, vm_id) {
            Some(m) => n == s && refuses(r, m),
            None => {
                let x = s[vm_id as int]->0;
                let y = if x.state.over() {
                    x
                } else {
                    LoopSlotView { state: VmState::Stopped, ..x }
                };
                n == s.update(vm_id as int, Some(y)) && tells_state(r, vm_id, y)
            },
        },
        HyperRequest::Delete { vm_id } => match slot_fault(s, vm_id) {
            Some(m) => n == s && refuses(r, m),
            None => if !s[vm_id as int]->0.state.over() {
                n == s && refuses(r, "hyper: vm not terminal")
            } else {
                n == s.update(vm_id as int, None) && r == Ok::<HyperReply, CelError>(
                    HyperReply::Deleted { vm_id },
                )
            },
        },
        HyperRequest::List => n == s && (r matches Ok(HyperReply::Listed { rows }) && row_views(
            rows@,
        ) == listed_from(s, 0)),
        HyperRequest::ImageLoad { len, crc32c, bytes_hex } => n == s && match image_fault(
            len,
            crc32c,
            encode_utf8(bytes_hex@),
        ) {
            Some(m) => refuses(r, m),
            None => r == Ok::<HyperReply, CelError>(HyperReply::ImageLoaded { len, crc32c }),
        },
    }
}

/// Decodes a lower-case hexadecimal digit.
pub fn hex_nibble(b: u8) -> (r: CelResult<u8>)
    ensures
        match nibble(b) {
            Some(v) => r == Ok::<u8, CelError>(v) && v < 16,
            None => r == Err::<u8, CelError>(
                CelError::Invalid("hyper: image_load: non-hex byte (lowercase required)"),
            ),
        },
{
    if 48 <= b && b <= 57 {
        Ok(b - 48)
    } else if 97 <= b && b <= 102 {
        Ok(b - 97 + 10)
    } else {
        Err(CelError::Invalid("hyper: image_load: non-hex byte (lowercase required)"))
    }
}

/// A prefix of what does not decode does not make it decode.
proof fn lemma_decode_prefix(s: Seq<u8>, i: int)
    requires
        0 <= i <= s.len(),
        i % 2 == 0,
        s.len() % 2 == 0,
        hex_decoded(s.take(i)) is None,
    ensures
        hex_decoded(s) is None,
    decreases s.len(),
{
    if i == s.len() {
        assert(s.take(i) =~= s);
    } else {
        let n = s.len() as int;
        assert(s.take(n - 2).take(i) =~= s.take(i));
        lemma_decode_prefix(s.take(n - 2), i);
    }
}

/// Decodes lower-case hexadecimal digits.
pub fn hex_decode(s: &[u8]) -> (r: Option<Vec<u8>>)
    requires
        s@.len() % 2 == 0,
    ensures
        match r {
            Some(v) => hex_decoded(s@) == Some(v@),
            None => hex_decoded(s@) is None,
        },
{
    let n: usize = s.len();
    let mut out: Vec<u8> = Vec::new();
    let mut i: usize = 0;
    assert(s@.take(0) =~= Seq::empty());
    while i < n
        invariant
            n == s@.len(),
            n % 2 == 0,
            i % 2 == 0,
            i <= n,
            hex_decoded(s@.take(i as int)) == Some(out@),
        decreases n - i,
    {
        proof {
            let t = s@.take(i + 2);
            assert(t.take(i as int) =~= s@.take(i as int));
            assert(t[i as int] == s@[i as int]);
            assert(t[i + 1] == s@[i + 1]);
        }
        match (hex_nibble(s[i]), hex_nibble(s[i + 1])) {
            (Ok(hi), Ok(lo)) => {
                out.push(hi * 16 + lo);
            },
            _ => {
                proof {
                    lemma_decode_prefix(s@, i + 2);
                }
                return None;
            },
        }
        i = i + 2;
    }
    assert(s@.take(i as int) =~= s@);
    Some(out)
}

/// The CRC-32C of `data`.
pub fn crc32c_bytes(data: &[u8]) -> (r: u32)
    ensures
        r == util::crc_of(data@),
{
    crc32c(data)
}

impl Default for LoopbackHyperLink {
    fn default() -> (r: LoopbackHyperLink)
        ensures
            r.wf(),
            r@ == seq![None::<LoopSlotView>, None, None, None],
    {
        LoopbackHyperLink::new()
    }
}

impl LoopbackHyperLink {
    /// The kernel has its fixed number of slots.
    pub open spec fn wf(&self) -> bool {
        self.slots@.len() == HYPER_MAX_VMS
    }

    /// A kernel without VMs.
    pub fn new() -> (r: LoopbackHyperLink)
        ensures
            r.wf(),
            r@ == seq![None::<LoopSlotView>, None, None, None],
    {
        let mut slots: Vec<Option<LoopSlot>> = Vec::new();
        slots.push(None);
        slots.push(None);
        slots.push(None);
        slots.push(None);
        let r = LoopbackHyperLink { slots };
        assert(r@ =~= seq![None::<LoopSlotView>, None, None, None]);
        r
    }

    /// Why a VM cannot be addressed.
    fn fault(&self, vm_id: u32) -> (r: Option<&'static str>)
        requires
            self.wf(),
        ensures
            r == slot_fault(self@, vm_id),
            r is None ==> vm_id < self.slots@.len() && self.slots@[vm_id as int] is Some,
    {
        if vm_id as usize >= HYPER_MAX_VMS {
            return Some("hyper: vm id out of range");
        }
        match &self.slots[vm_id as usize] {
            None => Some("hyper: vm not allocated"),
            Some(_) => None,
        }
    }

    /// The state and last exit code of a VM.
    fn state_of(&self, vm_id: u32) -> (r: (VmState, Option<u32>))
        requires
            vm_id < self.slots@.len(),
            self.slots@[vm_id as int] is Some,
        ensures
            r.0 == self@[vm_id as int]->0.state,
            r.1 == self@[vm_id as int]->0.last_exit,
    {
        match &self.slots[vm_id as usize] {
            Some(x) => (x.state, x.last_exit),
            None => {
                assert(false);
                (VmState::Created, None)
            },
        }
    }

    /// Moves a VM to another state.
    fn set_state(&mut self, vm_id: u32, state: VmState, last_exit: Option<u32>)
        requires
            vm_id < old(self).slots@.len(),
            old(self).slots@[vm_id as int] is Some,
        ensures
            final(self)@ == old(self)@.update(
                vm_id as int,
                Some(LoopSlotView { state, last_exit, ..old(self)@[vm_id as int]->0 }),
            ),
            final(self).slots@.len() == old(self).slots@.len(),
    {
        let ghost before = self@;
        let mut slot: Option<LoopSlot> = None;
        std::mem::swap(&mut self.slots[vm_id as usize], &mut slot);
        if let Some(x) = slot {
            self.slots[vm_id as usize] = Some(
                LoopSlot {
                    label: x.label,
                    state,
                    last_exit,
                    image_path: x.image_path,
                    cpu_count: x.cpu_count,
                    memory_mib: x.memory_mib,
                    boot_blob_crc32c: x.boot_blob_crc32c,
                },
            );
        }
        assert(self@ =~= before.update(
            vm_id as int,
            Some(LoopSlotView { state, last_exit, ..before[vm_id as int]->0 }),
        ));
    }

    /// Allocates a VM in the first free slot.
    fn create(
        &mut self,
        label: String,
        image_path: Option<String>,
        cpu_count: Option<u32>,
        memory_mib: Option<u64>,
        boot_blob_crc32c: Option<u32>,
    ) -> (r: CelResult<HyperReply>)
        requires
            old(self).wf(),
        ensures
            final(self).wf(),
            applied(
                old(self)@,
                HyperRequest::Create { label, image_path, cpu_count, memory_mib, boot_blob_crc32c },
                final(self)@,
                r,
            ),
    {
        if byte_len(label.as_str()) > HYPER_MAX_LABEL_BYTES {
            return Err(CelError::Invalid("hyper: label > 32 chars"));
        }
        if let Some(p) = &image_path {
            if byte_len(p.as_str()) > HYPER_MAX_PATH_BYTES {
                return Err(CelError::Invalid("hyper: image_path > 128 chars"));
            }
        }
        let ghost before = self@;
        let ghost fresh = LoopSlotView {
            label: label@,
            state: VmState::Created,
            last_exit: None,
            image_path: federation::text_view(image_path),
            cpu_count,
            memory_mib,
            boot_blob_crc32c,
        };
        let mut i: usize = 0;
        while i < self.slots.len()
            invariant
                i <= self.slots@.len(),
                self@ == before,
                self@ == old(self)@,
                self.wf(),
                first_free(before, 0) == first_free(before, i as int),
                encode_utf8(label@).len() <= HYPER_MAX_LABEL_BYTES,
                image_path is Some ==> encode_utf8(image_path->0@).len() <= HYPER_MAX_PATH_BYTES,
                fresh == (LoopSlotView {
                    label: label@,
                    state: VmState::Created,
                    last_exit: None,
                    image_path: federation::text_view(image_path),
                    cpu_count,
                    memory_mib,
                    boot_blob_crc32c,
                }),
            decreases self.slots@.len() - i,
        {
            if self.slots[i].is_none() {
                self.slots[i] = Some(
                    LoopSlot {
                        label,
                        state: VmState::Created,
                        last_exit: None,
                        image_path,
                        cpu_count,
                        memory_mib,
                        boot_blob_crc32c,
                    },
                );
                assert(self@ =~= before.update(i as int, Some(fresh)));
                return Ok(HyperReply::Created { vm_id: i as u32 });
            }
            assert(before[i as int] is Some);
            i = i + 1;
        }
        Err(CelError::Invalid("hyper: vm registry full"))
    }

    /// The rows of the VMs.
    fn rows(&self) -> (r: Vec<HyperVmRow>)
        requires
            self.wf(),
        ensures
            row_views(r@) == listed_from(self@, 0),
    {
        let ghost slots = self@;
        let mut out: Vec<HyperVmRow> = Vec::new();
        let mut i: usize = 0;
        assert(row_views(out@) + listed_from(slots, 0) =~= listed_from(slots, 0));
        while i < self.slots.len()
            invariant
                i <= self.slots@.len(),
                slots == self@,
                slots.len() == HYPER_MAX_VMS,
                row_views(out@) + listed_from(slots, i as int) == listed_from(slots, 0),
            decreases self.slots@.len() - i,
        {
            if let Some(x) = &self.slots[i] {
                let ghost before = row_views(out@);
                let row = HyperVmRow {
                    vm_id: i as u32,
                    label: x.label.clone(),
                    state: x.state.tag().to_owned(),
                    last_exit: x.last_exit,
                    image_path: clone_text(&x.image_path),
                    cpu_count: x.cpu_count,
                    memory_mib: x.memory_mib,
                    boot_blob_crc32c: x.boot_blob_crc32c,
                };
                let ghost v = row@;
                out.push(row);
                proof {
                    assert(slots[i as int] == Some(x@));
                    assert(v == row_of(x@, i as u32));
                    assert(row_views(out@) =~= before.push(v));
                    let rest = listed_from(slots, i + 1);
                    assert(before + (seq![v] + rest) =~= before.push(v) + rest);
                }
            }
            i = i + 1;
        }
        assert(row_views(out@) + Seq::<HyperVmRowView>::empty() =~= row_views(out@));
        out
    }

    /// Applies a request.
    pub fn apply(&mut self, req: HyperRequest) -> (r: CelResult<HyperReply>)
        requires
            old(self).wf(),
        ensures
            final(self).wf(),
            applied(old(self)@, req, final(self)@, r),
    {
        match req {
            HyperRequest::Create {
                label,
                image_path,
                cpu_count,
                memory_mib,
                boot_blob_crc32c,
            } => self.create(label, image_path, cpu_count, memory_mib, boot_blob_crc32c),
            HyperRequest::Start { vm_id } => {
                if let Some(m) = self.fault(vm_id) {
                    return Err(CelError::Invalid(m));
                }
                let (state, _) = self.state_of(vm_id);
                if state.is_terminal() {
                    return Err(CelError::Invalid("hyper: vm already terminal"));
                }
                if state == VmState::Running {
                    return Err(CelError::Invalid("hyper: vm already running"));
                }
                self.set_state(vm_id, VmState::Halted, Some(HYPER_HLT_EXIT_CODE));
                Ok(
                    HyperReply::State {
                        vm_id,
                        state: VmState::Halted.tag().to_owned(),
                        last_exit: Some(HYPER_HLT_EXIT_CODE),
                    },
                )
            },
            HyperRequest::Stop { vm_id } => {
                if let Some(m) = self.fault(vm_id) {
                    return Err(CelError::Invalid(m));
                }
                let (mut state, last_exit) = self.state_of(vm_id);
                if !state.is_terminal() {
                    state = VmState::Stopped;
                    self.set_state(vm_id, state, last_exit);
                } else {
                    assert(self@ =~= old(self)@.update(vm_id as int, self@[vm_id as int]));
                }
                Ok(HyperReply::State { vm_id, state: state.tag().to_owned(), last_exit })
            },
            HyperRequest::Delete { vm_id } => {
                if let Some(m) = self.fault(vm_id) {
                    return Err(CelError::Invalid(m));
                }
                let (state, _) = self.state_of(vm_id);
                if !state.is_terminal() {
                    return Err(CelError::Invalid("hyper: vm not terminal"));
                }
                self.slots[vm_id as usize] = None;
                assert(self@ =~= old(self)@.update(vm_id as int, None));
                Ok(HyperReply::Deleted { vm_id })
            },
            HyperRequest::List => Ok(HyperReply::Listed { rows: self.rows() }),
            HyperRequest::ImageLoad { len, crc32c, bytes_hex } => {
                let bytes = bytes_hex.as_str().as_bytes();
                let twice: u64 = len as u64 * 2;
                let want: u64 = if twice > usize::MAX as u64 {
                    usize::MAX as u64
                } else {
                    twice
                };
                if bytes.len() as u64 != want {
                    return Err(CelError::Invalid("hyper: image_load: bytes_hex.len() != 2*len"));
                }
                if len == 0 {
                    return Err(CelError::Invalid("hyper: image_load: len == 0"));
                }
                if len > MAX_STAGED_IMAGE_BYTES as u32 {
                    return Err(CelError::Invalid("hyper: image_load: len > MAX_IMAGE_BYTES"));
                }
                match hex_decode(bytes) {
                    None => Err(
                        CelError::Invalid("hyper: image_load: non-hex byte (lowercase required)"),
                    ),
                    Some(decoded) => {
                        if crc32c_bytes(decoded.as_slice()) != crc32c {
                            return Err(CelError::Invalid("hyper: image_load: crc32c mismatch"));
                        }
                        Ok(HyperReply::ImageLoaded { len, crc32c })
                    },
                }
            },
        }
    }
}

/// The name of an operation.
pub open spec fn kind_of(op: VmOp) -> &'static str {
    match op {
        VmOp::Create { .. } => "Create",
        VmOp::Start { .. } => "Start",
        VmOp::Stop { .. } => "Stop",
        VmOp::Delete { .. } => "Delete",
        VmOp::List => "List",
        VmOp::CreateVolume { .. } => "CreateVolume",
        VmOp::DeleteVolume { .. } => "DeleteVolume",
        VmOp::ListVolumes => "ListVolumes",
        VmOp::AttachVolume { .. } => "AttachVolume",
        VmOp::DetachVolume { .. } => "DetachVolume",
        VmOp::ReadVolume { .. } => "ReadVolume",
        VmOp::WriteVolume { .. } => "WriteVolume",
        VmOp::CreateSnapshot { .. } => "CreateSnapshot",
        VmOp::ListSnapshots { .. } => "ListSnapshots",
        VmOp::DeleteSnapshot { .. } => "DeleteSnapshot",
        VmOp::RestoreSnapshot { .. } => "RestoreSnapshot",
        VmOp::CreateNetwork { .. } => "CreateNetwork",
        VmOp::DeleteNetwork { .. } => "DeleteNetwork",
        VmOp::ListNetworks => "ListNetworks",
        VmOp::AttachNic { .. } => "AttachNic",
        VmOp::DetachNic { .. } => "DetachNic",
        VmOp::ListNics => "ListNics",
        VmOp::CreateSecurityGroup { .. } => "CreateSecurityGroup",
        VmOp::DeleteSecurityGroup { .. } => "DeleteSecurityGroup",
        VmOp::ListSecurityGroups => "ListSecurityGroups",
        VmOp::CreateLoadBalancer { .. } => "CreateLoadBalancer",
        VmOp::DeleteLoadBalancer { .. } => "DeleteLoadBalancer",
        VmOp::ListLoadBalancers => "ListLoadBalancers",
    }
}

/// The name of an operation.
pub fn op_kind(op: &VmOp) -> (r: &'static str)
    ensures
        r == kind_of(*op),
{
    match op {
        VmOp::Create { .. } => "Create",
        VmOp::Start { .. } => "Start",
        VmOp::Stop { .. } => "Stop",
        VmOp::Delete { .. } => "Delete",
        VmOp::List => "List",
        VmOp::CreateVolume { .. } => "CreateVolume",
        VmOp::DeleteVolume { .. } => "DeleteVolume",
        VmOp::ListVolumes => "ListVolumes",
        VmOp::AttachVolume { .. } => "AttachVolume",
        VmOp::DetachVolume { .. } => "DetachVolume",
        VmOp::ReadVolume { .. } => "ReadVolume",
        VmOp::WriteVolume { .. } => "WriteVolume",
        VmOp::CreateSnapshot { .. } => "CreateSnapshot",
        VmOp::ListSnapshots { .. } => "ListSnapshots",
        VmOp::DeleteSnapshot { .. } => "DeleteSnapshot",
        VmOp::RestoreSnapshot { .. } => "RestoreSnapshot",
        VmOp::CreateNetwork { .. } => "CreateNetwork",
        VmOp::DeleteNetwork { .. } => "DeleteNetwork",
        VmOp::ListNetworks => "ListNetworks",
        VmOp::AttachNic { .. } => "AttachNic",
        VmOp::DetachNic { .. } => "DetachNic",
        VmOp::ListNics => "ListNics",
        VmOp::CreateSecurityGroup { .. } => "CreateSecurityGroup",
        VmOp::DeleteSecurityGroup { .. } => "DeleteSecurityGroup",
        VmOp::ListSecurityGroups => "ListSecurityGroups",
        VmOp::CreateLoadBalancer { .. } => "CreateLoadBalancer",
        VmOp::DeleteLoadBalancer { .. } => "DeleteLoadBalancer",
        VmOp::ListLoadBalancers => "ListLoadBalancers",
    }
}

/// A VM host that drives a kernel.
///
/// Life-cycle operations go to the kernel. The host mirrors labels and restart
/// policies, which the kernel need not store. Every other operation goes to
/// the fallback host, or is refused in strict mode.
#[derive(Debug)]
pub struct CelhyperVmHost {
    /// Host for what the kernel does not do.
    pub fallback: MemVmHost,
    /// Labels by VM.
    pub labels: BTreeMap<u32, String>,
    /// Restart policies by VM.
    pub policies: BTreeMap<u32, RestartPolicy>,
    /// Whether what the kernel does not do is refused.
    pub strict: bool,
}

/// What a host waits for after it handed out a kernel request.
#[derive(Debug)]
pub enum Pending {
    /// A VM to be allocated.
    Create {
        /// Label.
        label: String,
        /// Restart policy.
        policy: RestartPolicy,
    },
    /// A state.
    State,
    /// A VM to be freed.
    Delete,
    /// The VMs there are.
    List,
}

/// What becomes of an operation.
#[derive(Debug)]
pub enum HyperStep {
    /// The operation is done.
    Reply(HostResult),
    /// The kernel has to be asked first.
    Call(HyperRequest, Pending),
    /// A store has to be asked first.
    Store(StoreCall),
}

/// Mathematical value of a [`CelhyperVmHost`].
#[verifier::ext_equal]
pub struct CelhyperView {
    /// See [`CelhyperVmHost::fallback`].
    pub fallback: HostView,
    /// See [`CelhyperVmHost::labels`].
    pub labels: Map<u32, Seq<char>>,
    /// See [`CelhyperVmHost::policies`].
    pub policies: Map<u32, RestartPolicy>,
    /// See [`CelhyperVmHost::strict`].
    pub strict: bool,
}

impl View for CelhyperVmHost {
    type V = CelhyperView;

    open spec fn view(&self) -> CelhyperView {
        CelhyperView {
            fallback: self.fallback@,
            labels: self.labels@.map_values(|l: String| l@),
            policies: self.policies@,
            strict: self.strict,
        }
    }
}

/// What [`CelhyperVmHost::begin`] does.
pub open spec fn begun(s: CelhyperView, op: VmOp, n: CelhyperView, r: HyperStep) -> bool {
    match op {
        VmOp::Create {
            label,
            restart_policy,
            image_path,
            cpu_count,
            memory_mib,
            boot_blob_crc32c,
        } => n == s && if encode_utf8(label@).len() > HYPER_MAX_LABEL_BYTES {
            r matches HyperStep::Reply(Err(e)) && e@ == "hyper: label > 32 chars"@
        } else {
            r matches HyperStep::Call(req, Pending::Create { label: l, policy }) && req == (
            HyperRequest::Create { label, image_path, cpu_count, memory_mib, boot_blob_crc32c })
                && l@ == label@ && policy == restart_policy
        },
        VmOp::Start { vm_id } => n == s && r == HyperStep::Call(
            HyperRequest::Start { vm_id },
            Pending::State,
        ),
        VmOp::Stop { vm_id } => n == s && r == HyperStep::Call(
            HyperRequest::Stop { vm_id },
            Pending::State,
        ),
        VmOp::Delete { vm_id } => n == s && r == HyperStep::Call(
            HyperRequest::Delete { vm_id },
            Pending::Delete,
        ),
        VmOp::List => n == s && r == HyperStep::Call(HyperRequest::List, Pending::List),
        _ => if s.strict {
            n == s && (r matches HyperStep::Reply(Err(e)) && e@
                == "hyper: bridge does not implement "@ + kind_of(op)@ + " (strict mode)"@)
        } else {
            &&& n == (CelhyperView { fallback: n.fallback, ..s })
            &&& match r {
                HyperStep::Reply(q) => host::stepped(
                    s.fallback,
                    op,
                    n.fallback,
                    HostStep::Reply(q),
                ),
                HyperStep::Store(c) => host::stepped(
                    s.fallback,
                    op,
                    n.fallback,
                    HostStep::Store(c),
                ),
                HyperStep::Call(..) => false,
            }
        },
    }
}

/// Why a kernel's answer is no success: the link failed, the kernel refused,
/// or the reply does not fit the request.
pub open spec fn answer_fault(
    answer: Result<HyperReply, String>,
    fits: bool,
    shown: Seq<char>,
) -> Option<Seq<char>> {
    match answer {
        Err(e) => Some("hyper: "@ + e@),
        Ok(HyperReply::Error { message }) => Some("hyper: kernel: "@ + message@),
        Ok(_) => if fits {
            None
        } else {
            Some("hyper: unexpected reply "@ + shown)
        },
    }
}

/// Whether a reply fits a request.
pub open spec fn fits(pending: Pending, reply: HyperReply) -> bool {
    match pending {
        Pending::Create { .. } => reply is Created,
        Pending::State => reply is State,
        Pending::Delete => reply is Deleted,
        Pending::List => reply is Listed,
    }
}

/// What [`CelhyperVmHost::finish`] does.
pub open spec fn finished(
    s: CelhyperView,
    pending: Pending,
    answer: Result<HyperReply, String>,
    shown: Seq<char>,
    n: CelhyperView,
    r: HostResult,
) -> bool {
    match answer_fault(answer, answer is Ok && fits(pending, answer->Ok_0), shown) {
        Some(m) => n == s && host::fails(r, m),
        None => match (pending, answer->Ok_0) {
            (Pending::Create { label, policy }, HyperReply::Created { vm_id }) => n == (
            CelhyperView {
                labels: s.labels.insert(vm_id, label@),
                policies: s.policies.insert(vm_id, policy),
                ..s
            }) && r == Ok::<VmOpReply, String>(VmOpReply::Created { vm_id }),
            (Pending::State, HyperReply::State { vm_id, state, .. }) => n == s && r == Ok::<
                VmOpReply,
                String,
            >(VmOpReply::State { vm_id, state }),
            (Pending::Delete, HyperReply::Deleted { vm_id }) => n == (CelhyperView {
                labels: s.labels.remove(vm_id),
                policies: s.policies.remove(vm_id),
                ..s
            }) && r == Ok::<VmOpReply, String>(VmOpReply::Deleted { vm_id }),
            (Pending::List, HyperReply::Listed { rows }) => n == s && (r matches Ok(
                VmOpReply::Listed { rows: out },
            ) && federation::vm_views(out@) == all_published(
                s,
                rows@,
                host::known_owner(s.fallback),
            )),
            _ => false,
        },
    }
}

/// The row that a host publishes for a kernel row: a label that the kernel
/// lacks comes from the mirror, and so does the restart policy.
pub open spec fn published(s: CelhyperView, x: HyperVmRowView, owner: Seq<char>) -> RemoteVmView {
    RemoteVmView {
        owner,
        vm_id: x.vm_id,
        label: if x.label.len() > 0 {
            x.label
        } else if s.labels.contains_key(x.vm_id) {
            s.labels[x.vm_id]
        } else {
            Seq::empty()
        },
        state: x.state,
        last_exit: x.last_exit,
        epoch: 0,
        hlc: 0,
        owner_alive: true,
        restart_policy: if s.policies.contains_key(x.vm_id) {
            s.policies[x.vm_id]
        } else {
            RestartPolicy::Never
        },
        volumes: Seq::empty(),
        image_path: x.image_path,
        cpu_count: x.cpu_count,
        memory_mib: x.memory_mib,
        boot_blob_crc32c: x.boot_blob_crc32c,
    }
}

/// The rows that a host publishes for those of a kernel.
pub open spec fn all_published(s: CelhyperView, rows: Seq<HyperVmRow>, owner: Seq<char>) -> Seq<
    RemoteVmView,
> {
    Seq::new(rows.len(), |i: int| published(s, rows[i]@, owner))
}

/// What [`CelhyperVmHost::attach_preserved`] does.
pub open spec fn preserves(
    s: CelhyperView,
    vm_id: u32,
    attachments: Seq<VolumeAttachment>,
    n: CelhyperView,
    r: Result<(), String>,
) -> bool {
    match host::slot_fault(s.fallback.slots, vm_id) {
        Some(m) => n == s && (r matches Err(e) && e@ == m),
        None => r is Ok && n == (CelhyperView {
            fallback: host::with_slot(
                s.fallback,
                vm_id as int,
                Some(
                    SlotView {
                        volumes: vault::attachment_views(attachments),
                        ..s.fallback.slots[vm_id as int]->0
                    },
                ),
            ),
            ..s
        }),
    }
}

/// What [`CelhyperVmHost::snapshot`] does.
pub open spec fn snapped(
    s: CelhyperView,
    owner: Seq<char>,
    answer: Option<HyperReply>,
    r: Seq<RemoteVm>,
) -> bool {
    match answer {
        Some(HyperReply::Listed { rows }) => federation::vm_views(r) == all_published(
            s,
            rows@,
            owner,
        ),
        _ => r.len() == 0,
    }
}

/// Why an image is not sent to the kernel.
pub open spec fn stage_fault(len: nat) -> Option<Seq<char>> {
    if len == 0 {
        Some("hyper: stage_image: bytes is empty"@)
    } else if len > MAX_STAGED_IMAGE_BYTES {
        Some(
            "hyper: stage_image: "@ + text::decimal(len)
                + " bytes exceeds MAX_STAGED_IMAGE_BYTES ("@ + text::decimal(
                MAX_STAGED_IMAGE_BYTES as nat,
            ) + ")"@,
        )
    } else {
        None
    }
}

/// What [`CelhyperVmHost::stage_image`] does.
pub open spec fn stages(bytes: Seq<u8>, r: Result<HyperRequest, String>) -> bool {
    match stage_fault(bytes.len()) {
        Some(m) => r matches Err(e) && e@ == m,
        None => r matches Ok(HyperRequest::ImageLoad { len, crc32c, bytes_hex }) && len
            == bytes.len() && crc32c == util::crc_of(bytes) && bytes_hex@ == text::hex_of(bytes),
    }
}

/// The four bytes of `n`, the highest first.
pub open spec fn be_bytes(n: u32) -> Seq<u8> {
    seq![
        (n / 0x100_0000) as u8,
        (n / 0x1_0000 % 0x100) as u8,
        (n / 0x100 % 0x100) as u8,
        (n % 0x100) as u8,
    ]
}

/// Length and checksum as they are shown.
pub open spec fn stamp_text(len: u32, crc: u32) -> Seq<char> {
    "(len="@ + text::decimal(len as nat) + ", crc=0x"@ + text::hex_of(be_bytes(crc)) + ")"@
}

/// See [`stamp_text`].
fn stamp(len: u32, crc: u32) -> (r: String)
    ensures
        r@ == stamp_text(len, crc),
{
    let bytes: [u8; 4] = [
        (crc / 0x100_0000) as u8,
        (crc / 0x1_0000 % 0x100) as u8,
        (crc / 0x100 % 0x100) as u8,
        (crc % 0x100) as u8,
    ];
    let mut s = concat("(len=", decimal_string(len as u64).as_str());
    s.append(", crc=0x");
    s.append(hex_encode(bytes.as_slice()).as_str());
    s.append(")");
    assert(bytes@ =~= be_bytes(crc));
    s
}

/// What [`CelhyperVmHost::stage_image_end`] says.
pub open spec fn staged(
    len: u32,
    crc: u32,
    answer: Result<HyperReply, String>,
    shown: Seq<char>,
) -> Result<u32, Seq<char>> {
    match answer_fault(answer, answer is Ok && answer->Ok_0 is ImageLoaded, shown) {
        Some(m) => Err(m),
        None => {
            let rlen = answer->Ok_0->ImageLoaded_len;
            let rcrc = answer->Ok_0->ImageLoaded_crc32c;
            if rlen != len || rcrc != crc {
                Err(
                    "hyper: stage_image: kernel echoed "@ + stamp_text(rlen, rcrc) + "; expected "@
                        + stamp_text(len, crc),
                )
            } else {
                Ok(crc)
            }
        },
    }
}

/// Words that join three pieces.
fn joined(a: &str, b: &str, c: &str) -> (r: String)
    ensures
        r@ == a@ + b@ + c@,
{
    let mut s = concat(a, b);
    s.append(c);
    s
}

impl CelhyperVmHost {
    /// The fallback host has its slots.
    pub open spec fn wf(&self) -> bool {
        self.fallback.wf()
    }

    /// A host that mirrors nothing yet, with a fallback that grants everything.
    pub fn new(max_mount: usize) -> (r: CelhyperVmHost)
        ensures
            r.wf(),
            r@.labels == Map::<u32, Seq<char>>::empty(),
            r@.policies == Map::<u32, RestartPolicy>::empty(),
            !r.strict,
            r@.fallback == (HostView {
                slots: seq![None, None, None, None],
                owner: None,
                caps: Capabilities::all(),
                max_mount,
            }),
    {
        let r = CelhyperVmHost {
            fallback: MemVmHost::new(max_mount),
            labels: BTreeMap::new(),
            policies: BTreeMap::new(),
            strict: false,
        };
        assert(r@.labels =~= Map::empty());
        r
    }

    /// Turns strict mode on or off.
    pub fn with_strict(self, strict: bool) -> (r: CelhyperVmHost)
        ensures
            r@ == (CelhyperView { strict, ..self@ }),
            self.wf() ==> r.wf(),
    {
        CelhyperVmHost {
            fallback: self.fallback,
            labels: self.labels,
            policies: self.policies,
            strict,
        }
    }

    /// Whether strict mode is on.
    pub fn strict(&self) -> (r: bool)
        ensures
            r == self.strict,
    {
        self.strict
    }

    /// Puts an empty fallback host with the given capabilities in place.
    pub fn with_caps(self, caps: Capabilities) -> (r: CelhyperVmHost)
        ensures
            r.wf(),
            r@ == (CelhyperView {
                fallback: HostView {
                    slots: seq![None, None, None, None],
                    owner: None,
                    caps,
                    max_mount: self.fallback.max_mount,
                },
                ..self@
            }),
    {
        CelhyperVmHost {
            fallback: MemVmHost::new(self.fallback.max_mount).with_caps(caps),
            labels: self.labels,
            policies: self.policies,
            strict: self.strict,
        }
    }

    /// Mirrors a VM.
    fn remember(&mut self, vm_id: u32, label: String, policy: RestartPolicy)
        ensures
            final(self)@ == (CelhyperView {
                labels: old(self)@.labels.insert(vm_id, label@),
                policies: old(self)@.policies.insert(vm_id, policy),
                ..old(self)@
            }),
            final(self).fallback == old(self).fallback,
    {
        broadcast use vstd::std_specs::btree::group_btree_axioms;
        broadcast use vstd::laws_cmp::group_laws_cmp;

        let ghost l = label@;
        self.labels.insert(vm_id, label);
        self.policies.insert(vm_id, policy);
        assert(self@.labels =~= old(self)@.labels.insert(vm_id, l));
    }

    /// Drops a VM from the mirror.
    fn forget(&mut self, vm_id: u32)
        ensures
            final(self)@ == (CelhyperView {
                labels: old(self)@.labels.remove(vm_id),
                policies: old(self)@.policies.remove(vm_id),
                ..old(self)@
            }),
            final(self).fallback == old(self).fallback,
    {
        broadcast use vstd::std_specs::btree::group_btree_axioms;
        broadcast use vstd::laws_cmp::group_laws_cmp;

        self.labels.remove(&vm_id);
        self.policies.remove(&vm_id);
        assert(self@.labels =~= old(self)@.labels.remove(vm_id));
        assert(self@.policies =~= old(self)@.policies.remove(vm_id));
    }

    /// The mirrored label of a VM, or no text.
    fn label_of(&self, vm_id: u32) -> (r: String)
        ensures
            r@ == (if self@.labels.contains_key(vm_id) {
                self@.labels[vm_id]
            } else {
                Seq::empty()
            }),
    {
        broadcast use vstd::std_specs::btree::group_btree_axioms;
        broadcast use vstd::laws_cmp::group_laws_cmp;

        match self.labels.get(&vm_id) {
            Some(l) => l.clone(),
            None => String::new(),
        }
    }

    /// The mirrored restart policy of a VM, or that of a VM nobody restarts.
    fn policy_of(&self, vm_id: u32) -> (r: RestartPolicy)
        ensures
            r == (if self@.policies.contains_key(vm_id) {
                self@.policies[vm_id]
            } else {
                RestartPolicy::Never
            }),
    {
        broadcast use vstd::std_specs::btree::group_btree_axioms;
        broadcast use vstd::laws_cmp::group_laws_cmp;

        match self.policies.get(&vm_id) {
            Some(p) => *p,
            None => RestartPolicy::Never,
        }
    }

    /// Takes up an operation: either it is done, or the kernel or a store has
    /// to be asked.
    pub fn begin(&mut self, op: VmOp) -> (r: HyperStep)
        requires
            old(self).wf(),
        ensures
            final(self).wf(),
            begun(old(self)@, op, final(self)@, r),
    {
        match op {
            VmOp::Create {
                label,
                restart_policy,
                image_path,
                cpu_count,
                memory_mib,
                boot_blob_crc32c,
            } => {
                if byte_len(label.as_str()) > HYPER_MAX_LABEL_BYTES {
                    return HyperStep::Reply(Err("hyper: label > 32 chars".to_owned()));
                }
                let mirror = label.clone();
                HyperStep::Call(
                    HyperRequest::Create {
                        label,
                        image_path,
                        cpu_count,
                        memory_mib,
                        boot_blob_crc32c,
                    },
                    Pending::Create { label: mirror, policy: restart_policy },
                )
            },
            VmOp::Start { vm_id } => HyperStep::Call(HyperRequest::Start { vm_id }, Pending::State),
            VmOp::Stop { vm_id } => HyperStep::Call(HyperRequest::Stop { vm_id }, Pending::State),
            VmOp::Delete { vm_id } => HyperStep::Call(
                HyperRequest::Delete { vm_id },
                Pending::Delete,
            ),
            VmOp::List => HyperStep::Call(HyperRequest::List, Pending::List),
            _ => {
                if self.strict {
                    return HyperStep::Reply(
                        Err(
                            joined(
                                "hyper: bridge does not implement ",
                                op_kind(&op),
                                " (strict mode)",
                            ),
                        ),
                    );
                }
                match self.fallback.apply(op) {
                    HostStep::Reply(q) => HyperStep::Reply(q),
                    HostStep::Store(c) => HyperStep::Store(c),
                }
            },
        }
    }

    /// Turns the kernel's answer into the reply. `answer` is the kernel's
    /// reply, or the words of a link that failed; `shown` is the reply as it
    /// is to be quoted where it does not fit.
    pub fn finish(
        &mut self,
        pending: Pending,
        answer: Result<HyperReply, String>,
        shown: &str,
    ) -> (r: HostResult)
        requires
            old(self).wf(),
        ensures
            final(self).wf(),
            finished(old(self)@, pending, answer, shown@, final(self)@, r),
    {
        match answer {
            Err(e) => Err(concat("hyper: ", e.as_str())),
            Ok(HyperReply::Error { message }) => Err(concat("hyper: kernel: ", message.as_str())),
            Ok(reply) => match (pending, reply) {
                (Pending::Create { label, policy }, HyperReply::Created { vm_id }) => {
                    self.remember(vm_id, label, policy);
                    Ok(VmOpReply::Created { vm_id })
                },
                (Pending::State, HyperReply::State { vm_id, state, .. }) => Ok(
                    VmOpReply::State { vm_id, state },
                ),
                (Pending::Delete, HyperReply::Deleted { vm_id }) => {
                    self.forget(vm_id);
                    Ok(VmOpReply::Deleted { vm_id })
                },
                (Pending::List, HyperReply::Listed { rows }) => {
                    let owner = self.fallback.owner_id();
                    Ok(VmOpReply::Listed { rows: self.publish(&owner, &rows) })
                },
                _ => Err(concat("hyper: unexpected reply ", shown)),
            },
        }
    }

    /// Turns a store's answer into the reply.
    pub fn resume(&mut self, call: StoreCall, outcome: StoreOutcome) -> (r: HostResult)
        requires
            old(self).wf(),
        ensures
            final(self).wf(),
            final(self)@ == (CelhyperView { fallback: final(self)@.fallback, ..old(self)@ }),
            host::resumed(old(self)@.fallback, call, outcome, final(self)@.fallback, r),
    {
        self.fallback.resume(call, outcome)
    }

    /// The rows of the VMs that a kernel lists.
    fn publish(&self, owner: &NodeId, rows: &Vec<HyperVmRow>) -> (r: Vec<RemoteVm>)
        ensures
            federation::vm_views(r@) == all_published(self@, rows@, owner@),
    {
        let mut out: Vec<RemoteVm> = Vec::new();
        let mut i: usize = 0;
        while i < rows.len()
            invariant
                i <= rows@.len(),
                out@.len() == i,
                forall|j: int|
                    0 <= j < i ==> (#[trigger] out@[j])@ == published(
                        self@,
                        rows@[j]@,
                        owner@,
                    ),
            decreases rows@.len() - i,
        {
            let x = &rows[i];
            let label = if byte_len(x.label.as_str()) == 0 {
                proof {
                    encode_utf8_decode_utf8(x.label@);
                    assert(decode_utf8(Seq::empty()) =~= Seq::empty());
                    assert(encode_utf8(x.label@) =~= Seq::empty());
                }
                self.label_of(x.vm_id)
            } else {
                x.label.clone()
            };
            let volumes: Vec<VolumeAttachment> = Vec::new();
            assert(vault::attachment_views(volumes@) =~= Seq::empty());
            out.push(
                RemoteVm {
                    owner: owner.clone(),
                    vm_id: x.vm_id,
                    label,
                    state: x.state.clone(),
                    last_exit: x.last_exit,
                    epoch: 0,
                    hlc: 0,
                    owner_alive: true,
                    restart_policy: self.policy_of(x.vm_id),
                    volumes,
                    image_path: clone_text(&x.image_path),
                    cpu_count: x.cpu_count,
                    memory_mib: x.memory_mib,
                    boot_blob_crc32c: x.boot_blob_crc32c,
                },
            );
            i = i + 1;
        }
        assert(federation::vm_views(out@) =~= all_published(self@, rows@, owner@));
        out
    }

    /// The rows of the VMs, from the kernel's answer to [`HyperRequest::List`].
    /// Any other answer, and a link that failed, give no rows.
    pub fn snapshot(&self, owner: &NodeId, answer: Option<HyperReply>) -> (r: Vec<RemoteVm>)
        ensures
            snapped(self@, owner@, answer, r@),
    {
        match answer {
            Some(HyperReply::Listed { rows }) => self.publish(owner, &rows),
            _ => Vec::new(),
        }
    }

    /// Gives a VM attachments that were made elsewhere.
    pub fn attach_preserved(&mut self, vm_id: u32, attachments: Vec<VolumeAttachment>) -> (r:
        Result<(), String>)
        requires
            old(self).wf(),
        ensures
            final(self).wf(),
            preserves(old(self)@, vm_id, attachments@, final(self)@, r),
    {
        self.fallback.attach_preserved(vm_id, attachments)
    }

    /// The request that stages a boot image.
    pub fn stage_image(bytes: &[u8]) -> (r: Result<HyperRequest, String>)
        ensures
            stages(bytes@, r),
    {
        if bytes.len() == 0 {
            return Err("hyper: stage_image: bytes is empty".to_owned());
        }
        if bytes.len() > MAX_STAGED_IMAGE_BYTES {
            let mut m = concat(
                "hyper: stage_image: ",
                decimal_string(bytes.len() as u64).as_str(),
            );
            m.append(" bytes exceeds MAX_STAGED_IMAGE_BYTES (");
            m.append(decimal_string(MAX_STAGED_IMAGE_BYTES as u64).as_str());
            m.append(")");
            return Err(m);
        }
        Ok(
            HyperRequest::ImageLoad {
                len: bytes.len() as u32,
                crc32c: crc32c_bytes(bytes),
                bytes_hex: hex_encode(bytes),
            },
        )
    }

    /// The checksum of a staged image, once the kernel has echoed what was
    /// sent.
    pub fn stage_image_end(
        len: u32,
        crc: u32,
        answer: Result<HyperReply, String>,
        shown: &str,
    ) -> (r: Result<u32, String>)
        ensures
            match staged(len, crc, answer, shown@) {
                Ok(c) => r == Ok::<u32, String>(c),
                Err(m) => r matches Err(e) && e@ == m,
            },
    {
        match answer {
            Err(e) => Err(concat("hyper: ", e.as_str())),
            Ok(HyperReply::Error { message }) => Err(concat("hyper: kernel: ", message.as_str())),
            Ok(HyperReply::ImageLoaded { len: rlen, crc32c: rcrc }) => {
                if rlen != len || rcrc != crc {
                    let mut m = concat(
                        "hyper: stage_image: kernel echoed ",
                        stamp(rlen, rcrc).as_str(),
                    );
                    m.append("; expected ");
                    m.append(stamp(len, crc).as_str());
                    return Err(m);
                }
                Ok(crc)
            },
            Ok(_) => Err(concat("hyper: unexpected reply ", shown)),
        }
    }
}

/// A lower-case hexadecimal digit has its value.
proof fn lemma_nibble(d: int)
    requires
        0 <= d < 16,
    ensures
        (text::hex_char(d) as u32) < 128,
        nibble(text::hex_char(d) as u8) == Some(d as u8),
{
}

/// Rendering and decoding undo each other.
pub proof fn law_hex_round_trip(bytes: Seq<u8>)
    ensures
        is_ascii_chars(text::hex_of(bytes)),
        hex_decoded(encode_utf8(text::hex_of(bytes))) == Some(bytes),
    decreases bytes.len(),
{
    let t = text::hex_of(bytes);
    if bytes.len() == 0 {
        assert(encode_utf8(t) =~= Seq::empty());
        assert(bytes =~= Seq::empty());
    } else {
        let p = text::hex_of(bytes.drop_last());
        law_hex_round_trip(bytes.drop_last());
        let b = bytes.last();
        let hi = text::hex_char((b / 16) as int);
        let lo = text::hex_char((b % 16) as int);
        lemma_nibble((b / 16) as int);
        lemma_nibble((b % 16) as int);
        assert(t == p.push(hi).push(lo));
        assert(is_ascii_chars(t)) by {
            assert forall|i: int| 0 <= i < t.len() implies (#[trigger] t[i] as nat) < 128 by {
                if i < p.len() {
                    assert(t[i] == p[i]);
                }
            }
        }
        is_ascii_chars_encode_utf8(t);
        is_ascii_chars_encode_utf8(p);
        let e = encode_utf8(t);
        assert(e.take(e.len() - 2) =~= encode_utf8(p));
        assert(e[e.len() - 2] == hi as u8);
        assert(e[e.len() - 1] == lo as u8);
        assert((b / 16) * 16 + b % 16 == b);
        assert(bytes.drop_last().push(b) =~= bytes);
    }
}

/// An image of a size that the kernel stages is acknowledged by the kernel in
/// this process, and staging it then gives its checksum.
pub proof fn law_staging(
    bytes: Seq<u8>,
    s: Slots,
    hex: String,
    n: Slots,
    r: CelResult<HyperReply>,
    shown: Seq<char>,
)
    requires
        stage_fault(bytes.len()) is None,
        hex@ == text::hex_of(bytes),
        applied(
            s,
            HyperRequest::ImageLoad {
                len: bytes.len() as u32,
                crc32c: util::crc_of(bytes),
                bytes_hex: hex,
            },
            n,
            r,
        ),
    ensures
        n == s,
        r is Ok,
        staged(
            bytes.len() as u32,
            util::crc_of(bytes),
            Ok::<HyperReply, String>(r->Ok_0),
            shown,
        ) == Ok::<u32, Seq<char>>(util::crc_of(bytes)),
{
    law_hex_round_trip(bytes);
    text::lemma_hex_len(bytes);
    is_ascii_chars_encode_utf8(text::hex_of(bytes));
}

/// An image whose checksum is not the announced one is refused.
pub proof fn law_wrong_checksum_is_refused(
    bytes: Seq<u8>,
    crc: u32,
    s: Slots,
    hex: String,
    n: Slots,
    r: CelResult<HyperReply>,
)
    requires
        hex@ == text::hex_of(bytes),
        bytes.len() <= u32::MAX,
        crc != util::crc_of(bytes),
        applied(
            s,
            HyperRequest::ImageLoad { len: bytes.len() as u32, crc32c: crc, bytes_hex: hex },
            n,
            r,
        ),
    ensures
        n == s,
        r is Err,
{
    law_hex_round_trip(bytes);
}

/// The reference host and the kernel hold the same VMs.
pub open spec fn same_vms(h: Seq<Option<SlotView>>, l: Slots) -> bool {
    &&& h.len() == HYPER_MAX_VMS
    &&& l.len() == HYPER_MAX_VMS
    &&& forall|i: int|
        0 <= i < l.len() ==> match ((#[trigger] h[i]), (#[trigger] l[i])) {
            (None, None) => true,
            (Some(x), Some(y)) => x.label == y.label && x.state == y.state && x.last_exit
                == y.last_exit && x.image_path == y.image_path && x.cpu_count == y.cpu_count
                && x.memory_mib == y.memory_mib && x.boot_blob_crc32c == y.boot_blob_crc32c,
            _ => false,
        }
}

/// Where both hold the same VMs, both find the same free slot.
proof fn lemma_same_free(h: Seq<Option<SlotView>>, l: Slots, i: int)
    requires
        same_vms(h, l),
        0 <= i,
    ensures
        first_free(l, i) == host::first_free(h, i),
        match first_free(l, i) {
            Some(k) => i <= k < l.len(),
            None => true,
        },
    decreases l.len() - i,
{
    if i < l.len() {
        assert(h[i] is None == l[i] is None);
        if l[i] is Some {
            lemma_same_free(h, l, i + 1);
        }
    }
}

/// The kernel in this process and the reference host go through the same life
/// cycle: from the same VMs, an operation succeeds on both or on neither, and
/// both hold the same VMs after it. The kernel alone limits the image path.
pub proof fn law_same_life_cycle(
    h: HostView,
    l: Slots,
    op: VmOp,
    h2: HostView,
    r: HostStep,
    req: HyperRequest,
    l2: Slots,
    q: CelResult<HyperReply>,
)
    requires
        same_vms(h.slots, l),
        h.caps.includes(capabilities::required_for(op)),
        host::stepped(h, op, h2, r),
        applied(l, req, l2, q),
        match (op, req) {
            (
                VmOp::Create {
                    label,
                    image_path,
                    cpu_count,
                    memory_mib,
                    boot_blob_crc32c,
                    ..
                },
                _,
            ) => req == (HyperRequest::Create {
                label,
                image_path,
                cpu_count,
                memory_mib,
                boot_blob_crc32c,
            }) && (image_path is Some ==> encode_utf8(image_path->0@).len()
                <= HYPER_MAX_PATH_BYTES),
            (VmOp::Start { vm_id }, _) => req == (HyperRequest::Start { vm_id }),
            (VmOp::Stop { vm_id }, _) => req == (HyperRequest::Stop { vm_id }),
            (VmOp::Delete { vm_id }, _) => req == (HyperRequest::Delete { vm_id }),
            _ => false,
        },
    ensures
        same_vms(h2.slots, l2),
        r is Reply,
        r->Reply_0 is Ok == q is Ok,
{
    lemma_same_free(h.slots, l, 0);
    match op {
        VmOp::Start { vm_id } | VmOp::Stop { vm_id } | VmOp::Delete { vm_id } => {
            if vm_id < HYPER_MAX_VMS {
                assert(h.slots[vm_id as int] is None == l[vm_id as int] is None);
            }
        },
        _ => {},
    }
}

} // verus!
