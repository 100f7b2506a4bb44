//! The reference VM host: a small table of VM slots.
//!
//! Volumes and networks live in stores outside this crate. An operation on
//! them takes two steps: [`MemVmHost::apply`] checks it and says what to ask
//! the store, and [`MemVmHost::resume`] turns the store's answer into the
//! reply.

use vstd::prelude::*;
use vstd::string::*;
use vstd::utf8::*;

use crate::mesh::capabilities;
use crate::mesh::capabilities::Capabilities;
use crate::mesh::federation;
use crate::mesh::federation::{clone_text, RemoteVm, RemoteVmView, RestartPolicy};
use crate::mesh::membership::NodeId;
use crate::mesh::net;
use crate::mesh::net::parse_ipv4;
use crate::mesh::proto::{VmOp, VmOpReply};
use crate::mesh::vault;
use crate::mesh::vault::{
    clone_attachments, Ipv4, LbAlgo, LbBackend, LoadBalancer, LoadBalancerId, NetworkId, Nic,
    NicId, SecurityGroup, SecurityGroupId, SecurityRule, SnapshotId, SnapshotMeta, VirtualNetwork,
    VolumeAttachment, VolumeId, VolumeMeta,
};
use crate::text::{byte_len, concat};

verus! {

/// Number of VM slots.
pub const MAX_SLOTS: usize = 4;

/// Largest read or write of a volume, in bytes.
pub const MAX_VOLUME_IO_BYTES: usize = 32768;

/// Longest label, in bytes.
pub const MAX_LABEL_BYTES: usize = 32;

/// Exit code of a guest that halts.
pub const HALT_EXIT_CODE: u32 = 12;

/// Life cycle of a VM.
#[derive(Debug, Clone, Copy, PartialEq, Eq, Structural)]
pub enum VmState {
    /// Allocated and not run yet.
    Created,
    /// Running.
    Running,
    /// Ran to its end.
    Halted,
    /// Was stopped.
    Stopped,
    /// Ran into a fault.
    Faulted,
}

/// The tag of a state.
pub open spec fn state_tag(s: VmState) -> &'static str {
    match s {
        VmState::Created => "created",
        VmState::Running => "running",
        VmState::Halted => "halted",
        VmState::Stopped => "stopped",
        VmState::Faulted => "faulted",
    }
}

impl VmState {
    /// The tag of the state.
    pub fn tag(&self) -> (r: &'static str)
        ensures
            r == state_tag(*self),
    {
        match self {
            VmState::Created => "created",
            VmState::Running => "running",
            VmState::Halted => "halted",
            VmState::Stopped => "stopped",
            VmState::Faulted => "faulted",
        }
    }

    /// Whether the VM has come to an end.
    pub open spec fn over(self) -> bool {
        self == VmState::Halted || self == VmState::Stopped || self == VmState::Faulted
    }

    /// See [`VmState::over`].
    pub fn is_terminal(&self) -> (r: bool)
        ensures
            r == self.over(),
    {
        match self {
            VmState::Halted | VmState::Stopped | VmState::Faulted => true,
            _ => false,
        }
    }
}

/// One VM of a host.
#[derive(Debug)]
pub struct Slot {
    /// Label.
    pub label: String,
    /// State.
    pub state: VmState,
    /// Last exit code.
    pub last_exit: Option<u32>,
    /// What happens when the owner is gone.
    pub restart_policy: RestartPolicy,
    /// Attached volumes.
    pub volumes: Vec<VolumeAttachment>,
    /// Image of the VM.
    pub image_path: Option<String>,
    /// Number of vCPUs.
    pub cpu_count: Option<u32>,
    /// Memory, in MiB.
    pub memory_mib: Option<u64>,
    /// Checksum of the boot blob.
    pub boot_blob_crc32c: Option<u32>,
}

/// Mathematical value of a [`Slot`].
#[verifier::ext_equal]
pub struct SlotView {
    /// See [`Slot::label`].
    pub label: Seq<char>,
    /// See [`Slot::state`].
    pub state: VmState,
    /// See [`Slot::last_exit`].
    pub last_exit: Option<u32>,
    /// See [`Slot::restart_policy`].
    pub restart_policy: RestartPolicy,
    /// See [`Slot::volumes`].
    pub volumes: Seq<(Seq<char>, Seq<char>)>,
    /// See [`Slot::image_path`].
    pub image_path: Option<Seq<char>>,
    /// See [`Slot::cpu_count`].
    pub cpu_count: Option<u32>,
    /// See [`Slot::memory_mib`].
    pub memory_mib: Option<u64>,
    /// See [`Slot::boot_blob_crc32c`].
    pub boot_blob_crc32c: Option<u32>,
}

impl View for Slot {
    type V = SlotView;

    open spec fn view(&self) -> SlotView {
        SlotView {
            label: self.label@,
            state: self.state,
            last_exit: self.last_exit,
            restart_policy: self.restart_policy,
            volumes: vault::attachment_views(self.volumes@),
            image_path: federation::text_view(self.image_path),
            cpu_count: self.cpu_count,
            memory_mib: self.memory_mib,
            boot_blob_crc32c: self.boot_blob_crc32c,
        }
    }
}

/// Mathematical value of an optional slot.
pub open spec fn slot_view(s: Option<Slot>) -> Option<SlotView> {
    match s {
        Some(x) => Some(x@),
        None => None,
    }
}

/// A host with a fixed number of VM slots.
#[derive(Debug)]
pub struct MemVmHost {
    /// Slots.
    pub slots: Vec<Option<Slot>>,
    /// Node that the host belongs to, once known.
    pub owner: Option<String>,
    /// Capabilities granted to callers.
    pub caps: Capabilities,
    /// Longest mount point that the volume store takes, in bytes.
    pub max_mount: usize,
}

/// Mathematical value of a [`MemVmHost`].
#[verifier::ext_equal]
pub struct HostView {
    /// See [`MemVmHost::slots`].
    pub slots: Seq<Option<SlotView>>,
    /// See [`MemVmHost::owner`].
    pub owner: Option<Seq<char>>,
    /// See [`MemVmHost::caps`].
    pub caps: Capabilities,
    /// See [`MemVmHost::max_mount`].
    pub max_mount: usize,
}

impl View for MemVmHost {
    type V = HostView;

    open spec fn view(&self) -> HostView {
        HostView {
            slots: Seq::new(self.slots@.len(), |i: int| slot_view(self.slots@[i])),
            owner: federation::text_view(self.owner),
            caps: self.caps,
            max_mount: self.max_mount,
        }
    }
}

/// What a host asks a store to do.
#[derive(Debug)]
pub enum StoreCall {
    /// Allocate a volume.
    CreateVolume {
        /// Owner of the volume.
        owner: String,
        /// Label.
        name: String,
        /// Size in bytes.
        size_bytes: u64,
    },
    /// Delete a volume.
    DeleteVolume {
        /// Volume.
        volume_id: VolumeId,
    },
    /// List the volumes.
    ListVolumes,
    /// Say whether a volume exists; it is to be attached.
    FindVolume {
        /// VM that the volume is for.
        vm_id: u32,
        /// Volume.
        volume_id: VolumeId,
        /// Mount point.
        mount_name: String,
    },
    /// Read from a volume.
    ReadVolume {
        /// Volume.
        volume_id: VolumeId,
        /// Where to start.
        offset: u64,
        /// How much to read.
        len: usize,
    },
    /// Write to a volume.
    WriteVolume {
        /// Volume.
        volume_id: VolumeId,
        /// Where to start.
        offset: u64,
        /// What to write.
        bytes: Vec<u8>,
    },
    /// Capture a volume.
    CreateSnapshot {
        /// Volume.
        volume_id: VolumeId,
        /// Label.
        name: String,
    },
    /// List snapshots.
    ListSnapshots {
        /// Volume, or all.
        volume_id: Option<VolumeId>,
    },
    /// Delete a snapshot.
    DeleteSnapshot {
        /// Snapshot.
        snapshot_id: SnapshotId,
    },
    /// Put a snapshot back.
    RestoreSnapshot {
        /// Snapshot.
        snapshot_id: SnapshotId,
    },
    /// Allocate a network.
    CreateNetwork {
        /// Owner of the network.
        owner: String,
        /// Label.
        name: String,
        /// Address block.
        cidr: String,
    },
    /// Delete a network.
    DeleteNetwork {
        /// Network.
        network_id: NetworkId,
    },
    /// List the networks.
    ListNetworks,
    /// Give a VM an interface.
    AttachNic {
        /// Network.
        network_id: NetworkId,
        /// VM.
        vm_id: u32,
        /// Address, or one that the network picks.
        ip: Option<Ipv4>,
    },
    /// Take an interface away.
    DetachNic {
        /// Interface.
        nic_id: NicId,
    },
    /// List the interfaces.
    ListNics,
    /// Allocate a security group.
    CreateSecurityGroup {
        /// Owner of the group.
        owner: String,
        /// Label.
        name: String,
        /// Rules.
        rules: Vec<SecurityRule>,
    },
    /// Delete a security group.
    DeleteSecurityGroup {
        /// Group.
        sg_id: SecurityGroupId,
    },
    /// List the security groups.
    ListSecurityGroups,
    /// Allocate a load balancer.
    CreateLoadBalancer {
        /// Owner of the load balancer.
        owner: String,
        /// Label.
        name: String,
        /// Network.
        network_id: NetworkId,
        /// Address at which it listens.
        vip: Ipv4,
        /// Port at which it listens.
        frontend_port: u16,
        /// How connections are spread.
        algo: LbAlgo,
        /// Backends.
        backends: Vec<LbBackend>,
    },
    /// Delete a load balancer.
    DeleteLoadBalancer {
        /// Load balancer.
        lb_id: LoadBalancerId,
    },
    /// List the load balancers.
    ListLoadBalancers,
}

/// What a store answers.
#[derive(Debug)]
pub enum StoreOutcome {
    /// It was done, and there is nothing to hand back.
    Done,
    /// Whether something exists.
    Found(bool),
    /// A volume.
    Volume(VolumeMeta),
    /// Volumes.
    Volumes(Vec<VolumeMeta>),
    /// Bytes.
    Data(Vec<u8>),
    /// A snapshot.
    Snapshot(SnapshotMeta),
    /// Snapshots.
    Snapshots(Vec<SnapshotMeta>),
    /// A network.
    Network(VirtualNetwork),
    /// Networks.
    Networks(Vec<VirtualNetwork>),
    /// An interface.
    Nic(Nic),
    /// Interfaces.
    Nics(Vec<Nic>),
    /// A security group.
    Group(SecurityGroup),
    /// Security groups.
    Groups(Vec<SecurityGroup>),
    /// A load balancer.
    Balancer(LoadBalancer),
    /// Load balancers.
    Balancers(Vec<LoadBalancer>),
    /// It failed, with the store's words.
    Failed(String),
}

/// The outcome of an operation; failures are words, as they cross nodes.
pub type HostResult = Result<VmOpReply, String>;

/// What becomes of an operation.
#[derive(Debug)]
pub enum HostStep {
    /// The operation is done.
    Reply(HostResult),
    /// A store has to be asked first.
    Store(StoreCall),
}

/// The step is a refusal with the given words.
pub open spec fn refuses(r: HostStep, msg: Seq<char>) -> bool {
    r matches HostStep::Reply(Err(e)) && e@ == msg
}

/// The result is a failure with the given words.
pub open spec fn fails(r: HostResult, msg: Seq<char>) -> bool {
    r matches Err(e) && e@ == msg
}

/// The first free slot from `i` on.
pub open spec fn first_free(slots: Seq<Option<SlotView>>, i: int) -> Option<int>
    decreases slots.len() - i,
{
    if i >= slots.len() {
        None
    } else if slots[i] is None {
        Some(i)
    } else {
        first_free(slots, i + 1)
    }
}

/// Why a VM cannot be addressed.
pub open spec fn slot_fault(slots: Seq<Option<SlotView>>, vm_id: u32) -> Option<Seq<char>> {
    if vm_id >= MAX_SLOTS {
        Some("vm id out of range"@)
    } else if slots[vm_id as int] is None {
        Some("vm not allocated"@)
    } else {
        None
    }
}

/// Whether a list of attachments holds a volume.
pub open spec fn holds_volume(vols: Seq<(Seq<char>, Seq<char>)>, id: Seq<char>) -> bool {
    exists|i: int| 0 <= i < vols.len() && (#[trigger] vols[i]).0 == id
}

/// A list of attachments without one volume.
pub open spec fn without_volume(vols: Seq<(Seq<char>, Seq<char>)>, id: Seq<char>) -> Seq<
    (Seq<char>, Seq<char>),
>
    decreases vols.len(),
{
    if vols.len() == 0 {
        vols
    } else if vols.last().0 == id {
        without_volume(vols.drop_last(), id)
    } else {
        without_volume(vols.drop_last(), id).push(vols.last())
    }
}

/// Whether some VM has a volume attached.
pub open spec fn attached_anywhere(slots: Seq<Option<SlotView>>, id: Seq<char>) -> bool {
    exists|i: int|
        0 <= i < slots.len() && (#[trigger] slots[i]) is Some && holds_volume(
            slots[i]->0.volumes,
            id,
        )
}

/// A host with one slot changed.
pub open spec fn with_slot(s: HostView, i: int, slot: Option<SlotView>) -> HostView {
    HostView { slots: s.slots.update(i, slot), ..s }
}

/// The reply that tells the state of a VM.
pub open spec fn tells_state(r: HostStep, vm_id: u32, state: VmState) -> bool {
    r matches HostStep::Reply(Ok(VmOpReply::State { vm_id: v, state: t })) && v == vm_id && t@
        == state_tag(state)@
}

/// The reply that tells the attachments of a VM.
pub open spec fn tells_attachments(
    r: HostResult,
    vm_id: u32,
    vols: Seq<(Seq<char>, Seq<char>)>,
) -> bool {
    r matches Ok(VmOpReply::Attachments { vm_id: v, volumes }) && v == vm_id
        && vault::attachment_views(volumes@) == vols
}

/// A new VM.
pub open spec fn fresh_slot(
    label: Seq<char>,
    restart_policy: RestartPolicy,
    image_path: Option<Seq<char>>,
    cpu_count: Option<u32>,
    memory_mib: Option<u64>,
    boot_blob_crc32c: Option<u32>,
) -> SlotView {
    SlotView {
        label,
        state: VmState::Created,
        last_exit: None,
        restart_policy,
        volumes: Seq::empty(),
        image_path,
        cpu_count,
        memory_mib,
        boot_blob_crc32c,
    }
}

/// What [`MemVmHost::apply`] does with an operation that the capabilities
/// allow: the host after it, and the step.
pub open spec fn allowed_step(s: HostView, op: VmOp, n: HostView, r: HostStep) -> bool {
    match op {
        VmOp::Create {
            label,
            restart_policy,
            image_path,
            cpu_count,
            memory_mib,
            boot_blob_crc32c,
        } => if encode_utf8(label@).len() > MAX_LABEL_BYTES {
            n == s && refuses(r, "label > 32 chars"@)
        } else {
            match first_free(s.slots, 0) {
                None => n == s && refuses(r, "vm registry full"@),
                Some(i) => n == with_slot(
                    s,
                    i,
                    Some(
                        fresh_slot(
                            label@,
                            restart_policy,
                            federation::text_view(image_path),
                            cpu_count,
                            memory_mib,
                            boot_blob_crc32c,
                        ),
                    ),
                ) && r == HostStep::Reply(Ok(VmOpReply::Created { vm_id: i as u32 })),
            }
        },
        VmOp::Start { vm_id } => match slot_fault(s.slots, vm_id) {
            Some(m) => n == s && refuses(r, m),
            None => {
                let x = s.slots[vm_id as int]->0;
                if x.state.over() {
                    n == s && refuses(r, "vm already terminal"@)
                } else if x.state == VmState::Running {
                    n == s && refuses(r, "vm already running"@)
                } else {
                    n == with_slot(
                        s,
                        vm_id as int,
                        Some(
                            SlotView {
                                state: VmState::Halted,
                                last_exit: Some(HALT_EXIT_CODE),
                                ..x
                            },
                        ),
                    ) && tells_state(r, vm_id, VmState::Halted)
                }
            },
        },
        VmOp::Stop { vm_id } => match slot_fault(s.slots, vm_id) {
            Some(m) => n == s && refuses(r, m),
            None => {
                let x = s.slots[vm_id as int]->0;
                if x.state.over() {
                    n == s && tells_state(r, vm_id, x.state)
                } else {
                    n == with_slot(
                        s,
                        vm_id as int,
                        Some(SlotView { state: VmState::Stopped, ..x }),
                    ) && tells_state(r, vm_id, VmState::Stopped)
                }
            },
        },
        VmOp::Delete { vm_id } => match slot_fault(s.slots, vm_id) {
            Some(m) => n == s && refuses(r, m),
            None => if !s.slots[vm_id as int]->0.state.over() {
                n == s && refuses(r, "vm not terminal; stop first"@)
            } else {
                n == with_slot(s, vm_id as int, None) && r == HostStep::Reply(
                    Ok(VmOpReply::Deleted { vm_id }),
                )
            },
        },
        VmOp::List => n == s && (r matches HostStep::Reply(Ok(VmOpReply::Listed { rows }))
            && federation::vm_views(rows@) == rows_from(s.slots, known_owner(s), 0)),
        VmOp::DetachVolume { vm_id, volume_id } => match slot_fault(s.slots, vm_id) {
            Some(m) => n == s && refuses(r, m),
            None => {
                let x = s.slots[vm_id as int]->0;
                let vols = without_volume(x.volumes, volume_id@);
                &&& n == with_slot(s, vm_id as int, Some(SlotView { volumes: vols, ..x }))
                &&& r matches HostStep::Reply(q) && tells_attachments(q, vm_id, vols)
            },
        },
        _ => n == s && store_step(s, op, r),
    }
}

/// The step of an operation on volumes and networks, up to the store.
pub open spec fn store_step(s: HostView, op: VmOp, r: HostStep) -> bool {
    match op {
        VmOp::CreateVolume { name, size_bytes } => match s.owner {
            None => refuses(r, "vault: owner not yet known; snapshot first"@),
            Some(o) => r matches HostStep::Store(
                StoreCall::CreateVolume { owner, name: n2, size_bytes: s2 },
            ) && owner@ == o && n2 == name && s2 == size_bytes,
        },
        VmOp::DeleteVolume { volume_id } => if attached_anywhere(s.slots, volume_id@) {
            refuses(r, "vault delete: volume still attached"@)
        } else {
            r == HostStep::Store(StoreCall::DeleteVolume { volume_id })
        },
        VmOp::ListVolumes => r == HostStep::Store(StoreCall::ListVolumes),
        VmOp::AttachVolume { vm_id, volume_id, mount_name } => if encode_utf8(mount_name@).len()
            > s.max_mount {
            refuses(r, "attach: mount_name > MAX_MOUNT"@)
        } else {
            r == HostStep::Store(StoreCall::FindVolume { vm_id, volume_id, mount_name })
        },
        VmOp::ReadVolume { volume_id, offset, len } => if len > MAX_VOLUME_IO_BYTES {
            refuses(r, "volume io: chunk too large"@)
        } else {
            r == HostStep::Store(StoreCall::ReadVolume { volume_id, offset, len: len as usize })
        },
        VmOp::WriteVolume { volume_id, offset, bytes } => if bytes@.len() > MAX_VOLUME_IO_BYTES {
            refuses(r, "volume io: chunk too large"@)
        } else {
            r == HostStep::Store(StoreCall::WriteVolume { volume_id, offset, bytes })
        },
        VmOp::CreateSnapshot { volume_id, name } => r == HostStep::Store(
            StoreCall::CreateSnapshot { volume_id, name },
        ),
        VmOp::ListSnapshots { volume_id } => r == HostStep::Store(
            StoreCall::ListSnapshots { volume_id },
        ),
        VmOp::DeleteSnapshot { snapshot_id } => r == HostStep::Store(
            StoreCall::DeleteSnapshot { snapshot_id },
        ),
        VmOp::RestoreSnapshot { snapshot_id } => r == HostStep::Store(
            StoreCall::RestoreSnapshot { snapshot_id },
        ),
        VmOp::CreateNetwork { name, cidr } => match s.owner {
            None => refuses(r, "net: owner not yet known; snapshot first"@),
            Some(o) => r matches HostStep::Store(
                StoreCall::CreateNetwork { owner, name: n2, cidr: c2 },
            ) && owner@ == o && n2 == name && c2 == cidr,
        },
        VmOp::DeleteNetwork { network_id } => r == HostStep::Store(
            StoreCall::DeleteNetwork { network_id },
        ),
        VmOp::ListNetworks => r == HostStep::Store(StoreCall::ListNetworks),
        VmOp::AttachNic { network_id, vm_id, ip } => match slot_fault(s.slots, vm_id) {
            Some(m) => refuses(r, m),
            None => match ip {
                None => r == HostStep::Store(
                    StoreCall::AttachNic { network_id, vm_id, ip: None },
                ),
                Some(t) => match net::parsed_ipv4(t@) {
                    None => refuses(r, "net.nic.attach: bad ip"@),
                    Some(a) => r == HostStep::Store(
                        StoreCall::AttachNic { network_id, vm_id, ip: Some(a) },
                    ),
                },
            },
        },
        VmOp::DetachNic { nic_id } => r == HostStep::Store(StoreCall::DetachNic { nic_id }),
        VmOp::ListNics => r == HostStep::Store(StoreCall::ListNics),
        VmOp::CreateSecurityGroup { name, rules } => match s.owner {
            None => refuses(r, "sg: owner not yet known; snapshot first"@),
            Some(o) => r matches HostStep::Store(
                StoreCall::CreateSecurityGroup { owner, name: n2, rules: r2 },
            ) && owner@ == o && n2 == name && r2 == rules,
        },
        VmOp::DeleteSecurityGroup { sg_id } => r == HostStep::Store(
            StoreCall::DeleteSecurityGroup { sg_id },
        ),
        VmOp::ListSecurityGroups => r == HostStep::Store(StoreCall::ListSecurityGroups),
        VmOp::CreateLoadBalancer { name, network_id, vip, frontend_port, algo, backends } => match s.owner {
            None => refuses(r, "lb: owner not yet known; snapshot first"@),
            Some(o) => match net::parsed_ipv4(vip@) {
                None => refuses(r, "lb create: bad vip"@),
                Some(a) => r matches HostStep::Store(
                    StoreCall::CreateLoadBalancer {
                        owner,
                        name: n2,
                        network_id: i2,
                        vip: v2,
                        frontend_port: p2,
                        algo: a2,
                        backends: b2,
                    },
                ) && owner@ == o && n2 == name && i2 == network_id && v2 == a && p2
                    == frontend_port && a2 == algo && b2 == backends,
            },
        },
        VmOp::DeleteLoadBalancer { lb_id } => r == HostStep::Store(
            StoreCall::DeleteLoadBalancer { lb_id },
        ),
        VmOp::ListLoadBalancers => r == HostStep::Store(StoreCall::ListLoadBalancers),
        _ => false,
    }
}

/// What [`MemVmHost::apply`] does: an operation without its capability is
/// refused and changes nothing.
pub open spec fn stepped(s: HostView, op: VmOp, n: HostView, r: HostStep) -> bool {
    if !s.caps.includes(capabilities::required_for(op)) {
        n == s && refuses(r, "capability denied: "@ + capabilities::tag_for(op)@)
    } else {
        allowed_step(s, op, n, r)
    }
}

/// The words that stand before a store's own when a call fails; nothing for
/// a call that cannot fail.
pub open spec fn failure_prefix(call: StoreCall) -> Option<&'static str> {
    match call {
        StoreCall::CreateVolume { .. } => Some("vault create: "),
        StoreCall::DeleteVolume { .. } => Some("vault delete: "),
        StoreCall::ReadVolume { .. } => Some("vault read: "),
        StoreCall::WriteVolume { .. } => Some("vault write: "),
        StoreCall::CreateSnapshot { .. } => Some("vault snapshot: "),
        StoreCall::DeleteSnapshot { .. } => Some("vault snapshot delete: "),
        StoreCall::RestoreSnapshot { .. } => Some("vault snapshot restore: "),
        StoreCall::CreateNetwork { .. } => Some("net create: "),
        StoreCall::DeleteNetwork { .. } => Some("net delete: "),
        StoreCall::AttachNic { .. } => Some("net.nic.attach: "),
        StoreCall::DetachNic { .. } => Some("net.nic.detach: "),
        StoreCall::CreateSecurityGroup { .. } => Some("sg create: "),
        StoreCall::DeleteSecurityGroup { .. } => Some("sg delete: "),
        StoreCall::CreateLoadBalancer { .. } => Some("lb create: "),
        StoreCall::DeleteLoadBalancer { .. } => Some("lb delete: "),
        _ => None,
    }
}

/// The reply to a call that a store answered, where nothing in the host
/// changes; nothing if the answer does not fit the call.
pub open spec fn plain_reply(call: StoreCall, out: StoreOutcome) -> Option<VmOpReply> {
    match (call, out) {
        (StoreCall::CreateVolume { .. }, StoreOutcome::Volume(volume)) => Some(
            VmOpReply::VolumeCreated { volume },
        ),
        (StoreCall::DeleteVolume { volume_id }, StoreOutcome::Done) => Some(
            VmOpReply::VolumeDeleted { volume_id },
        ),
        (StoreCall::ListVolumes, StoreOutcome::Volumes(volumes)) => Some(
            VmOpReply::VolumesListed { volumes },
        ),
        (StoreCall::ReadVolume { volume_id, .. }, StoreOutcome::Data(bytes)) => Some(
            VmOpReply::VolumeData { volume_id, bytes },
        ),
        (StoreCall::WriteVolume { volume_id, offset, bytes }, StoreOutcome::Done) => Some(
            VmOpReply::VolumeWritten { volume_id, bytes_written: bytes@.len() as u64 },
        ),
        (StoreCall::CreateSnapshot { .. }, StoreOutcome::Snapshot(snapshot)) => Some(
            VmOpReply::SnapshotCreated { snapshot },
        ),
        (StoreCall::ListSnapshots { .. }, StoreOutcome::Snapshots(snapshots)) => Some(
            VmOpReply::SnapshotsListed { snapshots },
        ),
        (StoreCall::DeleteSnapshot { snapshot_id }, StoreOutcome::Done) => Some(
            VmOpReply::SnapshotDeleted { snapshot_id },
        ),
        (StoreCall::RestoreSnapshot { snapshot_id }, StoreOutcome::Done) => Some(
            VmOpReply::SnapshotRestored { snapshot_id },
        ),
        (StoreCall::CreateNetwork { .. }, StoreOutcome::Network(network)) => Some(
            VmOpReply::NetworkCreated { network },
        ),
        (StoreCall::DeleteNetwork { network_id }, StoreOutcome::Done) => Some(
            VmOpReply::NetworkDeleted { network_id },
        ),
        (StoreCall::ListNetworks, StoreOutcome::Networks(networks)) => Some(
            VmOpReply::NetworksListed { networks },
        ),
        (StoreCall::AttachNic { .. }, StoreOutcome::Nic(nic)) => Some(
            VmOpReply::NicAttached { nic },
        ),
        (StoreCall::DetachNic { nic_id }, StoreOutcome::Done) => Some(
            VmOpReply::NicDetached { nic_id },
        ),
        (StoreCall::ListNics, StoreOutcome::Nics(nics)) => Some(VmOpReply::NicsListed { nics }),
        (StoreCall::CreateSecurityGroup { .. }, StoreOutcome::Group(sg)) => Some(
            VmOpReply::SecurityGroupCreated { sg },
        ),
        (StoreCall::DeleteSecurityGroup { sg_id }, StoreOutcome::Done) => Some(
            VmOpReply::SecurityGroupDeleted { sg_id },
        ),
        (StoreCall::ListSecurityGroups, StoreOutcome::Groups(sgs)) => Some(
            VmOpReply::SecurityGroupsListed { sgs },
        ),
        (StoreCall::CreateLoadBalancer { .. }, StoreOutcome::Balancer(lb)) => Some(
            VmOpReply::LoadBalancerCreated { lb },
        ),
        (StoreCall::DeleteLoadBalancer { lb_id }, StoreOutcome::Done) => Some(
            VmOpReply::LoadBalancerDeleted { lb_id },
        ),
        (StoreCall::ListLoadBalancers, StoreOutcome::Balancers(lbs)) => Some(
            VmOpReply::LoadBalancersListed { lbs },
        ),
        _ => None,
    }
}

/// What is said of an answer that does not fit the call.
pub open spec fn unfit() -> &'static str {
    "store: answer does not fit the call"
}

/// What [`MemVmHost::resume`] does.
pub open spec fn resumed(
    s: HostView,
    call: StoreCall,
    out: StoreOutcome,
    n: HostView,
    r: HostResult,
) -> bool {
    match (call, out) {
        (_, StoreOutcome::Failed(why)) => n == s && match failure_prefix(call) {
            Some(p) => fails(r, p@ + why@),
            None => fails(r, unfit()@),
        },
        (StoreCall::FindVolume { vm_id, volume_id, mount_name }, StoreOutcome::Found(found)) => if !found {
            n == s && fails(r, "attach: unknown volume"@)
        } else {
            match slot_fault(s.slots, vm_id) {
                Some(m) => n == s && fails(r, m),
                None => {
                    let x = s.slots[vm_id as int]->0;
                    if holds_volume(x.volumes, volume_id@) {
                        n == s && fails(r, "attach: volume already attached"@)
                    } else {
                        let vols = x.volumes.push((volume_id@, mount_name@));
                        &&& n == with_slot(s, vm_id as int, Some(SlotView { volumes: vols, ..x }))
                        &&& tells_attachments(r, vm_id, vols)
                    }
                },
            }
        },
        _ => n == s && match plain_reply(call, out) {
            Some(reply) => r == Ok::<VmOpReply, String>(reply),
            None => fails(r, unfit()@),
        },
    }
}

/// The owner that a host names in what it lists: no text while none is known.
pub open spec fn known_owner(s: HostView) -> Seq<char> {
    match s.owner {
        Some(o) => o,
        None => Seq::empty(),
    }
}

/// The rows that a host publishes, from slot `i` on.
pub open spec fn rows_from(slots: Seq<Option<SlotView>>, owner: Seq<char>, i: int) -> Seq<
    RemoteVmView,
>
    decreases slots.len() - i,
{
    if i >= slots.len() || i < 0 {
        Seq::empty()
    } else {
        match slots[i] {
            None => rows_from(slots, owner, i + 1),
            Some(x) => seq![row_of(x, owner, i as u32)] + rows_from(slots, owner, i + 1),
        }
    }
}

/// The row of one VM.
pub open spec fn row_of(x: SlotView, owner: Seq<char>, vm_id: u32) -> RemoteVmView {
    RemoteVmView {
        owner,
        vm_id,
        label: x.label,
        state: state_tag(x.state)@,
        last_exit: x.last_exit,
        epoch: 0,
        hlc: 0,
        owner_alive: true,
        restart_policy: x.restart_policy,
        volumes: x.volumes,
        image_path: x.image_path,
        cpu_count: x.cpu_count,
        memory_mib: x.memory_mib,
        boot_blob_crc32c: x.boot_blob_crc32c,
    }
}

/// Builds a refusal.
fn refuse(msg: &str) -> (r: HostStep)
    ensures
        refuses(r, msg@),
{
    HostStep::Reply(Err(msg.to_owned()))
}

impl MemVmHost {
    /// The host has its fixed number of slots.
    pub open spec fn wf(&self) -> bool {
        self.slots@.len() == MAX_SLOTS
    }

    /// A host without VMs that grants everything. `max_mount` is the longest
    /// mount point that the volume store takes.
    pub fn new(max_mount: usize) -> (r: MemVmHost)
        ensures
            r.wf(),
            r@ == (HostView {
                slots: seq![None, None, None, None],
                owner: None,
                caps: Capabilities::all(),
                max_mount,
            }),
    {
        let mut slots: Vec<Option<Slot>> = Vec::new();
        slots.push(None);
        slots.push(None);
        slots.push(None);
        slots.push(None);
        let r = MemVmHost { slots, owner: None, caps: Capabilities::all(), max_mount };
        assert(r@.slots =~= seq![None, None, None, None]);
        r
    }

    /// Replaces the capabilities that callers are granted.
    pub fn with_caps(self, caps: Capabilities) -> (r: MemVmHost)
        ensures
            r@ == (HostView { caps, ..self@ }),
            self.wf() ==> r.wf(),
    {
        MemVmHost { slots: self.slots, owner: self.owner, caps, max_mount: self.max_mount }
    }

    /// The capabilities that callers are granted.
    pub fn caps(&self) -> (r: Capabilities)
        ensures
            r == self.caps,
    {
        self.caps
    }

    /// Why a VM cannot be addressed.
    fn fault(&self, vm_id: u32) -> (r: Option<&'static str>)
        requires
            self.wf(),
        ensures
            match r {
                Some(m) => slot_fault(self@.slots, vm_id) == Some(m@),
                None => slot_fault(self@.slots, vm_id) is None && vm_id < self.slots@.len()
                    && self.slots@[vm_id as int] is Some,
            },
    {
        if vm_id as usize >= MAX_SLOTS {
            return Some("vm id out of range");
        }
        match &self.slots[vm_id as usize] {
            None => Some("vm not allocated"),
            Some(_) => None,
        }
    }

    /// The state of a VM.
    fn state_of(&self, vm_id: u32) -> (r: VmState)
        requires
            vm_id < self.slots@.len(),
            self.slots@[vm_id as int] is Some,
        ensures
            r == self.slots@[vm_id as int]->0.state,
    {
        match &self.slots[vm_id as usize] {
            Some(x) => x.state,
            None => {
                assert(false);
                VmState::Created
            },
        }
    }

    /// Moves a VM to another state.
    fn set_state(&mut self, vm_id: u32, state: VmState, last_exit: Option<u32>)
        requires
            vm_id < old(self).slots@.len(),
            old(self).slots@[vm_id as int] is Some,
        ensures
            final(self)@ == with_slot(
                old(self)@,
                vm_id as int,
                Some(
                    SlotView { state, last_exit, ..old(self)@.slots[vm_id as int]->0 },
                ),
            ),
            final(self).slots@.len() == old(self).slots@.len(),
    {
        let ghost before = self@;
        let mut slot: Option<Slot> = None;
        std::mem::swap(&mut self.slots[vm_id as usize], &mut slot);
        if let Some(x) = slot {
            let y = Slot {
                label: x.label,
                state,
                last_exit,
                restart_policy: x.restart_policy,
                volumes: x.volumes,
                image_path: x.image_path,
                cpu_count: x.cpu_count,
                memory_mib: x.memory_mib,
                boot_blob_crc32c: x.boot_blob_crc32c,
            };
            self.slots[vm_id as usize] = Some(y);
        }
        assert(self@.slots =~= before.slots.update(
            vm_id as int,
            Some(SlotView { state, last_exit, ..before.slots[vm_id as int]->0 }),
        ));
    }

    /// Replaces the attachments of a VM.
    fn set_volumes(&mut self, vm_id: u32, volumes: Vec<VolumeAttachment>)
        requires
            vm_id < old(self).slots@.len(),
            old(self).slots@[vm_id as int] is Some,
        ensures
            final(self)@ == with_slot(
                old(self)@,
                vm_id as int,
                Some(
                    SlotView {
                        volumes: vault::attachment_views(volumes@),
                        ..old(self)@.slots[vm_id as int]->0
                    },
                ),
            ),
            final(self).slots@.len() == old(self).slots@.len(),
    {
        let ghost before = self@;
        let ghost vols = vault::attachment_views(volumes@);
        let mut slot: Option<Slot> = None;
        std::mem::swap(&mut self.slots[vm_id as usize], &mut slot);
        if let Some(x) = slot {
            let y = Slot {
                label: x.label,
                state: x.state,
                last_exit: x.last_exit,
                restart_policy: x.restart_policy,
                volumes,
                image_path: x.image_path,
                cpu_count: x.cpu_count,
                memory_mib: x.memory_mib,
                boot_blob_crc32c: x.boot_blob_crc32c,
            };
            self.slots[vm_id as usize] = Some(y);
        }
        assert(self@.slots =~= before.slots.update(
            vm_id as int,
            Some(SlotView { volumes: vols, ..before.slots[vm_id as int]->0 }),
        ));
    }

    /// The attachments of a VM, copied.
    fn volumes_of(&self, vm_id: u32) -> (r: Vec<VolumeAttachment>)
        requires
            vm_id < self.slots@.len(),
            self.slots@[vm_id as int] is Some,
        ensures
            vault::attachment_views(r@) == self@.slots[vm_id as int]->0.volumes,
    {
        match &self.slots[vm_id as usize] {
            Some(x) => clone_attachments(&x.volumes),
            None => {
                assert(false);
                Vec::new()
            },
        }
    }

    /// Whether some VM has a volume attached.
    fn is_attached(&self, id: &VolumeId) -> (r: bool)
        ensures
            r == attached_anywhere(self@.slots, id@),
    {
        let mut i: usize = 0;
        while i < self.slots.len()
            invariant
                i <= self.slots@.len(),
                forall|j: int|
                    0 <= j < i ==> !((#[trigger] self@.slots[j]) is Some && holds_volume(
                        self@.slots[j]->0.volumes,
                        id@,
                    )),
            decreases self.slots@.len() - i,
        {
            if let Some(x) = &self.slots[i] {
                if has_volume(&x.volumes, id) {
                    assert(self@.slots[i as int] is Some);
                    return true;
                }
            }
            i = i + 1;
        }
        false
    }

    /// Allocates a VM in the first free slot.
    fn create(
        &mut self,
        label: String,
        restart_policy: RestartPolicy,
        image_path: Option<String>,
        cpu_count: Option<u32>,
        memory_mib: Option<u64>,
        boot_blob_crc32c: Option<u32>,
    ) -> (r: HostStep)
        requires
            old(self).wf(),
        ensures
            final(self).wf(),
            allowed_step(
                old(self)@,
                VmOp::Create {
                    label,
                    restart_policy,
                    image_path,
                    cpu_count,
                    memory_mib,
                    boot_blob_crc32c,
                },
                final(self)@,
                r,
            ),
    {
        if byte_len(label.as_str()) > MAX_LABEL_BYTES {
            return refuse("label > 32 chars");
        }
        let ghost before = self@;
        let mut i: usize = 0;
        while i < self.slots.len()
            invariant
                i <= self.slots@.len(),
                self@ == before,
                self@ == old(self)@,
                self.wf(),
                first_free(before.slots, 0) == first_free(before.slots, i as int),
                encode_utf8(label@).len() <= MAX_LABEL_BYTES,
            decreases self.slots@.len() - i,
        {
            if self.slots[i].is_none() {
                let ghost fresh = fresh_slot(
                    label@,
                    restart_policy,
                    federation::text_view(image_path),
                    cpu_count,
                    memory_mib,
                    boot_blob_crc32c,
                );
                let slot = Slot {
                    label,
                    state: VmState::Created,
                    last_exit: None,
                    restart_policy,
                    volumes: Vec::new(),
                    image_path,
                    cpu_count,
                    memory_mib,
                    boot_blob_crc32c,
                };
                proof {
                    assert(slot@.volumes =~= Seq::empty());
                }
                self.slots[i] = Some(slot);
                assert(self@.slots =~= before.slots.update(i as int, Some(fresh)));
                return HostStep::Reply(Ok(VmOpReply::Created { vm_id: i as u32 }));
            }
            assert(before.slots[i as int] is Some);
            i = i + 1;
        }
        refuse("vm registry full")
    }

    /// Applies an operation, or says what to ask a store.
    pub fn apply(&mut self, op: VmOp) -> (r: HostStep)
        requires
            old(self).wf(),
        ensures
            final(self).wf(),
            stepped(old(self)@, op, final(self)@, r),
    {
        if !self.caps.contains(Capabilities::required(&op)) {
            let msg = concat("capability denied: ", Capabilities::op_tag(&op));
            return HostStep::Reply(Err(msg));
        }
        match op {
            VmOp::Create {
                label,
                restart_policy,
                image_path,
                cpu_count,
                memory_mib,
                boot_blob_crc32c,
            } => self.create(
                label,
                restart_policy,
                image_path,
                cpu_count,
                memory_mib,
                boot_blob_crc32c,
            ),
            VmOp::Start { vm_id } => {
                if let Some(m) = self.fault(vm_id) {
                    return refuse(m);
                }
                let state = self.state_of(vm_id);
                if state.is_terminal() {
                    return refuse("vm already terminal");
                }
                if state == VmState::Running {
                    return refuse("vm already running");
                }
                self.set_state(vm_id, VmState::Halted, Some(HALT_EXIT_CODE));
                HostStep::Reply(
                    Ok(VmOpReply::State { vm_id, state: VmState::Halted.tag().to_owned() }),
                )
            },
            VmOp::Stop { vm_id } => {
                if let Some(m) = self.fault(vm_id) {
                    return refuse(m);
                }
                let mut state = self.state_of(vm_id);
                if !state.is_terminal() {
                    let last_exit = match &self.slots[vm_id as usize] {
                        Some(x) => x.last_exit,
                        None => None,
                    };
                    state = VmState::Stopped;
                    self.set_state(vm_id, state, last_exit);
                }
                HostStep::Reply(Ok(VmOpReply::State { vm_id, state: state.tag().to_owned() }))
            },
            VmOp::Delete { vm_id } => {
                if let Some(m) = self.fault(vm_id) {
                    return refuse(m);
                }
                let state = self.state_of(vm_id);
                if !state.is_terminal() {
                    return refuse("vm not terminal; stop first");
                }
                self.slots[vm_id as usize] = None;
                assert(self@.slots =~= old(self)@.slots.update(vm_id as int, None));
                HostStep::Reply(Ok(VmOpReply::Deleted { vm_id }))
            },
            VmOp::List => {
                let owner = self.owner_id();
                HostStep::Reply(Ok(VmOpReply::Listed { rows: self.rows_for(&owner) }))
            },
            VmOp::DetachVolume { vm_id, volume_id } => {
                if let Some(m) = self.fault(vm_id) {
                    return refuse(m);
                }
                let mut volumes = self.volumes_of(vm_id);
                drop_volume(&mut volumes, &volume_id);
                let copy = clone_attachments(&volumes);
                self.set_volumes(vm_id, volumes);
                HostStep::Reply(Ok(VmOpReply::Attachments { vm_id, volumes: copy }))
            },
            _ => self.route(op),
        }
    }

    /// Says what to ask a store for an operation on volumes and networks.
    fn route(&self, op: VmOp) -> (r: HostStep)
        requires
            self.wf(),
            !(op is Create) && !(op is Start) && !(op is Stop) && !(op is Delete) && !(op is List)
                && !(op is DetachVolume),
        ensures
            store_step(self@, op, r),
    {
        match op {
            VmOp::CreateVolume { name, size_bytes } => match &self.owner {
                None => refuse("vault: owner not yet known; snapshot first"),
                Some(o) => HostStep::Store(
                    StoreCall::CreateVolume { owner: o.clone(), name, size_bytes },
                ),
            },
            VmOp::DeleteVolume { volume_id } => {
                if self.is_attached(&volume_id) {
                    return refuse("vault delete: volume still attached");
                }
                HostStep::Store(StoreCall::DeleteVolume { volume_id })
            },
            VmOp::ListVolumes => HostStep::Store(StoreCall::ListVolumes),
            VmOp::AttachVolume { vm_id, volume_id, mount_name } => {
                if byte_len(mount_name.as_str()) > self.max_mount {
                    return refuse("attach: mount_name > MAX_MOUNT");
                }
                HostStep::Store(StoreCall::FindVolume { vm_id, volume_id, mount_name })
            },
            VmOp::ReadVolume { volume_id, offset, len } => {
                if len > MAX_VOLUME_IO_BYTES as u64 {
                    return refuse("volume io: chunk too large");
                }
                HostStep::Store(StoreCall::ReadVolume { volume_id, offset, len: len as usize })
            },
            VmOp::WriteVolume { volume_id, offset, bytes } => {
                if bytes.len() > MAX_VOLUME_IO_BYTES {
                    return refuse("volume io: chunk too large");
                }
                HostStep::Store(StoreCall::WriteVolume { volume_id, offset, bytes })
            },
            VmOp::CreateSnapshot { volume_id, name } => HostStep::Store(
                StoreCall::CreateSnapshot { volume_id, name },
            ),
            VmOp::ListSnapshots { volume_id } => HostStep::Store(
                StoreCall::ListSnapshots { volume_id },
            ),
            VmOp::DeleteSnapshot { snapshot_id } => HostStep::Store(
                StoreCall::DeleteSnapshot { snapshot_id },
            ),
            VmOp::RestoreSnapshot { snapshot_id } => HostStep::Store(
                StoreCall::RestoreSnapshot { snapshot_id },
            ),
            VmOp::CreateNetwork { name, cidr } => match &self.owner {
                None => refuse("net: owner not yet known; snapshot first"),
                Some(o) => HostStep::Store(
                    StoreCall::CreateNetwork { owner: o.clone(), name, cidr },
                ),
            },
            VmOp::DeleteNetwork { network_id } => HostStep::Store(
                StoreCall::DeleteNetwork { network_id },
            ),
            VmOp::ListNetworks => HostStep::Store(StoreCall::ListNetworks),
            VmOp::AttachNic { network_id, vm_id, ip } => {
                if let Some(m) = self.fault(vm_id) {
                    return refuse(m);
                }
                match ip {
                    None => HostStep::Store(StoreCall::AttachNic { network_id, vm_id, ip: None }),
                    Some(t) => match parse_ipv4(t.as_str()) {
                        None => refuse("net.nic.attach: bad ip"),
                        Some(a) => HostStep::Store(
                            StoreCall::AttachNic { network_id, vm_id, ip: Some(a) },
                        ),
                    },
                }
            },
            VmOp::DetachNic { nic_id } => HostStep::Store(StoreCall::DetachNic { nic_id }),
            VmOp::ListNics => HostStep::Store(StoreCall::ListNics),
            VmOp::CreateSecurityGroup { name, rules } => match &self.owner {
                None => refuse("sg: owner not yet known; snapshot first"),
                Some(o) => HostStep::Store(
                    StoreCall::CreateSecurityGroup { owner: o.clone(), name, rules },
                ),
            },
            VmOp::DeleteSecurityGroup { sg_id } => HostStep::Store(
                StoreCall::DeleteSecurityGroup { sg_id },
            ),
            VmOp::ListSecurityGroups => HostStep::Store(StoreCall::ListSecurityGroups),
            VmOp::CreateLoadBalancer {
                name,
                network_id,
                vip,
                frontend_port,
                algo,
                backends,
            } => match &self.owner {
                None => refuse("lb: owner not yet known; snapshot first"),
                Some(o) => match parse_ipv4(vip.as_str()) {
                    None => refuse("lb create: bad vip"),
                    Some(a) => HostStep::Store(
                        StoreCall::CreateLoadBalancer {
                            owner: o.clone(),
                            name,
                            network_id,
                            vip: a,
                            frontend_port,
                            algo,
                            backends,
                        },
                    ),
                },
            },
            VmOp::DeleteLoadBalancer { lb_id } => HostStep::Store(
                StoreCall::DeleteLoadBalancer { lb_id },
            ),
            VmOp::ListLoadBalancers => HostStep::Store(StoreCall::ListLoadBalancers),
            _ => {
                assert(false);
                HostStep::Store(StoreCall::ListVolumes)
            },
        }
    }

    /// Turns a store's answer into the reply.
    pub fn resume(&mut self, call: StoreCall, outcome: StoreOutcome) -> (r: HostResult)
        requires
            old(self).wf(),
        ensures
            final(self).wf(),
            resumed(old(self)@, call, outcome, final(self)@, r),
    {
        match (call, outcome) {
            (call, StoreOutcome::Failed(why)) => match prefix_of(&call) {
                Some(p) => Err(concat(p, why.as_str())),
                None => Err("store: answer does not fit the call".to_owned()),
            },
            (
                StoreCall::FindVolume { vm_id, volume_id, mount_name },
                StoreOutcome::Found(found),
            ) => {
                if !found {
                    return Err("attach: unknown volume".to_owned());
                }
                if let Some(m) = self.fault(vm_id) {
                    return Err(m.to_owned());
                }
                let mut volumes = self.volumes_of(vm_id);
                if has_volume(&volumes, &volume_id) {
                    return Err("attach: volume already attached".to_owned());
                }
                let ghost before = vault::attachment_views(volumes@);
                let ghost entry = (volume_id@, mount_name@);
                volumes.push(VolumeAttachment { volume_id, mount_name });
                assert(vault::attachment_views(volumes@) =~= before.push(entry));
                let copy = clone_attachments(&volumes);
                self.set_volumes(vm_id, volumes);
                Ok(VmOpReply::Attachments { vm_id, volumes: copy })
            },
            (call, outcome) => match finish(call, outcome) {
                Some(reply) => Ok(reply),
                None => Err("store: answer does not fit the call".to_owned()),
            },
        }
    }

    /// The node that the host takes for its owner; one without a name while none
    /// is known.
    pub fn owner_id(&self) -> (r: NodeId)
        ensures
            r@ == known_owner(self@),
    {
        match &self.owner {
            Some(o) => NodeId(o.clone()),
            None => NodeId(String::new()),
        }
    }

    /// The rows of this host's VMs, with a given owner.
    fn rows_for(&self, owner: &NodeId) -> (r: Vec<RemoteVm>)
        requires
            self.wf(),
        ensures
            federation::vm_views(r@) == rows_from(self@.slots, owner@, 0),
    {
        let ghost slots = self@.slots;
        let mut out: Vec<RemoteVm> = Vec::new();
        let mut i: usize = 0;
        assert(federation::vm_views(out@) + rows_from(slots, owner@, 0) =~= rows_from(
            slots,
            owner@,
            0,
        ));
        while i < self.slots.len()
            invariant
                i <= self.slots@.len(),
                slots == self@.slots,
                slots.len() == self.slots@.len(),
                slots.len() == MAX_SLOTS,
                federation::vm_views(out@) + rows_from(slots, owner@, i as int) == rows_from(
                    slots,
                    owner@,
                    0,
                ),
            decreases self.slots@.len() - i,
        {
            assert(slots[i as int] == slot_view(self.slots@[i as int]));
            if let Some(x) = &self.slots[i] {
                let ghost before = federation::vm_views(out@);
                let row = RemoteVm {
                    owner: owner.clone(),
                    vm_id: i as u32,
                    label: x.label.clone(),
                    state: x.state.tag().to_owned(),
                    last_exit: x.last_exit,
                    epoch: 0,
                    hlc: 0,
                    owner_alive: true,
                    restart_policy: x.restart_policy,
                    volumes: clone_attachments(&x.volumes),
                    image_path: clone_text(&x.image_path),
                    cpu_count: x.cpu_count,
                    memory_mib: x.memory_mib,
                    boot_blob_crc32c: x.boot_blob_crc32c,
                };
                let ghost v = row@;
                out.push(row);
                proof {
                    assert(v == row_of(x@, owner@, i as u32));
                    assert(federation::vm_views(out@) =~= before.push(v));
                    let rest = rows_from(slots, owner@, i + 1);
                    assert(before + (seq![v] + rest) =~= before.push(v) + rest);
                }
            }
            i = i + 1;
        }
        proof {
            assert(federation::vm_views(out@) + Seq::<RemoteVmView>::empty()
                =~= federation::vm_views(out@));
        }
        out
    }

    /// The rows of this host's VMs. The first caller's node becomes the owner.
    pub fn current_rows(&mut self, owner: &NodeId) -> (r: Vec<RemoteVm>)
        requires
            old(self).wf(),
        ensures
            final(self).wf(),
            final(self)@ == (HostView {
                owner: Some(
                    match old(self)@.owner {
                        Some(o) => o,
                        None => owner@,
                    },
                ),
                ..old(self)@
            }),
            federation::vm_views(r@) == rows_from(old(self)@.slots, owner@, 0),
    {
        if self.owner.is_none() {
            self.owner = Some(owner.0.clone());
        }
        self.rows_for(owner)
    }

    /// Gives a VM attachments that were made elsewhere, without asking a store.
    pub fn attach_preserved(&mut self, vm_id: u32, attachments: Vec<VolumeAttachment>) -> (r:
        Result<(), String>)
        requires
            old(self).wf(),
        ensures
            final(self).wf(),
            match slot_fault(old(self)@.slots, vm_id) {
                Some(m) => final(self)@ == old(self)@ && (r matches Err(e) && e@ == m),
                None => r is Ok && final(self)@ == with_slot(
                    old(self)@,
                    vm_id as int,
                    Some(
                        SlotView {
                            volumes: vault::attachment_views(attachments@),
                            ..old(self)@.slots[vm_id as int]->0
                        },
                    ),
                ),
            },
    {
        if let Some(m) = self.fault(vm_id) {
            return Err(m.to_owned());
        }
        self.set_volumes(vm_id, attachments);
        Ok(())
    }
}

/// Whether a list of attachments holds a volume.
fn has_volume(vols: &Vec<VolumeAttachment>, id: &VolumeId) -> (r: bool)
    ensures
        r == holds_volume(vault::attachment_views(vols@), id@),
{
    let ghost v = vault::attachment_views(vols@);
    let mut i: usize = 0;
    while i < vols.len()
        invariant
            i <= vols@.len(),
            v == vault::attachment_views(vols@),
            forall|j: int| 0 <= j < i ==> (#[trigger] v[j]).0 != id@,
        decreases vols@.len() - i,
    {
        if vols[i].volume_id.same(id) {
            assert(v[i as int].0 == id@);
            return true;
        }
        i = i + 1;
    }
    false
}

/// Takes a volume off a list of attachments.
fn drop_volume(vols: &mut Vec<VolumeAttachment>, id: &VolumeId)
    ensures
        vault::attachment_views(final(vols)@) == without_volume(
            vault::attachment_views(old(vols)@),
            id@,
        ),
{
    let ghost all = vault::attachment_views(vols@);
    let n: usize = vols.len();
    let mut seen: usize = 0;
    let mut i: usize = 0;
    proof {
        assert(all.take(0) =~= Seq::empty());
        assert(Seq::<(Seq<char>, Seq<char>)>::empty() + all.skip(0) =~= all);
    }
    while seen < n
        invariant
            n == all.len(),
            i <= seen <= n,
            i == without_volume(all.take(seen as int), id@).len(),
            vault::attachment_views(vols@) == without_volume(all.take(seen as int), id@)
                + all.skip(seen as int),
        decreases n - seen,
    {
        let ghost done = without_volume(all.take(seen as int), id@);
        let ghost now = vault::attachment_views(vols@);
        proof {
            assert(now.len() == done.len() + (n - seen));
            assert(now[i as int] == all[seen as int]);
            let t = all.take(seen + 1);
            assert(t.drop_last() =~= all.take(seen as int));
            assert(t.last() == all[seen as int]);
        }
        if vols[i].volume_id.same(id) {
            vols.remove(i);
            proof {
                assert(vault::attachment_views(vols@) =~= now.remove(i as int));
                assert(now.remove(i as int) =~= done + all.skip(seen + 1));
            }
        } else {
            i = i + 1;
            assert(vault::attachment_views(vols@) =~= done.push(all[seen as int]) + all.skip(
                seen + 1,
            ));
        }
        seen = seen + 1;
    }
    proof {
        assert(all.take(seen as int) =~= all);
        assert(all.skip(seen as int) =~= Seq::empty());
        assert(vault::attachment_views(vols@) =~= without_volume(all, id@));
    }
}

/// See [`failure_prefix`].
fn prefix_of(call: &StoreCall) -> (r: Option<&'static str>)
    ensures
        r == failure_prefix(*call),
{
    match call {
        StoreCall::CreateVolume { .. } => Some("vault create: "),
        StoreCall::DeleteVolume { .. } => Some("vault delete: "),
        StoreCall::ReadVolume { .. } => Some("vault read: "),
        StoreCall::WriteVolume { .. } => Some("vault write: "),
        StoreCall::CreateSnapshot { .. } => Some("vault snapshot: "),
        StoreCall::DeleteSnapshot { .. } => Some("vault snapshot delete: "),
        StoreCall::RestoreSnapshot { .. } => Some("vault snapshot restore: "),
        StoreCall::CreateNetwork { .. } => Some("net create: "),
        StoreCall::DeleteNetwork { .. } => Some("net delete: "),
        StoreCall::AttachNic { .. } => Some("net.nic.attach: "),
        StoreCall::DetachNic { .. } => Some("net.nic.detach: "),
        StoreCall::CreateSecurityGroup { .. } => Some("sg create: "),
        StoreCall::DeleteSecurityGroup { .. } => Some("sg delete: "),
        StoreCall::CreateLoadBalancer { .. } => Some("lb create: "),
        StoreCall::DeleteLoadBalancer { .. } => Some("lb delete: "),
        _ => None,
    }
}

/// The reply to a call that a store answered.
fn finish(call: StoreCall, out: StoreOutcome) -> (r: Option<VmOpReply>)
    ensures
        r == plain_reply(call, out),
{
    match (call, out) {
        (StoreCall::CreateVolume { .. }, StoreOutcome::Volume(volume)) => Some(
            VmOpReply::VolumeCreated { volume },
        ),
        (StoreCall::DeleteVolume { volume_id }, StoreOutcome::Done) => Some(
            VmOpReply::VolumeDeleted { volume_id },
        ),
        (StoreCall::ListVolumes, StoreOutcome::Volumes(volumes)) => Some(
            VmOpReply::VolumesListed { volumes },
        ),
        (StoreCall::ReadVolume { volume_id, .. }, StoreOutcome::Data(bytes)) => Some(
            VmOpReply::VolumeData { volume_id, bytes },
        ),
        (StoreCall::WriteVolume { volume_id, offset: _, bytes }, StoreOutcome::Done) => Some(
            VmOpReply::VolumeWritten { volume_id, bytes_written: bytes.len() as u64 },
        ),
        (StoreCall::CreateSnapshot { .. }, StoreOutcome::Snapshot(snapshot)) => Some(
            VmOpReply::SnapshotCreated { snapshot },
        ),
        (StoreCall::ListSnapshots { .. }, StoreOutcome::Snapshots(snapshots)) => Some(
            VmOpReply::SnapshotsListed { snapshots },
        ),
        (StoreCall::DeleteSnapshot { snapshot_id }, StoreOutcome::Done) => Some(
            VmOpReply::SnapshotDeleted { snapshot_id },
        ),
        (StoreCall::RestoreSnapshot { snapshot_id }, StoreOutcome::Done) => Some(
            VmOpReply::SnapshotRestored { snapshot_id },
        ),
        (StoreCall::CreateNetwork { .. }, StoreOutcome::Network(network)) => Some(
            VmOpReply::NetworkCreated { network },
        ),
        (StoreCall::DeleteNetwork { network_id }, StoreOutcome::Done) => Some(
            VmOpReply::NetworkDeleted { network_id },
        ),
        (StoreCall::ListNetworks, StoreOutcome::Networks(networks)) => Some(
            VmOpReply::NetworksListed { networks },
        ),
        (StoreCall::AttachNic { .. }, StoreOutcome::Nic(nic)) => Some(
            VmOpReply::NicAttached { nic },
        ),
        (StoreCall::DetachNic { nic_id }, StoreOutcome::Done) => Some(
            VmOpReply::NicDetached { nic_id },
        ),
        (StoreCall::ListNics, StoreOutcome::Nics(nics)) => Some(VmOpReply::NicsListed { nics }),
        (StoreCall::CreateSecurityGroup { .. }, StoreOutcome::Group(sg)) => Some(
            VmOpReply::SecurityGroupCreated { sg },
        ),
        (StoreCall::DeleteSecurityGroup { sg_id }, StoreOutcome::Done) => Some(
            VmOpReply::SecurityGroupDeleted { sg_id },
        ),
        (StoreCall::ListSecurityGroups, StoreOutcome::Groups(sgs)) => Some(
            VmOpReply::SecurityGroupsListed { sgs },
        ),
        (StoreCall::CreateLoadBalancer { .. }, StoreOutcome::Balancer(lb)) => Some(
            VmOpReply::LoadBalancerCreated { lb },
        ),
        (StoreCall::DeleteLoadBalancer { lb_id }, StoreOutcome::Done) => Some(
            VmOpReply::LoadBalancerDeleted { lb_id },
        ),
        (StoreCall::ListLoadBalancers, StoreOutcome::Balancers(lbs)) => Some(
            VmOpReply::LoadBalancersListed { lbs },
        ),
        _ => None,
    }
}

/// Every VM has each of its volumes attached once.
pub open spec fn attached_once(s: HostView) -> bool {
    forall|i: int|
        0 <= i < s.slots.len() && (#[trigger] s.slots[i]) is Some ==> distinct_volumes(
            s.slots[i]->0.volumes,
        )
}

/// No volume occurs twice.
pub open spec fn distinct_volumes(vols: Seq<(Seq<char>, Seq<char>)>) -> bool {
    forall|i: int, j: int|
        0 <= i < j < vols.len() ==> (#[trigger] vols[i]).0 != (#[trigger] vols[j]).0
}

/// What remains after a volume is taken off: the others, each where it was
/// relative to the rest.
proof fn lemma_without_volume(vols: Seq<(Seq<char>, Seq<char>)>, id: Seq<char>)
    ensures
        !holds_volume(without_volume(vols, id), id),
        !holds_volume(vols, id) ==> without_volume(vols, id) == vols,
        forall|k: int|
            0 <= k < without_volume(vols, id).len() ==> exists|i: int|
                0 <= i < vols.len() && vols[i] == #[trigger] without_volume(vols, id)[k],
        distinct_volumes(vols) ==> distinct_volumes(without_volume(vols, id)),
    decreases vols.len(),
{
    if vols.len() > 0 {
        let p = vols.drop_last();
        lemma_without_volume(p, id);
        let q = without_volume(p, id);
        let w = without_volume(vols, id);
        assert(forall|i: int| 0 <= i < p.len() ==> p[i] == #[trigger] vols[i]);
        if vols.last().0 == id {
            assert(vols[vols.len() - 1].0 == id);
            assert forall|k: int| 0 <= k < w.len() implies exists|i: int|
                0 <= i < vols.len() && vols[i] == #[trigger] w[k] by {
                let i = choose|i: int| 0 <= i < p.len() && p[i] == q[k];
                assert(vols[i] == w[k]);
            }
        } else {
            if !holds_volume(vols, id) {
                assert(!holds_volume(p, id)) by {
                    if holds_volume(p, id) {
                        let i = choose|i: int| 0 <= i < p.len() && (#[trigger] p[i]).0 == id;
                        assert(vols[i].0 == id);
                    }
                }
                assert(w =~= vols);
            }
            assert forall|k: int| 0 <= k < w.len() implies exists|i: int|
                0 <= i < vols.len() && vols[i] == #[trigger] w[k] by {
                if k < q.len() {
                    let i = choose|i: int| 0 <= i < p.len() && p[i] == q[k];
                    assert(vols[i] == w[k]);
                } else {
                    assert(vols[vols.len() - 1] == w[k]);
                }
            }
            assert(!holds_volume(w, id)) by {
                if holds_volume(w, id) {
                    let k = choose|k: int| 0 <= k < w.len() && (#[trigger] w[k]).0 == id;
                    assert(k < q.len());
                    assert(q[k].0 == id);
                }
            }
            if distinct_volumes(vols) {
                assert forall|i: int, j: int| 0 <= i < j < w.len() implies (#[trigger] w[i]).0 != (
                #[trigger] w[j]).0 by {
                    if j < q.len() {
                        assert(q[i].0 != q[j].0);
                    } else {
                        let k = choose|k: int| 0 <= k < p.len() && p[k] == q[i];
                        assert(vols[k].0 != vols[vols.len() - 1].0);
                    }
                }
            }
        }
    }
}

/// Detaching a volume that was just attached leaves the attachments as they
/// were.
pub proof fn law_detach_undoes_attach(
    vols: Seq<(Seq<char>, Seq<char>)>,
    id: Seq<char>,
    mount: Seq<char>,
)
    requires
        !holds_volume(vols, id),
    ensures
        without_volume(vols.push((id, mount)), id) == vols,
{
    assert(vols.push((id, mount)).drop_last() =~= vols);
    lemma_without_volume(vols, id);
}

/// No operation and no answer of a store makes a VM hold a volume twice.
pub proof fn law_attached_once(
    s: HostView,
    op: VmOp,
    n: HostView,
    step: HostStep,
    call: StoreCall,
    out: StoreOutcome,
    m: HostView,
    r: HostResult,
)
    requires
        s.slots.len() == MAX_SLOTS,
        attached_once(s),
        stepped(s, op, n, step),
        resumed(n, call, out, m, r),
    ensures
        attached_once(n),
        attached_once(m),
{
    lemma_first_free(s.slots, 0);
    assert(n.slots.len() == s.slots.len());
    assert(attached_once(n)) by {
        assert forall|i: int| 0 <= i < n.slots.len() && (
        #[trigger] n.slots[i]) is Some implies distinct_volumes(n.slots[i]->0.volumes) by {
            assert(0 <= i < s.slots.len());
            if s.slots[i] is Some {
                if let VmOp::DetachVolume { vm_id, volume_id } = op {
                    lemma_without_volume(s.slots[i]->0.volumes, volume_id@);
                }
            }
        }
    }
    assert forall|i: int| 0 <= i < m.slots.len() && (
    #[trigger] m.slots[i]) is Some implies distinct_volumes(m.slots[i]->0.volumes) by {
        assert(0 <= i < n.slots.len());
        if m.slots[i] != n.slots[i] {
            let x = n.slots[i]->0.volumes;
            let y = m.slots[i]->0.volumes;
            assert(y.len() == x.len() + 1);
            assert forall|a: int, b: int| 0 <= a < b < y.len() implies (#[trigger] y[a]).0 != (
            #[trigger] y[b]).0 by {
                assert(y[a] == x[a]);
                if b < x.len() {
                    assert(y[b] == x[b]);
                }
            }
        }
    }
}

/// A volume that a VM holds cannot be deleted, and nothing changes.
pub proof fn law_attached_volume_is_kept(
    s: HostView,
    vm: int,
    id: VolumeId,
    n: HostView,
    r: HostStep,
)
    requires
        0 <= vm < s.slots.len(),
        s.slots[vm] is Some,
        holds_volume(s.slots[vm]->0.volumes, id@),
        stepped(s, VmOp::DeleteVolume { volume_id: id }, n, r),
    ensures
        n == s,
        r matches HostStep::Reply(Err(_)),
{
    assert(attached_anywhere(s.slots, id@));
}

/// A VM can be deleted after it was started or stopped, whatever became of
/// those operations; its slot is then free, and no other slot has changed.
pub proof fn law_stopped_vm_can_be_deleted(
    s: HostView,
    vm_id: u32,
    n: HostView,
    r: HostStep,
    m: HostView,
    q: HostStep,
)
    requires
        s.slots.len() == MAX_SLOTS,
        s.caps.includes(capabilities::required_for(VmOp::Start { vm_id })),
        s.caps.includes(capabilities::required_for(VmOp::Stop { vm_id })),
        s.caps.includes(capabilities::required_for(VmOp::Delete { vm_id })),
        vm_id < MAX_SLOTS,
        s.slots[vm_id as int] is Some,
        stepped(s, VmOp::Stop { vm_id }, n, r) || (stepped(s, VmOp::Start { vm_id }, n, r)
            && s.slots[vm_id as int]->0.state != VmState::Running),
        stepped(n, VmOp::Delete { vm_id }, m, q),
    ensures
        q == HostStep::Reply(Ok(VmOpReply::Deleted { vm_id })),
        m.slots == s.slots.update(vm_id as int, None),
{
    assert(m.slots =~= s.slots.update(vm_id as int, None));
}

/// The first free slot is free, and no slot before it is.
pub proof fn lemma_first_free(slots: Seq<Option<SlotView>>, from: int)
    requires
        0 <= from,
    ensures
        match first_free(slots, from) {
            Some(i) => from <= i < slots.len() && slots[i] is None && forall|j: int|
                from <= j < i ==> (#[trigger] slots[j]) is Some,
            None => forall|j: int| from <= j < slots.len() ==> (#[trigger] slots[j]) is Some,
        },
    decreases slots.len() - from,
{
    if from < slots.len() && slots[from] is Some {
        lemma_first_free(slots, from + 1);
    }
}

/// Every VM of a host is among its rows.
pub proof fn lemma_row_listed(slots: Seq<Option<SlotView>>, owner: Seq<char>, from: int, k: int)
    requires
        0 <= from <= k < slots.len() <= u32::MAX,
        slots[k] is Some,
    ensures
        rows_from(slots, owner, from).contains(row_of(slots[k]->0, owner, k as u32)),
    decreases k - from,
{
    let x = row_of(slots[k]->0, owner, k as u32);
    let rows = rows_from(slots, owner, from);
    if from == k {
        assert(rows[0] == x);
    } else {
        lemma_row_listed(slots, owner, from + 1, k);
        let rest = rows_from(slots, owner, from + 1);
        let i = choose|i: int| 0 <= i < rest.len() && rest[i] == x;
        if slots[from] is Some {
            assert(rows[i + 1] == x);
        }
    }
}

/// Whether a host has a VM with a label.
pub open spec fn has_vm(slots: Seq<Option<SlotView>>, from: int, label: Seq<char>) -> bool {
    exists|k: int|
        from <= k < slots.len() && (#[trigger] slots[k]) is Some && slots[k]->0.label == label
}

/// The labels among a host's rows are those of its VMs.
pub proof fn lemma_labels_listed(
    slots: Seq<Option<SlotView>>,
    owner: Seq<char>,
    from: int,
    label: Seq<char>,
)
    requires
        0 <= from <= slots.len() <= u32::MAX,
    ensures
        has_vm(slots, from, label) <==> exists|i: int|
            0 <= i < rows_from(slots, owner, from).len() && (#[trigger] rows_from(
                slots,
                owner,
                from,
            )[i]).label == label,
    decreases slots.len() - from,
{
    let rows = rows_from(slots, owner, from);
    if from < slots.len() {
        let rest = rows_from(slots, owner, from + 1);
        lemma_labels_listed(slots, owner, from + 1, label);
        if has_vm(slots, from, label) {
            let k = choose|k: int|
                from <= k < slots.len() && (#[trigger] slots[k]) is Some && slots[k]->0.label
                    == label;
            lemma_row_listed(slots, owner, from, k);
            let x = row_of(slots[k]->0, owner, k as u32);
            let i = choose|i: int| 0 <= i < rows.len() && rows[i] == x;
            assert(rows[i].label == label);
        }
        if exists|i: int| 0 <= i < rows.len() && (#[trigger] rows[i]).label == label {
            let i = choose|i: int| 0 <= i < rows.len() && (#[trigger] rows[i]).label == label;
            if slots[from] is Some {
                if i == 0 {
                    assert(slots[from]->0.label == label);
                } else {
                    assert(rest[i - 1].label == label);
                    assert(has_vm(slots, from + 1, label));
                }
            } else {
                assert(rest[i].label == label);
                assert(has_vm(slots, from + 1, label));
            }
        }
    }
}

/// A VM is created exactly when a slot is free, and no other VM changes.
pub proof fn law_create(s: HostView, op: VmOp, n: HostView, r: HostStep)
    requires
        s.slots.len() == MAX_SLOTS,
        op matches VmOp::Create { label, .. } && encode_utf8(label@).len() <= MAX_LABEL_BYTES,
        s.caps.includes(capabilities::required_for(op)),
        stepped(s, op, n, r),
    ensures
        (r matches HostStep::Reply(Ok(_))) <==> (exists|i: int|
            0 <= i < s.slots.len() && (#[trigger] s.slots[i]) is None),
        forall|i: int|
            0 <= i < s.slots.len() && (#[trigger] s.slots[i]) is Some ==> n.slots[i] == s.slots[i],
{
    lemma_first_free(s.slots, 0);
}

} // verus!
