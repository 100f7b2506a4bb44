//! Wire protocol: envelopes, VM operations and their replies.

use vstd::prelude::*;

use crate::mesh::federation::{RemoteVm, RestartPolicy};
use crate::mesh::membership::NodeInfo;
use crate::mesh::vault::{
    LbAlgo, LbBackend, LoadBalancer, LoadBalancerId, NetworkId, Nic, NicId, SecurityGroup,
    SecurityGroupId, SecurityRule, SnapshotId, SnapshotMeta, VirtualNetwork, VolumeAttachment,
    VolumeId, VolumeMeta,
};
use crate::text::str_eq;

verus! {

/// Protocol version. Frames of another version are dropped.
pub const PROTO_VERSION: u32 = 1;

/// Largest frame, in bytes. Anything larger is dropped unread.
pub const MAX_FRAME_BYTES: usize = 65536;

/// The magic that every frame carries.
pub open spec fn magic_text() -> &'static str {
    "celmesh/1"
}

/// See [`magic_text`].
pub fn magic() -> (r: &'static str)
    ensures
        r == magic_text(),
{
    "celmesh/1"
}

/// A frame.
#[derive(Debug, Clone)]
pub struct Envelope {
    /// Magic, see [`magic`].
    pub magic: String,
    /// Version, see [`PROTO_VERSION`].
    pub version: u32,
    /// Node that sent the frame.
    pub from: String,
    /// Cluster of the sender.
    pub cluster: String,
    /// Clock of the sender.
    pub hlc: u64,
    /// What the frame says.
    pub payload: Payload,
}

/// What a frame says.
#[derive(Debug, Clone)]
pub enum Payload {
    /// First contact.
    Hello {
        /// Row of the sender.
        node: NodeInfo,
    },
    /// Everything that the sender knows.
    Sync {
        /// Membership rows.
        nodes: Vec<NodeInfo>,
        /// VMs that the sender owns.
        vms: Vec<RemoteVm>,
    },
    /// The sender departs.
    Goodbye,
    /// An operation for one node.
    Request {
        /// Number by which the reply is matched.
        req_id: u64,
        /// Node that is meant.
        target: String,
        /// Operation.
        op: VmOp,
    },
    /// The reply to a request.
    Response {
        /// Number of the request.
        req_id: u64,
        /// Outcome.
        result: VmOpResult,
    },
}

/// An operation on a VM host.
#[derive(Debug, Clone)]
pub enum VmOp {
    /// Allocates a VM.
    Create {
        /// Label, at most 32 bytes.
        label: String,
        /// What happens when the owner is gone.
        restart_policy: RestartPolicy,
        /// Image of the VM.
        image_path: Option<String>,
        /// Number of vCPUs.
        cpu_count: Option<u32>,
        /// Memory, in MiB.
        memory_mib: Option<u64>,
        /// Checksum of the boot blob.
        boot_blob_crc32c: Option<u32>,
    },
    /// Runs a VM.
    Start {
        /// VM.
        vm_id: u32,
    },
    /// Stops a VM.
    Stop {
        /// VM.
        vm_id: u32,
    },
    /// Frees a VM that has come to an end.
    Delete {
        /// VM.
        vm_id: u32,
    },
    /// Lists the VMs.
    List,
    /// Allocates a volume.
    CreateVolume {
        /// Label.
        name: String,
        /// Size in bytes.
        size_bytes: u64,
    },
    /// Deletes a volume that is not attached.
    DeleteVolume {
        /// Volume.
        volume_id: VolumeId,
    },
    /// Lists the volumes.
    ListVolumes,
    /// Attaches a volume to a VM.
    AttachVolume {
        /// VM.
        vm_id: u32,
        /// Volume.
        volume_id: VolumeId,
        /// Mount point inside the guest.
        mount_name: String,
    },
    /// Detaches a volume from a VM.
    DetachVolume {
        /// VM.
        vm_id: u32,
        /// Volume.
        volume_id: VolumeId,
    },
    /// Reads from a volume.
    ReadVolume {
        /// Volume.
        volume_id: VolumeId,
        /// Where to start.
        offset: u64,
        /// How much to read.
        len: u64,
    },
    /// Writes to a volume.
    WriteVolume {
        /// Volume.
        volume_id: VolumeId,
        /// Where to start.
        offset: u64,
        /// What to write.
        bytes: Vec<u8>,
    },
    /// Captures a volume.
    CreateSnapshot {
        /// Volume.
        volume_id: VolumeId,
        /// Label.
        name: String,
    },
    /// Lists snapshots, of one volume or of all.
    ListSnapshots {
        /// Volume, or all.
        volume_id: Option<VolumeId>,
    },
    /// Deletes a snapshot.
    DeleteSnapshot {
        /// Snapshot.
        snapshot_id: SnapshotId,
    },
    /// Puts a snapshot back onto its volume.
    RestoreSnapshot {
        /// Snapshot.
        snapshot_id: SnapshotId,
    },
    /// Allocates a virtual network.
    CreateNetwork {
        /// Label.
        name: String,
        /// Address block.
        cidr: String,
    },
    /// Deletes a virtual network.
    DeleteNetwork {
        /// Network.
        network_id: NetworkId,
    },
    /// Lists the networks.
    ListNetworks,
    /// Gives a VM an interface on a network.
    AttachNic {
        /// Network.
        network_id: NetworkId,
        /// VM.
        vm_id: u32,
        /// Address, or one that the network picks.
        ip: Option<String>,
    },
    /// Takes an interface away.
    DetachNic {
        /// Interface.
        nic_id: NicId,
    },
    /// Lists the interfaces.
    ListNics,
    /// Allocates a security group.
    CreateSecurityGroup {
        /// Label.
        name: String,
        /// Rules.
        rules: Vec<SecurityRule>,
    },
    /// Deletes a security group.
    DeleteSecurityGroup {
        /// Group.
        sg_id: SecurityGroupId,
    },
    /// Lists the security groups.
    ListSecurityGroups,
    /// Allocates a load balancer.
    CreateLoadBalancer {
        /// Label.
        name: String,
        /// Network.
        network_id: NetworkId,
        /// Address at which it listens.
        vip: String,
        /// Port at which it listens.
        frontend_port: u16,
        /// How connections are spread.
        algo: LbAlgo,
        /// Backends.
        backends: Vec<LbBackend>,
    },
    /// Deletes a load balancer.
    DeleteLoadBalancer {
        /// Load balancer.
        lb_id: LoadBalancerId,
    },
    /// Lists the load balancers.
    ListLoadBalancers,
}

/// The reply to a [`VmOp`].
#[derive(Debug, Clone)]
pub enum VmOpReply {
    /// A VM was allocated.
    Created {
        /// VM.
        vm_id: u32,
    },
    /// A VM was run or stopped.
    State {
        /// VM.
        vm_id: u32,
        /// Its new state.
        state: String,
    },
    /// A VM was freed.
    Deleted {
        /// VM.
        vm_id: u32,
    },
    /// The VMs.
    Listed {
        /// Rows.
        rows: Vec<RemoteVm>,
    },
    /// A volume was allocated.
    VolumeCreated {
        /// Volume.
        volume: VolumeMeta,
    },
    /// A volume was deleted.
    VolumeDeleted {
        /// Volume.
        volume_id: VolumeId,
    },
    /// The volumes.
    VolumesListed {
        /// Volumes.
        volumes: Vec<VolumeMeta>,
    },
    /// The attachments of a VM after a change.
    Attachments {
        /// VM.
        vm_id: u32,
        /// Attachments.
        volumes: Vec<VolumeAttachment>,
    },
    /// What was read.
    VolumeData {
        /// Volume.
        volume_id: VolumeId,
        /// Bytes.
        bytes: Vec<u8>,
    },
    /// Something was written.
    VolumeWritten {
        /// Volume.
        volume_id: VolumeId,
        /// How much.
        bytes_written: u64,
    },
    /// A snapshot was made.
    SnapshotCreated {
        /// Snapshot.
        snapshot: SnapshotMeta,
    },
    /// The snapshots.
    SnapshotsListed {
        /// Snapshots.
        snapshots: Vec<SnapshotMeta>,
    },
    /// A snapshot was deleted.
    SnapshotDeleted {
        /// Snapshot.
        snapshot_id: SnapshotId,
    },
    /// A snapshot was put back.
    SnapshotRestored {
        /// Snapshot.
        snapshot_id: SnapshotId,
    },
    /// A network was allocated.
    NetworkCreated {
        /// Network.
        network: VirtualNetwork,
    },
    /// A network was deleted.
    NetworkDeleted {
        /// Network.
        network_id: NetworkId,
    },
    /// The networks.
    NetworksListed {
        /// Networks.
        networks: Vec<VirtualNetwork>,
    },
    /// An interface was given.
    NicAttached {
        /// Interface.
        nic: Nic,
    },
    /// An interface was taken away.
    NicDetached {
        /// Interface.
        nic_id: NicId,
    },
    /// The interfaces.
    NicsListed {
        /// Interfaces.
        nics: Vec<Nic>,
    },
    /// A security group was allocated.
    SecurityGroupCreated {
        /// Group.
        sg: SecurityGroup,
    },
    /// A security group was deleted.
    SecurityGroupDeleted {
        /// Group.
        sg_id: SecurityGroupId,
    },
    /// The security groups.
    SecurityGroupsListed {
        /// Groups.
        sgs: Vec<SecurityGroup>,
    },
    /// A load balancer was allocated.
    LoadBalancerCreated {
        /// Load balancer.
        lb: LoadBalancer,
    },
    /// A load balancer was deleted.
    LoadBalancerDeleted {
        /// Load balancer.
        lb_id: LoadBalancerId,
    },
    /// The load balancers.
    LoadBalancersListed {
        /// Load balancers.
        lbs: Vec<LoadBalancer>,
    },
}

/// The outcome of an operation as it travels.
#[derive(Debug, Clone)]
pub enum VmOpResult {
    /// The operation succeeded.
    Done(VmOpReply),
    /// The operation failed, with the host's words.
    Failed(String),
}

/// Why a frame was dropped.
#[derive(Debug, Clone, Copy, PartialEq, Eq, Structural)]
pub enum DecodeError {
    /// Larger than [`MAX_FRAME_BYTES`].
    TooLarge,
    /// Not an envelope.
    Malformed,
    /// The magic is not ours.
    BadMagic,
    /// The version is not ours.
    VersionMismatch,
}

/// The verdict on a frame of `len` bytes that parsed as `parsed`.
pub open spec fn admitted(len: usize, parsed: Option<Envelope>) -> Result<Envelope, DecodeError> {
    if len > MAX_FRAME_BYTES {
        Err(DecodeError::TooLarge)
    } else {
        match parsed {
            None => Err(DecodeError::Malformed),
            Some(env) => if env.magic@ != magic_text()@ {
                Err(DecodeError::BadMagic)
            } else if env.version != PROTO_VERSION {
                Err(DecodeError::VersionMismatch)
            } else {
                Ok(env)
            },
        }
    }
}

impl Envelope {
    /// Whether a frame is small enough to be read at all.
    pub fn fits(len: usize) -> (r: bool)
        ensures
            r == (len <= MAX_FRAME_BYTES),
    {
        len <= MAX_FRAME_BYTES
    }

    /// Decides on a frame: its size in bytes, and what its bytes parsed as.
    pub fn decode(len: usize, parsed: Option<Envelope>) -> (r: Result<Envelope, DecodeError>)
        ensures
            r == admitted(len, parsed),
    {
        if len > MAX_FRAME_BYTES {
            return Err(DecodeError::TooLarge);
        }
        match parsed {
            None => Err(DecodeError::Malformed),
            Some(env) => {
                if !str_eq(env.magic.as_str(), magic()) {
                    return Err(DecodeError::BadMagic);
                }
                if env.version != PROTO_VERSION {
                    return Err(DecodeError::VersionMismatch);
                }
                Ok(env)
            },
        }
    }

    /// A frame of this protocol.
    pub fn stamped(from: &str, cluster: &str, hlc: u64, payload: Payload) -> (r: Envelope)
        ensures
            r.magic@ == magic_text()@,
            r.version == PROTO_VERSION,
            r.from@ == from@,
            r.cluster@ == cluster@,
            r.hlc == hlc,
            r.payload == payload,
    {
        Envelope {
            magic: magic().to_owned(),
            version: PROTO_VERSION,
            from: from.to_owned(),
            cluster: cluster.to_owned(),
            hlc,
            payload,
        }
    }
}

/// A frame that carries this protocol's stamp and is small enough is read.
pub proof fn law_stamped_frames_are_read(len: usize, env: Envelope)
    requires
        len <= MAX_FRAME_BYTES,
        env.magic@ == magic_text()@,
        env.version == PROTO_VERSION,
    ensures
        admitted(len, Some(env)) == Ok::<Envelope, DecodeError>(env),
{
}

} // verus!
