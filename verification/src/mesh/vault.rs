//! Values that the storage and networking stores hand out. The stores
//! themselves live outside this crate.

use vstd::prelude::*;

use crate::text::str_eq;

verus! {

/// Identifier of a volume.
#[derive(Debug, PartialEq, Eq, Hash)]
pub struct VolumeId(pub String);

impl View for VolumeId {
    type V = Seq<char>;

    open spec fn view(&self) -> Seq<char> {
        self.0@
    }
}

impl Clone for VolumeId {
    fn clone(&self) -> (r: VolumeId)
        ensures
            r == *self,
    {
        VolumeId(self.0.clone())
    }
}

impl VolumeId {
    /// Builds an identifier from text.
    pub fn named(s: &str) -> (r: VolumeId)
        ensures
            r@ == s@,
    {
        VolumeId(s.to_owned())
    }

    /// Whether two identifiers are the same.
    pub fn same(&self, other: &VolumeId) -> (r: bool)
        ensures
            r == (self@ == other@),
    {
        str_eq(self.0.as_str(), other.0.as_str())
    }
}

/// Identifier of a snapshot.
#[derive(Debug, Clone, PartialEq, Eq)]
pub struct SnapshotId(pub String);

/// Identifier of a virtual network.
#[derive(Debug, PartialEq, Eq)]
pub struct NetworkId(pub String);

/// Identifier of a network interface.
#[derive(Debug, PartialEq, Eq)]
pub struct NicId(pub String);

/// Identifier of a security group.
#[derive(Debug, Clone, PartialEq, Eq)]
pub struct SecurityGroupId(pub String);

/// Identifier of a load balancer.
#[derive(Debug, PartialEq, Eq)]
pub struct LoadBalancerId(pub String);

impl Clone for NetworkId {
    fn clone(&self) -> (r: NetworkId)
        ensures
            r == *self,
    {
        NetworkId(self.0.clone())
    }
}

impl Clone for NicId {
    fn clone(&self) -> (r: NicId)
        ensures
            r == *self,
    {
        NicId(self.0.clone())
    }
}

impl Clone for LoadBalancerId {
    fn clone(&self) -> (r: LoadBalancerId)
        ensures
            r == *self,
    {
        LoadBalancerId(self.0.clone())
    }
}

/// An IPv4 address, the first octet in the highest bits.
#[derive(Debug, Clone, Copy, PartialEq, Eq, Structural)]
pub struct Ipv4(pub u32);

/// What is known of a volume.
#[derive(Debug, PartialEq, Eq)]
pub struct VolumeMeta {
    /// Identifier.
    pub id: VolumeId,
    /// Node that owns the volume.
    pub owner: String,
    /// Label.
    pub name: String,
    /// Size in bytes.
    pub size_bytes: u64,
}

impl Clone for VolumeMeta {
    fn clone(&self) -> (r: VolumeMeta)
        ensures
            r == *self,
    {
        VolumeMeta {
            id: self.id.clone(),
            owner: self.owner.clone(),
            name: self.name.clone(),
            size_bytes: self.size_bytes,
        }
    }
}

/// What is known of a snapshot.
#[derive(Debug, Clone, PartialEq, Eq)]
pub struct SnapshotMeta {
    /// Identifier.
    pub id: SnapshotId,
    /// Volume that was captured.
    pub volume_id: VolumeId,
    /// Label.
    pub name: String,
}

/// A volume at a mount point of a VM.
#[derive(Debug, PartialEq, Eq)]
pub struct VolumeAttachment {
    /// Volume.
    pub volume_id: VolumeId,
    /// Mount point inside the guest.
    pub mount_name: String,
}

impl View for VolumeAttachment {
    type V = (Seq<char>, Seq<char>);

    open spec fn view(&self) -> (Seq<char>, Seq<char>) {
        (self.volume_id@, self.mount_name@)
    }
}

impl Clone for VolumeAttachment {
    fn clone(&self) -> (r: VolumeAttachment)
        ensures
            r == *self,
    {
        VolumeAttachment {
            volume_id: self.volume_id.clone(),
            mount_name: self.mount_name.clone(),
        }
    }
}

/// Mathematical value of a list of attachments.
pub open spec fn attachment_views(v: Seq<VolumeAttachment>) -> Seq<(Seq<char>, Seq<char>)> {
    Seq::new(v.len(), |i: int| v[i]@)
}

/// Copies a list of attachments.
pub fn clone_attachments(v: &Vec<VolumeAttachment>) -> (r: Vec<VolumeAttachment>)
    ensures
        attachment_views(r@) == attachment_views(v@),
{
    let mut out: Vec<VolumeAttachment> = Vec::new();
    let mut i: usize = 0;
    while i < v.len()
        invariant
            i <= v@.len(),
            out@.len() == i,
            forall|j: int| 0 <= j < i ==> out@[j] == v@[j],
        decreases v@.len() - i,
    {
        out.push(v[i].clone());
        i = i + 1;
    }
    assert(attachment_views(out@) =~= attachment_views(v@));
    out
}

/// A virtual network.
#[derive(Debug, Clone, PartialEq, Eq)]
pub struct VirtualNetwork {
    /// Identifier.
    pub id: NetworkId,
    /// Node that owns the network.
    pub owner: String,
    /// Label.
    pub name: String,
    /// Address block, as text.
    pub cidr: String,
}

/// A network interface of a VM.
#[derive(Debug, Clone, PartialEq, Eq)]
pub struct Nic {
    /// Identifier.
    pub id: NicId,
    /// Network that the interface is on.
    pub network_id: NetworkId,
    /// VM that the interface belongs to.
    pub vm_id: u32,
    /// Address.
    pub ip: Ipv4,
}

/// One rule of a security group.
#[derive(Debug, Clone, PartialEq, Eq)]
pub struct SecurityRule {
    /// Whether the rule is about incoming traffic.
    pub ingress: bool,
    /// Whether the rule allows the traffic.
    pub allow: bool,
    /// Address block of the other side, as text.
    pub cidr: String,
    /// First port.
    pub port_from: u16,
    /// Last port.
    pub port_to: u16,
}

/// A security group.
#[derive(Debug, Clone, PartialEq, Eq)]
pub struct SecurityGroup {
    /// Identifier.
    pub id: SecurityGroupId,
    /// Node that owns the group.
    pub owner: String,
    /// Label.
    pub name: String,
    /// Rules.
    pub rules: Vec<SecurityRule>,
}

/// How a load balancer spreads connections.
#[derive(Debug, Clone, Copy, PartialEq, Eq, Structural)]
pub enum LbAlgo {
    /// In turn.
    RoundRobin,
    /// To the backend with the fewest connections.
    LeastConn,
}

/// A backend of a load balancer.
#[derive(Debug, Clone, Copy, PartialEq, Eq, Structural)]
pub struct LbBackend {
    /// VM that serves.
    pub vm_id: u32,
    /// Address of the VM.
    pub ip: Ipv4,
    /// Port of the VM.
    pub port: u16,
}

/// A load balancer.
#[derive(Debug, Clone, PartialEq, Eq)]
pub struct LoadBalancer {
    /// Identifier.
    pub id: LoadBalancerId,
    /// Node that owns the load balancer.
    pub owner: String,
    /// Label.
    pub name: String,
    /// Network that the load balancer is on.
    pub network_id: NetworkId,
    /// Address at which it listens.
    pub vip: Ipv4,
    /// Port at which it listens.
    pub frontend_port: u16,
    /// How connections are spread.
    pub algo: LbAlgo,
    /// Backends.
    pub backends: Vec<LbBackend>,
}

} // verus!
