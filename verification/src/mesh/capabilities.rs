//! Capability-based authorisation for VM-host operations.
//!
//! A host holds a [`Capabilities`] set and refuses every operation whose
//! required capability is not in it.

use vstd::prelude::*;

use crate::mesh::proto::VmOp;

verus! {

/// Set of capabilities granted to the callers of a host, one bit each.
#[derive(Debug, Clone, Copy, PartialEq, Eq, Structural)]
pub struct Capabilities(pub u32);

impl Capabilities {
    /// No capability.
    #[verifier::allow_in_spec]
    pub fn none() -> Capabilities
        returns
            Capabilities(0u32),
    {
        Capabilities(0)
    }

    /// Read-only VM lifecycle: `List`.
    #[verifier::allow_in_spec]
    pub fn vm_lifecycle_read() -> Capabilities
        returns
            Capabilities(0x1u32),
    {
        Capabilities(0x1)
    }

    /// Mutating VM lifecycle: `Create`, `Start`, `Stop`, `Delete`.
    #[verifier::allow_in_spec]
    pub fn vm_lifecycle_write() -> Capabilities
        returns
            Capabilities(0x2u32),
    {
        Capabilities(0x2)
    }

    /// Read-only volume access: `ListVolumes`, `ReadVolume`.
    #[verifier::allow_in_spec]
    pub fn volume_read() -> Capabilities
        returns
            Capabilities(0x4u32),
    {
        Capabilities(0x4)
    }

    /// Mutating volume access: `CreateVolume`, `DeleteVolume`, `WriteVolume`.
    #[verifier::allow_in_spec]
    pub fn volume_write() -> Capabilities
        returns
            Capabilities(0x8u32),
    {
        Capabilities(0x8)
    }

    /// Volume attachment: `AttachVolume`, `DetachVolume`.
    #[verifier::allow_in_spec]
    pub fn volume_attach() -> Capabilities
        returns
            Capabilities(0x10u32),
    {
        Capabilities(0x10)
    }

    /// Read-only snapshots: `ListSnapshots`.
    #[verifier::allow_in_spec]
    pub fn snapshot_read() -> Capabilities
        returns
            Capabilities(0x20u32),
    {
        Capabilities(0x20)
    }

    /// Mutating snapshots: `CreateSnapshot`, `DeleteSnapshot`, `RestoreSnapshot`.
    #[verifier::allow_in_spec]
    pub fn snapshot_write() -> Capabilities
        returns
            Capabilities(0x40u32),
    {
        Capabilities(0x40)
    }

    /// Read-only networking: `ListNetworks`, `ListNics`.
    #[verifier::allow_in_spec]
    pub fn network_read() -> Capabilities
        returns
            Capabilities(0x80u32),
    {
        Capabilities(0x80)
    }

    /// Mutating networking: networks and NICs.
    #[verifier::allow_in_spec]
    pub fn network_write() -> Capabilities
        returns
            Capabilities(0x100u32),
    {
        Capabilities(0x100)
    }

    /// Read-only security groups: `ListSecurityGroups`.
    #[verifier::allow_in_spec]
    pub fn secgroup_read() -> Capabilities
        returns
            Capabilities(0x200u32),
    {
        Capabilities(0x200)
    }

    /// Mutating security groups.
    #[verifier::allow_in_spec]
    pub fn secgroup_write() -> Capabilities
        returns
            Capabilities(0x400u32),
    {
        Capabilities(0x400)
    }

    /// Read-only load balancers: `ListLoadBalancers`.
    #[verifier::allow_in_spec]
    pub fn lb_read() -> Capabilities
        returns
            Capabilities(0x800u32),
    {
        Capabilities(0x800)
    }

    /// Mutating load balancers.
    #[verifier::allow_in_spec]
    pub fn lb_write() -> Capabilities
        returns
            Capabilities(0x1000u32),
    {
        Capabilities(0x1000)
    }

    /// Every capability.
    #[verifier::allow_in_spec]
    pub fn all() -> Capabilities
        returns
            Capabilities(0x1fffu32),
    {
        Capabilities(0x1fff)
    }

    /// Whether every capability of `other` is in this set.
    pub open spec fn includes(self, other: Capabilities) -> bool {
        (self.0 & other.0) == other.0
    }

    /// Subset test.
    pub fn contains(self, other: Capabilities) -> (r: bool)
        ensures
            r == self.includes(other),
    {
        (self.0 & other.0) == other.0
    }

    /// This set and `other` in one.
    pub open spec fn joined(self, other: Capabilities) -> Capabilities {
        Capabilities(self.0 | other.0)
    }

    /// This set without `other`.
    pub open spec fn reduced(self, other: Capabilities) -> Capabilities {
        Capabilities(self.0 & !other.0)
    }

    /// Adds the capabilities of `other`.
    pub fn grant(&mut self, other: Capabilities)
        ensures
            *final(self) == old(self).joined(other),
    {
        self.0 = self.0 | other.0;
    }

    /// Removes the capabilities of `other`.
    pub fn revoke(&mut self, other: Capabilities)
        ensures
            *final(self) == old(self).reduced(other),
    {
        self.0 = self.0 & !other.0;
    }
}

impl Default for Capabilities {
    fn default() -> (r: Capabilities)
        ensures
            r == Capabilities(0u32),
    {
        Capabilities(0)
    }
}

impl core::ops::BitOr for Capabilities {
    type Output = Capabilities;

    fn bitor(self, rhs: Capabilities) -> (r: Capabilities) {
        Capabilities(self.0 | rhs.0)
    }
}

impl vstd::std_specs::ops::BitOrSpecImpl for Capabilities {
    open spec fn obeys_bitor_spec() -> bool {
        true
    }

    open spec fn bitor_req(self, rhs: Capabilities) -> bool {
        true
    }

    open spec fn bitor_spec(self, rhs: Capabilities) -> Capabilities {
        Capabilities(self.0 | rhs.0)
    }
}

impl core::ops::BitOrAssign for Capabilities {
    fn bitor_assign(&mut self, rhs: Capabilities)
        ensures
            final(self).0 == old(self).0 | rhs.0,
    {
        self.0 = self.0 | rhs.0;
    }
}

/// The capability that an operation needs.
pub open spec fn required_for(op: VmOp) -> Capabilities {
    match op {
        VmOp::List => Capabilities::vm_lifecycle_read(),
        VmOp::Create { .. } | VmOp::Start { .. } | VmOp::Stop { .. } | VmOp::Delete { .. } => Capabilities::vm_lifecycle_write(),
        VmOp::ListVolumes | VmOp::ReadVolume { .. } => Capabilities::volume_read(),
        VmOp::CreateVolume { .. } | VmOp::DeleteVolume { .. } | VmOp::WriteVolume { .. } => Capabilities::volume_write(),
        VmOp::AttachVolume { .. } | VmOp::DetachVolume { .. } => Capabilities::volume_attach(),
        VmOp::ListSnapshots { .. } => Capabilities::snapshot_read(),
        VmOp::CreateSnapshot { .. } | VmOp::DeleteSnapshot { .. } | VmOp::RestoreSnapshot { .. } => Capabilities::snapshot_write(),
        VmOp::ListNetworks | VmOp::ListNics => Capabilities::network_read(),
        VmOp::CreateNetwork { .. } | VmOp::DeleteNetwork { .. } | VmOp::AttachNic { .. } | VmOp::DetachNic { .. } => Capabilities::network_write(),
        VmOp::ListSecurityGroups => Capabilities::secgroup_read(),
        VmOp::CreateSecurityGroup { .. } | VmOp::DeleteSecurityGroup { .. } => Capabilities::secgroup_write(),
        VmOp::ListLoadBalancers => Capabilities::lb_read(),
        VmOp::CreateLoadBalancer { .. } | VmOp::DeleteLoadBalancer { .. } => Capabilities::lb_write(),
    }
}

/// Stable short name of an operation.
pub open spec fn tag_for(op: VmOp) -> &'static str {
    match op {
        VmOp::Create { .. } => "vm.create",
        VmOp::Start { .. } => "vm.start",
        VmOp::Stop { .. } => "vm.stop",
        VmOp::Delete { .. } => "vm.delete",
        VmOp::List => "vm.list",
        VmOp::CreateVolume { .. } => "vol.create",
        VmOp::DeleteVolume { .. } => "vol.delete",
        VmOp::ListVolumes => "vol.list",
        VmOp::ReadVolume { .. } => "vol.read",
        VmOp::WriteVolume { .. } => "vol.write",
        VmOp::AttachVolume { .. } => "vol.attach",
        VmOp::DetachVolume { .. } => "vol.detach",
        VmOp::CreateSnapshot { .. } => "snap.create",
        VmOp::ListSnapshots { .. } => "snap.list",
        VmOp::DeleteSnapshot { .. } => "snap.delete",
        VmOp::RestoreSnapshot { .. } => "snap.restore",
        VmOp::CreateNetwork { .. } => "net.create",
        VmOp::DeleteNetwork { .. } => "net.delete",
        VmOp::ListNetworks => "net.list",
        VmOp::AttachNic { .. } => "net.nic.attach",
        VmOp::DetachNic { .. } => "net.nic.detach",
        VmOp::ListNics => "net.nic.list",
        VmOp::CreateSecurityGroup { .. } => "sg.create",
        VmOp::DeleteSecurityGroup { .. } => "sg.delete",
        VmOp::ListSecurityGroups => "sg.list",
        VmOp::CreateLoadBalancer { .. } => "lb.create",
        VmOp::DeleteLoadBalancer { .. } => "lb.delete",
        VmOp::ListLoadBalancers => "lb.list",
    }
}

impl Capabilities {
    /// The capability that an operation needs.
    pub fn required(op: &VmOp) -> (r: Capabilities)
        ensures
            r == required_for(*op),
    {
        match op {
            VmOp::List => Capabilities::vm_lifecycle_read(),
            VmOp::Create { .. } | VmOp::Start { .. } | VmOp::Stop { .. } | VmOp::Delete { .. } => Capabilities::vm_lifecycle_write(),
            VmOp::ListVolumes | VmOp::ReadVolume { .. } => Capabilities::volume_read(),
            VmOp::CreateVolume { .. } | VmOp::DeleteVolume { .. } | VmOp::WriteVolume { .. } => Capabilities::volume_write(),
            VmOp::AttachVolume { .. } | VmOp::DetachVolume { .. } => Capabilities::volume_attach(),
            VmOp::ListSnapshots { .. } => Capabilities::snapshot_read(),
            VmOp::CreateSnapshot { .. } | VmOp::DeleteSnapshot { .. } | VmOp::RestoreSnapshot { .. } => Capabilities::snapshot_write(),
            VmOp::ListNetworks | VmOp::ListNics => Capabilities::network_read(),
            VmOp::CreateNetwork { .. } | VmOp::DeleteNetwork { .. } | VmOp::AttachNic { .. } | VmOp::DetachNic { .. } => Capabilities::network_write(),
            VmOp::ListSecurityGroups => Capabilities::secgroup_read(),
            VmOp::CreateSecurityGroup { .. } | VmOp::DeleteSecurityGroup { .. } => Capabilities::secgroup_write(),
            VmOp::ListLoadBalancers => Capabilities::lb_read(),
            VmOp::CreateLoadBalancer { .. } | VmOp::DeleteLoadBalancer { .. } => Capabilities::lb_write(),
        }
    }

    /// Stable short name of an operation, for logs and refusals.
    pub fn op_tag(op: &VmOp) -> (r: &'static str)
        ensures
            r == tag_for(*op),
    {
        match op {
            VmOp::Create { .. } => "vm.create",
            VmOp::Start { .. } => "vm.start",
            VmOp::Stop { .. } => "vm.stop",
            VmOp::Delete { .. } => "vm.delete",
            VmOp::List => "vm.list",
            VmOp::CreateVolume { .. } => "vol.create",
            VmOp::DeleteVolume { .. } => "vol.delete",
            VmOp::ListVolumes => "vol.list",
            VmOp::ReadVolume { .. } => "vol.read",
            VmOp::WriteVolume { .. } => "vol.write",
            VmOp::AttachVolume { .. } => "vol.attach",
            VmOp::DetachVolume { .. } => "vol.detach",
            VmOp::CreateSnapshot { .. } => "snap.create",
            VmOp::ListSnapshots { .. } => "snap.list",
            VmOp::DeleteSnapshot { .. } => "snap.delete",
            VmOp::RestoreSnapshot { .. } => "snap.restore",
            VmOp::CreateNetwork { .. } => "net.create",
            VmOp::DeleteNetwork { .. } => "net.delete",
            VmOp::ListNetworks => "net.list",
            VmOp::AttachNic { .. } => "net.nic.attach",
            VmOp::DetachNic { .. } => "net.nic.detach",
            VmOp::ListNics => "net.nic.list",
            VmOp::CreateSecurityGroup { .. } => "sg.create",
            VmOp::DeleteSecurityGroup { .. } => "sg.delete",
            VmOp::ListSecurityGroups => "sg.list",
            VmOp::CreateLoadBalancer { .. } => "lb.create",
            VmOp::DeleteLoadBalancer { .. } => "lb.delete",
            VmOp::ListLoadBalancers => "lb.list",
        }
    }
}

/// Every operation needs a capability, and the full set holds it.
pub proof fn law_required_is_known(op: VmOp)
    ensures
        required_for(op).0 != 0,
        Capabilities::all().includes(required_for(op)),
        !Capabilities::none().includes(required_for(op)),
{
    let x = required_for(op).0;
    assert(0x1fffu32 & x == x && (x != 0 ==> 0u32 & x != x)) by (bit_vector)
        requires
            x == 0x1 || x == 0x2 || x == 0x4 || x == 0x8 || x == 0x10 || x == 0x20 || x == 0x40 || x
                == 0x80 || x == 0x100 || x == 0x200 || x == 0x400 || x == 0x800 || x == 0x1000,
    ;
}

/// Granting is idempotent, and what was granted is held.
pub proof fn law_grant(c: Capabilities, d: Capabilities)
    ensures
        (c.0 | d.0) | d.0 == c.0 | d.0,
        Capabilities((c.0 | d.0) as u32).includes(d),
        Capabilities((c.0 | d.0) as u32).includes(c),
{
    let (x, y) = (c.0, d.0);
    assert((x | y) | y == x | y && (x | y) & y == y && (x | y) & x == x) by (bit_vector);
}

/// Revoking is idempotent, and what was revoked is not held.
pub proof fn law_revoke(c: Capabilities, d: Capabilities)
    ensures
        (c.0 & !d.0) & !d.0 == c.0 & !d.0,
        d.0 != 0 ==> !Capabilities((c.0 & !d.0) as u32).includes(d),
{
    let (x, y) = (c.0, d.0);
    assert((x & !y) & !y == x & !y && (y != 0 ==> (x & !y) & y != y)) by (bit_vector);
}

/// Which right each operation needs: one for looking and one for changing, for
/// VMs, volumes, snapshots, networks, security groups and load balancers, and
/// one of its own for attaching volumes. No two of the thirteen share a bit.
pub proof fn law_rights(op: VmOp)
    ensures
        required_for(op) == Capabilities::vm_lifecycle_read() <==> op is List,
        required_for(op) == Capabilities::vm_lifecycle_write() <==> op is Create || op is Start || op
            is Stop || op is Delete,
        required_for(op) == Capabilities::volume_read() <==> op is ListVolumes || op is ReadVolume,
        required_for(op) == Capabilities::volume_write() <==> op is CreateVolume || op
            is DeleteVolume || op is WriteVolume,
        required_for(op) == Capabilities::volume_attach() <==> op is AttachVolume || op
            is DetachVolume,
        required_for(op) == Capabilities::snapshot_read() <==> op is ListSnapshots,
        required_for(op) == Capabilities::snapshot_write() <==> op is CreateSnapshot || op
            is DeleteSnapshot || op is RestoreSnapshot,
        required_for(op) == Capabilities::network_read() <==> op is ListNetworks || op is ListNics,
        required_for(op) == Capabilities::network_write() <==> op is CreateNetwork || op
            is DeleteNetwork || op is AttachNic || op is DetachNic,
        required_for(op) == Capabilities::secgroup_read() <==> op is ListSecurityGroups,
        required_for(op) == Capabilities::secgroup_write() <==> op is CreateSecurityGroup || op
            is DeleteSecurityGroup,
        required_for(op) == Capabilities::lb_read() <==> op is ListLoadBalancers,
        required_for(op) == Capabilities::lb_write() <==> op is CreateLoadBalancer || op
            is DeleteLoadBalancer,
        Capabilities::vm_lifecycle_read().0 == 0x1 && Capabilities::vm_lifecycle_write().0 == 0x2
            && Capabilities::volume_read().0 == 0x4 && Capabilities::volume_write().0 == 0x8
            && Capabilities::volume_attach().0 == 0x10 && Capabilities::snapshot_read().0 == 0x20
            && Capabilities::snapshot_write().0 == 0x40 && Capabilities::network_read().0 == 0x80
            && Capabilities::network_write().0 == 0x100 && Capabilities::secgroup_read().0 == 0x200
            && Capabilities::secgroup_write().0 == 0x400 && Capabilities::lb_read().0 == 0x800
            && Capabilities::lb_write().0 == 0x1000 && Capabilities::all().0 == 0x1fff
            && Capabilities::none().0 == 0,
{
}

/// A set includes another one exactly if it has every bit of it.
pub proof fn law_includes(c: Capabilities, d: Capabilities)
    ensures
        c.includes(d) <==> d.0 & !c.0 == 0,
{
    let (x, y) = (c.0, d.0);
    assert((x & y) == y <==> y & !x == 0) by (bit_vector);
}

/// The tag of an operation names what it is about and what it does to it.
pub proof fn law_tags_of_operations(op: VmOp)
    ensures
        op is Create ==> tag_for(op)@ == "vm.create"@,
        op is Start ==> tag_for(op)@ == "vm.start"@,
        op is Stop ==> tag_for(op)@ == "vm.stop"@,
        op is Delete ==> tag_for(op)@ == "vm.delete"@,
        op is List ==> tag_for(op)@ == "vm.list"@,
        op is CreateVolume ==> tag_for(op)@ == "vol.create"@,
        op is DeleteVolume ==> tag_for(op)@ == "vol.delete"@,
        op is ListVolumes ==> tag_for(op)@ == "vol.list"@,
        op is ReadVolume ==> tag_for(op)@ == "vol.read"@,
        op is WriteVolume ==> tag_for(op)@ == "vol.write"@,
        op is AttachVolume ==> tag_for(op)@ == "vol.attach"@,
        op is DetachVolume ==> tag_for(op)@ == "vol.detach"@,
        op is CreateSnapshot ==> tag_for(op)@ == "snap.create"@,
        op is ListSnapshots ==> tag_for(op)@ == "snap.list"@,
        op is DeleteSnapshot ==> tag_for(op)@ == "snap.delete"@,
        op is RestoreSnapshot ==> tag_for(op)@ == "snap.restore"@,
        op is CreateNetwork ==> tag_for(op)@ == "net.create"@,
        op is DeleteNetwork ==> tag_for(op)@ == "net.delete"@,
        op is ListNetworks ==> tag_for(op)@ == "net.list"@,
        op is AttachNic ==> tag_for(op)@ == "net.nic.attach"@,
        op is DetachNic ==> tag_for(op)@ == "net.nic.detach"@,
        op is ListNics ==> tag_for(op)@ == "net.nic.list"@,
        op is CreateSecurityGroup ==> tag_for(op)@ == "sg.create"@,
        op is DeleteSecurityGroup ==> tag_for(op)@ == "sg.delete"@,
        op is ListSecurityGroups ==> tag_for(op)@ == "sg.list"@,
        op is CreateLoadBalancer ==> tag_for(op)@ == "lb.create"@,
        op is DeleteLoadBalancer ==> tag_for(op)@ == "lb.delete"@,
        op is ListLoadBalancers ==> tag_for(op)@ == "lb.list"@,
{
}

/// Who is granted something holds that and what was held before, and nothing
/// else. Who has something revoked holds none of it, and all else that was held
/// before.
pub proof fn law_granting_and_revoking(c: Capabilities, d: Capabilities, e: Capabilities)
    ensures
        c.joined(d).includes(c),
        c.joined(d).includes(d),
        e.includes(c) && e.includes(d) ==> e.includes(c.joined(d)),
        c.includes(c.reduced(d)),
        c.includes(e) && e.0 & d.0 == 0 ==> c.reduced(d).includes(e),
        d.includes(e) && c.reduced(d).includes(e) ==> e == Capabilities::none(),
{
    let (x, y, z) = (c.0, d.0, e.0);
    assert((x | y) & x == x && (x | y) & y == y && (z & x == x && z & y == y ==> z & (x | y) == x
        | y)) by (bit_vector);
    assert(x & (x & !y) == x & !y && (x & z == z && z & y == 0 ==> (x & !y) & z == z) && (y & z == z
        && (x & !y) & z == z ==> z == 0)) by (bit_vector);
}

} // verus!
