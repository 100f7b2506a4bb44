//! What holds of a VM host as a whole, and of a host and its stores together.

use vstd::prelude::*;
use vstd::string::*;
use vstd::utf8::*;

use crate::mesh::capabilities;
use crate::mesh::federation;
use crate::mesh::federation::RemoteVmView;
use crate::mesh::host;
use crate::mesh::host::{HostResult, HostStep, HostView, SlotView, StoreCall, StoreOutcome, VmState};
use crate::mesh::net;
use crate::mesh::proto::{VmOp, VmOpReply};
use crate::mesh::vault::VolumeId;

verus! {

/// What a volume store holds: the bytes of every volume, by its name.
pub type Volumes = Map<Seq<char>, Seq<u8>>;

/// Whether `n` bytes at `offset` lie within a volume.
pub open spec fn within(v: Volumes, id: Seq<char>, offset: int, n: int) -> bool {
    v.dom().contains(id) && offset + n <= v[id].len()
}

/// Whether a volume store goes from `v` to `w` when it is asked for a read or a
/// write, and answers so. A read or a write that does not lie within the volume
/// fails.
pub open spec fn store_does(v: Volumes, call: StoreCall, w: Volumes, out: StoreOutcome) -> bool {
    match call {
        StoreCall::ReadVolume { volume_id, offset, len } => w == v && if within(
            v,
            volume_id@,
            offset as int,
            len as int,
        ) {
            out matches StoreOutcome::Data(b) && b@ == v[volume_id@].subrange(
                offset as int,
                offset + len,
            )
        } else {
            out is Failed
        },
        StoreCall::WriteVolume { volume_id, offset, bytes } => if within(
            v,
            volume_id@,
            offset as int,
            bytes@.len() as int,
        ) {
            let old = v[volume_id@];
            out is Done && w == v.insert(
                volume_id@,
                Seq::new(
                    old.len(),
                    |i: int|
                        if offset <= i < offset + bytes@.len() {
                            bytes@[i - offset]
                        } else {
                            old[i]
                        },
                ),
            )
        } else {
            w == v && out is Failed
        },
        _ => false,
    }
}

/// Whether a host that runs an operation on a volume goes from `s` to `m`, and
/// its store from `v` to `w`, with the result `q`: the host asks the store, and
/// the store's answer makes the result.
pub open spec fn runs(
    s: HostView,
    v: Volumes,
    op: VmOp,
    call: StoreCall,
    out: StoreOutcome,
    m: HostView,
    w: Volumes,
    q: HostResult,
) -> bool {
    &&& host::stepped(s, op, s, HostStep::Store(call))
    &&& store_does(v, call, w, out)
    &&& host::resumed(s, call, out, m, q)
}

/// What is written to a volume is read back. A write that lies within the volume
/// changes the bytes that it names and no others, on no other volume, and says
/// how many; a read of the same place then gives those bytes. Neither changes a
/// VM.
pub proof fn law_volume_round_trip(
    s: HostView,
    v: Volumes,
    id: VolumeId,
    offset: u64,
    bytes: Vec<u8>,
    call: StoreCall,
    out: StoreOutcome,
    m: HostView,
    w: Volumes,
    q: HostResult,
    call2: StoreCall,
    out2: StoreOutcome,
    m2: HostView,
    w2: Volumes,
    q2: HostResult,
)
    requires
        within(v, id@, offset as int, bytes@.len() as int),
        runs(s, v, VmOp::WriteVolume { volume_id: id, offset, bytes }, call, out, m, w, q),
        runs(
            m,
            w,
            VmOp::ReadVolume { volume_id: id, offset, len: bytes@.len() as u64 },
            call2,
            out2,
            m2,
            w2,
            q2,
        ),
    ensures
        q matches Ok(VmOpReply::VolumeWritten { volume_id, bytes_written }) && volume_id == id
            && bytes_written == bytes@.len(),
        q2 matches Ok(VmOpReply::VolumeData { volume_id, bytes: got }) && volume_id == id && got@
            == bytes@,
        m == s,
        m2 == s,
        w2 == w,
        w.dom() == v.dom(),
        forall|k: Seq<char>| k != id@ && v.dom().contains(k) ==> #[trigger] w[k] == v[k],
        w[id@].len() == v[id@].len(),
        forall|i: int|
            0 <= i < v[id@].len() && !(offset <= i < offset + bytes@.len()) ==> #[trigger] w[id@][i]
                == v[id@][i],
        forall|i: int|
            0 <= i < bytes@.len() ==> w[id@][offset + i] == #[trigger] bytes@[i],
{
    assert(w.dom() =~= v.dom());
    let n = bytes@.len() as int;
    assert(n <= 32768);
    assert(w[id@].subrange(offset as int, offset + n) =~= bytes@);
}

/// A read of a volume gives the bytes that stand there, as many as were asked
/// for, and changes nothing.
pub proof fn law_volume_read(
    s: HostView,
    v: Volumes,
    id: VolumeId,
    offset: u64,
    len: u64,
    call: StoreCall,
    out: StoreOutcome,
    m: HostView,
    w: Volumes,
    q: HostResult,
)
    requires
        runs(s, v, VmOp::ReadVolume { volume_id: id, offset, len }, call, out, m, w, q),
    ensures
        m == s,
        w == v,
        q is Ok <==> within(v, id@, offset as int, len as int),
        q matches Ok(reply) ==> (reply matches VmOpReply::VolumeData { volume_id, bytes }
            && volume_id == id && bytes@.len() == len && forall|i: int|
            0 <= i < len ==> #[trigger] bytes@[i] == v[id@][offset + i]),
{
}

/// Reads and writes of more than 32 KiB never reach a store, and smaller ones
/// always do, where the host grants them.
pub proof fn law_volume_io_is_bounded(s: HostView, op: VmOp, n: HostView, r: HostStep)
    requires
        host::stepped(s, op, n, r),
        s.caps.includes(capabilities::required_for(op)),
        op is ReadVolume || op is WriteVolume,
    ensures
        n == s,
        op matches VmOp::ReadVolume { len, .. } ==> (r is Store <==> len <= 32768),
        op matches VmOp::WriteVolume { bytes, .. } ==> (r is Store <==> bytes@.len() <= 32768),
        r matches HostStep::Reply(x) ==> x is Err,
{
}

/// An operation that a host hands to a store says there what it says itself:
/// the same volume, snapshot, network, interface, group, load balancer, names,
/// sizes and addresses, and what it makes belongs to the host's node. It changes
/// no VM.
pub proof fn law_store_is_asked_for_the_same(s: HostView, op: VmOp, n: HostView, call: StoreCall)
    requires
        s.slots.len() == 4,
        host::stepped(s, op, n, HostStep::Store(call)),
    ensures
        n == s,
        op matches VmOp::CreateVolume { name, size_bytes } ==> (call matches
            StoreCall::CreateVolume { owner, name: a, size_bytes: b } && Some(owner@) == s.owner
            && a == name && b == size_bytes),
        op matches VmOp::DeleteVolume { volume_id } ==> (call matches StoreCall::DeleteVolume {
            volume_id: a,
        } && a == volume_id),
        op is ListVolumes ==> call is ListVolumes,
        op matches VmOp::AttachVolume { vm_id, volume_id, mount_name } ==> (call matches
            StoreCall::FindVolume { vm_id: a, volume_id: b, mount_name: c } && a == vm_id && b
            == volume_id && c == mount_name),
        op matches VmOp::ReadVolume { volume_id, offset, len } ==> (call matches
            StoreCall::ReadVolume { volume_id: a, offset: b, len: c } && a == volume_id && b
            == offset && c == len),
        op matches VmOp::WriteVolume { volume_id, offset, bytes } ==> (call matches
            StoreCall::WriteVolume { volume_id: a, offset: b, bytes: c } && a == volume_id && b
            == offset && c == bytes),
        op matches VmOp::CreateSnapshot { volume_id, name } ==> (call matches
            StoreCall::CreateSnapshot { volume_id: a, name: b } && a == volume_id && b == name),
        op matches VmOp::ListSnapshots { volume_id } ==> (call matches StoreCall::ListSnapshots {
            volume_id: a,
        } && a == volume_id),
        op matches VmOp::DeleteSnapshot { snapshot_id } ==> (call matches
            StoreCall::DeleteSnapshot { snapshot_id: a } && a == snapshot_id),
        op matches VmOp::RestoreSnapshot { snapshot_id } ==> (call matches
            StoreCall::RestoreSnapshot { snapshot_id: a } && a == snapshot_id),
        op matches VmOp::CreateNetwork { name, cidr } ==> (call matches
            StoreCall::CreateNetwork { owner, name: a, cidr: b } && Some(owner@) == s.owner && a
            == name && b == cidr),
        op matches VmOp::DeleteNetwork { network_id } ==> (call matches StoreCall::DeleteNetwork {
            network_id: a,
        } && a == network_id),
        op is ListNetworks ==> call is ListNetworks,
        op matches VmOp::AttachNic { network_id, vm_id, ip } ==> (call matches
            StoreCall::AttachNic { network_id: a, vm_id: b, ip: c } && a == network_id && b == vm_id
            && vm_id < s.slots.len() && s.slots[vm_id as int] is Some && match ip {
            None => c is None,
            Some(t) => c is Some && c == net::parsed_ipv4(t@),
        }),
        op matches VmOp::DetachNic { nic_id } ==> (call matches StoreCall::DetachNic { nic_id: a }
            && a == nic_id),
        op is ListNics ==> call is ListNics,
        op matches VmOp::CreateSecurityGroup { name, rules } ==> (call matches
            StoreCall::CreateSecurityGroup { owner, name: a, rules: b } && Some(owner@) == s.owner
            && a == name && b == rules),
        op matches VmOp::DeleteSecurityGroup { sg_id } ==> (call matches
            StoreCall::DeleteSecurityGroup { sg_id: a } && a == sg_id),
        op is ListSecurityGroups ==> call is ListSecurityGroups,
        op matches VmOp::CreateLoadBalancer {
            name,
            network_id,
            vip,
            frontend_port,
            algo,
            backends,
        } ==> (call matches StoreCall::CreateLoadBalancer {
            owner,
            name: a,
            network_id: b,
            vip: c,
            frontend_port: d,
            algo: e,
            backends: f,
        } && Some(owner@) == s.owner && a == name && b == network_id && Some(c)
            == net::parsed_ipv4(vip@) && d == frontend_port && e == algo && f == backends),
        op matches VmOp::DeleteLoadBalancer { lb_id } ==> (call matches
            StoreCall::DeleteLoadBalancer { lb_id: a } && a == lb_id),
        op is ListLoadBalancers ==> call is ListLoadBalancers,
        !(op is Create) && !(op is Start) && !(op is Stop) && !(op is Delete) && !(op is List)
            && !(op is DetachVolume),
{
}

/// What a store made, found or did is what the caller is told: the answer of the
/// store to an operation that changes no VM, handed on as it is, under the name
/// that the operation gave.
pub proof fn law_store_answer_is_the_reply(
    s: HostView,
    op: VmOp,
    call: StoreCall,
    out: StoreOutcome,
    m: HostView,
    q: HostResult,
)
    requires
        host::stepped(s, op, s, HostStep::Store(call)),
        host::resumed(s, call, out, m, q),
        !(op is AttachVolume),
    ensures
        m == s,
        out is Failed ==> q is Err,
        op is CreateVolume && out is Volume ==> q == Ok::<VmOpReply, String>(
            VmOpReply::VolumeCreated { volume: out->Volume_0 },
        ),
        op is DeleteVolume && out is Done ==> q == Ok::<VmOpReply, String>(
            VmOpReply::VolumeDeleted { volume_id: op->DeleteVolume_volume_id },
        ),
        op is ListVolumes && out is Volumes ==> q == Ok::<VmOpReply, String>(
            VmOpReply::VolumesListed { volumes: out->Volumes_0 },
        ),
        op is ReadVolume && out is Data ==> q == Ok::<VmOpReply, String>(
            VmOpReply::VolumeData { volume_id: op->ReadVolume_volume_id, bytes: out->Data_0 },
        ),
        op is CreateSnapshot && out is Snapshot ==> q == Ok::<VmOpReply, String>(
            VmOpReply::SnapshotCreated { snapshot: out->Snapshot_0 },
        ),
        op is ListSnapshots && out is Snapshots ==> q == Ok::<VmOpReply, String>(
            VmOpReply::SnapshotsListed { snapshots: out->Snapshots_0 },
        ),
        op is DeleteSnapshot && out is Done ==> q == Ok::<VmOpReply, String>(
            VmOpReply::SnapshotDeleted { snapshot_id: op->DeleteSnapshot_snapshot_id },
        ),
        op is RestoreSnapshot && out is Done ==> q == Ok::<VmOpReply, String>(
            VmOpReply::SnapshotRestored { snapshot_id: op->RestoreSnapshot_snapshot_id },
        ),
        op is CreateNetwork && out is Network ==> q == Ok::<VmOpReply, String>(
            VmOpReply::NetworkCreated { network: out->Network_0 },
        ),
        op is DeleteNetwork && out is Done ==> q == Ok::<VmOpReply, String>(
            VmOpReply::NetworkDeleted { network_id: op->DeleteNetwork_network_id },
        ),
        op is ListNetworks && out is Networks ==> q == Ok::<VmOpReply, String>(
            VmOpReply::NetworksListed { networks: out->Networks_0 },
        ),
        op is AttachNic && out is Nic ==> q == Ok::<VmOpReply, String>(
            VmOpReply::NicAttached { nic: out->Nic_0 },
        ),
        op is DetachNic && out is Done ==> q == Ok::<VmOpReply, String>(
            VmOpReply::NicDetached { nic_id: op->DetachNic_nic_id },
        ),
        op is ListNics && out is Nics ==> q == Ok::<VmOpReply, String>(
            VmOpReply::NicsListed { nics: out->Nics_0 },
        ),
        op is CreateSecurityGroup && out is Group ==> q == Ok::<VmOpReply, String>(
            VmOpReply::SecurityGroupCreated { sg: out->Group_0 },
        ),
        op is DeleteSecurityGroup && out is Done ==> q == Ok::<VmOpReply, String>(
            VmOpReply::SecurityGroupDeleted { sg_id: op->DeleteSecurityGroup_sg_id },
        ),
        op is ListSecurityGroups && out is Groups ==> q == Ok::<VmOpReply, String>(
            VmOpReply::SecurityGroupsListed { sgs: out->Groups_0 },
        ),
        op is CreateLoadBalancer && out is Balancer ==> q == Ok::<VmOpReply, String>(
            VmOpReply::LoadBalancerCreated { lb: out->Balancer_0 },
        ),
        op is DeleteLoadBalancer && out is Done ==> q == Ok::<VmOpReply, String>(
            VmOpReply::LoadBalancerDeleted { lb_id: op->DeleteLoadBalancer_lb_id },
        ),
        op is ListLoadBalancers && out is Balancers ==> q == Ok::<VmOpReply, String>(
            VmOpReply::LoadBalancersListed { lbs: out->Balancers_0 },
        ),
{
}

/// Attaching a volume that its store has puts it last among the volumes of that
/// VM, under the mount point that was asked for, unless the VM has it already.
/// Nothing else changes, and the caller is told what the VM then has.
pub proof fn law_attach(
    s: HostView,
    vm_id: u32,
    volume_id: VolumeId,
    mount_name: String,
    call: StoreCall,
    found: bool,
    m: HostView,
    q: HostResult,
)
    requires
        s.slots.len() == 4,
        host::stepped(
            s,
            VmOp::AttachVolume { vm_id, volume_id, mount_name },
            s,
            HostStep::Store(call),
        ),
        host::resumed(s, call, StoreOutcome::Found(found), m, q),
    ensures
        encode_utf8(mount_name@).len() <= s.max_mount,
        q is Err ==> m == s,
        q is Ok <==> found && vm_id < 4 && s.slots[vm_id as int] is Some && (forall|i: int|
            0 <= i < s.slots[vm_id as int]->0.volumes.len() ==> (
            #[trigger] s.slots[vm_id as int]->0.volumes[i]).0 != volume_id@),
        q matches Ok(reply) ==> {
            let x = s.slots[vm_id as int]->0;
            let y = m.slots[vm_id as int]->0;
            &&& m.slots[vm_id as int] is Some
            &&& y.volumes.len() == x.volumes.len() + 1
            &&& y.volumes.last() == (volume_id@, mount_name@)
            &&& forall|i: int| 0 <= i < x.volumes.len() ==> #[trigger] y.volumes[i] == x.volumes[i]
            &&& y == (SlotView { volumes: y.volumes, ..x })
            &&& forall|i: int|
                0 <= i < 4 && i != vm_id ==> #[trigger] m.slots[i] == s.slots[i]
            &&& reply matches VmOpReply::Attachments { vm_id: a, volumes } && a == vm_id
                && volumes@.len() == y.volumes.len() && forall|i: int|
                0 <= i < volumes@.len() ==> (#[trigger] volumes@[i]).volume_id@ == y.volumes[i].0
                    && volumes@[i].mount_name@ == y.volumes[i].1
        },
{
    if q is Ok {
        let volumes = q->Ok_0->Attachments_volumes;
        let views = crate::mesh::vault::attachment_views(volumes@);
        assert forall|i: int| 0 <= i < volumes@.len() implies (#[trigger] volumes@[i]).volume_id@
            == views[i].0 && volumes@[i].mount_name@ == views[i].1 by {}
    }
}

/// A VM that is created takes the first free slot, under its label and as it was
/// asked for, not run yet and without volumes. A label of more than 32 bytes, and
/// a host whose four slots are taken, are refused.
pub proof fn law_created_vm(s: HostView, op: VmOp, n: HostView, r: HostStep)
    requires
        s.slots.len() == 4,
        op is Create,
        s.caps.includes(capabilities::required_for(op)),
        host::stepped(s, op, n, r),
    ensures
        r matches HostStep::Reply(Err(_)) ==> n == s,
        r matches HostStep::Reply(Err(_)) <==> encode_utf8(op->Create_label@).len() > 32 || (
        forall|i: int| 0 <= i < 4 ==> (#[trigger] s.slots[i]) is Some),
        r matches HostStep::Reply(Ok(reply)) ==> (reply matches VmOpReply::Created { vm_id }
            && vm_id < 4 && s.slots[vm_id as int] is None && (forall|i: int|
            0 <= i < vm_id ==> (#[trigger] s.slots[i]) is Some) && n.slots.len() == 4 && (forall|
            i: int,
        |
            0 <= i < 4 && i != vm_id ==> #[trigger] n.slots[i] == s.slots[i]) && n.owner == s.owner
            && n.caps == s.caps && (n.slots[vm_id as int] matches Some(x) && x.label
            == op->Create_label@ && x.state == VmState::Created && x.last_exit is None
            && x.restart_policy == op->Create_restart_policy && x.volumes.len() == 0
            && x.image_path == federation::text_view(op->Create_image_path) && x.cpu_count
            == op->Create_cpu_count && x.memory_mib == op->Create_memory_mib && x.boot_blob_crc32c
            == op->Create_boot_blob_crc32c)),
        !(r is Store),
{
    host::lemma_first_free(s.slots, 0);
}

/// The life of a VM. A VM that was created runs to its end when it is started,
/// with exit code 12, and can only be started once; stopping one that has not
/// ended stops it; only one that has ended can be deleted, and its slot is free
/// again. Whatever is asked of one VM leaves every other one, and the rest of
/// this one, as it was.
pub proof fn law_life_of_a_vm(s: HostView, vm_id: u32, op: VmOp, n: HostView, r: HostStep)
    requires
        s.slots.len() == 4,
        op == (VmOp::Start { vm_id }) || op == (VmOp::Stop { vm_id }) || op == (VmOp::Delete {
            vm_id,
        }),
        s.caps.includes(capabilities::required_for(op)),
        host::stepped(s, op, n, r),
    ensures
        !(r is Store),
        n.slots.len() == 4,
        forall|i: int| 0 <= i < 4 && i != vm_id ==> #[trigger] n.slots[i] == s.slots[i],
        r matches HostStep::Reply(Err(_)) ==> n == s,
        vm_id >= 4 || s.slots[vm_id as int] is None ==> (r matches HostStep::Reply(Err(_))),
        vm_id < 4 && s.slots[vm_id as int] is Some ==> ({
            let x = s.slots[vm_id as int]->0;
            let ended = x.state == VmState::Halted || x.state == VmState::Stopped || x.state
                == VmState::Faulted;
            &&& op is Start && x.state == VmState::Created ==> n.slots[vm_id as int] == Some(
                SlotView { state: VmState::Halted, last_exit: Some(12u32), ..x },
            ) && (r matches HostStep::Reply(Ok(VmOpReply::State { vm_id: v, state })) && v == vm_id
                && state@ == "halted"@)
            &&& op is Start && x.state != VmState::Created ==> (r matches HostStep::Reply(Err(_)))
            &&& op is Stop && !ended ==> n.slots[vm_id as int] == Some(
                SlotView { state: VmState::Stopped, ..x },
            ) && (r matches HostStep::Reply(Ok(VmOpReply::State { vm_id: v, state })) && v == vm_id
                && state@ == "stopped"@)
            &&& op is Stop && ended ==> n == s && (r matches HostStep::Reply(
                Ok(VmOpReply::State { vm_id: v, .. }),
            ) && v == vm_id)
            &&& op is Delete && ended ==> n.slots[vm_id as int] is None && r == HostStep::Reply(
                Ok(VmOpReply::Deleted { vm_id }),
            )
            &&& op is Delete && !ended ==> (r matches HostStep::Reply(Err(_)))
        }),
{
}

/// What a host lists is its VMs, each once and by slot, as they are.
pub proof fn law_listing(s: HostView, n: HostView, r: HostStep, owner: Seq<char>)
    requires
        s.slots.len() == 4,
        s.owner == Some(owner),
        s.caps.includes(capabilities::required_for(VmOp::List)),
        host::stepped(s, VmOp::List, n, r),
    ensures
        n == s,
        r matches HostStep::Reply(Ok(VmOpReply::Listed { rows })) && (forall|k: int|
            0 <= k < rows@.len() ==> lists_slot(s, owner, (#[trigger] rows@[k])@)) && (forall|
            i: int,
        |
            0 <= i < 4 && (#[trigger] s.slots[i]) is Some ==> exists|k: int|
                0 <= k < rows@.len() && (#[trigger] rows@[k]).vm_id == i) && (forall|
            a: int,
            b: int,
        |
            0 <= a < b < rows@.len() ==> (#[trigger] rows@[a]).vm_id < (
            #[trigger] rows@[b]).vm_id),
{
    let rows = r->Reply_0->Ok_0->Listed_rows;
    let views = federation::vm_views(rows@);
    lemma_rows(s.slots, owner, 0);
    assert(views == host::rows_from(s.slots, owner, 0));
    assert forall|k: int| 0 <= k < rows@.len() implies lists_slot(
        s,
        owner,
        (#[trigger] rows@[k])@,
    ) by {
        assert(tells(s.slots, owner, 0, views[k]));
    }
    assert forall|i: int| 0 <= i < 4 && (#[trigger] s.slots[i]) is Some implies exists|k: int|
        0 <= k < rows@.len() && (#[trigger] rows@[k]).vm_id == i by {
        assert(has_row(views, i));
        let k = choose|k: int| 0 <= k < views.len() && (#[trigger] views[k]).vm_id == i;
        assert(rows@[k].vm_id == views[k].vm_id);
    }
    assert forall|a: int, b: int| 0 <= a < b < rows@.len() implies (#[trigger] rows@[a]).vm_id < (
    #[trigger] rows@[b]).vm_id by {
        assert(views[a].vm_id < views[b].vm_id);
    }
}

/// Whether a row tells of the VM in the slot of its number.
pub open spec fn lists_slot(s: HostView, owner: Seq<char>, row: RemoteVmView) -> bool {
    &&& row.vm_id < s.slots.len()
    &&& row.owner == owner
    &&& row.owner_alive
    &&& s.slots[row.vm_id as int] matches Some(x) && row.label == x.label && row.restart_policy
        == x.restart_policy && row.volumes == x.volumes && row.last_exit == x.last_exit
        && row.image_path == x.image_path && row.cpu_count == x.cpu_count && row.memory_mib
        == x.memory_mib && row.boot_blob_crc32c == x.boot_blob_crc32c && row.state
        == match x.state {
        VmState::Created => "created"@,
        VmState::Running => "running"@,
        VmState::Halted => "halted"@,
        VmState::Stopped => "stopped"@,
        VmState::Faulted => "faulted"@,
    }
}

/// Whether a row tells of a slot from `from` on.
spec fn tells(slots: Seq<Option<SlotView>>, owner: Seq<char>, from: int, v: RemoteVmView) -> bool {
    &&& from <= v.vm_id < slots.len()
    &&& slots[v.vm_id as int] is Some
    &&& v == host::row_of(slots[v.vm_id as int]->0, owner, v.vm_id)
}

/// Whether there is a row of VM `i`.
spec fn has_row(rows: Seq<RemoteVmView>, i: int) -> bool {
    exists|k: int| 0 <= k < rows.len() && (#[trigger] rows[k]).vm_id == i
}

proof fn lemma_rows(slots: Seq<Option<SlotView>>, owner: Seq<char>, from: int)
    requires
        0 <= from <= slots.len() <= 4,
    ensures
        forall|k: int|
            0 <= k < host::rows_from(slots, owner, from).len() ==> tells(
                slots,
                owner,
                from,
                #[trigger] host::rows_from(slots, owner, from)[k],
            ),
        forall|i: int|
            from <= i < slots.len() && slots[i] is Some ==> #[trigger] has_row(
                host::rows_from(slots, owner, from),
                i,
            ),
        forall|a: int, b: int|
            0 <= a < b < host::rows_from(slots, owner, from).len() ==> (
            #[trigger] host::rows_from(slots, owner, from)[a]).vm_id < (
            #[trigger] host::rows_from(slots, owner, from)[b]).vm_id,
    decreases slots.len() - from,
{
    if from < slots.len() {
        lemma_rows(slots, owner, from + 1);
        let rest = host::rows_from(slots, owner, from + 1);
        let rows = host::rows_from(slots, owner, from);
        if slots[from] is Some {
            let x = host::row_of(slots[from]->0, owner, from as u32);
            assert(rows == seq![x] + rest);
            assert(rows[0] == x);
            assert forall|k: int| 0 < k < rows.len() implies #[trigger] rows[k] == rest[k - 1] by {}
            assert forall|k: int| 0 <= k < rows.len() implies tells(
                slots,
                owner,
                from,
                #[trigger] rows[k],
            ) by {
                if k > 0 {
                    assert(tells(slots, owner, from + 1, rest[k - 1]));
                }
            }
            assert forall|i: int| from <= i < slots.len() && slots[i] is Some implies
                #[trigger] has_row(rows, i) by {
                if i > from {
                    assert(has_row(rest, i));
                    let k = choose|k: int| 0 <= k < rest.len() && (#[trigger] rest[k]).vm_id == i;
                    assert(rows[k + 1].vm_id == i);
                }
            }
            assert forall|a: int, b: int| 0 <= a < b < rows.len() implies (
            #[trigger] rows[a]).vm_id < (#[trigger] rows[b]).vm_id by {
                assert(tells(slots, owner, from + 1, rest[b - 1]));
                if a > 0 {
                    assert(rest[a - 1].vm_id < rest[b - 1].vm_id);
                }
            }
        } else {
            assert(rows == rest);
            assert forall|k: int| 0 <= k < rows.len() implies tells(
                slots,
                owner,
                from,
                #[trigger] rows[k],
            ) by {
                assert(tells(slots, owner, from + 1, rest[k]));
            }
            assert forall|i: int| from <= i < slots.len() && slots[i] is Some implies
                #[trigger] has_row(rows, i) by {
                assert(has_row(rest, i));
            }
        }
    }
}

/// Who may only look changes nothing. A caller without any of the rights to
/// change something leaves the host as it is, and all that the host asks a store
/// for in their name is to list or to read.
pub proof fn law_lookers_change_nothing(s: HostView, op: VmOp, n: HostView, r: HostStep)
    requires
        s.caps.0 & 0x155a == 0,
        host::stepped(s, op, n, r),
    ensures
        n == s,
        r matches HostStep::Store(call) ==> call is ListVolumes || call is ReadVolume || call
            is ListSnapshots || call is ListNetworks || call is ListNics || call
            is ListSecurityGroups || call is ListLoadBalancers,
{
    let (c, x) = (s.caps.0, capabilities::required_for(op).0);
    assert(c & 0x155a == 0 && (c & x) == x && x != 0 ==> x & 0x155a == 0) by (bit_vector);
    assert(0x2u32 & 0x155a != 0 && 0x8u32 & 0x155a != 0 && 0x10u32 & 0x155a != 0 && 0x40u32 & 0x155a
        != 0 && 0x100u32 & 0x155a != 0 && 0x400u32 & 0x155a != 0 && 0x1000u32 & 0x155a != 0)
        by (bit_vector);
    capabilities::law_rights(op);
}

/// An operation that the caller has no right to is refused by name and changes
/// nothing; one that the caller has the right to is never refused for want of
/// it.
pub proof fn law_rights_decide(s: HostView, op: VmOp, n: HostView, r: HostStep)
    requires
        host::stepped(s, op, n, r),
        !s.caps.includes(capabilities::required_for(op)),
    ensures
        n == s,
        r matches HostStep::Reply(Err(e)) && e@ == "capability denied: "@ + capabilities::tag_for(
            op,
        )@,
{
}

proof fn lemma_without(vols: Seq<(Seq<char>, Seq<char>)>, id: Seq<char>)
    ensures
        forall|i: int|
            0 <= i < host::without_volume(vols, id).len() ==> (#[trigger] host::without_volume(
                vols,
                id,
            )[i]).0 != id && vols.contains(host::without_volume(vols, id)[i]),
        forall|i: int|
            0 <= i < vols.len() && (#[trigger] vols[i]).0 != id ==> host::without_volume(
                vols,
                id,
            ).contains(vols[i]),
    decreases vols.len(),
{
    if vols.len() > 0 {
        let d = vols.drop_last();
        lemma_without(d, id);
        let w = host::without_volume(d, id);
        let v = host::without_volume(vols, id);
        assert forall|i: int| 0 <= i < v.len() implies (#[trigger] v[i]).0 != id && vols.contains(
            v[i],
        ) by {
            if i < w.len() {
                assert(v[i] == w[i]);
                let k = choose|k: int| 0 <= k < d.len() && d[k] == w[i];
                assert(vols[k] == v[i]);
            } else {
                assert(vols[vols.len() - 1] == v[i]);
            }
        }
        assert forall|i: int| 0 <= i < vols.len() && (#[trigger] vols[i]).0
            != id implies v.contains(vols[i]) by {
            if i < d.len() {
                assert(d[i] == vols[i]);
                assert(w.contains(d[i]));
                let k = choose|k: int| 0 <= k < w.len() && w[k] == d[i];
                assert(v[k] == vols[i]);
            } else {
                assert(v[v.len() - 1] == vols[i]);
            }
        }
    }
}

/// Detaching takes a volume off a VM and leaves every other volume on it; nothing
/// else of any VM changes, and the caller is told what the VM then has.
pub proof fn law_detach(s: HostView, op: VmOp, n: HostView, r: HostStep)
    requires
        s.slots.len() == 4,
        op is DetachVolume,
        s.caps.includes(capabilities::required_for(op)),
        host::stepped(s, op, n, r),
    ensures
        ({
            let v = op->DetachVolume_vm_id;
            let id = op->DetachVolume_volume_id@;
            let there = v < 4 && s.slots[v as int] is Some;
            &&& !there ==> n == s && (r matches HostStep::Reply(Err(_)))
            &&& there ==> {
                let x = s.slots[v as int]->0;
                let y = n.slots[v as int]->0;
                &&& n == (HostView { slots: n.slots, ..s })
                &&& n.slots.len() == 4
                &&& forall|i: int| 0 <= i < 4 && i != v ==> #[trigger] n.slots[i] == s.slots[i]
                &&& n.slots[v as int] == Some(SlotView { volumes: y.volumes, ..x })
                &&& forall|i: int|
                    0 <= i < y.volumes.len() ==> (#[trigger] y.volumes[i]).0 != id
                        && x.volumes.contains(y.volumes[i])
                &&& forall|i: int|
                    0 <= i < x.volumes.len() && (#[trigger] x.volumes[i]).0 != id
                        ==> y.volumes.contains(x.volumes[i])
                &&& r matches HostStep::Reply(Ok(VmOpReply::Attachments { vm_id, volumes }))
                    && vm_id == v && crate::mesh::vault::attachment_views(volumes@) == y.volumes
            }
        }),
{
    let v = op->DetachVolume_vm_id;
    if v < 4 && s.slots[v as int] is Some {
        lemma_without(s.slots[v as int]->0.volumes, op->DetachVolume_volume_id@);
    }
}

/// The words of a refusal.
pub open spec fn said(r: HostStep, words: Seq<char>) -> bool {
    r matches HostStep::Reply(Err(e)) && e@ == words
}

/// Why a host refuses what the caller has the right to, and in which words: a
/// label or a mount point that is too long, no room, a VM that is not there or in
/// the wrong state, a volume in use, too large a piece, no owner yet, or an
/// address that is none. Anything else is done or handed to a store.
pub proof fn law_why_a_host_refuses(s: HostView, op: VmOp, n: HostView, r: HostStep)
    requires
        s.slots.len() == 4,
        s.caps.includes(capabilities::required_for(op)),
        host::stepped(s, op, n, r),
    ensures
        op matches VmOp::Create { label, .. } ==> (encode_utf8(label@).len() > 32 <==> said(
            r,
            "label > 32 chars"@,
        )) && (encode_utf8(label@).len() <= 32 && (r matches HostStep::Reply(Err(_))) ==> said(
            r,
            "vm registry full"@,
        )),
        op matches VmOp::Start { vm_id } ==> (vm_id >= 4 ==> said(r, "vm id out of range"@)) && (
        vm_id < 4 && s.slots[vm_id as int] is None ==> said(r, "vm not allocated"@)) && (vm_id < 4
            && s.slots[vm_id as int] is Some ==> {
            let st = s.slots[vm_id as int]->0.state;
            &&& st == VmState::Running ==> said(r, "vm already running"@)
            &&& st != VmState::Running && st != VmState::Created ==> said(
                r,
                "vm already terminal"@,
            )
        }),
        op matches VmOp::Stop { vm_id } ==> (vm_id >= 4 ==> said(r, "vm id out of range"@)) && (vm_id
            < 4 && s.slots[vm_id as int] is None ==> said(r, "vm not allocated"@)),
        op matches VmOp::Delete { vm_id } ==> (vm_id >= 4 ==> said(r, "vm id out of range"@)) && (
        vm_id < 4 && s.slots[vm_id as int] is None ==> said(r, "vm not allocated"@)) && (vm_id < 4
            && s.slots[vm_id as int] is Some && (s.slots[vm_id as int]->0.state == VmState::Created
            || s.slots[vm_id as int]->0.state == VmState::Running) ==> said(
            r,
            "vm not terminal; stop first"@,
        )),
        op matches VmOp::AttachVolume { mount_name, .. } ==> (encode_utf8(mount_name@).len()
            > s.max_mount ==> said(r, "attach: mount_name > MAX_MOUNT"@)) && (encode_utf8(
            mount_name@,
        ).len() <= s.max_mount ==> r is Store),
        op matches VmOp::DeleteVolume { volume_id } ==> (r is Store <==> forall|i: int, j: int|
            0 <= i < 4 && (#[trigger] s.slots[i]) is Some && 0 <= j < s.slots[i]->0.volumes.len()
                ==> (#[trigger] s.slots[i]->0.volumes[j]).0 != volume_id@) && (!(r is Store)
            ==> said(r, "vault delete: volume still attached"@)),
        op is ReadVolume || op is WriteVolume ==> r is Store || said(
            r,
            "volume io: chunk too large"@,
        ),
        op is CreateVolume ==> (r is Store <==> s.owner is Some) && (s.owner is None ==> said(
            r,
            "vault: owner not yet known; snapshot first"@,
        )),
        op is CreateNetwork ==> (r is Store <==> s.owner is Some) && (s.owner is None ==> said(
            r,
            "net: owner not yet known; snapshot first"@,
        )),
        op is CreateSecurityGroup ==> (r is Store <==> s.owner is Some) && (s.owner is None
            ==> said(r, "sg: owner not yet known; snapshot first"@)),
        op matches VmOp::CreateLoadBalancer { vip, .. } ==> (s.owner is None ==> said(
            r,
            "lb: owner not yet known; snapshot first"@,
        )) && (s.owner is Some ==> (r is Store <==> crate::mesh::net::parsed_ipv4(vip@) is Some) && (
        crate::mesh::net::parsed_ipv4(vip@) is None ==> said(r, "lb create: bad vip"@))),
        op matches VmOp::AttachNic { vm_id, ip, .. } ==> (vm_id >= 4 ==> said(
            r,
            "vm id out of range"@,
        )) && (vm_id < 4 && s.slots[vm_id as int] is None ==> said(r, "vm not allocated"@)) && (vm_id
            < 4 && s.slots[vm_id as int] is Some ==> match ip {
            None => r is Store,
            Some(t) => (r is Store <==> crate::mesh::net::parsed_ipv4(t@) is Some) && (
            crate::mesh::net::parsed_ipv4(t@) is None ==> said(r, "net.nic.attach: bad ip"@)),
        }),
        op is ListVolumes || op is CreateSnapshot || op is ListSnapshots || op is DeleteSnapshot || op
            is RestoreSnapshot || op is DeleteNetwork || op is ListNetworks || op is DetachNic || op
            is ListNics || op is DeleteSecurityGroup || op is ListSecurityGroups || op
            is DeleteLoadBalancer || op is ListLoadBalancers ==> r is Store,
        (r matches HostStep::Reply(Err(_))) ==> n == s,
{
    reveal_strlit("label > 32 chars");
    reveal_strlit("vm registry full");
    assert("label > 32 chars"@[0] != "vm registry full"@[0]);
    if let VmOp::DeleteVolume { volume_id } = op {
        let id = volume_id@;
        if host::attached_anywhere(s.slots, id) {
            let i = choose|i: int|
                0 <= i < s.slots.len() && (#[trigger] s.slots[i]) is Some && host::holds_volume(
                    s.slots[i]->0.volumes,
                    id,
                );
            let vs = s.slots[i]->0.volumes;
            let j = choose|j: int| 0 <= j < vs.len() && (#[trigger] vs[j]).0 == id;
            assert(s.slots[i]->0.volumes[j].0 == id);
        } else {
            assert forall|i: int, j: int|
                0 <= i < 4 && (#[trigger] s.slots[i]) is Some && 0 <= j < s.slots[i]->0.volumes.len() implies (
            #[trigger] s.slots[i]->0.volumes[j]).0 != id by {
                assert(!host::holds_volume(s.slots[i]->0.volumes, id));
            }
        }
    }
}

/// What is said of a store that fails: what was tried, and what the store said.
/// Nothing of the host changes.
pub proof fn law_store_failures(
    s: HostView,
    call: StoreCall,
    why: String,
    n: HostView,
    r: HostResult,
)
    requires
        host::resumed(s, call, StoreOutcome::Failed(why), n, r),
    ensures
        n == s,
        r is Err,
        call is CreateVolume ==> r->Err_0@ == "vault create: "@ + why@,
        call is DeleteVolume ==> r->Err_0@ == "vault delete: "@ + why@,
        call is ReadVolume ==> r->Err_0@ == "vault read: "@ + why@,
        call is WriteVolume ==> r->Err_0@ == "vault write: "@ + why@,
        call is CreateSnapshot ==> r->Err_0@ == "vault snapshot: "@ + why@,
        call is DeleteSnapshot ==> r->Err_0@ == "vault snapshot delete: "@ + why@,
        call is RestoreSnapshot ==> r->Err_0@ == "vault snapshot restore: "@ + why@,
        call is CreateNetwork ==> r->Err_0@ == "net create: "@ + why@,
        call is DeleteNetwork ==> r->Err_0@ == "net delete: "@ + why@,
        call is AttachNic ==> r->Err_0@ == "net.nic.attach: "@ + why@,
        call is DetachNic ==> r->Err_0@ == "net.nic.detach: "@ + why@,
        call is CreateSecurityGroup ==> r->Err_0@ == "sg create: "@ + why@,
        call is DeleteSecurityGroup ==> r->Err_0@ == "sg delete: "@ + why@,
        call is CreateLoadBalancer ==> r->Err_0@ == "lb create: "@ + why@,
        call is DeleteLoadBalancer ==> r->Err_0@ == "lb delete: "@ + why@,
{
}

/// Attaching a volume that no store has, or that the VM has already, is refused
/// in these words and changes nothing.
pub proof fn law_attach_refusals(
    s: HostView,
    call: StoreCall,
    found: bool,
    n: HostView,
    r: HostResult,
)
    requires
        s.slots.len() == 4,
        call is FindVolume,
        host::resumed(s, call, StoreOutcome::Found(found), n, r),
    ensures
        ({
            let v = call->FindVolume_vm_id;
            let id = call->FindVolume_volume_id@;
            &&& r is Err ==> n == s
            &&& !found ==> r is Err && r->Err_0@ == "attach: unknown volume"@
            &&& found && v >= 4 ==> r is Err && r->Err_0@ == "vm id out of range"@
            &&& found && v < 4 && s.slots[v as int] is None ==> r is Err && r->Err_0@
                == "vm not allocated"@
            &&& found && v < 4 && s.slots[v as int] is Some ==> {
                let bound = exists|j: int|
                    0 <= j < s.slots[v as int]->0.volumes.len() && (
                    #[trigger] s.slots[v as int]->0.volumes[j]).0 == id;
                &&& bound ==> r is Err && r->Err_0@ == "attach: volume already attached"@
                &&& !bound ==> r is Ok
            }
        }),
{
}

} // verus!
