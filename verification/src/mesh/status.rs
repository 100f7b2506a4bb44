//! What an engine tells about itself and the cluster.

use vstd::prelude::*;
use vstd::string::*;

use crate::error::{CelError, CelResult};
use crate::mesh::engine;
use crate::mesh::engine::{Mesh, MeshView};
use crate::mesh::federation;
use crate::mesh::federation::{RemoteVm, RemoteVmView};
use crate::mesh::membership;
use crate::mesh::membership::{NodeId, NodeInfo, NodeStatus};
use crate::mesh::path;
use crate::mesh::path::parse_cluster_path;
use crate::mesh::proto::VmOp;
use crate::text;
use crate::text::{concat, push_decimal};

verus! {

/// The cluster as one node sees it.
#[derive(Debug, Clone)]
pub struct ClusterStatus {
    /// This node.
    pub self_id: NodeId,
    /// Name of the cluster.
    pub cluster: String,
    /// Every membership row.
    pub members: Vec<NodeInfo>,
    /// Every federated VM, with whether its owner is alive.
    pub vms: Vec<RemoteVm>,
    /// Nodes that are alive.
    pub alive: usize,
    /// Nodes that are suspect.
    pub suspect: usize,
    /// Nodes that are dead or departed.
    pub dead: usize,
    /// Federated VMs.
    pub total_vms: usize,
    /// Federated VMs whose owner is not alive.
    pub orphaned_vms: usize,
}

/// How many of the first `n` nodes have a status.
pub open spec fn count_of(s: MeshView, status: NodeStatus) -> int {
    let all = membership::ordered(s.rows);
    membership::count_status(all, status, all.len() as int)
}

/// A VM with whether its owner is alive; this node always is.
pub open spec fn judged(s: MeshView, v: RemoteVmView) -> RemoteVmView {
    RemoteVmView { owner_alive: v.owner == s.me() || s.alive(v.owner), ..v }
}

/// Every VM with whether its owner is alive.
pub open spec fn judged_vms(s: MeshView) -> Seq<RemoteVmView> {
    let all = federation::ordered(s.vms);
    Seq::new(all.len(), |i: int| judged(s, all[i]))
}

/// How many VMs have an owner that is not alive.
pub open spec fn count_orphaned(vms: Seq<RemoteVmView>) -> nat
    decreases vms.len(),
{
    if vms.len() == 0 {
        0
    } else {
        count_orphaned(vms.drop_last()) + if vms.last().owner_alive {
            0nat
        } else {
            1nat
        }
    }
}

/// What [`Mesh::cluster_status`] tells.
pub open spec fn tells(s: MeshView, r: ClusterStatus) -> bool {
    let all = membership::ordered(s.rows);
    &&& r.self_id@ == s.me()
    &&& r.cluster@ == s.config.cluster@
    &&& engine::info_views(r.members@) == Seq::new(all.len(), |i: int| all[i].info)
    &&& federation::vm_views(r.vms@) == judged_vms(s)
    &&& r.alive == count_of(s, NodeStatus::Alive)
    &&& r.suspect == count_of(s, NodeStatus::Suspect)
    &&& r.dead == count_of(s, NodeStatus::Dead) + count_of(s, NodeStatus::Left)
    &&& r.total_vms == judged_vms(s).len()
    &&& r.orphaned_vms == count_orphaned(judged_vms(s))
}

/// Of the first `n` rows each has one status.
proof fn lemma_counts(rows: Seq<membership::MemberRowView>, n: int)
    requires
        0 <= n <= rows.len(),
    ensures
        membership::count_status(rows, NodeStatus::Alive, n) + membership::count_status(
            rows,
            NodeStatus::Suspect,
            n,
        ) + membership::count_status(rows, NodeStatus::Dead, n) + membership::count_status(
            rows,
            NodeStatus::Left,
            n,
        ) == n,
        0 <= membership::count_status(rows, NodeStatus::Alive, n),
        0 <= membership::count_status(rows, NodeStatus::Suspect, n),
        0 <= membership::count_status(rows, NodeStatus::Dead, n),
        0 <= membership::count_status(rows, NodeStatus::Left, n),
    decreases n,
{
    if n > 0 {
        lemma_counts(rows, n - 1);
    }
}

/// Every node has one status, so the counts of a status add up to the members.
pub proof fn law_status_counts_members(s: MeshView, r: ClusterStatus)
    requires
        tells(s, r),
    ensures
        r.alive + r.suspect + r.dead == r.members@.len(),
        r.orphaned_vms <= r.total_vms,
{
    let all = membership::ordered(s.rows);
    lemma_counts(all, all.len() as int);
    assert(engine::info_views(r.members@).len() == all.len());
    lemma_orphaned_bound(judged_vms(s));
}

/// No more VMs are orphaned than there are.
proof fn lemma_orphaned_bound(vms: Seq<RemoteVmView>)
    ensures
        count_orphaned(vms) <= vms.len(),
    decreases vms.len(),
{
    if vms.len() > 0 {
        lemma_orphaned_bound(vms.drop_last());
    }
}

/// The line that [`Mesh::summary`] gives. A node is degraded while it sees no
/// other node alive.
pub open spec fn summary_text(s: MeshView) -> Seq<char> {
    "node="@ + s.me() + " cluster="@ + s.config.cluster@ + " alive="@ + text::decimal(
        count_of(s, NodeStatus::Alive) as nat,
    ) + if degraded(s) {
        " degraded=true"@
    } else {
        " degraded=false"@
    }
}

/// Whether a node sees fewer than two nodes alive, itself counted.
pub open spec fn degraded(s: MeshView) -> bool {
    count_of(s, NodeStatus::Alive) < 2
}

impl Mesh {
    /// The cluster as this node sees it.
    pub fn cluster_status(&self) -> (r: ClusterStatus)
        requires
            self.wf(),
        ensures
            tells(self@, r),
    {
        let ghost s = self@;
        let ghost rows = membership::ordered(s.rows);
        proof {
            self.membership.lemma_ordered();
            self.federation.lemma_ordered();
            lemma_counts(rows, rows.len() as int);
        }
        let members = self.membership.snapshot();
        assert(engine::info_views(members@) =~= Seq::new(rows.len(), |i: int| rows[i].info));
        let alive: usize = self.membership.count(NodeStatus::Alive);
        let suspect: usize = self.membership.count(NodeStatus::Suspect);
        let gone: usize = self.membership.count(NodeStatus::Dead);
        let left: usize = self.membership.count(NodeStatus::Left);
        assert(gone + left <= members.len());
        let all = self.federation.list();
        let ghost listed = federation::ordered(s.vms);
        let ghost want = judged_vms(s);
        let mut vms: Vec<RemoteVm> = Vec::new();
        let mut orphaned_vms: usize = 0;
        let mut i: usize = 0;
        assert(federation::vm_views(vms@) =~= want.take(0));
        while i < all.len()
            invariant
                i <= all@.len(),
                self.wf(),
                s == self@,
                listed == federation::vm_views(all@),
                listed == federation::ordered(s.vms),
                want == judged_vms(s),
                federation::vm_views(vms@) == want.take(i as int),
                orphaned_vms == count_orphaned(want.take(i as int)),
                orphaned_vms <= i,
            decreases all@.len() - i,
        {
            let ghost before = federation::vm_views(vms@);
            let mut v = all[i].clone();
            v.owner_alive = if v.owner.same(&self.config.node_id) {
                true
            } else {
                match self.membership.get(&v.owner) {
                    Some(row) => row.status == NodeStatus::Alive,
                    None => false,
                }
            };
            if !v.owner_alive {
                orphaned_vms = orphaned_vms + 1;
            }
            proof {
                assert(v@ == want[i as int]);
                let t = want.take(i + 1);
                assert(t.drop_last() =~= want.take(i as int));
                assert(t.last() == want[i as int]);
                assert(t =~= want.take(i as int).push(want[i as int]));
            }
            vms.push(v);
            assert(federation::vm_views(vms@) =~= before.push(want[i as int]));
            i = i + 1;
        }
        assert(want.take(i as int) =~= want);
        let total_vms: usize = vms.len();
        assert(federation::vm_views(vms@).len() == vms@.len());
        ClusterStatus {
            self_id: self.config.node_id.clone(),
            cluster: self.config.cluster.clone(),
            members,
            vms,
            alive,
            suspect,
            dead: gone + left,
            total_vms,
            orphaned_vms,
        }
    }

    /// One line on this node, for people and probes.
    pub fn summary(&self) -> (r: String)
        requires
            self.wf(),
        ensures
            r@ == summary_text(self@),
    {
        proof {
            let rows = membership::ordered(self@.rows);
            lemma_counts(rows, rows.len() as int);
        }
        let alive: usize = self.alive_count();
        let mut s = concat("node=", self.config.node_id.as_str());
        s.append(" cluster=");
        s.append(self.config.cluster.as_str());
        s.append(" alive=");
        push_decimal(&mut s, alive as u64);
        if alive < 2 {
            s.append(" degraded=true");
        } else {
            s.append(" degraded=false");
        }
        s
    }

    /// Whether this node sees no other node alive.
    pub fn is_degraded(&self) -> (r: bool)
        requires
            self.wf(),
        ensures
            r == degraded(self@),
    {
        self.alive_count() < 2
    }
}

/// An operation addressed to another VM; one that addresses no VM stays as it
/// is.
pub open spec fn addressed(op: VmOp, vm: u32) -> VmOp {
    match op {
        VmOp::Start { .. } => VmOp::Start { vm_id: vm },
        VmOp::Stop { .. } => VmOp::Stop { vm_id: vm },
        VmOp::Delete { .. } => VmOp::Delete { vm_id: vm },
        VmOp::AttachVolume { volume_id, mount_name, .. } => VmOp::AttachVolume {
            vm_id: vm,
            volume_id,
            mount_name,
        },
        VmOp::DetachVolume { volume_id, .. } => VmOp::DetachVolume { vm_id: vm, volume_id },
        VmOp::AttachNic { network_id, ip, .. } => VmOp::AttachNic { network_id, vm_id: vm, ip },
        _ => op,
    }
}

/// See [`addressed`].
fn address(op: VmOp, vm: u32) -> (r: VmOp)
    ensures
        r == addressed(op, vm),
{
    match op {
        VmOp::Start { .. } => VmOp::Start { vm_id: vm },
        VmOp::Stop { .. } => VmOp::Stop { vm_id: vm },
        VmOp::Delete { .. } => VmOp::Delete { vm_id: vm },
        VmOp::AttachVolume { volume_id, mount_name, .. } => VmOp::AttachVolume {
            vm_id: vm,
            volume_id,
            mount_name,
        },
        VmOp::DetachVolume { volume_id, .. } => VmOp::DetachVolume { vm_id: vm, volume_id },
        VmOp::AttachNic { network_id, ip, .. } => VmOp::AttachNic { network_id, vm_id: vm, ip },
        _ => op,
    }
}

/// What [`invoke_path`] makes of a path and an operation.
pub open spec fn leads_to(path: Seq<char>, op: VmOp, r: CelResult<(NodeId, VmOp)>) -> bool {
    match path::parsed_path(path, false) {
        Ok((node, vm)) => r matches Ok((n, o)) && n@ == node && o == addressed(op, vm),
        Err(f) => r == Err::<(NodeId, VmOp), CelError>(path::path_error(f)),
    }
}

/// The node and the operation that a path stands for. The operation's VM is
/// that of the path.
pub fn invoke_path(path: &str, op: VmOp) -> (r: CelResult<(NodeId, VmOp)>)
    ensures
        leads_to(path@, op, r),
{
    match parse_cluster_path(path) {
        Ok((node, vm)) => Ok((node, address(op, vm))),
        Err(e) => Err(e),
    }
}

} // verus!
