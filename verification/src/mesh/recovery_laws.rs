//! What holds of recovery as a whole: which VMs the supervisor takes up, what
//! they are recreated as, and that the VMs of a cluster that was provisioned are
//! among them.

use vstd::prelude::*;
use vstd::string::*;
use vstd::utf8::*;

use crate::mesh::engine;
use crate::mesh::engine::{Mesh, MeshView};
use crate::mesh::federation;
use crate::mesh::federation::{RemoteVmView, RestartPolicy};
use crate::mesh::host;
use crate::mesh::host::{HostStep, HostView, VmState};
use crate::mesh::k8s;
use crate::mesh::k8s::{K8sCluster, K8sNodeRole, K8sProvision, K8sStep};
use crate::mesh::membership;
use crate::mesh::membership::NodeStatus;
use crate::mesh::net;
use crate::mesh::proto::{VmOp, VmOpReply};
use crate::mesh::supervisor;
use crate::mesh::table;
use crate::mesh::table::Key;
use crate::mesh::vault::{Ipv4, LbBackend, Nic, VolumeAttachment};
use crate::text;

verus! {

/// Whether the owner of a VM is gone, as far as a node can tell: it is another
/// node, and not one that is known to be alive.
pub open spec fn owner_gone(s: MeshView, v: RemoteVmView) -> bool {
    v.owner != s.config.node_id@ && !(s.rows.dom().contains(v.owner)
        && s.rows[v.owner].info.status == NodeStatus::Alive)
}

/// The supervisor takes up exactly the VMs that are to be restarted always and
/// whose owner is gone, each once. `s` is the engine before
/// [`Mesh::orphaned_vms`] or [`Mesh::run_supervisor_step`], `m` the one after it,
/// `rows` what it gave. The rows are those that were known, marked as without a
/// living owner.
pub proof fn law_abandoned_vms(s: MeshView, m: Mesh, rows: Seq<RemoteVmView>)
    requires
        m.wf(),
        m@ == engine::with_liveness(s),
        rows == engine::orphans(federation::ordered(m@.vms)),
    ensures
        forall|i: int|
            0 <= i < rows.len() ==> {
                let v = #[trigger] rows[i];
                &&& v.restart_policy == RestartPolicy::Always
                &&& owner_gone(s, v)
                &&& s.vms.dom().contains((v.owner, v.vm_id))
                &&& v == (RemoteVmView { owner_alive: false, ..s.vms[(v.owner, v.vm_id)] })
            },
        forall|k: Key| #[trigger]
            s.vms.dom().contains(k) && s.vms[k].restart_policy == RestartPolicy::Always
                && owner_gone(s, s.vms[k]) ==> exists|i: int|
                0 <= i < rows.len() && (#[trigger] rows[i]).owner == k.0 && rows[i].vm_id == k.1,
        forall|i: int, j: int|
            0 <= i < j < rows.len() ==> (#[trigger] rows[i]).owner != (#[trigger] rows[j]).owner
                || rows[i].vm_id != rows[j].vm_id,
{
    let all = federation::ordered(m@.vms);
    m.federation.lemma_ordered();
    supervisor::lemma_orphans(all);
    m.federation.lemma_listing();
    assert forall|i: int, j: int| 0 <= i < j < all.len() implies (#[trigger] all[i]).key() != (
    #[trigger] all[j]).key() by {
        let (a, b) = (all[i].key(), all[j].key());
        assert(table::key_before(a, b));
        table::lemma_bytes_total(encode_utf8(a.0), encode_utf8(a.0));
    }
    lemma_orphans_distinct(all);
    assert forall|i: int| 0 <= i < rows.len() implies {
        let v = #[trigger] rows[i];
        &&& v.restart_policy == RestartPolicy::Always
        &&& owner_gone(s, v)
        &&& s.vms.dom().contains((v.owner, v.vm_id))
        &&& v == (RemoteVmView { owner_alive: false, ..s.vms[(v.owner, v.vm_id)] })
    } by {
        let v = rows[i];
        assert(rows.contains(v));
        let j = choose|j: int| 0 <= j < all.len() && all[j] == v;
        assert(m@.vms.dom().contains(all[j].key()));
    }
    assert forall|k: Key| #[trigger]
        s.vms.dom().contains(k) && s.vms[k].restart_policy == RestartPolicy::Always && owner_gone(
            s,
            s.vms[k],
        ) implies exists|i: int|
        0 <= i < rows.len() && (#[trigger] rows[i]).owner == k.0 && rows[i].vm_id == k.1 by {
        assert(m@.vms.dom().contains(k));
        let j = choose|j: int| 0 <= j < all.len() && (#[trigger] all[j]).key() == k;
        let v = all[j];
        assert(m@.vms[k] == v);
        assert(all.contains(v));
        assert(rows.contains(v));
        let i = choose|i: int| 0 <= i < rows.len() && rows[i] == v;
        assert(rows[i].owner == k.0);
    }
}

/// Rows that wait for the supervisor are as distinct as the rows they come from.
proof fn lemma_orphans_distinct(all: Seq<RemoteVmView>)
    requires
        forall|i: int, j: int|
            0 <= i < j < all.len() ==> (#[trigger] all[i]).key() != (#[trigger] all[j]).key(),
    ensures
        forall|i: int, j: int|
            0 <= i < j < engine::orphans(all).len() ==> (#[trigger] engine::orphans(all)[i]).key()
                != (#[trigger] engine::orphans(all)[j]).key(),
    decreases all.len(),
{
    if all.len() > 0 {
        let p = all.drop_last();
        assert forall|i: int, j: int| 0 <= i < j < p.len() implies (#[trigger] p[i]).key() != (
        #[trigger] p[j]).key() by {
            assert(all[i].key() != all[j].key());
        }
        lemma_orphans_distinct(p);
        supervisor::lemma_orphans(p);
        let head = engine::orphans(p);
        let full = engine::orphans(all);
        assert forall|i: int, j: int| 0 <= i < j < full.len() implies (#[trigger] full[i]).key()
            != (#[trigger] full[j]).key() by {
            if j < head.len() {
                assert(head[i].key() != head[j].key());
            } else {
                assert(head.contains(head[i]));
                let k = choose|k: int| 0 <= k < p.len() && p[k] == head[i];
                assert(all[k].key() != all[all.len() - 1].key());
            }
        }
    }
}

/// The label of a VM that is recreated begins its own label and its owner,
/// joined by an `@`: all of it if that has at most 32 bytes, else as much as has.
pub proof fn law_restart_label(v: RemoteVmView)
    ensures
        ({
            let whole = v.label + seq!['@'] + v.owner;
            let label = supervisor::restart_of(v).label;
            &&& label.len() <= whole.len()
            &&& label == whole.take(label.len() as int)
            &&& encode_utf8(label).len() <= 32
            &&& label.len() < whole.len() ==> encode_utf8(whole.take(label.len() as int + 1)).len() > 32
        }),
{
    let whole = v.label + "@"@ + v.owner;
    reveal_strlit("@");
    assert("@"@ =~= seq!['@']);
    supervisor::lemma_clipped(whole, 32);
    lemma_clipped_longest(whole, 32);
}

proof fn lemma_clipped_longest(s: Seq<char>, max: int)
    requires
        0 <= max,
    ensures
        ({
            let c = supervisor::clipped(s, max);
            c.len() < s.len() ==> encode_utf8(s.take(c.len() as int + 1)).len() > max
        }),
    decreases s.len(),
{
    if !(encode_utf8(s).len() <= max || s.len() == 0) {
        let p = s.drop_last();
        lemma_clipped_longest(p, max);
        supervisor::lemma_clipped(p, max);
        let c = supervisor::clipped(p, max);
        if c.len() < p.len() {
            assert(p.take(c.len() as int + 1) =~= s.take(c.len() as int + 1));
        } else {
            assert(s.take(c.len() as int + 1) =~= s);
        }
    }
}

/// What becomes of a VM that was abandoned. Unless the host has a VM under its
/// new label, it is planned; the plan names where it came from; the host makes a
/// VM under that label that is not restarted again; and the VM is to be given
/// the volumes that the lost one had, in the same places.
pub proof fn law_abandoned_vm_is_recreated(
    v: RemoteVmView,
    orphans: Seq<RemoteVmView>,
    i: int,
    existing: Seq<RemoteVmView>,
    op: VmOp,
    s: HostView,
    n: HostView,
    vm_id: u32,
    given: Option<(u32, Vec<VolumeAttachment>)>,
)
    requires
        0 <= i < orphans.len(),
        orphans[i] == v,
        forall|j: int|
            0 <= j < existing.len() ==> (#[trigger] existing[j]).label != supervisor::restart_of(
                v,
            ).label,
        supervisor::asks_for(op, supervisor::restart_of(v)),
        s.slots.len() == 4,
        host::stepped(s, op, n, HostStep::Reply(Ok(VmOpReply::Created { vm_id }))),
        supervisor::gives(supervisor::restart_of(v), vm_id, given),
    ensures
        supervisor::plan(orphans, existing).contains(supervisor::restart_of(v)),
        supervisor::restart_of(v).owner == v.owner,
        supervisor::restart_of(v).vm_id == v.vm_id,
        supervisor::noted(supervisor::restart_of(v), vm_id).original_owner == v.owner,
        supervisor::noted(supervisor::restart_of(v), vm_id).original_vm_id == v.vm_id,
        supervisor::noted(supervisor::restart_of(v), vm_id).new_vm_id == vm_id,
        supervisor::noted(supervisor::restart_of(v), vm_id).label == n.slots[vm_id as int]->0.label,
        0 <= vm_id < 4,
        s.slots[vm_id as int] is None,
        n.slots[vm_id as int] matches Some(x) && x.label == supervisor::restart_of(v).label
            && x.restart_policy == RestartPolicy::Never && x.state == VmState::Created && x.last_exit
            is None && x.image_path is None && x.cpu_count is None && x.memory_mib is None
            && x.boot_blob_crc32c is None && x.volumes.len() == 0,
        forall|k: int| 0 <= k < 4 && k != vm_id ==> #[trigger] n.slots[k] == s.slots[k],
        v.volumes.len() == 0 ==> given is None,
        v.volumes.len() > 0 ==> (given matches Some((to, vols)) && to == vm_id && vols@.len()
            == v.volumes.len() && forall|k: int|
            0 <= k < v.volumes.len() ==> (#[trigger] vols@[k]).volume_id@ == v.volumes[k].0
                && vols@[k].mount_name@ == v.volumes[k].1),
{
    supervisor::law_plan(orphans, existing);
    host::lemma_first_free(s.slots, 0);
    assert(supervisor::restart_of(orphans[i]) == supervisor::restart_of(v));
    if v.volumes.len() > 0 {
        let pair = given->0;
        let vols = pair.1;
        let views = crate::mesh::vault::attachment_views(vols@);
        assert forall|k: int| 0 <= k < v.volumes.len() implies (#[trigger] vols@[k]).volume_id@
            == v.volumes[k].0 && vols@[k].mount_name@ == v.volumes[k].1 by {
            assert(views[k] == v.volumes[k]);
        }
    }
}

/// The supervisor is the node that comes first by name among those that are
/// alive, as far as a node can tell.
pub proof fn law_supervisor_is_the_first_alive(m: Mesh, id: Seq<char>)
    requires
        m.wf(),
    ensures
        engine::supervises(membership::ordered(m@.rows), id) <==> {
            &&& m@.rows.dom().contains(id)
            &&& m@.rows[id].info.status == NodeStatus::Alive
            &&& forall|other: Seq<char>| #[trigger]
                m@.rows.dom().contains(other) && m@.rows[other].info.status == NodeStatus::Alive
                    && other != id ==> table::name_before(id, other)
        },
{
    m.membership.lemma_ordered();
    let rows = membership::ordered(m@.rows);
    if engine::supervises(rows, id) {
        lemma_supervisor_is_first(rows, m@.rows, id);
    }
    if m@.rows.dom().contains(id) && m@.rows[id].info.status == NodeStatus::Alive && (forall|
        other: Seq<char>,
    | #[trigger]
        m@.rows.dom().contains(other) && m@.rows[other].info.status == NodeStatus::Alive && other
            != id ==> table::name_before(id, other)) {
        lemma_first_supervises(rows, m@.rows, id);
    }
}

/// No node that is alive comes before the supervisor.
proof fn lemma_supervisor_is_first(
    rows: Seq<membership::MemberRowView>,
    map: membership::Rows,
    id: Seq<char>,
)
    requires
        membership::lists(rows, map),
        engine::supervises(rows, id),
    ensures
        map.dom().contains(id),
        map[id].info.status == NodeStatus::Alive,
        forall|other: Seq<char>| #[trigger]
            map.dom().contains(other) && map[other].info.status == NodeStatus::Alive && other != id
                ==> table::name_before(id, other),
{
    let ks = Seq::new(rows.len(), |i: int| (rows[i].info.id, 0u32));
    let i = choose|i: int|
        {
            &&& 0 <= i < rows.len()
            &&& (#[trigger] rows[i]).info.id == id
            &&& rows[i].info.status == NodeStatus::Alive
            &&& forall|j: int|
                0 <= j < i ==> (#[trigger] rows[j]).info.status != NodeStatus::Alive
        };
    assert(map[rows[i].info.id] == rows[i]);
    assert forall|other: Seq<char>| #[trigger]
        map.dom().contains(other) && map[other].info.status == NodeStatus::Alive && other
            != id implies table::name_before(id, other) by {
        let j = choose|j: int| 0 <= j < rows.len() && (#[trigger] rows[j]).info.id == other;
        assert(map[rows[j].info.id] == rows[j]);
        assert(i < j);
        assert(table::key_before(ks[i], ks[j]));
    }
}

/// The first node that is alive is the supervisor.
proof fn lemma_first_supervises(
    rows: Seq<membership::MemberRowView>,
    map: membership::Rows,
    id: Seq<char>,
)
    requires
        membership::lists(rows, map),
        map.dom().contains(id),
        map[id].info.status == NodeStatus::Alive,
        forall|other: Seq<char>| #[trigger]
            map.dom().contains(other) && map[other].info.status == NodeStatus::Alive && other != id
                ==> table::name_before(id, other),
    ensures
        engine::supervises(rows, id),
{
    let ks = Seq::new(rows.len(), |i: int| (rows[i].info.id, 0u32));
    let i = choose|i: int| 0 <= i < rows.len() && (#[trigger] rows[i]).info.id == id;
    assert(map[rows[i].info.id] == rows[i]);
    assert forall|j: int| 0 <= j < i implies (#[trigger] rows[j]).info.status
        != NodeStatus::Alive by {
        let other = rows[j].info.id;
        assert(map.dom().contains(other) && map[other] == rows[j]);
        assert(table::key_before(ks[j], ks[i]));
        table::lemma_name_total(other, id);
    }
}

/// Whether a provisioning goes on from state `i` to the next one.
pub open spec fn goes_on(
    ps: Seq<K8sProvision>,
    ops: Seq<VmOp>,
    replies: Seq<VmOpReply>,
    vips: Seq<Option<Ipv4>>,
    i: int,
) -> bool {
    k8s::advanced(ps[i]@, Ok(replies[i]), vips[i], K8sStep::Next(ps[i + 1], ops[i + 1]))
}

/// A provisioning from its first operation on: `ps` are its states, `ops` the
/// operations that it asks for, `replies` how they ended, `vips` the address
/// that was at hand with each reply. Operation `i` is asked for in state `i`.
pub open spec fn provisions(
    ps: Seq<K8sProvision>,
    ops: Seq<VmOp>,
    replies: Seq<VmOpReply>,
    vips: Seq<Option<Ipv4>>,
) -> bool {
    &&& ps.len() > 0
    &&& ops.len() == ps.len()
    &&& replies.len() == vips.len()
    &&& ps.len() == replies.len() + 1
    &&& ps[0]@.wf()
    &&& ps[0]@.phase is Network
    &&& forall|i: int|
        0 <= i < replies.len() ==> #[trigger] goes_on(ps, ops, replies, vips, i)
}

/// The VM that the host made for node `j`.
pub open spec fn vm_made(replies: Seq<VmOpReply>, j: int) -> u32 {
    replies[3 * j + 1]->Created_vm_id
}

/// The interface that the host made for node `j`.
pub open spec fn nic_made(replies: Seq<VmOpReply>, j: int) -> Nic {
    replies[3 * j + 2]->NicAttached_nic
}

/// The label of node `j`.
pub open spec fn label_for(name: Seq<char>, j: int) -> Seq<char> {
    if j == 0 {
        "k8s-cp-"@ + name
    } else {
        "k8s-worker-"@ + name + "-"@ + text::decimal((j - 1) as nat)
    }
}

/// Where a provisioning stands once `j` nodes are there.
proof fn lemma_nodes_so_far(
    ps: Seq<K8sProvision>,
    ops: Seq<VmOp>,
    replies: Seq<VmOpReply>,
    vips: Seq<Option<Ipv4>>,
    j: int,
)
    requires
        provisions(ps, ops, replies, vips),
        0 <= j <= ps[0]@.spec.workers,
        3 * j + 1 < ps.len(),
    ensures
        ({
            let p = ps[3 * j + 1]@;
            let spec = ps[0]@.spec;
            &&& p.wf()
            &&& p.spec == spec
            &&& p.owner == ps[0]@.owner
            &&& p.vip == vips[0]
            &&& p.phase is Create
            &&& replies[0] matches VmOpReply::NetworkCreated { network } && p.network == Some(
                network,
            )
            &&& p.nodes.len() == j
            &&& forall|b: int|
                0 <= b < j ==> (#[trigger] p.nodes[b]).vm_id == vm_made(replies, b)
                    && p.nodes[b].nic == nic_made(replies, b) && replies[3 * b + 1] is Created
                    && replies[3 * b + 2] is NicAttached
            &&& k8s::creates(ops[3 * j + 1], spec.name@, j)
        }),
    decreases j,
{
    if j == 0 {
        assert(goes_on(ps, ops, replies, vips, 0));
    } else {
        let i = 3 * (j - 1) + 1;
        lemma_nodes_so_far(ps, ops, replies, vips, j - 1);
        assert(goes_on(ps, ops, replies, vips, i));
        assert(goes_on(ps, ops, replies, vips, i + 1));
        assert(goes_on(ps, ops, replies, vips, i + 2));
        let p = ps[3 * j + 1]@;
        let q = ps[i]@;
        assert(p.nodes.len() == q.nodes.len() + 1);
        assert(p.nodes.drop_last() =~= q.nodes);
        assert forall|b: int| 0 <= b < j implies (#[trigger] p.nodes[b]).vm_id == vm_made(
            replies,
            b,
        ) && p.nodes[b].nic == nic_made(replies, b) && replies[3 * b + 1] is Created && replies[3
            * b + 2] is NicAttached by {
            if b < j - 1 {
                assert(p.nodes[b] == q.nodes[b]);
            }
        }
        lemma_wf_after(ps, ops, replies, vips, i);
    }
}

/// A provisioning that was well-formed stays so over the three operations of a
/// node.
proof fn lemma_wf_after(
    ps: Seq<K8sProvision>,
    ops: Seq<VmOp>,
    replies: Seq<VmOpReply>,
    vips: Seq<Option<Ipv4>>,
    i: int,
)
    requires
        provisions(ps, ops, replies, vips),
        0 <= i,
        i + 3 < ps.len(),
        ps[i]@.wf(),
        ps[i]@.phase is Create,
        ps[i]@.nodes.len() < ps[i]@.spec.workers,
    ensures
        ps[i + 3]@.wf(),
{
    assert(goes_on(ps, ops, replies, vips, i));
    assert(goes_on(ps, ops, replies, vips, i + 1));
    assert(goes_on(ps, ops, replies, vips, i + 2));
    let p = ps[i]@;
    let q = ps[i + 3]@;
    assert forall|b: int| 0 <= b < q.nodes.len() implies (#[trigger] q.nodes[b]).role
        == k8s::node_role(b) && q.nodes[b].label == k8s::node_label(q.spec.name@, b) by {
        if b < p.nodes.len() {
            assert(q.nodes[b] == p.nodes[b]);
        }
    }
    assert forall|b: int| 0 <= b < q.backends.len() implies #[trigger] q.backends[b]
        == k8s::backend_of(q.spec, q.nodes[b + 1]) by {
        if b < p.backends.len() {
            assert(q.backends[b] == p.backends[b]);
            assert(q.nodes[b + 1] == p.nodes[b + 1]);
        }
    }
}

/// What a provisioning asks for, node by node. The VM of node `j` is created
/// under the label of its place and is to be restarted always; it gets an
/// interface on the network that was made first; then it is started.
pub proof fn law_provisioning_makes_every_node(
    ps: Seq<K8sProvision>,
    ops: Seq<VmOp>,
    replies: Seq<VmOpReply>,
    vips: Seq<Option<Ipv4>>,
    j: int,
)
    requires
        provisions(ps, ops, replies, vips),
        0 <= j <= ps[0]@.spec.workers,
    ensures
        3 * j + 1 < ops.len() ==> (ops[3 * j + 1] matches VmOp::Create {
            label,
            restart_policy,
            image_path,
            cpu_count,
            memory_mib,
            boot_blob_crc32c,
        } && label@ == label_for(ps[0]@.spec.name@, j) && restart_policy == RestartPolicy::Always
            && image_path is None && cpu_count is None && memory_mib is None && boot_blob_crc32c
            is None),
        3 * j + 2 < ops.len() ==> replies[3 * j + 1] is Created && (replies[0] matches
            VmOpReply::NetworkCreated { network } && ops[3 * j + 2] == (VmOp::AttachNic {
            network_id: network.id,
            vm_id: vm_made(replies, j),
            ip: None,
        })),
        3 * j + 3 < ops.len() ==> replies[3 * j + 2] is NicAttached && ops[3 * j + 3] == (
        VmOp::Start { vm_id: vm_made(replies, j) }),
{
    let i = 3 * j + 1;
    if i < ops.len() {
        lemma_nodes_so_far(ps, ops, replies, vips, j);
        if i + 1 < ops.len() {
            assert(goes_on(ps, ops, replies, vips, i));
        }
        if i + 2 < ops.len() {
            assert(goes_on(ps, ops, replies, vips, i + 1));
        }
    }
}

/// How a provisioning ends. Once every node is there, a load balancer is asked
/// for: on the network, at the address that was at hand, in front of every
/// worker and of nothing else. The cluster then has the control plane first and
/// the workers after it, each with the VM and the interface that were made for
/// it.
pub proof fn law_provisioning_ends(
    ps: Seq<K8sProvision>,
    ops: Seq<VmOp>,
    replies: Seq<VmOpReply>,
    vips: Seq<Option<Ipv4>>,
    lb: crate::mesh::vault::LoadBalancer,
    any: Option<Ipv4>,
    c: K8sCluster,
)
    requires
        provisions(ps, ops, replies, vips),
        ps.len() == 3 * ps[0]@.spec.workers + 5,
        k8s::advanced(
            ps.last()@,
            Ok(VmOpReply::LoadBalancerCreated { lb }),
            any,
            K8sStep::Done(c),
        ),
    ensures
        ({
            let spec = ps[0]@.spec;
            &&& replies[0] is NetworkCreated
            &&& vips[0] is Some
            &&& ops.last() matches VmOp::CreateLoadBalancer {
                name,
                network_id,
                vip,
                frontend_port,
                algo,
                backends,
            } && name@ == spec.name@ + "-api"@ && network_id
                == replies[0]->NetworkCreated_network.id && net::parsed_ipv4(vip@) == vips[0]
                && frontend_port == spec.api_port && algo == spec.algo && backends@.len()
                == spec.workers && forall|b: int|
                0 <= b < spec.workers ==> #[trigger] backends@[b] == (LbBackend {
                    vm_id: vm_made(replies, b + 1),
                    ip: nic_made(replies, b + 1).ip,
                    port: spec.api_backend_port,
                })
            &&& c.spec == spec
            &&& c.owner == ps[0]@.owner
            &&& c.network == replies[0]->NetworkCreated_network
            &&& c.lb == lb
            &&& c.nodes@.len() == spec.workers + 1
            &&& forall|j: int|
                0 <= j <= spec.workers ==> (#[trigger] c.nodes@[j]).vm_id == vm_made(replies, j)
                    && c.nodes@[j].nic == nic_made(replies, j) && c.nodes@[j].label@ == label_for(
                    spec.name@,
                    j,
                ) && c.nodes@[j].role == if j == 0 {
                    K8sNodeRole::ControlPlane
                } else {
                    K8sNodeRole::Worker
                }
        }),
{
    let spec = ps[0]@.spec;
    let w = spec.workers as int;
    let i = 3 * w + 1;
    lemma_nodes_so_far(ps, ops, replies, vips, w);
    assert(goes_on(ps, ops, replies, vips, i));
    assert(goes_on(ps, ops, replies, vips, i + 1));
    assert(goes_on(ps, ops, replies, vips, i + 2));
    let p = ps[i]@;
    let q = ps[i + 3]@;
    net::law_ipv4_round_trip(vips[0]->0);
    let views = k8s::node_views(c.nodes@);
    assert(views == q.nodes);
    assert(views.len() == c.nodes@.len());
    assert forall|j: int| 0 <= j <= w implies (#[trigger] c.nodes@[j]).vm_id == vm_made(replies, j)
        && c.nodes@[j].nic == nic_made(replies, j) && c.nodes@[j].label@ == label_for(
        spec.name@,
        j,
    ) && c.nodes@[j].role == if j == 0 {
        K8sNodeRole::ControlPlane
    } else {
        K8sNodeRole::Worker
    } by {
        assert(views[j] == c.nodes@[j]@);
        if j < w {
            assert(q.nodes[j] == p.nodes[j]);
        }
    }
    assert forall|b: int| 0 <= b < w implies #[trigger] q.backends[b] == (LbBackend {
        vm_id: vm_made(replies, b + 1),
        ip: nic_made(replies, b + 1).ip,
        port: spec.api_backend_port,
    }) by {
        if b < w - 1 {
            assert(q.backends[b] == p.backends[b]);
            assert(p.nodes[b + 1].vm_id == vm_made(replies, b + 1));
        }
    }
}

/// The VMs of a cluster outlive its node. A VM that a host made for a
/// provisioning is listed as one to be restarted always; once its row is known
/// to a supervisor and its owner is gone, the supervisor takes it up.
pub proof fn law_cluster_outlives_its_node(
    ps: Seq<K8sProvision>,
    ops: Seq<VmOp>,
    replies: Seq<VmOpReply>,
    vips: Seq<Option<Ipv4>>,
    j: int,
    h: HostView,
    g: HostView,
    vm_id: u32,
    owner: Seq<char>,
    s: MeshView,
    m: Mesh,
    rows: Seq<RemoteVmView>,
    row: RemoteVmView,
)
    requires
        provisions(ps, ops, replies, vips),
        0 <= j <= ps[0]@.spec.workers,
        3 * j + 1 < ops.len(),
        h.slots.len() == 4,
        host::stepped(h, ops[3 * j + 1], g, HostStep::Reply(Ok(VmOpReply::Created { vm_id }))),
        row.owner == owner,
        row.vm_id == vm_id,
        row.restart_policy == host::row_of(g.slots[vm_id as int]->0, owner, vm_id).restart_policy,
        s.vms.dom().contains((owner, vm_id)),
        s.vms[(owner, vm_id)] == row,
        owner_gone(s, row),
        m.wf(),
        m@ == engine::with_liveness(s),
        rows == engine::orphans(federation::ordered(m@.vms)),
    ensures
        g.slots[vm_id as int] matches Some(x) && x.restart_policy == RestartPolicy::Always
            && x.label == label_for(ps[0]@.spec.name@, j),
        exists|i: int|
            0 <= i < rows.len() && (#[trigger] rows[i]).owner == owner && rows[i].vm_id == vm_id,
{
    law_provisioning_makes_every_node(ps, ops, replies, vips, j);
    host::lemma_first_free(h.slots, 0);
    law_abandoned_vms(s, m, rows);
}

} // verus!
