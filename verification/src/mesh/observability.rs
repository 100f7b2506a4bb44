//! The cluster-wide report: what every node holds.
//!
//! Volumes and networks are not gossiped, so each node that is alive is asked
//! for them, one after the other. A node that does not answer is reported as
//! unreachable; the rest of the report still stands.

use vstd::prelude::*;

use crate::error::CelResult;
use crate::mesh::engine;
use crate::mesh::engine::{Mesh, MeshView};
use crate::mesh::federation;
use crate::mesh::federation::{RemoteVm, RemoteVmView};
use crate::mesh::membership;
use crate::mesh::membership::{NodeId, NodeInfo, NodeInfoView, NodeStatus};
use crate::mesh::proto::{VmOp, VmOpReply};
use crate::mesh::vault::{VirtualNetwork, VolumeMeta};

verus! {

/// A volume and the node that holds it.
#[derive(Debug, Clone, PartialEq, Eq)]
pub struct VolumeUsage {
    /// Node.
    pub node: NodeId,
    /// Volume.
    pub volume: VolumeMeta,
}

/// What one node holds.
#[derive(Debug, Clone, PartialEq, Eq)]
pub struct NodeReport {
    /// Node.
    pub id: NodeId,
    /// Address at which peers reach the node.
    pub addr: String,
    /// Health of the node.
    pub status: NodeStatus,
    /// VMs on the node.
    pub vm_count: u32,
    /// Volumes on the node.
    pub volume_count: u32,
    /// Bytes of all volumes on the node.
    pub total_volume_bytes: u64,
    /// Networks on the node.
    pub network_count: u32,
    /// Whether the node answered.
    pub reachable: bool,
}

/// What the cluster holds.
#[derive(Debug, Clone, PartialEq, Eq, Default)]
pub struct ClusterReport {
    /// Every node, in order.
    pub nodes: Vec<NodeReport>,
    /// Every volume of the nodes that answered.
    pub volumes: Vec<VolumeUsage>,
    /// Every network of the nodes that answered.
    pub networks: Vec<VirtualNetwork>,
    /// VMs of the nodes that answered.
    pub total_vms: u32,
    /// Volumes of all nodes.
    pub total_volumes: u32,
    /// Bytes of all volumes of all nodes.
    pub total_volume_bytes: u64,
}

/// What a node answered: its volumes, and its networks where those came too.
#[derive(Debug)]
pub struct NodeAnswer {
    /// Volumes, unless the node was not asked or did not answer.
    pub volumes: Option<Vec<VolumeMeta>>,
    /// Networks, unless the node was not asked or did not answer.
    pub networks: Option<Vec<VirtualNetwork>>,
}

/// Mathematical value of a [`NodeReport`].
#[verifier::ext_equal]
pub struct NodeReportView {
    /// See [`NodeReport::id`].
    pub id: Seq<char>,
    /// See [`NodeReport::addr`].
    pub addr: Seq<char>,
    /// See [`NodeReport::status`].
    pub status: NodeStatus,
    /// See [`NodeReport::vm_count`].
    pub vm_count: u32,
    /// See [`NodeReport::volume_count`].
    pub volume_count: u32,
    /// See [`NodeReport::total_volume_bytes`].
    pub total_volume_bytes: u64,
    /// See [`NodeReport::network_count`].
    pub network_count: u32,
    /// See [`NodeReport::reachable`].
    pub reachable: bool,
}

impl View for NodeReport {
    type V = NodeReportView;

    open spec fn view(&self) -> NodeReportView {
        NodeReportView {
            id: self.id@,
            addr: self.addr@,
            status: self.status,
            vm_count: self.vm_count,
            volume_count: self.volume_count,
            total_volume_bytes: self.total_volume_bytes,
            network_count: self.network_count,
            reachable: self.reachable,
        }
    }
}

/// Mathematical value of a list of node reports.
pub open spec fn report_views(v: Seq<NodeReport>) -> Seq<NodeReportView> {
    Seq::new(v.len(), |i: int| v[i]@)
}

/// How many VMs a node owns.
pub open spec fn owned(vms: Seq<RemoteVmView>, id: Seq<char>) -> nat
    decreases vms.len(),
{
    if vms.len() == 0 {
        0
    } else {
        owned(vms.drop_last(), id) + if vms.last().owner == id {
            1nat
        } else {
            0nat
        }
    }
}

/// Bytes of a list of volumes.
pub open spec fn bytes_of(volumes: Seq<VolumeMeta>) -> nat
    decreases volumes.len(),
{
    if volumes.len() == 0 {
        0
    } else {
        bytes_of(volumes.drop_last()) + volumes.last().size_bytes as nat
    }
}

/// A number, held to what 64 bits can show.
pub open spec fn capped(n: nat) -> u64 {
    if n > u64::MAX {
        u64::MAX
    } else {
        n as u64
    }
}

/// Whether the answer of a node counts.
pub open spec fn answered(info: NodeInfoView, a: NodeAnswer) -> bool {
    info.status == NodeStatus::Alive && a.volumes is Some
}

/// The report of one node.
pub open spec fn node_report(
    info: NodeInfoView,
    vms: Seq<RemoteVmView>,
    a: NodeAnswer,
) -> NodeReportView {
    NodeReportView {
        id: info.id,
        addr: info.addr,
        status: info.status,
        vm_count: if info.status == NodeStatus::Alive {
            owned(vms, info.id) as u32
        } else {
            0
        },
        volume_count: if answered(info, a) {
            a.volumes->0@.len() as u32
        } else {
            0
        },
        total_volume_bytes: if answered(info, a) {
            capped(bytes_of(a.volumes->0@))
        } else {
            0
        },
        network_count: if answered(info, a) && a.networks is Some {
            a.networks->0@.len() as u32
        } else {
            0
        },
        reachable: answered(info, a),
    }
}

/// The volumes of one node.
pub open spec fn usages(info: NodeInfoView, a: NodeAnswer) -> Seq<(Seq<char>, VolumeMeta)> {
    if answered(info, a) {
        Seq::new(a.volumes->0@.len(), |i: int| (info.id, a.volumes->0@[i]))
    } else {
        Seq::empty()
    }
}

/// The networks of one node.
pub open spec fn nets(info: NodeInfoView, a: NodeAnswer) -> Seq<VirtualNetwork> {
    if answered(info, a) && a.networks is Some {
        a.networks->0@
    } else {
        Seq::empty()
    }
}

/// The volumes of the first `n` nodes.
pub open spec fn all_usages(
    infos: Seq<NodeInfoView>,
    answers: Seq<NodeAnswer>,
    n: int,
) -> Seq<(Seq<char>, VolumeMeta)>
    decreases n,
{
    if n <= 0 {
        Seq::empty()
    } else {
        all_usages(infos, answers, n - 1) + usages(infos[n - 1], answers[n - 1])
    }
}

/// The networks of the first `n` nodes.
pub open spec fn all_nets(infos: Seq<NodeInfoView>, answers: Seq<NodeAnswer>, n: int) -> Seq<
    VirtualNetwork,
>
    decreases n,
{
    if n <= 0 {
        Seq::empty()
    } else {
        all_nets(infos, answers, n - 1) + nets(infos[n - 1], answers[n - 1])
    }
}

/// VMs of the nodes that answered, among the first `n`.
pub open spec fn sum_vms(rows: Seq<NodeReportView>, n: int) -> nat
    decreases n,
{
    if n <= 0 {
        0
    } else {
        sum_vms(rows, n - 1) + (if rows[n - 1].reachable {
            rows[n - 1].vm_count as nat
        } else {
            0
        })
    }
}

/// Volumes of the first `n` nodes.
pub open spec fn sum_volumes(rows: Seq<NodeReportView>, n: int) -> nat
    decreases n,
{
    if n <= 0 {
        0
    } else {
        sum_volumes(rows, n - 1) + rows[n - 1].volume_count as nat
    }
}

/// Bytes of the first `n` nodes.
pub open spec fn sum_bytes(rows: Seq<NodeReportView>, n: int) -> nat
    decreases n,
{
    if n <= 0 {
        0
    } else {
        sum_bytes(rows, n - 1) + rows[n - 1].total_volume_bytes as nat
    }
}

/// The rows of the membership table as they are reported.
pub open spec fn infos_of(s: MeshView) -> Seq<NodeInfoView> {
    let all = membership::ordered(s.rows);
    Seq::new(all.len(), |i: int| all[i].info)
}

/// The reports of the nodes.
pub open spec fn rows_of(
    infos: Seq<NodeInfoView>,
    vms: Seq<RemoteVmView>,
    answers: Seq<NodeAnswer>,
) -> Seq<NodeReportView> {
    Seq::new(infos.len(), |i: int| node_report(infos[i], vms, answers[i]))
}

/// Mathematical value of a list of volumes with their nodes.
pub open spec fn usage_views(v: Seq<VolumeUsage>) -> Seq<(Seq<char>, VolumeMeta)> {
    Seq::new(v.len(), |i: int| (v[i].node@, v[i].volume))
}

/// What [`ReportPoll::finish`] tells.
pub open spec fn reports(
    infos: Seq<NodeInfoView>,
    vms: Seq<RemoteVmView>,
    answers: Seq<NodeAnswer>,
    r: ClusterReport,
) -> bool {
    let rows = rows_of(infos, vms, answers);
    let n = infos.len() as int;
    &&& report_views(r.nodes@) == rows
    &&& usage_views(r.volumes@) == all_usages(infos, answers, n)
    &&& r.networks@ == all_nets(infos, answers, n)
    &&& r.total_vms == sum_vms(rows, n)
    &&& r.total_volumes == sum_volumes(rows, n)
    &&& r.total_volume_bytes == capped(sum_bytes(rows, n))
}

/// The answer of a node that was not asked or did not answer.
pub open spec fn silence() -> NodeAnswer {
    NodeAnswer { volumes: None, networks: None }
}

/// The answers with those of the nodes that are not asked, up to the next one
/// that is.
pub open spec fn passed_over(infos: Seq<NodeInfoView>, answers: Seq<NodeAnswer>) -> Seq<NodeAnswer>
    decreases infos.len() - answers.len(),
{
    if answers.len() < infos.len() && infos[answers.len() as int].status != NodeStatus::Alive {
        passed_over(infos, answers.push(silence()))
    } else {
        answers
    }
}

/// A report in the making: the cluster as it was when the report was asked
/// for, and what the nodes have answered since.
#[derive(Debug)]
pub struct ReportPoll {
    /// Nodes, in order.
    pub members: Vec<NodeInfo>,
    /// VMs, in order.
    pub vms: Vec<RemoteVm>,
    /// Answers of the first nodes.
    pub answers: Vec<NodeAnswer>,
    /// Volumes of the node that is asked for its networks.
    pub waiting: Option<Vec<VolumeMeta>>,
}

/// Mathematical value of a [`ReportPoll`].
#[verifier::ext_equal]
pub struct PollView {
    /// See [`ReportPoll::members`].
    pub infos: Seq<NodeInfoView>,
    /// See [`ReportPoll::vms`].
    pub vms: Seq<RemoteVmView>,
    /// See [`ReportPoll::answers`].
    pub answers: Seq<NodeAnswer>,
    /// See [`ReportPoll::waiting`].
    pub waiting: Option<Vec<VolumeMeta>>,
}

impl View for ReportPoll {
    type V = PollView;

    open spec fn view(&self) -> PollView {
        PollView {
            infos: engine::info_views(self.members@),
            vms: federation::vm_views(self.vms@),
            answers: self.answers@,
            waiting: self.waiting,
        }
    }
}

impl PollView {
    /// Every node has its own name, and whoever is asked next is alive.
    pub open spec fn wf(self) -> bool {
        &&& forall|i: int, j: int|
            0 <= i < j < self.infos.len() ==> (#[trigger] self.infos[i]).id != (
            #[trigger] self.infos[j]).id
        &&& self.answers.len() <= self.infos.len()
        &&& self.asks() ==> self.infos[self.answers.len() as int].status == NodeStatus::Alive
        &&& self.waiting is Some ==> self.asks()
    }

    /// Whether a node is left to be asked.
    pub open spec fn asks(self) -> bool {
        self.answers.len() < self.infos.len()
    }
}

/// A poll that has just begun, before and after it is known who is alive.
pub open spec fn poll_of(s: MeshView, n: MeshView) -> PollView {
    PollView {
        infos: infos_of(s),
        vms: federation::ordered(n.vms),
        answers: passed_over(infos_of(s), Seq::empty()),
        waiting: None,
    }
}

/// What [`ReportPoll::advance`] does: a node is asked for its networks once its
/// volumes have come.
pub open spec fn polled(p: PollView, reply: CelResult<VmOpReply>) -> PollView {
    match p.waiting {
        None => match reply {
            Ok(VmOpReply::VolumesListed { volumes }) => PollView { waiting: Some(volumes), ..p },
            _ => PollView { answers: passed_over(p.infos, p.answers.push(silence())), ..p },
        },
        Some(volumes) => PollView {
            answers: passed_over(
                p.infos,
                p.answers.push(
                    NodeAnswer {
                        volumes: Some(volumes),
                        networks: match reply {
                            Ok(VmOpReply::NetworksListed { networks }) => Some(networks),
                            _ => None,
                        },
                    },
                ),
            ),
            waiting: None,
            ..p
        },
    }
}

/// What [`ReportPoll::next`] tells.
pub open spec fn asked(p: PollView, r: Option<(NodeId, VmOp)>) -> bool {
    if p.asks() {
        r matches Some((id, op)) && id@ == p.infos[p.answers.len() as int].id && op
            == if p.waiting is None {
            VmOp::ListVolumes
        } else {
            VmOp::ListNetworks
        }
    } else {
        r is None
    }
}

/// How many VMs of a list a node owns.
fn count_owned(vms: &Vec<RemoteVm>, id: &NodeId) -> (r: usize)
    ensures
        r == owned(federation::vm_views(vms@), id@),
        r <= vms@.len(),
{
    let ghost all = federation::vm_views(vms@);
    let mut n: usize = 0;
    let mut i: usize = 0;
    assert(all.take(0) =~= Seq::empty());
    while i < vms.len()
        invariant
            i <= vms@.len(),
            n <= i,
            all == federation::vm_views(vms@),
            n == owned(all.take(i as int), id@),
        decreases vms@.len() - i,
    {
        proof {
            let t = all.take(i + 1);
            assert(t.drop_last() =~= all.take(i as int));
            assert(t.last() == all[i as int]);
        }
        if vms[i].owner.same(id) {
            n = n + 1;
        }
        i = i + 1;
    }
    assert(all.take(i as int) =~= all);
    n
}

/// Bytes of a list of volumes, held to what 64 bits can show.
fn volume_bytes(volumes: &Vec<VolumeMeta>) -> (r: u64)
    ensures
        r == capped(bytes_of(volumes@)),
{
    let mut n: u64 = 0;
    let mut i: usize = 0;
    assert(volumes@.take(0) =~= Seq::empty());
    while i < volumes.len()
        invariant
            i <= volumes@.len(),
            n == capped(bytes_of(volumes@.take(i as int))),
        decreases volumes@.len() - i,
    {
        proof {
            let t = volumes@.take(i + 1);
            assert(t.drop_last() =~= volumes@.take(i as int));
            assert(t.last() == volumes@[i as int]);
        }
        n = n.saturating_add(volumes[i].size_bytes);
        i = i + 1;
    }
    assert(volumes@.take(i as int) =~= volumes@);
    n
}

/// One VM more is one VM more for at most one of several nodes.
proof fn lemma_one_more(infos: Seq<NodeInfoView>, vms: Seq<RemoteVmView>, n: int)
    requires
        vms.len() > 0,
        0 <= n <= infos.len(),
        forall|i: int, j: int|
            0 <= i < j < infos.len() ==> (#[trigger] infos[i]).id != (#[trigger] infos[j]).id,
    ensures
        sum_owned(infos, vms, n) <= sum_owned(infos, vms.drop_last(), n) + 1,
        (forall|i: int| 0 <= i < n ==> (#[trigger] infos[i]).id != vms.last().owner)
            ==> sum_owned(infos, vms, n) == sum_owned(infos, vms.drop_last(), n),
    decreases n,
{
    if n > 0 {
        lemma_one_more(infos, vms, n - 1);
        if infos[n - 1].id == vms.last().owner {
            assert forall|i: int| 0 <= i < n - 1 implies (#[trigger] infos[i]).id
                != vms.last().owner by {
                assert(infos[i].id != infos[n - 1].id);
            }
        }
    }
}

/// VMs that the first `n` nodes own.
pub open spec fn sum_owned(infos: Seq<NodeInfoView>, vms: Seq<RemoteVmView>, n: int) -> nat
    decreases n,
{
    if n <= 0 {
        0
    } else {
        sum_owned(infos, vms, n - 1) + owned(vms, infos[n - 1].id)
    }
}

/// The nodes own no more VMs than there are.
proof fn lemma_owned_bound(infos: Seq<NodeInfoView>, vms: Seq<RemoteVmView>, n: int)
    requires
        0 <= n <= infos.len(),
        forall|i: int, j: int|
            0 <= i < j < infos.len() ==> (#[trigger] infos[i]).id != (#[trigger] infos[j]).id,
    ensures
        sum_owned(infos, vms, n) <= vms.len(),
    decreases vms.len(),
{
    if vms.len() == 0 {
        lemma_none_owned(infos, vms, n);
    } else {
        lemma_owned_bound(infos, vms.drop_last(), n);
        lemma_one_more(infos, vms, n);
    }
}

/// Nobody owns a VM of an empty list.
proof fn lemma_none_owned(infos: Seq<NodeInfoView>, vms: Seq<RemoteVmView>, n: int)
    requires
        vms.len() == 0,
    ensures
        sum_owned(infos, vms, n) == 0,
    decreases n,
{
    if n > 0 {
        lemma_none_owned(infos, vms, n - 1);
    }
}

/// The sum over the reports is bounded by the sum over the nodes.
proof fn lemma_sum_vms(
    infos: Seq<NodeInfoView>,
    vms: Seq<RemoteVmView>,
    rows: Seq<NodeReportView>,
    n: int,
)
    requires
        0 <= n <= infos.len(),
        rows.len() == infos.len(),
        forall|i: int|
            0 <= i < rows.len() ==> (#[trigger] rows[i]).vm_count <= owned(vms, infos[i].id),
    ensures
        sum_vms(rows, n) <= sum_owned(infos, vms, n),
    decreases n,
{
    if n > 0 {
        lemma_sum_vms(infos, vms, rows, n - 1);
    }
}

/// A longer beginning has no smaller sum.
proof fn lemma_sums_grow(rows: Seq<NodeReportView>, i: int, n: int)
    requires
        0 <= i <= n,
    ensures
        sum_vms(rows, i) <= sum_vms(rows, n),
        sum_volumes(rows, i) <= sum_volumes(rows, n),
    decreases n - i,
{
    if i < n {
        lemma_sums_grow(rows, i, n - 1);
    }
}

/// A node owns no more VMs than all nodes.
proof fn lemma_owned_grow(infos: Seq<NodeInfoView>, vms: Seq<RemoteVmView>, i: int, n: int)
    requires
        0 <= i < n,
    ensures
        owned(vms, infos[i].id) <= sum_owned(infos, vms, n),
    decreases n,
{
    if i < n - 1 {
        lemma_owned_grow(infos, vms, i, n - 1);
    }
}

impl Mesh {
    /// Begins a report on the cluster. The nodes are then asked with
    /// [`ReportPoll::next`] and [`ReportPoll::advance`].
    pub fn cluster_report(&mut self) -> (r: ReportPoll)
        requires
            old(self).wf(),
        ensures
            final(self).wf(),
            final(self)@ == engine::with_liveness(old(self)@),
            r@ == poll_of(old(self)@, final(self)@),
            r@.wf(),
    {
        let vms = self.list_vms();
        let members = self.members();
        let ghost s = self@;
        let ghost infos = infos_of(s);
        proof {
            self.membership.lemma_ordered();
            self.membership.lemma_listing();
            assert(engine::info_views(members@) =~= infos);
            assert forall|i: int, j: int| 0 <= i < j < infos.len() implies (
            #[trigger] infos[i]).id != (#[trigger] infos[j]).id by {
                let all = membership::ordered(s.rows);
                assert(all[i].info == infos[i]);
                assert(all[j].info == infos[j]);
                crate::mesh::table::lemma_name_total(all[i].info.id, all[j].info.id);
            }
        }
        let mut p = ReportPoll { members, vms, answers: Vec::new(), waiting: None };
        p.pass_over();
        p
    }
}

impl ReportPoll {
    /// Passes over the nodes that are not asked.
    fn pass_over(&mut self)
        requires
            old(self).answers@.len() <= old(self).members@.len(),
        ensures
            final(self)@ == (PollView {
                answers: passed_over(old(self)@.infos, old(self)@.answers),
                ..old(self)@
            }),
            final(self)@.answers.len() <= final(self)@.infos.len(),
            final(self)@.asks() ==> final(self)@.infos[final(self)@.answers.len() as int].status
                == NodeStatus::Alive,
    {
        let ghost infos = self@.infos;
        let ghost want = passed_over(infos, self@.answers);
        while self.answers.len() < self.members.len()
            && self.members[self.answers.len()].status != NodeStatus::Alive
            invariant
                self.answers@.len() <= self.members@.len(),
                self.members == old(self).members,
                self.vms == old(self).vms,
                self.waiting == old(self).waiting,
                infos == engine::info_views(self.members@),
                want == passed_over(infos, self.answers@),
            decreases self.members@.len() - self.answers@.len(),
        {
            let ghost before = self.answers@;
            assert(infos[before.len() as int].status == self.members@[before.len() as int].status);
            self.answers.push(NodeAnswer { volumes: None, networks: None });
            assert(self.answers@ == before.push(silence()));
        }
        proof {
            let k = self.answers@.len() as int;
            if k < infos.len() {
                assert(infos[k].status == self.members@[k].status);
            }
        }
    }

    /// The node to be asked next, and for what; nothing once all were asked.
    pub fn next(&self) -> (r: Option<(NodeId, VmOp)>)
        requires
            self@.wf(),
        ensures
            asked(self@, r),
    {
        assert(self@.infos.len() == self.members@.len());
        if self.answers.len() == self.members.len() {
            return None;
        }
        let id = self.members[self.answers.len()].id.clone();
        match self.waiting {
            None => Some((id, VmOp::ListVolumes)),
            Some(_) => Some((id, VmOp::ListNetworks)),
        }
    }

    /// Takes in how the node replied.
    pub fn advance(&mut self, reply: CelResult<VmOpReply>)
        requires
            old(self)@.wf(),
            old(self)@.asks(),
        ensures
            final(self)@ == polled(old(self)@, reply),
            final(self)@.wf(),
    {
        let ghost p = self@;
        let n: usize = self.members.len();
        assert(n == p.infos.len());
        match self.waiting.take() {
            None => {
                if let Ok(VmOpReply::VolumesListed { volumes }) = reply {
                    self.waiting = Some(volumes);
                    return ;
                }
                self.answers.push(NodeAnswer { volumes: None, networks: None });
            },
            Some(volumes) => {
                let networks = match reply {
                    Ok(VmOpReply::NetworksListed { networks }) => Some(networks),
                    _ => None,
                };
                self.answers.push(NodeAnswer { volumes: Some(volumes), networks });
            },
        }
        self.pass_over();
    }

    /// The report, once every node was asked.
    pub fn finish(self) -> (r: ClusterReport)
        requires
            self@.wf(),
            !self@.asks(),
            self@.vms.len() <= u32::MAX,
            sum_volumes(
                rows_of(self@.infos, self@.vms, self@.answers),
                self@.infos.len() as int,
            ) <= u32::MAX,
        ensures
            reports(self@.infos, self@.vms, self@.answers, r),
    {
        let ghost infos = self@.infos;
        let ghost listed = self@.vms;
        let ghost given = self@.answers;
        let ghost rows = rows_of(infos, listed, given);
        let ReportPoll { members, vms, answers, waiting } = self;
        proof {
            lemma_owned_bound(infos, listed, infos.len() as int);
            assert forall|i: int| 0 <= i < rows.len() implies (#[trigger] rows[i]).vm_count
                <= owned(listed, infos[i].id) by {
                lemma_owned_grow(infos, listed, i, infos.len() as int);
            }
            lemma_sum_vms(infos, listed, rows, infos.len() as int);
            assert(federation::vm_views(vms@).len() == vms@.len());
        }
        let mut nodes: Vec<NodeReport> = Vec::new();
        let mut volumes: Vec<VolumeUsage> = Vec::new();
        let mut networks: Vec<VirtualNetwork> = Vec::new();
        let mut total_vms: u32 = 0;
        let mut total_volumes: u32 = 0;
        let mut total_volume_bytes: u64 = 0;
        let mut rest = answers;
        let n: usize = members.len();
        assert(usage_views(volumes@) =~= Seq::empty());
        let mut i: usize = 0;
        let mut answers: Vec<NodeAnswer> = Vec::new();
        while rest.len() > 0
            invariant
                rest@.len() + answers@.len() == given.len(),
                forall|j: int| 0 <= j < rest@.len() ==> rest@[j] == given[j],
                forall|j: int|
                    0 <= j < answers@.len() ==> #[trigger] answers@[j] == given[given.len() - 1
                        - j],
            decreases rest@.len(),
        {
            if let Some(a) = rest.pop() {
                answers.push(a);
            }
        }
        while i < n
            invariant
                i <= n,
                n == members@.len(),
                n == infos.len(),
                n == given.len(),
                n == rows.len(),
                infos == engine::info_views(members@),
                rows == rows_of(infos, listed, given),
                listed == federation::vm_views(vms@),
                vms@.len() <= u32::MAX,
                forall|j: int| 0 <= j < n ==> (#[trigger] members@[j])@ == infos[j],
                answers@.len() == n - i,
                forall|j: int|
                    0 <= j < answers@.len() ==> #[trigger] answers@[j] == given[n - 1 - j],
                nodes@.len() == i,
                forall|j: int| 0 <= j < i ==> (#[trigger] nodes@[j])@ == rows[j],
                usage_views(volumes@) == all_usages(infos, given, i as int),
                networks@ == all_nets(infos, given, i as int),
                total_vms == sum_vms(rows, i as int),
                total_volumes == sum_volumes(rows, i as int),
                total_volume_bytes == capped(sum_bytes(rows, i as int)),
                sum_vms(rows, n as int) <= u32::MAX,
                sum_volumes(rows, n as int) <= u32::MAX,
            decreases n - i,
        {
            let info = &members[i];
            let alive = info.status == NodeStatus::Alive;
            let mut row = NodeReport {
                id: info.id.clone(),
                addr: info.addr.clone(),
                status: info.status,
                vm_count: 0,
                volume_count: 0,
                total_volume_bytes: 0,
                network_count: 0,
                reachable: false,
            };
            if alive {
                row.vm_count = count_owned(&vms, &info.id) as u32;
            }
            let ghost seen = usage_views(volumes@);
            let ghost had = networks@;
            if let Some(a) = answers.pop() {
                assert(a == given[i as int]);
                if alive {
                    if let Some(vs) = a.volumes {
                        row.volume_count = vs.len() as u32;
                        row.total_volume_bytes = volume_bytes(&vs);
                        row.reachable = true;
                        push_usages(&mut volumes, &info.id, vs);
                        if let Some(ns) = a.networks {
                            let mut ns = ns;
                            row.network_count = ns.len() as u32;
                            networks.append(&mut ns);
                        }
                    }
                }
                proof {
                    assert(row@ == rows[i as int]);
                    assert(usage_views(volumes@) =~= seen + usages(infos[i as int], a));
                    assert(networks@ =~= had + nets(infos[i as int], a));
                }
            }
            proof {
                lemma_sums_grow(rows, i + 1, n as int);
            }
            if row.reachable {
                total_vms = total_vms + row.vm_count;
            }
            total_volumes = total_volumes + row.volume_count;
            total_volume_bytes = total_volume_bytes.saturating_add(row.total_volume_bytes);
            nodes.push(row);
            i = i + 1;
        }
        assert(report_views(nodes@) =~= rows);
        ClusterReport { nodes, volumes, networks, total_vms, total_volumes, total_volume_bytes }
    }
}

/// Appends the volumes of a node.
fn push_usages(out: &mut Vec<VolumeUsage>, node: &NodeId, volumes: Vec<VolumeMeta>)
    ensures
        usage_views(final(out)@) == usage_views(old(out)@) + Seq::new(
            volumes@.len(),
            |i: int| (node@, volumes@[i]),
        ),
{
    let ghost before = usage_views(out@);
    let ghost add = Seq::new(volumes@.len(), |i: int| (node@, volumes@[i]));
    let mut i: usize = 0;
    assert(before + add.take(0) =~= before);
    while i < volumes.len()
        invariant
            i <= volumes@.len(),
            add == Seq::new(volumes@.len(), |i: int| (node@, volumes@[i])),
            usage_views(out@) == before + add.take(i as int),
        decreases volumes@.len() - i,
    {
        let ghost was = usage_views(out@);
        out.push(VolumeUsage { node: node.clone(), volume: volumes[i].clone() });
        proof {
            assert(usage_views(out@) =~= was.push(add[i as int]));
            assert(add.take(i + 1) =~= add.take(i as int).push(add[i as int]));
            assert(usage_views(out@) =~= before + add.take(i + 1));
        }
        i = i + 1;
    }
    assert(add.take(i as int) =~= add);
}

/// A node that is not alive, or that did not answer, is reported as
/// unreachable and holds nothing in the report; only its VMs are known, and
/// those only while it is alive.
pub proof fn law_silent_nodes_hold_nothing(
    infos: Seq<NodeInfoView>,
    vms: Seq<RemoteVmView>,
    answers: Seq<NodeAnswer>,
    i: int,
)
    requires
        0 <= i < infos.len(),
        infos[i].status != NodeStatus::Alive || answers[i].volumes is None,
    ensures
        ({
            let row = rows_of(infos, vms, answers)[i];
            &&& !row.reachable
            &&& row.volume_count == 0
            &&& row.total_volume_bytes == 0
            &&& row.network_count == 0
            &&& infos[i].status != NodeStatus::Alive ==> row.vm_count == 0
        }),
{
}

/// How many replies a poll may still need.
pub open spec fn left_to_ask(p: PollView) -> int {
    2 * (p.infos.len() - p.answers.len()) - if p.waiting is Some {
        1int
    } else {
        0int
    }
}

/// Passing over nodes takes no answer back and invents none for a node that
/// does not exist.
proof fn lemma_passed_over(infos: Seq<NodeInfoView>, answers: Seq<NodeAnswer>)
    requires
        answers.len() <= infos.len(),
    ensures
        answers.len() <= passed_over(infos, answers).len() <= infos.len(),
    decreases infos.len() - answers.len(),
{
    if answers.len() < infos.len() && infos[answers.len() as int].status != NodeStatus::Alive {
        lemma_passed_over(infos, answers.push(silence()));
    }
}

/// Every reply, whatever it is, brings a report nearer to its end, which comes
/// after at most two replies per node.
pub proof fn law_polls_end(p: PollView, reply: CelResult<VmOpReply>)
    requires
        p.wf(),
        p.asks(),
    ensures
        0 <= left_to_ask(polled(p, reply)) < left_to_ask(p) <= 2 * p.infos.len(),
{
    if let Some(volumes) = p.waiting {
        let a = NodeAnswer {
            volumes: Some(volumes),
            networks: match reply {
                Ok(VmOpReply::NetworksListed { networks }) => Some(networks),
                _ => None,
            },
        };
        lemma_passed_over(p.infos, p.answers.push(a));
    } else {
        lemma_passed_over(p.infos, p.answers.push(silence()));
    }
}

} // verus!
