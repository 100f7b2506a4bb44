//! A Kubernetes-shaped personality: one network, one control-plane VM, a
//! number of workers, and a load balancer in front of the workers.
//!
//! Provisioning is a sequence of operations on one node. [`K8sProvision`]
//! says which comes next and takes in how the last one ended.

use vstd::prelude::*;
use vstd::string::*;

use crate::error::{CelError, CelResult};
use crate::mesh::federation::RestartPolicy;
use crate::mesh::membership::NodeId;
use crate::mesh::net;
use crate::mesh::net::render_ipv4;
use crate::mesh::proto::{VmOp, VmOpReply};
use crate::mesh::vault::{Ipv4, LbAlgo, LbBackend, LoadBalancer, Nic, VirtualNetwork};
use crate::text;
use crate::text::{concat, push_decimal};

verus! {

/// Largest number of workers.
pub const MAX_WORKERS: u32 = 16;

/// What a cluster is to look like.
#[derive(Debug, Clone)]
pub struct K8sClusterSpec {
    /// Name of the cluster, and of its network and load balancer.
    pub name: String,
    /// Number of workers, from 1 to 16.
    pub workers: u32,
    /// Address block of the network.
    pub cidr: String,
    /// Port at which the load balancer listens.
    pub api_port: u16,
    /// Port at which the workers serve.
    pub api_backend_port: u16,
    /// How the load balancer spreads connections.
    pub algo: LbAlgo,
}

/// Whether a specification is the default one of its name and size.
pub open spec fn is_default(name: Seq<char>, workers: u32, r: K8sClusterSpec) -> bool {
    &&& r.name@ == name
    &&& r.workers == workers
    &&& r.cidr@ == "10.42.0.0/24"@
    &&& r.api_port == 6443
    &&& r.api_backend_port == 6443
    &&& r.algo == LbAlgo::RoundRobin
}

impl K8sClusterSpec {
    /// A cluster on `10.42.0.0/24` that serves at port 6443, in turn.
    pub fn new(name: &str, workers: u32) -> (r: K8sClusterSpec)
        ensures
            is_default(name@, workers, r),
    {
        K8sClusterSpec {
            name: name.to_owned(),
            workers,
            cidr: "10.42.0.0/24".to_owned(),
            api_port: 6443,
            api_backend_port: 6443,
            algo: LbAlgo::RoundRobin,
        }
    }
}

/// What a node of a cluster is for.
#[derive(Debug, Clone, Copy, PartialEq, Eq, Structural)]
pub enum K8sNodeRole {
    /// It runs the control plane.
    ControlPlane,
    /// It runs the work.
    Worker,
}

/// One node of a cluster.
#[derive(Debug, Clone)]
pub struct K8sNodeRecord {
    /// What the node is for.
    pub role: K8sNodeRole,
    /// VM that the node is.
    pub vm_id: u32,
    /// Label of the VM.
    pub label: String,
    /// Interface of the VM on the cluster's network.
    pub nic: Nic,
}

/// Mathematical value of a [`K8sNodeRecord`].
#[verifier::ext_equal]
pub struct NodeView {
    /// See [`K8sNodeRecord::role`].
    pub role: K8sNodeRole,
    /// See [`K8sNodeRecord::vm_id`].
    pub vm_id: u32,
    /// See [`K8sNodeRecord::label`].
    pub label: Seq<char>,
    /// See [`K8sNodeRecord::nic`].
    pub nic: Nic,
}

impl View for K8sNodeRecord {
    type V = NodeView;

    open spec fn view(&self) -> NodeView {
        NodeView { role: self.role, vm_id: self.vm_id, label: self.label@, nic: self.nic }
    }
}

/// Mathematical value of a list of nodes.
pub open spec fn node_views(v: Seq<K8sNodeRecord>) -> Seq<NodeView> {
    Seq::new(v.len(), |i: int| v[i]@)
}

/// A cluster that was provisioned.
#[derive(Debug, Clone)]
pub struct K8sCluster {
    /// What it looks like.
    pub spec: K8sClusterSpec,
    /// Node that holds its VMs and network.
    pub owner: NodeId,
    /// Its network.
    pub network: VirtualNetwork,
    /// Its load balancer.
    pub lb: LoadBalancer,
    /// Its nodes, the control plane first.
    pub nodes: Vec<K8sNodeRecord>,
}

/// What a provisioning waits for.
#[derive(Debug)]
pub enum Phase {
    /// The network.
    Network,
    /// The next VM.
    Create,
    /// The interface of the next VM.
    Attach {
        /// The VM.
        vm_id: u32,
    },
    /// The start of the next VM.
    Start {
        /// The VM.
        vm_id: u32,
        /// Its interface.
        nic: Nic,
    },
    /// The load balancer.
    Balancer,
}

/// A provisioning under way.
#[derive(Debug)]
pub struct K8sProvision {
    /// What the cluster is to look like.
    pub spec: K8sClusterSpec,
    /// Node on which it is provisioned.
    pub owner: NodeId,
    /// Its network, once there is one.
    pub network: Option<VirtualNetwork>,
    /// The address for its load balancer, once the network is there.
    pub vip: Option<Ipv4>,
    /// Its nodes so far.
    pub nodes: Vec<K8sNodeRecord>,
    /// The backends of its load balancer so far.
    pub backends: Vec<LbBackend>,
    /// What it waits for.
    pub phase: Phase,
}

/// Mathematical value of a [`K8sProvision`].
#[verifier::ext_equal]
pub struct ProvisionView {
    /// See [`K8sProvision::spec`].
    pub spec: K8sClusterSpec,
    /// See [`K8sProvision::owner`].
    pub owner: NodeId,
    /// See [`K8sProvision::network`].
    pub network: Option<VirtualNetwork>,
    /// See [`K8sProvision::vip`].
    pub vip: Option<Ipv4>,
    /// See [`K8sProvision::nodes`].
    pub nodes: Seq<NodeView>,
    /// See [`K8sProvision::backends`].
    pub backends: Seq<LbBackend>,
    /// See [`K8sProvision::phase`].
    pub phase: Phase,
}

impl View for K8sProvision {
    type V = ProvisionView;

    open spec fn view(&self) -> ProvisionView {
        ProvisionView {
            spec: self.spec,
            owner: self.owner,
            network: self.network,
            vip: self.vip,
            nodes: node_views(self.nodes@),
            backends: self.backends@,
            phase: self.phase,
        }
    }
}

/// The label of node `i`: the control plane is node 0, the workers count from
/// 0 after it.
pub open spec fn node_label(name: Seq<char>, i: int) -> Seq<char> {
    if i == 0 {
        "k8s-cp-"@ + name
    } else {
        "k8s-worker-"@ + name + "-"@ + text::decimal((i - 1) as nat)
    }
}

/// What node `i` is for.
pub open spec fn node_role(i: int) -> K8sNodeRole {
    if i == 0 {
        K8sNodeRole::ControlPlane
    } else {
        K8sNodeRole::Worker
    }
}

/// The nodes are named and used as their place says.
pub open spec fn nodes_shaped(spec: K8sClusterSpec, nodes: Seq<NodeView>) -> bool {
    forall|i: int|
        0 <= i < nodes.len() ==> (#[trigger] nodes[i]).role == node_role(i) && nodes[i].label
            == node_label(spec.name@, i)
}

/// The backend that node `n` is.
pub open spec fn backend_of(spec: K8sClusterSpec, n: NodeView) -> LbBackend {
    LbBackend { vm_id: n.vm_id, ip: n.nic.ip, port: spec.api_backend_port }
}

impl ProvisionView {
    /// The parts of a provisioning fit together.
    pub open spec fn wf(self) -> bool {
        &&& 1 <= self.spec.workers <= MAX_WORKERS
        &&& nodes_shaped(self.spec, self.nodes)
        &&& self.backends.len() == if self.nodes.len() == 0 {
            0
        } else {
            self.nodes.len() - 1
        }
        &&& forall|i: int|
            0 <= i < self.backends.len() ==> #[trigger] self.backends[i] == backend_of(
                self.spec,
                self.nodes[i + 1],
            )
        &&& match self.phase {
            Phase::Network => self.network is None && self.nodes.len() == 0,
            Phase::Balancer => self.network is Some && self.nodes.len() == self.spec.workers + 1,
            _ => self.network is Some && self.nodes.len() <= self.spec.workers,
        }
    }
}

/// How a provisioning goes on.
#[derive(Debug)]
pub enum K8sStep {
    /// Run an operation on the owner and come back with its result.
    Next(K8sProvision, VmOp),
    /// The cluster is there.
    Done(K8sCluster),
    /// It failed. What was provisioned so far stays.
    Failed(CelError),
}

/// The operation that creates node `i`.
pub open spec fn creates(op: VmOp, name: Seq<char>, i: int) -> bool {
    op matches VmOp::Create {
        label,
        restart_policy,
        image_path,
        cpu_count,
        memory_mib,
        boot_blob_crc32c,
    } && label@ == node_label(name, i) && restart_policy == RestartPolicy::Always && image_path
        is None && cpu_count is None && memory_mib is None && boot_blob_crc32c is None
}

/// The operation that creates the load balancer.
pub open spec fn balances(op: VmOp, p: ProvisionView, vip: Ipv4) -> bool {
    op matches VmOp::CreateLoadBalancer {
        name,
        network_id,
        vip: v,
        frontend_port,
        algo,
        backends,
    } && name@ == p.spec.name@ + "-api"@ && network_id == p.network->0.id && v@
        == net::ipv4_text(vip) && frontend_port == p.spec.api_port && algo == p.spec.algo
        && backends@ == p.backends
}

/// The step fails with the given words.
pub open spec fn fails(r: K8sStep, msg: &'static str) -> bool {
    r == K8sStep::Failed(CelError::Internal(msg))
}

/// What [`K8sProvision::begin`] does.
pub open spec fn begun(
    owner: NodeId,
    spec: K8sClusterSpec,
    cidr_ok: bool,
    r: CelResult<(K8sProvision, VmOp)>,
) -> bool {
    if spec.workers == 0 || spec.workers > MAX_WORKERS {
        r == Err::<(K8sProvision, VmOp), CelError>(
            CelError::Invalid("k8s: workers must be in 1..=16"),
        )
    } else if !cidr_ok {
        r == Err::<(K8sProvision, VmOp), CelError>(CelError::Invalid("k8s: bad cidr"))
    } else {
        r matches Ok((p, op)) && p@.wf() && p@ == (ProvisionView {
            spec,
            owner,
            network: None,
            vip: None,
            nodes: Seq::empty(),
            backends: Seq::empty(),
            phase: Phase::Network,
        }) && op == (VmOp::CreateNetwork { name: spec.name, cidr: spec.cidr })
    }
}

/// What [`K8sProvision::advance`] does.
pub open spec fn advanced(
    p: ProvisionView,
    reply: CelResult<VmOpReply>,
    vip: Option<Ipv4>,
    r: K8sStep,
) -> bool {
    match reply {
        Err(e) => r == K8sStep::Failed(e),
        Ok(reply) => match p.phase {
            Phase::Network => match reply {
                VmOpReply::NetworkCreated { network } => r matches K8sStep::Next(n, op) && n@ == (
                ProvisionView { network: Some(network), vip, phase: Phase::Create, ..p })
                    && creates(op, p.spec.name@, 0),
                _ => fails(r, "k8s: unexpected reply (CreateNetwork)"),
            },
            Phase::Create => match reply {
                VmOpReply::Created { vm_id } => r matches K8sStep::Next(n, op) && n@ == (
                ProvisionView { phase: Phase::Attach { vm_id }, ..p }) && op == (
                VmOp::AttachNic { network_id: p.network->0.id, vm_id, ip: None }),
                _ => if p.nodes.len() == 0 {
                    fails(r, "k8s: unexpected reply (Create cp)")
                } else {
                    fails(r, "k8s: unexpected reply (Create worker)")
                },
            },
            Phase::Attach { vm_id } => match reply {
                VmOpReply::NicAttached { nic } => r matches K8sStep::Next(n, op) && n@ == (
                ProvisionView { phase: Phase::Start { vm_id, nic }, ..p }) && op == (VmOp::Start {
                    vm_id,
                }),
                _ => if p.nodes.len() == 0 {
                    fails(r, "k8s: unexpected reply (AttachNic cp)")
                } else {
                    fails(r, "k8s: unexpected reply (AttachNic worker)")
                },
            },
            Phase::Start { vm_id, nic } => {
                let i = p.nodes.len() as int;
                let node = NodeView {
                    role: node_role(i),
                    vm_id,
                    label: node_label(p.spec.name@, i),
                    nic,
                };
                let q = ProvisionView {
                    nodes: p.nodes.push(node),
                    backends: if i == 0 {
                        p.backends
                    } else {
                        p.backends.push(backend_of(p.spec, node))
                    },
                    ..p
                };
                if i < p.spec.workers {
                    r matches K8sStep::Next(n, op) && n@ == (ProvisionView {
                        phase: Phase::Create,
                        ..q
                    }) && creates(op, p.spec.name@, i + 1)
                } else {
                    match p.vip {
                        None => r == K8sStep::Failed(
                            CelError::Invalid("k8s: no room for VIP in CIDR"),
                        ),
                        Some(v) => r matches K8sStep::Next(n, op) && n@ == (ProvisionView {
                            phase: Phase::Balancer,
                            ..q
                        }) && balances(op, q, v),
                    }
                }
            },
            Phase::Balancer => match reply {
                VmOpReply::LoadBalancerCreated { lb } => r matches K8sStep::Done(c) && c.spec
                    == p.spec && c.owner == p.owner && c.network == p.network->0 && c.lb == lb
                    && node_views(c.nodes@) == p.nodes,
                _ => fails(r, "k8s: unexpected reply (CreateLoadBalancer)"),
            },
        },
    }
}

/// A cluster has one control plane, all its workers, each under its label.
pub open spec fn shaped(c: K8sCluster) -> bool {
    &&& c.nodes@.len() == c.spec.workers + 1
    &&& nodes_shaped(c.spec, node_views(c.nodes@))
}

/// The label of node `i`.
fn label_of(name: &str, i: usize) -> (r: String)
    ensures
        r@ == node_label(name@, i as int),
{
    if i == 0 {
        return concat("k8s-cp-", name);
    }
    let mut s = concat("k8s-worker-", name);
    s.append("-");
    push_decimal(&mut s, (i - 1) as u64);
    s
}

/// The operation that creates node `i`.
fn create_node(name: &str, i: usize) -> (r: VmOp)
    ensures
        creates(r, name@, i as int),
{
    VmOp::Create {
        label: label_of(name, i),
        restart_policy: RestartPolicy::Always,
        image_path: None,
        cpu_count: None,
        memory_mib: None,
        boot_blob_crc32c: None,
    }
}

/// Copies a list of backends.
fn copy_backends(v: &Vec<LbBackend>) -> (r: Vec<LbBackend>)
    ensures
        r@ == v@,
{
    let mut out: Vec<LbBackend> = Vec::new();
    let mut i: usize = 0;
    while i < v.len()
        invariant
            i <= v@.len(),
            out@ == v@.take(i as int),
        decreases v@.len() - i,
    {
        out.push(v[i]);
        i = i + 1;
        assert(out@ =~= v@.take(i as int));
    }
    assert(v@.take(i as int) =~= v@);
    out
}

impl K8sProvision {
    /// Begins a provisioning: the operation that creates the network. `cidr_ok`
    /// says whether the network store can read the address block.
    pub fn begin(owner: &NodeId, spec: K8sClusterSpec, cidr_ok: bool) -> (r: CelResult<
        (K8sProvision, VmOp),
    >)
        ensures
            begun(*owner, spec, cidr_ok, r),
    {
        if spec.workers == 0 || spec.workers > MAX_WORKERS {
            return Err(CelError::Invalid("k8s: workers must be in 1..=16"));
        }
        if !cidr_ok {
            return Err(CelError::Invalid("k8s: bad cidr"));
        }
        let op = VmOp::CreateNetwork { name: spec.name.clone(), cidr: spec.cidr.clone() };
        let p = K8sProvision {
            spec,
            owner: owner.clone(),
            network: None,
            vip: None,
            nodes: Vec::new(),
            backends: Vec::new(),
            phase: Phase::Network,
        };
        assert(p@.nodes =~= Seq::empty());
        Ok((p, op))
    }

    /// Takes in how the last operation ended. `vip` is the highest usable
    /// address of the network; it is looked at when the network was created.
    pub fn advance(self, reply: CelResult<VmOpReply>, vip: Option<Ipv4>) -> (r: K8sStep)
        requires
            self@.wf(),
        ensures
            advanced(self@, reply, vip, r),
            match r {
                K8sStep::Next(n, _) => n@.wf(),
                K8sStep::Done(c) => shaped(c),
                K8sStep::Failed(_) => true,
            },
    {
        let ghost p = self@;
        let reply = match reply {
            Ok(reply) => reply,
            Err(e) => {
                return K8sStep::Failed(e);
            },
        };
        let K8sProvision { spec, owner, network, vip: kept, mut nodes, mut backends, phase } = self;
        match phase {
            Phase::Network => match reply {
                VmOpReply::NetworkCreated { network } => {
                    let op = create_node(spec.name.as_str(), 0);
                    let n = K8sProvision {
                        spec,
                        owner,
                        network: Some(network),
                        vip,
                        nodes,
                        backends,
                        phase: Phase::Create,
                    };
                    K8sStep::Next(n, op)
                },
                _ => K8sStep::Failed(CelError::Internal("k8s: unexpected reply (CreateNetwork)")),
            },
            Phase::Create => match (reply, network) {
                (VmOpReply::Created { vm_id }, Some(made)) => {
                    let op = VmOp::AttachNic { network_id: made.id.clone(), vm_id, ip: None };
                    let n = K8sProvision {
                        spec,
                        owner,
                        network: Some(made),
                        vip: kept,
                        nodes,
                        backends,
                        phase: Phase::Attach { vm_id },
                    };
                    K8sStep::Next(n, op)
                },
                _ => {
                    if nodes.len() == 0 {
                        K8sStep::Failed(CelError::Internal("k8s: unexpected reply (Create cp)"))
                    } else {
                        K8sStep::Failed(CelError::Internal("k8s: unexpected reply (Create worker)"))
                    }
                },
            },
            Phase::Attach { vm_id } => match reply {
                VmOpReply::NicAttached { nic } => {
                    let n = K8sProvision {
                        spec,
                        owner,
                        network,
                        vip: kept,
                        nodes,
                        backends,
                        phase: Phase::Start { vm_id, nic },
                    };
                    K8sStep::Next(n, VmOp::Start { vm_id })
                },
                _ => {
                    if nodes.len() == 0 {
                        K8sStep::Failed(CelError::Internal("k8s: unexpected reply (AttachNic cp)"))
                    } else {
                        K8sStep::Failed(
                            CelError::Internal("k8s: unexpected reply (AttachNic worker)"),
                        )
                    }
                },
            },
            Phase::Start { vm_id, nic } => {
                let i: usize = nodes.len();
                assert(node_views(nodes@).len() == i);
                let role = if i == 0 {
                    K8sNodeRole::ControlPlane
                } else {
                    K8sNodeRole::Worker
                };
                if i > 0 {
                    backends.push(
                        LbBackend { vm_id, ip: nic.ip, port: spec.api_backend_port },
                    );
                }
                let ghost before = node_views(nodes@);
                let node = K8sNodeRecord {
                    role,
                    vm_id,
                    label: label_of(spec.name.as_str(), i),
                    nic,
                };
                let ghost nv = node@;
                nodes.push(node);
                assert(node_views(nodes@) =~= before.push(nv));
                if (i as u32) < spec.workers {
                    let op = create_node(spec.name.as_str(), i + 1);
                    let n = K8sProvision {
                        spec,
                        owner,
                        network,
                        vip: kept,
                        nodes,
                        backends,
                        phase: Phase::Create,
                    };
                    K8sStep::Next(n, op)
                } else {
                    match (kept, network) {
                        (Some(v), Some(made)) => {
                            let op = VmOp::CreateLoadBalancer {
                                name: concat(spec.name.as_str(), "-api"),
                                network_id: made.id.clone(),
                                vip: render_ipv4(v),
                                frontend_port: spec.api_port,
                                algo: spec.algo,
                                backends: copy_backends(&backends),
                            };
                            let n = K8sProvision {
                                spec,
                                owner,
                                network: Some(made),
                                vip: kept,
                                nodes,
                                backends,
                                phase: Phase::Balancer,
                            };
                            K8sStep::Next(n, op)
                        },
                        _ => K8sStep::Failed(CelError::Invalid("k8s: no room for VIP in CIDR")),
                    }
                }
            },
            Phase::Balancer => match (reply, network) {
                (VmOpReply::LoadBalancerCreated { lb }, Some(made)) => {
                    assert(node_views(nodes@).len() == nodes@.len());
                    K8sStep::Done(K8sCluster { spec, owner, network: made, lb, nodes })
                },
                _ => K8sStep::Failed(
                    CelError::Internal("k8s: unexpected reply (CreateLoadBalancer)"),
                ),
            },
        }
    }
}

/// The places of the nodes that have a role, in order.
pub open spec fn places(nodes: Seq<NodeView>, role: K8sNodeRole) -> Seq<int>
    decreases nodes.len(),
{
    if nodes.len() == 0 {
        Seq::empty()
    } else if nodes.last().role == role {
        places(nodes.drop_last(), role).push(nodes.len() - 1)
    } else {
        places(nodes.drop_last(), role)
    }
}

/// The operation that a teardown runs in step `i`: the load balancer goes
/// first; then, node by node, the interface goes, the VM stops and goes; the
/// network goes last.
pub open spec fn teardown_op(c: K8sCluster, i: int) -> VmOp {
    let n = c.nodes@.len() as int;
    if i == 0 {
        VmOp::DeleteLoadBalancer { lb_id: c.lb.id }
    } else if i > 3 * n {
        VmOp::DeleteNetwork { network_id: c.network.id }
    } else {
        let node = c.nodes@[(i - 1) / 3];
        if (i - 1) % 3 == 0 {
            VmOp::DetachNic { nic_id: node.nic.id }
        } else if (i - 1) % 3 == 1 {
            VmOp::Stop { vm_id: node.vm_id }
        } else {
            VmOp::Delete { vm_id: node.vm_id }
        }
    }
}

/// The failure that a teardown keeps once operation `op` ended.
pub open spec fn kept_failure(
    op: VmOp,
    first: Option<CelError>,
    result: CelResult<VmOpReply>,
) -> Option<CelError> {
    match (first, result) {
        (None, Err(e)) => if op is Stop {
            None
        } else {
            Some(e)
        },
        (first, _) => first,
    }
}

/// Number of steps of a teardown.
pub open spec fn teardown_len(c: K8sCluster) -> int {
    3 * c.nodes@.len() as int + 2
}

impl K8sCluster {
    /// The nodes that have a role.
    fn with_role(&self, role: K8sNodeRole) -> (r: Vec<&K8sNodeRecord>)
        ensures
            r@.len() == places(node_views(self.nodes@), role).len(),
            forall|k: int|
                0 <= k < r@.len() ==> *(#[trigger] r@[k]) == self.nodes@[places(
                    node_views(self.nodes@),
                    role,
                )[k]],
    {
        let ghost all = node_views(self.nodes@);
        let mut out: Vec<&K8sNodeRecord> = Vec::new();
        let mut i: usize = 0;
        assert(all.take(0) =~= Seq::empty());
        while i < self.nodes.len()
            invariant
                i <= self.nodes@.len(),
                all == node_views(self.nodes@),
                out@.len() == places(all.take(i as int), role).len(),
                forall|k: int|
                    0 <= k < out@.len() ==> *(#[trigger] out@[k]) == self.nodes@[places(
                        all.take(i as int),
                        role,
                    )[k]],
            decreases self.nodes@.len() - i,
        {
            proof {
                let t = all.take(i + 1);
                assert(t.drop_last() =~= all.take(i as int));
                assert(t.last() == all[i as int]);
            }
            if self.nodes[i].role == role {
                out.push(&self.nodes[i]);
            }
            i = i + 1;
        }
        assert(all.take(i as int) =~= all);
        out
    }

    /// The control-plane nodes.
    pub fn control_plane(&self) -> (r: Vec<&K8sNodeRecord>)
        ensures
            r@.len() == places(node_views(self.nodes@), K8sNodeRole::ControlPlane).len(),
            forall|k: int|
                0 <= k < r@.len() ==> *(#[trigger] r@[k]) == self.nodes@[places(
                    node_views(self.nodes@),
                    K8sNodeRole::ControlPlane,
                )[k]],
    {
        self.with_role(K8sNodeRole::ControlPlane)
    }

    /// The workers.
    pub fn workers(&self) -> (r: Vec<&K8sNodeRecord>)
        ensures
            r@.len() == places(node_views(self.nodes@), K8sNodeRole::Worker).len(),
            forall|k: int|
                0 <= k < r@.len() ==> *(#[trigger] r@[k]) == self.nodes@[places(
                    node_views(self.nodes@),
                    K8sNodeRole::Worker,
                )[k]],
    {
        self.with_role(K8sNodeRole::Worker)
    }

    /// The operation of a teardown in step `i`; nothing when it is over.
    pub fn destroy_op(&self, i: usize) -> (r: Option<VmOp>)
        ensures
            if i < teardown_len(*self) {
                r == Some(teardown_op(*self, i as int))
            } else {
                r is None
            },
    {
        if i == 0 {
            return Some(VmOp::DeleteLoadBalancer { lb_id: self.lb.id.clone() });
        }
        let k: usize = (i - 1) / 3;
        if k < self.nodes.len() {
            let node = &self.nodes[k];
            return match (i - 1) % 3 {
                0 => Some(VmOp::DetachNic { nic_id: node.nic.id.clone() }),
                1 => Some(VmOp::Stop { vm_id: node.vm_id }),
                _ => Some(VmOp::Delete { vm_id: node.vm_id }),
            };
        }
        if k == self.nodes.len() && (i - 1) % 3 == 0 {
            return Some(VmOp::DeleteNetwork { network_id: self.network.id.clone() });
        }
        None
    }

    /// Keeps the first failure of a teardown. A VM that does not stop is no
    /// failure.
    pub fn destroy_note(
        &self,
        i: usize,
        first: Option<CelError>,
        result: CelResult<VmOpReply>,
    ) -> (r: Option<CelError>)
        requires
            i < teardown_len(*self),
        ensures
            r == kept_failure(teardown_op(*self, i as int), first, result),
    {
        let stop = i > 0 && (i - 1) / 3 < self.nodes.len() && (i - 1) % 3 == 1;
        match (first, result) {
            (None, Err(e)) => {
                if stop {
                    None
                } else {
                    Some(e)
                }
            },
            (first, _) => first,
        }
    }
}

/// A teardown reaches everything: the load balancer, the network, and of every
/// node its interface and its VM, which is stopped before it goes.
pub proof fn law_teardown_is_complete(c: K8sCluster, k: int)
    requires
        0 <= k < c.nodes@.len(),
    ensures
        teardown_op(c, 0) == (VmOp::DeleteLoadBalancer { lb_id: c.lb.id }),
        teardown_op(c, 3 * k + 1) == (VmOp::DetachNic { nic_id: c.nodes@[k].nic.id }),
        teardown_op(c, 3 * k + 2) == (VmOp::Stop { vm_id: c.nodes@[k].vm_id }),
        teardown_op(c, 3 * k + 3) == (VmOp::Delete { vm_id: c.nodes@[k].vm_id }),
        teardown_op(c, teardown_len(c) - 1) == (VmOp::DeleteNetwork { network_id: c.network.id }),
        teardown_len(c) == 3 * c.nodes@.len() + 2,
{
}

/// The places of the nodes of a shaped list.
proof fn lemma_places(spec: K8sClusterSpec, nodes: Seq<NodeView>)
    requires
        nodes_shaped(spec, nodes),
    ensures
        places(nodes, K8sNodeRole::ControlPlane).len() == if nodes.len() == 0 {
            0int
        } else {
            1
        },
        places(nodes, K8sNodeRole::Worker).len() == if nodes.len() == 0 {
            0int
        } else {
            nodes.len() - 1
        },
    decreases nodes.len(),
{
    if nodes.len() > 0 {
        let p = nodes.drop_last();
        assert forall|i: int| 0 <= i < p.len() implies (#[trigger] p[i]).role == node_role(i)
            && p[i].label == node_label(spec.name@, i) by {
            assert(p[i] == nodes[i]);
        }
        lemma_places(spec, p);
        assert(nodes[nodes.len() - 1].role == node_role(nodes.len() - 1));
    }
}

/// The address of the load balancer reaches the host as it was chosen.
pub proof fn law_balancer_address_is_read(op: VmOp, p: ProvisionView, vip: Ipv4)
    requires
        balances(op, p, vip),
    ensures
        op matches VmOp::CreateLoadBalancer { vip: v, .. } && net::parsed_ipv4(v@) == Some(vip),
{
    net::law_ipv4_round_trip(vip);
}

/// A provisioned cluster has one control plane and as many workers as were
/// asked for.
pub proof fn law_cluster_shape(c: K8sCluster)
    requires
        shaped(c),
    ensures
        places(node_views(c.nodes@), K8sNodeRole::ControlPlane).len() == 1,
        places(node_views(c.nodes@), K8sNodeRole::Worker).len() == c.spec.workers,
{
    lemma_places(c.spec, node_views(c.nodes@));
}

/// A provisioning begins exactly if it asks for 1 to 16 workers and for an
/// address block that can be read: with a network of the cluster's name, on the
/// address block that was asked for, and with nothing made yet.
pub proof fn law_provisioning_begins(
    owner: NodeId,
    spec: K8sClusterSpec,
    cidr_ok: bool,
    r: CelResult<(K8sProvision, VmOp)>,
)
    requires
        begun(owner, spec, cidr_ok, r),
    ensures
        r is Ok <==> 1 <= spec.workers <= 16 && cidr_ok,
        r matches Ok((p, op)) ==> p.spec == spec && p.owner == owner && p.nodes@.len() == 0
            && p.backends@.len() == 0 && p@.phase is Network && (op matches VmOp::CreateNetwork {
            name,
            cidr,
        } && name == spec.name && cidr == spec.cidr),
{
    if let Ok((p, op)) = r {
        assert(p@.nodes.len() == p.nodes@.len());
    }
}

/// A teardown reports the first operation that failed, but for a VM that would
/// not stop: it goes on after every failure, and later ones change nothing.
pub proof fn law_first_failure_is_kept(
    op: VmOp,
    first: Option<CelError>,
    result: CelResult<VmOpReply>,
)
    ensures
        first is Some ==> kept_failure(op, first, result) == first,
        result is Ok ==> kept_failure(op, first, result) == first,
        first is None && result is Err && !(op is Stop) ==> kept_failure(op, first, result) == Some(
            result->Err_0,
        ),
        first is None && op is Stop ==> kept_failure(op, first, result) is None,
{
}

/// By default a cluster has a private network of 254 hosts, and its load balancer
/// takes turns and serves the port that the nodes serve, that of the API.
pub proof fn law_defaults(name: Seq<char>, workers: u32, r: K8sClusterSpec)
    requires
        is_default(name, workers, r),
    ensures
        r.api_port == r.api_backend_port,
        r.api_port == 6443,
        r.cidr@ == "10.42.0.0/24"@,
        r.algo == LbAlgo::RoundRobin,
        r.name@ == name,
        r.workers == workers,
{
}

/// A reply that does not fit what was asked for ends a provisioning, and so does
/// a failure, which is handed on; the words name what was asked for.
pub proof fn law_provisioning_failures(
    p: ProvisionView,
    reply: CelResult<VmOpReply>,
    vip: Option<Ipv4>,
    r: K8sStep,
)
    requires
        advanced(p, reply, vip, r),
    ensures
        reply matches Err(e) ==> r == K8sStep::Failed(e),
        reply matches Ok(x) ==> {
            &&& p.phase is Network && !(x is NetworkCreated) ==> fails(
                r,
                "k8s: unexpected reply (CreateNetwork)",
            )
            &&& p.phase is Create && !(x is Created) && p.nodes.len() == 0 ==> fails(
                r,
                "k8s: unexpected reply (Create cp)",
            )
            &&& p.phase is Create && !(x is Created) && p.nodes.len() > 0 ==> fails(
                r,
                "k8s: unexpected reply (Create worker)",
            )
            &&& p.phase is Attach && !(x is NicAttached) && p.nodes.len() == 0 ==> fails(
                r,
                "k8s: unexpected reply (AttachNic cp)",
            )
            &&& p.phase is Attach && !(x is NicAttached) && p.nodes.len() > 0 ==> fails(
                r,
                "k8s: unexpected reply (AttachNic worker)",
            )
            &&& p.phase is Balancer && !(x is LoadBalancerCreated) ==> fails(
                r,
                "k8s: unexpected reply (CreateLoadBalancer)",
            )
            &&& p.phase is Start && p.nodes.len() >= p.spec.workers && p.vip is None ==> r
                == K8sStep::Failed(CelError::Invalid("k8s: no room for VIP in CIDR"))
        },
{
}

} // verus!
