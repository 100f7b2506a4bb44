//! The gossip engine of one node.
//!
//! [`Mesh`] holds what the node knows and decides what to do. Sockets, timers
//! and the VM host are elsewhere: whoever runs the engine hands in what
//! happened and carries out what the engine answers. Moments and durations
//! are nanoseconds on the caller's monotonic clock.

use vstd::prelude::*;
use vstd::string::*;
use vstd::utf8::*;

use crate::error::{CelError, CelResult};
use crate::mesh::federation;
use crate::mesh::federation::{NamespaceFederation, RemoteVm, RemoteVmView, RestartPolicy, Vms};
use crate::mesh::host::HostResult;
use crate::mesh::membership;
use crate::mesh::membership::{
    MemberRowView, Membership, NodeId, NodeInfo, NodeInfoView, NodeStatus, Rows,
};
use crate::mesh::metrics;
use crate::mesh::metrics::{MeshMetrics, MeshMetricsSnapshot};
use crate::mesh::proto;
use crate::mesh::proto::{Envelope, Payload, VmOp, VmOpReply, VmOpResult};
use crate::text::{concat, str_eq};

verus! {

/// Settings of an engine.
#[derive(Debug, Clone)]
pub struct MeshConfig {
    /// Name of the cluster. Frames of another cluster are dropped.
    pub cluster: String,
    /// This node.
    pub node_id: NodeId,
    /// Address at which peers reach this node.
    pub advertise_addr: String,
    /// Restart counter.
    pub epoch: u64,
    /// Peers to contact first.
    pub seeds: Vec<String>,
    /// How often the engine gossips.
    pub gossip_interval: u128,
    /// A peer that is silent for longer is suspect.
    pub timeout_suspect: u128,
    /// Silence after which a peer is dead.
    pub timeout_dead: u128,
    /// How often the supervisor runs; it does not when this is zero.
    pub supervisor_interval: u128,
}

/// Mathematical value of a list of texts.
pub open spec fn text_views(v: Seq<String>) -> Seq<Seq<char>> {
    Seq::new(v.len(), |i: int| v[i]@)
}

/// Whether settings are the default ones of a node.
pub open spec fn is_default(node_id: Seq<char>, addr: Seq<char>, r: MeshConfig) -> bool {
    &&& r.cluster@ == "celium"@
    &&& r.node_id@ == node_id
    &&& r.advertise_addr@ == addr
    &&& r.epoch == 1
    &&& r.seeds@.len() == 0
    &&& r.gossip_interval == 50_000_000
    &&& r.timeout_suspect == 500_000_000
    &&& r.timeout_dead == 1_500_000_000
    &&& r.supervisor_interval == 0
}

impl MeshConfig {
    /// Settings for a node of the cluster `celium` in its first epoch: gossip
    /// every 50 ms, suspicion after 500 ms, death after 1500 ms, no supervisor.
    pub fn defaults(node_id: &str, addr: &str) -> (r: MeshConfig)
        ensures
            is_default(node_id@, addr@, r),
    {
        MeshConfig {
            cluster: "celium".to_owned(),
            node_id: NodeId::named(node_id),
            advertise_addr: addr.to_owned(),
            epoch: 1,
            seeds: Vec::new(),
            gossip_interval: 50_000_000,
            timeout_suspect: 500_000_000,
            timeout_dead: 1_500_000_000,
            supervisor_interval: 0,
        }
    }
}

/// The engine of one node.
pub struct Mesh {
    /// Settings.
    pub config: MeshConfig,
    /// Membership table.
    pub membership: Membership,
    /// Federated VMs.
    pub federation: NamespaceFederation,
    /// Clock of this node.
    pub hlc: u64,
    /// Addresses that this node has ever heard of, each once.
    pub known: Vec<String>,
    /// Counters.
    pub metrics: MeshMetrics,
    /// Number of the next request.
    pub next_req: u64,
    /// Numbers of requests that wait for a response, each once.
    pub pending: Vec<u64>,
}

/// Mathematical value of a [`Mesh`].
#[verifier::ext_equal]
pub struct MeshView {
    /// See [`Mesh::config`].
    pub config: MeshConfig,
    /// See [`Mesh::membership`].
    pub rows: Rows,
    /// See [`Mesh::federation`].
    pub vms: Vms,
    /// See [`Mesh::hlc`].
    pub hlc: u64,
    /// See [`Mesh::known`].
    pub known: Seq<Seq<char>>,
    /// See [`Mesh::metrics`].
    pub metrics: MeshMetricsSnapshot,
    /// See [`Mesh::next_req`].
    pub next_req: u64,
    /// See [`Mesh::pending`].
    pub pending: Seq<u64>,
}

impl MeshView {
    /// This node.
    pub open spec fn me(self) -> Seq<char> {
        self.config.node_id@
    }

    /// Whether a node is alive.
    pub open spec fn alive(self, id: Seq<char>) -> bool {
        is_alive(self.rows, id)
    }
}

/// Whether a node is alive.
pub open spec fn is_alive(rows: Rows, id: Seq<char>) -> bool {
    rows.dom().contains(id) && rows[id].info.status == NodeStatus::Alive
}

impl View for Mesh {
    type V = MeshView;

    open spec fn view(&self) -> MeshView {
        MeshView {
            config: self.config,
            rows: self.membership@,
            vms: self.federation@,
            hlc: self.hlc,
            known: text_views(self.known@),
            metrics: self.metrics.values,
            next_req: self.next_req,
            pending: self.pending@,
        }
    }
}

/// The clock after one more event.
pub open spec fn later(hlc: u64) -> u64 {
    if hlc == u64::MAX {
        hlc
    } else {
        (hlc + 1) as u64
    }
}

/// The engine once it made a frame for `n` peers: the clock moves on, and the
/// frames count before they reach the transport.
pub open spec fn framed(s: MeshView, n: u64) -> MeshView {
    MeshView {
        hlc: later(s.hlc),
        metrics: MeshMetricsSnapshot {
            gossip_sent: s.metrics.gossip_sent.wrapping_add(n),
            ..s.metrics
        },
        ..s
    }
}

/// A set of addresses with one more.
pub open spec fn with_addr(known: Seq<Seq<char>>, addr: Seq<char>) -> Seq<Seq<char>> {
    if known.contains(addr) {
        known
    } else {
        known.push(addr)
    }
}

/// What [`Mesh::join`] does.
pub open spec fn introduced(s: MeshView, addr: Seq<char>) -> MeshView {
    MeshView {
        known: with_addr(s.known, addr),
        metrics: MeshMetricsSnapshot {
            join_calls: s.metrics.join_calls.wrapping_add(1),
            ..s.metrics
        },
        ..s
    }
}

/// A set of addresses with several more.
pub open spec fn with_addrs(known: Seq<Seq<char>>, more: Seq<Seq<char>>) -> Seq<Seq<char>>
    decreases more.len(),
{
    if more.len() == 0 {
        known
    } else {
        with_addr(with_addrs(known, more.drop_last()), more.last())
    }
}

/// An engine that knows only itself.
pub open spec fn started(config: MeshConfig, now: u128) -> MeshView {
    MeshView {
        config,
        rows: Map::<Seq<char>, MemberRowView>::empty().insert(
            config.node_id@,
            MemberRowView {
                info: NodeInfoView {
                    id: config.node_id@,
                    addr: config.advertise_addr@,
                    epoch: config.epoch,
                    hlc: 0,
                    status: NodeStatus::Alive,
                },
                last_seen: now,
            },
        ),
        vms: Map::empty(),
        hlc: 0,
        known: with_addrs(Seq::empty(), text_views(config.seeds@)),
        metrics: metrics::zero(),
        next_req: 1,
        pending: Seq::empty(),
    }
}

/// This node's own row as it is sent at clock `hlc`.
pub open spec fn own_row(s: MeshView, hlc: u64) -> NodeInfoView {
    NodeInfoView { hlc, ..s.rows[s.me()].info }
}

/// Whether a frame carries this node's stamp at clock `hlc`.
pub open spec fn stamped(s: MeshView, hlc: u64, env: Envelope) -> bool {
    &&& env.magic@ == proto::magic_text()@
    &&& env.version == proto::PROTO_VERSION
    &&& env.from@ == s.me()
    &&& env.cluster@ == s.config.cluster@
    &&& env.hlc == hlc
}

/// Mathematical value of a list of rows.
pub open spec fn info_views(v: Seq<NodeInfo>) -> Seq<NodeInfoView> {
    Seq::new(v.len(), |i: int| v[i]@)
}

/// Every row that this node knows, in order, its own at clock `hlc`.
pub open spec fn gossiped(s: MeshView, hlc: u64) -> Seq<NodeInfoView> {
    let all = membership::ordered(s.rows);
    Seq::new(
        all.len(),
        |i: int|
            if all[i].info.id == s.me() {
                own_row(s, hlc)
            } else {
                all[i].info
            },
    )
}

/// The addresses of the other nodes, in order, with or without those that
/// departed.
pub open spec fn addrs(rows: Seq<MemberRowView>, me: Seq<char>, departed: bool) -> Seq<Seq<char>>
    decreases rows.len(),
{
    if rows.len() == 0 {
        Seq::empty()
    } else {
        let rest = addrs(rows.drop_last(), me, departed);
        let x = rows.last().info;
        if x.id != me && (departed || x.status != NodeStatus::Left) {
            rest.push(x.addr)
        } else {
            rest
        }
    }
}

/// Whom this node may gossip with.
pub open spec fn candidates(s: MeshView) -> Seq<Seq<char>> {
    addrs(membership::ordered(s.rows), s.me(), false) + s.known
}

/// The entry that a seed picks.
pub open spec fn picked(xs: Seq<Seq<char>>, seed: u64) -> Option<Seq<char>> {
    if xs.len() == 0 {
        None
    } else {
        Some(xs[(seed as usize) as int % xs.len() as int])
    }
}

/// One round of the gossip timer: the failure detector runs, and a peer is
/// picked.
pub open spec fn gossip_round(s: MeshView, now: u128) -> (MeshView, Option<Seq<char>>) {
    let rows = membership::swept(
        s.rows,
        s.me(),
        now,
        s.config.timeout_suspect,
        s.config.timeout_dead,
    );
    let before = membership::ordered(s.rows);
    let c = membership::changes(before, membership::ordered(rows), before.len() as int);
    let n = MeshView {
        rows,
        metrics: MeshMetricsSnapshot {
            suspect_promotions: s.metrics.suspect_promotions.wrapping_add(c.1 as u64),
            dead_promotions: s.metrics.dead_promotions.wrapping_add(c.2 as u64),
            ..s.metrics
        },
        ..s
    };
    (n, picked(candidates(n), s.config.epoch.wrapping_add(s.hlc)))
}

/// A row as this node publishes it.
pub open spec fn restamped(v: RemoteVmView, s: MeshView, hlc: u64) -> RemoteVmView {
    RemoteVmView { owner: s.me(), epoch: s.config.epoch, hlc, owner_alive: true, ..v }
}

/// The engine once this node's VMs were replaced.
pub open spec fn published(s: MeshView, rows: Seq<RemoteVmView>, now: u128) -> MeshView {
    let hlc = later(s.hlc);
    let mine = Seq::new(rows.len(), |i: int| restamped(rows[i], s, hlc));
    MeshView {
        hlc,
        vms: federation::published(
            federation::without_owner(s.vms, s.me()),
            s.me(),
            mine,
            mine.len() as int,
        ),
        rows: s.rows.insert(s.me(), membership::bumped(s.rows[s.me()], hlc, now)),
        ..s
    }
}

/// The engine once it is known which owners are alive.
pub open spec fn with_liveness(s: MeshView) -> MeshView {
    MeshView {
        vms: federation::refreshed(s.vms, s.me(), |id: Seq<char>| s.alive(id)),
        ..s
    }
}

/// Whether a row waits for the supervisor.
pub open spec fn is_orphan(v: RemoteVmView) -> bool {
    !v.owner_alive && v.restart_policy == RestartPolicy::Always
}

/// The rows that wait for the supervisor, in order.
pub open spec fn orphans(rows: Seq<RemoteVmView>) -> Seq<RemoteVmView>
    decreases rows.len(),
{
    if rows.len() == 0 {
        rows
    } else if is_orphan(rows.last()) {
        orphans(rows.drop_last()).push(rows.last())
    } else {
        orphans(rows.drop_last())
    }
}

/// Whether a node is the supervisor: it is alive, and every node before it is
/// not.
pub open spec fn supervises(rows: Seq<MemberRowView>, id: Seq<char>) -> bool {
    exists|i: int|
        {
            &&& 0 <= i < rows.len()
            &&& (#[trigger] rows[i]).info.id == id
            &&& rows[i].info.status == NodeStatus::Alive
            &&& forall|j: int|
                0 <= j < i ==> (#[trigger] rows[j]).info.status != NodeStatus::Alive
        }
}

/// The rows once the first `n` of a list were merged.
pub open spec fn merged_rows(
    rows: Rows,
    me: Seq<char>,
    more: Seq<NodeInfoView>,
    now: u128,
    n: int,
) -> Rows
    decreases n,
{
    if n <= 0 {
        rows
    } else {
        membership::merged(merged_rows(rows, me, more, now, n - 1), me, more[n - 1], now).0
    }
}

/// The VMs once the first `n` of a list were merged.
pub open spec fn merged_vms(vms: Vms, me: Seq<char>, more: Seq<RemoteVmView>, n: int) -> Vms
    decreases n,
{
    if n <= 0 {
        vms
    } else {
        federation::vm_merged(merged_vms(vms, me, more, n - 1), me, more[n - 1]).0
    }
}

/// What a frame asks for beyond what the engine has done itself.
#[derive(Debug)]
pub enum FrameStep {
    /// Nothing.
    Done,
    /// Run an operation on the local host and send a response.
    Dispatch {
        /// Number of the request.
        req_id: u64,
        /// Node that asks.
        from: String,
        /// Operation.
        op: VmOp,
    },
    /// Hand a result to whoever waits for it.
    Settle {
        /// Number of the request.
        req_id: u64,
        /// Result.
        result: VmOpResult,
    },
}

/// What [`Mesh::handle_envelope`] does.
pub open spec fn handled(
    s: MeshView,
    env: Envelope,
    src: Seq<char>,
    now: u128,
    n: MeshView,
    r: FrameStep,
) -> bool {
    if env.cluster@ != s.config.cluster@ {
        n == (MeshView {
            metrics: MeshMetricsSnapshot {
                foreign_cluster_drops: s.metrics.foreign_cluster_drops.wrapping_add(1),
                ..s.metrics
            },
            ..s
        }) && r is Done
    } else {
        let k = MeshView { known: with_addr(s.known, src), ..s };
        match env.payload {
            Payload::Hello { node } => n == (MeshView {
                rows: membership::merged(k.rows, k.me(), node@, now).0,
                ..k
            }) && r is Done,
            Payload::Sync { nodes, vms } => n == (MeshView {
                rows: merged_rows(
                    k.rows,
                    k.me(),
                    info_views(nodes@),
                    now,
                    nodes@.len() as int,
                ),
                vms: merged_vms(
                    k.vms,
                    k.me(),
                    federation::vm_views(vms@),
                    vms@.len() as int,
                ),
                ..k
            }) && r is Done,
            Payload::Goodbye => n == (MeshView {
                rows: membership::left(k.rows, k.me(), env.from@),
                ..k
            }) && r is Done,
            Payload::Request { req_id, target, op } => if target@ != k.me() {
                n == k && r is Done
            } else {
                n == (MeshView {
                    metrics: MeshMetricsSnapshot {
                        rpc_in: k.metrics.rpc_in.wrapping_add(1),
                        ..k.metrics
                    },
                    ..k
                }) && r == (FrameStep::Dispatch { req_id, from: env.from, op })
            },
            Payload::Response { req_id, result } => if k.pending.contains(req_id) {
                n == (MeshView { pending: without(k.pending, req_id), ..k }) && r == (
                FrameStep::Settle { req_id, result })
            } else {
                n == k && r is Done
            },
        }
    }
}

/// A set of numbers without one.
pub open spec fn without(xs: Seq<u64>, x: u64) -> Seq<u64>
    decreases xs.len(),
{
    if xs.len() == 0 {
        xs
    } else if xs.last() == x {
        without(xs.drop_last(), x)
    } else {
        without(xs.drop_last(), x).push(xs.last())
    }
}

/// How a request to a node goes on.
#[derive(Debug)]
pub enum InvokeStep {
    /// Run the operation on the local host.
    Host(VmOp),
    /// Send a frame and wait for the response.
    Send {
        /// Where to.
        addr: String,
        /// Number of the request.
        req_id: u64,
        /// Frame.
        frame: Envelope,
    },
    /// It fails.
    Refused(CelError),
}

/// What [`Mesh::invoke`] does.
pub open spec fn invoked(
    s: MeshView,
    target: Seq<char>,
    op: VmOp,
    has_host: bool,
    n: MeshView,
    r: InvokeStep,
) -> bool {
    if s.me() == target {
        n == s && r == if has_host {
            InvokeStep::Host(op)
        } else {
            InvokeStep::Refused(CelError::Invalid("no VmHost registered"))
        }
    } else if !s.rows.dom().contains(target) {
        n == s && r == InvokeStep::Refused(CelError::Invalid("unknown target node"))
    } else if s.rows[target].info.status == NodeStatus::Dead || s.rows[target].info.status
        == NodeStatus::Left {
        n == s && r == InvokeStep::Refused(CelError::Invalid("target node not Alive"))
    } else {
        &&& n == (MeshView {
            next_req: s.next_req.wrapping_add(1),
            pending: if s.pending.contains(s.next_req) {
                s.pending
            } else {
                s.pending.push(s.next_req)
            },
            ..framed(s, 1)
        })
        &&& r matches InvokeStep::Send { addr, req_id, frame } && {
            &&& addr@ == s.rows[target].info.addr
            &&& req_id == s.next_req
            &&& stamped(s, later(s.hlc), frame)
            &&& frame.payload matches Payload::Request { req_id: q, target: t, op: o } && q
                == req_id && t@ == target && o == op
        }
    }
}

/// What [`Mesh::respond`] does.
pub open spec fn responded(
    s: MeshView,
    from: Seq<char>,
    req_id: u64,
    result: VmOpResult,
    n: MeshView,
    r: Option<(String, Envelope)>,
) -> bool {
    if s.rows.dom().contains(from) {
        &&& n == framed(s, 1)
        &&& r matches Some((addr, frame)) && addr@ == s.rows[from].info.addr && stamped(
            s,
            later(s.hlc),
            frame,
        ) && frame.payload == (Payload::Response { req_id, result })
    } else {
        n == s && r is None
    }
}

/// What [`Mesh::receive`] does.
pub open spec fn received(
    s: MeshView,
    len: usize,
    parsed: Option<Envelope>,
    n: MeshView,
    r: Option<Envelope>,
) -> bool {
    match proto::admitted(len, parsed) {
        Ok(env) => r == Some(env) && n == (MeshView {
            metrics: MeshMetricsSnapshot {
                gossip_recv: s.metrics.gossip_recv.wrapping_add(1),
                ..s.metrics
            },
            ..s
        }),
        Err(_) => r is None && n == (MeshView {
            metrics: MeshMetricsSnapshot {
                decode_errors: s.metrics.decode_errors.wrapping_add(1),
                ..s.metrics
            },
            ..s
        }),
    }
}

/// What [`Mesh::invoke_sent`] does.
pub open spec fn invoke_noted(s: MeshView, req_id: u64, sent: bool) -> MeshView {
    if sent {
        MeshView {
            metrics: MeshMetricsSnapshot { rpc_out: s.metrics.rpc_out.wrapping_add(1), ..s.metrics },
            ..s
        }
    } else {
        MeshView { pending: without(s.pending, req_id), ..s }
    }
}

/// Whether a frame is this node's first contact.
pub open spec fn greets(s: MeshView, env: Envelope) -> bool {
    stamped(s, later(s.hlc), env) && (env.payload matches Payload::Hello { node } && node@
        == own_row(s, later(s.hlc)))
}

/// Whether a frame tells everything that this node knows.
pub open spec fn tells_all(s: MeshView, env: Envelope) -> bool {
    stamped(s, later(s.hlc), env) && (env.payload matches Payload::Sync { nodes, vms }
        && info_views(nodes@) == gossiped(s, later(s.hlc)) && federation::vm_views(vms@)
        == federation::of_owner(federation::ordered(s.vms), s.me()))
}

/// Whether a frame takes leave, and of whom.
pub open spec fn takes_leave(s: MeshView, env: Envelope, peers: Seq<Seq<char>>) -> bool {
    stamped(s, later(s.hlc), env) && env.payload is Goodbye && peers == addrs(
        membership::ordered(s.rows),
        s.me(),
        true,
    )
}

/// How a wait for a response ended.
#[derive(Debug)]
pub enum RpcOutcome {
    /// The response came.
    Reply(VmOpResult),
    /// Nobody can send it any more.
    Dropped,
    /// It took too long.
    TimedOut,
}

/// What [`Mesh::invoke_end`] does.
pub open spec fn invoke_ended(
    s: MeshView,
    req_id: u64,
    outcome: RpcOutcome,
    n: MeshView,
    r: CelResult<VmOpReply>,
) -> bool {
    let failed = MeshView {
        metrics: MeshMetricsSnapshot {
            rpc_errors: s.metrics.rpc_errors.wrapping_add(1),
            ..s.metrics
        },
        ..s
    };
    match outcome {
        RpcOutcome::Reply(VmOpResult::Done(reply)) => n == s && r == Ok::<VmOpReply, CelError>(
            reply,
        ),
        RpcOutcome::Reply(VmOpResult::Failed(why)) => n == failed && (r matches Err(
            CelError::Io(m),
        ) && m@ == "remote host: "@ + why@),
        RpcOutcome::Dropped => n == failed && r == Err::<VmOpReply, CelError>(
            CelError::Internal("response channel dropped"),
        ),
        RpcOutcome::TimedOut => n == (MeshView {
            pending: without(s.pending, req_id),
            metrics: MeshMetricsSnapshot {
                rpc_timeouts: s.metrics.rpc_timeouts.wrapping_add(1),
                ..s.metrics
            },
            ..s
        }) && (r matches Err(CelError::Timeout(m)) && m@ == "mesh rpc"@),
    }
}

/// Whether a list of texts holds one.
fn holds_text(v: &Vec<String>, t: &str) -> (r: bool)
    ensures
        r == text_views(v@).contains(t@),
{
    let ghost all = text_views(v@);
    let mut i: usize = 0;
    while i < v.len()
        invariant
            i <= v@.len(),
            all == text_views(v@),
            forall|j: int| 0 <= j < i ==> #[trigger] all[j] != t@,
        decreases v@.len() - i,
    {
        if str_eq(v[i].as_str(), t) {
            assert(all[i as int] == t@);
            return true;
        }
        i = i + 1;
    }
    false
}

/// Adds an address to a set of addresses.
fn note_addr(known: &mut Vec<String>, addr: &str)
    ensures
        text_views(final(known)@) == with_addr(text_views(old(known)@), addr@),
{
    if !holds_text(known, addr) {
        let ghost before = text_views(known@);
        known.push(addr.to_owned());
        assert(text_views(known@) =~= before.push(addr@));
    }
}

/// Takes a number out of a set of numbers.
fn take_out(xs: &mut Vec<u64>, x: u64)
    ensures
        final(xs)@ == without(old(xs)@, x),
{
    let ghost all = xs@;
    let n: usize = xs.len();
    let mut seen: usize = 0;
    let mut i: usize = 0;
    proof {
        assert(all.take(0) =~= Seq::empty());
        assert(Seq::<u64>::empty() + all.skip(0) =~= all);
    }
    while seen < n
        invariant
            n == all.len(),
            i <= seen <= n,
            i == without(all.take(seen as int), x).len(),
            xs@ == without(all.take(seen as int), x) + all.skip(seen as int),
        decreases n - seen,
    {
        let ghost done = without(all.take(seen as int), x);
        let ghost now = xs@;
        proof {
            assert(now[i as int] == all[seen as int]);
            let t = all.take(seen + 1);
            assert(t.drop_last() =~= all.take(seen as int));
            assert(t.last() == all[seen as int]);
        }
        if xs[i] == x {
            xs.remove(i);
            assert(now.remove(i as int) =~= done + all.skip(seen + 1));
        } else {
            i = i + 1;
            assert(xs@ =~= done.push(all[seen as int]) + all.skip(seen + 1));
        }
        seen = seen + 1;
    }
    proof {
        assert(all.take(seen as int) =~= all);
        assert(xs@ =~= without(all, x));
    }
}

/// Whether a set of numbers holds one.
fn holds_number(xs: &Vec<u64>, x: u64) -> (r: bool)
    ensures
        r == xs@.contains(x),
{
    let mut i: usize = 0;
    while i < xs.len()
        invariant
            i <= xs@.len(),
            forall|j: int| 0 <= j < i ==> xs@[j] != x,
        decreases xs@.len() - i,
    {
        if xs[i] == x {
            return true;
        }
        i = i + 1;
    }
    false
}

/// Picks one entry by a seed.
pub fn pick_one(xs: &Vec<String>, seed: u64) -> (r: Option<String>)
    ensures
        federation::text_view(r) == picked(text_views(xs@), seed),
{
    if xs.len() == 0 {
        return None;
    }
    let i: usize = (seed as usize) % xs.len();
    Some(xs[i].clone())
}

impl Mesh {
    /// Both tables are in order and belong to this node.
    pub open spec fn wf(&self) -> bool {
        &&& self.membership.wf()
        &&& self.federation.wf()
        &&& self.membership.self_id@ == self.config.node_id@
        &&& self.federation.self_id@ == self.config.node_id@
        &&& self.membership.timeout_suspect == self.config.timeout_suspect
        &&& self.membership.timeout_dead == self.config.timeout_dead
        &&& self.membership.cluster@ == self.config.cluster@
    }

    /// An engine that knows only itself and its seeds.
    pub fn start(config: MeshConfig, now: u128) -> (r: Mesh)
        ensures
            r.wf(),
            r@ == started(config, now),
    {
        let row = NodeInfo {
            id: config.node_id.clone(),
            addr: config.advertise_addr.clone(),
            epoch: config.epoch,
            hlc: 0,
            status: NodeStatus::Alive,
        };
        let membership = Membership::new(
            config.cluster.as_str(),
            row,
            config.timeout_suspect,
            config.timeout_dead,
            now,
        );
        let federation = NamespaceFederation::new(config.node_id.clone());
        let mut known: Vec<String> = Vec::new();
        let ghost seeds = text_views(config.seeds@);
        let mut i: usize = 0;
        proof {
            assert(text_views(known@) =~= Seq::empty());
            assert(seeds.take(0) =~= Seq::empty());
        }
        while i < config.seeds.len()
            invariant
                i <= config.seeds@.len(),
                seeds == text_views(config.seeds@),
                text_views(known@) == with_addrs(Seq::empty(), seeds.take(i as int)),
            decreases config.seeds@.len() - i,
        {
            note_addr(&mut known, config.seeds[i].as_str());
            proof {
                let t = seeds.take(i + 1);
                assert(t.drop_last() =~= seeds.take(i as int));
                assert(t.last() == seeds[i as int]);
            }
            i = i + 1;
        }
        assert(seeds.take(i as int) =~= seeds);
        Mesh {
            config,
            membership,
            federation,
            hlc: 0,
            known,
            metrics: MeshMetrics::new(),
            next_req: 1,
            pending: Vec::new(),
        }
    }

    /// This node.
    pub fn self_id(&self) -> (r: NodeId)
        ensures
            r@ == self@.me(),
    {
        self.config.node_id.clone()
    }

    /// Every membership row, in the order of the nodes.
    pub fn members(&self) -> (r: Vec<NodeInfo>)
        requires
            self.wf(),
        ensures
            r@.len() == membership::ordered(self@.rows).len(),
            forall|i: int|
                0 <= i < r@.len() ==> (#[trigger] r@[i])@ == membership::ordered(
                    self@.rows,
                )[i].info,
    {
        proof {
            self.membership.lemma_ordered();
        }
        self.membership.snapshot()
    }

    /// Number of nodes that are alive, this one included.
    pub fn alive_count(&self) -> (r: usize)
        requires
            self.wf(),
        ensures
            r == membership::count_status(
                membership::ordered(self@.rows),
                NodeStatus::Alive,
                membership::ordered(self@.rows).len() as int,
            ),
    {
        proof {
            self.membership.lemma_ordered();
        }
        self.membership.alive_count()
    }

    /// The value of every counter.
    pub fn metrics(&self) -> (r: MeshMetricsSnapshot)
        ensures
            r == self@.metrics,
    {
        self.metrics.snapshot()
    }

    /// The counters in the text format that Prometheus scrapes.
    pub fn metrics_prometheus(&self) -> (r: String)
        ensures
            r@ == metrics::exposition(self@.metrics),
    {
        self.metrics.render_prometheus()
    }

    /// Moves the clock on.
    fn tick_hlc(&mut self) -> (r: u64)
        ensures
            r == later(old(self).hlc),
            *final(self) == (Mesh { hlc: r, ..*old(self) }),
    {
        self.hlc = self.hlc.saturating_add(1);
        self.hlc
    }

    /// This node's own row.
    fn self_row(&self) -> (r: NodeInfo)
        requires
            self.wf(),
        ensures
            r@ == self@.rows[self@.me()].info,
    {
        match self.membership.get(&self.membership.self_id) {
            Some(row) => row.clone(),
            None => {
                assert(false);
                NodeInfo {
                    id: self.config.node_id.clone(),
                    addr: self.config.advertise_addr.clone(),
                    epoch: self.config.epoch,
                    hlc: self.hlc,
                    status: NodeStatus::Alive,
                }
            },
        }
    }

    /// A frame of this node at its current clock.
    fn frame(&self, payload: Payload) -> (r: Envelope)
        ensures
            stamped(self@, self.hlc, r),
            r.payload == payload,
    {
        Envelope::stamped(
            self.config.node_id.as_str(),
            self.config.cluster.as_str(),
            self.hlc,
            payload,
        )
    }

    /// The frame of a first contact.
    pub fn send_hello(&mut self) -> (r: Envelope)
        requires
            old(self).wf(),
        ensures
            final(self).wf(),
            final(self)@ == framed(old(self)@, 1),
            greets(old(self)@, r),
    {
        let hlc: u64 = self.tick_hlc();
        let mut node = self.self_row();
        node.hlc = hlc;
        self.metrics.inc_gossip_sent();
        self.frame(Payload::Hello { node })
    }

    /// The frame that tells everything this node knows.
    pub fn send_sync(&mut self) -> (r: Envelope)
        requires
            old(self).wf(),
        ensures
            final(self).wf(),
            final(self)@ == framed(old(self)@, 1),
            tells_all(old(self)@, r),
    {
        let hlc: u64 = self.tick_hlc();
        let mut row = self.self_row();
        row.hlc = hlc;
        proof {
            self.membership.lemma_ordered();
            self.federation.lemma_ordered();
        }
        let ghost all = membership::ordered(self@.rows);
        let ghost own = row@;
        let rows = self.membership.snapshot();
        let mut nodes: Vec<NodeInfo> = Vec::new();
        let mut i: usize = 0;
        while i < rows.len()
            invariant
                i <= rows@.len(),
                rows@.len() == all.len(),
                forall|j: int| 0 <= j < rows@.len() ==> (#[trigger] rows@[j])@ == all[j].info,
                row@ == own,
                nodes@.len() == i,
                forall|j: int|
                    0 <= j < i ==> (#[trigger] nodes@[j])@ == if all[j].info.id == self@.me() {
                        own
                    } else {
                        all[j].info
                    },
            decreases rows@.len() - i,
        {
            if rows[i].id.same(&self.config.node_id) {
                nodes.push(row.clone());
            } else {
                nodes.push(rows[i].clone());
            }
            i = i + 1;
        }
        assert(info_views(nodes@) =~= gossiped(old(self)@, hlc));
        let vms = self.federation.local_rows();
        self.metrics.inc_gossip_sent();
        self.frame(Payload::Sync { nodes, vms })
    }

    /// The addresses of the other nodes, with or without those that departed.
    fn peer_addrs(&self, departed: bool) -> (r: Vec<String>)
        requires
            self.wf(),
        ensures
            text_views(r@) == addrs(membership::ordered(self@.rows), self@.me(), departed),
    {
        proof {
            self.membership.lemma_ordered();
        }
        let ghost all = membership::ordered(self@.rows);
        let rows = self.membership.snapshot();
        let mut out: Vec<String> = Vec::new();
        let mut i: usize = 0;
        assert(text_views(out@) =~= addrs(all.take(0), self@.me(), departed));
        while i < rows.len()
            invariant
                i <= rows@.len(),
                rows@.len() == all.len(),
                forall|j: int| 0 <= j < rows@.len() ==> (#[trigger] rows@[j])@ == all[j].info,
                text_views(out@) == addrs(all.take(i as int), self@.me(), departed),
            decreases rows@.len() - i,
        {
            let ghost before = text_views(out@);
            proof {
                let t = all.take(i + 1);
                assert(t.drop_last() =~= all.take(i as int));
                assert(t.last() == all[i as int]);
            }
            if !rows[i].id.same(&self.config.node_id) && (departed || rows[i].status
                != NodeStatus::Left) {
                out.push(rows[i].addr.clone());
                assert(text_views(out@) =~= before.push(all[i as int].info.addr));
            }
            i = i + 1;
        }
        assert(all.take(i as int) =~= all);
        out
    }

    /// The frame of a departure, and whom to send it to.
    pub fn shutdown(&mut self) -> (r: (Envelope, Vec<String>))
        requires
            old(self).wf(),
        ensures
            final(self).wf(),
            final(self)@ == framed(old(self)@, r.1@.len() as u64),
            takes_leave(old(self)@, r.0, text_views(r.1@)),
    {
        self.tick_hlc();
        let env = self.frame(Payload::Goodbye);
        let peers = self.peer_addrs(true);
        self.metrics.count_gossip_sent(peers.len() as u64);
        (env, peers)
    }

    /// Adds a seed. Whoever runs the engine sends it the frame of a first
    /// contact.
    pub fn join(&mut self, addr: &str)
        ensures
            old(self).wf() ==> final(self).wf(),
            final(self)@ == introduced(old(self)@, addr@),
    {
        note_addr(&mut self.known, addr);
        self.metrics.inc_join_calls();
    }

    /// Replaces this node's VMs. Gives the peers to whom the news is to be
    /// sent.
    pub fn publish_local_vms(&mut self, rows: Vec<RemoteVm>, now: u128) -> (r: Vec<String>)
        requires
            old(self).wf(),
        ensures
            final(self).wf(),
            final(self)@ == published(old(self)@, federation::vm_views(rows@), now),
            text_views(r@) == addrs(
                membership::ordered(final(self)@.rows),
                old(self)@.me(),
                false,
            ),
    {
        let ghost first = self@;
        let hlc: u64 = self.tick_hlc();
        let ghost given = federation::vm_views(rows@);
        let mut mine: Vec<RemoteVm> = Vec::new();
        let mut i: usize = 0;
        while i < rows.len()
            invariant
                i <= rows@.len(),
                given == federation::vm_views(rows@),
                first.config == self.config,
                mine@.len() == i,
                forall|j: int|
                    0 <= j < i ==> (#[trigger] mine@[j])@ == restamped(given[j], first, hlc),
            decreases rows@.len() - i,
        {
            let mut row = rows[i].clone();
            row.owner = self.config.node_id.clone();
            row.epoch = self.config.epoch;
            row.hlc = hlc;
            row.owner_alive = true;
            assert(row@ == restamped(given[i as int], first, hlc));
            mine.push(row);
            i = i + 1;
        }
        assert(federation::vm_views(mine@) =~= Seq::new(
            given.len(),
            |i: int| restamped(given[i], first, hlc),
        ));
        self.federation.set_local(mine);
        self.membership.bump_self(hlc, now);
        self.peer_addrs(false)
    }

    /// The federated VMs in order, each with whether its owner is alive.
    pub fn list_vms(&mut self) -> (r: Vec<RemoteVm>)
        requires
            old(self).wf(),
        ensures
            final(self).wf(),
            final(self)@ == with_liveness(old(self)@),
            federation::vm_views(r@) == federation::ordered(final(self)@.vms),
    {
        let ghost s = self@;
        let ghost before = self.federation;
        let members = &self.membership;
        let alive_of = |id: &NodeId| -> (b: bool)
            ensures
                b == is_alive(members@, id@),
            {
                match members.get(id) {
                    Some(row) => row.status == NodeStatus::Alive,
                    None => false,
                }
            };
        self.federation.refresh_alive(alive_of);
        proof {
            let alive = |id: Seq<char>| s.alive(id);
            let want = Seq::new(
                before.listing().len(),
                |i: int|
                    RemoteVmView {
                        owner_alive: before.listing()[i].owner == s.me() || alive(
                            before.listing()[i].owner,
                        ),
                        ..before.listing()[i]
                    },
            );
            assert forall|i: int| 0 <= i < before.listing().len() implies
                #[trigger] self.federation.listing()[i] == want[i] by {
                let b = before.listing()[i];
            }
            assert(self.federation.listing() =~= want);
            federation::lemma_refreshed(before, self.federation, s.me(), alive);
            self.federation.lemma_ordered();
        }
        self.federation.list()
    }

    /// The VMs that wait for the supervisor.
    pub fn orphaned_vms(&mut self) -> (r: Vec<RemoteVm>)
        requires
            old(self).wf(),
        ensures
            final(self).wf(),
            final(self)@ == with_liveness(old(self)@),
            federation::vm_views(r@) == orphans(federation::ordered(final(self)@.vms)),
    {
        let rows = self.list_vms();
        let ghost all = federation::ordered(self@.vms);
        let mut out: Vec<RemoteVm> = Vec::new();
        let mut i: usize = 0;
        assert(federation::vm_views(out@) =~= orphans(all.take(0)));
        while i < rows.len()
            invariant
                i <= rows@.len(),
                all == federation::vm_views(rows@),
                federation::vm_views(out@) == orphans(all.take(i as int)),
            decreases rows@.len() - i,
        {
            let ghost before = federation::vm_views(out@);
            proof {
                let t = all.take(i + 1);
                assert(t.drop_last() =~= all.take(i as int));
                assert(t.last() == all[i as int]);
            }
            if !rows[i].owner_alive && rows[i].restart_policy == RestartPolicy::Always {
                out.push(rows[i].clone());
                assert(federation::vm_views(out@) =~= before.push(all[i as int]));
            }
            i = i + 1;
        }
        assert(all.take(i as int) =~= all);
        out
    }

    /// Whether this node is the supervisor.
    pub fn is_supervisor(&self) -> (r: bool)
        requires
            self.wf(),
        ensures
            r == supervises(membership::ordered(self@.rows), self@.me()),
    {
        proof {
            self.membership.lemma_ordered();
            self.membership.lemma_listing();
        }
        let ghost all = membership::ordered(self@.rows);
        let rows = self.membership.snapshot();
        let mut i: usize = 0;
        while i < rows.len()
            invariant
                i <= rows@.len(),
                all == membership::ordered(self@.rows),
                rows@.len() == all.len(),
                forall|j: int| 0 <= j < rows@.len() ==> (#[trigger] rows@[j])@ == all[j].info,
                forall|j: int|
                    0 <= j < i ==> (#[trigger] all[j]).info.status != NodeStatus::Alive,
            decreases rows@.len() - i,
        {
            if rows[i].status == NodeStatus::Alive {
                let r = rows[i].id.same(&self.config.node_id);
                proof {
                    assert(all[i as int].info == rows@[i as int]@);
                    if supervises(all, self@.me()) {
                        let k = choose|k: int|
                            {
                                &&& 0 <= k < all.len()
                                &&& (#[trigger] all[k]).info.id == self@.me()
                                &&& all[k].info.status == NodeStatus::Alive
                                &&& forall|j: int|
                                    0 <= j < k ==> (#[trigger] all[j]).info.status
                                        != NodeStatus::Alive
                            };
                        assert(k == i);
                    }
                }
                return r;
            }
            assert(all[i as int].info == rows@[i as int]@);
            i = i + 1;
        }
        false
    }

    /// One round of the gossip timer: runs the failure detector and picks the
    /// peer to whom everything is to be told.
    pub fn gossip_tick(&mut self, now: u128) -> (r: Option<String>)
        requires
            old(self).wf(),
        ensures
            final(self).wf(),
            final(self)@ == gossip_round(old(self)@, now).0,
            federation::text_view(r) == gossip_round(old(self)@, now).1,
    {
        let ghost s = self@;
        let ghost before = self.membership;
        let delta = self.membership.tick(now);
        proof {
            before.lemma_ordered();
            self.membership.lemma_ordered();
            membership::lemma_swept(
                before,
                self.membership,
                s.me(),
                now,
                s.config.timeout_suspect,
                s.config.timeout_dead,
            );
        }
        self.metrics.inc_suspect_promotions(delta.suspect_promotions as u64);
        self.metrics.inc_dead_promotions(delta.dead_promotions as u64);
        let mut all = self.peer_addrs(false);
        let ghost peers = text_views(all@);
        let ghost known = text_views(self.known@);
        let mut i: usize = 0;
        assert(peers + known.take(0) =~= peers);
        while i < self.known.len()
            invariant
                i <= self.known@.len(),
                known == text_views(self.known@),
                text_views(all@) == peers + known.take(i as int),
            decreases self.known@.len() - i,
        {
            let ghost was = text_views(all@);
            all.push(self.known[i].clone());
            proof {
                assert(text_views(all@) =~= was.push(known[i as int]));
                assert(known.take(i + 1) =~= known.take(i as int).push(known[i as int]));
                assert(text_views(all@) =~= peers + known.take(i + 1));
            }
            i = i + 1;
        }
        assert(known.take(i as int) =~= known);
        pick_one(&all, self.config.epoch.wrapping_add(self.hlc))
    }

    /// Takes in a frame of `len` bytes that parsed as `parsed`.
    pub fn receive(&mut self, len: usize, parsed: Option<Envelope>) -> (r: Option<Envelope>)
        ensures
            old(self).wf() ==> final(self).wf(),
            received(old(self)@, len, parsed, final(self)@, r),
    {
        match Envelope::decode(len, parsed) {
            Ok(env) => {
                self.metrics.inc_gossip_recv();
                Some(env)
            },
            Err(_) => {
                self.metrics.inc_decode_errors();
                None
            },
        }
    }

    /// Merges a list of membership rows.
    fn merge_nodes(&mut self, nodes: Vec<NodeInfo>, now: u128)
        requires
            old(self).wf(),
        ensures
            final(self).wf(),
            final(self)@ == (MeshView {
                rows: merged_rows(
                    old(self)@.rows,
                    old(self)@.me(),
                    info_views(nodes@),
                    now,
                    nodes@.len() as int,
                ),
                ..old(self)@
            }),
    {
        let ghost s = self@;
        let mut i: usize = 0;
        while i < nodes.len()
            invariant
                i <= nodes@.len(),
                self.wf(),
                self@ == (MeshView {
                    rows: merged_rows(s.rows, s.me(), info_views(nodes@), now, i as int),
                    ..s
                }),
            decreases nodes@.len() - i,
        {
            self.membership.merge(nodes[i].clone(), now);
            i = i + 1;
        }
    }

    /// Merges a list of VMs.
    fn merge_vms(&mut self, vms: Vec<RemoteVm>)
        requires
            old(self).wf(),
        ensures
            final(self).wf(),
            final(self)@ == (MeshView {
                vms: merged_vms(
                    old(self)@.vms,
                    old(self)@.me(),
                    federation::vm_views(vms@),
                    vms@.len() as int,
                ),
                ..old(self)@
            }),
    {
        let ghost s = self@;
        let mut i: usize = 0;
        while i < vms.len()
            invariant
                i <= vms@.len(),
                self.wf(),
                self@ == (MeshView {
                    vms: merged_vms(s.vms, s.me(), federation::vm_views(vms@), i as int),
                    ..s
                }),
            decreases vms@.len() - i,
        {
            self.federation.merge(vms[i].clone());
            i = i + 1;
        }
    }

    /// Acts on a frame that came from the address `src`.
    pub fn handle_envelope(&mut self, env: Envelope, src: &str, now: u128) -> (r: FrameStep)
        requires
            old(self).wf(),
        ensures
            final(self).wf(),
            handled(old(self)@, env, src@, now, final(self)@, r),
    {
        if !str_eq(env.cluster.as_str(), self.config.cluster.as_str()) {
            self.metrics.inc_foreign_cluster_drops();
            return FrameStep::Done;
        }
        note_addr(&mut self.known, src);
        match env.payload {
            Payload::Hello { node } => {
                self.membership.merge(node, now);
                FrameStep::Done
            },
            Payload::Sync { nodes, vms } => {
                self.merge_nodes(nodes, now);
                self.merge_vms(vms);
                FrameStep::Done
            },
            Payload::Goodbye => {
                self.membership.mark_left(&NodeId(env.from));
                FrameStep::Done
            },
            Payload::Request { req_id, target, op } => {
                if !str_eq(target.as_str(), self.config.node_id.as_str()) {
                    return FrameStep::Done;
                }
                self.metrics.inc_rpc_in();
                FrameStep::Dispatch { req_id, from: env.from, op }
            },
            Payload::Response { req_id, result } => {
                if holds_number(&self.pending, req_id) {
                    take_out(&mut self.pending, req_id);
                    FrameStep::Settle { req_id, result }
                } else {
                    FrameStep::Done
                }
            },
        }
    }

    /// The response to a request, and where to send it. Nobody answers a node
    /// that this one does not know.
    pub fn respond(&mut self, from: &str, req_id: u64, result: VmOpResult) -> (r: Option<
        (String, Envelope),
    >)
        requires
            old(self).wf(),
        ensures
            final(self).wf(),
            responded(old(self)@, from@, req_id, result, final(self)@, r),
    {
        let addr = match self.membership.get(&NodeId::named(from)) {
            Some(row) => row.addr.clone(),
            None => {
                return None;
            },
        };
        self.tick_hlc();
        self.metrics.inc_gossip_sent();
        let frame = self.frame(Payload::Response { req_id, result });
        Some((addr, frame))
    }

    /// Takes up an operation for a node.
    pub fn invoke(&mut self, target: &NodeId, op: VmOp, has_host: bool) -> (r: InvokeStep)
        requires
            old(self).wf(),
        ensures
            final(self).wf(),
            invoked(old(self)@, target@, op, has_host, final(self)@, r),
    {
        if self.config.node_id.same(target) {
            if !has_host {
                return InvokeStep::Refused(CelError::Invalid("no VmHost registered"));
            }
            return InvokeStep::Host(op);
        }
        let addr = match self.membership.get(target) {
            None => {
                return InvokeStep::Refused(CelError::Invalid("unknown target node"));
            },
            Some(row) => {
                if row.status == NodeStatus::Dead || row.status == NodeStatus::Left {
                    return InvokeStep::Refused(CelError::Invalid("target node not Alive"));
                }
                row.addr.clone()
            },
        };
        let req_id: u64 = self.next_req;
        self.next_req = self.next_req.wrapping_add(1);
        if !holds_number(&self.pending, req_id) {
            self.pending.push(req_id);
        }
        self.tick_hlc();
        self.metrics.inc_gossip_sent();
        let frame = self.frame(
            Payload::Request { req_id, target: target.0.clone(), op },
        );
        InvokeStep::Send { addr, req_id, frame }
    }

    /// Notes whether the frame of a request went out: only then was a request
    /// issued.
    pub fn invoke_sent(&mut self, req_id: u64, sent: bool)
        ensures
            old(self).wf() ==> final(self).wf(),
            final(self)@ == invoke_noted(old(self)@, req_id, sent),
    {
        if sent {
            self.metrics.inc_rpc_out();
        } else {
            take_out(&mut self.pending, req_id);
        }
    }

    /// Turns the end of a wait into the result of an operation.
    pub fn invoke_end(&mut self, req_id: u64, outcome: RpcOutcome) -> (r: CelResult<VmOpReply>)
        ensures
            old(self).wf() ==> final(self).wf(),
            invoke_ended(old(self)@, req_id, outcome, final(self)@, r),
    {
        match outcome {
            RpcOutcome::Reply(VmOpResult::Done(reply)) => Ok(reply),
            RpcOutcome::Reply(VmOpResult::Failed(why)) => {
                self.metrics.inc_rpc_errors();
                Err(CelError::Io(concat("remote host: ", why.as_str())))
            },
            RpcOutcome::Dropped => {
                self.metrics.inc_rpc_errors();
                Err(CelError::Internal("response channel dropped"))
            },
            RpcOutcome::TimedOut => {
                take_out(&mut self.pending, req_id);
                self.metrics.inc_rpc_timeouts();
                Err(CelError::Timeout("mesh rpc".to_owned()))
            },
        }
    }
}

/// Whether a node tells its peers about its VMs once its host has answered: only
/// if the host did what was asked.
pub fn republishes(r: &HostResult) -> (q: bool)
    ensures
        q == (*r is Ok),
{
    r.is_ok()
}

/// The result of an operation that ran on the local host.
pub fn local_result(r: HostResult) -> (q: CelResult<VmOpReply>)
    ensures
        match r {
            Ok(reply) => q == Ok::<VmOpReply, CelError>(reply),
            Err(why) => q matches Err(CelError::Io(m)) && m@ == "host: "@ + why@,
        },
{
    match r {
        Ok(reply) => Ok(reply),
        Err(why) => Err(CelError::Io(concat("host: ", why.as_str()))),
    }
}

/// Whether `q` is what a node answers to a request: its host's result, or that it
/// has none.
pub open spec fn answers(r: Option<HostResult>, q: VmOpResult) -> bool {
    match r {
        None => q matches VmOpResult::Failed(m) && m@ == "no VmHost registered"@,
        Some(Ok(reply)) => q == VmOpResult::Done(reply),
        Some(Err(why)) => q == VmOpResult::Failed(why),
    }
}

/// See [`answers`].
pub fn response_of(r: Option<HostResult>) -> (q: VmOpResult)
    ensures
        answers(r, q),
{
    match r {
        None => VmOpResult::Failed("no VmHost registered".to_owned()),
        Some(Ok(reply)) => VmOpResult::Done(reply),
        Some(Err(why)) => VmOpResult::Failed(why),
    }
}

/// A first contact introduces the sender: the receiver has a row for it, heard
/// just now, which is the sender's own unless the receiver knows a newer one.
pub proof fn law_hello_introduces(
    a: MeshView,
    env: Envelope,
    b: MeshView,
    src: Seq<char>,
    now: u128,
    n: MeshView,
    r: FrameStep,
)
    requires
        a.rows.dom().contains(a.me()),
        a.rows[a.me()].info.id == a.me(),
        stamped(a, later(a.hlc), env),
        env.payload matches Payload::Hello { node } && node@ == own_row(a, later(a.hlc)),
        a.config.cluster@ == b.config.cluster@,
        a.me() != b.me(),
        handled(b, env, src, now, n, r),
    ensures
        n.rows.dom().contains(a.me()),
        n.rows[a.me()].last_seen == now,
        !b.rows.dom().contains(a.me()) || membership::newer(
            own_row(a, later(a.hlc)),
            b.rows[a.me()].info,
        ) ==> n.rows[a.me()].info == own_row(a, later(a.hlc)),
        n.known.contains(src),
{
    lemma_with_addr(b.known, src);
}

/// An address that was added is there.
proof fn lemma_with_addr(known: Seq<Seq<char>>, addr: Seq<char>)
    ensures
        with_addr(known, addr).contains(addr),
{
    if !known.contains(addr) {
        assert(known.push(addr)[known.len() as int] == addr);
    }
}

/// Merging a list of VMs leaves alone what the list does not name, and takes
/// each of its rows that is newer than what was known.
proof fn lemma_merged_vms(vms: Vms, me: Seq<char>, more: Seq<RemoteVmView>, n: int)
    requires
        0 <= n <= more.len(),
        forall|i: int, j: int|
            0 <= i < j < more.len() ==> (#[trigger] more[i]).key() != (#[trigger] more[j]).key(),
    ensures
        forall|k: (Seq<char>, u32)|
            (forall|i: int| 0 <= i < n ==> (#[trigger] more[i]).key() != k) ==> (
            #[trigger] merged_vms(vms, me, more, n).dom().contains(k) == vms.dom().contains(k))
                && merged_vms(vms, me, more, n)[k] == vms[k],
        forall|i: int|
            0 <= i < n && more[i].owner != me && !(vms.dom().contains((#[trigger] more[i]).key())
                && federation::at_least_as_new(vms[more[i].key()], more[i])) ==> merged_vms(
                vms,
                me,
                more,
                n,
            ).dom().contains(more[i].key()) && merged_vms(vms, me, more, n)[more[i].key()] == (
            RemoteVmView { owner_alive: true, ..more[i] }),
    decreases n,
{
    if n > 0 {
        lemma_merged_vms(vms, me, more, n - 1);
        let p = merged_vms(vms, me, more, n - 1);
        let x = more[n - 1];
        assert(p.dom().contains(x.key()) == vms.dom().contains(x.key()) && p[x.key()]
            == vms[x.key()]) by {
            assert forall|i: int| 0 <= i < n - 1 implies (#[trigger] more[i]).key() != x.key() by {
                assert(more[i].key() != more[n - 1].key());
            }
        }
        assert forall|i: int|
            0 <= i < n && more[i].owner != me && !(vms.dom().contains((#[trigger] more[i]).key())
                && federation::at_least_as_new(vms[more[i].key()], more[i])) implies merged_vms(
            vms,
            me,
            more,
            n,
        ).dom().contains(more[i].key()) && merged_vms(vms, me, more, n)[more[i].key()] == (
        RemoteVmView { owner_alive: true, ..more[i] }) by {
            if i < n - 1 {
                assert(more[i].key() != more[n - 1].key());
            }
        }
        assert forall|k: (Seq<char>, u32)|
            (forall|i: int| 0 <= i < n ==> (#[trigger] more[i]).key() != k) implies (
        #[trigger] merged_vms(vms, me, more, n).dom().contains(k) == vms.dom().contains(k))
            && merged_vms(vms, me, more, n)[k] == vms[k] by {
            assert(more[n - 1].key() != k);
            assert(forall|i: int| 0 <= i < n - 1 ==> (#[trigger] more[i]).key() != k);
            assert(p.dom().contains(k) == vms.dom().contains(k));
        }
    }
}

/// A VM that a node publishes is visible on whoever takes in the node's news,
/// unless something at least as new is known there; its owner counts as alive.
pub proof fn law_published_vms_are_visible(
    b: MeshView,
    env: Envelope,
    src: Seq<char>,
    now: u128,
    n: MeshView,
    r: FrameStep,
    i: int,
)
    requires
        env.cluster@ == b.config.cluster@,
        handled(b, env, src, now, n, r),
        env.payload is Sync,
        ({
            let sent = federation::vm_views(env.payload->Sync_vms@);
            &&& 0 <= i < sent.len()
            &&& forall|x: int, y: int|
                0 <= x < y < sent.len() ==> (#[trigger] sent[x]).key() != (#[trigger] sent[y]).key()
            &&& sent[i].owner != b.me()
            &&& !(b.vms.dom().contains(sent[i].key()) && federation::at_least_as_new(
                b.vms[sent[i].key()],
                sent[i],
            ))
        }),
    ensures
        ({
            let sent = federation::vm_views(env.payload->Sync_vms@);
            n.vms.dom().contains(sent[i].key()) && n.vms[sent[i].key()] == (RemoteVmView {
                owner_alive: true,
                ..sent[i]
            })
        }),
{
    let sent = federation::vm_views(env.payload->Sync_vms@);
    lemma_merged_vms(b.vms, b.me(), sent, sent.len() as int);
    assert(sent[i].key() == sent[i].key());
}

/// Merging rows never trades a row for an older one, and whatever is merged is
/// known afterwards, or something newer is.
proof fn lemma_rows_grow(rows: Rows, me: Seq<char>, more: Seq<NodeInfoView>, now: u128, n: int)
    requires
        0 <= n <= more.len(),
    ensures
        forall|id: Seq<char>| #[trigger]
            rows.dom().contains(id) ==> merged_rows(rows, me, more, now, n).dom().contains(id)
                && !membership::newer(
                rows[id].info,
                merged_rows(rows, me, more, now, n)[id].info,
            ),
        forall|i: int|
            0 <= i < n && (#[trigger] more[i]).id != me ==> merged_rows(
                rows,
                me,
                more,
                now,
                n,
            ).dom().contains(more[i].id) && !membership::newer(
                more[i],
                merged_rows(rows, me, more, now, n)[more[i].id].info,
            ),
    decreases n,
{
    if n > 0 {
        lemma_rows_grow(rows, me, more, now, n - 1);
        let p = merged_rows(rows, me, more, now, n - 1);
        let q = merged_rows(rows, me, more, now, n);
        assert(forall|id: Seq<char>| #[trigger]
            p.dom().contains(id) ==> q.dom().contains(id) && !membership::newer(
                p[id].info,
                q[id].info,
            ));
        assert forall|id: Seq<char>| #[trigger] rows.dom().contains(id) implies q.dom().contains(id)
            && !membership::newer(rows[id].info, q[id].info) by {
            assert(p.dom().contains(id));
        }
        assert forall|i: int| 0 <= i < n && (#[trigger] more[i]).id != me implies q.dom().contains(
            more[i].id,
        ) && !membership::newer(more[i], q[more[i].id].info) by {
            if i < n - 1 {
                assert(p.dom().contains(more[i].id));
            }
        }
    }
}

/// Merging VMs never trades a row for an older one, and whatever is merged is
/// known afterwards, or something at least as new is.
proof fn lemma_vms_grow(vms: Vms, me: Seq<char>, more: Seq<RemoteVmView>, n: int)
    requires
        0 <= n <= more.len(),
    ensures
        forall|k: (Seq<char>, u32)| #[trigger]
            vms.dom().contains(k) ==> merged_vms(vms, me, more, n).dom().contains(k)
                && federation::at_least_as_new(merged_vms(vms, me, more, n)[k], vms[k]),
        forall|i: int|
            0 <= i < n && (#[trigger] more[i]).owner != me ==> merged_vms(
                vms,
                me,
                more,
                n,
            ).dom().contains(more[i].key()) && federation::at_least_as_new(
                merged_vms(vms, me, more, n)[more[i].key()],
                more[i],
            ),
    decreases n,
{
    if n > 0 {
        lemma_vms_grow(vms, me, more, n - 1);
        let p = merged_vms(vms, me, more, n - 1);
        let q = merged_vms(vms, me, more, n);
        assert(forall|k: (Seq<char>, u32)| #[trigger]
            p.dom().contains(k) ==> q.dom().contains(k) && federation::at_least_as_new(
                q[k],
                p[k],
            ));
        assert forall|k: (Seq<char>, u32)| #[trigger] vms.dom().contains(k) implies q.dom().contains(
            k,
        ) && federation::at_least_as_new(q[k], vms[k]) by {
            assert(p.dom().contains(k));
        }
        assert forall|i: int| 0 <= i < n && (#[trigger] more[i]).owner
            != me implies q.dom().contains(more[i].key()) && federation::at_least_as_new(
            q[more[i].key()],
            more[i],
        ) by {
            if i < n - 1 {
                assert(p.dom().contains(more[i].key()));
            }
        }
    }
}

/// No frame makes this node forget a node or a VM, or trade what it knows of
/// one for something older.
pub proof fn law_knowledge_only_grows(
    s: MeshView,
    env: Envelope,
    src: Seq<char>,
    now: u128,
    n: MeshView,
    r: FrameStep,
    id: Seq<char>,
    k: (Seq<char>, u32),
)
    requires
        handled(s, env, src, now, n, r),
    ensures
        s.rows.dom().contains(id) ==> n.rows.dom().contains(id) && !membership::newer(
            s.rows[id].info,
            n.rows[id].info,
        ),
        s.vms.dom().contains(k) ==> n.vms.dom().contains(k) && federation::at_least_as_new(
            n.vms[k],
            s.vms[k],
        ),
{
    if env.cluster@ == s.config.cluster@ {
        if let Payload::Sync { nodes, vms } = env.payload {
            lemma_rows_grow(s.rows, s.me(), info_views(nodes@), now, nodes@.len() as int);
            lemma_vms_grow(s.vms, s.me(), federation::vm_views(vms@), vms@.len() as int);
        }
    }
}

/// Gossip spreads: whoever takes in a node's news knows of every node and VM in
/// it at least what the sender knew, itself and its own VMs aside.
pub proof fn law_news_spreads(
    b: MeshView,
    env: Envelope,
    src: Seq<char>,
    now: u128,
    n: MeshView,
    r: FrameStep,
    i: int,
    j: int,
)
    requires
        env.cluster@ == b.config.cluster@,
        env.payload is Sync,
        handled(b, env, src, now, n, r),
    ensures
        ({
            let sent = info_views(env.payload->Sync_nodes@);
            0 <= i < sent.len() && sent[i].id != b.me() ==> n.rows.dom().contains(sent[i].id)
                && !membership::newer(sent[i], n.rows[sent[i].id].info)
        }),
        ({
            let sent = federation::vm_views(env.payload->Sync_vms@);
            0 <= j < sent.len() && sent[j].owner != b.me() ==> n.vms.dom().contains(sent[j].key())
                && federation::at_least_as_new(n.vms[sent[j].key()], sent[j])
        }),
{
    let nodes = info_views(env.payload->Sync_nodes@);
    let vms = federation::vm_views(env.payload->Sync_vms@);
    lemma_rows_grow(b.rows, b.me(), nodes, now, nodes.len() as int);
    lemma_vms_grow(b.vms, b.me(), vms, vms.len() as int);
}

/// No frame changes what this node says of itself, or the VMs that it owns.
pub proof fn law_frames_spare_this_node(
    s: MeshView,
    env: Envelope,
    src: Seq<char>,
    now: u128,
    n: MeshView,
    r: FrameStep,
    vm: u32,
)
    requires
        s.rows.dom().contains(s.me()),
        handled(s, env, src, now, n, r),
    ensures
        n.config == s.config,
        n.hlc == s.hlc,
        n.rows.dom().contains(s.me()),
        n.rows[s.me()] == s.rows[s.me()],
        n.vms.dom().contains((s.me(), vm)) == s.vms.dom().contains((s.me(), vm)),
        n.vms[(s.me(), vm)] == s.vms[(s.me(), vm)],
{
    if env.cluster@ == s.config.cluster@ {
        if let Payload::Sync { nodes, vms } = env.payload {
            lemma_rows_spare(s.rows, s.me(), info_views(nodes@), now, nodes@.len() as int);
            lemma_vms_spare(s.vms, s.me(), federation::vm_views(vms@), vms@.len() as int, vm);
        }
    }
}

proof fn lemma_rows_spare(rows: Rows, me: Seq<char>, more: Seq<NodeInfoView>, now: u128, n: int)
    requires
        rows.dom().contains(me),
    ensures
        merged_rows(rows, me, more, now, n).dom().contains(me),
        merged_rows(rows, me, more, now, n)[me] == rows[me],
    decreases n,
{
    if n > 0 {
        lemma_rows_spare(rows, me, more, now, n - 1);
    }
}

proof fn lemma_vms_spare(vms: Vms, me: Seq<char>, more: Seq<RemoteVmView>, n: int, vm: u32)
    ensures
        merged_vms(vms, me, more, n).dom().contains((me, vm)) == vms.dom().contains((me, vm)),
        merged_vms(vms, me, more, n)[(me, vm)] == vms[(me, vm)],
    decreases n,
{
    if n > 0 {
        lemma_vms_spare(vms, me, more, n - 1, vm);
    }
}

/// What is taken out of a set of numbers is no longer in it, and nothing else
/// leaves.
proof fn lemma_without(xs: Seq<u64>, x: u64)
    ensures
        !without(xs, x).contains(x),
        forall|y: u64| y != x ==> #[trigger] without(xs, x).contains(y) == xs.contains(y),
    decreases xs.len(),
{
    if xs.len() > 0 {
        let p = xs.drop_last();
        lemma_without(p, x);
        let w = without(p, x);
        assert(xs =~= p.push(xs.last()));
        assert forall|y: u64| xs.contains(y) == (p.contains(y) || y == xs.last()) by {
            if p.contains(y) {
                let i = choose|i: int| 0 <= i < p.len() && p[i] == y;
                assert(xs[i] == y);
            }
            if xs.contains(y) {
                let i = choose|i: int| 0 <= i < xs.len() && xs[i] == y;
                if i < p.len() {
                    assert(p[i] == y);
                }
            }
            assert(xs[xs.len() - 1] == xs.last());
        }
        if xs.last() != x {
            let q = w.push(xs.last());
            assert forall|y: u64| q.contains(y) == (w.contains(y) || y == xs.last()) by {
                if w.contains(y) {
                    let i = choose|i: int| 0 <= i < w.len() && w[i] == y;
                    assert(q[i] == y);
                }
                if q.contains(y) {
                    let i = choose|i: int| 0 <= i < q.len() && q[i] == y;
                    if i < w.len() {
                        assert(w[i] == y);
                    }
                }
                assert(q[w.len() as int] == xs.last());
            }
        }
    } else {
        assert(!xs.contains(x));
    }
}

/// A request waits for its response, the first response settles it, and no
/// response settles it again.
pub proof fn law_request_settles_once(
    s: MeshView,
    target: Seq<char>,
    op: VmOp,
    n: MeshView,
    step: InvokeStep,
    env: Envelope,
    src: Seq<char>,
    now: u128,
    m: MeshView,
    r: FrameStep,
    again: Envelope,
    l: MeshView,
    q: FrameStep,
)
    requires
        invoked(s, target, op, true, n, step),
        step is Send,
        env.cluster@ == s.config.cluster@,
        env.payload matches Payload::Response { req_id, .. } && req_id == step->req_id,
        handled(n, env, src, now, m, r),
        again.cluster@ == s.config.cluster@,
        again.payload matches Payload::Response { req_id, .. } && req_id == step->req_id,
        handled(m, again, src, now, l, q),
    ensures
        n.pending.contains(step->req_id),
        r matches FrameStep::Settle { req_id, .. } && req_id == step->req_id,
        q is Done,
{
    let id = step->req_id;
    if !s.pending.contains(id) {
        assert(n.pending[s.pending.len() as int] == id);
    }
    lemma_without(n.pending, id);
}

/// Rows outlive their owners: a VM whose owner is gone stays listed as it was
/// last known, marked as without a living owner.
pub proof fn law_rows_outlive_their_owners(s: MeshView, k: (Seq<char>, u32))
    requires
        s.vms.dom().contains(k),
        s.vms[k].owner != s.me(),
        !s.alive(s.vms[k].owner),
    ensures
        with_liveness(s).vms.dom().contains(k),
        with_liveness(s).vms[k] == (RemoteVmView { owner_alive: false, ..s.vms[k] }),
        with_liveness(s).vms.dom() == s.vms.dom(),
{
    assert(with_liveness(s).vms.dom() =~= s.vms.dom());
}

/// A node gossips with someone whenever it knows anyone, and only with those
/// it knows.
pub proof fn law_gossip_finds_someone(s: MeshView, now: u128)
    ensures
        match gossip_round(s, now).1 {
            Some(peer) => candidates(gossip_round(s, now).0).contains(peer),
            None => candidates(gossip_round(s, now).0).len() == 0,
        },
{
    let xs = candidates(gossip_round(s, now).0);
    let seed = s.config.epoch.wrapping_add(s.hlc);
    if xs.len() > 0 {
        let i = (seed as usize) as int % xs.len() as int;
        assert(0 <= i < xs.len());
        assert(xs[i] == xs[i]);
    }
}

/// By default a node gossips twenty times a second, is suspected after ten silent
/// rounds and given up after thirty, and begins in its first epoch, alone and
/// alive, with no supervisor.
pub proof fn law_defaults(node_id: Seq<char>, addr: Seq<char>, r: MeshConfig, now: u128)
    requires
        is_default(node_id, addr, r),
    ensures
        20 * r.gossip_interval == 1_000_000_000,
        r.timeout_suspect == 10 * r.gossip_interval,
        r.timeout_dead == 30 * r.gossip_interval,
        r.epoch == 1,
        r.supervisor_interval == 0,
        r.cluster@ == "celium"@,
        r.node_id@ == node_id,
        r.advertise_addr@ == addr,
        ({
            let s = started(r, now);
            &&& forall|id: Seq<char>| #[trigger] s.rows.dom().contains(id) <==> id == node_id
            &&& s.rows[node_id].info.status == NodeStatus::Alive
            &&& s.rows[node_id].info.addr == addr
            &&& s.rows[node_id].info.epoch == 1
            &&& s.rows[node_id].last_seen == now
            &&& s.known.len() == 0
            &&& s.vms.dom().is_empty()
            &&& s.pending.len() == 0
        }),
{
}

} // verus!
