//! The mesh: membership, federation, frames, requests and administration.

use celium::error::CelError;
use celium::mesh::admin::{path_in, read_request_path, response_head, route, RequestStep};
use celium::mesh::capabilities::Capabilities;
use celium::mesh::engine::{
    local_result, pick_one, republishes, response_of, FrameStep, InvokeStep, Mesh, MeshConfig, RpcOutcome,
};
use celium::mesh::federation::{NamespaceFederation, RemoteVm, RestartPolicy};
use celium::mesh::host::{HostStep, MemVmHost};
use celium::mesh::k8s::{K8sCluster, K8sClusterSpec, K8sProvision, K8sStep};
use celium::mesh::membership::{Membership, NodeId, NodeInfo, NodeStatus, TickDelta};
use celium::mesh::metrics::{MeshMetrics, MeshMetricsSnapshot};
use celium::mesh::net::{parse_ipv4, render_ipv4};
use celium::mesh::path::parse_cluster_path;
use celium::mesh::proto::{DecodeError, Envelope, Payload, VmOp, VmOpReply, VmOpResult};
use celium::mesh::status::invoke_path;
use celium::mesh::supervisor::{clip, plan_restarts, SupervisorPass};
use celium::mesh::vault::{
    Ipv4, LbAlgo, LoadBalancer, LoadBalancerId, NetworkId, Nic, NicId, VirtualNetwork,
    VolumeAttachment, VolumeId, VolumeMeta,
};

const MS: u128 = 1_000_000;

fn create(label: &str) -> VmOp {
    VmOp::Create {
        label: label.to_string(),
        restart_policy: RestartPolicy::Never,
        image_path: None,
        cpu_count: None,
        memory_mib: None,
        boot_blob_crc32c: None,
    }
}

// --- capabilities ------------------------------------------------------------

#[test]
fn all_includes_every_named_cap() {
    let all = Capabilities::all();
    assert!(all.contains(Capabilities::vm_lifecycle_read()));
    assert!(all.contains(Capabilities::vm_lifecycle_write()));
    assert!(all.contains(Capabilities::volume_read()));
    assert!(all.contains(Capabilities::volume_write()));
    assert!(all.contains(Capabilities::volume_attach()));
    assert!(all.contains(Capabilities::snapshot_read()));
    assert!(all.contains(Capabilities::snapshot_write()));
}

#[test]
fn grant_revoke_is_idempotent() {
    let mut c = Capabilities::none();
    c.grant(Capabilities::volume_read());
    c.grant(Capabilities::volume_read());
    assert!(c.contains(Capabilities::volume_read()));
    c.revoke(Capabilities::volume_read());
    c.revoke(Capabilities::volume_read());
    assert!(!c.contains(Capabilities::volume_read()));
}

#[test]
fn required_for_each_op() {
    let v = || VolumeId::named("n1/v1");
    assert_eq!(Capabilities::required(&VmOp::List), Capabilities::vm_lifecycle_read());
    assert_eq!(Capabilities::required(&create("x")), Capabilities::vm_lifecycle_write());
    assert_eq!(
        Capabilities::required(&VmOp::WriteVolume { volume_id: v(), offset: 0, bytes: vec![] }),
        Capabilities::volume_write()
    );
    assert_eq!(
        Capabilities::required(&VmOp::ReadVolume { volume_id: v(), offset: 0, len: 0 }),
        Capabilities::volume_read()
    );
}

#[test]
fn capabilities_combine_bit_by_bit() {
    let both = Capabilities::volume_read() | Capabilities::volume_write();
    assert!(both.contains(Capabilities::volume_read()));
    assert!(both.contains(Capabilities::volume_write()));
    assert!(!both.contains(Capabilities::volume_attach()));
    assert_eq!(Capabilities::op_tag(&create("x")), "vm.create");
    let mut more = Capabilities::volume_read();
    more |= Capabilities::volume_write();
    assert_eq!(more, both);
    assert_eq!(NodeId::from("n1"), NodeId::named("n1"));
}

// --- membership --------------------------------------------------------------

fn row(id: &str, epoch: u64, hlc: u64, status: NodeStatus) -> NodeInfo {
    NodeInfo { id: NodeId::named(id), addr: format!("mem://{id}"), epoch, hlc, status }
}

fn mk() -> Membership {
    Membership::new("test", row("self", 1, 0, NodeStatus::Alive), 50 * MS, 100 * MS, 0)
}

#[test]
fn merge_inserts_then_supersedes() {
    let mut m = mk();
    assert!(m.merge(row("peer", 1, 1, NodeStatus::Alive), 0));
    assert!(!m.merge(row("peer", 1, 1, NodeStatus::Alive), 0));
    assert!(m.merge(row("peer", 1, 5, NodeStatus::Alive), 0));
    assert!(m.merge(row("peer", 2, 0, NodeStatus::Alive), 0));
}

#[test]
fn never_overwrites_self() {
    let mut m = mk();
    let injected = row("self", 999, 999, NodeStatus::Dead);
    assert!(!m.merge(injected, 0));
    assert_eq!(m.get(&NodeId::named("self")).unwrap().status, NodeStatus::Alive);
}

#[test]
fn tick_promotes_suspect_then_dead() {
    let mut m = mk();
    m.merge(row("peer", 1, 1, NodeStatus::Alive), 0);
    let id = NodeId::named("peer");
    m.tick(60 * MS);
    assert_eq!(m.get(&id).unwrap().status, NodeStatus::Suspect);
    m.tick(150 * MS);
    assert_eq!(m.get(&id).unwrap().status, NodeStatus::Dead);
}

#[test]
fn silence_of_exactly_the_limit_is_not_suspect() {
    let mut m = mk();
    m.merge(row("peer", 1, 1, NodeStatus::Alive), 0);
    let id = NodeId::named("peer");
    assert_eq!(m.tick(50 * MS), TickDelta::default());
    assert_eq!(m.get(&id).unwrap().status, NodeStatus::Alive);
    m.tick(50 * MS + 1);
    assert_eq!(m.get(&id).unwrap().status, NodeStatus::Suspect);
    m.tick(100 * MS);
    assert_eq!(m.get(&id).unwrap().status, NodeStatus::Dead);
}

#[test]
fn mark_left_is_idempotent() {
    let mut m = mk();
    m.merge(row("peer", 1, 1, NodeStatus::Alive), 0);
    let id = NodeId::named("peer");
    m.mark_left(&id);
    m.mark_left(&id);
    assert_eq!(m.get(&id).unwrap().status, NodeStatus::Left);
}

#[test]
fn tick_delta_counts_promotions() {
    let mut m = mk();
    m.merge(row("peer", 1, 1, NodeStatus::Alive), 0);
    let d = m.tick(60 * MS);
    assert_eq!(d.state_changes, 1);
    assert_eq!(d.suspect_promotions, 1);
    assert_eq!(d.dead_promotions, 0);
    let d = m.tick(150 * MS);
    assert_eq!(d.state_changes, 1);
    assert_eq!(d.suspect_promotions, 0);
    assert_eq!(d.dead_promotions, 1);
    let d = m.tick(150 * MS);
    assert_eq!(d, TickDelta::default());
}

#[test]
fn membership_lists_in_order_of_names() {
    let mut m = mk();
    m.merge(row("zed", 1, 1, NodeStatus::Alive), 0);
    m.merge(row("abe", 1, 1, NodeStatus::Suspect), 0);
    let names: Vec<String> = m.snapshot().iter().map(|i| i.id.as_str().to_string()).collect();
    assert_eq!(names, vec!["abe", "self", "zed"]);
    assert_eq!(m.alive_count(), 2);
    assert_eq!(m.count(NodeStatus::Suspect), 1);
    assert_eq!(m.cluster(), "test");
    m.bump_self(9, 7);
    assert_eq!(m.get(&NodeId::named("self")).unwrap().hlc, 9);
}

#[test]
fn this_node_never_leaves_or_fades() {
    let mut m = mk();
    m.mark_left(&NodeId::named("self"));
    assert_eq!(m.tick(1_000_000 * MS), TickDelta::default());
    assert_eq!(m.get(&NodeId::named("self")).unwrap().status, NodeStatus::Alive);
}

// --- federation --------------------------------------------------------------

fn vm(owner: &str, id: u32, hlc: u64) -> RemoteVm {
    RemoteVm {
        owner: NodeId::named(owner),
        vm_id: id,
        label: format!("{owner}-{id}"),
        state: "created".to_string(),
        last_exit: None,
        epoch: 1,
        hlc,
        owner_alive: true,
        restart_policy: RestartPolicy::Never,
        volumes: Vec::new(),
        image_path: None,
        cpu_count: None,
        memory_mib: None,
        boot_blob_crc32c: None,
    }
}

#[test]
fn local_replace_wipes_prior_local_rows() {
    let mut f = NamespaceFederation::new(NodeId::named("a"));
    f.set_local(vec![vm("a", 0, 1), vm("a", 1, 1)]);
    f.set_local(vec![vm("a", 0, 2)]);
    let list = f.list();
    assert_eq!(list.len(), 1);
    assert_eq!(list[0].vm_id, 0);
    assert_eq!(list[0].hlc, 2);
}

#[test]
fn merge_lww_orders_by_epoch_then_hlc() {
    let mut f = NamespaceFederation::new(NodeId::named("a"));
    assert!(f.merge(vm("b", 0, 1)));
    assert!(!f.merge(vm("b", 0, 1)));
    assert!(f.merge(vm("b", 0, 2)));
    let mut newer_epoch = vm("b", 0, 0);
    newer_epoch.epoch = 7;
    assert!(f.merge(newer_epoch));
}

#[test]
fn local_rows_cannot_be_overwritten_by_peer() {
    let mut f = NamespaceFederation::new(NodeId::named("a"));
    f.set_local(vec![vm("a", 0, 5)]);
    let mut spoof = vm("a", 0, 99);
    spoof.label = "spoofed".to_string();
    assert!(!f.merge(spoof));
    assert_eq!(f.list()[0].label, "a-0");
}

#[test]
fn resolve_path_round_trip() {
    let mut f = NamespaceFederation::new(NodeId::named("a"));
    f.set_local(vec![vm("a", 7, 1)]);
    let row = f.list()[0].clone();
    assert_eq!(row.path(), "/cluster/a/vms/7");
    assert!(f.resolve("/cluster/a/vms/7").unwrap().is_some());
    assert!(f.resolve("/cluster/a/vms/8").unwrap().is_none());
    assert!(f.resolve("/wrong").is_err());
    assert!(f.resolve("/cluster/a/vms/").is_err());
}

#[test]
fn liveness_follows_the_owners() {
    let mut f = NamespaceFederation::new(NodeId::named("a"));
    f.set_local(vec![vm("a", 0, 1)]);
    f.merge(vm("b", 0, 1));
    f.merge(vm("c", 0, 1));
    f.refresh_alive(|id: &NodeId| id.as_str() == "b");
    let alive: Vec<bool> = f.list().iter().map(|r| r.owner_alive).collect();
    assert_eq!(alive, vec![true, true, false]);
    assert_eq!(f.local_rows().len(), 1);
}

// --- paths and addresses -----------------------------------------------------

#[test]
fn parse_cluster_path_accepts_well_formed_paths() {
    let (n, v) = parse_cluster_path("/cluster/n1/vms/0").unwrap();
    assert_eq!(n.as_str(), "n1");
    assert_eq!(v, 0);
    let (n, v) = parse_cluster_path("/cluster/host-7/vms/123").unwrap();
    assert_eq!(n.as_str(), "host-7");
    assert_eq!(v, 123);
}

#[test]
fn parse_cluster_path_rejects_malformed() {
    for bad in [
        "",
        "/vms/0",
        "/cluster/",
        "/cluster//vms/0",
        "/cluster/n1",
        "/cluster/n1/vms",
        "/cluster/n1/vms/",
        "/cluster/n1/vms/abc",
        "/cluster/n1/vms/0/extra",
    ] {
        assert!(parse_cluster_path(bad).is_err(), "{bad:?} must reject");
    }
}

#[test]
fn invoke_path_addresses_the_vm_of_the_path() {
    let (node, op) = invoke_path("/cluster/n2/vms/3", VmOp::Start { vm_id: 0 }).unwrap();
    assert_eq!(node.as_str(), "n2");
    assert!(matches!(op, VmOp::Start { vm_id: 3 }));
    let (_, op) = invoke_path("/cluster/n2/vms/3", VmOp::List).unwrap();
    assert!(matches!(op, VmOp::List));
    assert_eq!(invoke_path("/nope", VmOp::List).unwrap_err().code(), "invalid");
}

#[test]
fn addresses_round_trip() {
    let ip = parse_ipv4("10.0.255.1").unwrap();
    assert_eq!(ip, Ipv4(0x0a00_ff01));
    assert_eq!(render_ipv4(ip), "10.0.255.1");
    for bad in ["", "1.2.3", "1.2.3.4.5", "256.0.0.1", "01.2.3.4", "a.b.c.d", "1..2.3"] {
        assert!(parse_ipv4(bad).is_none(), "{bad:?} must reject");
    }
}

// --- metrics -----------------------------------------------------------------

#[test]
fn snapshot_is_zero_by_default() {
    let m = MeshMetrics::new();
    assert_eq!(m.snapshot(), MeshMetricsSnapshot::default());
}

#[test]
fn counters_only_increase() {
    let mut m = MeshMetrics::new();
    m.inc_gossip_sent();
    m.inc_gossip_sent();
    m.inc_gossip_recv();
    m.inc_dead_promotions(3);
    let s = m.snapshot();
    assert_eq!(s.gossip_sent, 2);
    assert_eq!(s.gossip_recv, 1);
    assert_eq!(s.dead_promotions, 3);
}

#[test]
fn prometheus_render_lists_every_metric() {
    let mut m = MeshMetrics::new();
    m.inc_rpc_out();
    let txt = m.render_prometheus();
    assert!(txt.contains("celmesh_rpc_out_total 1"));
    assert!(txt.contains("celmesh_dead_promotions_total 0"));
    assert!(txt.contains("# TYPE celmesh_gossip_sent_total counter"));
}

#[test]
fn every_counter_is_its_own() {
    let mut m = MeshMetrics::new();
    m.inc_decode_errors();
    m.inc_foreign_cluster_drops();
    m.inc_suspect_promotions(2);
    m.inc_rpc_in();
    m.inc_rpc_timeouts();
    m.inc_rpc_errors();
    m.inc_join_calls();
    m.inc_supervisor_restarts(4);
    let s = m.snapshot();
    assert_eq!(
        (s.decode_errors, s.foreign_cluster_drops, s.suspect_promotions, s.rpc_in),
        (1, 1, 2, 1)
    );
    assert_eq!(
        (s.rpc_timeouts, s.rpc_errors, s.join_calls, s.supervisor_restarts),
        (1, 1, 1, 4)
    );
    assert_eq!(s.gossip_sent, 0);
}

// --- frames ------------------------------------------------------------------

#[test]
fn frames_are_admitted_by_size_magic_and_version() {
    let good = || Envelope::stamped("a", "c1", 7, Payload::Goodbye);
    assert!(Envelope::decode(100, Some(good())).is_ok());
    assert_eq!(Envelope::decode(65_537, Some(good())).unwrap_err(), DecodeError::TooLarge);
    assert_eq!(Envelope::decode(100, None).unwrap_err(), DecodeError::Malformed);
    let mut odd = good();
    odd.magic = "other".to_string();
    assert_eq!(Envelope::decode(100, Some(odd)).unwrap_err(), DecodeError::BadMagic);
    let mut old = good();
    old.version = 2;
    assert_eq!(Envelope::decode(100, Some(old)).unwrap_err(), DecodeError::VersionMismatch);
    assert!(Envelope::fits(65_536));
}

// --- the engine --------------------------------------------------------------

fn cfg(id: &str, addr: &str, seeds: Vec<String>) -> MeshConfig {
    let mut c = MeshConfig::defaults(id, addr);
    c.seeds = seeds;
    c.gossip_interval = 20 * MS;
    c.timeout_suspect = 200 * MS;
    c.timeout_dead = 600 * MS;
    c
}

fn deliver(to: &mut Mesh, frame: Envelope, src: &str, now: u128) -> FrameStep {
    let env = to.receive(100, Some(frame)).expect("frame must be admitted");
    to.handle_envelope(env, src, now)
}

/// Rounds of gossip between two nodes that share a wire.
fn gossip(a: &mut Mesh, b: &mut Mesh, rounds: u32) {
    for i in 0..rounds {
        let now = u128::from(i) * 20 * MS;
        if a.gossip_tick(now).as_deref() == Some("mem://b") {
            let frame = a.send_sync();
            deliver(b, frame, "mem://a", now);
        }
        if b.gossip_tick(now).as_deref() == Some("mem://a") {
            let frame = b.send_sync();
            deliver(a, frame, "mem://b", now);
        }
    }
}

fn pair() -> (Mesh, Mesh) {
    let mut a = Mesh::start(cfg("a", "mem://a", vec!["mem://b".to_string()]), 0);
    let mut b = Mesh::start(cfg("b", "mem://b", vec!["mem://a".to_string()]), 0);
    gossip(&mut a, &mut b, 4);
    (a, b)
}

#[test]
fn two_nodes_form_a_cluster() {
    let (a, b) = pair();
    assert_eq!(a.alive_count(), 2);
    assert_eq!(b.alive_count(), 2);
}

#[test]
fn vm_published_on_a_is_visible_on_b() {
    let (mut a, mut b) = pair();
    let mut row = vm("a", 0, 0);
    row.label = "alpha".to_string();
    a.publish_local_vms(vec![row], 0);
    gossip(&mut a, &mut b, 4);
    assert!(b.list_vms().iter().any(|r| r.label == "alpha"), "vm did not propagate from a to b");
}

#[test]
fn old_news_changes_nothing() {
    let (mut a, mut b) = pair();
    let mut row = vm("a", 0, 0);
    row.label = "first".to_string();
    a.publish_local_vms(vec![row], 0);
    let stale = a.send_sync();
    let mut row = vm("a", 0, 0);
    row.label = "second".to_string();
    a.publish_local_vms(vec![row], 0);
    let fresh = a.send_sync();
    deliver(&mut b, fresh, "mem://a", 0);
    let vms = b.list_vms();
    let members = b.members();
    assert_eq!(vms[0].label, "second");
    deliver(&mut b, stale, "mem://a", 0);
    assert_eq!(b.list_vms(), vms);
    assert_eq!(b.members(), members);
}

#[test]
fn pick_one_handles_empty() {
    assert!(pick_one(&vec![], 0).is_none());
    assert_eq!(pick_one(&vec!["x".to_string()], 7).as_deref(), Some("x"));
}

#[test]
fn frames_of_other_clusters_are_dropped() {
    let (mut a, _) = pair();
    let stranger = Envelope::stamped("z", "elsewhere", 1, Payload::Goodbye);
    assert!(matches!(deliver(&mut a, stranger, "mem://z", 0), FrameStep::Done));
    assert_eq!(a.metrics().foreign_cluster_drops, 1);
    assert!(a.receive(70_000, None).is_none());
    assert_eq!(a.metrics().decode_errors, 1);
}

#[test]
fn hello_and_goodbye_change_the_membership() {
    let mut a = Mesh::start(cfg("a", "mem://a", Vec::new()), 0);
    let mut b = Mesh::start(cfg("b", "mem://b", Vec::new()), 0);
    a.join("mem://b");
    assert_eq!(a.metrics().join_calls, 1);
    let hello = b.send_hello();
    deliver(&mut a, hello, "mem://b", 0);
    assert_eq!(a.alive_count(), 2);
    let (bye, peers) = b.shutdown();
    assert!(peers.is_empty());
    deliver(&mut a, bye, "mem://b", 0);
    assert_eq!(a.alive_count(), 1);
    assert_eq!(a.members()[1].status, NodeStatus::Left);
}

#[test]
fn frames_are_counted_before_they_are_sent() {
    let (mut a, mut b) = pair();
    let before = a.metrics().gossip_sent;
    let _ = a.send_hello();
    let _ = a.send_sync();
    assert_eq!(a.metrics().gossip_sent, before + 2);
    let InvokeStep::Send { req_id, frame, .. } =
        a.invoke(&NodeId::named("b"), VmOp::Start { vm_id: 1 }, true)
    else {
        panic!("a peer must be asked")
    };
    assert_eq!(a.metrics().gossip_sent, before + 3);
    a.invoke_sent(req_id, false);
    assert_eq!(a.metrics().gossip_sent, before + 3);
    assert_eq!(a.metrics().rpc_out, 0);
    let FrameStep::Dispatch { req_id, from, .. } = deliver(&mut b, frame, "mem://a", 0) else {
        panic!("the peer must run it")
    };
    let counted = b.metrics().gossip_sent;
    assert!(b.respond(&from, req_id, response_of(None)).is_some());
    assert_eq!(b.metrics().gossip_sent, counted + 1);
    let (_, peers) = a.shutdown();
    assert_eq!(peers.len(), 1);
    assert_eq!(a.metrics().gossip_sent, before + 4);
}

#[test]
fn peers_hear_only_of_what_happened() {
    assert!(republishes(&Ok(VmOpReply::Created { vm_id: 1 })));
    assert!(!republishes(&Err("no free slot".to_string())));
    let mut a = Mesh::start(cfg("a", "mem://a", Vec::new()), 0);
    assert!(!a.supervisor_done(&Vec::new()));
    assert_eq!(a.metrics().supervisor_restarts, 0);
}

#[test]
fn a_request_is_answered_once() {
    let (mut a, mut b) = pair();
    let InvokeStep::Send { addr, req_id, frame } =
        a.invoke(&NodeId::named("b"), VmOp::Start { vm_id: 1 }, true)
    else {
        panic!("a peer must be asked")
    };
    assert_eq!(addr, "mem://b");
    let counted = a.metrics().gossip_sent;
    a.invoke_sent(req_id, true);
    assert_eq!(a.metrics().rpc_out, 1);
    assert_eq!(a.metrics().gossip_sent, counted);
    let FrameStep::Dispatch { req_id: asked, from, op } = deliver(&mut b, frame, "mem://a", 0)
    else {
        panic!("the peer must run it")
    };
    assert_eq!(asked, req_id);
    assert!(matches!(op, VmOp::Start { vm_id: 1 }));
    let done = VmOpReply::State { vm_id: 1, state: "halted".to_string() };
    let (back, reply) = b.respond(&from, asked, response_of(Some(Ok(done)))).unwrap();
    assert_eq!(back, "mem://a");
    let FrameStep::Settle { req_id: settled, result } = deliver(&mut a, reply, "mem://b", 0) else {
        panic!("the response must settle the request")
    };
    assert_eq!(settled, req_id);
    let got = a.invoke_end(settled, RpcOutcome::Reply(result)).unwrap();
    assert!(matches!(got, VmOpReply::State { vm_id: 1, .. }));
    // The same response again settles nothing.
    let again = Envelope::stamped(
        "b",
        "celium",
        9,
        Payload::Response { req_id, result: VmOpResult::Failed("late".to_string()) },
    );
    assert!(matches!(deliver(&mut a, again, "mem://b", 0), FrameStep::Done));
}

#[test]
fn requests_end_in_each_way() {
    let (mut a, _) = pair();
    assert_eq!(
        a.invoke_end(1, RpcOutcome::TimedOut).unwrap_err(),
        CelError::Timeout("mesh rpc".to_string())
    );
    assert_eq!(
        a.invoke_end(1, RpcOutcome::Dropped).unwrap_err(),
        CelError::Internal("response channel dropped")
    );
    assert_eq!(
        a.invoke_end(1, RpcOutcome::Reply(VmOpResult::Failed("no".to_string()))).unwrap_err(),
        CelError::Io("remote host: no".to_string())
    );
    assert_eq!(a.metrics().rpc_timeouts, 1);
    assert_eq!(a.metrics().rpc_errors, 2);
    assert_eq!(local_result(Err("bad".to_string())).unwrap_err().code(), "io");
    assert!(matches!(response_of(None), VmOpResult::Failed(_)));
}

#[test]
fn requests_go_to_known_living_nodes_only() {
    let (mut a, mut b) = pair();
    let me = NodeId::named("a");
    assert!(matches!(a.invoke(&me, VmOp::List, true), InvokeStep::Host(VmOp::List)));
    let InvokeStep::Refused(e) = a.invoke(&me, VmOp::List, false) else { panic!("no host") };
    assert_eq!(e, CelError::Invalid("no VmHost registered"));
    let InvokeStep::Refused(e) = a.invoke(&NodeId::named("z"), VmOp::List, true) else {
        panic!("nobody")
    };
    assert_eq!(e, CelError::Invalid("unknown target node"));
    let (bye, _) = b.shutdown();
    deliver(&mut a, bye, "mem://b", 0);
    let InvokeStep::Refused(e) = a.invoke(&NodeId::named("b"), VmOp::List, true) else {
        panic!("gone")
    };
    assert_eq!(e, CelError::Invalid("target node not Alive"));
}

#[test]
fn silent_peers_fade_and_orphan_their_vms() {
    let (mut a, mut b) = pair();
    let mut row = vm("b", 2, 0);
    row.restart_policy = RestartPolicy::Always;
    b.publish_local_vms(vec![row], 0);
    gossip(&mut a, &mut b, 2);
    assert!(a.orphaned_vms().is_empty());
    a.gossip_tick(10_000 * MS);
    assert_eq!(a.metrics().dead_promotions, 1);
    let orphans = a.orphaned_vms();
    assert_eq!(orphans.len(), 1);
    assert!(!orphans[0].owner_alive);
    assert!(a.is_supervisor());
}

// --- the supervisor ----------------------------------------------------------

fn orphan(label: &str) -> RemoteVm {
    let mut v = vm("b", 3, 1);
    v.label = label.to_string();
    v.restart_policy = RestartPolicy::Always;
    v.owner_alive = false;
    v.volumes = vec![VolumeAttachment {
        volume_id: VolumeId::named("b/v1"),
        mount_name: "data".to_string(),
    }];
    v
}

#[test]
fn supervisor_recreates_what_asks_for_it() {
    let (mut a, mut b) = pair();
    let mut row = vm("b", 2, 0);
    row.label = "web".to_string();
    row.restart_policy = RestartPolicy::Always;
    b.publish_local_vms(vec![row], 0);
    gossip(&mut a, &mut b, 2);
    a.gossip_tick(10_000 * MS);
    let orphans = a.run_supervisor_step(true).unwrap();
    assert_eq!(orphans.len(), 1);
    let mut pass = SupervisorPass::new(plan_restarts(&orphans, &Vec::new()));
    let Some(VmOp::Create { label, restart_policy, .. }) = pass.next() else { panic!("one to do") };
    assert_eq!(label, "web@b");
    assert_eq!(restart_policy, RestartPolicy::Never);
    let step = pass.advance(Ok(VmOpReply::Created { vm_id: 5 })).unwrap();
    assert!(step.is_none());
    assert!(pass.next().is_none());
    assert_eq!(pass.done[0].new_vm_id, 5);
    assert_eq!(pass.done[0].original_vm_id, 2);
    assert!(a.supervisor_done(&pass.done));
    assert_eq!(a.metrics().supervisor_restarts, 1);
}

#[test]
fn supervisor_skips_what_was_recreated_already() {
    let orphans = vec![orphan("web"), orphan("job")];
    let plan = plan_restarts(&orphans, &Vec::new());
    assert_eq!(plan.len(), 2);
    assert_eq!(plan[0].label, "web@b");
    assert_eq!(plan[0].volumes.len(), 1);
    let mut have = vm("a", 0, 1);
    have.label = "web@b".to_string();
    let rest = plan_restarts(&orphans, &vec![have]);
    assert_eq!(rest.len(), 1);
    assert_eq!(rest[0].label, "job@b");
}

#[test]
fn supervisor_stops_at_the_first_failure() {
    let mut pass = SupervisorPass::new(plan_restarts(
        &vec![orphan("web")],
        &Vec::new(),
    ));
    assert_eq!(
        pass.advance(Err("full".to_string())).unwrap_err(),
        CelError::Io("supervisor create: full".to_string())
    );
    let mut a = Mesh::start(cfg("a", "mem://a", Vec::new()), 0);
    assert_eq!(
        a.run_supervisor_step(false).unwrap_err(),
        CelError::Invalid("no VmHost registered")
    );
}

#[test]
fn a_recreated_vm_keeps_its_volumes() {
    let mut host = MemVmHost::new(64);
    let id = NodeId::named("a");
    let first = host.apply(create("own"));
    assert!(matches!(first, HostStep::Reply(Ok(VmOpReply::Created { vm_id: 0 }))));
    let before = host.current_rows(&id);
    let mut pass = SupervisorPass::new(plan_restarts(&vec![orphan("web")], &before));
    let HostStep::Reply(result) = host.apply(pass.next().unwrap()) else { panic!("no store") };
    let (vm_id, volumes) = pass.advance(result).unwrap().unwrap();
    host.attach_preserved(vm_id, volumes).unwrap();
    let rows = host.current_rows(&id);
    assert_eq!(rows.len(), 2);
    assert_eq!(rows[0], before[0]);
    assert_eq!(rows[1].label, "web@b");
    assert_eq!(rows[1].volumes, orphan("web").volumes);
    assert!(plan_restarts(&vec![orphan("web")], &rows).is_empty());
}

#[test]
fn a_second_pass_of_the_supervisor_creates_nothing() {
    let (mut a, mut b) = pair();
    let mut rows = Vec::new();
    for (i, label) in ["web", "job"].iter().enumerate() {
        let mut row = vm("b", i as u32, 0);
        row.label = label.to_string();
        row.restart_policy = RestartPolicy::Always;
        rows.push(row);
    }
    b.publish_local_vms(rows, 0);
    gossip(&mut a, &mut b, 2);
    a.gossip_tick(10_000 * MS);
    let me = NodeId::named("a");
    let mut host = MemVmHost::new(64);
    for made in [2usize, 0] {
        let orphans = a.run_supervisor_step(true).unwrap();
        assert_eq!(orphans.len(), 2);
        let mut pass = SupervisorPass::new(plan_restarts(&orphans, &host.current_rows(&me)));
        while let Some(op) = pass.next() {
            let HostStep::Reply(result) = host.apply(op) else { panic!("no store") };
            assert!(pass.advance(result).unwrap().is_none());
        }
        assert_eq!(pass.done.len(), made);
        a.supervisor_done(&pass.done);
        a.publish_local_vms(host.current_rows(&me), 0);
    }
    assert_eq!(a.metrics().supervisor_restarts, 2);
}

#[test]
fn labels_are_clipped_to_whole_characters() {
    assert_eq!(clip("abcdef", 4), "abcd");
    assert_eq!(clip("abc", 4), "abc");
    assert_eq!(clip("ab\u{00e9}", 3), "ab");
}

// --- status and administration -----------------------------------------------

fn single(cluster: &str, node: &str) -> Mesh {
    let mut c = cfg(node, &format!("mem://{node}"), Vec::new());
    c.cluster = cluster.to_string();
    Mesh::start(c, 0)
}

fn http_get(mesh: &Mesh, path: &str) -> (String, String) {
    let req = format!("GET {path} HTTP/1.0\r\nHost: x\r\n\r\n");
    let RequestStep::Path(p) = read_request_path(req.as_bytes(), false) else {
        panic!("a path must be found")
    };
    let (code, ctype, body) = route(mesh, &p);
    (response_head(code, ctype, &body), body)
}

#[test]
fn metrics_endpoint_renders_prometheus_text() {
    let mesh = single("c1", "n1");
    let (status, body) = http_get(&mesh, "/metrics");
    assert!(status.starts_with("HTTP/1.0 200"), "status={status}");
    assert!(body.contains("# TYPE celmesh_gossip_sent_total counter"), "body={body}");
    assert!(body.contains("celmesh_dead_promotions_total 0"), "body={body}");
}

#[test]
fn healthz_always_returns_200_with_summary() {
    let mesh = single("c1", "n1");
    let (status, body) = http_get(&mesh, "/healthz");
    assert!(status.starts_with("HTTP/1.0 200"));
    assert!(body.contains("node=n1"), "body={body}");
    assert!(body.contains("cluster=c1"), "body={body}");
}

#[test]
fn readyz_is_503_when_single_node_and_degraded() {
    let mesh = single("c1", "n1");
    let (status, body) = http_get(&mesh, "/readyz");
    assert!(status.starts_with("HTTP/1.0 503"), "status={status}");
    assert!(body.contains("degraded=true"), "body={body}");
    let (a, _) = pair();
    assert!(http_get(&a, "/readyz").0.starts_with("HTTP/1.0 200"));
}

#[test]
fn unknown_path_returns_404() {
    let mesh = single("c1", "n1");
    let (status, _body) = http_get(&mesh, "/no-such-thing");
    assert!(status.starts_with("HTTP/1.0 404"), "status={status}");
}

#[test]
fn non_get_method_rejected_without_panic() {
    let mesh = single("c1", "n1");
    let step = read_request_path(b"POST /metrics HTTP/1.0\r\n\r\n", false);
    let RequestStep::Refused(e) = step else { panic!("POST must be refused") };
    assert_eq!(e, CelError::Invalid("admin: only GET/HEAD supported"));
    let (status, _) = http_get(&mesh, "/healthz");
    assert!(status.starts_with("HTTP/1.0 200"), "post-misuse status={status}");
}

#[test]
fn requests_are_read_until_their_line_ends() {
    assert!(matches!(read_request_path(b"GET /heal", false), RequestStep::More));
    let RequestStep::Refused(e) = read_request_path(b"GET /heal", true) else { panic!("closed") };
    assert_eq!(e, CelError::Invalid("admin: client closed before request"));
    let RequestStep::Refused(e) = read_request_path(&[b'x'; 4096], false) else { panic!("long") };
    assert_eq!(e, CelError::Invalid("admin: request header too large"));
    let RequestStep::Refused(e) = read_request_path(b"GET /\xff\r\n\r\n", false) else {
        panic!("not text")
    };
    assert_eq!(e, CelError::Invalid("admin: non-UTF-8 request line"));
    assert_eq!(path_in("GET /healthz?x=1 HTTP/1.0").as_deref(), Some("/healthz"));
    assert_eq!(path_in("HEAD / HTTP/1.0").as_deref(), Some("/"));
    assert_eq!(path_in("PUT / HTTP/1.0"), None);
}

#[test]
fn status_counts_members_and_vms() {
    let (mut a, mut b) = pair();
    b.publish_local_vms(vec![vm("b", 0, 0)], 0);
    gossip(&mut a, &mut b, 2);
    let s = a.cluster_status();
    assert_eq!((s.alive, s.suspect, s.dead), (2, 0, 0));
    assert_eq!((s.total_vms, s.orphaned_vms), (1, 0));
    assert!(!a.is_degraded());
    assert_eq!(a.summary(), "node=a cluster=celium alive=2 degraded=false");
    assert_eq!(a.self_id().as_str(), "a");
}

#[test]
fn reports_add_up_what_nodes_answer() {
    let (mut a, _) = pair();
    let vol = |n: u64| VolumeMeta {
        id: VolumeId::named("v"),
        owner: "a".to_string(),
        name: "v".to_string(),
        size_bytes: n,
    };
    a.publish_local_vms(vec![vm("a", 0, 0)], 0);
    let mut poll = a.cluster_report();
    let (id, op) = poll.next().unwrap();
    assert_eq!(id, NodeId::named("a"));
    assert!(matches!(op, VmOp::ListVolumes));
    poll.advance(Ok(VmOpReply::VolumesListed { volumes: vec![vol(10), vol(5)] }));
    let (id, op) = poll.next().unwrap();
    assert_eq!(id, NodeId::named("a"));
    assert!(matches!(op, VmOp::ListNetworks));
    poll.advance(Ok(VmOpReply::NetworksListed { networks: Vec::new() }));
    let (id, op) = poll.next().unwrap();
    assert_eq!(id, NodeId::named("b"));
    assert!(matches!(op, VmOp::ListVolumes));
    poll.advance(Err(CelError::Timeout("mesh rpc".to_string())));
    assert!(poll.next().is_none());
    let r = poll.finish();
    assert_eq!(r.total_vms, 1);
    assert_eq!(r.volumes[1].node, NodeId::named("a"));
    assert_eq!(r.total_volumes, 2);
    assert_eq!(r.total_volume_bytes, 15);
    assert_eq!(r.nodes[0].volume_count, 2);
    assert!(r.nodes[0].reachable);
    assert_eq!(r.nodes[1].volume_count, 0);
    assert!(!r.nodes[1].reachable);
}

#[test]
fn reports_count_no_vms_of_nodes_that_do_not_answer() {
    let (mut a, mut b) = pair();
    a.publish_local_vms(vec![vm("a", 0, 0)], 0);
    b.publish_local_vms(vec![vm("b", 0, 0), vm("b", 1, 0)], 0);
    gossip(&mut a, &mut b, 2);
    let mut poll = a.cluster_report();
    assert!(poll.next().is_some());
    poll.advance(Ok(VmOpReply::VolumesListed { volumes: Vec::new() }));
    assert!(poll.next().is_some());
    poll.advance(Ok(VmOpReply::NetworksListed { networks: Vec::new() }));
    assert!(poll.next().is_some());
    poll.advance(Err(CelError::Timeout("mesh rpc".to_string())));
    assert!(poll.next().is_none());
    let r = poll.finish();
    assert!(r.nodes[0].reachable && !r.nodes[1].reachable);
    assert_eq!(r.nodes[1].vm_count, 2);
    assert_eq!(r.total_vms, 1);
}

#[test]
fn reports_do_not_ask_nodes_that_are_gone() {
    let (mut a, _) = pair();
    a.gossip_tick(10_000 * MS);
    let mut poll = a.cluster_report();
    let (id, _) = poll.next().unwrap();
    assert_eq!(id, NodeId::named("a"));
    poll.advance(Ok(VmOpReply::Deleted { vm_id: 0 }));
    assert!(poll.next().is_none());
    let r = poll.finish();
    assert_eq!(r.nodes.len(), 2);
    assert!(!r.nodes[0].reachable);
    assert_eq!(r.nodes[1].status, NodeStatus::Dead);
}

// --- clusters of machines ----------------------------------------------------

fn k8s_reply(op: &VmOp, next_vm: &mut u32) -> VmOpReply {
    match op {
        VmOp::CreateNetwork { name, cidr } => VmOpReply::NetworkCreated {
            network: VirtualNetwork {
                id: NetworkId("net-1".to_string()),
                owner: "a".to_string(),
                name: name.clone(),
                cidr: cidr.clone(),
            },
        },
        VmOp::Create { .. } => {
            *next_vm += 1;
            VmOpReply::Created { vm_id: *next_vm - 1 }
        }
        VmOp::AttachNic { vm_id, .. } => VmOpReply::NicAttached {
            nic: Nic {
                id: NicId(format!("nic-{vm_id}")),
                network_id: NetworkId("net-1".to_string()),
                vm_id: *vm_id,
                ip: Ipv4(0x0a00_0002 + *vm_id),
            },
        },
        VmOp::Start { vm_id } => VmOpReply::State { vm_id: *vm_id, state: "halted".to_string() },
        VmOp::CreateLoadBalancer { name, backends, vip, .. } => VmOpReply::LoadBalancerCreated {
            lb: LoadBalancer {
                id: LoadBalancerId("lb-1".to_string()),
                owner: "a".to_string(),
                name: name.clone(),
                network_id: NetworkId("net-1".to_string()),
                vip: parse_ipv4(vip).unwrap(),
                frontend_port: 6443,
                algo: LbAlgo::RoundRobin,
                backends: backends.clone(),
            },
        },
        other => panic!("unexpected operation {other:?}"),
    }
}

fn provision(workers: u32) -> (K8sCluster, Vec<String>) {
    let spec = K8sClusterSpec::new("kube", workers);
    let (mut p, mut op) = K8sProvision::begin(&NodeId::named("a"), spec, true).unwrap();
    let mut next_vm = 0;
    let mut seen = Vec::new();
    loop {
        seen.push(format!("{op:?}").split(' ').next().unwrap().to_string());
        let reply = k8s_reply(&op, &mut next_vm);
        match p.advance(Ok(reply), Some(Ipv4(0x0a00_00fe))) {
            K8sStep::Next(q, next) => {
                p = q;
                op = next;
            }
            K8sStep::Done(c) => return (c, seen),
            K8sStep::Failed(e) => panic!("{e:?}"),
        }
    }
}

#[test]
fn provisioning_makes_one_control_plane_and_the_workers() {
    let (c, seen) = provision(2);
    assert_eq!(c.control_plane().len(), 1);
    assert_eq!(c.workers().len(), 2);
    assert_eq!(seen.len(), 1 + 3 * 3 + 1);
    assert_eq!(seen[0], "CreateNetwork");
    assert_eq!(seen[10], "CreateLoadBalancer");
    assert_eq!(c.lb.vip, Ipv4(0x0a00_00fe));
    assert_eq!(c.nodes[2].label, "k8s-worker-kube-1");
}

#[test]
fn teardown_undoes_every_part() {
    let (c, _) = provision(1);
    let mut first = None;
    let mut ops = 0;
    while let Some(op) = c.destroy_op(ops) {
        let result = match op {
            VmOp::Stop { .. } => Err(CelError::Invalid("already stopped")),
            VmOp::Delete { vm_id: 1 } => Err(CelError::Invalid("busy")),
            _ => Ok(VmOpReply::Deleted { vm_id: 0 }),
        };
        first = c.destroy_note(ops, first, result);
        ops += 1;
    }
    assert_eq!(ops, 1 + 3 * 2 + 1);
    assert_eq!(first, Some(CelError::Invalid("busy")));
}

#[test]
fn provisioning_refuses_what_it_cannot_do() {
    let me = NodeId::named("a");
    let none = K8sProvision::begin(&me, K8sClusterSpec::new("kube", 0), true);
    assert_eq!(none.unwrap_err(), CelError::Invalid("k8s: workers must be in 1..=16"));
    let many = K8sProvision::begin(&me, K8sClusterSpec::new("kube", 17), true);
    assert_eq!(many.unwrap_err(), CelError::Invalid("k8s: workers must be in 1..=16"));
    let cidr = K8sProvision::begin(&me, K8sClusterSpec::new("kube", 1), false);
    assert_eq!(cidr.unwrap_err(), CelError::Invalid("k8s: bad cidr"));
    let (p, _) = K8sProvision::begin(&me, K8sClusterSpec::new("kube", 1), true).unwrap();
    let K8sStep::Failed(e) = p.advance(Err(CelError::Invalid("net")), None) else {
        panic!("the failure must end it")
    };
    assert_eq!(e, CelError::Invalid("net"));
}
