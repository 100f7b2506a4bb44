//! Hosts of VMs: in memory, and in front of a kernel.

use celium::error::CelError;
use celium::mesh::capabilities::Capabilities;
use celium::mesh::federation::{RemoteVm, RestartPolicy};
use celium::mesh::host::{
    HostResult, HostStep, MemVmHost, StoreCall, StoreOutcome, VmState, MAX_SLOTS,
};
use celium::mesh::hyper_host::{
    crc32c_bytes, hex_decode, hex_nibble, op_kind, CelhyperVmHost, HyperReply, HyperRequest,
    HyperStep, LoopbackHyperLink, HYPER_MAX_VMS, MAX_STAGED_IMAGE_BYTES,
};
use celium::mesh::hyper_serial::{
    call_timed_out, frame_line, hyper_ipc_magic, reply_value, request_value,
};
use celium::mesh::membership::NodeId;
use celium::mesh::proto::{VmOp, VmOpReply};
use celium::mesh::vault::{VolumeAttachment, VolumeId, VolumeMeta};
use celium::text::hex_encode;

fn create_with(label: &str, policy: RestartPolicy) -> VmOp {
    VmOp::Create {
        label: label.to_string(),
        restart_policy: policy,
        image_path: None,
        cpu_count: None,
        memory_mib: None,
        boot_blob_crc32c: None,
    }
}

fn create(label: &str) -> VmOp {
    create_with(label, RestartPolicy::Never)
}

/// A store of volumes that lives in the test.
#[derive(Default)]
struct Volumes {
    made: Vec<(String, Vec<u8>)>,
}

impl Volumes {
    fn answer(&mut self, call: &StoreCall) -> StoreOutcome {
        match call {
            StoreCall::CreateVolume { owner, name, size_bytes } => {
                let id = format!("{owner}/v{}", self.made.len());
                self.made.push((id.clone(), vec![0; *size_bytes as usize]));
                StoreOutcome::Volume(VolumeMeta {
                    id: VolumeId(id),
                    owner: owner.clone(),
                    name: name.clone(),
                    size_bytes: *size_bytes,
                })
            }
            StoreCall::FindVolume { volume_id, .. } => {
                StoreOutcome::Found(self.made.iter().any(|(id, _)| *id == volume_id.0))
            }
            StoreCall::DeleteVolume { volume_id } => {
                self.made.retain(|(id, _)| *id != volume_id.0);
                StoreOutcome::Done
            }
            StoreCall::ReadVolume { volume_id, offset, len } => {
                let (_, data) = self.made.iter().find(|(id, _)| *id == volume_id.0).unwrap();
                let from = *offset as usize;
                StoreOutcome::Data(data[from..from + *len].to_vec())
            }
            _ => StoreOutcome::Failed("not held here".to_string()),
        }
    }
}

fn handle(h: &mut MemVmHost, store: &mut Volumes, op: VmOp) -> HostResult {
    match h.apply(op) {
        HostStep::Reply(r) => r,
        HostStep::Store(call) => {
            let outcome = store.answer(&call);
            h.resume(call, outcome)
        }
    }
}

fn created(r: HostResult) -> u32 {
    match r.unwrap() {
        VmOpReply::Created { vm_id } => vm_id,
        r => panic!("unexpected: {r:?}"),
    }
}

// --- in memory ---------------------------------------------------------------

#[test]
fn create_then_start_then_stop_cycle() {
    let mut h = MemVmHost::new(64);
    let mut s = Volumes::default();
    let id = created(handle(&mut h, &mut s, create_with("alpha", RestartPolicy::Always)));
    let rep = handle(&mut h, &mut s, VmOp::Start { vm_id: id }).unwrap();
    assert!(matches!(rep, VmOpReply::State { state, .. } if state == "halted"));
    let rows = h.current_rows(&NodeId::named("n1"));
    assert_eq!(rows.len(), 1);
    assert_eq!(rows[0].label, "alpha");
    assert_eq!(rows[0].restart_policy, RestartPolicy::Always);
}

#[test]
fn registry_full_is_explicit() {
    let mut h = MemVmHost::new(64);
    let mut s = Volumes::default();
    for _ in 0..MAX_SLOTS {
        handle(&mut h, &mut s, create("x")).unwrap();
    }
    let r = handle(&mut h, &mut s, create("y"));
    assert!(matches!(r, Err(s) if s.contains("full")));
}

#[test]
fn create_attach_detach_volume_round_trip() {
    let mut h = MemVmHost::new(64);
    let mut s = Volumes::default();
    let _ = h.current_rows(&NodeId::named("n1"));
    let vm = created(handle(&mut h, &mut s, create("with-vol")));
    let op = VmOp::CreateVolume { name: "data".to_string(), size_bytes: 16 };
    let vol = match handle(&mut h, &mut s, op).unwrap() {
        VmOpReply::VolumeCreated { volume } => volume,
        r => panic!("unexpected: {r:?}"),
    };
    assert_eq!(vol.owner, "n1");
    let op = VmOp::AttachVolume {
        vm_id: vm,
        volume_id: vol.id.clone(),
        mount_name: "data0".to_string(),
    };
    let att = match handle(&mut h, &mut s, op).unwrap() {
        VmOpReply::Attachments { volumes, .. } => volumes,
        r => panic!("unexpected: {r:?}"),
    };
    assert_eq!(att.len(), 1);
    let rows = h.current_rows(&NodeId::named("n1"));
    assert_eq!(rows[0].volumes.len(), 1);
    assert_eq!(rows[0].volumes[0].mount_name, "data0");

    let r = handle(&mut h, &mut s, VmOp::DeleteVolume { volume_id: vol.id.clone() });
    assert!(matches!(r, Err(s) if s.contains("attached")));

    let op = VmOp::DetachVolume { vm_id: vm, volume_id: vol.id.clone() };
    let _ = handle(&mut h, &mut s, op).unwrap();
    let _ = handle(&mut h, &mut s, VmOp::DeleteVolume { volume_id: vol.id }).unwrap();
}

#[test]
fn states_have_names() {
    assert_eq!(VmState::Created.tag(), "created");
    assert_eq!(VmState::Halted.tag(), "halted");
    assert!(VmState::Halted.is_terminal() && VmState::Faulted.is_terminal());
    assert!(!VmState::Created.is_terminal());
}

#[test]
fn missing_capabilities_are_refused_before_anything_happens() {
    let caps = Capabilities::vm_lifecycle_read();
    let mut h = MemVmHost::new(64).with_caps(caps);
    let mut s = Volumes::default();
    assert_eq!(h.caps(), caps);
    let r = handle(&mut h, &mut s, create("x"));
    assert!(matches!(r, Err(e) if e.contains("capability denied")));
    assert!(h.current_rows(&NodeId::named("n1")).is_empty());
    assert!(handle(&mut h, &mut s, VmOp::List).is_ok());
}

#[test]
fn list_gives_the_rows_of_the_vms() {
    let mut h = MemVmHost::new(64);
    let mut s = Volumes::default();
    handle(&mut h, &mut s, create("one")).unwrap();
    handle(&mut h, &mut s, create("two")).unwrap();
    let VmOpReply::Listed { rows } = handle(&mut h, &mut s, VmOp::List).unwrap() else {
        panic!("rows")
    };
    assert_eq!(rows.len(), 2);
    assert_eq!(rows[1].label, "two");
    assert_eq!(rows[1].owner, NodeId::named(""));
    let published = h.current_rows(&NodeId::named("n1"));
    let VmOpReply::Listed { rows } = handle(&mut h, &mut s, VmOp::List).unwrap() else {
        panic!("rows")
    };
    assert_eq!(rows, published);
}

#[test]
fn slots_are_reused_and_unknown_ones_refused() {
    let mut h = MemVmHost::new(64);
    let mut s = Volumes::default();
    let a = created(handle(&mut h, &mut s, create("a")));
    assert!(handle(&mut h, &mut s, VmOp::Start { vm_id: 3 }).is_err());
    assert!(handle(&mut h, &mut s, VmOp::Start { vm_id: 99 }).is_err());
    handle(&mut h, &mut s, VmOp::Start { vm_id: a }).unwrap();
    handle(&mut h, &mut s, VmOp::Delete { vm_id: a }).unwrap();
    assert_eq!(created(handle(&mut h, &mut s, create("b"))), a);
    let long = "x".repeat(33);
    assert!(handle(&mut h, &mut s, create(&long)).is_err());
}

#[test]
fn preserved_attachments_are_kept() {
    let mut h = MemVmHost::new(64);
    let mut s = Volumes::default();
    let id = created(handle(&mut h, &mut s, create("a")));
    let kept = VolumeAttachment { volume_id: VolumeId::named("b/v1"), mount_name: "d".to_string() };
    h.attach_preserved(id, vec![kept]).unwrap();
    let rows: Vec<RemoteVm> = h.current_rows(&NodeId::named("n1"));
    assert_eq!(rows[0].volumes[0].volume_id, VolumeId::named("b/v1"));
    assert!(h.attach_preserved(77, Vec::new()).is_err());
}

#[test]
fn volume_reads_go_through_the_store() {
    let mut h = MemVmHost::new(64);
    let mut s = Volumes::default();
    let _ = h.current_rows(&NodeId::named("n1"));
    let op = VmOp::CreateVolume { name: "d".to_string(), size_bytes: 8 };
    let VmOpReply::VolumeCreated { volume } = handle(&mut h, &mut s, op).unwrap() else {
        panic!("volume")
    };
    let op = VmOp::ReadVolume { volume_id: volume.id.clone(), offset: 2, len: 4 };
    let VmOpReply::VolumeData { bytes, .. } = handle(&mut h, &mut s, op).unwrap() else {
        panic!("data")
    };
    assert_eq!(bytes, vec![0; 4]);
    let op = VmOp::ReadVolume { volume_id: volume.id, offset: 0, len: 32_769 };
    assert!(matches!(h.apply(op), HostStep::Reply(Err(_))));
    let r = handle(&mut h, &mut s, VmOp::ListVolumes);
    assert!(r.is_err());
}

// --- in front of a kernel ----------------------------------------------------

struct Kernel {
    host: CelhyperVmHost,
    link: LoopbackHyperLink,
}

impl Kernel {
    fn new() -> Kernel {
        Kernel { host: CelhyperVmHost::new(64), link: LoopbackHyperLink::new() }
    }

    fn handle(&mut self, op: VmOp) -> HostResult {
        match self.host.begin(op) {
            HyperStep::Reply(r) => r,
            HyperStep::Call(req, pending) => {
                let answer = self.link.apply(req).map_err(|e| e.message());
                let shown = format!("{answer:?}");
                self.host.finish(pending, answer, &shown)
            }
            HyperStep::Store(call) => {
                let outcome = Volumes::default().answer(&call);
                self.host.resume(call, outcome)
            }
        }
    }

    fn snapshot(&mut self, owner: &NodeId) -> Vec<RemoteVm> {
        let rows = self.link.apply(HyperRequest::List).ok();
        self.host.snapshot(owner, rows)
    }

    fn stage_image(&mut self, bytes: &[u8]) -> Result<u32, String> {
        let req = CelhyperVmHost::stage_image(bytes)?;
        let answer = self.link.apply(req).map_err(|e| e.message());
        let shown = format!("{answer:?}");
        CelhyperVmHost::stage_image_end(bytes.len() as u32, crc32c_bytes(bytes), answer, &shown)
    }
}

#[test]
fn loopback_round_trips_create_start_stop_delete() {
    let mut host = Kernel::new();
    let owner = NodeId("n1".to_string());
    let r = host.handle(create("guest-a")).unwrap();
    let VmOpReply::Created { vm_id } = r else { panic!("create reply") };
    assert_eq!(vm_id, 0);

    let snap = host.snapshot(&owner);
    assert_eq!(snap.len(), 1);
    assert_eq!(snap[0].label, "guest-a");
    assert_eq!(snap[0].state, "created");

    let r = host.handle(VmOp::Start { vm_id }).unwrap();
    let VmOpReply::State { state, .. } = r else { panic!("start reply") };
    assert_eq!(state, "halted");

    let r = host.handle(VmOp::Stop { vm_id }).unwrap();
    let VmOpReply::State { state, .. } = r else { panic!("stop reply") };
    assert_eq!(state, "halted");

    let r = host.handle(VmOp::Delete { vm_id }).unwrap();
    assert!(matches!(r, VmOpReply::Deleted { vm_id: 0 }));
    let snap = host.snapshot(&owner);
    assert!(snap.is_empty(), "snapshot after delete: {snap:?}");
}

#[test]
fn loopback_rejects_oversized_label() {
    let mut host = Kernel::new();
    let big = "x".repeat(33);
    let err = host.handle(create(&big)).expect_err("oversized label must be rejected");
    assert!(err.contains("32 chars"), "err={err}");
}

#[test]
fn an_oversized_label_never_reaches_the_kernel() {
    let mut host = CelhyperVmHost::new(64);
    let step = host.begin(create(&"x".repeat(33)));
    assert!(matches!(step, HyperStep::Reply(Err(e)) if e == "hyper: label > 32 chars"));
    let step = host.begin(create(&"x".repeat(32)));
    assert!(matches!(step, HyperStep::Call(HyperRequest::Create { .. }, _)));
}

#[test]
fn list_asks_the_kernel_for_its_vms() {
    let mut host = Kernel::new();
    let owner = NodeId::named("n1");
    let _ = host.host.fallback.current_rows(&owner);
    host.handle(create("guest-a")).unwrap();
    let VmOpReply::Listed { rows } = host.handle(VmOp::List).unwrap() else { panic!("rows") };
    assert_eq!(rows, host.snapshot(&owner));
    assert_eq!(rows[0].label, "guest-a");
    assert_eq!(rows[0].owner, owner);
    let HyperStep::Call(HyperRequest::List, pending) = host.host.begin(VmOp::List) else {
        panic!("asks the kernel")
    };
    let odd = Ok(HyperReply::Deleted { vm_id: 0 });
    let err = host.host.finish(pending, odd, "Deleted").unwrap_err();
    assert_eq!(err, "hyper: unexpected reply Deleted");
}

#[test]
fn loopback_runs_out_of_slots_after_max_vms() {
    let mut host = Kernel::new();
    for i in 0..HYPER_MAX_VMS {
        let r = host.handle(create(&format!("g{i}"))).unwrap();
        assert!(matches!(r, VmOpReply::Created { .. }));
    }
    let err = host.handle(create("overflow")).expect_err("registry must be full");
    assert!(err.contains("registry full"), "err={err}");
}

#[test]
fn loopback_start_on_terminal_is_an_error() {
    let mut host = Kernel::new();
    let _ = host.handle(create("g")).unwrap();
    let _ = host.handle(VmOp::Start { vm_id: 0 }).unwrap();
    let err = host.handle(VmOp::Start { vm_id: 0 }).expect_err("start-on-terminal must error");
    assert!(err.contains("terminal"), "err={err}");
}

#[test]
fn create_metadata_round_trips_through_snapshot() {
    let mut host = Kernel::new();
    let owner = NodeId("nM".to_string());
    let r = host
        .handle(VmOp::Create {
            label: "meta".to_string(),
            restart_policy: RestartPolicy::Never,
            image_path: Some("/img/x.raw".to_string()),
            cpu_count: Some(2),
            memory_mib: Some(512),
            boot_blob_crc32c: Some(0xDEAD_BEEF),
        })
        .unwrap();
    assert!(matches!(r, VmOpReply::Created { vm_id: 0 }));
    let snap = host.snapshot(&owner);
    assert_eq!(snap.len(), 1);
    let row = &snap[0];
    assert_eq!(row.image_path.as_deref(), Some("/img/x.raw"));
    assert_eq!(row.cpu_count, Some(2));
    assert_eq!(row.memory_mib, Some(512));
    assert_eq!(row.boot_blob_crc32c, Some(0xDEAD_BEEF));
}

#[test]
fn strict_mode_rejects_non_lifecycle_ops() {
    let mut host = Kernel::new();
    host.host = CelhyperVmHost::new(64).with_strict(true);
    assert!(host.host.strict());
    let err = host
        .handle(VmOp::CreateVolume { name: "v1".to_string(), size_bytes: 64 * 1024 })
        .expect_err("strict mode must reject volumes");
    assert!(err.contains("strict mode"), "err={err}");
    assert!(err.contains("CreateVolume"), "err={err}");
}

#[test]
fn fallback_handles_non_lifecycle_ops() {
    let mut host = Kernel::new();
    let owner = NodeId("nA".to_string());
    let _ = host.snapshot(&owner);
    let _ = host.host.fallback.current_rows(&owner);
    let r = host
        .handle(VmOp::CreateVolume { name: "v1".to_string(), size_bytes: 64 * 1024 })
        .unwrap();
    assert!(matches!(r, VmOpReply::VolumeCreated { .. }));
}

#[test]
fn crc32c_matches_known_vector() {
    assert_eq!(crc32c_bytes(b""), 0);
    assert_eq!(crc32c_bytes(b"123456789"), 0xe306_9283);
}

#[test]
fn hex_encode_round_trips() {
    let raw: &[u8] = &[0x00, 0xDE, 0xAD, 0xBE, 0xEF, 0xFF];
    let hex = hex_encode(raw);
    assert_eq!(hex, "00deadbeefff");
    let bytes = hex.as_bytes();
    let mut out = Vec::with_capacity(raw.len());
    let mut i = 0;
    while i < bytes.len() {
        let hi = hex_nibble(bytes[i]).unwrap();
        let lo = hex_nibble(bytes[i + 1]).unwrap();
        out.push((hi << 4) | lo);
        i += 2;
    }
    assert_eq!(out, raw);
}

#[test]
fn hex_that_is_not_hex_is_refused() {
    assert_eq!(hex_decode(b"00ff").unwrap(), vec![0x00, 0xFF]);
    assert!(hex_decode(b"0g").is_none());
    assert!(hex_nibble(b'x').is_err());
}

#[test]
fn stage_image_round_trips_through_loopback() {
    let mut host = Kernel::new();
    let payload: Vec<u8> = (0u32..256).map(|i| (i * 7) as u8).collect();
    let crc = host.stage_image(&payload).expect("stage_image ok");
    assert_eq!(crc, crc32c_bytes(&payload));
}

#[test]
fn stage_image_rejects_empty() {
    let mut host = Kernel::new();
    let err = host.stage_image(&[]).expect_err("empty must fail");
    assert!(err.contains("empty"), "err={err}");
}

#[test]
fn stage_image_rejects_oversize() {
    let mut host = Kernel::new();
    let payload = vec![0xAA; MAX_STAGED_IMAGE_BYTES + 1];
    let err = host.stage_image(&payload).expect_err("oversize must fail");
    assert!(err.contains("MAX_STAGED_IMAGE_BYTES"), "err={err}");
}

#[test]
fn loopback_image_load_rejects_crc_mismatch() {
    let mut link = LoopbackHyperLink::new();
    let bytes = b"abcdef".to_vec();
    let bad_crc = crc32c_bytes(&bytes).wrapping_add(1);
    let err = link
        .apply(HyperRequest::ImageLoad {
            len: bytes.len() as u32,
            crc32c: bad_crc,
            bytes_hex: hex_encode(&bytes),
        })
        .expect_err("crc mismatch must fail");
    match err {
        CelError::Invalid(msg) => assert!(msg.contains("crc32c"), "msg={msg}"),
        other => panic!("expected CelError::Invalid, got {other:?}"),
    }
}

#[test]
fn loopback_image_load_rejects_length_mismatch() {
    let mut link = LoopbackHyperLink::new();
    let bytes = b"abcd".to_vec();
    let err = link
        .apply(HyperRequest::ImageLoad {
            len: 99,
            crc32c: crc32c_bytes(&bytes),
            bytes_hex: hex_encode(&bytes),
        })
        .expect_err("len mismatch must fail");
    assert!(matches!(err, CelError::Invalid(_)));
}

#[test]
fn a_kernel_that_answers_oddly_is_reported() {
    let mut host = CelhyperVmHost::new(64);
    let HyperStep::Call(_, pending) = host.begin(VmOp::Start { vm_id: 0 }) else {
        panic!("the kernel must be asked")
    };
    let odd = Ok(HyperReply::Deleted { vm_id: 0 });
    let err = host.finish(pending, odd, "Deleted").unwrap_err();
    assert_eq!(err, "hyper: unexpected reply Deleted");
    let HyperStep::Call(_, pending) = host.begin(VmOp::Start { vm_id: 0 }) else {
        panic!("the kernel must be asked")
    };
    let err = host.finish(pending, Err("gone".to_string()), "").unwrap_err();
    assert_eq!(err, "hyper: gone");
    let echoed = Ok(HyperReply::ImageLoaded { len: 3, crc32c: 1 });
    assert!(CelhyperVmHost::stage_image_end(4, 1, echoed, "").is_err());
    assert_eq!(op_kind(&VmOp::ListNics), "ListNics");
}

// --- lines -------------------------------------------------------------------

#[test]
fn lines_carry_one_value_each() {
    assert_eq!(frame_line("{}"), "{}\n");
    assert_eq!(reply_value(3, "{}\n").unwrap(), "{}");
    assert_eq!(request_value(3, "{}\r\n").unwrap().as_deref(), Some("{}"));
    assert_eq!(request_value(0, "").unwrap(), None);
    assert_eq!(
        reply_value(0, "").unwrap_err(),
        CelError::Io("hyper-serial: peer closed".to_string())
    );
    let long = "x".repeat(65_537);
    assert!(reply_value(long.len(), &long).is_err());
    assert!(request_value(long.len(), &long).is_err());
    assert!(matches!(call_timed_out(), CelError::Timeout(_)));
    assert_eq!(hyper_ipc_magic(), "celhyper-ipc/1");
}
