//! Tenants: names, capabilities, quotas, credentials, the store and its use.

use celium::error::CelError;
use celium::mesh::capabilities::Capabilities;
use celium::mesh::federation::RestartPolicy;
use celium::mesh::host::{HostResult, HostStep, MemVmHost, StoreCall, StoreOutcome};
use celium::mesh::membership::NodeId;
use celium::mesh::proto::{VmOp, VmOpReply};
use celium::mesh::vault::{VolumeId, VolumeMeta};
use celium::tenancy::audit::{read_lines, tail, AuditAction, AuditEvent, MemAuditSink};
use celium::tenancy::auth::{
    clamp_millis, hash_password, hash_password_with_salt, hash_token, mint_token, now_ms,
    token_from_bytes, verify_password, PasswordHashStr, Session, SessionToken, TokenHash,
    TOKEN_HEX_LEN,
};
use celium::tenancy::caps::{attenuate, TenantCaps};
use celium::tenancy::cli::{run_quota, run_tenant, run_user, QuotaCmd, TenantCmd, UserCmd};
use celium::tenancy::exec::{
    effective_caps_for, exec, op_summary, reply_summary, state_summary, vm_create_op,
    volume_create_op, ExecAudit, ExecOptions, ExecReport, ExecStep,
};
use celium::tenancy::namespace::{validate_segment, TenantNamespace};
use celium::tenancy::quota::{
    charge_quota, release_quota, QuotaCharge, QuotaUsage, TenantQuotas,
};
use celium::tenancy::runtime::{charge_for, refusal, Settled, TenantStep, TenantVmHost, Ticket};
use celium::tenancy::store::MemTenantStore;
use celium::tenancy::tenant::{Tenant, TenantId, TenantSpec};
use celium::tenancy::trail::Origin;
use celium::tenancy::user::UserId;

fn vcpus(n: u32) -> QuotaCharge {
    QuotaCharge { vcpus: n, ..Default::default() }
}

// --- names -------------------------------------------------------------------

#[test]
fn paths_are_well_formed() {
    let ns = TenantNamespace::new("acme").unwrap();
    assert_eq!(ns.root(), "/tenants/acme");
    assert_eq!(ns.vms(), "/tenants/acme/vms");
    assert_eq!(ns.volumes(), "/tenants/acme/volumes");
    assert_eq!(ns.networks(), "/tenants/acme/networks");
    assert_eq!(ns.users(), "/tenants/acme/users");
    assert_eq!(ns.quotas(), "/tenants/acme/quotas");
    assert_eq!(ns.user_path("alice").unwrap(), "/tenants/acme/users/alice");
}

#[test]
fn rejects_bad_names() {
    assert!(TenantNamespace::new("").is_err());
    assert!(TenantNamespace::new("has spaces").is_err());
    assert!(TenantNamespace::new("with/slash").is_err());
    assert!(TenantNamespace::new(&"x".repeat(65)).is_err());
}

#[test]
fn names_at_the_limit() {
    assert!(validate_segment(&"x".repeat(64)).is_ok());
    assert!(validate_segment("A-z_09").is_ok());
    assert!(validate_segment("\u{00e9}").is_err());
    assert!(Tenant::validate_name("acme").is_ok());
    assert!(Tenant::validate_name("").is_err());
    assert!(TenantNamespace::new("acme").unwrap().user_path("a b").is_err());
}

// --- capabilities ------------------------------------------------------------

#[test]
fn all_round_trips_through_mesh_capabilities() {
    let mesh = TenantCaps::all().to_mesh_capabilities();
    assert!(mesh.contains(Capabilities::vm_lifecycle_write()));
    assert!(mesh.contains(Capabilities::volume_attach()));
    assert!(mesh.contains(Capabilities::lb_write()));
}

#[test]
fn none_projects_to_no_mesh_caps() {
    let mesh = TenantCaps::none().to_mesh_capabilities();
    assert!(!mesh.contains(Capabilities::vm_lifecycle_read()));
}

#[test]
fn parse_and_render_round_trip() {
    let parsed = TenantCaps::parse_tags("vm.read, vm.write,vol.read").unwrap();
    let tags = parsed.to_tags();
    let reparsed = TenantCaps::parse_tags(&tags).unwrap();
    assert_eq!(parsed, reparsed);
}

#[test]
fn parse_unknown_tag_errors() {
    assert!(TenantCaps::parse_tags("vm.read,bogus").is_err());
}

#[test]
fn attenuate_requires_subset() {
    let root = TenantCaps::vm_lifecycle_read() | TenantCaps::vm_lifecycle_write();
    assert!(attenuate(root, TenantCaps::vm_lifecycle_read()).is_ok());
    assert!(attenuate(root, TenantCaps::volume_write()).is_err());
}

#[test]
fn from_bits_truncate_drops_unknown_bits() {
    let raw = 0xFFFF_FFFF;
    let parsed = TenantCaps::from_bits_truncate(raw);
    assert_eq!(parsed, TenantCaps::all());
}

#[test]
fn all_tag_round_trips() {
    let parsed = TenantCaps::parse_tags("all").unwrap();
    assert_eq!(parsed, TenantCaps::all());
    assert_eq!(parsed.to_tags(), "all");
}

#[test]
fn none_tag_round_trips() {
    let parsed = TenantCaps::parse_tags("none").unwrap();
    assert_eq!(parsed, TenantCaps::none());
    assert_eq!(parsed.to_tags(), "none");
}

#[test]
fn capability_sets_combine() {
    let mut c = TenantCaps::none();
    c.grant(TenantCaps::volume_read());
    assert_eq!(c.to_tags(), "vol.read");
    c.revoke(TenantCaps::volume_read());
    assert_eq!(c, TenantCaps::none());
    c |= TenantCaps::volume_read();
    assert_eq!(c | TenantCaps::volume_write(), TenantCaps::volume_read() | TenantCaps::volume_write());
    let all = TenantCaps::all();
    assert_eq!(TenantCaps::from_bits_truncate(all.bits()), all);
}

// --- quotas ------------------------------------------------------------------

fn ten_quotas() -> TenantQuotas {
    TenantQuotas {
        max_vcpus: 10,
        max_memory_mib: 10_000,
        max_storage_bytes: 10 * 1024 * 1024 * 1024,
        max_network_mbps: 1_000,
        max_iops: 10_000,
    }
}

#[test]
fn small_charge_fits() {
    let u = charge_quota(
        QuotaUsage::default(),
        ten_quotas(),
        QuotaCharge {
            vcpus: 2,
            memory_mib: 1024,
            storage_bytes: 1024 * 1024,
            network_mbps: 100,
            iops: 500,
        },
    )
    .unwrap();
    assert_eq!(u.vcpus, 2);
    assert_eq!(u.memory_mib, 1024);
}

#[test]
fn vcpu_exhaustion_surface() {
    let err =
        charge_quota(QuotaUsage { vcpus: 9, ..Default::default() }, ten_quotas(), vcpus(2))
            .unwrap_err();
    assert!(matches!(err, CelError::Exhausted("quota.vcpus")));
}

#[test]
fn release_is_saturating() {
    let u = release_quota(QuotaUsage { vcpus: 1, ..Default::default() }, vcpus(5));
    assert_eq!(u.vcpus, 0);
}

#[test]
fn iops_exhaustion_surface() {
    let err = charge_quota(
        QuotaUsage { iops: 9_999, ..Default::default() },
        ten_quotas(),
        QuotaCharge { iops: 2, ..Default::default() },
    )
    .unwrap_err();
    assert!(matches!(err, CelError::Exhausted("quota.iops")));
}

#[test]
fn every_ceiling_has_its_name() {
    let zero = TenantQuotas {
        max_vcpus: 0,
        max_memory_mib: 0,
        max_storage_bytes: 0,
        max_network_mbps: 0,
        max_iops: 0,
    };
    let cases = [
        (QuotaCharge { memory_mib: 1, ..Default::default() }, "quota.memory"),
        (QuotaCharge { storage_bytes: 1, ..Default::default() }, "quota.storage"),
        (QuotaCharge { network_mbps: 1, ..Default::default() }, "quota.network"),
    ];
    for (c, tag) in cases {
        let err = charge_quota(QuotaUsage::default(), zero, c).unwrap_err();
        assert_eq!(err, CelError::Exhausted(tag));
    }
    assert!(zero.fits_in(&TenantQuotas::unlimited()));
    assert!(!TenantQuotas::unlimited().fits_in(&zero));
}

// --- credentials and tokens --------------------------------------------------

#[test]
fn round_trip_password_verifies() {
    let h = hash_password("hunter2").unwrap();
    assert!(verify_password("hunter2", &h).is_ok());
    assert!(!h.as_str().contains("hunter2"));
    let err = verify_password("hunter3", &h).unwrap_err();
    assert!(matches!(err, CelError::CapabilityDenied("auth.credentials")));
}

#[test]
fn empty_password_refused() {
    let err = hash_password("").unwrap_err();
    assert!(matches!(err, CelError::Invalid(_)));
}

#[test]
fn two_hashes_of_same_password_differ() {
    let h1 = hash_password("hunter2").unwrap();
    let h2 = hash_password("hunter2").unwrap();
    assert_ne!(h1.as_str(), h2.as_str());
    assert!(verify_password("hunter2", &h1).is_ok());
    assert!(verify_password("hunter2", &h2).is_ok());
}

#[test]
fn a_salt_must_be_long_enough() {
    let failed = CelError::Internal("argon2 hash_password failed");
    assert_eq!(hash_password_with_salt("hunter2", "").unwrap_err(), failed);
    assert!(hash_password("hunter2").is_ok());
}

#[test]
fn a_salt_decides_the_hash() {
    let salt = "c29tZXNhbHRzb21lc2FsdA";
    let a = hash_password_with_salt("hunter2", salt).unwrap();
    let b = hash_password_with_salt("hunter2", salt).unwrap();
    assert_eq!(a.as_str(), b.as_str());
    assert!(a.as_str().starts_with("$argon2id$"));
    let junk = PasswordHashStr::from_stored("not a hash".to_string());
    assert!(verify_password("hunter2", &junk).is_err());
}

#[test]
fn hashes_with_absurd_parallelism_are_not_accepted() {
    let salt = "c29tZXNhbHRzb21lc2FsdA";
    let good = hash_password_with_salt("hunter2", salt).unwrap();
    assert!(good.as_str().contains(",p=1$"));
    assert!(verify_password("hunter2", &good).is_ok());
    for p in ["p=16777216", "p=536870912", "p=4294967295", "p=99999999999999999999"] {
        let odd = PasswordHashStr::from_stored(good.as_str().replace("p=1", p));
        assert_eq!(
            verify_password("hunter2", &odd).unwrap_err(),
            CelError::CapabilityDenied("auth.credentials")
        );
    }
    let mut s = MemTenantStore::new();
    let t = s.create(small("acme", 4), TenantCaps::all()).unwrap();
    let u = s.add_user(t.id, "alice".to_string(), TenantCaps::all()).unwrap();
    let odd = PasswordHashStr::from_stored(good.as_str().replace("p=1", "p=536870912"));
    s.store_password(t.id, u.id, odd).unwrap();
    assert!(s.authenticate("acme", "alice", "hunter2").is_err());
    s.store_password(t.id, u.id, good).unwrap();
    assert!(s.authenticate("acme", "alice", "hunter2").is_ok());
}

#[test]
fn tokens_and_sessions_can_be_copied_and_compared() {
    let (t, h) = mint_token();
    assert_eq!(t.clone(), t);
    let a = session_of(h);
    assert_eq!(a.clone(), a);
    assert_ne!(Session { expires_ms: 9, ..a.clone() }, a);
}

fn session_of(token_hash: TokenHash) -> Session {
    Session {
        token_hash,
        tenant: TenantId(1),
        user: UserId(1),
        user_name: "alice".to_string(),
        caps: TenantCaps::all(),
        created_ms: 0,
        expires_ms: 8,
    }
}

#[test]
fn token_mint_is_unique_and_hex() {
    let (t1, _) = mint_token();
    let (t2, _) = mint_token();
    assert_ne!(t1.as_str(), t2.as_str());
    assert_eq!(t1.as_str().len(), TOKEN_HEX_LEN);
    assert!(t1.as_str().bytes().all(|b| b.is_ascii_hexdigit()));
}

#[test]
fn token_hash_is_deterministic() {
    let (t, h1) = mint_token();
    let h2 = hash_token(&t);
    assert_eq!(h1, h2);
}

#[test]
fn token_from_hex_validates() {
    let (t, _) = mint_token();
    let parsed = SessionToken::from_hex(t.as_str()).unwrap();
    assert_eq!(parsed, t);
    assert!(SessionToken::from_hex("deadbeef").is_err());
    let mut bogus = "z".repeat(TOKEN_HEX_LEN);
    bogus.truncate(TOKEN_HEX_LEN);
    assert!(SessionToken::from_hex(&bogus).is_err());
}

#[test]
fn tokens_are_the_hex_of_their_bytes() {
    let (t, h) = token_from_bytes(&[0xab; 32]);
    assert_eq!(t.as_str(), "ab".repeat(32));
    assert_eq!(h, hash_token(&t));
    // SHA-256 of the 64 characters "abab...ab".
    assert_eq!(h.0.len(), 32);
    assert_ne!(&h.0[..], &[0xab; 32]);
}

#[test]
fn session_expiry_arithmetic() {
    let s = Session {
        token_hash: TokenHash([0; 32]),
        tenant: TenantId(1),
        user: UserId(1),
        user_name: "alice".to_string(),
        caps: TenantCaps::none(),
        created_ms: 1000,
        expires_ms: 2000,
    };
    assert!(!s.is_expired_at(1999));
    assert!(s.is_expired_at(2000));
    assert!(s.is_expired_at(9999));
}

#[test]
fn time_is_clamped() {
    assert_eq!(clamp_millis(None), 0);
    assert_eq!(clamp_millis(Some(7)), 7);
    assert_eq!(clamp_millis(Some(u128::MAX)), u64::MAX);
    assert!(now_ms() > 1_600_000_000_000);
}

// --- the store ---------------------------------------------------------------

fn quotas() -> TenantQuotas {
    TenantQuotas {
        max_vcpus: 8,
        max_memory_mib: 8 * 1024,
        max_storage_bytes: 100 * 1024 * 1024,
        max_network_mbps: 1_000,
        max_iops: 10_000,
    }
}

fn spec(name: &str) -> TenantSpec {
    TenantSpec::new(name, quotas()).unwrap()
}

fn small_quotas(vcpus: u32) -> TenantQuotas {
    TenantQuotas {
        max_vcpus: vcpus,
        max_memory_mib: u64::from(vcpus) * 1024,
        max_storage_bytes: u64::from(vcpus) * 1024 * 1024,
        max_network_mbps: vcpus * 100,
        max_iops: vcpus * 1000,
    }
}

fn small(name: &str, vcpus: u32) -> TenantSpec {
    TenantSpec::new(name, small_quotas(vcpus)).unwrap()
}

#[test]
fn mem_store_create_list_delete() {
    let mut s = MemTenantStore::new();
    let t = s.create(spec("acme"), TenantCaps::all()).unwrap();
    assert_eq!(t.namespace, "/tenants/acme");
    let listed = s.list();
    assert_eq!(listed.len(), 1);
    s.delete(t.id).unwrap();
    assert!(s.get(t.id).is_err());
}

#[test]
fn mem_store_duplicate_name_errors() {
    let mut s = MemTenantStore::new();
    s.create(spec("acme"), TenantCaps::all()).unwrap();
    let err = s.create(spec("acme"), TenantCaps::all()).unwrap_err();
    assert!(matches!(err, CelError::Storage(_)));
}

#[test]
fn user_caps_attenuate() {
    let mut s = MemTenantStore::new();
    let t = s
        .create(spec("acme"), TenantCaps::vm_lifecycle_read() | TenantCaps::vm_lifecycle_write())
        .unwrap();
    let u = s.add_user(t.id, "alice".to_string(), TenantCaps::vm_lifecycle_read()).unwrap();
    assert_eq!(u.caps, TenantCaps::vm_lifecycle_read());
    let err = s.add_user(t.id, "bob".to_string(), TenantCaps::volume_write()).unwrap_err();
    assert!(matches!(err, CelError::CapabilityDenied(_)));
}

#[test]
fn charge_and_release_round_trip() {
    let mut s = MemTenantStore::new();
    let t = s.create(spec("acme"), TenantCaps::all()).unwrap();
    let charge = QuotaCharge { vcpus: 2, memory_mib: 1024, ..Default::default() };
    let u1 = s.charge(t.id, charge).unwrap();
    assert_eq!(u1.vcpus, 2);
    assert!(s.delete(t.id).is_err());
    let u2 = s.release(t.id, charge).unwrap();
    assert_eq!(u2, QuotaUsage::default());
    s.delete(t.id).unwrap();
}

#[test]
fn subtenant_inherits_parent_field() {
    let mut s = MemTenantStore::new();
    let p = s.create(small("p", 8), TenantCaps::all()).unwrap();
    let c = s.create_subtenant(p.id, small("c", 4), TenantCaps::all()).unwrap();
    assert_eq!(c.parent, Some(p.id));
    assert_eq!(p.parent, None);
    let kids = s.children(p.id);
    assert_eq!(kids.len(), 1);
    assert_eq!(kids[0].id, c.id);
    let ancs = s.ancestors(c.id).unwrap();
    assert_eq!(ancs.len(), 1);
    assert_eq!(ancs[0].id, p.id);
}

#[test]
fn subtenant_caps_must_be_subset_of_parent() {
    let mut s = MemTenantStore::new();
    let p = s
        .create(small("p", 8), TenantCaps::vm_lifecycle_read() | TenantCaps::vm_lifecycle_write())
        .unwrap();
    let err = s.create_subtenant(p.id, small("c", 2), TenantCaps::volume_write()).unwrap_err();
    assert!(matches!(err, CelError::CapabilityDenied(_)));
}

#[test]
fn subtenant_quotas_cannot_exceed_parent() {
    let mut s = MemTenantStore::new();
    let p = s.create(small("p", 4), TenantCaps::all()).unwrap();
    let err = s.create_subtenant(p.id, small("c", 8), TenantCaps::all()).unwrap_err();
    assert!(matches!(err, CelError::Invalid("subtenant quotas exceed parent quotas")));
}

#[test]
fn chains_end_at_the_limit() {
    let mut s = MemTenantStore::new();
    let mut id = s.create(small("t0", 8), TenantCaps::all()).unwrap().id;
    for i in 1..=64 {
        id = s.create_subtenant(id, small(&format!("t{i}"), 8), TenantCaps::all()).unwrap().id;
    }
    assert_eq!(s.ancestors(id).unwrap().len(), 64);
    assert!(s.charge(id, vcpus(1)).is_ok());
    let deep = s.create_subtenant(id, small("t65", 8), TenantCaps::all()).unwrap().id;
    let too_deep = CelError::Internal("tenant hierarchy too deep");
    assert_eq!(s.ancestors(deep).unwrap_err(), too_deep);
    assert_eq!(s.charge(deep, vcpus(1)).unwrap_err(), too_deep);
}

#[test]
fn ids_never_come_back() {
    let mut s = MemTenantStore::new();
    let a = s.create(small("a", 8), TenantCaps::all()).unwrap();
    let u = s.add_user(a.id, "alice".to_string(), TenantCaps::all()).unwrap();
    s.remove_user(a.id, u.id).unwrap();
    assert!(s.create(small("a", 8), TenantCaps::all()).is_err());
    s.delete(a.id).unwrap();
    let b = s.create(small("a", 8), TenantCaps::all()).unwrap();
    assert!(b.id.0 > a.id.0);
    assert!(b.users.is_empty());
    assert_eq!(b.usage, QuotaUsage::default());
    assert_eq!(b.namespace, "/tenants/a");
    let v = s.add_user(b.id, "alice".to_string(), TenantCaps::all()).unwrap();
    assert!(v.id.0 > u.id.0);
}

#[test]
fn charge_propagates_to_ancestors() {
    let mut s = MemTenantStore::new();
    let p = s.create(small("p", 8), TenantCaps::all()).unwrap();
    let c = s.create_subtenant(p.id, small("c", 4), TenantCaps::all()).unwrap();
    let cu = s.charge(c.id, vcpus(2)).unwrap();
    assert_eq!(cu.vcpus, 2);
    let p_after = s.get(p.id).unwrap();
    assert_eq!(p_after.usage.vcpus, 2);
}

#[test]
fn charge_fails_when_ancestor_exhausted() {
    let mut s = MemTenantStore::new();
    let p = s.create(small("p", 4), TenantCaps::all()).unwrap();
    let c = s.create_subtenant(p.id, small("c", 4), TenantCaps::all()).unwrap();
    s.charge(p.id, vcpus(3)).unwrap();
    let err = s.charge(c.id, vcpus(2)).unwrap_err();
    assert!(matches!(err, CelError::Exhausted("quota.vcpus")));
    let c_after = s.get(c.id).unwrap();
    assert_eq!(c_after.usage.vcpus, 0);
    let p_after = s.get(p.id).unwrap();
    assert_eq!(p_after.usage.vcpus, 3);
}

#[test]
fn release_propagates_to_ancestors() {
    let mut s = MemTenantStore::new();
    let p = s.create(small("p", 8), TenantCaps::all()).unwrap();
    let c = s.create_subtenant(p.id, small("c", 4), TenantCaps::all()).unwrap();
    s.charge(c.id, vcpus(2)).unwrap();
    let cu = s.release(c.id, vcpus(2)).unwrap();
    assert_eq!(cu, QuotaUsage::default());
    let p_after = s.get(p.id).unwrap();
    assert_eq!(p_after.usage, QuotaUsage::default());
}

#[test]
fn cannot_delete_parent_with_live_subtenant() {
    let mut s = MemTenantStore::new();
    let p = s.create(small("p", 8), TenantCaps::all()).unwrap();
    let c = s.create_subtenant(p.id, small("c", 2), TenantCaps::all()).unwrap();
    let err = s.delete(p.id).unwrap_err();
    assert!(matches!(err, CelError::Invalid("tenant has subtenants")));
    s.delete(c.id).unwrap();
    s.delete(p.id).unwrap();
}

#[test]
fn unknown_tenants_are_refused() {
    let mut s = MemTenantStore::new();
    let ghost = TenantId(9);
    assert_eq!(s.get(ghost).unwrap_err().code(), "invalid");
    assert_eq!(s.get_by_name("x").unwrap_err(), CelError::Invalid("tenant name unknown"));
    assert_eq!(s.delete(ghost).unwrap_err().code(), "invalid");
    assert_eq!(s.charge(ghost, vcpus(1)).unwrap_err().code(), "invalid");
    assert_eq!(s.release(ghost, vcpus(1)).unwrap_err().code(), "invalid");
    assert_eq!(s.remove_user(ghost, UserId(1)).unwrap_err().code(), "invalid");
    assert_eq!(s.delete_tenant_recursive(ghost).unwrap_err().code(), "invalid");
    let lost = spec("c").with_parent(ghost);
    assert_eq!(
        s.create(lost, TenantCaps::none()).unwrap_err(),
        CelError::Invalid("parent tenant id unknown")
    );
    assert!(s.children(ghost).is_empty());
}

// --- credentials in the store ------------------------------------------------

fn auth_fixture() -> (MemTenantStore, TenantId, UserId) {
    let mut s = MemTenantStore::new();
    let t = s.create(spec("acme"), TenantCaps::all()).unwrap();
    let u = s
        .add_user(
            t.id,
            "alice".to_string(),
            TenantCaps::vm_lifecycle_read() | TenantCaps::vm_lifecycle_write(),
        )
        .unwrap();
    (s, t.id, u.id)
}

#[test]
fn set_password_then_authenticate_succeeds() {
    let (mut s, tid, uid) = auth_fixture();
    s.set_password(tid, uid, "correct horse battery").unwrap();
    let (got_tid, got_uid, caps) =
        s.authenticate("acme", "alice", "correct horse battery").unwrap();
    assert_eq!(got_tid, tid);
    assert_eq!(got_uid, uid);
    assert!(caps.contains(TenantCaps::vm_lifecycle_read()));
}

fn assert_uniform_credentials_denied(err: CelError) {
    match err {
        CelError::CapabilityDenied("auth.credentials") => {}
        other => panic!("expected auth.credentials denied, got {other:?}"),
    }
}

#[test]
fn authenticate_wrong_password_yields_uniform_error() {
    let (mut s, tid, uid) = auth_fixture();
    s.set_password(tid, uid, "correct horse battery").unwrap();
    let err = s.authenticate("acme", "alice", "WRONG").unwrap_err();
    assert_uniform_credentials_denied(err);
}

#[test]
fn authenticate_unknown_user_yields_uniform_error() {
    let (mut s, tid, uid) = auth_fixture();
    s.set_password(tid, uid, "pw").unwrap();
    let err = s.authenticate("acme", "ghost", "pw").unwrap_err();
    assert_uniform_credentials_denied(err);
}

#[test]
fn authenticate_unknown_tenant_yields_uniform_error() {
    let (s, _tid, _uid) = auth_fixture();
    let err = s.authenticate("nope", "alice", "pw").unwrap_err();
    assert_uniform_credentials_denied(err);
}

#[test]
fn authenticate_no_password_set_yields_uniform_error() {
    let (s, _tid, _uid) = auth_fixture();
    let err = s.authenticate("acme", "alice", "pw").unwrap_err();
    assert_uniform_credentials_denied(err);
}

#[test]
fn create_session_attenuates_caps_through_user() {
    let (mut s, tid, uid) = auth_fixture();
    s.set_password(tid, uid, "pw").unwrap();
    let (token, session) = s.create_session(tid, uid, TenantCaps::all(), Some(60)).unwrap();
    assert_eq!(session.tenant, tid);
    assert_eq!(session.user, uid);
    assert!(session.caps.contains(TenantCaps::vm_lifecycle_read()));
    assert!(!session.caps.contains(TenantCaps::volume_write()));
    assert_eq!(token.as_str().len(), 64);
}

#[test]
fn validate_token_round_trip() {
    let (mut s, tid, uid) = auth_fixture();
    s.set_password(tid, uid, "pw").unwrap();
    let (token, _) = s.create_session(tid, uid, TenantCaps::all(), Some(60)).unwrap();
    let got = s.validate_token(&token).unwrap();
    assert_eq!(got.tenant, tid);
    assert_eq!(got.user, uid);
    assert_eq!(got.user_name, "alice");
}

#[test]
fn validate_token_rejects_expired() {
    let (mut s, tid, uid) = auth_fixture();
    s.set_password(tid, uid, "pw").unwrap();
    let (token, _) = s.create_session(tid, uid, TenantCaps::all(), Some(0)).unwrap();
    let err = s.validate_token(&token).unwrap_err();
    match err {
        CelError::CapabilityDenied("auth.session") => {}
        other => panic!("expected auth.session denied, got {other:?}"),
    }
}

#[test]
fn revoke_token_is_idempotent() {
    let (mut s, tid, uid) = auth_fixture();
    s.set_password(tid, uid, "pw").unwrap();
    let (token, _) = s.create_session(tid, uid, TenantCaps::all(), Some(60)).unwrap();
    s.revoke_token(&token).unwrap();
    s.revoke_token(&token).unwrap();
    let err = s.validate_token(&token).unwrap_err();
    assert!(matches!(err, CelError::CapabilityDenied("auth.session")));
}

#[test]
fn purge_expired_sessions_counts() {
    let (mut s, tid, uid) = auth_fixture();
    s.set_password(tid, uid, "pw").unwrap();
    let _ = s.create_session(tid, uid, TenantCaps::all(), Some(0)).unwrap();
    let _ = s.create_session(tid, uid, TenantCaps::all(), Some(60)).unwrap();
    let purged = s.purge_expired_sessions();
    assert_eq!(purged, 1);
}

#[test]
fn sessions_follow_the_clock() {
    let (mut s, tid, uid) = auth_fixture();
    let (token, hash) = token_from_bytes(&[7; 32]);
    let made = s.create_session_with(tid, uid, TenantCaps::all(), Some(2), hash, 1_000).unwrap();
    assert_eq!(made.expires_ms, 3_000);
    assert!(s.validate_token_at(&token, 2_999).is_ok());
    assert!(s.validate_token_at(&token, 3_000).is_err());
    assert_eq!(s.purge_expired_at(2_999), 0);
    assert_eq!(s.purge_expired_at(3_000), 1);
    assert_eq!(s.set_password(tid, UserId(99), "pw").unwrap_err().code(), "invalid");
    assert_eq!(s.set_password(tid, uid, "").unwrap_err().code(), "invalid");
}

#[test]
fn a_stored_hash_is_checked_against_the_password() {
    let (mut s, tid, uid) = auth_fixture();
    let hash = hash_password_with_salt("pw", "c29tZXNhbHRzb21lc2FsdA").unwrap();
    s.store_password(tid, uid, hash).unwrap();
    assert!(s.authenticate("acme", "alice", "pw").is_ok());
    let secret = "supersecret-marker-XYZ";
    s.set_password(tid, uid, secret).unwrap();
    assert!(!format!("{s:?}").contains(secret));
}

fn staff_fixture() -> (MemTenantStore, TenantId, UserId, UserId) {
    let mut s = MemTenantStore::new();
    let t = s.create(spec("acme"), TenantCaps::all()).unwrap();
    let a = s.add_user(t.id, "alice".to_string(), TenantCaps::all()).unwrap();
    let b = s.add_user(t.id, "bob".to_string(), TenantCaps::vm_lifecycle_read()).unwrap();
    s.set_password(t.id, a.id, "alice-pw").unwrap();
    s.set_password(t.id, b.id, "bob-pw").unwrap();
    (s, t.id, a.id, b.id)
}

#[test]
fn revoke_user_sessions_drops_only_that_users_tokens() {
    let (mut s, tid, aid, bid) = staff_fixture();
    let (alice_token, _) = s.create_session(tid, aid, TenantCaps::all(), None).unwrap();
    let (_, _) = s.create_session(tid, aid, TenantCaps::all(), None).unwrap();
    let (bob_token, _) =
        s.create_session(tid, bid, TenantCaps::vm_lifecycle_read(), None).unwrap();
    let n = s.revoke_user_sessions(tid, aid).unwrap();
    assert_eq!(n, 2);
    assert!(s.validate_token(&alice_token).is_err());
    assert!(s.validate_token(&bob_token).is_ok());
    assert_eq!(s.revoke_user_sessions(tid, aid).unwrap(), 0);
}

#[test]
fn revoke_tenant_sessions_drops_every_token() {
    let (mut s, tid, aid, bid) = staff_fixture();
    let (a_tok, _) = s.create_session(tid, aid, TenantCaps::all(), None).unwrap();
    let (b_tok, _) = s.create_session(tid, bid, TenantCaps::vm_lifecycle_read(), None).unwrap();
    let n = s.revoke_tenant_sessions(tid).unwrap();
    assert_eq!(n, 2);
    assert!(s.validate_token(&a_tok).is_err());
    assert!(s.validate_token(&b_tok).is_err());
}

#[test]
fn set_password_revokes_only_that_users_sessions() {
    let (mut s, tid, aid, bid) = staff_fixture();
    let (a_tok, _) = s.create_session(tid, aid, TenantCaps::all(), None).unwrap();
    let (b_tok, _) = s.create_session(tid, bid, TenantCaps::vm_lifecycle_read(), None).unwrap();
    s.set_password(tid, aid, "alice-pw-v2").unwrap();
    assert!(s.validate_token(&a_tok).is_err());
    assert!(s.validate_token(&b_tok).is_ok());
}

#[test]
fn remove_user_revokes_their_sessions() {
    let (mut s, tid, aid, _bid) = staff_fixture();
    let (a_tok, _) = s.create_session(tid, aid, TenantCaps::all(), None).unwrap();
    s.remove_user(tid, aid).unwrap();
    assert!(s.validate_token(&a_tok).is_err());
}

#[test]
fn rotate_root_caps_narrows_users_and_kills_sessions() {
    let (mut s, tid, aid, bid) = staff_fixture();
    let (a_tok, _) = s.create_session(tid, aid, TenantCaps::all(), None).unwrap();
    let (b_tok, _) = s.create_session(tid, bid, TenantCaps::vm_lifecycle_read(), None).unwrap();
    let report = s.rotate_root_caps(tid, TenantCaps::vm_lifecycle_read()).unwrap();
    assert_eq!(report.old_caps, TenantCaps::all());
    assert_eq!(report.new_caps, TenantCaps::vm_lifecycle_read());
    assert_eq!(report.attenuated_users, 1);
    assert_eq!(report.revoked_sessions, 2);
    assert!(s.validate_token(&a_tok).is_err());
    assert!(s.validate_token(&b_tok).is_err());
    let alice = s.get(tid).unwrap().users.into_iter().find(|u| u.id == aid).unwrap();
    assert_eq!(alice.caps, TenantCaps::vm_lifecycle_read());
}

#[test]
fn rotate_root_caps_refuses_to_exceed_parent() {
    let mut s = MemTenantStore::new();
    let p = s.create(spec("p"), TenantCaps::vm_lifecycle_read()).unwrap();
    let c = s.create_subtenant(p.id, spec("c"), TenantCaps::vm_lifecycle_read()).unwrap();
    let err = s.rotate_root_caps(c.id, TenantCaps::all()).unwrap_err();
    assert!(matches!(err, CelError::CapabilityDenied(_)));
    assert_eq!(s.get(c.id).unwrap().root_caps, TenantCaps::vm_lifecycle_read());
}

#[test]
fn delete_recursive_walks_subtree_post_order() {
    let mut s = MemTenantStore::new();
    let root = s.create(spec("root"), TenantCaps::all()).unwrap();
    let mid = s.create_subtenant(root.id, spec("mid"), TenantCaps::all()).unwrap();
    let leaf = s.create_subtenant(mid.id, spec("leaf"), TenantCaps::all()).unwrap();
    let u = s.add_user(leaf.id, "z".to_string(), TenantCaps::vm_lifecycle_read()).unwrap();
    s.set_password(leaf.id, u.id, "pw").unwrap();
    let (_tok, _) =
        s.create_session(leaf.id, u.id, TenantCaps::vm_lifecycle_read(), None).unwrap();
    let report = s.delete_tenant_recursive(root.id).unwrap();
    let names: Vec<&str> = report.deleted_tenants.iter().map(|(_, n)| n.as_str()).collect();
    assert_eq!(names, vec!["leaf", "mid", "root"]);
    assert_eq!(report.revoked_sessions, 1);
    assert_eq!(report.dropped_users, 1);
    assert_eq!(s.list().len(), 0);
}

#[test]
fn delete_recursive_refuses_if_any_node_has_usage() {
    let mut s = MemTenantStore::new();
    let p = s.create(spec("p"), TenantCaps::all()).unwrap();
    let c = s.create_subtenant(p.id, spec("c"), TenantCaps::all()).unwrap();
    s.charge(c.id, vcpus(1)).unwrap();
    let err = s.delete_tenant_recursive(p.id).unwrap_err();
    assert!(matches!(err, CelError::Invalid("tenant in use")));
    assert_eq!(s.list().len(), 2);
}

// --- records -----------------------------------------------------------------

#[test]
fn event_builder_chains() {
    let ev = AuditEvent::now("acme", AuditAction::Charge)
        .with_user(Some("alice".to_string()))
        .with_op_tag("vm.create")
        .with_charge(QuotaCharge { vcpus: 2, memory_mib: 1024, ..QuotaCharge::default() })
        .with_note("test");
    assert_eq!(ev.tenant, "acme");
    assert_eq!(ev.user.as_deref(), Some("alice"));
    assert_eq!(ev.action, AuditAction::Charge);
    assert_eq!(ev.op_capability_tag.as_deref(), Some("vm.create"));
    assert_eq!(ev.charge.as_ref().unwrap().vcpus, 2);
    assert!(ev.success);
    assert_eq!(ev.note.as_deref(), Some("test"));
    assert!(ev.timestamp_millis > 0);
}

#[test]
fn a_denial_is_a_failure() {
    assert!(!AuditEvent::now("acme", AuditAction::Deny).success);
    assert!(AuditEvent::now("acme", AuditAction::Exec).success);
    assert!(AuditEvent::at(1, "acme", AuditAction::Release).success);
}

#[test]
fn event_with_error_flips_success() {
    let ev = AuditEvent::now("acme", AuditAction::Deny).with_error("boom");
    assert!(!ev.success);
    assert_eq!(ev.error.as_deref(), Some("boom"));
}

#[test]
fn mem_sink_records_events() {
    let mut sink = MemAuditSink::new();
    assert!(sink.is_empty());
    sink.record(AuditEvent::now("acme", AuditAction::Charge));
    sink.record(AuditEvent::now("acme", AuditAction::Release));
    assert_eq!(sink.len(), 2);
    let events = sink.events();
    assert_eq!(events[0].action, AuditAction::Charge);
    assert_eq!(events[1].action, AuditAction::Release);
}

#[test]
fn the_tail_is_the_end_of_the_log() {
    let log: Vec<AuditEvent> =
        (0..5).map(|i| AuditEvent::at(i, "acme", AuditAction::Charge)).collect();
    let last = tail(&log, 2);
    assert_eq!(last.len(), 2);
    assert_eq!(last[0].timestamp_millis, 3);
    assert_eq!(tail(&log, 9).len(), 5);
    assert!(tail(&log, 0).is_empty());
}

#[test]
fn log_lines_are_trimmed_and_blank_ones_skipped() {
    let lines = read_lines("{\"a\":1}\n\n  this is not json \r\n   \n{}");
    assert_eq!(lines, vec!["{\"a\":1}", "this is not json", "{}"]);
}

// --- accounted hosts ---------------------------------------------------------

/// A store of volumes that lives in the test.
#[derive(Default)]
struct Volumes {
    made: u32,
}

impl Volumes {
    fn answer(&mut self, call: &StoreCall) -> StoreOutcome {
        match call {
            StoreCall::CreateVolume { owner, name, size_bytes } => {
                self.made += 1;
                StoreOutcome::Volume(VolumeMeta {
                    id: VolumeId(format!("{owner}/v{}", self.made)),
                    owner: owner.clone(),
                    name: name.clone(),
                    size_bytes: *size_bytes,
                })
            }
            StoreCall::DeleteVolume { .. } => StoreOutcome::Done,
            _ => StoreOutcome::Failed("not held here".to_string()),
        }
    }
}

struct Accounted {
    store: MemTenantStore,
    host: TenantVmHost,
    inner: MemVmHost,
    volumes: Volumes,
}

impl Accounted {
    fn new() -> Accounted {
        let q = TenantQuotas {
            max_vcpus: 4,
            max_memory_mib: 2048,
            max_storage_bytes: 64 * 1024,
            max_network_mbps: 100,
            max_iops: 1000,
        };
        let mut store = MemTenantStore::new();
        let t = store.create(TenantSpec::new("acme", q).unwrap(), TenantCaps::all()).unwrap();
        let inner = MemVmHost::new(64).with_caps(Capabilities::all());
        Accounted { store, host: TenantVmHost::new(t.id), inner, volumes: Volumes::default() }
    }

    fn handle(&mut self, op: VmOp) -> HostResult {
        match self.host.begin(&mut self.store, op) {
            TenantStep::Refused(why) => Err(why),
            TenantStep::Forward(op, ticket) => {
                let reply = match self.inner.apply(op) {
                    HostStep::Reply(r) => r,
                    HostStep::Store(call) => {
                        let outcome = self.volumes.answer(&call);
                        self.inner.resume(call, outcome)
                    }
                };
                self.host.finish(&mut self.store, ticket, reply).reply
            }
        }
    }

    fn usage(&self) -> QuotaUsage {
        self.store.get(self.host.tenant()).unwrap().usage
    }
}

fn create_vm(label: &str, cpu: Option<u32>, mem: Option<u64>) -> VmOp {
    VmOp::Create {
        label: label.to_string(),
        restart_policy: RestartPolicy::Never,
        image_path: None,
        cpu_count: cpu,
        memory_mib: mem,
        boot_blob_crc32c: None,
    }
}

#[test]
fn create_vm_charges_and_delete_releases() {
    let mut a = Accounted::new();
    let _ = a.inner.current_rows(&NodeId::named("tenant-host"));
    let vm_id = match a.handle(create_vm("web", Some(2), Some(1024))).unwrap() {
        VmOpReply::Created { vm_id } => vm_id,
        other => panic!("expected Created, got {other:?}"),
    };
    assert_eq!(a.usage().vcpus, 2);
    assert_eq!(a.usage().memory_mib, 1024);
    a.handle(VmOp::Start { vm_id }).unwrap();
    a.handle(VmOp::Delete { vm_id }).unwrap();
    assert_eq!(a.usage().vcpus, 0);
    assert_eq!(a.usage().memory_mib, 0);
}

#[test]
fn quota_exhaustion_short_circuits_inner_host() {
    let mut a = Accounted::new();
    let tid = a.host.tenant();
    a.store.charge(tid, vcpus(4)).unwrap();
    let err = a.handle(create_vm("x", Some(1), None)).unwrap_err();
    assert!(err.contains("quota"), "expected quota error, got {err}");
    assert_eq!(a.usage().vcpus, 4);
    assert!(a.inner.current_rows(&NodeId::named("tenant-host")).is_empty());
}

#[test]
fn create_volume_charges_and_delete_releases() {
    let mut a = Accounted::new();
    let _ = a.inner.current_rows(&NodeId::named("tenant-host"));
    let op = VmOp::CreateVolume { name: "data".to_string(), size_bytes: 4096 };
    let vid = match a.handle(op).unwrap() {
        VmOpReply::VolumeCreated { volume } => volume.id,
        other => panic!("expected VolumeCreated, got {other:?}"),
    };
    assert_eq!(a.usage().storage_bytes, 4096);
    a.handle(VmOp::DeleteVolume { volume_id: vid }).unwrap();
    assert_eq!(a.usage().storage_bytes, 0);
}

#[test]
fn inner_failure_refunds_the_charge() {
    let mut a = Accounted::new();
    let err = a.handle(create_vm(&"x".repeat(64), Some(2), Some(512))).unwrap_err();
    assert!(err.contains("label"), "expected label error, got {err}");
    assert_eq!(a.usage().vcpus, 0);
    assert_eq!(a.usage().memory_mib, 0);
}

#[test]
fn charge_planner_covers_create_and_create_volume_only() {
    assert!(charge_for(&VmOp::List).is_none());
    let c = charge_for(&create_vm("x", Some(2), Some(256))).unwrap();
    assert_eq!(c.vcpus, 2);
    assert_eq!(c.memory_mib, 256);
    let c =
        charge_for(&VmOp::CreateVolume { name: "v".to_string(), size_bytes: 999 }).unwrap();
    assert_eq!(c.storage_bytes, 999);
    let _ = CelError::Invalid("noop");
}

#[test]
fn a_refused_delete_keeps_the_charge() {
    let mut a = Accounted::new();
    let VmOpReply::Created { vm_id } = a.handle(create_vm("web", Some(1), None)).unwrap() else {
        panic!("created")
    };
    assert!(a.handle(VmOp::Delete { vm_id }).is_err());
    assert_eq!(a.usage().vcpus, 1);
}

#[test]
fn refusals_say_where_they_come_from() {
    let mut a = Accounted::new();
    let err = a.handle(create_vm("big", Some(5), None)).unwrap_err();
    assert_eq!(err, "quota exhausted: quota.vcpus");
    let label = "x".repeat(64);
    let free = a.handle(create_vm(&label, None, None)).unwrap_err();
    let paid = a.handle(create_vm(&label, Some(1), None)).unwrap_err();
    assert!(free.contains("label"));
    assert_eq!(paid, format!("tenant: {free}"));
    let unknown = CelError::Invalid("tenant id unknown");
    assert_eq!(refusal(&unknown), "tenant: quota: invalid: tenant id unknown");
}

fn origin() -> Origin {
    Origin {
        timestamp_millis: 7,
        tenant: "acme".to_string(),
        user: Some("alice".to_string()),
        tag: "vm.create",
    }
}

fn about(action: AuditAction) -> AuditEvent {
    AuditEvent::at(7, "acme", action).with_user(Some("alice".to_string())).with_op_tag("vm.create")
}

#[test]
fn charges_and_denials_are_recorded() {
    let mut a = Accounted::new();
    let op = create_vm("web", Some(3), None);
    let planned = charge_for(&op);
    let step = a.host.begin(&mut a.store, op);
    let event = origin().begin_event(planned, &step).unwrap();
    assert_eq!(event, about(AuditAction::Charge).with_charge(vcpus(3)));
    assert!(event.success);
    let op = create_vm("more", Some(2), None);
    let planned = charge_for(&op);
    let step = a.host.begin(&mut a.store, op);
    let TenantStep::Refused(why) = &step else { panic!("over the quota") };
    let event = origin().begin_event(planned, &step).unwrap();
    assert_eq!(event, about(AuditAction::Deny).with_charge(vcpus(2)).with_error(why));
    let step = a.host.begin(&mut a.store, VmOp::List);
    assert!(origin().begin_event(None, &step).is_none());
}

#[test]
fn releases_and_missing_rights_are_recorded() {
    let mut a = Accounted::new();
    let id = a.host.tenant();
    a.store.charge(id, vcpus(2)).unwrap();
    let made = Ok(VmOpReply::Created { vm_id: 4 });
    let s = a.host.finish(&mut a.store, Ticket::Create(vcpus(2)), made);
    assert!(origin().settle_events(&s).is_empty());
    let gone = Ok(VmOpReply::Deleted { vm_id: 4 });
    let s = a.host.finish(&mut a.store, Ticket::Delete(4), gone);
    assert_eq!(s.released, Some(vcpus(2)));
    let expected = vec![about(AuditAction::Release).with_charge(vcpus(2))];
    assert_eq!(origin().settle_events(&s), expected);
    assert_eq!(a.usage().vcpus, 0);
    a.store.charge(id, vcpus(1)).unwrap();
    let denied = Err("capability denied: vm.create".to_string());
    let s = a.host.finish(&mut a.store, Ticket::Create(vcpus(1)), denied);
    let expected = vec![
        about(AuditAction::Deny).with_error("tenant: capability denied: vm.create"),
        about(AuditAction::Release).with_charge(vcpus(1)).with_note("refunded"),
    ];
    assert_eq!(origin().settle_events(&s), expected);
    let s = Settled { reply: Err("no".to_string()), released: None, denied: false };
    assert!(origin().settle_events(&s).is_empty());
    let mut nobody = TenantVmHost::new(TenantId(999));
    let s = nobody.finish(&mut a.store, Ticket::Create(vcpus(1)), Err("no".to_string()));
    assert_eq!(s.released, None);
}

// --- single trips ------------------------------------------------------------

fn report(
    store: &mut MemTenantStore,
    name: &str,
    user: Option<&str>,
    op: VmOp,
    opts: ExecOptions,
) -> Result<ExecReport, CelError> {
    let (t, result) = match exec(store, name, user, op, &opts, 64)? {
        ExecStep::Answered(t, result) => (t, result),
        ExecStep::Store(t, call) => {
            let outcome = Volumes::default().answer(&call);
            t.resume(call, outcome)
        }
    };
    let shown = format!("{result:?}");
    t.audit(store, result, &shown, 7)
}

fn trip(
    store: &mut MemTenantStore,
    name: &str,
    user: Option<&str>,
    op: VmOp,
    opts: ExecOptions,
) -> Result<ExecAudit, CelError> {
    report(store, name, user, op, opts).map(|r| r.audit)
}

fn exec_fixture(caps: TenantCaps) -> (MemTenantStore, String) {
    let q = TenantQuotas {
        max_vcpus: 4,
        max_memory_mib: 4096,
        max_storage_bytes: 16 * 1024,
        max_network_mbps: 1_000,
        max_iops: 10_000,
    };
    let mut s = MemTenantStore::new();
    let t = s.create(TenantSpec::new("acme", q).unwrap(), caps).unwrap();
    (s, t.name)
}

#[test]
fn vm_create_charges_and_audit_reflects_success() {
    let (mut store, name) = exec_fixture(TenantCaps::all());
    let op = vm_create_op("web", 2, 1024);
    let audit = trip(&mut store, &name, None, op, ExecOptions::default()).unwrap();
    assert!(audit.ok(), "audit not ok: {audit:?}");
    assert_eq!(audit.op, "Create");
    assert_eq!(audit.usage_before.vcpus, 0);
    assert_eq!(audit.usage_after.vcpus, 2);
    assert_eq!(audit.usage_after.memory_mib, 1024);
    assert_eq!(audit.op_capability_tag, "vm.create");
    let pc = audit.planned_charge.unwrap();
    assert_eq!(pc.vcpus, 2);
    assert_eq!(pc.memory_mib, 1024);
}

#[test]
fn release_after_create_leaves_usage_unchanged() {
    let (mut store, name) = exec_fixture(TenantCaps::all());
    let opts = ExecOptions { release_after_create: true, ..ExecOptions::default() };
    let audit = trip(&mut store, &name, None, vm_create_op("web", 2, 1024), opts).unwrap();
    assert!(audit.ok());
    assert_eq!(audit.usage_after, audit.usage_before);
}

#[test]
fn quota_exhaustion_short_circuits_and_reports_error() {
    let (mut store, name) = exec_fixture(TenantCaps::all());
    let op = vm_create_op("big", 5, 1024);
    let audit = trip(&mut store, &name, None, op, ExecOptions::default()).unwrap();
    assert!(!audit.ok());
    let err = audit.error.unwrap();
    assert!(err.contains("quota"), "expected quota error, got {err}");
    assert_eq!(audit.usage_after.vcpus, 0);
}

#[test]
fn capability_denied_when_user_caps_too_narrow() {
    let (mut s, _) = exec_fixture(TenantCaps::all());
    let t = s.get_by_name("acme").unwrap();
    let _ = s.add_user(t.id, "alice".to_string(), TenantCaps::vm_lifecycle_read()).unwrap();
    let op = vm_create_op("web", 1, 256);
    let audit = trip(&mut s, "acme", Some("alice"), op, ExecOptions::default()).unwrap();
    assert!(!audit.ok());
    assert!(audit.error.as_deref().unwrap().contains("capability denied"));
    assert_eq!(audit.usage_after.vcpus, 0);
}

#[test]
fn every_step_of_a_trip_is_recorded() {
    let actions = |r: &ExecReport| r.events.iter().map(|e| e.action).collect::<Vec<_>>();
    let (mut store, name) = exec_fixture(TenantCaps::all());
    let op = vm_create_op("web", 2, 1024);
    let r = report(&mut store, &name, None, op, ExecOptions::default()).unwrap();
    assert_eq!(actions(&r), vec![AuditAction::Charge, AuditAction::Exec]);
    assert!(r.events.iter().all(|e| e.success && e.tenant == "acme" && e.timestamp_millis == 7));
    assert_eq!(r.events[1].charge, r.audit.planned_charge);
    assert_eq!(r.events[1].op_capability_tag.as_deref(), Some("vm.create"));
    let opts = ExecOptions { release_after_create: true, ..ExecOptions::default() };
    let r = report(&mut store, &name, None, vm_create_op("try", 1, 256), opts).unwrap();
    let expected = vec![AuditAction::Charge, AuditAction::Release, AuditAction::Exec];
    assert_eq!(actions(&r), expected);
    assert_eq!(r.events[1].note.as_deref(), Some("dry-run"));
    let op = vm_create_op("big", 5, 1024);
    let r = report(&mut store, &name, None, op, ExecOptions::default()).unwrap();
    assert_eq!(actions(&r), vec![AuditAction::Deny, AuditAction::Exec]);
    assert!(r.events.iter().all(|e| !e.success && e.error == r.audit.error));
    let t = store.get_by_name("acme").unwrap();
    store.add_user(t.id, "alice".to_string(), TenantCaps::vm_lifecycle_read()).unwrap();
    let op = vm_create_op("web", 1, 256);
    let r = report(&mut store, "acme", Some("alice"), op, ExecOptions::default()).unwrap();
    let expected =
        vec![AuditAction::Charge, AuditAction::Deny, AuditAction::Release, AuditAction::Exec];
    assert_eq!(actions(&r), expected);
    assert_eq!(r.events[2].note.as_deref(), Some("refunded"));
    assert!(r.events.iter().all(|e| e.user.as_deref() == Some("alice")));
    assert_eq!(r.audit.error.as_deref(), Some("tenant: capability denied: vm.create"));
    let r = report(&mut store, &name, None, VmOp::List, ExecOptions::default()).unwrap();
    assert_eq!(actions(&r), vec![AuditAction::Exec]);
}

#[test]
fn unknown_user_returns_invalid() {
    let (mut store, name) = exec_fixture(TenantCaps::all());
    let op = vm_create_op("web", 1, 256);
    let err = trip(&mut store, &name, Some("ghost"), op, ExecOptions::default()).unwrap_err();
    assert!(matches!(err, CelError::Invalid(_)));
}

#[test]
fn volume_create_charges_storage() {
    let (mut store, name) = exec_fixture(TenantCaps::all());
    let op = volume_create_op("data", 4096);
    let audit = trip(&mut store, &name, None, op, ExecOptions::default()).unwrap();
    assert!(audit.ok());
    assert_eq!(audit.usage_after.storage_bytes, 4096);
    assert_eq!(audit.op_capability_tag, "vol.create");
}

#[test]
fn users_act_with_their_own_capabilities() {
    let (mut s, _) = exec_fixture(TenantCaps::all());
    let t = s.get_by_name("acme").unwrap();
    s.add_user(t.id, "alice".to_string(), TenantCaps::volume_read()).unwrap();
    let t = s.get_by_name("acme").unwrap();
    assert_eq!(effective_caps_for(&t, None).unwrap(), TenantCaps::all());
    assert_eq!(effective_caps_for(&t, Some("alice")).unwrap(), TenantCaps::volume_read());
    assert!(effective_caps_for(&t, Some("bob")).is_err());
    assert_eq!(op_summary(&VmOp::ListVolumes), "ListVolumes");
    assert_eq!(op_summary(&VmOp::ListNics), "Other");
    assert!(reply_summary(&VmOpReply::Created { vm_id: 3 }, "").contains('3'));
}

#[test]
fn states_are_quoted_in_summaries() {
    let told = |state: &str| VmOpReply::State { vm_id: 3, state: state.to_string() };
    assert_eq!(reply_summary(&told("halted"), ""), "State vm_id=3 state=\"halted\"");
    assert_eq!(reply_summary(&told("a\"b\n"), ""), "State vm_id=3 state=\"a\\\"b\\n\"");
    assert_eq!(state_summary(7, "'x'"), "State vm_id=7 state='x'");
}

// --- the administrator's commands --------------------------------------------

fn made(store: &mut MemTenantStore, name: &str) -> String {
    let op = TenantCmd::Create {
        name: name.to_string(),
        quotas: quotas(),
        caps: "vm.read,vm.write".to_string(),
    };
    run_tenant(store, op).unwrap()
}

#[test]
fn tenant_commands_print_what_they_did() {
    let mut s = MemTenantStore::new();
    assert_eq!(
        made(&mut s, "acme"),
        "tenant-1  name=acme  ns=/tenants/acme  caps=vm.read,vm.write\n"
    );
    assert_eq!(
        run_tenant(&mut s, TenantCmd::List).unwrap(),
        format!(
            "{:<14}  {:<24}  {}\n{:<14}  {:<24}  {}\n",
            "ID", "NAME", "NAMESPACE", "tenant-1", "acme", "/tenants/acme"
        )
    );
    let shown = run_tenant(&mut s, TenantCmd::Show { name: "acme".to_string() }).unwrap();
    assert!(shown.starts_with("id        = tenant-1\nname      = acme\n"));
    assert!(shown.contains(
        "quotas    = vcpus<= 8, memory_mib<= 8192, storage<= 104857600 B, net<= 1000 Mbps, iops<= 10000\n"
    ));
    assert!(shown.ends_with("users     = 0\n"));
    assert_eq!(
        run_tenant(&mut s, TenantCmd::Delete { name: "acme".to_string() }).unwrap(),
        "deleted acme (tenant-1)\n"
    );
    let err = run_tenant(&mut s, TenantCmd::Show { name: "acme".to_string() }).unwrap_err();
    assert_eq!(err, CelError::Invalid("tenant name unknown"));
}

#[test]
fn user_commands_print_what_they_did() {
    let mut s = MemTenantStore::new();
    made(&mut s, "acme");
    let add = UserCmd::Add {
        tenant: "acme".to_string(),
        name: "alice".to_string(),
        caps: "vm.read".to_string(),
    };
    assert_eq!(
        run_user(&mut s, add).unwrap(),
        "user-1  name=alice  caps=vm.read  tenant=acme\n"
    );
    assert_eq!(
        run_user(&mut s, UserCmd::List { tenant: "acme".to_string() }).unwrap(),
        format!("{:<10}  {:<24}  CAPS\n{:<10}  {:<24}  vm.read\n", "ID", "NAME", "user-1", "alice")
    );
    let shown = run_tenant(&mut s, TenantCmd::Show { name: "acme".to_string() }).unwrap();
    assert!(shown.ends_with("users     = 1\n  user-1  name=alice  caps=vm.read\n"));
    let remove =
        || UserCmd::Remove { tenant: "acme".to_string(), name: "alice".to_string() };
    assert_eq!(run_user(&mut s, remove()).unwrap(), "removed alice from acme\n");
    assert_eq!(
        run_user(&mut s, remove()).unwrap_err(),
        CelError::Invalid("user name unknown")
    );
}

#[test]
fn quota_commands_print_what_they_did() {
    let mut s = MemTenantStore::new();
    made(&mut s, "acme");
    let charge = QuotaCmd::Charge { tenant: "acme".to_string(), charge: vcpus(3) };
    assert_eq!(
        run_quota(&mut s, charge).unwrap(),
        "charged: vcpus= 3, memory_mib= 0, storage= 0 B, net= 0 Mbps, iops= 0\n"
    );
    let shown = run_quota(&mut s, QuotaCmd::Show { tenant: "acme".to_string() }).unwrap();
    assert!(shown.starts_with("tenant    = acme\n"));
    assert!(shown.ends_with(
        "usage     = vcpus= 3, memory_mib= 0, storage= 0 B, net= 0 Mbps, iops= 0\n"
    ));
    let release = QuotaCmd::Release { tenant: "acme".to_string(), charge: vcpus(9) };
    assert_eq!(
        run_quota(&mut s, release).unwrap(),
        "released: vcpus= 0, memory_mib= 0, storage= 0 B, net= 0 Mbps, iops= 0\n"
    );
    let ghost = QuotaCmd::Show { tenant: "ghost".to_string() };
    assert_eq!(run_quota(&mut s, ghost).unwrap_err().code(), "invalid");
}

// --- errors ------------------------------------------------------------------

#[test]
fn errors_have_a_class_and_a_text() {
    assert_eq!(CelError::Exhausted("quota.vcpus").code(), "exhausted");
    assert_eq!(CelError::Exhausted("quota.vcpus").message(), "exhausted: quota.vcpus");
    assert_eq!(CelError::Timeout("t".to_string()).message(), "timeout: t");
    assert_eq!(CelError::Io("x".to_string()).code(), "io");
}
