//! What holds of an execution from its start to its record: whom it is for, what
//! it costs, what is said of it, and what is written down.

use vstd::prelude::*;
use vstd::string::*;

use crate::error::{CelError, CelResult, ErrorView};
use crate::mesh::capabilities;
use crate::mesh::federation;
use crate::mesh::federation::RestartPolicy;
use crate::mesh::host;
use crate::mesh::host::{HostResult, HostStep, VmState};
use crate::mesh::hyper_host;
use crate::mesh::proto::{VmOp, VmOpReply};
use crate::tenancy::audit::{AuditAction, AuditView};
use crate::tenancy::entitlements;
use crate::tenancy::exec;
use crate::tenancy::exec::{ExecOptions, ExecReport, ExecStep, ExecTrip};
use crate::tenancy::hierarchy;
use crate::tenancy::quota::QuotaCharge;
use crate::tenancy::runtime;
use crate::tenancy::runtime::{AccountView, Settled, Ticket};
use crate::tenancy::store;
use crate::tenancy::store::StoreView;
use crate::tenancy::store_laws;
use crate::tenancy::tenant::TenantView;
use crate::tenancy::trail;
use crate::tenancy::trail::OriginView;
use crate::text;

verus! {

/// A charge that takes something.
pub open spec fn takes_something(c: QuotaCharge) -> bool {
    c.vcpus > 0 || c.memory_mib > 0 || c.storage_bytes > 0 || c.network_mbps > 0 || c.iops > 0
}

proof fn lemma_names(ts: Seq<TenantView>, name: Seq<char>)
    ensures
        match store::find_name(ts, name) {
            Some(k) => 0 <= k < ts.len() && ts[k].name == name,
            None => forall|k: int| 0 <= k < ts.len() ==> (#[trigger] ts[k]).name != name,
        },
{
    let names = store::tenant_names(ts);
    store::lemma_first_at(names, name, 0);
    assert forall|k: int| 0 <= k < ts.len() && store::find_name(ts, name) is None implies (
    #[trigger] ts[k]).name != name by {
        assert(names[k] == ts[k].name);
    }
}

/// An execution starts exactly if its tenant is known and, where a user is named,
/// that user is one of the tenant's. Where it does not start, nothing changes.
pub proof fn law_who_may_execute(
    s: StoreView,
    tenant_name: Seq<char>,
    user: Option<Seq<char>>,
    op: VmOp,
    opts: ExecOptions,
    max_mount: usize,
    n: StoreView,
    r: CelResult<ExecStep>,
)
    requires
        store_laws::sound(s),
        exec::executed(s, tenant_name, user, op, opts, max_mount, n, r),
    ensures
        r is Ok <==> exists|i: int|
            0 <= i < s.tenants.len() && (#[trigger] s.tenants[i]).name == tenant_name && (
            user matches Some(u) ==> exists|j: int|
                0 <= j < s.tenants[i].users.len() && (#[trigger] s.tenants[i].users[j]).name == u),
        r is Err ==> n == s,
        r is Err ==> r == Err::<ExecStep, CelError>(CelError::Invalid("tenant name unknown")) || r
            == Err::<ExecStep, CelError>(CelError::Invalid("tenancy: user unknown")),
        r == Err::<ExecStep, CelError>(CelError::Invalid("tenant name unknown")) ==> (forall|i: int|
            0 <= i < s.tenants.len() ==> (#[trigger] s.tenants[i]).name != tenant_name),
{
    lemma_names(s.tenants, tenant_name);
    reveal_strlit("tenant name unknown");
    reveal_strlit("tenancy: user unknown");
    assert("tenant name unknown"@.len() != "tenancy: user unknown"@.len());
    if let Some(k) = store::find_name(s.tenants, tenant_name) {
        let t = s.tenants[k];
        if let Some(u) = user {
            let us = store::user_names(t.users);
            store::lemma_first_at(us, u, 0);
            if exec::granted(t, user) is None {
                assert forall|j: int| 0 <= j < t.users.len() implies (#[trigger] t.users[j]).name
                    != u by {
                    assert(us[j] == t.users[j].name);
                }
            } else {
                let j = store::find_user_name(t.users, u)->0;
                assert(us[j] == t.users[j].name);
                assert(t.users[j].name == u);
            }
        }
        assert forall|i: int| 0 <= i < s.tenants.len() && (#[trigger] s.tenants[i]).name
            == tenant_name implies i == k by {
            if i < k {
                assert(s.tenants[i].name != s.tenants[k].name);
            } else if k < i {
                assert(s.tenants[k].name != s.tenants[i].name);
            }
        }
        assert(s.tenants[k].name == tenant_name);
    }
}

/// What an execution does on its host: a fresh one that belongs to the named
/// node, or to `tenant-exec`, and that grants at most what the caller holds. A VM
/// that it creates is the first on it and as it was asked for.
pub proof fn law_executed_create(
    s: StoreView,
    tenant_name: Seq<char>,
    user: Option<Seq<char>>,
    label: Seq<char>,
    cpu_count: u32,
    memory_mib: u64,
    op: VmOp,
    opts: ExecOptions,
    max_mount: usize,
    n: StoreView,
    trip: ExecTrip,
    reply: VmOpReply,
)
    requires
        exec::asks_for_vm(label, cpu_count, memory_mib, op),
        exec::executed(
            s,
            tenant_name,
            user,
            op,
            opts,
            max_mount,
            n,
            Ok(ExecStep::Answered(trip, Ok(reply))),
        ),
    ensures
        reply == (VmOpReply::Created { vm_id: 0 }),
        trip.inner@.owner == Some(
            match opts.node {
                Some(x) => x@,
                None => "tenant-exec"@,
            },
        ),
        trip.inner@.slots[0] matches Some(x) && x.label == label && x.state == VmState::Created
            && x.last_exit is None && x.restart_policy == RestartPolicy::Never && x.cpu_count
            == Some(cpu_count) && x.memory_mib == Some(memory_mib) && x.image_path is None
            && x.boot_blob_crc32c is None && x.volumes.len() == 0,
        forall|i: int| 1 <= i < 4 ==> (#[trigger] trip.inner@.slots[i]) is None,
        trip.planned == Some(
            QuotaCharge { vcpus: cpu_count, memory_mib, storage_bytes: 0, network_mbps: 0, iops: 0 },
        ),
        trip.release == opts.release_after_create,
        trip.op@ == "Create"@,
        trip.tag@ == "vm.create"@,
{
}

/// A volume that is asked for takes its bytes and nothing else.
pub proof fn law_volume_costs_its_bytes(name: Seq<char>, size_bytes: u64, op: VmOp)
    requires
        exec::asks_for_volume(name, size_bytes, op),
    ensures
        runtime::planned(op) == Some(
            QuotaCharge {
                vcpus: 0,
                memory_mib: 0,
                storage_bytes: size_bytes,
                network_mbps: 0,
                iops: 0,
            },
        ),
        op matches VmOp::CreateVolume { name: x, .. } && x@ == name,
{
}

/// What an execution costs. What the host does not do costs nothing; what it does
/// costs what the operation takes, on top of what the tenant used before; in a
/// dry run it costs nothing either.
pub proof fn law_what_an_execution_costs(
    s: StoreView,
    i: int,
    user: Option<Seq<char>>,
    op: VmOp,
    opts: ExecOptions,
    max_mount: usize,
    n: StoreView,
    step: ExecStep,
    trip: ExecTrip,
    result: HostResult,
    shown: Seq<char>,
    now: u64,
    report: ExecReport,
)
    requires
        store_laws::sound(s),
        0 <= i < s.tenants.len(),
        runtime::planned(op) is Some,
        takes_something(runtime::planned(op)->0),
        runtime::undoable(s, s.tenants[i].id, runtime::planned(op)->0),
        exec::executed(
            s,
            s.tenants[i].name,
            user,
            op,
            opts,
            max_mount,
            n,
            Ok(step),
        ),
        match step {
            ExecStep::Answered(t, q) => trip == t && result == q,
            ExecStep::Store(t, _) => trip == (ExecTrip { inner: trip.inner, ..t }),
        },
        exec::reported(
            trip,
            n,
            result,
            shown,
            now,
            exec::settled_store(trip, n, result),
            Ok(report),
        ),
    ensures
        report.audit.usage_before == s.tenants[i].usage,
        result is Err || opts.release_after_create ==> exec::settled_store(trip, n, result) == s
            && report.audit.usage_after == s.tenants[i].usage,
        result is Ok && !opts.release_after_create ==> entitlements::is_sum(
            report.audit.usage_after,
            s.tenants[i].usage,
            runtime::planned(op)->0,
        ),
        exec::went_well(report.audit) <==> result is Ok,
        report.audit.error is Some <==> result is Err,
        report.audit.reply is Some <==> result is Ok,
        report.audit.tenant@ == s.tenants[i].name,
        federation::text_view(report.audit.user) == user,
        report.audit.planned_charge == runtime::planned(op),
{
    let t = s.tenants[i];
    let c = runtime::planned(op)->0;
    let names = store::tenant_names(s.tenants);
    assert forall|k: int| 0 <= k < i implies names[k] != t.name by {
        assert(s.tenants[k].name != s.tenants[i].name);
    }
    store::lemma_is_first(names, t.name, i);
    store_laws::lemma_find(s.tenants, i);
    entitlements::law_charge_goes_all_the_way_up(s, t.id, c, i);
    if exec::charge_refused(s, t.id, op) is None {
        store_laws::law_release_undoes_charge(s, t.id, c);
        if result is Ok && !opts.release_after_create {
            assert(exec::settled_store(trip, n, result) == n);
            assert(n.tenants[i].id == t.id);
            assert forall|k: int| 0 <= k < i implies store::tenant_ids(n.tenants)[k] != t.id by {
                entitlements::law_charge_goes_all_the_way_up(s, t.id, c, k);
                assert(s.tenants[k].id != s.tenants[i].id);
            }
            store::lemma_is_first(store::tenant_ids(n.tenants), t.id, i);
        }
    }
}

/// What is said of a charge that fails: what ran out, where something did.
pub proof fn law_refused_charge(a: AccountView, s: StoreView, op: VmOp, n: StoreView, m: String)
    requires
        runtime::begun(a, s, op, n, runtime::TenantStep::Refused(m)),
    ensures
        n == s,
        runtime::planned(op) matches Some(c) && takes_something(c) && (hierarchy::store_charged(
            s,
            a.tenant,
            c,
        ).1 matches Err(e) && (e matches ErrorView::Exhausted(what) ==> m@ == "quota exhausted: "@
            + what) && (e matches ErrorView::Invalid(what) ==> m@ == "tenant: quota: invalid: "@
            + what) && (e matches ErrorView::Internal(what) ==> m@ == "tenant: quota: internal: "@
            + what)),
{
    let e = hierarchy::store_charged(s, a.tenant, runtime::planned(op)->0).1->Err_0;
    reveal_strlit("tenant: quota: ");
    reveal_strlit("invalid: ");
    reveal_strlit("internal: ");
    reveal_strlit("tenant: quota: invalid: ");
    reveal_strlit("tenant: quota: internal: ");
    assert("tenant: quota: "@ + "invalid: "@ =~= "tenant: quota: invalid: "@);
    assert("tenant: quota: "@ + "internal: "@ =~= "tenant: quota: internal: "@);
    if let ErrorView::Invalid(what) = e {
        assert("tenant: quota: "@ + ("invalid: "@ + what) =~= "tenant: quota: "@ + "invalid: "@ + what);
    }
    if let ErrorView::Internal(what) = e {
        assert("tenant: quota: "@ + ("internal: "@ + what) =~= "tenant: quota: "@ + "internal: "@
            + what);
    }
}

/// What the caller is told. What the host says, it says to the caller, marked
/// with `tenant: ` where the operation had been paid for; a caller without the
/// right to the operation is known as one.
pub proof fn law_what_the_caller_is_told(
    a: AccountView,
    s: StoreView,
    op: VmOp,
    h: host::HostView,
    h2: host::HostView,
    q: HostResult,
    r: Settled,
)
    requires
        host::stepped(h, op, h2, HostStep::Reply(q)),
        runtime::concluded(a, s, runtime::ticket_for(op), q, r),
    ensures
        q is Ok ==> r.reply == q && !r.denied,
        q is Err <==> r.reply is Err,
        q matches Err(why) ==> (r.reply matches Err(m) && m@ == if (runtime::planned(op) matches Some(
            c,
        ) && takes_something(c)) {
            "tenant: "@ + why@
        } else {
            why@
        }),
        !h.caps.includes(capabilities::required_for(op)) ==> r.denied,
{
    if !h.caps.includes(capabilities::required_for(op)) {
        let head = "capability denied: "@;
        assert(head.is_prefix_of(head + capabilities::tag_for(op)@));
    }
}

/// What is given back once the host has answered: the charge of what it did not
/// create, and what something cost once it is gone; in any other case nothing.
/// What something cost is remembered from when it was created until it is gone.
pub proof fn law_what_is_given_back(a: AccountView, ticket: Ticket, reply: HostResult, vm_id: u32)
    ensures
        ({
            let b = runtime::noted(a, ticket, reply);
            let back = runtime::due(a, ticket, reply);
            &&& b.tenant == a.tenant
            &&& match ticket {
                Ticket::Create(c) => match reply {
                    Err(_) => b == a && (takes_something(c) ==> back == Some(c)) && (
                    !takes_something(c) ==> back is None),
                    Ok(VmOpReply::Created { vm_id: v }) => back is None && b.volumes == a.volumes
                        && b.vms.dom().contains(v) && b.vms[v] == c && (vm_id != v ==> (
                    b.vms.dom().contains(vm_id) == a.vms.dom().contains(vm_id) && b.vms[vm_id]
                        == a.vms[vm_id])),
                    Ok(_) => back is None && b == a,
                },
                Ticket::CreateVolume(c) => match reply {
                    Err(_) => b == a && (takes_something(c) ==> back == Some(c)) && (
                    !takes_something(c) ==> back is None),
                    Ok(VmOpReply::VolumeCreated { volume }) => back is None && b.vms == a.vms
                        && b.volumes.dom().contains((volume.id@, 0u32)) && b.volumes[(
                        volume.id@,
                        0u32,
                    )] == c,
                    Ok(_) => back is None && b == a,
                },
                Ticket::Delete(v) => match reply {
                    Ok(VmOpReply::Deleted { .. }) => b.volumes == a.volumes
                        && !b.vms.dom().contains(v) && (a.vms.dom().contains(v) ==> back == Some(
                        a.vms[v],
                    )) && (!a.vms.dom().contains(v) ==> back is None) && (vm_id != v ==> (
                    b.vms.dom().contains(vm_id) == a.vms.dom().contains(vm_id) && b.vms[vm_id]
                        == a.vms[vm_id])),
                    _ => back is None && b == a,
                },
                Ticket::DeleteVolume(id) => match reply {
                    Ok(VmOpReply::VolumeDeleted { .. }) => b.vms == a.vms
                        && !b.volumes.dom().contains((id@, 0u32)) && (a.volumes.dom().contains(
                        (id@, 0u32),
                    ) ==> back == Some(a.volumes[(id@, 0u32)])) && (!a.volumes.dom().contains(
                        (id@, 0u32),
                    ) ==> back is None),
                    _ => back is None && b == a,
                },
                Ticket::Other => back is None && b == a,
            }
        }),
{
    if let Ticket::Create(c) = ticket {
        assert(takes_something(c) <==> c != crate::tenancy::quota::no_charge());
    }
    if let Ticket::CreateVolume(c) = ticket {
        assert(takes_something(c) <==> c != crate::tenancy::quota::no_charge());
    }
}

/// The ticket of an operation is about what the operation is about.
pub proof fn law_tickets(op: VmOp)
    ensures
        op is Create ==> (runtime::ticket_for(op) matches Ticket::Create(c) && Some(c)
            == runtime::planned(op)),
        op is CreateVolume ==> (runtime::ticket_for(op) matches Ticket::CreateVolume(c) && Some(c)
            == runtime::planned(op)),
        op matches VmOp::Delete { vm_id } ==> runtime::ticket_for(op) == Ticket::Delete(vm_id),
        op matches VmOp::DeleteVolume { volume_id } ==> runtime::ticket_for(op)
            == Ticket::DeleteVolume(volume_id),
        !(op is Create || op is CreateVolume || op is Delete || op is DeleteVolume)
            ==> runtime::ticket_for(op) is Other,
{
}

/// An operation is recorded under the name of its kind, or as `Other` where it is
/// about attachments, the contents of volumes, snapshots, interfaces, security
/// groups or load balancers, or deletes a network.
pub proof fn law_recorded_names(op: VmOp)
    ensures
        ({
            let named = op is Create || op is Start || op is Stop || op is Delete || op is List
                || op is CreateVolume || op is DeleteVolume || op is ListVolumes
                || op is CreateNetwork || op is ListNetworks;
            &&& named ==> exec::op_name(op)@ == hyper_host::kind_of(op)@
            &&& !named ==> exec::op_name(op)@ == "Other"@
        }),
{
}

/// What a record says of a reply: its kind, and the number or the name of what it
/// is about.
pub proof fn law_summaries(r: VmOpReply, shown: Seq<char>)
    ensures
        r matches VmOpReply::Created { vm_id } ==> exec::summary_of(r, shown) == "Created vm_id="@
            + text::decimal(vm_id as nat),
        r matches VmOpReply::Deleted { vm_id } ==> exec::summary_of(r, shown) == "Deleted vm_id="@
            + text::decimal(vm_id as nat),
        r matches VmOpReply::State { vm_id, state } ==> exec::summary_of(r, shown)
            == "State vm_id="@ + text::decimal(vm_id as nat) + " state="@ + exec::debug_text(state@),
        r matches VmOpReply::Listed { rows } ==> exec::summary_of(r, shown) == "Listed rows="@
            + text::decimal(rows@.len()),
        r matches VmOpReply::VolumeCreated { volume } ==> exec::summary_of(r, shown)
            == "VolumeCreated id="@ + volume.id@ + " size="@ + text::decimal(
            volume.size_bytes as nat,
        ),
        r matches VmOpReply::VolumeDeleted { volume_id } ==> exec::summary_of(r, shown)
            == "VolumeDeleted id="@ + volume_id@,
        r matches VmOpReply::VolumesListed { volumes } ==> exec::summary_of(r, shown)
            == "VolumesListed n="@ + text::decimal(volumes@.len()),
        r matches VmOpReply::NetworkCreated { network } ==> exec::summary_of(r, shown)
            == "NetworkCreated id="@ + network.id.0@,
        r matches VmOpReply::NetworksListed { networks } ==> exec::summary_of(r, shown)
            == "NetworksListed n="@ + text::decimal(networks@.len()),
        !(r is Created || r is Deleted || r is State || r is Listed || r is VolumeCreated
            || r is VolumeDeleted || r is VolumesListed || r is NetworkCreated
            || r is NetworksListed) ==> exec::summary_of(r, shown) == shown,
{
}

/// Whether an event is about an operation.
pub open spec fn is_about(e: AuditView, o: OriginView) -> bool {
    e.timestamp_millis == o.timestamp_millis && e.tenant == o.tenant && e.user == o.user
        && e.op_capability_tag == Some(o.tag)
}

/// What is written down when an operation is taken up: why it was refused, or
/// what was charged for it, if anything was.
pub proof fn law_opening_event(
    o: OriginView,
    planned: Option<QuotaCharge>,
    refused: Option<Seq<char>>,
)
    ensures
        ({
            let e = trail::begin_record(o, planned, refused);
            &&& e is Some <==> refused is Some || (planned matches Some(c) && takes_something(c))
            &&& e matches Some(x) ==> is_about(x, o) && x.charge == planned && x.note is None
                && x.error == refused && x.success == (refused is None) && x.action == (
            if refused is Some {
                AuditAction::Deny
            } else {
                AuditAction::Charge
            })
        }),
{
    if let Some(c) = planned {
        assert(takes_something(c) <==> c != crate::tenancy::quota::no_charge());
    }
}

/// What is written down when the host has answered: first that the caller had no
/// right to the operation, if so, and last what was given back, if anything was,
/// marked as refunded where the host had refused.
pub proof fn law_settling_events(
    o: OriginView,
    told: Option<Seq<char>>,
    released: Option<QuotaCharge>,
    denied: bool,
)
    ensures
        ({
            let es = trail::settle_records(o, told, released, denied);
            &&& es.len() == (if denied {
                1int
            } else {
                0
            }) + (if released is Some {
                1int
            } else {
                0
            })
            &&& denied ==> is_about(es[0], o) && es[0].action == AuditAction::Deny && !es[0].success
                && es[0].error == told && es[0].charge is None && es[0].note is None
            &&& released is Some ==> is_about(es.last(), o) && es.last().action
                == AuditAction::Release && es.last().success && es.last().error is None
                && es.last().charge == released && es.last().note == (if told is Some {
                Some("refunded"@)
            } else {
                None
            })
        }),
{
}

/// What is written down of an execution: how it ended, as its last event, and
/// what a dry run gave back, marked as such.
pub proof fn law_last_events(trip: ExecTrip, s: StoreView, result: HostResult, now: u64)
    ensures
        ({
            let o = OriginView {
                timestamp_millis: now,
                tenant: trip.name@,
                user: federation::text_view(trip.user),
                tag: trip.tag@,
            };
            let last = exec::trip_events(trip, s, result, now).last();
            let dry = exec::dry_run_events(trip, s, result, now);
            &&& is_about(last, o) && last.action == AuditAction::Exec && last.charge == trip.planned
                && last.note is None && last.success == (result is Ok)
            &&& dry.len() <= 1
            &&& dry.len() == 1 ==> trip.release && result is Ok && is_about(dry[0], o)
                && dry[0].action == AuditAction::Release && dry[0].charge == trip.planned
                && dry[0].note == Some("dry-run"@) && dry[0].success
        }),
{
}

} // verus!
