//! One operation for a tenant, end to end: charge, run on a host that lives
//! only for the call, settle, and record what happened.
//!
//! [`exec`] runs as far as the host can go by itself. Where a store has to be
//! asked, [`ExecTrip::resume`] takes its answer. [`ExecTrip::audit`] settles
//! the accounts, writes the record, and gives the audit events of the trip.

use vstd::prelude::*;
use vstd::string::*;

use crate::error;
use crate::error::{CelError, CelResult};
use crate::mesh::capabilities;
use crate::mesh::capabilities::Capabilities;
use crate::mesh::federation;
use crate::mesh::federation::{clone_text, RestartPolicy};
use crate::mesh::host;
use crate::mesh::host::{HostResult, HostStep, HostView, MemVmHost, StoreCall, StoreOutcome};
use crate::mesh::membership::NodeId;
use crate::mesh::proto::{VmOp, VmOpReply};
use crate::tenancy::audit::{AuditEvent, AuditView};
use crate::tenancy::caps;
use crate::tenancy::caps::TenantCaps;
use crate::tenancy::hierarchy;
use crate::tenancy::quota;
use crate::tenancy::quota::{QuotaCharge, QuotaUsage};
use crate::tenancy::runtime;
use crate::tenancy::runtime::{
    charge_for, repay, AccountView, TenantStep, TenantVmHost, Ticket,
};
use crate::tenancy::store;
use crate::tenancy::store::{position_of_user_name, StoreState, StoreView};
use crate::tenancy::tenant::{Tenant, TenantId, TenantView};
use crate::tenancy::trail;
use crate::tenancy::trail::{Origin, OriginView};
use crate::text;
use crate::text::{concat, push_decimal};

verus! {

/// Settings of an execution.
#[derive(Debug, Clone)]
pub struct ExecOptions {
    /// Whether the charge of what was created is given back at once.
    pub release_after_create: bool,
    /// Node that the host belongs to; `tenant-exec` if none is named.
    pub node: Option<String>,
}

impl Default for ExecOptions {
    fn default() -> (r: ExecOptions)
        ensures
            !r.release_after_create,
            r.node is None,
    {
        ExecOptions { release_after_create: false, node: None }
    }
}

/// The record of an execution.
#[derive(Debug, Clone)]
pub struct ExecAudit {
    /// Tenant.
    pub tenant: String,
    /// User, if one was named.
    pub user: Option<String>,
    /// Name of the operation.
    pub op: String,
    /// Capability tag of the operation.
    pub op_capability_tag: &'static str,
    /// Capabilities that the host granted.
    pub effective_caps: String,
    /// What the operation takes, if anything.
    pub planned_charge: Option<QuotaCharge>,
    /// Whether the host accepted the operation.
    pub dispatch_succeeded: bool,
    /// What went wrong.
    pub error: Option<String>,
    /// The reply, in short.
    pub reply: Option<String>,
    /// Usage of the tenant before.
    pub usage_before: QuotaUsage,
    /// Usage of the tenant after.
    pub usage_after: QuotaUsage,
}

/// Whether the operation of a record went well.
pub open spec fn went_well(a: ExecAudit) -> bool {
    a.dispatch_succeeded && a.error is None
}

impl ExecAudit {
    /// Whether the operation went well.
    pub fn ok(&self) -> (r: bool)
        ensures
            r == went_well(*self),
    {
        self.dispatch_succeeded && self.error.is_none()
    }
}

/// Whether an operation creates a VM that nobody restarts.
pub open spec fn asks_for_vm(label: Seq<char>, cpu_count: u32, memory_mib: u64, op: VmOp) -> bool {
    op matches VmOp::Create {
        label: l,
        restart_policy,
        image_path,
        cpu_count: c,
        memory_mib: m,
        boot_blob_crc32c,
    } && l@ == label && restart_policy == RestartPolicy::Never && image_path is None && c == Some(
        cpu_count,
    ) && m == Some(memory_mib) && boot_blob_crc32c is None
}

/// Whether an operation creates a volume.
pub open spec fn asks_for_volume(name: Seq<char>, size_bytes: u64, op: VmOp) -> bool {
    op matches VmOp::CreateVolume { name: n, size_bytes: s } && n@ == name && s == size_bytes
}

/// The operation that creates a VM nobody restarts.
pub fn vm_create_op(label: &str, cpu_count: u32, memory_mib: u64) -> (r: VmOp)
    ensures
        asks_for_vm(label@, cpu_count, memory_mib, r),
{
    VmOp::Create {
        label: label.to_owned(),
        restart_policy: RestartPolicy::Never,
        image_path: None,
        cpu_count: Some(cpu_count),
        memory_mib: Some(memory_mib),
        boot_blob_crc32c: None,
    }
}

/// The operation that creates a volume.
pub fn volume_create_op(name: &str, size_bytes: u64) -> (r: VmOp)
    ensures
        asks_for_volume(name@, size_bytes, r),
{
    VmOp::CreateVolume { name: name.to_owned(), size_bytes }
}

/// The text that `{:?}` writes for a string: quoted, with its special characters
/// escaped.
pub uninterp spec fn debug_text(s: Seq<char>) -> Seq<char>;

/// Formats a string with `{:?}`, that is, calls the `Debug` of `str`. What it
/// writes depends on the string alone.
#[verifier::external_body]
fn debug_str(s: &str) -> (r: String)
    ensures
        r@ == debug_text(s@),
{
    format!("{s:?}")
}

/// What is said of the state of a VM, where `quoted` is the state in quotes.
pub open spec fn state_text(vm_id: u32, quoted: Seq<char>) -> Seq<char> {
    "State vm_id="@ + text::decimal(vm_id as nat) + " state="@ + quoted
}

/// See [`state_text`].
pub fn state_summary(vm_id: u32, quoted: &str) -> (t: String)
    ensures
        t@ == state_text(vm_id, quoted@),
{
    let mut s = numbered("State vm_id=", vm_id as u64);
    s.append(" state=");
    s.append(quoted);
    s
}

/// A reply in short. `shown` is the reply as it is shown where no short form
/// is fixed.
pub open spec fn summary_of(r: VmOpReply, shown: Seq<char>) -> Seq<char> {
    match r {
        VmOpReply::Created { vm_id } => "Created vm_id="@ + text::decimal(vm_id as nat),
        VmOpReply::Deleted { vm_id } => "Deleted vm_id="@ + text::decimal(vm_id as nat),
        VmOpReply::State { vm_id, state } => state_text(vm_id, debug_text(state@)),
        VmOpReply::Listed { rows } => "Listed rows="@ + text::decimal(rows@.len()),
        VmOpReply::VolumeCreated { volume } => "VolumeCreated id="@ + volume.id@ + " size="@
            + text::decimal(volume.size_bytes as nat),
        VmOpReply::VolumeDeleted { volume_id } => "VolumeDeleted id="@ + volume_id@,
        VmOpReply::VolumesListed { volumes } => "VolumesListed n="@ + text::decimal(volumes@.len()),
        VmOpReply::NetworkCreated { network } => "NetworkCreated id="@ + network.id.0@,
        VmOpReply::NetworksListed { networks } => "NetworksListed n="@ + text::decimal(
            networks@.len(),
        ),
        _ => shown,
    }
}

/// A piece of text and a number.
fn numbered(head: &str, n: u64) -> (r: String)
    ensures
        r@ == head@ + text::decimal(n as nat),
{
    let mut s = head.to_owned();
    push_decimal(&mut s, n);
    s
}

/// See [`summary_of`].
pub fn reply_summary(r: &VmOpReply, shown: &str) -> (t: String)
    ensures
        t@ == summary_of(*r, shown@),
{
    match r {
        VmOpReply::Created { vm_id } => numbered("Created vm_id=", *vm_id as u64),
        VmOpReply::Deleted { vm_id } => numbered("Deleted vm_id=", *vm_id as u64),
        VmOpReply::State { vm_id, state } => state_summary(
            *vm_id,
            debug_str(state.as_str()).as_str(),
        ),
        VmOpReply::Listed { rows } => numbered("Listed rows=", rows.len() as u64),
        VmOpReply::VolumeCreated { volume } => {
            let mut s = concat("VolumeCreated id=", volume.id.0.as_str());
            s.append(" size=");
            push_decimal(&mut s, volume.size_bytes);
            s
        },
        VmOpReply::VolumeDeleted { volume_id } => concat(
            "VolumeDeleted id=",
            volume_id.0.as_str(),
        ),
        VmOpReply::VolumesListed { volumes } => numbered("VolumesListed n=", volumes.len() as u64),
        VmOpReply::NetworkCreated { network } => concat(
            "NetworkCreated id=",
            network.id.0.as_str(),
        ),
        VmOpReply::NetworksListed { networks } => numbered(
            "NetworksListed n=",
            networks.len() as u64,
        ),
        _ => shown.to_owned(),
    }
}

/// The name under which an operation is recorded.
pub open spec fn op_name(op: VmOp) -> &'static str {
    match op {
        VmOp::Create { .. } => "Create",
        VmOp::Start { .. } => "Start",
        VmOp::Stop { .. } => "Stop",
        VmOp::Delete { .. } => "Delete",
        VmOp::List => "List",
        VmOp::CreateVolume { .. } => "CreateVolume",
        VmOp::DeleteVolume { .. } => "DeleteVolume",
        VmOp::ListVolumes => "ListVolumes",
        VmOp::CreateNetwork { .. } => "CreateNetwork",
        VmOp::ListNetworks => "ListNetworks",
        _ => "Other",
    }
}

/// See [`op_name`].
pub fn op_summary(op: &VmOp) -> (r: &'static str)
    ensures
        r == op_name(*op),
{
    match op {
        VmOp::Create { .. } => "Create",
        VmOp::Start { .. } => "Start",
        VmOp::Stop { .. } => "Stop",
        VmOp::Delete { .. } => "Delete",
        VmOp::List => "List",
        VmOp::CreateVolume { .. } => "CreateVolume",
        VmOp::DeleteVolume { .. } => "DeleteVolume",
        VmOp::ListVolumes => "ListVolumes",
        VmOp::CreateNetwork { .. } => "CreateNetwork",
        VmOp::ListNetworks => "ListNetworks",
        _ => "Other",
    }
}

/// The capabilities of a user of a tenant, or of the tenant where no user is
/// named; nothing for an unknown user.
pub open spec fn granted(t: TenantView, user: Option<Seq<char>>) -> Option<TenantCaps> {
    match user {
        None => Some(t.root_caps),
        Some(name) => match store::find_user_name(t.users, name) {
            Some(i) => Some(t.users[i].caps),
            None => None,
        },
    }
}

/// Mathematical value of an optional piece of text.
pub open spec fn str_view(t: Option<&str>) -> Option<Seq<char>> {
    match t {
        Some(s) => Some(s@),
        None => None,
    }
}

/// See [`granted`].
pub fn effective_caps_for(tenant: &Tenant, user: Option<&str>) -> (r: CelResult<TenantCaps>)
    ensures
        match granted(tenant@, str_view(user)) {
            Some(c) => r == Ok::<TenantCaps, CelError>(c),
            None => r == Err::<TenantCaps, CelError>(CelError::Invalid("tenancy: user unknown")),
        },
{
    match user {
        None => Ok(tenant.root_caps),
        Some(name) => match position_of_user_name(&tenant.users, name) {
            Some(i) => Ok(tenant.users[i].caps),
            None => Err(CelError::Invalid("tenancy: user unknown")),
        },
    }
}

/// An execution under way.
#[derive(Debug)]
pub struct ExecTrip {
    /// Tenant.
    pub tenant: TenantId,
    /// Name of the tenant.
    pub name: String,
    /// User, if one was named.
    pub user: Option<String>,
    /// Name of the operation.
    pub op: &'static str,
    /// Capability tag of the operation.
    pub tag: &'static str,
    /// Capabilities that the host grants.
    pub caps: TenantCaps,
    /// What the operation takes, if anything.
    pub planned: Option<QuotaCharge>,
    /// Usage of the tenant before.
    pub usage_before: QuotaUsage,
    /// Whether the charge of what was created is given back at once.
    pub release: bool,
    /// Accounts of the tenant.
    pub account: TenantVmHost,
    /// The host.
    pub inner: MemVmHost,
    /// What is to be settled; nothing if the operation never reached the host.
    pub ticket: Option<Ticket>,
}

/// How far an execution got.
#[derive(Debug)]
pub enum ExecStep {
    /// The outcome is known.
    Answered(ExecTrip, HostResult),
    /// A store has to be asked first.
    Store(ExecTrip, StoreCall),
}

/// The node that the host belongs to.
pub open spec fn node_of(opts: ExecOptions) -> Seq<char> {
    match opts.node {
        Some(n) => n@,
        None => "tenant-exec"@,
    }
}

/// The host at the start of an execution.
pub open spec fn fresh_host(caps: TenantCaps, opts: ExecOptions, max_mount: usize) -> HostView {
    HostView {
        slots: seq![None, None, None, None],
        owner: Some(node_of(opts)),
        caps: Capabilities(caps.0 & 0x1fff),
        max_mount,
    }
}

/// The accounts at the start of an execution.
pub open spec fn fresh_account(tenant: TenantId) -> AccountView {
    AccountView { tenant, vms: Map::empty(), volumes: Map::empty() }
}

/// What a trip remembers of how it began.
pub open spec fn remembers(
    trip: ExecTrip,
    s: StoreView,
    t: TenantView,
    user: Option<Seq<char>>,
    caps: TenantCaps,
    op: VmOp,
    release: bool,
) -> bool {
    &&& trip.tenant == t.id
    &&& trip.name@ == t.name
    &&& federation::text_view(trip.user) == user
    &&& trip.op == op_name(op)
    &&& trip.tag == capabilities::tag_for(op)
    &&& trip.caps == caps
    &&& trip.planned == runtime::planned(op)
    &&& trip.usage_before == hierarchy::tenant_at(s.tenants, t.id).usage
    &&& trip.release == release
    &&& trip.account@ == fresh_account(t.id)
    &&& trip.account.wf()
    &&& trip.inner.wf()
}

/// The charge of an operation fails, and how.
pub open spec fn charge_refused(s: StoreView, tenant: TenantId, op: VmOp) -> Option<
    error::ErrorView,
> {
    let c = runtime::planned(op);
    if c is Some && c->0 != quota::no_charge() {
        match hierarchy::store_charged(s, tenant, c->0).1 {
            Err(e) => Some(e),
            Ok(_) => None,
        }
    } else {
        None
    }
}

/// The store once an operation was charged.
pub open spec fn charged_store(s: StoreView, tenant: TenantId, op: VmOp) -> StoreView {
    let c = runtime::planned(op);
    if c is Some && c->0 != quota::no_charge() {
        hierarchy::store_charged(s, tenant, c->0).0
    } else {
        s
    }
}

/// What [`exec`] does.
pub open spec fn executed(
    s: StoreView,
    tenant_name: Seq<char>,
    user: Option<Seq<char>>,
    op: VmOp,
    opts: ExecOptions,
    max_mount: usize,
    n: StoreView,
    r: CelResult<ExecStep>,
) -> bool {
    match store::find_name(s.tenants, tenant_name) {
        None => n == s && r == Err::<ExecStep, CelError>(CelError::Invalid("tenant name unknown")),
        Some(i) => {
            let t = s.tenants[i];
            match granted(t, user) {
                None => n == s && r == Err::<ExecStep, CelError>(
                    CelError::Invalid("tenancy: user unknown"),
                ),
                Some(caps) => match charge_refused(s, t.id, op) {
                    Some(e) => n == s && (r matches Ok(ExecStep::Answered(trip, Err(m)))
                        && remembers(trip, s, t, user, caps, op, opts.release_after_create)
                        && trip.ticket is None && m@ == runtime::refusal_text(e)),
                    None => n == charged_store(s, t.id, op) && match r {
                        Ok(ExecStep::Answered(trip, q)) => remembers(
                            trip,
                            s,
                            t,
                            user,
                            caps,
                            op,
                            opts.release_after_create,
                        ) && trip.ticket == Some(runtime::ticket_for(op)) && host::stepped(
                            fresh_host(caps, opts, max_mount),
                            op,
                            trip.inner@,
                            HostStep::Reply(q),
                        ),
                        Ok(ExecStep::Store(trip, call)) => remembers(
                            trip,
                            s,
                            t,
                            user,
                            caps,
                            op,
                            opts.release_after_create,
                        ) && trip.ticket == Some(runtime::ticket_for(op)) && host::stepped(
                            fresh_host(caps, opts, max_mount),
                            op,
                            trip.inner@,
                            HostStep::Store(call),
                        ),
                        Err(_) => false,
                    },
                },
            }
        },
    }
}

/// A tenant that has a position has its id there.
proof fn lemma_named(ts: Seq<TenantView>, i: int)
    requires
        0 <= i < ts.len(),
    ensures
        store::find_tenant(ts, ts[i].id) is Some,
        0 <= store::find_tenant(ts, ts[i].id)->0 < ts.len(),
{
    let keys = store::tenant_ids(ts);
    store::lemma_first_at(keys, ts[i].id, 0);
    assert(keys[i] == ts[i].id);
}

/// Runs an operation for a tenant, or for one of its users.
pub fn exec(
    store: &mut StoreState,
    tenant_name: &str,
    user: Option<&str>,
    op: VmOp,
    opts: &ExecOptions,
    max_mount: usize,
) -> (r: CelResult<ExecStep>)
    ensures
        executed(
            old(store)@,
            tenant_name@,
            str_view(user),
            op,
            *opts,
            max_mount,
            final(store)@,
            r,
        ),
        old(store)@.wf() ==> final(store)@.wf(),
{
    let tenant = match store.get_by_name(tenant_name) {
        Ok(t) => t,
        Err(e) => {
            return Err(e);
        },
    };
    let caps = match effective_caps_for(&tenant, user) {
        Ok(c) => c,
        Err(e) => {
            return Err(e);
        },
    };
    proof {
        let i = store::find_name(store@.tenants, tenant_name@)->0;
        store::lemma_first_at(store::tenant_names(store@.tenants), tenant_name@, 0);
        lemma_named(store@.tenants, i);
    }
    let usage_before = match store.get(tenant.id) {
        Ok(t) => t.usage,
        Err(e) => {
            return Err(e);
        },
    };
    let node = match &opts.node {
        Some(n) => NodeId(n.clone()),
        None => NodeId::named("tenant-exec"),
    };
    let mut inner = MemVmHost::new(max_mount).with_caps(caps.to_mesh_capabilities());
    inner.current_rows(&node);
    let account = TenantVmHost::new(tenant.id);
    let mut trip = ExecTrip {
        tenant: tenant.id,
        name: tenant.name,
        user: match user {
            Some(u) => Some(u.to_owned()),
            None => None,
        },
        op: op_summary(&op),
        tag: Capabilities::op_tag(&op),
        caps,
        planned: charge_for(&op),
        usage_before,
        release: opts.release_after_create,
        account,
        inner,
        ticket: None,
    };
    match trip.account.begin(store, op) {
        TenantStep::Refused(m) => Ok(ExecStep::Answered(trip, Err(m))),
        TenantStep::Forward(op, ticket) => {
            trip.ticket = Some(ticket);
            match trip.inner.apply(op) {
                HostStep::Reply(q) => Ok(ExecStep::Answered(trip, q)),
                HostStep::Store(call) => Ok(ExecStep::Store(trip, call)),
            }
        },
    }
}

/// What a tenant is to get back once the outcome of a trip is known.
pub open spec fn owed(trip: ExecTrip, result: HostResult) -> Option<QuotaCharge> {
    match trip.ticket {
        Some(ticket) => runtime::due(trip.account@, ticket, result),
        None => None,
    }
}

/// What a tenant is to get back because the trip was a dry run.
pub open spec fn dry_run_due(trip: ExecTrip, result: HostResult) -> Option<QuotaCharge> {
    if trip.release && result is Ok && trip.planned is Some && trip.planned->0
        != quota::no_charge() {
        trip.planned
    } else {
        None
    }
}

/// The store once what came of the host's answer was settled.
pub open spec fn host_settled(trip: ExecTrip, s: StoreView, result: HostResult) -> StoreView {
    runtime::repaid(s, trip.account@.tenant, owed(trip, result))
}

/// The store once the outcome of a trip was settled.
pub open spec fn settled_store(trip: ExecTrip, s: StoreView, result: HostResult) -> StoreView {
    runtime::repaid(host_settled(trip, s, result), trip.tenant, dry_run_due(trip, result))
}

/// What the caller is told of a refusal, if there was one.
pub open spec fn told(trip: ExecTrip, result: HostResult) -> Option<Seq<char>> {
    match result {
        Ok(_) => None,
        Err(why) => Some(
            match trip.ticket {
                Some(ticket) => runtime::surfaced(ticket, why@),
                None => why@,
            },
        ),
    }
}

/// What [`ExecTrip::audit`] records.
pub open spec fn records(
    trip: ExecTrip,
    result: HostResult,
    shown: Seq<char>,
    usage_after: QuotaUsage,
    a: ExecAudit,
) -> bool {
    &&& a.tenant@ == trip.name@
    &&& a.user == trip.user
    &&& a.op@ == trip.op@
    &&& a.op_capability_tag == trip.tag
    &&& a.effective_caps@ == caps::rendered_tags(trip.caps)
    &&& a.planned_charge == trip.planned
    &&& a.usage_before == trip.usage_before
    &&& a.usage_after == usage_after
    &&& a.dispatch_succeeded == result is Ok
    &&& federation::text_view(a.error) == told(trip, result)
    &&& federation::text_view(a.reply) == match result {
        Ok(reply) => Some(summary_of(reply, shown)),
        Err(_) => None,
    }
}

/// Which operation the events of a trip are about.
pub open spec fn origin_of(trip: ExecTrip, now: u64) -> OriginView {
    OriginView {
        timestamp_millis: now,
        tenant: trip.name@,
        user: federation::text_view(trip.user),
        tag: trip.tag@,
    }
}

/// The events up to the host: the charge, or why there was none.
pub open spec fn opening(trip: ExecTrip, result: HostResult, now: u64) -> Seq<AuditView> {
    let e = trail::begin_record(
        origin_of(trip, now),
        trip.planned,
        if trip.ticket is Some {
            None
        } else {
            told(trip, result)
        },
    );
    match e {
        Some(e) => seq![e],
        None => Seq::empty(),
    }
}

/// The events that come of the host's answer.
pub open spec fn settling(trip: ExecTrip, s: StoreView, result: HostResult, now: u64) -> Seq<
    AuditView,
> {
    if trip.ticket is Some {
        trail::settle_records(
            origin_of(trip, now),
            told(trip, result),
            runtime::credited(s, trip.account@.tenant, owed(trip, result)),
            result matches Err(why) && runtime::rights_missing(why@),
        )
    } else {
        Seq::empty()
    }
}

/// The event of what a dry run gave back.
pub open spec fn dry_run_events(trip: ExecTrip, s: StoreView, result: HostResult, now: u64) -> Seq<
    AuditView,
> {
    match runtime::credited(
        host_settled(trip, s, result),
        trip.tenant,
        dry_run_due(trip, result),
    ) {
        Some(c) => seq![trail::release_record(origin_of(trip, now), c, Some("dry-run"@))],
        None => Seq::empty(),
    }
}

/// The audit events of a trip, from its charge to its end. `s` is the store
/// before the outcome is settled.
pub open spec fn trip_events(trip: ExecTrip, s: StoreView, result: HostResult, now: u64) -> Seq<
    AuditView,
> {
    (opening(trip, result, now) + settling(trip, s, result, now) + dry_run_events(
        trip,
        s,
        result,
        now,
    )).push(trail::exec_record(origin_of(trip, now), trip.planned, told(trip, result)))
}

/// What is left of a trip.
#[derive(Debug)]
pub struct ExecReport {
    /// The record.
    pub audit: ExecAudit,
    /// The audit events, oldest first.
    pub events: Vec<AuditEvent>,
}

/// What [`ExecTrip::audit`] returns.
pub open spec fn reported(
    trip: ExecTrip,
    s: StoreView,
    result: HostResult,
    shown: Seq<char>,
    now: u64,
    n: StoreView,
    r: CelResult<ExecReport>,
) -> bool {
    match store::find_tenant(n.tenants, trip.tenant) {
        Some(k) => r matches Ok(q) && records(
            trip,
            result,
            shown,
            n.tenants[k].usage,
            q.audit,
        ) && trail::event_views(q.events@) == trip_events(trip, s, result, now),
        None => r == Err::<ExecReport, CelError>(CelError::Invalid("tenant id unknown")),
    }
}

impl ExecTrip {
    /// Takes in a store's answer.
    pub fn resume(self, call: StoreCall, outcome: StoreOutcome) -> (r: (ExecTrip, HostResult))
        requires
            self.inner.wf(),
        ensures
            r.0 == (ExecTrip { inner: r.0.inner, ..self }),
            r.0.inner.wf(),
            host::resumed(self.inner@, call, outcome, r.0.inner@, r.1),
    {
        let mut trip = self;
        let q = trip.inner.resume(call, outcome);
        (trip, q)
    }

    /// Settles the accounts, writes the record and gives the audit events.
    /// `shown` is a reply as it is shown where no short form is fixed.
    pub fn audit(self, store: &mut StoreState, result: HostResult, shown: &str, now: u64) -> (r:
        CelResult<ExecReport>)
        requires
            self.account.wf(),
        ensures
            final(store)@ == settled_store(self, old(store)@, result),
            reported(self, old(store)@, result, shown@, now, final(store)@, r),
            old(store)@.wf() ==> final(store)@.wf(),
    {
        let ghost trip = self;
        let ghost s = store@;
        let ghost asked = result;
        let ExecTrip {
            tenant,
            name,
            user,
            op,
            tag,
            caps,
            planned,
            usage_before,
            release,
            mut account,
            inner: _,
            ticket,
        } = self;
        let origin = Origin {
            timestamp_millis: now,
            tenant: name.clone(),
            user: clone_text(&user),
            tag,
        };
        let mut events: Vec<AuditEvent> = Vec::new();
        let refused = match (&ticket, &result) {
            (None, Err(why)) => Some(why.as_str()),
            _ => None,
        };
        if let Some(e) = origin.opening_event(planned, refused) {
            events.push(e);
        }
        let ghost first = events@;
        assert(trail::event_views(first) =~= opening(trip, asked, now));
        let result = match ticket {
            Some(ticket) => {
                let settled = account.finish(store, ticket, result);
                let mut more = origin.settle_events(&settled);
                events.append(&mut more);
                settled.reply
            },
            None => result,
        };
        let ghost second = events@;
        assert(trail::event_views(second) =~= trail::event_views(first) + settling(
            trip,
            s,
            asked,
            now,
        ));
        let (succeeded, reply, error) = match &result {
            Ok(reply) => (true, Some(reply_summary(reply, shown)), None),
            Err(why) => (false, None, Some(why.clone())),
        };
        let due = match planned {
            Some(c) => if release && succeeded && c != QuotaCharge::default() {
                Some(c)
            } else {
                None
            },
            None => None,
        };
        if let Some(c) = repay(store, tenant, due) {
            events.push(origin.release_event(c, Some("dry-run")));
        }
        let told = match &error {
            Some(why) => Some(why.as_str()),
            None => None,
        };
        events.push(origin.exec_event(planned, told));
        assert(trail::event_views(events@) =~= trip_events(trip, s, asked, now));
        let usage_after = match store.get(tenant) {
            Ok(t) => t.usage,
            Err(e) => {
                return Err(e);
            },
        };
        let audit = ExecAudit {
            tenant: name,
            user,
            op: op.to_owned(),
            op_capability_tag: tag,
            effective_caps: caps.to_tags(),
            planned_charge: planned,
            dispatch_succeeded: succeeded,
            error,
            reply,
            usage_before,
            usage_after,
        };
        Ok(ExecReport { audit, events })
    }
}

/// A dry run costs nothing: an operation that the host accepts and whose
/// charge is given back at once leaves the store as it was.
pub proof fn law_dry_run_costs_nothing(
    s: StoreView,
    trip: ExecTrip,
    op: VmOp,
    result: HostResult,
)
    requires
        runtime::planned(op) is Some,
        runtime::undoable(s, trip.tenant, runtime::planned(op)->0),
        charge_refused(s, trip.tenant, op) is None,
        trip.release,
        trip.planned == runtime::planned(op),
        trip.ticket == Some(runtime::ticket_for(op)),
        trip.account@ == fresh_account(trip.tenant),
        result is Ok,
    ensures
        settled_store(trip, charged_store(s, trip.tenant, op), result) == s,
{
    let c = runtime::planned(op)->0;
    if c != quota::no_charge() {
        crate::tenancy::store_laws::law_release_undoes_charge(s, trip.tenant, c);
    }
}

/// An operation that the host refuses costs nothing, dry run or not.
pub proof fn law_failure_costs_nothing(
    s: StoreView,
    trip: ExecTrip,
    op: VmOp,
    result: HostResult,
)
    requires
        runtime::planned(op) is Some,
        runtime::undoable(s, trip.tenant, runtime::planned(op)->0),
        charge_refused(s, trip.tenant, op) is None,
        trip.planned == runtime::planned(op),
        trip.ticket == Some(runtime::ticket_for(op)),
        trip.account@ == fresh_account(trip.tenant),
        result is Err,
    ensures
        settled_store(trip, charged_store(s, trip.tenant, op), result) == s,
{
    let c = runtime::planned(op)->0;
    if c != quota::no_charge() {
        crate::tenancy::store_laws::law_release_undoes_charge(s, trip.tenant, c);
    }
}

/// Every step of a trip is recorded: its charge or its denial first, then what
/// was given back and a host's denial, and its end last.
pub proof fn law_trip_is_recorded(trip: ExecTrip, s: StoreView, result: HostResult, now: u64)
    ensures
        ({
            let es = trip_events(trip, s, result, now);
            &&& es.len() > 0 && es.last().action is Exec && es.last().success == (result is Ok)
                && es.last().error == told(trip, result)
            &&& trip.ticket is None && result is Err ==> es[0].action is Deny && es[0].error
                == told(trip, result)
            &&& trip.ticket is Some && trip.planned is Some && trip.planned->0
                != quota::no_charge() ==> es[0].action is Charge && es[0].charge == trip.planned
            &&& trip.ticket is Some && (result matches Err(why) && runtime::rights_missing(why@))
                ==> exists|i: int|
                0 <= i < es.len() && (#[trigger] es[i]).action is Deny && !es[i].success
            &&& settled_store(trip, s, result) != s ==> exists|i: int|
                0 <= i < es.len() && (#[trigger] es[i]).action is Release
        }),
{
    let es = trip_events(trip, s, result, now);
    let first = opening(trip, result, now);
    let second = settling(trip, s, result, now);
    let third = dry_run_events(trip, s, result, now);
    if trip.ticket is Some && (result matches Err(why) && runtime::rights_missing(why@)) {
        assert(es[first.len() as int] == second[0]);
    }
    if host_settled(trip, s, result) != s {
        assert(es[first.len() + second.len() - 1] == second.last());
    } else if settled_store(trip, s, result) != s {
        assert(es[(first.len() + second.len()) as int] == third[0]);
    }
}

} // verus!
