//! Quota accounting around a VM host.
//!
//! [`TenantVmHost`] charges a tenant before an operation that takes resources
//! is forwarded, gives the charge back if the host refuses, and gives it back
//! when what was created is deleted. Forwarding is up to the caller. What is
//! recorded of each step, [`crate::tenancy::trail`] says.

use std::collections::BTreeMap;

use vstd::prelude::*;
use vstd::string::*;

use crate::error;
use crate::error::{CelError, ErrorView};
use crate::mesh::host::HostResult;
use crate::mesh::proto::{VmOp, VmOpReply};
use crate::mesh::table::{Key, Table};
use crate::mesh::vault::VolumeId;
use crate::tenancy::hierarchy;
use crate::tenancy::quota;
use crate::tenancy::quota::QuotaCharge;
use crate::tenancy::store::{StoreState, StoreView};
use crate::tenancy::store_laws;
use crate::tenancy::tenant::TenantId;
use crate::text::{concat, starts_with};

verus! {

/// What an operation takes; nothing for one that takes no resources.
pub open spec fn planned(op: VmOp) -> Option<QuotaCharge> {
    match op {
        VmOp::Create { cpu_count, memory_mib, .. } => Some(
            QuotaCharge {
                vcpus: match cpu_count {
                    Some(n) => n,
                    None => 0,
                },
                memory_mib: match memory_mib {
                    Some(n) => n,
                    None => 0,
                },
                ..quota::no_charge()
            },
        ),
        VmOp::CreateVolume { size_bytes, .. } => Some(
            QuotaCharge { storage_bytes: size_bytes, ..quota::no_charge() },
        ),
        _ => None,
    }
}

/// See [`planned`].
pub fn charge_for(op: &VmOp) -> (r: Option<QuotaCharge>)
    ensures
        r == planned(*op),
{
    match op {
        VmOp::Create { cpu_count, memory_mib, .. } => {
            let mut c = QuotaCharge::default();
            c.vcpus = match cpu_count {
                Some(n) => *n,
                None => 0,
            };
            c.memory_mib = match memory_mib {
                Some(n) => *n,
                None => 0,
            };
            Some(c)
        },
        VmOp::CreateVolume { size_bytes, .. } => {
            let mut c = QuotaCharge::default();
            c.storage_bytes = *size_bytes;
            Some(c)
        },
        _ => None,
    }
}

/// What is to be done once the host has answered.
#[derive(Debug)]
pub enum Ticket {
    /// A VM was asked for, and its charge is paid.
    Create(QuotaCharge),
    /// A volume was asked for, and its charge is paid.
    CreateVolume(QuotaCharge),
    /// A VM is to go.
    Delete(u32),
    /// A volume is to go.
    DeleteVolume(VolumeId),
    /// Nothing.
    Other,
}

/// The ticket of an operation.
pub open spec fn ticket_for(op: VmOp) -> Ticket {
    match op {
        VmOp::Create { .. } => Ticket::Create(planned(op)->0),
        VmOp::CreateVolume { .. } => Ticket::CreateVolume(planned(op)->0),
        VmOp::Delete { vm_id } => Ticket::Delete(vm_id),
        VmOp::DeleteVolume { volume_id } => Ticket::DeleteVolume(volume_id),
        _ => Ticket::Other,
    }
}

/// What becomes of an operation.
#[derive(Debug)]
pub enum TenantStep {
    /// It is refused.
    Refused(String),
    /// It goes to the host; the answer comes back with the ticket.
    Forward(VmOp, Ticket),
}

/// The quota accounts of one tenant's resources on one host.
#[derive(Debug)]
pub struct TenantVmHost {
    /// Tenant that pays.
    pub tenant: TenantId,
    /// What each VM cost.
    pub vm_charges: BTreeMap<u32, QuotaCharge>,
    /// What each volume cost, by its name; the number is always 0.
    pub volume_charges: Table<QuotaCharge>,
}

/// Mathematical value of a [`TenantVmHost`].
#[verifier::ext_equal]
pub struct AccountView {
    /// See [`TenantVmHost::tenant`].
    pub tenant: TenantId,
    /// See [`TenantVmHost::vm_charges`].
    pub vms: Map<u32, QuotaCharge>,
    /// See [`TenantVmHost::volume_charges`].
    pub volumes: Map<Key, QuotaCharge>,
}

impl View for TenantVmHost {
    type V = AccountView;

    open spec fn view(&self) -> AccountView {
        AccountView {
            tenant: self.tenant,
            vms: self.vm_charges@,
            volumes: self.volume_charges.map(),
        }
    }
}

/// The key of a volume.
pub open spec fn volume_key(id: Seq<char>) -> Key {
    (id, 0u32)
}

/// What is said of a charge that fails.
pub open spec fn refusal_text(e: ErrorView) -> Seq<char> {
    match e {
        ErrorView::Exhausted(what) => "quota exhausted: "@ + what,
        _ => "tenant: quota: "@ + error::message_of(e),
    }
}

/// See [`refusal_text`].
pub fn refusal(e: &CelError) -> (r: String)
    ensures
        r@ == refusal_text(e@),
{
    match e {
        CelError::Exhausted(what) => concat("quota exhausted: ", what),
        _ => concat("tenant: quota: ", e.message().as_str()),
    }
}

/// Whether something was paid for the operation of a ticket.
pub open spec fn paid(ticket: Ticket) -> bool {
    match ticket {
        Ticket::Create(c) => c != quota::no_charge(),
        Ticket::CreateVolume(c) => c != quota::no_charge(),
        _ => false,
    }
}

/// What the caller is told of a refusal by the host: what the host said, behind
/// a mark if the operation was paid for.
pub open spec fn surfaced(ticket: Ticket, why: Seq<char>) -> Seq<char> {
    if paid(ticket) {
        "tenant: "@ + why
    } else {
        why
    }
}

/// What the host says where the caller may not do what was asked.
pub open spec fn rights_missing(why: Seq<char>) -> bool {
    "capability denied: "@.is_prefix_of(why)
}

/// What becomes of an operation that the host has answered.
#[derive(Debug)]
pub struct Settled {
    /// The answer, as the caller sees it.
    pub reply: HostResult,
    /// What the tenant got back, if anything.
    pub released: Option<QuotaCharge>,
    /// Whether the host refused for want of a capability.
    pub denied: bool,
}

/// What [`TenantVmHost::begin`] does to the store, and the step.
pub open spec fn begun(
    a: AccountView,
    s: StoreView,
    op: VmOp,
    n: StoreView,
    r: TenantStep,
) -> bool {
    let c = planned(op);
    if c is Some && c->0 != quota::no_charge() {
        let (paid, out) = hierarchy::store_charged(s, a.tenant, c->0);
        match out {
            Err(e) => n == s && (r matches TenantStep::Refused(m) && m@ == refusal_text(e)),
            Ok(_) => n == paid && r == TenantStep::Forward(op, ticket_for(op)),
        }
    } else {
        n == s && r == TenantStep::Forward(op, ticket_for(op))
    }
}

/// What a tenant is to get back once the host has answered.
pub open spec fn due(a: AccountView, ticket: Ticket, reply: HostResult) -> Option<QuotaCharge> {
    match (ticket, reply) {
        (Ticket::Create(c), Err(_)) | (Ticket::CreateVolume(c), Err(_)) => if c
            != quota::no_charge() {
            Some(c)
        } else {
            None
        },
        (Ticket::Delete(vm_id), Ok(VmOpReply::Deleted { .. })) => if a.vms.dom().contains(vm_id) {
            Some(a.vms[vm_id])
        } else {
            None
        },
        (Ticket::DeleteVolume(id), Ok(VmOpReply::VolumeDeleted { .. })) => if a.volumes.dom().contains(
            volume_key(id@),
        ) {
            Some(a.volumes[volume_key(id@)])
        } else {
            None
        },
        _ => None,
    }
}

/// The accounts once the host has answered.
pub open spec fn noted(a: AccountView, ticket: Ticket, reply: HostResult) -> AccountView {
    match (ticket, reply) {
        (Ticket::Create(c), Ok(VmOpReply::Created { vm_id })) => AccountView {
            vms: a.vms.insert(vm_id, c),
            ..a
        },
        (Ticket::CreateVolume(c), Ok(VmOpReply::VolumeCreated { volume })) => AccountView {
            volumes: a.volumes.insert(volume_key(volume.id@), c),
            ..a
        },
        (Ticket::Delete(vm_id), Ok(VmOpReply::Deleted { .. })) => AccountView {
            vms: a.vms.remove(vm_id),
            ..a
        },
        (Ticket::DeleteVolume(id), Ok(VmOpReply::VolumeDeleted { .. })) => AccountView {
            volumes: a.volumes.remove(volume_key(id@)),
            ..a
        },
        _ => a,
    }
}

/// The store once a tenant got back what is due, if anything.
pub open spec fn repaid(s: StoreView, tenant: TenantId, due: Option<QuotaCharge>) -> StoreView {
    match due {
        Some(c) => hierarchy::store_released(s, tenant, c).0,
        None => s,
    }
}

/// What a tenant got back of what is due: all of it, or nothing where the store
/// refuses.
pub open spec fn credited(s: StoreView, tenant: TenantId, due: Option<QuotaCharge>) -> Option<
    QuotaCharge,
> {
    match due {
        Some(c) => if hierarchy::store_released(s, tenant, c).1 is Ok {
            Some(c)
        } else {
            None
        },
        None => None,
    }
}

/// What [`TenantVmHost::finish`] does to the accounts and the store.
pub open spec fn settled(a: AccountView, s: StoreView, ticket: Ticket, reply: HostResult) -> (
    AccountView,
    StoreView,
) {
    (noted(a, ticket, reply), repaid(s, a.tenant, due(a, ticket, reply)))
}

/// What [`TenantVmHost::finish`] returns.
pub open spec fn concluded(
    a: AccountView,
    s: StoreView,
    ticket: Ticket,
    reply: HostResult,
    r: Settled,
) -> bool {
    &&& r.released == credited(s, a.tenant, due(a, ticket, reply))
    &&& match reply {
        Ok(_) => r.reply == reply && !r.denied,
        Err(why) => (r.reply matches Err(m) && m@ == surfaced(ticket, why@)) && r.denied
            == rights_missing(why@),
    }
}

/// Gives a tenant back what is due, if anything, and returns what it got.
pub fn repay(store: &mut StoreState, tenant: TenantId, due: Option<QuotaCharge>) -> (r: Option<
    QuotaCharge,
>)
    ensures
        final(store)@ == repaid(old(store)@, tenant, due),
        r == credited(old(store)@, tenant, due),
        old(store)@.wf() ==> final(store)@.wf(),
{
    match due {
        Some(c) => match store.release(tenant, c) {
            Ok(_) => Some(c),
            Err(_) => None,
        },
        None => None,
    }
}

impl TenantVmHost {
    /// The volume accounts are in order.
    pub open spec fn wf(&self) -> bool {
        self.volume_charges.wf()
    }

    /// Accounts without entries.
    pub fn new(tenant: TenantId) -> (r: TenantVmHost)
        ensures
            r.wf(),
            r@ == (AccountView { tenant, vms: Map::empty(), volumes: Map::empty() }),
    {
        TenantVmHost { tenant, vm_charges: BTreeMap::new(), volume_charges: Table::new() }
    }

    /// Tenant that pays.
    pub fn tenant(&self) -> (r: TenantId)
        ensures
            r == self.tenant,
    {
        self.tenant
    }

    /// Takes up an operation: charges what it takes, or refuses it.
    pub fn begin(&self, store: &mut StoreState, op: VmOp) -> (r: TenantStep)
        ensures
            begun(self@, old(store)@, op, final(store)@, r),
            old(store)@.wf() ==> final(store)@.wf(),
    {
        if let Some(c) = charge_for(&op) {
            if c != QuotaCharge::default() {
                if let Err(e) = store.charge(self.tenant, c) {
                    return TenantStep::Refused(refusal(&e));
                }
            }
        }
        let ticket = match &op {
            VmOp::Create { .. } => match charge_for(&op) {
                Some(c) => Ticket::Create(c),
                None => Ticket::Other,
            },
            VmOp::CreateVolume { .. } => match charge_for(&op) {
                Some(c) => Ticket::CreateVolume(c),
                None => Ticket::Other,
            },
            VmOp::Delete { vm_id } => Ticket::Delete(*vm_id),
            VmOp::DeleteVolume { volume_id } => Ticket::DeleteVolume(volume_id.clone()),
            _ => Ticket::Other,
        };
        TenantStep::Forward(op, ticket)
    }

    /// Notes what a VM cost.
    fn note_vm(&mut self, vm_id: u32, c: QuotaCharge)
        requires
            old(self).wf(),
        ensures
            final(self).wf(),
            final(self)@ == (AccountView { vms: old(self)@.vms.insert(vm_id, c), ..old(self)@ }),
    {
        broadcast use vstd::std_specs::btree::group_btree_axioms;
        broadcast use vstd::laws_cmp::group_laws_cmp;

        self.vm_charges.insert(vm_id, c);
    }

    /// Takes out what a VM cost.
    fn take_vm(&mut self, vm_id: u32) -> (r: Option<QuotaCharge>)
        requires
            old(self).wf(),
        ensures
            final(self).wf(),
            if old(self)@.vms.dom().contains(vm_id) {
                r == Some(old(self)@.vms[vm_id]) && final(self)@ == (AccountView {
                    vms: old(self)@.vms.remove(vm_id),
                    ..old(self)@
                })
            } else {
                r is None && final(self)@ == old(self)@
            },
    {
        broadcast use vstd::std_specs::btree::group_btree_axioms;
        broadcast use vstd::laws_cmp::group_laws_cmp;

        let c = match self.vm_charges.get(&vm_id) {
            Some(c) => *c,
            None => {
                return None;
            },
        };
        self.vm_charges.remove(&vm_id);
        assert(self@.vms =~= old(self)@.vms.remove(vm_id));
        Some(c)
    }

    /// Settles the accounts once the host has answered.
    pub fn finish(&mut self, store: &mut StoreState, ticket: Ticket, reply: HostResult) -> (r:
        Settled)
        requires
            old(self).wf(),
        ensures
            final(self).wf(),
            concluded(old(self)@, old(store)@, ticket, reply, r),
            (final(self)@, final(store)@) == settled(old(self)@, old(store)@, ticket, reply),
            old(store)@.wf() ==> final(store)@.wf(),
    {
        let mut paid_for = false;
        let mut due: Option<QuotaCharge> = None;
        match (&ticket, &reply) {
            (Ticket::Create(c), Ok(VmOpReply::Created { vm_id })) => {
                self.note_vm(*vm_id, *c);
            },
            (Ticket::CreateVolume(c), Ok(VmOpReply::VolumeCreated { volume })) => {
                self.volume_charges.insert(volume.id.0.clone(), 0, *c);
            },
            (Ticket::Create(c), Err(_)) | (Ticket::CreateVolume(c), Err(_)) => {
                if *c != QuotaCharge::default() {
                    paid_for = true;
                    due = Some(*c);
                }
            },
            (Ticket::Delete(vm_id), Ok(VmOpReply::Deleted { .. })) => {
                due = self.take_vm(*vm_id);
            },
            (Ticket::DeleteVolume(id), Ok(VmOpReply::VolumeDeleted { .. })) => {
                due = self.volume_charges.remove(id.0.as_str(), 0);
            },
            _ => {},
        }
        assert(self@ =~= noted(old(self)@, ticket, reply));
        let released = repay(store, self.tenant, due);
        match reply {
            Ok(q) => Settled { reply: Ok(q), released, denied: false },
            Err(why) => {
                let denied = starts_with(why.as_str(), "capability denied: ");
                let told = if paid_for {
                    concat("tenant: ", why.as_str())
                } else {
                    why
                };
                Settled { reply: Err(told), released, denied }
            },
        }
    }
}

/// What a release may undo: the counters of the tenants that pay did not run
/// into their limits.
pub open spec fn undoable(s: StoreView, tenant: TenantId, c: QuotaCharge) -> bool {
    forall|i: int|
        0 <= i < s.tenants.len() && hierarchy::chain_of(
            s.tenants,
            Some(tenant),
            0,
        )->Ok_0.contains(i) ==> quota::no_overflow((#[trigger] s.tenants[i]).usage, c)
}

/// An operation that breaks a quota never reaches the host and changes
/// nothing.
pub proof fn law_refusal_changes_nothing(
    a: AccountView,
    s: StoreView,
    op: VmOp,
    n: StoreView,
    r: TenantStep,
)
    requires
        begun(a, s, op, n, r),
    ensures
        r is Refused ==> n == s,
        r is Refused <==> planned(op) is Some && planned(op)->0 != quota::no_charge()
            && hierarchy::store_charged(s, a.tenant, planned(op)->0).1 is Err,
{
}

/// What the host refuses to create costs nothing.
pub proof fn law_host_refusal_refunds(
    a: AccountView,
    s: StoreView,
    op: VmOp,
    n: StoreView,
    r: TenantStep,
    why: String,
)
    requires
        planned(op) is Some,
        undoable(s, a.tenant, planned(op)->0),
        begun(a, s, op, n, r),
        r is Forward,
    ensures
        settled(a, n, r->Forward_1, Err::<VmOpReply, String>(why)) == (a, s),
{
    if planned(op)->0 != quota::no_charge() {
        store_laws::law_release_undoes_charge(s, a.tenant, planned(op)->0);
    }
}

/// A VM that is created and deleted again leaves the tenant's usage as it was.
pub proof fn law_delete_gives_back(
    a: AccountView,
    s: StoreView,
    op: VmOp,
    n: StoreView,
    r: TenantStep,
    vm_id: u32,
)
    requires
        op is Create,
        undoable(s, a.tenant, planned(op)->0),
        planned(op)->0 != quota::no_charge(),
        begun(a, s, op, n, r),
        r is Forward,
    ensures
        ({
            let (b, m) = settled(
                a,
                n,
                r->Forward_1,
                Ok::<VmOpReply, String>(VmOpReply::Created { vm_id }),
            );
            let (d, back) = settled(
                b,
                m,
                Ticket::Delete(vm_id),
                Ok::<VmOpReply, String>(VmOpReply::Deleted { vm_id }),
            );
            back == s && d.vms == a.vms.remove(vm_id) && d.volumes == a.volumes
        }),
{
    store_laws::law_release_undoes_charge(s, a.tenant, planned(op)->0);
    assert(a.vms.insert(vm_id, planned(op)->0).remove(vm_id) =~= a.vms.remove(vm_id));
}

/// A volume that is created and deleted again leaves the tenant's usage as it
/// was.
pub proof fn law_delete_volume_gives_back(
    a: AccountView,
    s: StoreView,
    op: VmOp,
    n: StoreView,
    r: TenantStep,
    made: VmOpReply,
    gone: VmOpReply,
)
    requires
        op is CreateVolume,
        undoable(s, a.tenant, planned(op)->0),
        planned(op)->0 != quota::no_charge(),
        begun(a, s, op, n, r),
        r is Forward,
        made is VolumeCreated,
        gone is VolumeDeleted,
    ensures
        ({
            let id = made->VolumeCreated_volume.id;
            let (b, m) = settled(a, n, r->Forward_1, Ok::<VmOpReply, String>(made));
            let (d, back) = settled(
                b,
                m,
                Ticket::DeleteVolume(id),
                Ok::<VmOpReply, String>(gone),
            );
            back == s && d.volumes == a.volumes.remove(volume_key(id@)) && d.vms == a.vms
        }),
{
    let id = made->VolumeCreated_volume.id;
    store_laws::law_release_undoes_charge(s, a.tenant, planned(op)->0);
    assert(a.volumes.insert(volume_key(id@), planned(op)->0).remove(volume_key(id@))
        =~= a.volumes.remove(volume_key(id@)));
}

} // verus!
