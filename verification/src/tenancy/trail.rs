//! What is recorded of a tenant's operations: every charge, every release,
//! every denial and every single-shot execution leaves an audit record.

use vstd::prelude::*;
use vstd::string::*;

use crate::mesh::federation;
use crate::mesh::federation::clone_text;
use crate::mesh::host::HostResult;
use crate::mesh::proto::VmOp;
use crate::tenancy::audit;
use crate::tenancy::audit::{AuditAction, AuditEvent, AuditView};
use crate::tenancy::exec;
use crate::tenancy::hierarchy;
use crate::tenancy::quota;
use crate::tenancy::quota::QuotaCharge;
use crate::tenancy::runtime;
use crate::tenancy::runtime::{AccountView, Settled, TenantStep, Ticket};
use crate::tenancy::store::StoreView;

verus! {

/// Which operation the records are about.
#[derive(Debug)]
pub struct Origin {
    /// When, in milliseconds since the Unix epoch.
    pub timestamp_millis: u64,
    /// Name of the tenant.
    pub tenant: String,
    /// User, if one is known.
    pub user: Option<String>,
    /// Capability tag of the operation.
    pub tag: &'static str,
}

/// Mathematical value of an [`Origin`].
pub struct OriginView {
    /// See [`Origin::timestamp_millis`].
    pub timestamp_millis: u64,
    /// See [`Origin::tenant`].
    pub tenant: Seq<char>,
    /// See [`Origin::user`].
    pub user: Option<Seq<char>>,
    /// See [`Origin::tag`].
    pub tag: Seq<char>,
}

impl View for Origin {
    type V = OriginView;

    open spec fn view(&self) -> OriginView {
        OriginView {
            timestamp_millis: self.timestamp_millis,
            tenant: self.tenant@,
            user: federation::text_view(self.user),
            tag: self.tag@,
        }
    }
}

/// A record about an operation, with nothing else attached.
pub open spec fn about(o: OriginView, action: AuditAction) -> AuditView {
    AuditView {
        user: o.user,
        op_capability_tag: Some(o.tag),
        ..audit::plain(o.timestamp_millis, o.tenant, action)
    }
}

/// What is recorded when an operation is taken up: its denial, or its charge if
/// it takes anything. `refused` says why it was refused, if it was.
pub open spec fn begin_record(
    o: OriginView,
    planned: Option<QuotaCharge>,
    refused: Option<Seq<char>>,
) -> Option<AuditView> {
    if refused is Some {
        Some(AuditView { charge: planned, error: refused, ..about(o, AuditAction::Deny) })
    } else if planned is Some && planned->0 != quota::no_charge() {
        Some(AuditView { charge: planned, ..about(o, AuditAction::Charge) })
    } else {
        None
    }
}

/// What is recorded of a charge that was given back.
pub open spec fn release_record(
    o: OriginView,
    released: QuotaCharge,
    note: Option<Seq<char>>,
) -> AuditView {
    AuditView { charge: Some(released), note, ..about(o, AuditAction::Release) }
}

/// What is recorded when the host has answered: its denial for want of a
/// capability, and what the tenant got back. `told` is what the caller is told
/// of a refusal.
pub open spec fn settle_records(
    o: OriginView,
    told: Option<Seq<char>>,
    released: Option<QuotaCharge>,
    denied: bool,
) -> Seq<AuditView> {
    let denials = if denied {
        seq![AuditView { success: false, error: told, ..about(o, AuditAction::Deny) }]
    } else {
        Seq::empty()
    };
    match released {
        Some(c) => denials.push(
            release_record(
                o,
                c,
                if told is Some {
                    Some("refunded"@)
                } else {
                    None
                },
            ),
        ),
        None => denials,
    }
}

/// What is recorded at the end of an execution.
pub open spec fn exec_record(
    o: OriginView,
    planned: Option<QuotaCharge>,
    told: Option<Seq<char>>,
) -> AuditView {
    AuditView { charge: planned, success: told is None, error: told, ..about(o, AuditAction::Exec) }
}

/// The mathematical values of records.
pub open spec fn event_views(v: Seq<AuditEvent>) -> Seq<AuditView> {
    Seq::new(v.len(), |i: int| v[i]@)
}

/// What the caller is told of a refusal, if there was one.
pub open spec fn told_of(r: HostResult) -> Option<Seq<char>> {
    match r {
        Ok(_) => None,
        Err(why) => Some(why@),
    }
}

/// Why an operation was refused, if it was.
pub open spec fn refused_of(step: TenantStep) -> Option<Seq<char>> {
    match step {
        TenantStep::Refused(why) => Some(why@),
        TenantStep::Forward(_, _) => None,
    }
}

impl Origin {
    /// A record about the operation.
    pub fn event(&self, action: AuditAction) -> (r: AuditEvent)
        ensures
            r@ == about(self@, action),
    {
        AuditEvent::at(self.timestamp_millis, self.tenant.as_str(), action).with_user(
            clone_text(&self.user),
        ).with_op_tag(self.tag)
    }

    /// The denial of the operation.
    fn deny(&self, planned: Option<QuotaCharge>, why: &str) -> (r: AuditEvent)
        ensures
            r@ == (AuditView {
                charge: planned,
                error: Some(why@),
                ..about(self@, AuditAction::Deny)
            }),
    {
        let mut e = self.event(AuditAction::Deny).with_error(why);
        e.charge = planned;
        e
    }

    /// What is recorded when the operation is taken up; see [`begin_record`].
    pub fn opening_event(&self, planned: Option<QuotaCharge>, refused: Option<&str>) -> (r: Option<
        AuditEvent,
    >)
        ensures
            match begin_record(self@, planned, exec::str_view(refused)) {
                Some(e) => r matches Some(got) && got@ == e,
                None => r is None,
            },
    {
        match refused {
            Some(why) => Some(self.deny(planned, why)),
            None => match planned {
                Some(c) => if c != QuotaCharge::default() {
                    Some(self.event(AuditAction::Charge).with_charge(c))
                } else {
                    None
                },
                None => None,
            },
        }
    }

    /// What is recorded of a step of the accounts.
    pub fn begin_event(&self, planned: Option<QuotaCharge>, step: &TenantStep) -> (r: Option<
        AuditEvent,
    >)
        ensures
            match begin_record(self@, planned, refused_of(*step)) {
                Some(e) => r matches Some(got) && got@ == e,
                None => r is None,
            },
    {
        match step {
            TenantStep::Refused(why) => self.opening_event(planned, Some(why.as_str())),
            TenantStep::Forward(_, _) => self.opening_event(planned, None),
        }
    }

    /// What is recorded of a charge that was given back; see [`release_record`].
    pub fn release_event(&self, released: QuotaCharge, note: Option<&str>) -> (r: AuditEvent)
        ensures
            r@ == release_record(self@, released, exec::str_view(note)),
    {
        let e = self.event(AuditAction::Release).with_charge(released);
        match note {
            Some(t) => e.with_note(t),
            None => e,
        }
    }

    /// What is recorded when the host has answered; see [`settle_records`].
    pub fn settle_events(&self, settled: &Settled) -> (r: Vec<AuditEvent>)
        ensures
            event_views(r@) == settle_records(
                self@,
                told_of(settled.reply),
                settled.released,
                settled.denied && settled.reply is Err,
            ),
    {
        let mut out: Vec<AuditEvent> = Vec::new();
        if settled.denied {
            if let Err(why) = &settled.reply {
                out.push(self.deny(None, why.as_str()));
            }
        }
        if let Some(c) = settled.released {
            let note = if settled.reply.is_err() {
                Some("refunded")
            } else {
                None
            };
            out.push(self.release_event(c, note));
        }
        assert(event_views(out@) =~= settle_records(
            self@,
            told_of(settled.reply),
            settled.released,
            settled.denied && settled.reply is Err,
        ));
        out
    }

    /// What is recorded at the end of an execution; see [`exec_record`].
    pub fn exec_event(&self, planned: Option<QuotaCharge>, told: Option<&str>) -> (r: AuditEvent)
        ensures
            r@ == exec_record(
                self@,
                planned,
                exec::str_view(told),
            ),
    {
        let mut e = self.event(AuditAction::Exec);
        e.charge = planned;
        match told {
            Some(why) => e.with_error(why),
            None => e,
        }
    }
}

/// Every charge and every denial of an operation that is taken up is recorded,
/// and nothing else is.
pub proof fn law_begin_is_recorded(
    o: OriginView,
    a: AccountView,
    s: StoreView,
    op: VmOp,
    n: StoreView,
    r: TenantStep,
)
    requires
        runtime::begun(a, s, op, n, r),
    ensures
        ({
            let e = begin_record(o, runtime::planned(op), refused_of(r));
            let c = runtime::planned(op);
            let takes = c is Some && c->0 != quota::no_charge();
            let accepted = hierarchy::store_charged(s, a.tenant, c->0).1 is Ok;
            &&& e is Some <==> takes
            &&& e is Some ==> (e->0.action == if accepted {
                AuditAction::Charge
            } else {
                AuditAction::Deny
            }) && e->0.charge == c && e->0.success == accepted && e->0.tenant == o.tenant
            &&& r is Refused <==> e is Some && e->0.action is Deny
            &&& n != s ==> e is Some && e->0.action is Charge
        }),
{
}

/// Every release and every denial that comes of a host's answer is recorded:
/// the denial first, the release last.
pub proof fn law_finish_is_recorded(
    o: OriginView,
    a: AccountView,
    s: StoreView,
    ticket: Ticket,
    reply: HostResult,
    r: Settled,
)
    requires
        runtime::concluded(a, s, ticket, reply, r),
    ensures
        ({
            let es = settle_records(
                o,
                told_of(r.reply),
                r.released,
                r.denied && r.reply is Err,
            );
            let due = runtime::due(a, ticket, reply);
            &&& r.released is Some ==> es.len() > 0 && es.last().action is Release
                && es.last().charge == due && es.last().success
            &&& runtime::settled(a, s, ticket, reply).1 != s ==> r.released is Some
            &&& (reply matches Err(why) && runtime::rights_missing(why@)) ==> es.len() > 0
                && es[0].action is Deny && !es[0].success
        }),
{
}

} // verus!
