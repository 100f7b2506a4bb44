//! Audit records and what is kept of them.

use vstd::prelude::*;
use vstd::string::*;

use crate::mesh::federation;
use crate::mesh::federation::clone_text;
use crate::tenancy::auth::now_ms;
use crate::tenancy::quota::QuotaCharge;
use crate::text;
use crate::text::{chars_of, split_ranges, trim_range};

verus! {

/// What an audit record is about.
#[derive(Debug, Clone, Copy, PartialEq, Eq, Hash, Structural)]
pub enum AuditAction {
    /// A tenant was charged.
    Charge,
    /// A tenant got a charge back.
    Release,
    /// An operation was refused.
    Deny,
    /// A single-shot execution ended.
    Exec,
}

/// One audit record.
#[derive(Debug, PartialEq, Eq)]
pub struct AuditEvent {
    /// When, in milliseconds since the Unix epoch.
    pub timestamp_millis: u64,
    /// Tenant.
    pub tenant: String,
    /// User, if one is known.
    pub user: Option<String>,
    /// What it is about.
    pub action: AuditAction,
    /// Capability tag of the operation.
    pub op_capability_tag: Option<String>,
    /// Charge that was planned.
    pub charge: Option<QuotaCharge>,
    /// Whether it went well; never so for a denial.
    pub success: bool,
    /// What went wrong.
    pub error: Option<String>,
    /// A remark.
    pub note: Option<String>,
}

/// Mathematical value of an [`AuditEvent`].
#[verifier::ext_equal]
pub struct AuditView {
    /// See [`AuditEvent::timestamp_millis`].
    pub timestamp_millis: u64,
    /// See [`AuditEvent::tenant`].
    pub tenant: Seq<char>,
    /// See [`AuditEvent::user`].
    pub user: Option<Seq<char>>,
    /// See [`AuditEvent::action`].
    pub action: AuditAction,
    /// See [`AuditEvent::op_capability_tag`].
    pub op_capability_tag: Option<Seq<char>>,
    /// See [`AuditEvent::charge`].
    pub charge: Option<QuotaCharge>,
    /// See [`AuditEvent::success`].
    pub success: bool,
    /// See [`AuditEvent::error`].
    pub error: Option<Seq<char>>,
    /// See [`AuditEvent::note`].
    pub note: Option<Seq<char>>,
}

impl View for AuditEvent {
    type V = AuditView;

    open spec fn view(&self) -> AuditView {
        AuditView {
            timestamp_millis: self.timestamp_millis,
            tenant: self.tenant@,
            user: federation::text_view(self.user),
            action: self.action,
            op_capability_tag: federation::text_view(self.op_capability_tag),
            charge: self.charge,
            success: self.success,
            error: federation::text_view(self.error),
            note: federation::text_view(self.note),
        }
    }
}

impl Clone for AuditEvent {
    fn clone(&self) -> (r: AuditEvent)
        ensures
            r == *self,
    {
        AuditEvent {
            timestamp_millis: self.timestamp_millis,
            tenant: self.tenant.clone(),
            user: clone_text(&self.user),
            action: self.action,
            op_capability_tag: clone_text(&self.op_capability_tag),
            charge: self.charge,
            success: self.success,
            error: clone_text(&self.error),
            note: clone_text(&self.note),
        }
    }
}

/// A record with nothing attached. A denial is a failure; anything else went
/// well.
pub open spec fn plain(timestamp_millis: u64, tenant: Seq<char>, action: AuditAction) -> AuditView {
    AuditView {
        timestamp_millis,
        tenant,
        user: None,
        action,
        op_capability_tag: None,
        charge: None,
        success: !(action is Deny),
        error: None,
        note: None,
    }
}

impl AuditEvent {
    /// A record of a given moment. A denial is a failure; anything else went
    /// well.
    pub fn at(timestamp_millis: u64, tenant: &str, action: AuditAction) -> (r: AuditEvent)
        ensures
            r@ == plain(timestamp_millis, tenant@, action),
    {
        AuditEvent {
            timestamp_millis,
            tenant: tenant.to_owned(),
            user: None,
            action,
            op_capability_tag: None,
            charge: None,
            success: match action {
                AuditAction::Deny => false,
                _ => true,
            },
            error: None,
            note: None,
        }
    }

    /// A record of now.
    pub fn now(tenant: &str, action: AuditAction) -> (r: AuditEvent)
        ensures
            r@ == plain(r.timestamp_millis, tenant@, action),
    {
        AuditEvent::at(now_ms(), tenant, action)
    }

    /// Attaches a user.
    pub fn with_user(self, user: Option<String>) -> (r: AuditEvent)
        ensures
            r@ == (AuditView { user: federation::text_view(user), ..self@ }),
    {
        let mut e = self;
        e.user = user;
        e
    }

    /// Attaches the capability tag of the operation.
    pub fn with_op_tag(self, tag: &str) -> (r: AuditEvent)
        ensures
            r@ == (AuditView { op_capability_tag: Some(tag@), ..self@ }),
    {
        let mut e = self;
        e.op_capability_tag = Some(tag.to_owned());
        e
    }

    /// Attaches a charge.
    pub fn with_charge(self, charge: QuotaCharge) -> (r: AuditEvent)
        ensures
            r@ == (AuditView { charge: Some(charge), ..self@ }),
    {
        let mut e = self;
        e.charge = Some(charge);
        e
    }

    /// Turns the record into one of a failure.
    pub fn with_error(self, error: &str) -> (r: AuditEvent)
        ensures
            r@ == (AuditView { success: false, error: Some(error@), ..self@ }),
    {
        let mut e = self;
        e.success = false;
        e.error = Some(error.to_owned());
        e
    }

    /// Attaches a remark.
    pub fn with_note(self, note: &str) -> (r: AuditEvent)
        ensures
            r@ == (AuditView { note: Some(note@), ..self@ }),
    {
        let mut e = self;
        e.note = Some(note.to_owned());
        e
    }
}

/// Records kept in memory, oldest first.
#[derive(Debug)]
pub struct MemAuditSink {
    /// The records.
    pub log: Vec<AuditEvent>,
}

impl Default for MemAuditSink {
    fn default() -> (r: MemAuditSink)
        ensures
            r.log@.len() == 0,
    {
        MemAuditSink { log: Vec::new() }
    }
}

impl MemAuditSink {
    /// A sink without records.
    pub fn new() -> (r: MemAuditSink)
        ensures
            r.log@.len() == 0,
    {
        MemAuditSink::default()
    }

    /// Keeps a record.
    pub fn record(&mut self, event: AuditEvent)
        ensures
            final(self).log@ == old(self).log@.push(event),
    {
        self.log.push(event);
    }

    /// The records, copied.
    pub fn events(&self) -> (r: Vec<AuditEvent>)
        ensures
            r@ == self.log@,
    {
        copy_from(&self.log, 0)
    }

    /// Number of records.
    pub fn len(&self) -> (r: usize)
        ensures
            r == self.log@.len(),
    {
        self.log.len()
    }

    /// Whether there is no record.
    pub fn is_empty(&self) -> (r: bool)
        ensures
            r == (self.log@.len() == 0),
    {
        self.log.len() == 0
    }
}

/// Copies the records from a position on.
fn copy_from(log: &Vec<AuditEvent>, from: usize) -> (r: Vec<AuditEvent>)
    requires
        from <= log@.len(),
    ensures
        r@ == log@.skip(from as int),
{
    let mut out: Vec<AuditEvent> = Vec::new();
    let mut i: usize = from;
    while i < log.len()
        invariant
            from <= i <= log@.len(),
            out@ == log@.subrange(from as int, i as int),
        decreases log@.len() - i,
    {
        out.push(log[i].clone());
        i = i + 1;
        assert(out@ =~= log@.subrange(from as int, i as int));
    }
    assert(out@ =~= log@.skip(from as int));
    out
}

/// The last `n` records, oldest first; all of them if there are fewer.
pub open spec fn last_of(log: Seq<AuditEvent>, n: nat) -> Seq<AuditEvent> {
    if n >= log.len() {
        log
    } else {
        log.skip(log.len() - n)
    }
}

/// See [`last_of`].
pub fn tail(log: &Vec<AuditEvent>, n: usize) -> (r: Vec<AuditEvent>)
    ensures
        r@ == last_of(log@, n as nat),
{
    let start: usize = log.len().saturating_sub(n);
    assert(log@.skip(0) =~= log@);
    copy_from(log, start)
}

/// The lines of a log that may hold a record: without the white space around
/// them, and none that is empty.
pub open spec fn log_lines(pieces: Seq<Seq<char>>) -> Seq<Seq<char>>
    decreases pieces.len(),
{
    if pieces.len() == 0 {
        Seq::empty()
    } else {
        let rest = log_lines(pieces.drop_last());
        let line = text::trimmed(pieces.last());
        if line.len() == 0 {
            rest
        } else {
            rest.push(line)
        }
    }
}

/// Mathematical value of a list of lines.
pub open spec fn line_views(v: Seq<String>) -> Seq<Seq<char>> {
    Seq::new(v.len(), |i: int| v[i]@)
}

/// Splits a log into the lines that may hold a record.
pub fn read_lines(log: &str) -> (r: Vec<String>)
    ensures
        line_views(r@) == log_lines(text::split_on(log@, '\n')),
{
    let chars = chars_of(log);
    let ranges = split_ranges(&chars, '\n');
    let ghost pieces = text::split_on(log@, '\n');
    let mut out: Vec<String> = Vec::new();
    let mut i: usize = 0;
    proof {
        assert(pieces.take(0) =~= Seq::empty());
        assert(line_views(out@) =~= Seq::empty());
    }
    while i < ranges.len()
        invariant
            i <= ranges@.len(),
            ranges@.len() == pieces.len(),
            chars@ == log@,
            forall|k: int|
                0 <= k < ranges@.len() ==> (#[trigger] ranges@[k]).0 <= ranges@[k].1
                    <= chars@.len() && chars@.subrange(
                    ranges@[k].0 as int,
                    ranges@[k].1 as int,
                ) == pieces[k],
            line_views(out@) == log_lines(pieces.take(i as int)),
        decreases ranges@.len() - i,
    {
        let ghost before = line_views(out@);
        proof {
            let t = pieces.take(i + 1);
            assert(t.drop_last() =~= pieces.take(i as int));
            assert(t.last() == pieces[i as int]);
        }
        let (a, b) = ranges[i];
        assert(ranges@[i as int].0 <= ranges@[i as int].1);
        let (x, y) = trim_range(chars.as_slice(), a, b);
        if x < y {
            out.push(log.substring_char(x, y).to_owned());
            assert(line_views(out@) =~= before.push(text::trimmed(pieces[i as int])));
        } else {
            assert(text::trimmed(pieces[i as int]).len() == 0);
        }
        i = i + 1;
    }
    assert(pieces.take(i as int) =~= pieces);
    out
}

/// Records come back in the order in which they were kept, and the tail of a
/// log is its end.
pub proof fn law_tail_is_the_end(log: Seq<AuditEvent>, n: nat)
    ensures
        last_of(log, n).len() == if n < log.len() {
            n
        } else {
            log.len()
        },
        forall|i: int|
            0 <= i < last_of(log, n).len() ==> #[trigger] last_of(log, n)[i] == log[log.len()
                - last_of(log, n).len() + i],
{
}

} // verus!
