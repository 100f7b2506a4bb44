//! Recovery of VMs whose owner is gone.
//!
//! The supervisor is the first node that is alive. It recreates each VM that
//! waits for it on its own host, under a label that names where the VM came
//! from, so that a later pass leaves it alone.

use vstd::prelude::*;
use vstd::string::*;
use vstd::utf8::*;

use crate::error::{CelError, CelResult};
use crate::mesh::engine;
use crate::mesh::engine::{Mesh, MeshView};
use crate::mesh::federation;
use crate::mesh::federation::{RemoteVm, RemoteVmView, RestartPolicy};
use crate::mesh::host;
use crate::mesh::host::{HostResult, HostStep, HostView, SlotView};
use crate::mesh::membership;
use crate::mesh::membership::NodeId;
use crate::mesh::metrics::MeshMetricsSnapshot;
use crate::mesh::proto::{VmOp, VmOpReply};
use crate::mesh::table::Key;
use crate::mesh::vault;
use crate::mesh::vault::{clone_attachments, VolumeAttachment};
use crate::text::{byte_len, concat, str_eq};

verus! {

/// The longest beginning of a text that has at most `max` bytes.
pub open spec fn clipped(s: Seq<char>, max: int) -> Seq<char>
    decreases s.len(),
{
    if encode_utf8(s).len() <= max || s.len() == 0 {
        s
    } else {
        clipped(s.drop_last(), max)
    }
}

/// See [`clipped`].
pub fn clip(s: &str, max: usize) -> (r: String)
    ensures
        r@ == clipped(s@, max as int),
{
    let mut k: usize = s.unicode_len();
    assert(s@.subrange(0, k as int) =~= s@);
    while k > 0
        invariant_except_break
            k <= s@.len(),
            clipped(s@, max as int) == clipped(s@.subrange(0, k as int), max as int),
        ensures
            k <= s@.len(),
            clipped(s@, max as int) == s@.subrange(0, k as int),
        decreases k,
    {
        let head = s.substring_char(0, k);
        if byte_len(head) <= max {
            break;
        }
        assert(s@.subrange(0, k as int).drop_last() =~= s@.subrange(0, k - 1));
        k = k - 1;
    }
    s.substring_char(0, k).to_owned()
}

/// The label of a VM that is recreated: its own and its owner, cut to the
/// length of a label.
pub open spec fn restart_label(v: RemoteVmView) -> Seq<char> {
    clipped(v.label + "@"@ + v.owner, host::MAX_LABEL_BYTES as int)
}

/// One VM to be recreated.
#[derive(Debug)]
pub struct Restart {
    /// Owner that is gone.
    pub owner: NodeId,
    /// Number of the VM there.
    pub vm_id: u32,
    /// Label to be used here.
    pub label: String,
    /// Attachments to be kept.
    pub volumes: Vec<VolumeAttachment>,
}

/// Mathematical value of a [`Restart`].
#[verifier::ext_equal]
pub struct RestartView {
    /// See [`Restart::owner`].
    pub owner: Seq<char>,
    /// See [`Restart::vm_id`].
    pub vm_id: u32,
    /// See [`Restart::label`].
    pub label: Seq<char>,
    /// See [`Restart::volumes`].
    pub volumes: Seq<(Seq<char>, Seq<char>)>,
}

impl View for Restart {
    type V = RestartView;

    open spec fn view(&self) -> RestartView {
        RestartView {
            owner: self.owner@,
            vm_id: self.vm_id,
            label: self.label@,
            volumes: vault::attachment_views(self.volumes@),
        }
    }
}

/// Mathematical value of a list of VMs to be recreated.
pub open spec fn restart_views(v: Seq<Restart>) -> Seq<RestartView> {
    Seq::new(v.len(), |i: int| v[i]@)
}

/// A VM that was recreated.
#[derive(Debug, Clone, PartialEq, Eq)]
pub struct RestartedVm {
    /// Owner that is gone.
    pub original_owner: NodeId,
    /// Number of the VM there.
    pub original_vm_id: u32,
    /// Number of the VM here.
    pub new_vm_id: u32,
    /// Label of the VM here.
    pub label: String,
}

/// Mathematical value of a [`RestartedVm`].
#[verifier::ext_equal]
pub struct RestartedVmView {
    /// See [`RestartedVm::original_owner`].
    pub original_owner: Seq<char>,
    /// See [`RestartedVm::original_vm_id`].
    pub original_vm_id: u32,
    /// See [`RestartedVm::new_vm_id`].
    pub new_vm_id: u32,
    /// See [`RestartedVm::label`].
    pub label: Seq<char>,
}

impl View for RestartedVm {
    type V = RestartedVmView;

    open spec fn view(&self) -> RestartedVmView {
        RestartedVmView {
            original_owner: self.original_owner@,
            original_vm_id: self.original_vm_id,
            new_vm_id: self.new_vm_id,
            label: self.label@,
        }
    }
}

/// Mathematical value of a list of VMs that were recreated.
pub open spec fn restarted_views(v: Seq<RestartedVm>) -> Seq<RestartedVmView> {
    Seq::new(v.len(), |i: int| v[i]@)
}

/// What is to be recreated: the orphans under whose new label the host has no
/// VM yet.
pub open spec fn plan(orphans: Seq<RemoteVmView>, existing: Seq<RemoteVmView>) -> Seq<RestartView>
    decreases orphans.len(),
{
    if orphans.len() == 0 {
        Seq::empty()
    } else {
        let rest = plan(orphans.drop_last(), existing);
        let v = orphans.last();
        if has_label(existing, restart_label(v)) {
            rest
        } else {
            rest.push(restart_of(v))
        }
    }
}

/// How a VM is recreated: under its new label, with the volumes that it had.
pub open spec fn restart_of(v: RemoteVmView) -> RestartView {
    RestartView {
        owner: v.owner,
        vm_id: v.vm_id,
        label: restart_label(v),
        volumes: v.volumes,
    }
}

/// Whether a VM of a list has a label.
pub open spec fn has_label(rows: Seq<RemoteVmView>, label: Seq<char>) -> bool {
    exists|i: int| 0 <= i < rows.len() && (#[trigger] rows[i]).label == label
}

/// Whether a VM of a list has a label.
fn labelled(rows: &Vec<RemoteVm>, label: &str) -> (r: bool)
    ensures
        r == has_label(federation::vm_views(rows@), label@),
{
    let ghost v = federation::vm_views(rows@);
    let mut i: usize = 0;
    while i < rows.len()
        invariant
            i <= rows@.len(),
            v == federation::vm_views(rows@),
            forall|j: int| 0 <= j < i ==> (#[trigger] v[j]).label != label@,
        decreases rows@.len() - i,
    {
        if str_eq(rows[i].label.as_str(), label) {
            assert(v[i as int].label == label@);
            return true;
        }
        i = i + 1;
    }
    false
}

/// Works out what is to be recreated.
pub fn plan_restarts(orphans: &Vec<RemoteVm>, existing: &Vec<RemoteVm>) -> (r: Vec<Restart>)
    ensures
        restart_views(r@) == plan(
            federation::vm_views(orphans@),
            federation::vm_views(existing@),
        ),
{
    let ghost all = federation::vm_views(orphans@);
    let ghost have = federation::vm_views(existing@);
    let mut out: Vec<Restart> = Vec::new();
    let mut i: usize = 0;
    proof {
        assert(all.take(0) =~= Seq::empty());
        assert(restart_views(out@) =~= Seq::empty());
    }
    while i < orphans.len()
        invariant
            i <= orphans@.len(),
            all == federation::vm_views(orphans@),
            have == federation::vm_views(existing@),
            restart_views(out@) == plan(all.take(i as int), have),
        decreases orphans@.len() - i,
    {
        let v = &orphans[i];
        let ghost before = restart_views(out@);
        proof {
            let t = all.take(i + 1);
            assert(t.drop_last() =~= all.take(i as int));
            assert(t.last() == all[i as int]);
        }
        let mut full = concat(v.label.as_str(), "@");
        full.append(v.owner.as_str());
        let label = clip(full.as_str(), host::MAX_LABEL_BYTES);
        if !labelled(existing, label.as_str()) {
            let item = Restart {
                owner: v.owner.clone(),
                vm_id: v.vm_id,
                label,
                volumes: clone_attachments(&v.volumes),
            };
            let ghost iv = item@;
            out.push(item);
            assert(restart_views(out@) =~= before.push(iv));
        }
        i = i + 1;
    }
    assert(all.take(i as int) =~= all);
    out
}

/// Whether an operation recreates a VM.
pub open spec fn asks_for(op: VmOp, x: RestartView) -> bool {
    op matches VmOp::Create {
        label,
        restart_policy,
        image_path,
        cpu_count,
        memory_mib,
        boot_blob_crc32c,
    } && label@ == x.label && restart_policy == RestartPolicy::Never && image_path is None
        && cpu_count is None && memory_mib is None && boot_blob_crc32c is None
}

/// What is noted of a VM that was recreated.
pub open spec fn noted(x: RestartView, vm_id: u32) -> RestartedVmView {
    RestartedVmView {
        original_owner: x.owner,
        original_vm_id: x.vm_id,
        new_vm_id: vm_id,
        label: x.label,
    }
}

/// Whether `a` is what a VM that was recreated is to be given.
pub open spec fn gives(x: RestartView, vm_id: u32, a: Option<(u32, Vec<VolumeAttachment>)>) -> bool {
    if x.volumes.len() == 0 {
        a is None
    } else {
        a matches Some((v, vols)) && v == vm_id && vault::attachment_views(vols@) == x.volumes
    }
}

/// One pass of the supervisor.
#[derive(Debug)]
pub struct SupervisorPass {
    /// What is to be recreated.
    pub todo: Vec<Restart>,
    /// How much of it was taken up.
    pub at: usize,
    /// What was recreated.
    pub done: Vec<RestartedVm>,
}

impl SupervisorPass {
    /// No more was taken up than there is.
    pub open spec fn wf(&self) -> bool {
        self.at <= self.todo@.len()
    }

    /// A pass over what is to be recreated.
    pub fn new(todo: Vec<Restart>) -> (r: SupervisorPass)
        ensures
            r.wf(),
            r.todo == todo,
            r.at == 0,
            r.done@.len() == 0,
    {
        SupervisorPass { todo, at: 0, done: Vec::new() }
    }

    /// The operation that the host is to run next, if any is left.
    pub fn next(&self) -> (r: Option<VmOp>)
        requires
            self.wf(),
        ensures
            if self.at == self.todo@.len() {
                r is None
            } else {
                r matches Some(op) && asks_for(op, self.todo@[self.at as int]@)
            },
    {
        if self.at == self.todo.len() {
            return None;
        }
        Some(
            VmOp::Create {
                label: self.todo[self.at].label.clone(),
                restart_policy: RestartPolicy::Never,
                image_path: None,
                cpu_count: None,
                memory_mib: None,
                boot_blob_crc32c: None,
            },
        )
    }

    /// Takes in the host's result. A VM that was recreated is noted; the
    /// attachments that it is to be given come back, if it has any. A failure
    /// ends the pass.
    pub fn advance(&mut self, result: HostResult) -> (r: CelResult<
        Option<(u32, Vec<VolumeAttachment>)>,
    >)
        requires
            old(self).wf(),
            old(self).at < old(self).todo@.len(),
        ensures
            final(self).wf(),
            final(self).todo == old(self).todo,
            ({
                let item = old(self).todo@[old(self).at as int]@;
                match result {
                    Err(why) => {
                        &&& r matches Err(CelError::Io(m)) && m@ == "supervisor create: "@ + why@
                        &&& final(self).at == old(self).at
                        &&& final(self).done == old(self).done
                    },
                    Ok(VmOpReply::Created { vm_id }) => {
                        &&& final(self).at == old(self).at + 1
                        &&& restarted_views(final(self).done@) == restarted_views(
                            old(self).done@,
                        ).push(noted(item, vm_id))
                        &&& r matches Ok(a) && gives(item, vm_id, a)
                    },
                    Ok(_) => {
                        &&& r matches Ok(None)
                        &&& final(self).at == old(self).at + 1
                        &&& final(self).done == old(self).done
                    },
                }
            }),
    {
        let n: usize = self.todo.len();
        assert(self.at < n);
        match result {
            Err(why) => Err(CelError::Io(concat("supervisor create: ", why.as_str()))),
            Ok(VmOpReply::Created { vm_id }) => {
                let ghost before = restarted_views(self.done@);
                let item = &self.todo[self.at];
                let volumes = clone_attachments(&item.volumes);
                let vm = RestartedVm {
                    original_owner: item.owner.clone(),
                    original_vm_id: item.vm_id,
                    new_vm_id: vm_id,
                    label: item.label.clone(),
                };
                let ghost v = vm@;
                assert(vault::attachment_views(volumes@).len() == volumes@.len());
                self.done.push(vm);
                self.at = self.at + 1;
                assert(restarted_views(self.done@) =~= before.push(v));
                if volumes.len() == 0 {
                    Ok(None)
                } else {
                    Ok(Some((vm_id, volumes)))
                }
            },
            Ok(_) => {
                self.at = self.at + 1;
                Ok(None)
            },
        }
    }
}

impl Mesh {
    /// Starts a pass of the supervisor: the VMs that wait for it, none if this
    /// node is not the supervisor.
    pub fn run_supervisor_step(&mut self, has_host: bool) -> (r: CelResult<Vec<RemoteVm>>)
        requires
            old(self).wf(),
        ensures
            final(self).wf(),
            if !engine::supervises(membership::ordered(old(self)@.rows), old(self)@.me()) {
                final(self)@ == old(self)@ && (r matches Ok(v) && v@.len() == 0)
            } else if !has_host {
                final(self)@ == old(self)@ && r == Err::<Vec<RemoteVm>, CelError>(
                    CelError::Invalid("no VmHost registered"),
                )
            } else {
                &&& final(self)@ == engine::with_liveness(old(self)@)
                &&& r matches Ok(v) && federation::vm_views(v@) == engine::orphans(
                    federation::ordered(final(self)@.vms),
                )
            },
    {
        if !self.is_supervisor() {
            return Ok(Vec::new());
        }
        if !has_host {
            return Err(CelError::Invalid("no VmHost registered"));
        }
        Ok(self.orphaned_vms())
    }

    /// Counts the VMs that a pass of the supervisor recreated. Tells whether the
    /// peers are to hear of them, that is, whether there are any.
    pub fn supervisor_done(&mut self, restarted: &Vec<RestartedVm>) -> (r: bool)
        ensures
            r == (restarted@.len() > 0),
            old(self).wf() ==> final(self).wf(),
            final(self)@ == (MeshView {
                metrics: MeshMetricsSnapshot {
                    supervisor_restarts: old(self)@.metrics.supervisor_restarts.wrapping_add(
                        restarted@.len() as u64,
                    ),
                    ..old(self)@.metrics
                },
                ..old(self)@
            }),
    {
        self.metrics.inc_supervisor_restarts(restarted.len() as u64);
        restarted.len() > 0
    }
}

/// A clipped text fits.
pub proof fn lemma_clipped(s: Seq<char>, max: int)
    requires
        0 <= max,
    ensures
        encode_utf8(clipped(s, max)).len() <= max,
        encode_utf8(s).len() <= max ==> clipped(s, max) == s,
        clipped(s, max).len() <= s.len(),
        clipped(s, max) == s.take(clipped(s, max).len() as int),
    decreases s.len(),
{
    if encode_utf8(s).len() <= max {
        assert(s.take(s.len() as int) =~= s);
    } else if s.len() == 0 {
        assert(encode_utf8(s) =~= Seq::empty());
    } else {
        lemma_clipped(s.drop_last(), max);
        let c = clipped(s, max);
        assert(s.drop_last().take(c.len() as int) =~= s.take(c.len() as int));
    }
}

/// The label of a VM that is recreated is one that a host accepts.
pub proof fn law_restart_label_fits(v: RemoteVmView)
    ensures
        encode_utf8(restart_label(v)).len() <= host::MAX_LABEL_BYTES,
{
    lemma_clipped(v.label + "@"@ + v.owner, host::MAX_LABEL_BYTES as int);
}

/// What is planned is exactly the orphans that the host does not have yet, each
/// with the volumes that it had.
pub proof fn law_plan(orphans: Seq<RemoteVmView>, existing: Seq<RemoteVmView>)
    ensures
        forall|x: RestartView| #[trigger]
            plan(orphans, existing).contains(x) <==> exists|i: int|
                0 <= i < orphans.len() && x == restart_of(#[trigger] orphans[i]) && !has_label(
                    existing,
                    restart_label(orphans[i]),
                ),
        plan(orphans, existing).len() <= orphans.len(),
    decreases orphans.len(),
{
    if orphans.len() > 0 {
        let p = orphans.drop_last();
        let v = orphans.last();
        let head = plan(p, existing);
        let full = plan(orphans, existing);
        law_plan(p, existing);
        assert forall|x: RestartView| #[trigger] full.contains(x) <==> exists|i: int|
            0 <= i < orphans.len() && x == restart_of(#[trigger] orphans[i]) && !has_label(
                existing,
                restart_label(orphans[i]),
            ) by {
            if full.contains(x) {
                let k = choose|k: int| 0 <= k < full.len() && full[k] == x;
                if k < head.len() {
                    assert(head[k] == x);
                    assert(head.contains(x));
                    let i = choose|i: int|
                        0 <= i < p.len() && x == restart_of(#[trigger] p[i]) && !has_label(
                            existing,
                            restart_label(p[i]),
                        );
                    assert(orphans[i] == p[i]);
                } else {
                    assert(orphans[orphans.len() - 1] == v);
                }
            }
            if exists|i: int|
                0 <= i < orphans.len() && x == restart_of(#[trigger] orphans[i]) && !has_label(
                    existing,
                    restart_label(orphans[i]),
                ) {
                let i = choose|i: int|
                    0 <= i < orphans.len() && x == restart_of(#[trigger] orphans[i])
                        && !has_label(existing, restart_label(orphans[i]));
                if i < p.len() {
                    assert(p[i] == orphans[i]);
                    assert(head.contains(x));
                    let k = choose|k: int| 0 <= k < head.len() && head[k] == x;
                    assert(full[k] == x);
                } else {
                    assert(full[full.len() - 1] == x);
                }
            }
        }
    }
}

/// A VM that a host recreates is there under its new label, with the volumes
/// that it had, and no other VM of the host changes.
pub proof fn law_restart_keeps_volumes(
    v: RemoteVmView,
    s: HostView,
    op: VmOp,
    n: HostView,
    vm_id: u32,
    m: HostView,
    owner: Seq<char>,
)
    requires
        s.slots.len() == host::MAX_SLOTS,
        op matches VmOp::Create { label, .. } && label@ == restart_label(v),
        host::stepped(s, op, n, HostStep::Reply(Ok(VmOpReply::Created { vm_id }))),
        m == if v.volumes.len() == 0 {
            n
        } else {
            host::with_slot(
                n,
                vm_id as int,
                Some(SlotView { volumes: v.volumes, ..n.slots[vm_id as int]->0 }),
            )
        },
    ensures
        vm_id < host::MAX_SLOTS,
        s.slots[vm_id as int] is None,
        m.slots[vm_id as int] is Some,
        m.slots[vm_id as int]->0.label == restart_label(v),
        m.slots[vm_id as int]->0.volumes == v.volumes,
        forall|i: int|
            0 <= i < s.slots.len() && i != vm_id ==> m.slots[i] == #[trigger] s.slots[i],
        host::rows_from(m.slots, owner, 0).contains(
            host::row_of(m.slots[vm_id as int]->0, owner, vm_id),
        ),
{
    host::lemma_first_free(s.slots, 0);
    assert(m.slots[vm_id as int]->0.volumes =~= v.volumes);
    host::lemma_row_listed(m.slots, owner, 0, vm_id as int);
}

/// A pass that runs again after every VM of its plan was recreated finds
/// nothing left to do.
pub proof fn law_second_pass_is_empty(
    orphans: Seq<RemoteVmView>,
    existing: Seq<RemoteVmView>,
    now: Seq<RemoteVmView>,
)
    requires
        forall|l: Seq<char>| has_label(existing, l) ==> #[trigger] has_label(now, l),
        forall|k: int|
            0 <= k < plan(orphans, existing).len() ==> has_label(
                now,
                (#[trigger] plan(orphans, existing)[k]).label,
            ),
    ensures
        plan(orphans, now).len() == 0,
    decreases orphans.len(),
{
    if orphans.len() > 0 {
        let p = orphans.drop_last();
        let v = orphans.last();
        let full = plan(orphans, existing);
        let head = plan(p, existing);
        assert forall|k: int| 0 <= k < head.len() implies has_label(
            now,
            (#[trigger] head[k]).label,
        ) by {
            assert(full[k] == head[k]);
        }
        law_second_pass_is_empty(p, existing, now);
        if !has_label(existing, restart_label(v)) {
            assert(full[full.len() - 1].label == restart_label(v));
        }
    }
}

/// Whether a host goes from `s` to `m` when it recreates `x`: it creates a VM
/// with the label, as [`SupervisorPass::next`] asks, and gives it the volumes.
pub open spec fn recreated(s: HostView, x: RestartView, m: HostView) -> bool {
    exists|op: VmOp, n: HostView, vm_id: u32|
        {
            &&& op matches VmOp::Create { label, .. } && label@ == x.label
            &&& #[trigger] host::stepped(
                s,
                op,
                n,
                HostStep::Reply(Ok(VmOpReply::Created { vm_id })),
            )
            &&& m == if x.volumes.len() == 0 {
                n
            } else {
                host::with_slot(
                    n,
                    vm_id as int,
                    Some(SlotView { volumes: x.volumes, ..n.slots[vm_id as int]->0 }),
                )
            }
        }
}

/// Whether `hosts` are the states of a host while it recreates all of `todo`,
/// one after the other.
pub open spec fn all_recreated(hosts: Seq<HostView>, todo: Seq<RestartView>) -> bool {
    &&& hosts.len() == todo.len() + 1
    &&& forall|k: int|
        0 <= k < todo.len() ==> recreated(#[trigger] hosts[k], todo[k], hosts[k + 1])
}

/// A host that recreated a VM has it, and still has every other.
proof fn lemma_recreated(s: HostView, x: RestartView, m: HostView)
    requires
        s.slots.len() == host::MAX_SLOTS,
        recreated(s, x, m),
    ensures
        m.slots.len() == host::MAX_SLOTS,
        host::has_vm(m.slots, 0, x.label),
        forall|l: Seq<char>| host::has_vm(s.slots, 0, l) ==> #[trigger] host::has_vm(m.slots, 0, l),
{
    let (op, n, vm_id) = choose|op: VmOp, n: HostView, vm_id: u32|
        {
            &&& op matches VmOp::Create { label, .. } && label@ == x.label
            &&& #[trigger] host::stepped(
                s,
                op,
                n,
                HostStep::Reply(Ok(VmOpReply::Created { vm_id })),
            )
            &&& m == if x.volumes.len() == 0 {
                n
            } else {
                host::with_slot(
                    n,
                    vm_id as int,
                    Some(SlotView { volumes: x.volumes, ..n.slots[vm_id as int]->0 }),
                )
            }
        };
    host::lemma_first_free(s.slots, 0);
    assert(m.slots[vm_id as int]->0.label == x.label);
    assert forall|l: Seq<char>| host::has_vm(s.slots, 0, l) implies #[trigger] host::has_vm(
        m.slots,
        0,
        l,
    ) by {
        let k = choose|k: int|
            0 <= k < s.slots.len() && (#[trigger] s.slots[k]) is Some && s.slots[k]->0.label == l;
        assert(m.slots[k] == s.slots[k]);
    }
}

/// Whatever a host had or recreated is still there after the first `n` VMs.
proof fn lemma_all_recreated(hosts: Seq<HostView>, todo: Seq<RestartView>, n: int)
    requires
        hosts[0].slots.len() == host::MAX_SLOTS,
        all_recreated(hosts, todo),
        0 <= n <= todo.len(),
    ensures
        hosts[n].slots.len() == host::MAX_SLOTS,
        forall|k: int| 0 <= k < n ==> host::has_vm(hosts[n].slots, 0, (#[trigger] todo[k]).label),
        forall|l: Seq<char>|
            host::has_vm(hosts[0].slots, 0, l) ==> #[trigger] host::has_vm(hosts[n].slots, 0, l),
    decreases n,
{
    if n > 0 {
        lemma_all_recreated(hosts, todo, n - 1);
        assert(recreated(hosts[n - 1], todo[n - 1], hosts[n - 1 + 1]));
        lemma_recreated(hosts[n - 1], todo[n - 1], hosts[n]);
        assert forall|k: int| 0 <= k < n implies host::has_vm(
            hosts[n].slots,
            0,
            (#[trigger] todo[k]).label,
        ) by {
            if k < n - 1 {
                assert(host::has_vm(hosts[n - 1].slots, 0, todo[k].label));
            }
        }
        assert forall|l: Seq<char>| host::has_vm(hosts[0].slots, 0, l) implies #[trigger]
            host::has_vm(hosts[n].slots, 0, l) by {
            assert(host::has_vm(hosts[n - 1].slots, 0, l));
        }
    }
}

/// The orphans of a list are its rows that wait for the supervisor.
pub proof fn lemma_orphans(rows: Seq<RemoteVmView>)
    ensures
        forall|v: RemoteVmView| #[trigger]
            engine::orphans(rows).contains(v) <==> rows.contains(v) && engine::is_orphan(v),
    decreases rows.len(),
{
    if rows.len() > 0 {
        let p = rows.drop_last();
        let head = engine::orphans(p);
        let full = engine::orphans(rows);
        lemma_orphans(p);
        assert forall|v: RemoteVmView| #[trigger] full.contains(v) <==> rows.contains(v)
            && engine::is_orphan(v) by {
            if full.contains(v) {
                let k = choose|k: int| 0 <= k < full.len() && full[k] == v;
                if k < head.len() {
                    assert(head[k] == v);
                    assert(head.contains(v));
                    let i = choose|i: int| 0 <= i < p.len() && p[i] == v;
                    assert(rows[i] == v);
                } else {
                    assert(rows[rows.len() - 1] == v);
                }
            }
            if rows.contains(v) && engine::is_orphan(v) {
                let i = choose|i: int| 0 <= i < rows.len() && rows[i] == v;
                if i < p.len() {
                    assert(p[i] == v);
                    assert(head.contains(v));
                    let k = choose|k: int| 0 <= k < head.len() && head[k] == v;
                    assert(full[k] == v);
                } else {
                    assert(full[full.len() - 1] == v);
                }
            }
        }
    }
}

/// Recovery is idempotent. A pass of the supervisor recreated all that it had
/// planned on the host of this node: `a` is the engine that it started from,
/// `first` the one with which [`Mesh::run_supervisor_step`] went on, `hosts` the
/// states of the host. Since then neither who is alive nor the rows of other
/// owners changed, and the host has the VMs that the pass left. A further pass,
/// from `b` and with `second`, then plans nothing: it creates no VM.
pub proof fn law_recovery_is_idempotent(
    a: MeshView,
    first: Mesh,
    hosts: Seq<HostView>,
    b: MeshView,
    second: Mesh,
)
    requires
        first.wf(),
        first@ == engine::with_liveness(a),
        hosts.len() > 0,
        hosts[0].slots.len() == host::MAX_SLOTS,
        all_recreated(
            hosts,
            plan(
                engine::orphans(federation::ordered(first@.vms)),
                host::rows_from(hosts[0].slots, a.me(), 0),
            ),
        ),
        b.config == a.config,
        forall|id: Seq<char>| #[trigger] b.alive(id) == a.alive(id),
        forall|k: Key|
            k.0 != a.me() ==> (#[trigger] b.vms.dom().contains(k) <==> first@.vms.dom().contains(
                k,
            )) && (b.vms.dom().contains(k) ==> b.vms[k] == first@.vms[k]),
        second.wf(),
        second@ == engine::with_liveness(b),
    ensures
        plan(
            engine::orphans(federation::ordered(second@.vms)),
            host::rows_from(hosts.last().slots, a.me(), 0),
        ).len() == 0,
{
    let me = a.me();
    let rows_a = federation::ordered(first@.vms);
    let rows_b = federation::ordered(second@.vms);
    let had = host::rows_from(hosts[0].slots, me, 0);
    let has = host::rows_from(hosts.last().slots, me, 0);
    let todo = plan(engine::orphans(rows_a), had);
    let rest = plan(engine::orphans(rows_b), has);
    first.federation.lemma_ordered();
    second.federation.lemma_ordered();
    lemma_orphans(rows_a);
    lemma_orphans(rows_b);
    law_plan(engine::orphans(rows_a), had);
    law_plan(engine::orphans(rows_b), has);
    lemma_all_recreated(hosts, todo, todo.len() as int);
    if rest.len() > 0 {
        assert(rest.contains(rest[0]));
        let os = engine::orphans(rows_b);
        let i = choose|i: int|
            0 <= i < os.len() && rest[0] == restart_of(#[trigger] os[i]) && !has_label(
                has,
                restart_label(os[i]),
            );
        let v = os[i];
        let l = restart_label(v);
        assert(os.contains(v));
        let j = choose|j: int| 0 <= j < rows_b.len() && rows_b[j] == v;
        let k = v.key();
        assert(second@.vms.dom().contains(rows_b[j].key()));
        assert(b.vms.dom().contains(k));
        assert(first@.vms.dom().contains(k));
        assert(a.vms.dom().contains(k));
        assert(b.alive(v.owner) == a.alive(v.owner));
        assert(first@.vms[k] == v);
        let q = choose|q: int| 0 <= q < rows_a.len() && (#[trigger] rows_a[q]).key() == k;
        assert(rows_a[q] == v);
        assert(engine::orphans(rows_a).contains(v));
        let p = choose|p: int|
            0 <= p < engine::orphans(rows_a).len() && engine::orphans(rows_a)[p] == v;
        host::lemma_labels_listed(hosts[0].slots, me, 0, l);
        host::lemma_labels_listed(hosts.last().slots, me, 0, l);
        if !has_label(had, l) {
            assert(restart_of(engine::orphans(rows_a)[p]) == restart_of(v));
            assert(todo.contains(restart_of(v)));
            let t = choose|t: int| 0 <= t < todo.len() && todo[t] == restart_of(v);
            assert(todo[t].label == l);
        }
        assert(host::has_vm(hosts.last().slots, 0, l));
        assert(has_label(has, l));
    }
}

/// Nodes that agree on who is alive agree on the supervisor: there is never
/// more than one.
pub proof fn law_one_supervisor(rows: Seq<membership::MemberRowView>, a: Seq<char>, b: Seq<char>)
    requires
        engine::supervises(rows, a),
        engine::supervises(rows, b),
    ensures
        a == b,
{
    let i = choose|i: int|
        {
            &&& 0 <= i < rows.len()
            &&& (#[trigger] rows[i]).info.id == a
            &&& rows[i].info.status == membership::NodeStatus::Alive
            &&& forall|j: int|
                0 <= j < i ==> (#[trigger] rows[j]).info.status
                    != membership::NodeStatus::Alive
        };
    let k = choose|k: int|
        {
            &&& 0 <= k < rows.len()
            &&& (#[trigger] rows[k]).info.id == b
            &&& rows[k].info.status == membership::NodeStatus::Alive
            &&& forall|j: int|
                0 <= j < k ==> (#[trigger] rows[j]).info.status
                    != membership::NodeStatus::Alive
        };
    assert(i == k);
}

/// Where some node is alive there is a supervisor.
pub proof fn law_some_supervisor(rows: Seq<membership::MemberRowView>, i: int)
    requires
        0 <= i < rows.len(),
        rows[i].info.status == membership::NodeStatus::Alive,
    ensures
        exists|k: int|
            0 <= k <= i && engine::supervises(rows, (#[trigger] rows[k]).info.id),
    decreases i,
{
    if exists|j: int|
        0 <= j < i && (#[trigger] rows[j]).info.status == membership::NodeStatus::Alive {
        let j = choose|j: int|
            0 <= j < i && (#[trigger] rows[j]).info.status == membership::NodeStatus::Alive;
        law_some_supervisor(rows, j);
        let k = choose|k: int|
            0 <= k <= j && engine::supervises(rows, (#[trigger] rows[k]).info.id);
        assert(engine::supervises(rows, rows[k].info.id));
    } else {
        assert(engine::supervises(rows, rows[i].info.id));
    }
}

} // verus!
