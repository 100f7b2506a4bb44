//! What holds of a kernel, of the host that drives it, and of the two together:
//! what an operation asked of the host does to the VMs of the kernel, and what a
//! list shows of it afterwards.

use vstd::prelude::*;
use vstd::string::*;
use vstd::utf8::*;

use crate::error::{CelError, CelResult};
use crate::image::util;
use crate::mesh::federation;
use crate::mesh::federation::{RemoteVm, RemoteVmView, RestartPolicy};
use crate::mesh::host;
use crate::mesh::host::{HostResult, HostStep, VmState};
use crate::mesh::hyper_host;
use crate::mesh::hyper_host::{
    CelhyperView, HyperReply, HyperRequest, HyperStep, LoopSlotView, Pending, Slots,
};
use crate::mesh::proto::{VmOp, VmOpReply};
use crate::mesh::vault;
use crate::mesh::vault::VolumeAttachment;
use crate::text;

verus! {

/// The kernel holds a VM under `vm_id`.
pub open spec fn holds(s: Slots, vm_id: u32) -> bool {
    vm_id < s.len() && s[vm_id as int] is Some
}

/// Every VM but `vm_id` is the same in both.
pub open spec fn others_same(s: Slots, n: Slots, vm_id: u32) -> bool {
    &&& n.len() == s.len()
    &&& forall|i: int| 0 <= i < s.len() && i != vm_id ==> #[trigger] n[i] == s[i]
}

proof fn lemma_free(s: Slots, i: int)
    requires
        0 <= i <= s.len(),
    ensures
        match hyper_host::first_free(s, i) {
            Some(k) => i <= k < s.len() && s[k] is None && forall|j: int|
                i <= j < k ==> (#[trigger] s[j]) is Some,
            None => forall|j: int| i <= j < s.len() ==> (#[trigger] s[j]) is Some,
        },
    decreases s.len() - i,
{
    if i < s.len() && s[i] is Some {
        lemma_free(s, i + 1);
    }
}

/// A kernel allocates a VM if the label has at most 32 bytes, the image path at
/// most 128, and one of its four places is free. The VM then stands in the first
/// free place, as it was asked for, neither started nor ended; every other place
/// is as it was.
pub proof fn law_kernel_allocates(
    s: Slots,
    label: String,
    image_path: Option<String>,
    cpu_count: Option<u32>,
    memory_mib: Option<u64>,
    boot_blob_crc32c: Option<u32>,
    n: Slots,
    r: CelResult<HyperReply>,
)
    requires
        s.len() == 4,
        hyper_host::applied(
            s,
            HyperRequest::Create { label, image_path, cpu_count, memory_mib, boot_blob_crc32c },
            n,
            r,
        ),
    ensures
        r is Ok <==> encode_utf8(label@).len() <= 32 && (image_path matches Some(p) ==> encode_utf8(
            p@,
        ).len() <= 128) && exists|i: int| 0 <= i < 4 && (#[trigger] s[i]) is None,
        r is Err ==> n == s,
        r matches Ok(q) ==> (q matches HyperReply::Created { vm_id } && vm_id < 4
            && s[vm_id as int] is None && (forall|i: int|
            0 <= i < vm_id ==> (#[trigger] s[i]) is Some) && others_same(s, n, vm_id)
            && n[vm_id as int] == Some(
            LoopSlotView {
                label: label@,
                state: VmState::Created,
                last_exit: None,
                image_path: federation::text_view(image_path),
                cpu_count,
                memory_mib,
                boot_blob_crc32c,
            },
        )),
{
    lemma_free(s, 0);
}

/// A kernel starts a VM that has neither been started nor come to an end. It then
/// has halted with exit code 12, and the reply says so. No other VM changes, nor
/// anything else of this one.
pub proof fn law_kernel_starts(s: Slots, vm_id: u32, n: Slots, r: CelResult<HyperReply>)
    requires
        s.len() == 4,
        hyper_host::applied(s, HyperRequest::Start { vm_id }, n, r),
    ensures
        r is Ok <==> holds(s, vm_id) && s[vm_id as int]->0.state == VmState::Created,
        r is Err ==> n == s,
        r matches Ok(q) ==> others_same(s, n, vm_id) && n[vm_id as int] == Some(
            LoopSlotView {
                state: VmState::Halted,
                last_exit: Some(12),
                ..s[vm_id as int]->0
            },
        ) && (q matches HyperReply::State { vm_id: v, state, last_exit } && v == vm_id && state@
            == "halted"@ && last_exit == Some(12u32)),
{
}

/// A kernel stops any VM that it holds. One that has come to an end stays as it
/// is; any other is stopped. The reply tells which.
pub proof fn law_kernel_stops(s: Slots, vm_id: u32, n: Slots, r: CelResult<HyperReply>)
    requires
        s.len() == 4,
        hyper_host::applied(s, HyperRequest::Stop { vm_id }, n, r),
    ensures
        r is Ok <==> holds(s, vm_id),
        r is Err ==> n == s,
        r matches Ok(q) ==> {
            let x = s[vm_id as int]->0;
            let ended = x.state != VmState::Created && x.state != VmState::Running;
            &&& others_same(s, n, vm_id)
            &&& ended ==> n[vm_id as int] == s[vm_id as int]
            &&& !ended ==> n[vm_id as int] == Some(LoopSlotView { state: VmState::Stopped, ..x })
            &&& q matches HyperReply::State { vm_id: v, state, last_exit } && v == vm_id
                && last_exit == x.last_exit && (!ended ==> state@ == "stopped"@) && (x.state
                == VmState::Halted ==> state@ == "halted"@) && (x.state == VmState::Stopped
                ==> state@ == "stopped"@) && (x.state == VmState::Faulted ==> state@ == "faulted"@)
        },
{
}

/// A kernel frees a VM exactly if it has come to an end; its place is then free,
/// and no other VM changes.
pub proof fn law_kernel_frees(s: Slots, vm_id: u32, n: Slots, r: CelResult<HyperReply>)
    requires
        s.len() == 4,
        hyper_host::applied(s, HyperRequest::Delete { vm_id }, n, r),
    ensures
        r is Ok <==> holds(s, vm_id) && s[vm_id as int]->0.state != VmState::Created
            && s[vm_id as int]->0.state != VmState::Running,
        r is Err ==> n == s,
        r matches Ok(q) ==> q == (HyperReply::Deleted { vm_id }) && others_same(s, n, vm_id)
            && n[vm_id as int] is None,
{
}

proof fn lemma_listed(s: Slots, i: int, k: int)
    requires
        0 <= i <= k < s.len() <= u32::MAX,
        s[k] is Some,
    ensures
        exists|j: int|
            0 <= j < hyper_host::listed_from(s, i).len() && (#[trigger] hyper_host::listed_from(
                s,
                i,
            )[j]) == hyper_host::row_of(s[k]->0, k as u32),
    decreases s.len() - i,
{
    let l = hyper_host::listed_from(s, i);
    if i == k {
        assert(l[0] == hyper_host::row_of(s[k]->0, k as u32));
    } else {
        lemma_listed(s, i + 1, k);
        let m = hyper_host::listed_from(s, i + 1);
        let j = choose|j: int|
            0 <= j < m.len() && (#[trigger] m[j]) == hyper_host::row_of(s[k]->0, k as u32);
        if s[i] is None {
            assert(l == m);
            assert(l[j] == m[j]);
        } else {
            assert(l[j + 1] == m[j]);
        }
    }
}

proof fn lemma_only_held(s: Slots, i: int)
    requires
        0 <= i <= s.len() <= u32::MAX,
    ensures
        forall|j: int|
            0 <= j < hyper_host::listed_from(s, i).len() ==> {
                let x = #[trigger] hyper_host::listed_from(s, i)[j];
                i <= x.vm_id && holds(s, x.vm_id) && x == hyper_host::row_of(
                    s[x.vm_id as int]->0,
                    x.vm_id,
                )
            },
    decreases s.len() - i,
{
    if i < s.len() {
        lemma_only_held(s, i + 1);
        let l = hyper_host::listed_from(s, i);
        let m = hyper_host::listed_from(s, i + 1);
        assert forall|j: int| 0 <= j < l.len() implies ({
            let x = #[trigger] l[j];
            i <= x.vm_id && holds(s, x.vm_id) && x == hyper_host::row_of(
                s[x.vm_id as int]->0,
                x.vm_id,
            )
        }) by {
            if s[i] is None {
                assert(l[j] == m[j]);
            } else if j > 0 {
                assert(l[j] == m[j - 1]);
            }
        }
    }
}

/// A list shows the given row.
pub open spec fn shows(out: Seq<RemoteVm>, want: RemoteVmView) -> bool {
    exists|j: int| 0 <= j < out.len() && (#[trigger] out[j])@ == want
}

/// A VM that was asked of the host is in its list: allocated by the kernel as it
/// was asked for, with the restart policy that the kernel does not store.
pub proof fn law_created_vm_is_listed(
    h: CelhyperView,
    s: Slots,
    op: VmOp,
    h1: CelhyperView,
    step: HyperStep,
    s1: Slots,
    a: CelResult<HyperReply>,
    shown: Seq<char>,
    h2: CelhyperView,
    done: HostResult,
    h3: CelhyperView,
    step2: HyperStep,
    s2: Slots,
    a2: CelResult<HyperReply>,
    h4: CelhyperView,
    listed: HostResult,
)
    requires
        s.len() == 4,
        op is Create,
        hyper_host::begun(h, op, h1, step),
        step matches HyperStep::Call(req, p) && hyper_host::applied(s, req, s1, a) && (a matches Ok(
            q,
        ) ==> hyper_host::finished(h1, p, Ok(q), shown, h2, done)),
        a is Ok,
        hyper_host::begun(h2, VmOp::List, h3, step2),
        step2 matches HyperStep::Call(req, p) && hyper_host::applied(s1, req, s2, a2) && (
        a2 matches Ok(q) ==> hyper_host::finished(h3, p, Ok(q), shown, h4, listed)),
    ensures
        done matches Ok(VmOpReply::Created { vm_id }) && s[vm_id as int] is None && s2 == s1
            && h4 == h2 && (op matches VmOp::Create {
            label,
            restart_policy,
            image_path,
            cpu_count,
            memory_mib,
            boot_blob_crc32c,
        } && (listed matches Ok(VmOpReply::Listed { rows }) && shows(
            rows@,
            RemoteVmView {
                owner: if h.fallback.owner is Some {
                    h.fallback.owner->0
                } else {
                    Seq::empty()
                },
                vm_id,
                label: label@,
                state: "created"@,
                last_exit: None,
                epoch: 0,
                hlc: 0,
                owner_alive: true,
                restart_policy,
                volumes: Seq::empty(),
                image_path: federation::text_view(image_path),
                cpu_count,
                memory_mib,
                boot_blob_crc32c,
            },
        ))),
{
    lemma_free(s, 0);
    let vm_id = a->Ok_0->Created_vm_id;
    lemma_listed(s1, 0, vm_id as int);
    let l = hyper_host::listed_from(s1, 0);
    let j = choose|j: int|
        0 <= j < l.len() && (#[trigger] l[j]) == hyper_host::row_of(s1[vm_id as int]->0, vm_id);
    let rows = a2->Ok_0->Listed_rows;
    assert(hyper_host::row_views(rows@)[j] == rows@[j]@);
    let out = listed->Ok_0->Listed_rows;
    let all = hyper_host::all_published(h3, rows@, host::known_owner(h3.fallback));
    assert(hyper_host::row_views(rows@) == l);
    assert(hyper_host::row_views(rows@).len() == rows@.len());
    assert(federation::vm_views(out@) == all);
    assert(federation::vm_views(out@).len() == out@.len());
    assert(federation::vm_views(out@)[j] == all[j]);
    assert(out@[j]@ == all[j]);
    assert(all[j] == hyper_host::published(h3, l[j], host::known_owner(h3.fallback)));
    assert(op->Create_label@.len() == 0 ==> op->Create_label@ =~= Seq::empty());
}

/// What a list shows: one row for each VM of the kernel and none for anything
/// else, each with the state, exit code, image and size that the kernel holds,
/// and with the policy and, where the kernel has none, the label that the host
/// remembers. A VM that the host knows nothing of is not restarted.
pub proof fn law_list_shows_the_kernels_vms(
    h: CelhyperView,
    s: Slots,
    n: Slots,
    a: CelResult<HyperReply>,
    owner: Seq<char>,
    out: Seq<RemoteVm>,
    vm_id: u32,
)
    requires
        s.len() == 4,
        hyper_host::applied(s, HyperRequest::List, n, a),
        hyper_host::snapped(
            h,
            owner,
            match a {
                Ok(q) => Some(q),
                Err(_) => None,
            },
            out,
        ),
    ensures
        n == s,
        a is Ok,
        holds(s, vm_id) <==> exists|j: int| 0 <= j < out.len() && (#[trigger] out[j]).vm_id == vm_id,
        forall|j: int|
            0 <= j < out.len() ==> {
                let x = (#[trigger] out[j])@;
                let y = s[x.vm_id as int]->0;
                &&& x.owner == owner
                &&& x.owner_alive
                &&& x.volumes.len() == 0
                &&& x.last_exit == y.last_exit
                &&& x.image_path == y.image_path
                &&& x.cpu_count == y.cpu_count
                &&& x.memory_mib == y.memory_mib
                &&& x.boot_blob_crc32c == y.boot_blob_crc32c
                &&& y.label.len() > 0 ==> x.label == y.label
                &&& y.label.len() == 0 && h.labels.dom().contains(x.vm_id) ==> x.label
                    == h.labels[x.vm_id]
                &&& h.policies.dom().contains(x.vm_id) ==> x.restart_policy == h.policies[x.vm_id]
                &&& !h.policies.dom().contains(x.vm_id) ==> x.restart_policy
                    == RestartPolicy::Never
                &&& y.state == VmState::Created ==> x.state == "created"@
                &&& y.state == VmState::Running ==> x.state == "running"@
                &&& y.state == VmState::Halted ==> x.state == "halted"@
                &&& y.state == VmState::Stopped ==> x.state == "stopped"@
                &&& y.state == VmState::Faulted ==> x.state == "faulted"@
            },
{
    let rows = a->Ok_0->Listed_rows;
    let l = hyper_host::listed_from(s, 0);
    let all = hyper_host::all_published(h, rows@, owner);
    assert(hyper_host::row_views(rows@) == l);
    assert(hyper_host::row_views(rows@).len() == rows@.len());
    assert(federation::vm_views(out) == all);
    assert(federation::vm_views(out).len() == out.len());
    lemma_only_held(s, 0);
    assert forall|j: int| 0 <= j < out.len() implies (#[trigger] out[j])@ == hyper_host::published(
        h,
        l[j],
        owner,
    ) && l[j].vm_id == out[j].vm_id by {
        assert(federation::vm_views(out)[j] == all[j]);
        assert(hyper_host::row_views(rows@)[j] == rows@[j]@);
    }
    if holds(s, vm_id) {
        lemma_listed(s, 0, vm_id as int);
        let j = choose|j: int|
            0 <= j < l.len() && (#[trigger] l[j]) == hyper_host::row_of(s[vm_id as int]->0, vm_id);
        assert(out[j].vm_id == vm_id);
    }
    if exists|j: int| 0 <= j < out.len() && (#[trigger] out[j]).vm_id == vm_id {
        let j = choose|j: int| 0 <= j < out.len() && (#[trigger] out[j]).vm_id == vm_id;
        assert(l[j].vm_id == vm_id);
    }
}

/// Life-cycle operations go to the kernel as they were asked; the answer comes
/// back as the kernel gave it. A freed VM is forgotten, and nothing else of what
/// the host remembers changes.
pub proof fn law_life_cycle_goes_to_the_kernel(
    h: CelhyperView,
    op: VmOp,
    h1: CelhyperView,
    step: HyperStep,
    answer: HyperReply,
    shown: Seq<char>,
    h2: CelhyperView,
    done: HostResult,
    other: u32,
)
    requires
        op is Start || op is Stop || op is Delete,
        hyper_host::begun(h, op, h1, step),
        step matches HyperStep::Call(_, p) ==> hyper_host::finished(
            h1,
            p,
            Ok(answer),
            shown,
            h2,
            done,
        ),
    ensures
        h1 == h,
        step matches HyperStep::Call(req, p) && match op {
            VmOp::Start { vm_id } => req == (HyperRequest::Start { vm_id }),
            VmOp::Stop { vm_id } => req == (HyperRequest::Stop { vm_id }),
            VmOp::Delete { vm_id } => req == (HyperRequest::Delete { vm_id }),
            _ => false,
        },
        !(op is Delete) ==> h2 == h && match answer {
            HyperReply::State { vm_id, state, last_exit } => done == Ok::<VmOpReply, String>(
                VmOpReply::State { vm_id, state },
            ),
            _ => done is Err,
        },
        op is Delete ==> match answer {
            HyperReply::Deleted { vm_id } => done == Ok::<VmOpReply, String>(
                VmOpReply::Deleted { vm_id },
            ) && !h2.labels.dom().contains(vm_id) && !h2.policies.dom().contains(vm_id) && (other
                != vm_id ==> h2.labels.dom().contains(other) == h.labels.dom().contains(other)
                && h2.labels[other] == h.labels[other] && h2.policies.dom().contains(other)
                == h.policies.dom().contains(other) && h2.policies[other] == h.policies[other]),
            _ => done is Err && h2 == h,
        },
        h2.strict == h.strict,
        h2.fallback == h.fallback,
{
    if op is Delete && answer is Deleted {
        let v = answer->Deleted_vm_id;
        if other != v {
            assert(h.labels.remove(v).dom().contains(other) == h.labels.dom().contains(other));
            assert(h.policies.remove(v).dom().contains(other) == h.policies.dom().contains(other));
        }
    }
}

/// A link that failed, a kernel that refused and an answer that does not fit are
/// failures that change nothing. Each says so in its own words and quotes what
/// came back.
pub proof fn law_failures_change_nothing(
    h: CelhyperView,
    p: Pending,
    answer: Result<HyperReply, String>,
    shown: Seq<char>,
    n: CelhyperView,
    r: HostResult,
)
    requires
        hyper_host::finished(h, p, answer, shown, n, r),
    ensures
        answer matches Err(e) ==> n == h && (r matches Err(w) && w@ == "hyper: "@ + e@),
        answer matches Ok(HyperReply::Error { message }) ==> n == h && (r matches Err(w) && w@
            == "hyper: kernel: "@ + message@),
        answer matches Ok(HyperReply::ImageLoaded { .. }) ==> n == h && (r matches Err(w) && w@
            == "hyper: unexpected reply "@ + shown),
        r is Err ==> n == h,
        r is Ok ==> answer is Ok,
{
}

/// What the kernel does not do goes to the reference host, which does with it
/// what it would have done without the kernel. In strict mode it is refused by
/// its name, and nothing changes.
pub proof fn law_the_rest_goes_elsewhere(h: CelhyperView, op: VmOp, n: CelhyperView, r: HyperStep)
    requires
        !(op is Create || op is Start || op is Stop || op is Delete || op is List),
        hyper_host::begun(h, op, n, r),
    ensures
        n.labels == h.labels,
        n.policies == h.policies,
        n.strict == h.strict,
        h.strict ==> n == h && (r matches HyperStep::Reply(Err(e)) && e@
            == "hyper: bridge does not implement "@ + hyper_host::kind_of(op)@ + " (strict mode)"@),
        !h.strict ==> match r {
            HyperStep::Reply(q) => host::stepped(h.fallback, op, n.fallback, HostStep::Reply(q)),
            HyperStep::Store(c) => host::stepped(h.fallback, op, n.fallback, HostStep::Store(c)),
            HyperStep::Call(..) => false,
        },
{
}

/// The names by which operations are refused.
pub proof fn law_names_of_operations(op: VmOp)
    ensures
        op is Create ==> hyper_host::kind_of(op)@ == "Create"@,
        op is Start ==> hyper_host::kind_of(op)@ == "Start"@,
        op is Stop ==> hyper_host::kind_of(op)@ == "Stop"@,
        op is Delete ==> hyper_host::kind_of(op)@ == "Delete"@,
        op is List ==> hyper_host::kind_of(op)@ == "List"@,
        op is CreateVolume ==> hyper_host::kind_of(op)@ == "CreateVolume"@,
        op is DeleteVolume ==> hyper_host::kind_of(op)@ == "DeleteVolume"@,
        op is ListVolumes ==> hyper_host::kind_of(op)@ == "ListVolumes"@,
        op is AttachVolume ==> hyper_host::kind_of(op)@ == "AttachVolume"@,
        op is DetachVolume ==> hyper_host::kind_of(op)@ == "DetachVolume"@,
        op is ReadVolume ==> hyper_host::kind_of(op)@ == "ReadVolume"@,
        op is WriteVolume ==> hyper_host::kind_of(op)@ == "WriteVolume"@,
        op is CreateSnapshot ==> hyper_host::kind_of(op)@ == "CreateSnapshot"@,
        op is ListSnapshots ==> hyper_host::kind_of(op)@ == "ListSnapshots"@,
        op is DeleteSnapshot ==> hyper_host::kind_of(op)@ == "DeleteSnapshot"@,
        op is RestoreSnapshot ==> hyper_host::kind_of(op)@ == "RestoreSnapshot"@,
        op is CreateNetwork ==> hyper_host::kind_of(op)@ == "CreateNetwork"@,
        op is DeleteNetwork ==> hyper_host::kind_of(op)@ == "DeleteNetwork"@,
        op is ListNetworks ==> hyper_host::kind_of(op)@ == "ListNetworks"@,
        op is AttachNic ==> hyper_host::kind_of(op)@ == "AttachNic"@,
        op is DetachNic ==> hyper_host::kind_of(op)@ == "DetachNic"@,
        op is ListNics ==> hyper_host::kind_of(op)@ == "ListNics"@,
        op is CreateSecurityGroup ==> hyper_host::kind_of(op)@ == "CreateSecurityGroup"@,
        op is DeleteSecurityGroup ==> hyper_host::kind_of(op)@ == "DeleteSecurityGroup"@,
        op is ListSecurityGroups ==> hyper_host::kind_of(op)@ == "ListSecurityGroups"@,
        op is CreateLoadBalancer ==> hyper_host::kind_of(op)@ == "CreateLoadBalancer"@,
        op is DeleteLoadBalancer ==> hyper_host::kind_of(op)@ == "DeleteLoadBalancer"@,
        op is ListLoadBalancers ==> hyper_host::kind_of(op)@ == "ListLoadBalancers"@,
{
}

/// The attachments that a VM keeps go to the reference host's VM of the same
/// number, and to nothing else; where it has none, nothing changes.
pub proof fn law_attachments_are_kept(
    h: CelhyperView,
    vm_id: u32,
    attachments: Seq<VolumeAttachment>,
    n: CelhyperView,
    r: Result<(), String>,
)
    requires
        h.fallback.slots.len() == 4,
        hyper_host::preserves(h, vm_id, attachments, n, r),
    ensures
        r is Ok <==> vm_id < 4 && h.fallback.slots[vm_id as int] is Some,
        r is Err ==> n == h,
        n.labels == h.labels,
        n.policies == h.policies,
        n.strict == h.strict,
        n.fallback.caps == h.fallback.caps,
        n.fallback.owner == h.fallback.owner,
        n.fallback.slots.len() == 4,
        forall|i: int|
            0 <= i < 4 && i != vm_id ==> #[trigger] n.fallback.slots[i] == h.fallback.slots[i],
        r is Ok ==> (n.fallback.slots[vm_id as int] matches Some(x) && x.volumes
            == vault::attachment_views(attachments) && x.label == h.fallback.slots[vm_id as int]->0.label
            && x.state == h.fallback.slots[vm_id as int]->0.state),
{
}

proof fn lemma_decoded(h: Seq<u8>)
    ensures
        hyper_host::hex_decoded(h) matches Some(d) ==> h.len() == 2 * d.len() && h == encode_utf8(
            text::hex_of(d),
        ),
    decreases h.len(),
{
    let n = h.len() as int;
    if n == 0 {
        let d = hyper_host::hex_decoded(h)->0;
        hyper_host::law_hex_round_trip(d);
        assert(text::hex_of(d) =~= Seq::empty());
        is_ascii_chars_encode_utf8(text::hex_of(d));
        assert(h =~= encode_utf8(text::hex_of(d)));
    } else if n >= 2 && hyper_host::hex_decoded(h) is Some {
        lemma_decoded(h.take(n - 2));
        let d = hyper_host::hex_decoded(h)->0;
        let p = hyper_host::hex_decoded(h.take(n - 2))->0;
        let hi = hyper_host::nibble(h[n - 2])->0;
        let lo = hyper_host::nibble(h[n - 1])->0;
        assert(d == p.push((hi * 16 + lo) as u8));
        assert(d.drop_last() =~= p);
        let b = d.last();
        assert(b / 16 == hi && b % 16 == lo);
        let t = text::hex_of(d);
        assert(t == text::hex_of(p).push(text::hex_char(hi as int)).push(text::hex_char(lo as int)));
        hyper_host::law_hex_round_trip(d);
        hyper_host::law_hex_round_trip(p);
        is_ascii_chars_encode_utf8(t);
        is_ascii_chars_encode_utf8(text::hex_of(p));
        assert(text::hex_char(hi as int) as u8 == h[n - 2]);
        assert(text::hex_char(lo as int) as u8 == h[n - 1]);
        assert(h =~= encode_utf8(t)) by {
            assert forall|i: int| 0 <= i < n implies h[i] == encode_utf8(t)[i] by {
                if i < n - 2 {
                    assert(h[i] == h.take(n - 2)[i]);
                }
            }
        }
    }
}

/// A kernel stages exactly what is the hexadecimal form of some bytes, 1 to 4096
/// of them and as many as announced, that have the announced checksum. It echoes
/// both and changes no VM.
pub proof fn law_kernel_stages(
    s: Slots,
    len: u32,
    crc32c: u32,
    bytes_hex: String,
    n: Slots,
    r: CelResult<HyperReply>,
)
    requires
        hyper_host::applied(s, HyperRequest::ImageLoad { len, crc32c, bytes_hex }, n, r),
    ensures
        n == s,
        r is Ok ==> r == Ok::<HyperReply, CelError>(HyperReply::ImageLoaded { len, crc32c }),
        r is Ok <==> 1 <= len <= 4096 && exists|bytes: Seq<u8>|
            bytes.len() == len && #[trigger] encode_utf8(text::hex_of(bytes)) == encode_utf8(
                bytes_hex@,
            ) && util::crc_of(bytes) == crc32c,
{
    let h = encode_utf8(bytes_hex@);
    lemma_decoded(h);
    if r is Ok {
        let d = hyper_host::hex_decoded(h)->0;
        assert(encode_utf8(text::hex_of(d)) == h);
    }
    if 1 <= len <= 4096 && exists|bytes: Seq<u8>|
        bytes.len() == len && #[trigger] encode_utf8(text::hex_of(bytes)) == h && util::crc_of(
            bytes,
        ) == crc32c {
        let bytes = choose|bytes: Seq<u8>|
            bytes.len() == len && #[trigger] encode_utf8(text::hex_of(bytes)) == h && util::crc_of(
                bytes,
            ) == crc32c;
        hyper_host::law_hex_round_trip(bytes);
        text::lemma_hex_len(bytes);
        is_ascii_chars_encode_utf8(text::hex_of(bytes));
    }
}

/// The host sends an image exactly if it has 1 to 4096 bytes. Sent, it reaches a
/// kernel that stages it, and ends well with its checksum; whatever else the
/// kernel echoes is a failure.
pub proof fn law_image_is_staged(
    bytes: Seq<u8>,
    sent: Result<HyperRequest, String>,
    s: Slots,
    n: Slots,
    r: CelResult<HyperReply>,
    echoed: HyperReply,
    shown: Seq<char>,
)
    requires
        hyper_host::stages(bytes, sent),
        sent matches Ok(req) ==> hyper_host::applied(s, req, n, r),
    ensures
        sent is Ok <==> 1 <= bytes.len() <= 4096,
        sent is Ok ==> r is Ok && hyper_host::staged(
            bytes.len() as u32,
            util::crc_of(bytes),
            Ok(r->Ok_0),
            shown,
        ) == Ok::<u32, Seq<char>>(util::crc_of(bytes)),
        sent is Ok ==> (hyper_host::staged(
            bytes.len() as u32,
            util::crc_of(bytes),
            Ok(echoed),
            shown,
        ) is Ok <==> echoed == (HyperReply::ImageLoaded {
            len: bytes.len() as u32,
            crc32c: util::crc_of(bytes),
        })),
{
    if sent is Ok {
        let hex = sent->Ok_0->bytes_hex;
        hyper_host::law_staging(bytes, s, hex, n, r, shown);
    }
}

/// Why a kernel refuses, and in which words.
pub proof fn law_why_a_kernel_refuses(
    s: Slots,
    req: HyperRequest,
    n: Slots,
    r: CelResult<HyperReply>,
)
    requires
        s.len() == 4,
        hyper_host::applied(s, req, n, r),
    ensures
        req matches HyperRequest::Create { label, image_path, .. } ==> {
            let long = encode_utf8(label@).len() > 32;
            let far = image_path matches Some(p) && encode_utf8(p@).len() > 128;
            &&& long ==> r == refusal("hyper: label > 32 chars")
            &&& !long && far ==> r == refusal("hyper: image_path > 128 chars")
            &&& !long && !far && r is Err ==> r == refusal("hyper: vm registry full")
        },
        req matches HyperRequest::Start { vm_id } ==> unknown_vm(s, vm_id, r) && (holds(s, vm_id)
            ==> {
            let st = s[vm_id as int]->0.state;
            &&& st == VmState::Running ==> r == refusal("hyper: vm already running")
            &&& st != VmState::Running && st != VmState::Created ==> r == refusal(
                "hyper: vm already terminal",
            )
        }),
        req matches HyperRequest::Stop { vm_id } ==> unknown_vm(s, vm_id, r),
        req matches HyperRequest::Delete { vm_id } ==> unknown_vm(s, vm_id, r) && (holds(s, vm_id)
            && (s[vm_id as int]->0.state == VmState::Created || s[vm_id as int]->0.state
            == VmState::Running) ==> r == refusal("hyper: vm not terminal")),
        req matches HyperRequest::ImageLoad { len, crc32c, bytes_hex } ==> {
            let h = encode_utf8(bytes_hex@);
            &&& 2 * len <= usize::MAX && h.len() != 2 * len ==> r == refusal(
                "hyper: image_load: bytes_hex.len() != 2*len",
            )
            &&& h.len() == 0 && len == 0 ==> r == refusal("hyper: image_load: len == 0")
            &&& 2 * len <= usize::MAX && h.len() == 2 * len && len > 4096 ==> r == refusal(
                "hyper: image_load: len > MAX_IMAGE_BYTES",
            )
            &&& 1 <= len <= 4096 && h.len() == 2 * len && (exists|i: int|
                0 <= i < h.len() && !is_hex_digit(#[trigger] h[i])) ==> r == refusal(
                "hyper: image_load: non-hex byte (lowercase required)",
            )
            &&& 1 <= len <= 4096 && h.len() == 2 * len && (forall|i: int|
                0 <= i < h.len() ==> is_hex_digit(#[trigger] h[i])) && r is Err ==> r == refusal(
                "hyper: image_load: crc32c mismatch",
            )
        },
{
    if let HyperRequest::ImageLoad { len, crc32c, bytes_hex } = req {
        let h = encode_utf8(bytes_hex@);
        lemma_all_digits(h);
    }
}

/// A refusal in the given words.
pub open spec fn refusal(words: &'static str) -> CelResult<HyperReply> {
    Err(CelError::Invalid(words))
}

/// A VM that is not there is refused by what is wrong with its number.
pub open spec fn unknown_vm(s: Slots, vm_id: u32, r: CelResult<HyperReply>) -> bool {
    &&& vm_id >= 4 ==> r == refusal("hyper: vm id out of range")
    &&& vm_id < 4 && s[vm_id as int] is None ==> r == refusal("hyper: vm not allocated")
}

/// A lower-case hexadecimal digit.
pub open spec fn is_hex_digit(b: u8) -> bool {
    ('0' as int <= b <= '9' as int) || ('a' as int <= b <= 'f' as int)
}

proof fn lemma_all_digits(h: Seq<u8>)
    ensures
        h.len() % 2 == 0 ==> (hyper_host::hex_decoded(h) is Some <==> forall|i: int|
            0 <= i < h.len() ==> is_hex_digit(#[trigger] h[i])),
    decreases h.len(),
{
    let n = h.len() as int;
    if n >= 2 && n % 2 == 0 {
        let t = h.take(n - 2);
        lemma_all_digits(t);
        if hyper_host::hex_decoded(h) is Some {
            assert forall|i: int| 0 <= i < n implies is_hex_digit(#[trigger] h[i]) by {
                if i < n - 2 {
                    assert(is_hex_digit(t[i]));
                }
            }
        }
        if forall|i: int| 0 <= i < n ==> is_hex_digit(#[trigger] h[i]) {
            assert forall|i: int| 0 <= i < t.len() implies is_hex_digit(#[trigger] t[i]) by {
                assert(is_hex_digit(h[i]));
            }
            assert(is_hex_digit(h[n - 2]) && is_hex_digit(h[n - 1]));
        }
    }
}

/// What is said of an image that is not sent, and of a kernel that echoes
/// something else than was sent: the numbers of both.
pub proof fn law_staging_words(
    bytes: Seq<u8>,
    sent: Result<HyperRequest, String>,
    len: u32,
    crc: u32,
    rlen: u32,
    rcrc: u32,
    shown: Seq<char>,
)
    requires
        hyper_host::stages(bytes, sent),
        rlen != len || rcrc != crc,
    ensures
        bytes.len() == 0 ==> (sent matches Err(e) && e@ == "hyper: stage_image: bytes is empty"@),
        bytes.len() > 4096 ==> (sent matches Err(e) && e@ == "hyper: stage_image: "@
            + text::decimal(bytes.len()) + " bytes exceeds MAX_STAGED_IMAGE_BYTES ("@
            + text::decimal(4096) + ")"@),
        hyper_host::staged(
            len,
            crc,
            Ok(HyperReply::ImageLoaded { len: rlen, crc32c: rcrc }),
            shown,
        ) == Err::<u32, Seq<char>>(
            "hyper: stage_image: kernel echoed "@ + stamp_of(rlen, rcrc) + "; expected "@
                + stamp_of(len, crc),
        ),
{
    lemma_stamp(rlen, rcrc);
    lemma_stamp(len, crc);
}

/// Length and checksum as they are shown, the checksum in eight hexadecimal
/// digits.
pub open spec fn stamp_of(len: u32, crc: u32) -> Seq<char> {
    let d = |k: int| text::hex_char(crc as int / k % 16);
    "(len="@ + text::decimal(len as nat) + ", crc=0x"@ + seq![
        d(0x1000_0000),
        d(0x100_0000),
        d(0x10_0000),
        d(0x1_0000),
        d(0x1000),
        d(0x100),
        d(0x10),
        d(1),
    ] + ")"@
}

proof fn lemma_nibbles(x: u32)
    ensures
        ({
            let b = hyper_host::be_bytes(x);
            &&& b[0] / 16 == x as int / 0x1000_0000 % 16 && b[0] % 16 == x as int / 0x100_0000 % 16
            &&& b[1] / 16 == x as int / 0x10_0000 % 16 && b[1] % 16 == x as int / 0x1_0000 % 16
            &&& b[2] / 16 == x as int / 0x1000 % 16 && b[2] % 16 == x as int / 0x100 % 16
            &&& b[3] / 16 == x as int / 0x10 % 16 && b[3] % 16 == x as int / 1 % 16
        }),
{
    assert((x / 0x100_0000) / 16 == x / 0x1000_0000 % 16 && (x / 0x1_0000 % 0x100) / 16 == x
        / 0x10_0000 % 16 && (x / 0x100 % 0x100) / 16 == x / 0x1000 % 16 && (x % 0x100) / 16 == x
        / 0x10 % 16) by (bit_vector);
    assert((x / 0x100_0000) % 16 == x / 0x100_0000 % 16 && (x / 0x1_0000 % 0x100) % 16 == x
        / 0x1_0000 % 16 && (x / 0x100 % 0x100) % 16 == x / 0x100 % 16 && (x % 0x100) % 16 == x
        % 16) by (bit_vector);
}

proof fn lemma_four(b: Seq<u8>)
    requires
        b.len() == 4,
    ensures
        text::hex_of(b) == seq![
            text::hex_char((b[0] / 16) as int),
            text::hex_char((b[0] % 16) as int),
            text::hex_char((b[1] / 16) as int),
            text::hex_char((b[1] % 16) as int),
            text::hex_char((b[2] / 16) as int),
            text::hex_char((b[2] % 16) as int),
            text::hex_char((b[3] / 16) as int),
            text::hex_char((b[3] % 16) as int),
        ],
{
    let b3 = b.drop_last();
    let b2 = b3.drop_last();
    let b1 = b2.drop_last();
    let b0 = b1.drop_last();
    assert(b1.last() == b[0] && b2.last() == b[1] && b3.last() == b[2] && b.last() == b[3]);
    assert(text::hex_of(b0) =~= Seq::<char>::empty());
    assert(text::hex_of(b1).len() == 2);
    assert(text::hex_of(b2).len() == 4);
    assert(text::hex_of(b3).len() == 6);
    assert(text::hex_of(b) =~= seq![
        text::hex_char((b[0] / 16) as int),
        text::hex_char((b[0] % 16) as int),
        text::hex_char((b[1] / 16) as int),
        text::hex_char((b[1] % 16) as int),
        text::hex_char((b[2] / 16) as int),
        text::hex_char((b[2] % 16) as int),
        text::hex_char((b[3] / 16) as int),
        text::hex_char((b[3] % 16) as int),
    ]);
}

proof fn lemma_stamp(len: u32, crc: u32)
    ensures
        hyper_host::stamp_text(len, crc) == stamp_of(len, crc),
{
    lemma_nibbles(crc);
    lemma_four(hyper_host::be_bytes(crc));
}

} // verus!
