//! What holds between nodes that gossip and ask each other: who counts as alive,
//! whose word wins, what a frame carries, and that a request reaches the host of
//! its target and the response its asker.

use vstd::prelude::*;
use vstd::string::*;

use crate::error::CelError;
use crate::error::CelResult;
use crate::mesh::engine;
use crate::mesh::engine::{FrameStep, InvokeStep, Mesh, MeshConfig, MeshView, RpcOutcome};
use crate::mesh::federation;
use crate::mesh::federation::{RemoteVmView, Vms};
use crate::mesh::host::HostResult;
use crate::mesh::membership;
use crate::mesh::membership::{MemberRowView, NodeInfoView, NodeStatus, Rows};
use crate::mesh::proto::{Envelope, Payload, VmOp, VmOpReply, VmOpResult};
use crate::mesh::table::Key;

verus! {

/// How long a node has been silent.
pub open spec fn silence(row: MemberRowView, now: u128) -> int {
    if row.last_seen <= now {
        now - row.last_seen
    } else {
        0
    }
}

/// Silence decides who is alive. Another node that is neither dead nor departed
/// is dead once it has been silent for as long as the longer timeout says, else
/// suspect if for longer than the shorter one says, else alive. This node, the
/// dead and the departed stay what they are. Nothing else of a row changes, and
/// no VM does.
pub proof fn law_silence_decides(s: MeshView, now: u128, id: Seq<char>)
    requires
        s.rows.dom().contains(id),
        s.rows[id].info.id == id,
    ensures
        ({
            let n = engine::gossip_round(s, now).0;
            let before = s.rows[id];
            let after = n.rows[id];
            let quiet = silence(before, now);
            let judged = id != s.config.node_id@ && before.info.status != NodeStatus::Dead
                && before.info.status != NodeStatus::Left;
            &&& n.rows.dom() == s.rows.dom()
            &&& n.vms == s.vms
            &&& after == (MemberRowView {
                info: NodeInfoView { status: after.info.status, ..before.info },
                ..before
            })
            &&& !judged ==> after == before
            &&& judged && quiet >= s.config.timeout_dead ==> after.info.status == NodeStatus::Dead
            &&& judged && s.config.timeout_suspect < quiet < s.config.timeout_dead
                ==> after.info.status == NodeStatus::Suspect
            &&& judged && quiet < s.config.timeout_dead && quiet <= s.config.timeout_suspect
                ==> after.info.status == NodeStatus::Alive
        }),
{
    assert(engine::gossip_round(s, now).0.rows.dom() =~= s.rows.dom());
}

/// The newest word about a node wins: that of the later epoch, and within an
/// epoch that of the later clock. Whoever is spoken of counts as heard now; no
/// other row changes; and nobody else's word about this node counts.
pub proof fn law_newest_word_wins(rows: Rows, me: Seq<char>, word: NodeInfoView, now: u128)
    ensures
        ({
            let (n, changed) = membership::merged(rows, me, word, now);
            let wins = !rows.dom().contains(word.id) || word.epoch > rows[word.id].info.epoch || (
            word.epoch == rows[word.id].info.epoch && word.hlc > rows[word.id].info.hlc);
            &&& word.id == me ==> n == rows && !changed
            &&& word.id != me ==> {
                &&& changed == wins
                &&& n.dom() == rows.dom().insert(word.id)
                &&& n[word.id].last_seen == now
                &&& wins ==> n[word.id].info == word
                &&& !wins ==> n[word.id].info == rows[word.id].info
                &&& forall|k: Seq<char>|
                    k != word.id && rows.dom().contains(k) ==> #[trigger] n[k] == rows[k]
            }
        }),
{
}

/// The newest word about a VM wins, in the same way. What is taken over is taken
/// over whole, with its owner alive; rows of this node are nobody else's to
/// change.
pub proof fn law_newest_vm_wins(vms: Vms, me: Seq<char>, word: RemoteVmView)
    ensures
        ({
            let (n, changed) = federation::vm_merged(vms, me, word);
            let k = (word.owner, word.vm_id);
            let wins = !vms.dom().contains(k) || word.epoch > vms[k].epoch || (word.epoch
                == vms[k].epoch && word.hlc > vms[k].hlc);
            &&& changed == (word.owner != me && wins)
            &&& !changed ==> n == vms
            &&& changed ==> n.dom() == vms.dom().insert(k) && n[k] == (RemoteVmView {
                owner_alive: true,
                ..word
            }) && forall|j: Key| j != k && vms.dom().contains(j) ==> #[trigger] n[j] == vms[j]
        }),
{
}

/// Who takes leave is marked as departed by whoever hears it, and nothing else
/// of anybody changes.
pub proof fn law_goodbye(
    a: MeshView,
    env: Envelope,
    peers: Seq<Seq<char>>,
    b: MeshView,
    src: Seq<char>,
    now: u128,
    n: MeshView,
    r: FrameStep,
)
    requires
        engine::takes_leave(a, env, peers),
        engine::handled(b, env, src, now, n, r),
        a.config.cluster@ == b.config.cluster@,
        a.config.node_id@ != b.config.node_id@,
        b.rows.dom().contains(a.config.node_id@),
    ensures
        n.rows[a.config.node_id@].info == (NodeInfoView {
            status: NodeStatus::Left,
            ..b.rows[a.config.node_id@].info
        }),
        n.rows.dom() == b.rows.dom(),
        forall|k: Seq<char>|
            k != a.config.node_id@ && b.rows.dom().contains(k) ==> #[trigger] n.rows[k]
                == b.rows[k],
        n.vms == b.vms,
        r is Done,
{
    assert(n.rows.dom() =~= b.rows.dom());
}

/// A frame from another cluster changes nothing but a count.
pub proof fn law_other_clusters_are_not_heard(
    b: MeshView,
    env: Envelope,
    src: Seq<char>,
    now: u128,
    n: MeshView,
    r: FrameStep,
)
    requires
        engine::handled(b, env, src, now, n, r),
        env.cluster@ != b.config.cluster@,
    ensures
        r is Done,
        n.rows == b.rows,
        n.vms == b.vms,
        n.known == b.known,
        n.pending == b.pending,
        n.hlc == b.hlc,
{
}

/// A frame is taken in exactly if it has at most 64 KiB, can be read, and bears
/// the mark and the version of this protocol; it is then taken in as it is.
pub proof fn law_frames_taken_in(
    s: MeshView,
    len: usize,
    parsed: Option<Envelope>,
    n: MeshView,
    r: Option<Envelope>,
)
    requires
        engine::received(s, len, parsed, n, r),
    ensures
        r is Some <==> len <= 65536 && (parsed matches Some(env) && env.magic@ == "celmesh/1"@
            && env.version == 1),
        r is Some ==> r == parsed,
        n.rows == s.rows,
        n.vms == s.vms,
        n.pending == s.pending,
        n.hlc == s.hlc,
{
}

/// Asking a node. An operation for this node goes to its host; one for another
/// node goes there, unless that one is unknown, dead or departed, in which case
/// nothing is sent and nothing changes.
pub proof fn law_asking(
    s: MeshView,
    target: Seq<char>,
    op: VmOp,
    has_host: bool,
    n: MeshView,
    r: InvokeStep,
)
    requires
        engine::invoked(s, target, op, has_host, n, r),
    ensures
        r is Host <==> target == s.config.node_id@ && has_host,
        r matches InvokeStep::Host(o) ==> o == op,
        r is Send <==> target != s.config.node_id@ && s.rows.dom().contains(target) && (
        s.rows[target].info.status == NodeStatus::Alive || s.rows[target].info.status
            == NodeStatus::Suspect),
        !(r is Send) ==> n == s,
        r matches InvokeStep::Send { addr, req_id, frame } ==> addr@ == s.rows[target].info.addr
            && n.pending.contains(req_id) && n.rows == s.rows && n.vms == s.vms,
{
    if r is Send {
        let id = r->req_id;
        if !s.pending.contains(id) {
            assert(n.pending[s.pending.len() as int] == id);
        }
    }
}

/// A request reaches the host of the node it is for, as it was asked, and no
/// other node runs it; the response reaches who asked, as the host gave it, once
/// the asker still waits for it.
pub proof fn law_request_and_response(
    a: MeshView,
    target: Seq<char>,
    op: VmOp,
    has_host: bool,
    a2: MeshView,
    send: InvokeStep,
    b: MeshView,
    src: Seq<char>,
    now: u128,
    b2: MeshView,
    step: FrameStep,
    result: VmOpResult,
    b3: MeshView,
    reply: Option<(String, Envelope)>,
    a3: MeshView,
    src2: Seq<char>,
    later: u128,
    a4: MeshView,
    end: FrameStep,
)
    requires
        engine::invoked(a, target, op, has_host, a2, send),
        send is Send,
        engine::handled(b, send->frame, src, now, b2, step),
        b.config.cluster@ == a.config.cluster@,
        b.rows.dom().contains(a.config.node_id@),
        engine::responded(b2, a.config.node_id@, send->req_id, result, b3, reply),
        a3.config == a.config,
        a3.pending.contains(send->req_id),
        reply matches Some((_, frame)) ==> engine::handled(a3, frame, src2, later, a4, end),
    ensures
        target != b.config.node_id@ ==> step is Done,
        target == b.config.node_id@ ==> (step matches FrameStep::Dispatch { req_id, from, op: o }
            && req_id == send->req_id && from@ == a.config.node_id@ && o == op),
        reply matches Some((addr, _)) && addr@ == b2.rows[a.config.node_id@].info.addr,
        end matches FrameStep::Settle { req_id, result: got } && req_id == send->req_id && got
            == result,
        a4.rows == a3.rows,
        a4.vms == a3.vms,
{
}

/// What the asker is told. What the host of the other node did is what the asker
/// gets; a refusal there, a lost channel and a timeout are failures.
pub proof fn law_what_the_asker_is_told(
    done: Option<HostResult>,
    answer: VmOpResult,
    s: MeshView,
    req_id: u64,
    outcome: RpcOutcome,
    n: MeshView,
    r: CelResult<VmOpReply>,
)
    requires
        engine::answers(done, answer),
        outcome matches RpcOutcome::Reply(x) ==> x == answer,
        engine::invoke_ended(s, req_id, outcome, n, r),
    ensures
        r is Ok <==> outcome is Reply && (done matches Some(q) && q is Ok),
        r matches Ok(reply) ==> done == Some(Ok::<VmOpReply, String>(reply)),
        outcome is TimedOut ==> (r matches Err(CelError::Timeout(_))),
        outcome is TimedOut ==> !n.pending.contains(req_id),
        n.rows == s.rows,
        n.vms == s.vms,
{
    if outcome is TimedOut {
        lemma_taken_out(s.pending, req_id);
    }
}

proof fn lemma_taken_out(xs: Seq<u64>, x: u64)
    ensures
        !engine::without(xs, x).contains(x),
        forall|y: u64| y != x && xs.contains(y) ==> #[trigger] engine::without(xs, x).contains(y),
    decreases xs.len(),
{
    if xs.len() > 0 {
        let p = xs.drop_last();
        lemma_taken_out(p, x);
        let w = engine::without(p, x);
        let v = engine::without(xs, x);
        assert forall|y: u64| y != x && xs.contains(y) implies #[trigger] v.contains(y) by {
            let i = choose|i: int| 0 <= i < xs.len() && xs[i] == y;
            if i < p.len() {
                assert(p[i] == y);
                assert(w.contains(y));
                let k = choose|k: int| 0 <= k < w.len() && w[k] == y;
                assert(v[k] == y);
            } else {
                assert(v[v.len() - 1] == y);
            }
        }
        if v.contains(x) {
            let k = choose|k: int| 0 <= k < v.len() && v[k] == x;
            assert(k < w.len());
            assert(w[k] == x);
        }
    }
}

/// A request whose frame was not sent is not waited for; one whose frame was sent
/// still is, and neither changes what this node knows.
pub proof fn law_sending(s: MeshView, req_id: u64, other: u64)
    ensures
        !engine::invoke_noted(s, req_id, false).pending.contains(req_id),
        other != req_id && s.pending.contains(other) ==> engine::invoke_noted(
            s,
            req_id,
            false,
        ).pending.contains(other),
        engine::invoke_noted(s, req_id, true).pending == s.pending,
        engine::invoke_noted(s, req_id, true).metrics.rpc_out == s.metrics.rpc_out.wrapping_add(1),
        engine::invoke_noted(s, req_id, false).metrics == s.metrics,
{
    lemma_taken_out(s.pending, req_id);
}

/// A node publishes what its host has. After it, this node's VMs are those that
/// it was given, each as given but for the stamp of this node: its name, its
/// epoch, the next tick of its clock, its owner alive. The VMs of other nodes
/// stay as they were.
pub proof fn law_publishing(s: MeshView, rows: Seq<RemoteVmView>, now: u128, k: Key, i: int)
    requires
        s.hlc < u64::MAX,
        0 <= i < rows.len(),
        forall|a: int, b: int|
            0 <= a < b < rows.len() ==> (#[trigger] rows[a]).vm_id != (#[trigger] rows[b]).vm_id,
    ensures
        ({
            let n = engine::published(s, rows, now);
            let me = s.config.node_id@;
            &&& n.hlc == s.hlc + 1
            &&& n.vms.dom().contains((me, rows[i].vm_id))
            &&& n.vms[(me, rows[i].vm_id)] == (RemoteVmView {
                owner: me,
                epoch: s.config.epoch,
                hlc: (s.hlc + 1) as u64,
                owner_alive: true,
                ..rows[i]
            })
            &&& k.0 == me ==> (n.vms.dom().contains(k) <==> exists|j: int|
                0 <= j < rows.len() && (#[trigger] rows[j]).vm_id == k.1)
            &&& k.0 != me ==> (n.vms.dom().contains(k) <==> s.vms.dom().contains(k))
            &&& k.0 != me && s.vms.dom().contains(k) ==> n.vms[k] == s.vms[k]
        }),
{
    let me = s.config.node_id@;
    let mine = Seq::new(rows.len(), |j: int| engine::restamped(rows[j], s, engine::later(s.hlc)));
    federation::law_publish_is_local(s.vms, me, mine, mine.len() as int, k);
    federation::law_publish_is_local(s.vms, me, mine, mine.len() as int, (me, rows[i].vm_id));
    assert(mine[i].vm_id == rows[i].vm_id);
    lemma_published_row(federation::without_owner(s.vms, me), me, mine, mine.len() as int, i);
    if exists|j: int| 0 <= j < rows.len() && (#[trigger] rows[j]).vm_id == k.1 {
        let j = choose|j: int| 0 <= j < rows.len() && (#[trigger] rows[j]).vm_id == k.1;
        assert(mine[j].vm_id == k.1);
    }
    if exists|j: int| 0 <= j < mine.len() && (#[trigger] mine[j]).vm_id == k.1 {
        let j = choose|j: int| 0 <= j < mine.len() && (#[trigger] mine[j]).vm_id == k.1;
        assert(rows[j].vm_id == k.1);
    }
}

proof fn lemma_published_row(vms: Vms, me: Seq<char>, rows: Seq<RemoteVmView>, n: int, i: int)
    requires
        0 <= i < n <= rows.len(),
        forall|a: int, b: int|
            0 <= a < b < rows.len() ==> (#[trigger] rows[a]).vm_id != (#[trigger] rows[b]).vm_id,
    ensures
        federation::published(vms, me, rows, n)[(me, rows[i].vm_id)] == federation::as_local(
            rows[i],
            me,
        ),
    decreases n,
{
    if i < n - 1 {
        lemma_published_row(vms, me, rows, n - 1, i);
        assert(rows[i].vm_id != rows[n - 1].vm_id);
    }
}

/// What a node tells its peers: every node that it knows, as it knows it, itself
/// with its clock moved on, and every VM of its own.
pub proof fn law_telling(m: Mesh, env: Envelope, id: Seq<char>, k: Key)
    requires
        m.wf(),
        engine::tells_all(m@, env),
        m@.hlc < u64::MAX,
    ensures
        env.from@ == m@.config.node_id@,
        env.cluster@ == m@.config.cluster@,
        env.hlc == m@.hlc + 1,
        env.payload matches Payload::Sync { nodes, vms } && (m@.rows.dom().contains(id) ==> exists|
            i: int,
        |
            0 <= i < nodes@.len() && (#[trigger] nodes@[i])@ == if id == m@.config.node_id@ {
                NodeInfoView { hlc: (m@.hlc + 1) as u64, ..m@.rows[id].info }
            } else {
                m@.rows[id].info
            }) && (m@.vms.dom().contains(k) && k.0 == m@.config.node_id@ ==> exists|i: int|
            0 <= i < vms@.len() && (#[trigger] vms@[i])@ == m@.vms[k]) && (forall|i: int|
            0 <= i < vms@.len() ==> (#[trigger] vms@[i]).owner@ == m@.config.node_id@),
{
    m.membership.lemma_ordered();
    m.federation.lemma_ordered();
    let nodes = env.payload->Sync_nodes;
    let vms = env.payload->Sync_vms;
    let told = engine::gossiped(m@, engine::later(m@.hlc));
    assert(engine::info_views(nodes@) == told);
    assert(engine::info_views(nodes@).len() == nodes@.len());
    let all = membership::ordered(m@.rows);
    if m@.rows.dom().contains(id) {
        let i = choose|i: int| 0 <= i < all.len() && (#[trigger] all[i]).info.id == id;
        assert(all[i] == m@.rows[id]);
        assert(engine::info_views(nodes@)[i] == nodes@[i]@);
        assert(told[i] == nodes@[i]@);
    }
    let rows = federation::ordered(m@.vms);
    let me = m@.config.node_id@;
    lemma_of_owner(rows, me);
    let own = federation::of_owner(rows, me);
    assert(own == federation::vm_views(vms@));
    assert forall|i: int| 0 <= i < vms@.len() implies (#[trigger] vms@[i]).owner@ == me by {
        assert(own[i] == vms@[i]@);
    }
    if m@.vms.dom().contains(k) && k.0 == me {
        let j = choose|j: int| 0 <= j < rows.len() && (#[trigger] rows[j]).key() == k;
        assert(rows[j] == m@.vms[k]);
        assert(own.contains(rows[j]));
        let i = choose|i: int| 0 <= i < own.len() && own[i] == rows[j];
        assert(vms@[i]@ == own[i]);
    }
}

proof fn lemma_of_owner(rows: Seq<RemoteVmView>, owner: Seq<char>)
    ensures
        forall|i: int|
            0 <= i < federation::of_owner(rows, owner).len() ==> (#[trigger] federation::of_owner(
                rows,
                owner,
            )[i]).owner == owner,
        forall|j: int|
            0 <= j < rows.len() && (#[trigger] rows[j]).owner == owner ==> federation::of_owner(
                rows,
                owner,
            ).contains(rows[j]),
    decreases rows.len(),
{
    if rows.len() > 0 {
        let p = rows.drop_last();
        lemma_of_owner(p, owner);
        let w = federation::of_owner(p, owner);
        let v = federation::of_owner(rows, owner);
        assert forall|i: int| 0 <= i < v.len() implies (#[trigger] v[i]).owner == owner by {
            if i < w.len() {
                assert(v[i] == w[i]);
            }
        }
        assert forall|j: int| 0 <= j < rows.len() && (
        #[trigger] rows[j]).owner == owner implies v.contains(rows[j]) by {
            if j < p.len() {
                assert(p[j] == rows[j]);
                assert(w.contains(p[j]));
                let k = choose|k: int| 0 <= k < w.len() && w[k] == p[j];
                assert(v[k] == rows[j]);
            } else {
                assert(v[v.len() - 1] == rows[j]);
            }
        }
    }
}

/// Whom a node gossips with: only addresses of other nodes that have not
/// departed, and addresses that it heard from or was given.
pub proof fn law_gossip_partners(m: Mesh, a: Seq<char>)
    requires
        m.wf(),
        engine::candidates(m@).contains(a),
    ensures
        m@.known.contains(a) || exists|id: Seq<char>| #[trigger]
            m@.rows.dom().contains(id) && id != m@.config.node_id@ && m@.rows[id].info.status
                != NodeStatus::Left && m@.rows[id].info.addr == a,
{
    m.membership.lemma_ordered();
    let rows = membership::ordered(m@.rows);
    let me = m@.config.node_id@;
    let xs = engine::addrs(rows, me, false);
    let i = choose|i: int| 0 <= i < engine::candidates(m@).len() && engine::candidates(m@)[i] == a;
    if i < xs.len() {
        lemma_addrs(rows, me, false);
        assert(xs[i] == a);
        let j = choose|j: int|
            0 <= j < rows.len() && (#[trigger] rows[j]).info.addr == xs[i] && rows[j].info.id != me
                && rows[j].info.status != NodeStatus::Left;
        assert(m@.rows.dom().contains(rows[j].info.id));
    } else {
        assert(m@.known[i - xs.len()] == a);
    }
}

proof fn lemma_addrs(rows: Seq<MemberRowView>, me: Seq<char>, departed: bool)
    ensures
        forall|i: int|
            0 <= i < engine::addrs(rows, me, departed).len() ==> exists|j: int|
                0 <= j < rows.len() && (#[trigger] rows[j]).info.addr == #[trigger] engine::addrs(
                    rows,
                    me,
                    departed,
                )[i] && rows[j].info.id != me && (departed || rows[j].info.status
                    != NodeStatus::Left),
        forall|j: int|
            0 <= j < rows.len() && (#[trigger] rows[j]).info.id != me && (departed
                || rows[j].info.status != NodeStatus::Left) ==> engine::addrs(
                rows,
                me,
                departed,
            ).contains(rows[j].info.addr),
    decreases rows.len(),
{
    if rows.len() > 0 {
        let p = rows.drop_last();
        lemma_addrs(p, me, departed);
        let w = engine::addrs(p, me, departed);
        let v = engine::addrs(rows, me, departed);
        assert forall|i: int| 0 <= i < v.len() implies exists|j: int|
            0 <= j < rows.len() && (#[trigger] rows[j]).info.addr == #[trigger] v[i]
                && rows[j].info.id != me && (departed || rows[j].info.status
                != NodeStatus::Left) by {
            if i < w.len() {
                assert(v[i] == w[i]);
                let j = choose|j: int|
                    0 <= j < p.len() && (#[trigger] p[j]).info.addr == w[i] && p[j].info.id != me
                        && (departed || p[j].info.status != NodeStatus::Left);
                assert(rows[j].info.addr == v[i]);
            } else {
                assert(rows[rows.len() - 1].info.addr == v[i]);
            }
        }
        assert forall|j: int|
            0 <= j < rows.len() && (#[trigger] rows[j]).info.id != me && (departed
                || rows[j].info.status != NodeStatus::Left) implies v.contains(
            rows[j].info.addr,
        ) by {
            if j < p.len() {
                assert(p[j] == rows[j]);
                assert(w.contains(p[j].info.addr));
                let k = choose|k: int| 0 <= k < w.len() && w[k] == p[j].info.addr;
                assert(v[k] == rows[j].info.addr);
            } else {
                assert(v[v.len() - 1] == rows[j].info.addr);
            }
        }
    }
}

/// A node that stops takes leave of every other node that it knows, those that
/// departed before it too.
pub proof fn law_leave_is_taken_of_all(m: Mesh, env: Envelope, peers: Seq<Seq<char>>, id: Seq<char>)
    requires
        m.wf(),
        engine::takes_leave(m@, env, peers),
        m@.rows.dom().contains(id),
        id != m@.config.node_id@,
    ensures
        peers.contains(m@.rows[id].info.addr),
        env.from@ == m@.config.node_id@,
        env.payload is Goodbye,
{
    m.membership.lemma_ordered();
    let rows = membership::ordered(m@.rows);
    lemma_addrs(rows, m@.config.node_id@, true);
    let j = choose|j: int| 0 <= j < rows.len() && (#[trigger] rows[j]).info.id == id;
    assert(rows[j] == m@.rows[id]);
}

/// A node that publishes is alive to itself, heard now, and its clock is never
/// behind; nothing else of its own row changes, and no other row does.
pub proof fn law_own_row(s: MeshView, rows: Seq<RemoteVmView>, now: u128, id: Seq<char>)
    requires
        s.hlc < u64::MAX,
        s.rows.dom().contains(s.config.node_id@),
    ensures
        ({
            let n = engine::published(s, rows, now);
            let me = s.config.node_id@;
            let before = s.rows[me];
            let after = n.rows[me];
            &&& after.info.status == NodeStatus::Alive
            &&& after.last_seen == now
            &&& after.info.hlc >= s.hlc + 1 && after.info.hlc >= before.info.hlc
            &&& after.info.hlc == s.hlc + 1 || after.info.hlc == before.info.hlc
            &&& after.info.id == before.info.id && after.info.addr == before.info.addr
                && after.info.epoch == before.info.epoch
            &&& id != me ==> n.rows.dom().contains(id) == s.rows.dom().contains(id) && n.rows[id]
                == s.rows[id]
        }),
{
}

/// A node gossips with each of those it may gossip with in turn: which one is
/// told by its epoch and its clock.
pub proof fn law_whose_turn(s: MeshView, now: u128)
    ensures
        ({
            let (n, peer) = engine::gossip_round(s, now);
            let all = engine::candidates(n);
            &&& all.len() == 0 <==> peer is None
            &&& peer matches Some(p) ==> all.contains(p)
            &&& s.config.epoch + s.hlc < all.len() && all.len() <= u32::MAX ==> peer == Some(
                all[s.config.epoch + s.hlc],
            )
        }),
{
    let (n, peer) = engine::gossip_round(s, now);
    let all = engine::candidates(n);
    if all.len() > 0 {
        let seed = s.config.epoch.wrapping_add(s.hlc);
        let i = (seed as usize) as int % all.len() as int;
        assert(0 <= i < all.len());
        assert(all[i] == peer->0);
        if s.config.epoch + s.hlc < all.len() && all.len() <= u32::MAX {
            assert(seed == s.config.epoch + s.hlc);
            assert((seed as usize) as int == s.config.epoch + s.hlc);
            vstd::arithmetic::div_mod::lemma_small_mod(seed as nat, all.len());
        }
    }
}

/// A node introduces itself with its own row, its clock moved on.
pub proof fn law_hello(m: Mesh, env: Envelope)
    requires
        engine::greets(m@, env),
        m@.hlc < u64::MAX,
    ensures
        env.from@ == m@.config.node_id@,
        env.cluster@ == m@.config.cluster@,
        env.hlc == m@.hlc + 1,
        env.payload matches Payload::Hello { node } && node.hlc == m@.hlc + 1 && node@ == (
        NodeInfoView { hlc: node.hlc, ..m@.rows[m@.config.node_id@].info }),
{
}

proof fn lemma_with_addrs(more: Seq<Seq<char>>, a: Seq<char>)
    ensures
        engine::with_addrs(Seq::empty(), more).contains(a) <==> more.contains(a),
        engine::with_addrs(Seq::empty(), more).no_duplicates(),
    decreases more.len(),
{
    if more.len() > 0 {
        let d = more.drop_last();
        let k = engine::with_addrs(Seq::empty(), d);
        let x = more.last();
        lemma_with_addrs(d, a);
        lemma_with_addrs(d, x);
        if d.contains(a) {
            let i = choose|i: int| 0 <= i < d.len() && d[i] == a;
            assert(more[i] == a);
        }
        if more.contains(a) && a != x {
            let i = choose|i: int| 0 <= i < more.len() && more[i] == a;
            assert(d[i] == a);
        }
        assert(more[more.len() - 1] == x);
        if !k.contains(x) {
            let n = k.push(x);
            assert(n[n.len() - 1] == x);
            if k.contains(a) {
                let i = choose|i: int| 0 <= i < k.len() && k[i] == a;
                assert(n[i] == a);
            }
            if n.contains(a) && a != x {
                let i = choose|i: int| 0 <= i < n.len() && n[i] == a;
                assert(k[i] == a);
            }
        }
    }
}

/// A node that has just started knows the addresses of its seeds, each once, and
/// no others. It knows no node but itself and no VM.
pub proof fn law_start(config: MeshConfig, now: u128, a: Seq<char>, id: Seq<char>, k: Key)
    ensures
        ({
            let s = engine::started(config, now);
            &&& s.config == config
            &&& s.known.contains(a) <==> exists|i: int|
                0 <= i < config.seeds@.len() && (#[trigger] config.seeds@[i])@ == a
            &&& s.known.no_duplicates()
            &&& s.rows.dom().contains(id) <==> id == config.node_id@
            &&& s.rows[config.node_id@].info.id == config.node_id@
            &&& s.rows[config.node_id@].info.addr == config.advertise_addr@
            &&& s.rows[config.node_id@].info.epoch == config.epoch
            &&& s.rows[config.node_id@].info.status == NodeStatus::Alive
            &&& s.rows[config.node_id@].info.hlc == 0
            &&& s.rows[config.node_id@].last_seen == now
            &&& !s.vms.dom().contains(k)
        }),
{
    let seeds = engine::text_views(config.seeds@);
    lemma_with_addrs(seeds, a);
    assert(seeds.len() == config.seeds@.len());
    if seeds.contains(a) {
        let i = choose|i: int| 0 <= i < seeds.len() && seeds[i] == a;
        assert(config.seeds@[i]@ == a);
    }
    if exists|i: int| 0 <= i < config.seeds@.len() && (#[trigger] config.seeds@[i])@ == a {
        let i = choose|i: int| 0 <= i < config.seeds@.len() && (#[trigger] config.seeds@[i])@ == a;
        assert(seeds[i] == a);
    }
}

/// The statuses of the first `n` rows, before and after.
pub open spec fn turns(before: Seq<MemberRowView>, after: Seq<MemberRowView>, n: int) -> Seq<
    (NodeStatus, NodeStatus),
> {
    Seq::new(n as nat, |i: int| (before[i].info.status, after[i].info.status))
}

/// A pass of the failure detector reports how many nodes have another status
/// than before, how many of those were alive and are suspect, and how many are
/// dead.
pub proof fn law_changes_are_counted(
    before: Seq<MemberRowView>,
    after: Seq<MemberRowView>,
    n: int,
)
    requires
        n >= 0,
    ensures
        ({
            let c = membership::changes(before, after, n);
            let t = turns(before, after, n);
            &&& c.0 == t.filter(|x: (NodeStatus, NodeStatus)| x.0 != x.1).len()
            &&& c.1 == t.filter(
                |x: (NodeStatus, NodeStatus)|
                    x.0 == NodeStatus::Alive && x.1 == NodeStatus::Suspect,
            ).len()
            &&& c.2 == t.filter(
                |x: (NodeStatus, NodeStatus)| x.0 != NodeStatus::Dead && x.1 == NodeStatus::Dead,
            ).len()
        }),
    decreases n,
{
    reveal(Seq::filter);
    if n > 0 {
        law_changes_are_counted(before, after, n - 1);
        let t = turns(before, after, n);
        assert(t.drop_last() =~= turns(before, after, n - 1));
        assert(t.last() == (before[n - 1].info.status, after[n - 1].info.status));
    }
}

} // verus!
