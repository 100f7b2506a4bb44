//! What holds of what is shown to those who watch a cluster: counts, counters,
//! reports, probes, paths and addresses.

use vstd::prelude::*;
use vstd::string::*;
use vstd::utf8::*;

use crate::error::{CelError, CelResult};
use crate::mesh::admin;
use crate::mesh::admin::Response;
use crate::mesh::engine;
use crate::mesh::engine::{FrameStep, Mesh, MeshView, RpcOutcome};
use crate::mesh::federation;
use crate::mesh::federation::{RemoteVm, RemoteVmView};
use crate::mesh::hyper_serial;
use crate::mesh::membership;
use crate::mesh::membership::{MemberRowView, NodeId, NodeInfo, NodeInfoView, NodeStatus};
use crate::mesh::metrics;
use crate::mesh::metrics::MeshMetricsSnapshot;
use crate::mesh::net;
use crate::mesh::observability;
use crate::mesh::observability::{ClusterReport, NodeAnswer, PollView};
use crate::mesh::path;
use crate::mesh::path::PathFault;
use crate::mesh::proto::{Envelope, VmOp, VmOpReply, VmOpResult};
use crate::mesh::status;
use crate::mesh::status::ClusterStatus;
use crate::mesh::table::Key;
use crate::mesh::vault::VolumeMeta;
use crate::text;

verus! {

proof fn lemma_counted(rows: Seq<MemberRowView>, members: Seq<NodeInfo>, st: NodeStatus, n: int)
    requires
        rows.len() == members.len(),
        forall|i: int| 0 <= i < rows.len() ==> (#[trigger] members[i])@ == rows[i].info,
        0 <= n <= rows.len(),
    ensures
        membership::count_status(rows, st, n) == members.take(n).filter(
            |m: NodeInfo| m.status == st,
        ).len(),
    decreases n,
{
    let p = |m: NodeInfo| m.status == st;
    reveal(Seq::filter);
    if n > 0 {
        lemma_counted(rows, members, st, n - 1);
        assert(members.take(n).drop_last() =~= members.take(n - 1));
        assert(members.take(n).last() == members[n - 1]);
        assert(members[n - 1]@ == rows[n - 1].info);
    } else {
        assert(members.take(n).len() == 0);
    }
}

proof fn lemma_either<A>(s: Seq<A>, p: spec_fn(A) -> bool, q: spec_fn(A) -> bool, r: spec_fn(A) -> bool)
    requires
        forall|x: A| #[trigger] r(x) <==> p(x) || q(x),
        forall|i: int| 0 <= i < s.len() ==> !(p(#[trigger] s[i]) && q(s[i])),
    ensures
        s.filter(r).len() == s.filter(p).len() + s.filter(q).len(),
    decreases s.len(),
{
    reveal(Seq::filter);
    if s.len() > 0 {
        let d = s.drop_last();
        assert forall|i: int| 0 <= i < d.len() implies !(p(#[trigger] d[i]) && q(d[i])) by {
            assert(d[i] == s[i]);
        }
        lemma_either(d, p, q, r);
        assert(s[s.len() - 1] == s.last());
        assert(r(s.last()) <==> p(s.last()) || q(s.last()));
    }
}

proof fn lemma_orphaned(vms: Seq<RemoteVmView>, shown: Seq<RemoteVm>)
    requires
        vms.len() == shown.len(),
        forall|i: int| 0 <= i < vms.len() ==> (#[trigger] shown[i])@ == vms[i],
    ensures
        status::count_orphaned(vms) == shown.filter(|v: RemoteVm| !v.owner_alive).len(),
    decreases vms.len(),
{
    reveal(Seq::filter);
    if vms.len() > 0 {
        let d = shown.drop_last();
        assert forall|i: int| 0 <= i < d.len() implies (#[trigger] d[i])@ == vms.drop_last()[i] by {
            assert(d[i] == shown[i]);
        }
        lemma_orphaned(vms.drop_last(), d);
        assert(shown[shown.len() - 1] == shown.last());
    }
}

/// What the status of a cluster counts is what it lists: the members that are
/// alive, suspect, and dead or departed, the VMs, and those whose owner is not
/// alive. A VM's owner is alive if it is this node or a member that is.
pub proof fn law_status_counts_what_it_lists(s: MeshView, r: ClusterStatus)
    requires
        status::tells(s, r),
    ensures
        r.alive == r.members@.filter(|m: NodeInfo| m.status == NodeStatus::Alive).len(),
        r.suspect == r.members@.filter(|m: NodeInfo| m.status == NodeStatus::Suspect).len(),
        r.dead == r.members@.filter(
            |m: NodeInfo| m.status == NodeStatus::Dead || m.status == NodeStatus::Left,
        ).len(),
        r.total_vms == r.vms@.len(),
        r.orphaned_vms == r.vms@.filter(|v: RemoteVm| !v.owner_alive).len(),
        forall|i: int|
            0 <= i < r.vms@.len() ==> ((#[trigger] r.vms@[i]).owner_alive <==> r.vms@[i].owner@
                == s.config.node_id@ || (s.rows.dom().contains(r.vms@[i].owner@)
                && s.rows[r.vms@[i].owner@].info.status == NodeStatus::Alive)),
{
    let rows = membership::ordered(s.rows);
    let members = r.members@;
    assert(engine::info_views(members).len() == members.len());
    assert forall|i: int| 0 <= i < rows.len() implies (#[trigger] members[i])@ == rows[i].info by {
        assert(engine::info_views(members)[i] == members[i]@);
    }
    let n = rows.len() as int;
    assert(members.take(n) =~= members);
    lemma_counted(rows, members, NodeStatus::Alive, n);
    lemma_counted(rows, members, NodeStatus::Suspect, n);
    lemma_counted(rows, members, NodeStatus::Dead, n);
    lemma_counted(rows, members, NodeStatus::Left, n);
    lemma_either(
        members,
        |m: NodeInfo| m.status == NodeStatus::Dead,
        |m: NodeInfo| m.status == NodeStatus::Left,
        |m: NodeInfo| m.status == NodeStatus::Dead || m.status == NodeStatus::Left,
    );
    let want = status::judged_vms(s);
    assert(federation::vm_views(r.vms@) == want);
    assert(federation::vm_views(r.vms@).len() == r.vms@.len());
    assert forall|i: int| 0 <= i < want.len() implies (#[trigger] r.vms@[i])@ == want[i] by {
        assert(federation::vm_views(r.vms@)[i] == r.vms@[i]@);
    }
    lemma_orphaned(want, r.vms@);
    assert forall|i: int| 0 <= i < r.vms@.len() implies ((#[trigger] r.vms@[i]).owner_alive
        <==> r.vms@[i].owner@ == s.config.node_id@ || (s.rows.dom().contains(r.vms@[i].owner@)
        && s.rows[r.vms@[i].owner@].info.status == NodeStatus::Alive)) by {
        assert(r.vms@[i]@ == want[i]);
    }
}

/// The line on a node: its name, its cluster, how many nodes it sees alive, and
/// whether it is alone.
pub proof fn law_summary_line(s: MeshView)
    ensures
        ({
            let alive = status::count_of(s, NodeStatus::Alive);
            let head = "node="@ + s.config.node_id@ + " cluster="@ + s.config.cluster@ + " alive="@
                + text::decimal(alive as nat);
            &&& alive < 2 ==> status::summary_text(s) == head + " degraded=true"@
            &&& alive >= 2 ==> status::summary_text(s) == head + " degraded=false"@
        }),
{
}

/// Every frame that is handled moves at most one counter, and its own: that of
/// foreign frames, or that of requests for this node.
pub proof fn law_frames_count(
    s: MeshView,
    env: Envelope,
    src: Seq<char>,
    now: u128,
    n: MeshView,
    r: FrameStep,
)
    requires
        engine::handled(s, env, src, now, n, r),
    ensures
        env.cluster@ != s.config.cluster@ ==> n.metrics == (MeshMetricsSnapshot {
            foreign_cluster_drops: s.metrics.foreign_cluster_drops.wrapping_add(1),
            ..s.metrics
        }),
        r is Dispatch ==> n.metrics == (MeshMetricsSnapshot {
            rpc_in: s.metrics.rpc_in.wrapping_add(1),
            ..s.metrics
        }),
        env.cluster@ == s.config.cluster@ && !(r is Dispatch) ==> n.metrics == s.metrics,
        env.cluster@ == s.config.cluster@ ==> n.known.contains(src),
{
    if env.cluster@ == s.config.cluster@ && !s.known.contains(src) {
        assert(s.known.push(src)[s.known.len() as int] == src);
    }
}

/// What is taken in, what cannot be read, what is sent, what fails and what runs
/// out of time is counted once, where it belongs.
pub proof fn law_counters(
    s: MeshView,
    len: usize,
    parsed: Option<Envelope>,
    n: MeshView,
    r: Option<Envelope>,
    req_id: u64,
    outcome: RpcOutcome,
    m: MeshView,
    q: CelResult<VmOpReply>,
    peers: u64,
    addr: Seq<char>,
)
    requires
        engine::received(s, len, parsed, n, r),
        engine::invoke_ended(s, req_id, outcome, m, q),
    ensures
        r is Some ==> n.metrics == (MeshMetricsSnapshot {
            gossip_recv: s.metrics.gossip_recv.wrapping_add(1),
            ..s.metrics
        }),
        r is None ==> n.metrics == (MeshMetricsSnapshot {
            decode_errors: s.metrics.decode_errors.wrapping_add(1),
            ..s.metrics
        }),
        q is Ok ==> m.metrics == s.metrics,
        q is Err && outcome is TimedOut ==> m.metrics == (MeshMetricsSnapshot {
            rpc_timeouts: s.metrics.rpc_timeouts.wrapping_add(1),
            ..s.metrics
        }),
        q is Err && !(outcome is TimedOut) ==> m.metrics == (MeshMetricsSnapshot {
            rpc_errors: s.metrics.rpc_errors.wrapping_add(1),
            ..s.metrics
        }),
        outcome matches RpcOutcome::Reply(VmOpResult::Failed(why)) ==> (q matches Err(
            CelError::Io(w),
        ) && w@ == "remote host: "@ + why@),
        engine::framed(s, peers).metrics == (MeshMetricsSnapshot {
            gossip_sent: s.metrics.gossip_sent.wrapping_add(peers),
            ..s.metrics
        }),
        engine::introduced(s, addr).metrics == (MeshMetricsSnapshot {
            join_calls: s.metrics.join_calls.wrapping_add(1),
            ..s.metrics
        }),
        engine::introduced(s, addr).known.contains(addr),
        forall|a: Seq<char>|
            s.known.contains(a) ==> #[trigger] engine::introduced(s, addr).known.contains(a),
{
    let k = engine::introduced(s, addr).known;
    if !s.known.contains(addr) {
        assert(k[s.known.len() as int] == addr);
    }
    assert forall|a: Seq<char>| s.known.contains(a) implies #[trigger] k.contains(a) by {
        let i = choose|i: int| 0 <= i < s.known.len() && s.known[i] == a;
        assert(k[i] == a);
    }
}

/// Text holds a piece somewhere.
pub open spec fn holds(t: Seq<char>, piece: Seq<char>) -> bool {
    exists|i: int| 0 <= i && i + piece.len() <= t.len() && #[trigger] t.subrange(i, i + piece.len())
        == piece
}

proof fn lemma_holds(a: Seq<char>, piece: Seq<char>, b: Seq<char>)
    ensures
        holds(a + piece + b, piece),
{
    let t = a + piece + b;
    assert(t.subrange(a.len() as int, a.len() as int + piece.len()) =~= piece);
}

proof fn lemma_still_holds(t: Seq<char>, piece: Seq<char>, b: Seq<char>)
    requires
        holds(t, piece),
    ensures
        holds(t + b, piece),
{
    let i = choose|i: int|
        0 <= i && i + piece.len() <= t.len() && #[trigger] t.subrange(i, i + piece.len()) == piece;
    assert((t + b).subrange(i, i + piece.len()) =~= t.subrange(i, i + piece.len()));
}

proof fn lemma_ends(t: Seq<char>, piece: Seq<char>)
    ensures
        holds(t + piece, piece),
{
    lemma_holds(t, piece, Seq::empty());
    assert(t + piece + Seq::<char>::empty() =~= t + piece);
}

/// The exposition of a counter: its type and its value, each on a line that ends.
pub open spec fn counter_lines(name: Seq<char>, value: u64) -> Seq<char> {
    "# TYPE "@ + name + " counter\n"@ + name + " "@ + text::decimal(value as nat) + "\n"@
}

/// Every counter is shown under its name with its value.
pub proof fn law_every_counter_is_shown(m: MeshMetricsSnapshot)
    ensures
        holds(metrics::exposition(m), counter_lines("celmesh_gossip_sent_total"@, m.gossip_sent)),
        holds(metrics::exposition(m), counter_lines("celmesh_gossip_recv_total"@, m.gossip_recv)),
        holds(metrics::exposition(m), counter_lines("celmesh_decode_errors_total"@, m.decode_errors)),
        holds(
            metrics::exposition(m),
            counter_lines("celmesh_foreign_cluster_drops_total"@, m.foreign_cluster_drops),
        ),
        holds(
            metrics::exposition(m),
            counter_lines("celmesh_suspect_promotions_total"@, m.suspect_promotions),
        ),
        holds(
            metrics::exposition(m),
            counter_lines("celmesh_dead_promotions_total"@, m.dead_promotions),
        ),
        holds(metrics::exposition(m), counter_lines("celmesh_rpc_in_total"@, m.rpc_in)),
        holds(metrics::exposition(m), counter_lines("celmesh_rpc_out_total"@, m.rpc_out)),
        holds(metrics::exposition(m), counter_lines("celmesh_rpc_timeouts_total"@, m.rpc_timeouts)),
        holds(metrics::exposition(m), counter_lines("celmesh_rpc_errors_total"@, m.rpc_errors)),
        holds(metrics::exposition(m), counter_lines("celmesh_join_calls_total"@, m.join_calls)),
        holds(
            metrics::exposition(m),
            counter_lines("celmesh_supervisor_restarts_total"@, m.supervisor_restarts),
        ),
{
    let l1 = counter_lines("celmesh_gossip_sent_total"@, m.gossip_sent);
    let l2 = counter_lines("celmesh_gossip_recv_total"@, m.gossip_recv);
    let l3 = counter_lines("celmesh_decode_errors_total"@, m.decode_errors);
    let l4 = counter_lines("celmesh_foreign_cluster_drops_total"@, m.foreign_cluster_drops);
    let l5 = counter_lines("celmesh_suspect_promotions_total"@, m.suspect_promotions);
    let l6 = counter_lines("celmesh_dead_promotions_total"@, m.dead_promotions);
    let l7 = counter_lines("celmesh_rpc_in_total"@, m.rpc_in);
    let l8 = counter_lines("celmesh_rpc_out_total"@, m.rpc_out);
    let l9 = counter_lines("celmesh_rpc_timeouts_total"@, m.rpc_timeouts);
    let l10 = counter_lines("celmesh_rpc_errors_total"@, m.rpc_errors);
    let l11 = counter_lines("celmesh_join_calls_total"@, m.join_calls);
    let l12 = counter_lines("celmesh_supervisor_restarts_total"@, m.supervisor_restarts);
    lemma_grow(seq![l1, l2, l3, l4, l5, l6, l7, l8, l9, l10, l11, l12], 12);
    let all = seq![l1, l2, l3, l4, l5, l6, l7, l8, l9, l10, l11, l12];
    reveal_with_fuel(glued, 13);
    assert(glued(all, 12) =~= metrics::exposition(m));
    assert(holds(glued(all, 12), all[0]) && holds(glued(all, 12), all[1]) && holds(
        glued(all, 12),
        all[2],
    ) && holds(glued(all, 12), all[3]) && holds(glued(all, 12), all[4]) && holds(
        glued(all, 12),
        all[5],
    ) && holds(glued(all, 12), all[6]) && holds(glued(all, 12), all[7]) && holds(
        glued(all, 12),
        all[8],
    ) && holds(glued(all, 12), all[9]) && holds(glued(all, 12), all[10]) && holds(
        glued(all, 12),
        all[11],
    ));
}

/// The first `n` pieces, one behind the other.
pub open spec fn glued(ps: Seq<Seq<char>>, n: int) -> Seq<char>
    decreases n,
{
    if n <= 0 {
        Seq::empty()
    } else {
        glued(ps, n - 1) + ps[n - 1]
    }
}

proof fn lemma_grow(ps: Seq<Seq<char>>, n: int)
    requires
        0 <= n <= ps.len(),
    ensures
        forall|i: int| 0 <= i < n ==> holds(glued(ps, n), #[trigger] ps[i]),
    decreases n,
{
    if n > 0 {
        lemma_grow(ps, n - 1);
        assert forall|i: int| 0 <= i < n implies holds(glued(ps, n), #[trigger] ps[i]) by {
            if i < n - 1 {
                lemma_still_holds(glued(ps, n - 1), ps[i], ps[n - 1]);
            } else {
                lemma_ends(glued(ps, n - 1), ps[i]);
            }
        }
    }
}

/// What is answered to whom: the counters, the health, the readiness and the
/// index under their paths, and nothing under any other. A node that sees fewer
/// than two nodes alive is not ready.
pub proof fn law_routes(s: MeshView, p: Seq<char>, r: Response)
    requires
        admin::routed(s, p, r),
    ensures
        p == "/metrics"@ ==> r.0 == 200 && r.1@ == "text/plain; version=0.0.4"@ && r.2@
            == metrics::exposition(s.metrics),
        p == "/healthz"@ ==> r.0 == 200 && r.2@ == status::summary_text(s) + "\n"@,
        p == "/readyz"@ ==> r.2@ == status::summary_text(s) + "\n"@ && (r.0 == 200
            || r.0 == 503) && (r.0 == 503 <==> status::count_of(s, NodeStatus::Alive) < 2),
        p == "/"@ ==> r.0 == 200 && r.2@
            == "celmesh admin\n  GET /metrics\n  GET /healthz\n  GET /readyz\n"@,
        p != "/metrics"@ && p != "/healthz"@ && p != "/readyz"@ && p != "/"@ ==> r.0 == 404 && r.2@
            == "not found\n"@,
        p != "/metrics"@ ==> r.1@ == "text/plain; charset=utf-8"@,
{
    reveal_strlit("/readyz");
    reveal_strlit("/healthz");
    reveal_strlit("/metrics");
    reveal_strlit("/");
    assert("/readyz"@.len() == 7 && "/healthz"@.len() == 8 && "/metrics"@.len() == 8 && "/"@.len()
        == 1);
    assert("/healthz"@[1] != "/metrics"@[1]);
}

/// The head of a response: its status in digits and words, the type of the body,
/// and how many bytes it has.
pub proof fn law_response_heads(status: u16, ctype: Seq<char>, body: Seq<char>)
    ensures
        admin::head_text(status, ctype, body) == "HTTP/1.0 "@ + text::decimal(status as nat) + " "@
            + admin::reason_of(status)@ + "\r\nContent-Type: "@ + ctype + "\r\nContent-Length: "@
            + text::decimal(encode_utf8(body).len()) + "\r\nConnection: close\r\n\r\n"@,
        status == 200 ==> admin::reason_of(status)@ == "OK"@,
        status == 404 ==> admin::reason_of(status)@ == "Not Found"@,
        status == 503 ==> admin::reason_of(status)@ == "Service Unavailable"@,
{
}

proof fn lemma_first_word(a: Seq<char>, b: Seq<char>, sep: char)
    requires
        !a.contains(sep),
    ensures
        text::split_on(a.push(sep) + b, sep) == seq![a] + text::split_on(b, sep),
{
    text::law_split_at(a, b, sep);
    text::lemma_split_nonempty(a, sep);
    text::law_pieces(a, sep, 0);
}

/// A request line asks for its second word, up to a question mark; it is heard
/// if the first word is `GET` or `HEAD`.
pub proof fn law_request_lines(
    method: Seq<char>,
    path: Seq<char>,
    query: Seq<char>,
    rest: Seq<char>,
)
    requires
        !method.contains(' '),
        !path.contains(' ') && !path.contains('?'),
        !query.contains(' '),
    ensures
        ({
            let plain = method.push(' ') + (path.push(' ') + rest);
            let asked = method.push(' ') + ((path.push('?') + query).push(' ') + rest);
            &&& method == "GET"@ || method == "HEAD"@ ==> admin::path_of_line(plain) == Some(path)
                && admin::path_of_line(asked) == Some(path)
            &&& method != "GET"@ && method != "HEAD"@ ==> admin::path_of_line(plain) is None
                && admin::path_of_line(asked) is None
        }),
{
    let q = path.push('?') + query;
    assert(!q.contains(' ')) by {
        if q.contains(' ') {
            let i = choose|i: int| 0 <= i < q.len() && q[i] == ' ';
            if i < path.len() {
                assert(path.contains(path[i]));
            } else if i > path.len() {
                assert(query.contains(query[i - path.len() - 1]));
            }
        }
    }
    lemma_first_word(method, path.push(' ') + rest, ' ');
    lemma_first_word(path, rest, ' ');
    lemma_first_word(method, q.push(' ') + rest, ' ');
    lemma_first_word(q, rest, ' ');
    lemma_first_word(path, query, '?');
    text::lemma_split_nonempty(path, '?');
    text::law_pieces(path, '?', 0);
    let plain = method.push(' ') + (path.push(' ') + rest);
    let asked = method.push(' ') + (q.push(' ') + rest);
    assert(text::split_on(plain, ' ')[0] == method);
    assert(text::split_on(plain, ' ')[1] == path);
    assert(text::split_on(asked, ' ')[0] == method);
    assert(text::split_on(asked, ' ')[1] == q);
}

proof fn lemma_line_end(b: Seq<u8>, i: int, k: int)
    requires
        0 <= i <= k < b.len(),
        b[k] == 10,
        forall|j: int| i <= j < k ==> #[trigger] b[j] != 10,
    ensures
        admin::line_end_from(b, i) == Some(
            if k > 0 && b[k - 1] == 13 {
                k - 1
            } else {
                k
            },
        ),
    decreases k - i,
{
    if i < k {
        assert(b[i] != 10);
        lemma_line_end(b, i + 1, k);
    }
}

proof fn lemma_no_line_end(b: Seq<u8>, i: int)
    requires
        0 <= i,
        forall|j: int| i <= j < b.len() ==> #[trigger] b[j] != 10,
    ensures
        admin::line_end_from(b, i) is None,
    decreases b.len() - i,
{
    if i < b.len() {
        assert(b[i] != 10);
        lemma_no_line_end(b, i + 1);
    }
}

/// A request is read once its first line has come, whatever follows. Without one,
/// more is waited for up to 4096 bytes; a peer that is gone, a longer line and one
/// that is no text are refused.
pub proof fn law_requests(line: Seq<u8>, cr: bool, rest: Seq<u8>, eof: bool, r: admin::RequestStep)
    requires
        !line.contains(10),
        line.len() > 0 ==> line.last() != 13,
        admin::requested(
            line + (if cr {
                seq![13u8, 10u8]
            } else {
                seq![10u8]
            }) + rest,
            eof,
            r,
        ),
    ensures
        eof ==> r is Refused,
        !eof && !valid_utf8(line) ==> r is Refused,
        !eof && valid_utf8(line) ==> match admin::path_of_line(decode_utf8(line)) {
            Some(p) => r matches admin::RequestStep::Path(x) && x@ == p,
            None => r is Refused,
        },
{
    let end = if cr {
        seq![13u8, 10u8]
    } else {
        seq![10u8]
    };
    let b = line + end + rest;
    let k = line.len() + end.len() - 1;
    assert(b[k] == 10);
    assert forall|j: int| 0 <= j < k implies #[trigger] b[j] != 10 by {
        if j < line.len() {
            assert(line.contains(line[j]));
        }
    }
    lemma_line_end(b, 0, k);
    if !cr && line.len() > 0 {
        assert(b[k - 1] == line.last());
    }
    assert(b.take(line.len() as int) =~= line);
}

/// Without an end of line a request is waited for while it has fewer than 4096
/// bytes, and refused from there on.
pub proof fn law_unfinished_requests(b: Seq<u8>, r: admin::RequestStep)
    requires
        !b.contains(10),
        admin::requested(b, false, r),
    ensures
        b.len() < 4096 ==> r is More,
        b.len() >= 4096 ==> r is Refused,
{
    assert forall|j: int| 0 <= j < b.len() implies #[trigger] b[j] != 10 by {
        assert(b.contains(b[j]));
    }
    lemma_no_line_end(b, 0);
}

/// A value that is sent as a line comes back as it was, if the line has at most
/// 64 KiB; a longer line and a peer that is gone are told apart from it.
pub proof fn law_lines(
    json: Seq<char>,
    n: usize,
    reply: CelResult<String>,
    request: CelResult<Option<String>>,
)
    requires
        json.len() > 0 ==> !text::is_white(json.last()),
        hyper_serial::reply_read(n, hyper_serial::line_of(json), reply),
        hyper_serial::request_read(n, hyper_serial::line_of(json), request),
    ensures
        n == 0 ==> reply is Err && request matches Ok(None),
        n > 0 ==> (reply is Ok <==> encode_utf8(hyper_serial::line_of(json)).len() <= 65536),
        n > 0 ==> (request is Ok <==> encode_utf8(hyper_serial::line_of(json)).len() <= 65536),
        n > 0 && reply is Ok ==> reply->Ok_0@ == json,
        n > 0 && request is Ok ==> (request matches Ok(Some(x)) && x@ == json),
        hyper_serial::line_of(json).len() == json.len() + 1,
        hyper_serial::line_of(json).last() == '\n',
{
    reveal_strlit("\n");
    hyper_serial::law_line_round_trip(json);
}

proof fn lemma_octet_text(p: Seq<char>)
    requires
        net::octet(p) is Some,
    ensures
        p == text::decimal(net::octet(p)->0 as nat),
        net::octet(p)->0 <= 255,
{
    reveal_with_fuel(text::digits_value, 4);
    reveal_with_fuel(text::decimal, 4);
    let v = net::octet(p)->0 as nat;
    if p.len() == 1 {
        assert(text::is_digit(p[0]));
        assert(p.drop_last() =~= Seq::<char>::empty());
        assert(p =~= text::decimal(v));
    } else if p.len() == 2 {
        assert(text::is_digit(p[0]) && text::is_digit(p[1]));
        let a = p.drop_last();
        assert(a[0] == p[0]);
        assert(a.drop_last() =~= Seq::<char>::empty());
        assert(v == 10 * (p[0] as int - 48) + (p[1] as int - 48));
        assert(v / 10 == p[0] as int - 48 && v % 10 == p[1] as int - 48);
        assert(p =~= text::decimal(v));
    } else {
        assert(text::is_digit(p[0]) && text::is_digit(p[1]) && text::is_digit(p[2]));
        let a = p.drop_last();
        let b = a.drop_last();
        assert(a[0] == p[0] && a[1] == p[1] && b[0] == p[0]);
        assert(b.drop_last() =~= Seq::<char>::empty());
        assert(v == 100 * (p[0] as int - 48) + 10 * (p[1] as int - 48) + (p[2] as int - 48));
        let w = v / 10;
        assert(w == 10 * (p[0] as int - 48) + (p[1] as int - 48) && v % 10 == p[2] as int - 48);
        assert(w / 10 == p[0] as int - 48 && w % 10 == p[1] as int - 48);
        assert(text::decimal(w) =~= a);
        assert(p =~= text::decimal(v));
    }
}

proof fn lemma_octets(a: u32, b: u32, c: u32, d: u32)
    requires
        a < 256 && b < 256 && c < 256 && d < 256,
    ensures
        ({
            let x = net::address(a, b, c, d).0;
            &&& x == 0x100_0000 * a + 0x1_0000 * b + 0x100 * c + d
            &&& x / 16777216 == a
            &&& (x / 65536) % 256 == b
            &&& (x / 256) % 256 == c
            &&& x % 256 == d
        }),
{
    let x = net::address(a, b, c, d).0;
    assert(a * 16777216 + b * 65536 + c * 256 + d <= u32::MAX);
    assert(x / 65536 == 256 * a + b);
    assert(x / 256 == 65536 * a + 256 * b + c);
}

/// An address is written as its four octets, the highest first, with dots between
/// them.
pub proof fn law_addresses(a: u32, b: u32, c: u32, d: u32)
    requires
        a < 256 && b < 256 && c < 256 && d < 256,
    ensures
        net::address(a, b, c, d).0 == 0x100_0000 * a + 0x1_0000 * b + 0x100 * c + d,
        net::ipv4_text(net::address(a, b, c, d)) == text::decimal(a as nat) + "."@ + text::decimal(
            b as nat,
        ) + "."@ + text::decimal(c as nat) + "."@ + text::decimal(d as nat),
{
    lemma_octets(a, b, c, d);
}

/// No text but the written form of an address is read as the address.
pub proof fn law_only_addresses_are_read(s: Seq<char>)
    ensures
        net::parsed_ipv4(s) matches Some(ip) ==> s == net::ipv4_text(ip),
{
    if net::parsed_ipv4(s) is Some {
        let p = text::split_on(s, '.');
        let a = net::octet(p[0])->0;
        let b = net::octet(p[1])->0;
        let c = net::octet(p[2])->0;
        let d = net::octet(p[3])->0;
        assert(a <= 255 && b <= 255 && c <= 255 && d <= 255);
        law_addresses(a, b, c, d);
        assert(s == p[0] + "."@ + p[1] + "."@ + p[2] + "."@ + p[3]) by {
            lemma_rejoined(s, '.');
            net::lemma_join4(p[0], p[1], p[2], p[3]);
            assert(p =~= seq![p[0], p[1], p[2], p[3]]);
        }
        assert(p[0] == text::decimal(a as nat) && p[1] == text::decimal(b as nat) && p[2]
            == text::decimal(c as nat) && p[3] == text::decimal(d as nat)) by {
            lemma_octet_text(p[0]);
            lemma_octet_text(p[1]);
            lemma_octet_text(p[2]);
            lemma_octet_text(p[3]);
        }
    }
}

proof fn lemma_rejoined(s: Seq<char>, sep: char)
    ensures
        text::join(text::split_on(s, sep), sep) == s,
    decreases s.len(),
{
    text::lemma_split_nonempty(s, sep);
    let p = text::split_on(s, sep);
    if s.len() == 0 {
        assert(p[0] =~= s);
    } else {
        let d = s.drop_last();
        lemma_rejoined(d, sep);
        text::lemma_split_nonempty(d, sep);
        let q = text::split_on(d, sep);
        assert(d.push(s.last()) =~= s);
        if s.last() == sep {
            assert(p.drop_last() =~= q);
            assert(text::join(p, sep) =~= s);
        } else {
            assert(p.drop_last() =~= q.drop_last());
            if q.len() == 1 {
                assert(text::join(p, sep) =~= s);
            } else {
                assert(text::join(p, sep) =~= s);
            }
        }
    }
}

/// A path is `/cluster/`, a node without a slash, `/vms/` and a number. Nothing
/// else is a path, and what is one names the node and the VM.
pub proof fn law_paths(s: Seq<char>, allow_empty: bool)
    ensures
        path::parsed_path(s, allow_empty) matches Ok((node, vm)) ==> !node.contains('/') && (
        node.len() > 0 || allow_empty) && exists|tail: Seq<char>| #[trigger]
            text::parsed_u32(tail) == Some(vm) && s == "/cluster/"@ + node + "/vms/"@ + tail,
        path::parsed_path(s, allow_empty) == Err::<(Seq<char>, u32), PathFault>(PathFault::Prefix)
            <==> !"/cluster/"@.is_prefix_of(s),
        path::path_error(PathFault::Prefix) == CelError::Invalid("path: missing /cluster/ prefix"),
        path::path_error(PathFault::Shape) == CelError::Invalid(
            "path: expected /cluster/<node>/vms/<n>",
        ),
        path::path_error(PathFault::EmptyNode) == CelError::Invalid("path: empty node id"),
        path::path_error(PathFault::Segment) == CelError::Invalid(
            "path: expected /vms/<n> segment",
        ),
        path::path_error(PathFault::Extra) == CelError::Invalid(
            "path: expected exactly one VM segment",
        ),
        path::path_error(PathFault::Number) == CelError::Invalid("path: VM id is not a u32"),
{
    reveal_strlit("/cluster/");
    reveal_strlit("vms/");
    reveal_strlit("/vms/");
    if "/cluster/"@.is_prefix_of(s) {
        assert(s.subrange(0, 9) =~= "/cluster/"@);
    }
    if path::holds_at(s, "/cluster/"@, 0) {
        assert forall|i: int| 0 <= i < 9 implies "/cluster/"@[i] == s[i] by {
            assert(s.subrange(0, 9)[i] == s[i]);
        }
        assert("/cluster/"@ =~= s.subrange(0, 9));
    }
    if path::parsed_path(s, allow_empty) is Ok {
        let i = path::position_of(s, '/', 9);
        path::lemma_position(s, '/', 9);
        let node = s.subrange(9, i);
        let tail = s.skip(i + 5);
        assert(!node.contains('/')) by {
            if node.contains('/') {
                let k = choose|k: int| 0 <= k < node.len() && node[k] == '/';
                assert(s[9 + k] == '/');
            }
        }
        assert(text::parsed_u32(tail) is Some);
        let t = "/cluster/"@ + node + "/vms/"@ + tail;
        assert forall|k: int| 0 <= k < s.len() implies s[k] == t[k] by {
            if k < 9 {
                assert(s.subrange(0, 9)[k] == s[k]);
            } else if i < k < i + 5 {
                assert(s.subrange(i + 1, i + 5)[k - i - 1] == s[k]);
            }
        }
        assert(s =~= t);
    }
}

/// An operation that is sent along a path goes to the node of the path. If it is
/// about a VM, it is then about the VM of the path; nothing else of it changes.
pub proof fn law_paths_lead(owner: Seq<char>, vm: u32, op: VmOp, r: CelResult<(NodeId, VmOp)>)
    requires
        !owner.contains('/'),
        owner.len() > 0,
        status::leads_to(path::vm_path(owner, vm), op, r),
    ensures
        path::vm_path(owner, vm) == "/cluster/"@ + owner + "/vms/"@ + text::decimal(vm as nat),
        r matches Ok((node, o)) && node@ == owner && match op {
            VmOp::Start { .. } => o == (VmOp::Start { vm_id: vm }),
            VmOp::Stop { .. } => o == (VmOp::Stop { vm_id: vm }),
            VmOp::Delete { .. } => o == (VmOp::Delete { vm_id: vm }),
            VmOp::AttachVolume { volume_id, mount_name, .. } => o == (VmOp::AttachVolume {
                vm_id: vm,
                volume_id,
                mount_name,
            }),
            VmOp::DetachVolume { volume_id, .. } => o == (VmOp::DetachVolume {
                vm_id: vm,
                volume_id,
            }),
            VmOp::AttachNic { network_id, ip, .. } => o == (VmOp::AttachNic {
                network_id,
                vm_id: vm,
                ip,
            }),
            _ => o == op,
        },
{
    path::law_path_round_trip(owner, vm, false);
}

proof fn lemma_owned(vms: Seq<RemoteVmView>, id: Seq<char>)
    ensures
        observability::owned(vms, id) == vms.filter(|v: RemoteVmView| v.owner == id).len(),
    decreases vms.len(),
{
    reveal(Seq::filter);
    if vms.len() > 0 {
        lemma_owned(vms.drop_last(), id);
    }
}

proof fn lemma_bytes_add(a: Seq<VolumeMeta>, b: Seq<VolumeMeta>)
    ensures
        observability::bytes_of(a + b) == observability::bytes_of(a) + observability::bytes_of(b),
    decreases b.len(),
{
    if b.len() == 0 {
        assert(a + b =~= a);
    } else {
        lemma_bytes_add(a, b.drop_last());
        assert((a + b).drop_last() =~= a + b.drop_last());
        assert((a + b).last() == b.last());
    }
}

/// The volumes of a list of volumes with their nodes.
pub open spec fn volumes_in(v: Seq<(Seq<char>, VolumeMeta)>) -> Seq<VolumeMeta> {
    Seq::new(v.len(), |i: int| v[i].1)
}

proof fn lemma_report_sums(
    infos: Seq<NodeInfoView>,
    vms: Seq<RemoteVmView>,
    answers: Seq<NodeAnswer>,
    n: int,
)
    requires
        0 <= n <= infos.len(),
        infos.len() <= answers.len(),
        forall|i: int|
            0 <= i < infos.len() ==> ((#[trigger] answers[i]).volumes matches Some(v) ==> v@.len()
                <= u32::MAX),
    ensures
        ({
            let rows = observability::rows_of(infos, vms, answers);
            let all = observability::all_usages(infos, answers, n);
            let bytes = observability::bytes_of(volumes_in(all));
            &&& observability::sum_volumes(rows, n) == all.len()
            &&& observability::capped(observability::sum_bytes(rows, n)) == observability::capped(
                bytes,
            )
        }),
    decreases n,
{
    let rows = observability::rows_of(infos, vms, answers);
    let all = observability::all_usages(infos, answers, n);
    if n == 0 {
        assert(volumes_in(all).len() == 0);
    } else {
        lemma_report_sums(infos, vms, answers, n - 1);
        let before = observability::all_usages(infos, answers, n - 1);
        let more = observability::usages(infos[n - 1], answers[n - 1]);
        assert(volumes_in(all) =~= volumes_in(before) + volumes_in(more));
        lemma_bytes_add(volumes_in(before), volumes_in(more));
        let a = answers[n - 1];
        if observability::answered(infos[n - 1], a) {
            assert(volumes_in(more) =~= a.volumes->0@);
        } else {
            assert(volumes_in(more).len() == 0);
        }
    }
}

/// What a report says of a cluster agrees with itself. The totals are those of the
/// volumes that it lists; a node has as many VMs as the list of VMs has of it, if
/// it is alive; and what it holds otherwise is what it answered, if it did.
pub proof fn law_reports_add_up(
    infos: Seq<NodeInfoView>,
    vms: Seq<RemoteVmView>,
    answers: Seq<NodeAnswer>,
    r: ClusterReport,
    i: int,
)
    requires
        observability::reports(infos, vms, answers, r),
        infos.len() <= answers.len(),
        vms.len() <= u32::MAX,
        0 <= i < infos.len(),
        forall|j: int|
            0 <= j < infos.len() ==> ((#[trigger] answers[j]).volumes matches Some(v) ==> v@.len()
                <= u32::MAX),
        forall|j: int|
            0 <= j < infos.len() ==> ((#[trigger] answers[j]).networks matches Some(v) ==> v@.len()
                <= u32::MAX),
    ensures
        r.nodes@.len() == infos.len(),
        r.total_volumes == r.volumes@.len(),
        ({
            let bytes = observability::bytes_of(
                Seq::new(r.volumes@.len(), |j: int| r.volumes@[j].volume),
            );
            r.total_volume_bytes == if bytes <= 0xFFFF_FFFF_FFFF_FFFF {
                bytes
            } else {
                0xFFFF_FFFF_FFFF_FFFF
            }
        }),
        ({
            let row = r.nodes@[i];
            let alive = infos[i].status == NodeStatus::Alive;
            &&& row.id@ == infos[i].id
            &&& row.addr@ == infos[i].addr
            &&& row.status == infos[i].status
            &&& row.reachable <==> alive && answers[i].volumes is Some
            &&& alive ==> row.vm_count == vms.filter(|v: RemoteVmView| v.owner == infos[i].id).len()
            &&& !alive ==> row.vm_count == 0
            &&& row.reachable ==> row.volume_count == answers[i].volumes->0@.len()
            &&& row.reachable && answers[i].networks is Some ==> row.network_count
                == answers[i].networks->0@.len()
            &&& !row.reachable ==> row.volume_count == 0 && row.network_count == 0
                && row.total_volume_bytes == 0
            &&& row.reachable && answers[i].networks is None ==> row.network_count == 0
        }),
{
    let rows = observability::rows_of(infos, vms, answers);
    let n = infos.len() as int;
    assert(observability::report_views(r.nodes@).len() == r.nodes@.len());
    assert(observability::report_views(r.nodes@)[i] == r.nodes@[i]@);
    lemma_report_sums(infos, vms, answers, n);
    let all = observability::all_usages(infos, answers, n);
    assert(observability::usage_views(r.volumes@).len() == r.volumes@.len());
    assert(Seq::new(r.volumes@.len(), |j: int| r.volumes@[j].volume) =~= volumes_in(all)) by {
        assert forall|j: int| 0 <= j < r.volumes@.len() implies r.volumes@[j].volume
            == volumes_in(all)[j] by {
            assert(observability::usage_views(r.volumes@)[j] == all[j]);
        }
    }
    lemma_owned(vms, infos[i].id);
    vms.lemma_filter_len(|v: RemoteVmView| v.owner == infos[i].id);
}

/// A node answered: it is alive, and its volumes came.
pub open spec fn replied(infos: Seq<NodeInfoView>, answers: Seq<NodeAnswer>, i: int) -> bool {
    infos[i].status == NodeStatus::Alive && answers[i].volumes is Some
}

/// A VM belongs to one of the first `n` nodes that answered.
pub open spec fn of_replied(
    infos: Seq<NodeInfoView>,
    answers: Seq<NodeAnswer>,
    n: int,
    v: RemoteVmView,
) -> bool {
    exists|i: int|
        0 <= i < n && #[trigger] replied(infos, answers, i) && infos[i].id == v.owner
}

proof fn lemma_sum_vms(
    infos: Seq<NodeInfoView>,
    vms: Seq<RemoteVmView>,
    answers: Seq<NodeAnswer>,
    n: int,
)
    requires
        0 <= n <= infos.len(),
        infos.len() <= answers.len(),
        vms.len() <= u32::MAX,
        forall|i: int, j: int|
            0 <= i < j < infos.len() ==> (#[trigger] infos[i]).id != (#[trigger] infos[j]).id,
    ensures
        observability::sum_vms(observability::rows_of(infos, vms, answers), n) == vms.filter(
            |v: RemoteVmView| of_replied(infos, answers, n, v),
        ).len(),
    decreases n,
{
    let rows = observability::rows_of(infos, vms, answers);
    let all = |v: RemoteVmView| of_replied(infos, answers, n, v);
    if n == 0 {
        lemma_none(vms, all);
    } else {
        lemma_sum_vms(infos, vms, answers, n - 1);
        let before = |v: RemoteVmView| of_replied(infos, answers, n - 1, v);
        let k = n - 1;
        let mine = |v: RemoteVmView| replied(infos, answers, k) && infos[k].id == v.owner;
        assert forall|v: RemoteVmView| #[trigger] all(v) <==> before(v) || mine(v) by {
            if all(v) {
                let i = choose|i: int|
                    0 <= i < n && #[trigger] replied(infos, answers, i) && infos[i].id == v.owner;
                if i < k {
                    assert(before(v));
                }
            }
            if mine(v) {
                assert(replied(infos, answers, k));
            }
        }
        assert forall|x: int| 0 <= x < vms.len() implies !(before(#[trigger] vms[x]) && mine(
            vms[x],
        )) by {
            if before(vms[x]) && mine(vms[x]) {
                let i = choose|i: int|
                    0 <= i < k && #[trigger] replied(infos, answers, i) && infos[i].id
                        == vms[x].owner;
                assert(infos[i].id != infos[k].id);
            }
        }
        lemma_either(vms, before, mine, all);
        let own = |v: RemoteVmView| v.owner == infos[k].id;
        lemma_owned(vms, infos[k].id);
        vms.lemma_filter_len(own);
        if replied(infos, answers, k) {
            lemma_same_filter(vms, mine, own);
        } else {
            lemma_none(vms, mine);
        }
    }
}

proof fn lemma_none<A>(s: Seq<A>, p: spec_fn(A) -> bool)
    requires
        forall|i: int| 0 <= i < s.len() ==> !p(#[trigger] s[i]),
    ensures
        s.filter(p).len() == 0,
    decreases s.len(),
{
    reveal(Seq::filter);
    if s.len() > 0 {
        let d = s.drop_last();
        assert forall|i: int| 0 <= i < d.len() implies !p(#[trigger] d[i]) by {
            assert(d[i] == s[i]);
        }
        lemma_none(d, p);
        assert(s[s.len() - 1] == s.last());
    }
}

proof fn lemma_same_filter<A>(s: Seq<A>, p: spec_fn(A) -> bool, q: spec_fn(A) -> bool)
    requires
        forall|x: A| #[trigger] p(x) == q(x),
    ensures
        s.filter(p).len() == s.filter(q).len(),
    decreases s.len(),
{
    reveal(Seq::filter);
    if s.len() > 0 {
        lemma_same_filter(s.drop_last(), p, q);
        assert(p(s.last()) == q(s.last()));
    }
}

proof fn lemma_volume_count(
    infos: Seq<NodeInfoView>,
    answers: Seq<NodeAnswer>,
    n: int,
    i: int,
    j: int,
)
    requires
        0 <= n <= infos.len(),
        0 <= i < n,
        replied(infos, answers, i),
        0 <= j < answers[i].volumes->0@.len(),
    ensures
        observability::all_usages(infos, answers, n).contains(
            (infos[i].id, answers[i].volumes->0@[j]),
        ),
    decreases n,
{
    let a = observability::all_usages(infos, answers, n - 1);
    let x = (infos[i].id, answers[i].volumes->0@[j]);
    let all = observability::all_usages(infos, answers, n);
    if i < n - 1 {
        lemma_volume_count(infos, answers, n - 1, i, j);
        let k = choose|k: int| 0 <= k < a.len() && a[k] == x;
        assert(all[k] == x);
    } else {
        assert(all[a.len() + j] == x);
    }
}

proof fn lemma_volume_origin(infos: Seq<NodeInfoView>, answers: Seq<NodeAnswer>, n: int, k: int) -> (
i: int)
    requires
        0 <= n <= infos.len(),
        0 <= k < observability::all_usages(infos, answers, n).len(),
    ensures
        0 <= i < n,
        replied(infos, answers, i),
        observability::all_usages(infos, answers, n)[k].0 == infos[i].id,
        answers[i].volumes->0@.contains(observability::all_usages(infos, answers, n)[k].1),
    decreases n,
{
    let a = observability::all_usages(infos, answers, n - 1);
    let all = observability::all_usages(infos, answers, n);
    if k < a.len() {
        assert(all[k] == a[k]);
        lemma_volume_origin(infos, answers, n - 1, k)
    } else {
        let m = observability::usages(infos[n - 1], answers[n - 1]);
        assert(all[k] == m[k - a.len()]);
        assert(answers[n - 1].volumes->0@[k - a.len()] == all[k].1);
        n - 1
    }
}

/// The VMs of a report are counted over the nodes that answered.
pub proof fn law_report_counts_vms(
    infos: Seq<NodeInfoView>,
    vms: Seq<RemoteVmView>,
    answers: Seq<NodeAnswer>,
    r: ClusterReport,
)
    requires
        observability::reports(infos, vms, answers, r),
        infos.len() <= answers.len(),
        vms.len() <= u32::MAX,
        forall|i: int, j: int|
            0 <= i < j < infos.len() ==> (#[trigger] infos[i]).id != (#[trigger] infos[j]).id,
    ensures
        r.total_vms == vms.filter(
            |v: RemoteVmView| of_replied(infos, answers, infos.len() as int, v),
        ).len(),
{
    lemma_sum_vms(infos, vms, answers, infos.len() as int);
}

/// Every volume that a node answered with is listed under that node, and no
/// others are.
pub proof fn law_report_lists_volumes(
    infos: Seq<NodeInfoView>,
    vms: Seq<RemoteVmView>,
    answers: Seq<NodeAnswer>,
    r: ClusterReport,
    i: int,
    j: int,
    k: int,
)
    requires
        observability::reports(infos, vms, answers, r),
        0 <= i < infos.len(),
    ensures
        replied(infos, answers, i) && 0 <= j < answers[i].volumes->0@.len() ==> exists|x: int|
            0 <= x < r.volumes@.len() && (#[trigger] r.volumes@[x]).node@ == infos[i].id
                && r.volumes@[x].volume == answers[i].volumes->0@[j],
        0 <= k < r.volumes@.len() ==> exists|x: int|
            0 <= x < infos.len() && #[trigger] replied(infos, answers, x) && r.volumes@[k].node@
                == infos[x].id && answers[x].volumes->0@.contains(r.volumes@[k].volume),
{
    let n = infos.len() as int;
    let all = observability::all_usages(infos, answers, n);
    let shown = observability::usage_views(r.volumes@);
    assert(shown.len() == r.volumes@.len());
    if replied(infos, answers, i) && 0 <= j < answers[i].volumes->0@.len() {
        lemma_volume_count(infos, answers, n, i, j);
        let x = choose|x: int|
            0 <= x < all.len() && all[x] == (infos[i].id, answers[i].volumes->0@[j]);
        assert(shown[x] == all[x]);
        assert(r.volumes@[x].node@ == infos[i].id);
    }
    if 0 <= k < r.volumes@.len() {
        let x = lemma_volume_origin(infos, answers, n, k);
        assert(shown[k] == all[k]);
        assert(replied(infos, answers, x));
    }
}

proof fn lemma_net_count(infos: Seq<NodeInfoView>, answers: Seq<NodeAnswer>, n: int, i: int, j: int)
    requires
        0 <= n <= infos.len(),
        0 <= i < n,
        replied(infos, answers, i),
        answers[i].networks is Some,
        0 <= j < answers[i].networks->0@.len(),
    ensures
        observability::all_nets(infos, answers, n).contains(answers[i].networks->0@[j]),
    decreases n,
{
    let a = observability::all_nets(infos, answers, n - 1);
    let x = answers[i].networks->0@[j];
    let all = observability::all_nets(infos, answers, n);
    if i < n - 1 {
        lemma_net_count(infos, answers, n - 1, i, j);
        let k = choose|k: int| 0 <= k < a.len() && a[k] == x;
        assert(all[k] == x);
    } else {
        assert(all[a.len() + j] == x);
    }
}

proof fn lemma_net_origin(infos: Seq<NodeInfoView>, answers: Seq<NodeAnswer>, n: int, k: int)
    requires
        0 <= n <= infos.len(),
        0 <= k < observability::all_nets(infos, answers, n).len(),
    ensures
        exists|i: int|
            0 <= i < n && #[trigger] replied(infos, answers, i) && answers[i].networks is Some
                && answers[i].networks->0@.contains(
                observability::all_nets(infos, answers, n)[k],
            ),
    decreases n,
{
    if n > 0 {
        let a = observability::all_nets(infos, answers, n - 1);
        let all = observability::all_nets(infos, answers, n);
        if k < a.len() {
            lemma_net_origin(infos, answers, n - 1, k);
            assert(all[k] == a[k]);
        } else {
            let m = observability::nets(infos[n - 1], answers[n - 1]);
            assert(all[k] == m[k - a.len()]);
            assert(replied(infos, answers, n - 1));
            assert(answers[n - 1].networks->0@[k - a.len()] == all[k]);
        }
    }
}

/// Every network that a node answered with is listed, and no others are.
pub proof fn law_report_lists_networks(
    infos: Seq<NodeInfoView>,
    vms: Seq<RemoteVmView>,
    answers: Seq<NodeAnswer>,
    r: ClusterReport,
    i: int,
    j: int,
    k: int,
)
    requires
        observability::reports(infos, vms, answers, r),
        0 <= i < infos.len(),
    ensures
        replied(infos, answers, i) && answers[i].networks is Some && 0 <= j
            < answers[i].networks->0@.len() ==> r.networks@.contains(answers[i].networks->0@[j]),
        0 <= k < r.networks@.len() ==> exists|x: int|
            0 <= x < infos.len() && #[trigger] replied(infos, answers, x) && answers[x].networks
                is Some && answers[x].networks->0@.contains(r.networks@[k]),
{
    let n = infos.len() as int;
    if replied(infos, answers, i) && answers[i].networks is Some && 0 <= j
        < answers[i].networks->0@.len() {
        lemma_net_count(infos, answers, n, i, j);
    }
    if 0 <= k < r.networks@.len() {
        lemma_net_origin(infos, answers, n, k);
    }
}

proof fn lemma_pass(infos: Seq<NodeInfoView>, answers: Seq<NodeAnswer>)
    requires
        answers.len() <= infos.len(),
    ensures
        ({
            let n = observability::passed_over(infos, answers);
            &&& answers.len() <= n.len() <= infos.len()
            &&& n.take(answers.len() as int) == answers
            &&& forall|j: int|
                answers.len() <= j < n.len() ==> infos[j].status != NodeStatus::Alive && (
                #[trigger] n[j]).volumes is None && n[j].networks is None
            &&& n.len() < infos.len() ==> infos[n.len() as int].status == NodeStatus::Alive
        }),
    decreases infos.len() - answers.len(),
{
    if answers.len() < infos.len() && infos[answers.len() as int].status != NodeStatus::Alive {
        let more = answers.push(observability::silence());
        lemma_pass(infos, more);
        let n = observability::passed_over(infos, more);
        assert forall|j: int| answers.len() <= j < n.len() implies infos[j].status
            != NodeStatus::Alive && (#[trigger] n[j]).volumes is None && n[j].networks is None by {
            if j == answers.len() {
                assert(n.take(more.len() as int)[j] == n[j]);
            }
        }
        assert(n.take(answers.len() as int) =~= answers) by {
            assert forall|j: int| 0 <= j < answers.len() implies n[j] == answers[j] by {
                assert(n.take(more.len() as int)[j] == n[j]);
            }
        }
    } else {
        assert(answers.take(answers.len() as int) =~= answers);
    }
}

/// A node that is alive is asked for its volumes and, once those have come, for
/// its networks. What it answers is kept under its place, and nobody else's
/// answer changes; who is not alive is passed over.
pub proof fn law_a_node_is_asked(
    p: PollView,
    first: Option<(NodeId, VmOp)>,
    reply: CelResult<VmOpReply>,
    second: Option<(NodeId, VmOp)>,
    reply2: CelResult<VmOpReply>,
    j: int,
)
    requires
        p.wf(),
        p.asks(),
        p.waiting is None,
        observability::asked(p, first),
        observability::asked(observability::polled(p, reply), second),
        0 <= j < p.answers.len(),
    ensures
        ({
            let k = p.answers.len() as int;
            let q = observability::polled(p, reply);
            let z = observability::polled(q, reply2);
            &&& first matches Some((id, op)) && id@ == p.infos[k].id && op is ListVolumes
            &&& p.infos[k].status == NodeStatus::Alive
            &&& q.infos == p.infos && q.vms == p.vms
            &&& reply matches Ok(VmOpReply::VolumesListed { volumes }) ==> q.answers == p.answers && (
            second matches Some((id, op)) && id@ == p.infos[k].id && op is ListNetworks)
                && z.answers[k].volumes == Some(volumes) && z.answers[j] == p.answers[j]
                && z.waiting is None && (reply2 matches Ok(VmOpReply::NetworksListed { networks })
                ==> z.answers[k].networks == Some(networks)) && (!(reply2 matches Ok(
                VmOpReply::NetworksListed { .. },
            )) ==> z.answers[k].networks is None)
            &&& !(reply matches Ok(VmOpReply::VolumesListed { .. })) ==> q.answers[k].volumes is None
                && q.answers[k].networks is None && q.answers[j] == p.answers[j] && q.waiting is None
        }),
{
    let k = p.answers.len() as int;
    let q = observability::polled(p, reply);
    let z = observability::polled(q, reply2);
    if reply matches Ok(VmOpReply::VolumesListed { .. }) {
        let volumes = reply->Ok_0->VolumesListed_volumes;
        let a = NodeAnswer {
            volumes: Some(volumes),
            networks: match reply2 {
                Ok(VmOpReply::NetworksListed { networks }) => Some(networks),
                _ => None,
            },
        };
        lemma_pass(p.infos, p.answers.push(a));
        assert(z.answers.take(k + 1)[k] == z.answers[k]);
        assert(z.answers.take(k + 1)[j] == z.answers[j]);
    } else {
        lemma_pass(p.infos, p.answers.push(observability::silence()));
        assert(q.answers.take(k + 1)[k] == q.answers[k]);
        assert(q.answers.take(k + 1)[j] == q.answers[j]);
    }
}

/// A report begins with every node and every VM that is known, the VMs with what
/// is known now of their owners. Nodes that are not alive are passed over; the
/// first that is alive is asked first.
pub proof fn law_report_begins(m: Mesh, n: Mesh, id: Seq<char>, k: Key, i: int)
    requires
        m.wf(),
        n.wf(),
        n@ == engine::with_liveness(m@),
    ensures
        ({
            let p = observability::poll_of(m@, n@);
            &&& m@.rows.dom().contains(id) ==> exists|x: int|
                0 <= x < p.infos.len() && (#[trigger] p.infos[x]) == m@.rows[id].info
            &&& 0 <= i < p.infos.len() ==> m@.rows.dom().contains(p.infos[i].id)
            &&& m@.vms.dom().contains(k) ==> exists|x: int|
                0 <= x < p.vms.len() && (#[trigger] p.vms[x]) == (RemoteVmView {
                    owner_alive: m@.vms[k].owner == m@.config.node_id@ || m@.alive(
                        m@.vms[k].owner,
                    ),
                    ..m@.vms[k]
                })
            &&& p.waiting is None
            &&& 0 <= i < p.answers.len() ==> p.infos[i].status != NodeStatus::Alive
                && p.answers[i].volumes is None && p.answers[i].networks is None
            &&& p.answers.len() < p.infos.len() ==> p.infos[p.answers.len() as int].status
                == NodeStatus::Alive
        }),
{
    let p = observability::poll_of(m@, n@);
    m.membership.lemma_ordered();
    n.federation.lemma_ordered();
    let all = membership::ordered(m@.rows);
    let none = Seq::<NodeAnswer>::empty();
    lemma_pass(p.infos, none);
    if m@.rows.dom().contains(id) {
        let x = choose|x: int| 0 <= x < all.len() && (#[trigger] all[x]).info.id == id;
        assert(all[x] == m@.rows[id]);
        assert(p.infos[x] == all[x].info);
    }
    if 0 <= i < p.infos.len() {
        assert(p.infos[i] == all[i].info);
    }
    let rows = federation::ordered(n@.vms);
    if m@.vms.dom().contains(k) {
        assert(n@.vms.dom().contains(k));
        let x = choose|x: int| 0 <= x < rows.len() && (#[trigger] rows[x]).key() == k;
        assert(rows[x] == n@.vms[k]);
        assert(p.vms[x] == rows[x]);
    }
}

} // verus!
