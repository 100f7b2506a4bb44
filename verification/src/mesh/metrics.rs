//! Counters of the gossip engine.

use vstd::prelude::*;
use vstd::string::*;

use crate::text;
use crate::text::push_decimal;

verus! {

/// The value of every counter at one instant.
#[derive(Debug, Clone, Copy, PartialEq, Eq, Structural)]
pub struct MeshMetricsSnapshot {
    /// Frames sent, of every kind, counted before they reach the transport.
    pub gossip_sent: u64,
    /// Frames received that decoded.
    pub gossip_recv: u64,
    /// Frames that did not decode.
    pub decode_errors: u64,
    /// Frames of another cluster.
    pub foreign_cluster_drops: u64,
    /// Nodes that went from alive to suspect.
    pub suspect_promotions: u64,
    /// Nodes that went to dead.
    pub dead_promotions: u64,
    /// Requests dispatched to the local host.
    pub rpc_in: u64,
    /// Requests sent.
    pub rpc_out: u64,
    /// Requests sent that ran out of time.
    pub rpc_timeouts: u64,
    /// Requests sent that came back with an error.
    pub rpc_errors: u64,
    /// Seeds added at run time.
    pub join_calls: u64,
    /// VMs that the supervisor recreated.
    pub supervisor_restarts: u64,
}

impl Default for MeshMetricsSnapshot {
    fn default() -> (r: MeshMetricsSnapshot)
        ensures
            r == zero(),
    {
        MeshMetricsSnapshot {
            gossip_sent: 0,
            gossip_recv: 0,
            decode_errors: 0,
            foreign_cluster_drops: 0,
            suspect_promotions: 0,
            dead_promotions: 0,
            rpc_in: 0,
            rpc_out: 0,
            rpc_timeouts: 0,
            rpc_errors: 0,
            join_calls: 0,
            supervisor_restarts: 0,
        }
    }
}

/// No counter has moved.
pub open spec fn zero() -> MeshMetricsSnapshot {
    MeshMetricsSnapshot {
        gossip_sent: 0,
        gossip_recv: 0,
        decode_errors: 0,
        foreign_cluster_drops: 0,
        suspect_promotions: 0,
        dead_promotions: 0,
        rpc_in: 0,
        rpc_out: 0,
        rpc_timeouts: 0,
        rpc_errors: 0,
        join_calls: 0,
        supervisor_restarts: 0,
    }
}

/// The exposition of one counter.
pub open spec fn line(name: Seq<char>, value: u64) -> Seq<char> {
    "# TYPE "@ + name + " counter\n"@ + name + " "@ + text::decimal(value as nat) + "\n"@
}

/// The exposition of every counter.
pub open spec fn exposition(s: MeshMetricsSnapshot) -> Seq<char> {
    line("celmesh_gossip_sent_total"@, s.gossip_sent)
        + line("celmesh_gossip_recv_total"@, s.gossip_recv)
        + line("celmesh_decode_errors_total"@, s.decode_errors)
        + line("celmesh_foreign_cluster_drops_total"@, s.foreign_cluster_drops)
        + line("celmesh_suspect_promotions_total"@, s.suspect_promotions)
        + line("celmesh_dead_promotions_total"@, s.dead_promotions)
        + line("celmesh_rpc_in_total"@, s.rpc_in)
        + line("celmesh_rpc_out_total"@, s.rpc_out)
        + line("celmesh_rpc_timeouts_total"@, s.rpc_timeouts)
        + line("celmesh_rpc_errors_total"@, s.rpc_errors)
        + line("celmesh_join_calls_total"@, s.join_calls)
        + line("celmesh_supervisor_restarts_total"@, s.supervisor_restarts)
}

/// Appends the exposition of one counter.
fn push_line(out: &mut String, name: &str, value: u64)
    ensures
        final(out)@ == old(out)@ + line(name@, value),
{
    let ghost before = out@;
    out.append("# TYPE ");
    out.append(name);
    out.append(" counter\n");
    out.append(name);
    out.append(" ");
    push_decimal(out, value);
    out.append("\n");
    assert(out@ =~= before + line(name@, value));
}

/// The counters of one engine. They wrap around, as counters of a fixed width
/// do.
#[derive(Debug)]
pub struct MeshMetrics {
    /// The values.
    pub values: MeshMetricsSnapshot,
}

impl Default for MeshMetrics {
    fn default() -> (r: MeshMetrics)
        ensures
            r.values == zero(),
    {
        MeshMetrics { values: MeshMetricsSnapshot::default() }
    }
}

impl MeshMetrics {
    /// Counters that have not moved.
    pub fn new() -> (r: MeshMetrics)
        ensures
            r.values == zero(),
    {
        MeshMetrics::default()
    }

    /// The value of every counter.
    pub fn snapshot(&self) -> (r: MeshMetricsSnapshot)
        ensures
            r == self.values,
    {
        self.values
    }

    /// The counters in the text format that Prometheus scrapes.
    pub fn render_prometheus(&self) -> (r: String)
        ensures
            r@ == exposition(self.values),
    {
        let s = self.snapshot();
        let mut out = String::new();
        push_line(&mut out, "celmesh_gossip_sent_total", s.gossip_sent);
        push_line(&mut out, "celmesh_gossip_recv_total", s.gossip_recv);
        push_line(&mut out, "celmesh_decode_errors_total", s.decode_errors);
        push_line(&mut out, "celmesh_foreign_cluster_drops_total", s.foreign_cluster_drops);
        push_line(&mut out, "celmesh_suspect_promotions_total", s.suspect_promotions);
        push_line(&mut out, "celmesh_dead_promotions_total", s.dead_promotions);
        push_line(&mut out, "celmesh_rpc_in_total", s.rpc_in);
        push_line(&mut out, "celmesh_rpc_out_total", s.rpc_out);
        push_line(&mut out, "celmesh_rpc_timeouts_total", s.rpc_timeouts);
        push_line(&mut out, "celmesh_rpc_errors_total", s.rpc_errors);
        push_line(&mut out, "celmesh_join_calls_total", s.join_calls);
        push_line(&mut out, "celmesh_supervisor_restarts_total", s.supervisor_restarts);
        assert(out@ =~= exposition(self.values));
        out
    }

    /// Counts one more: frames sent.
    pub fn inc_gossip_sent(&mut self)
        ensures
            final(self).values == (MeshMetricsSnapshot {
                gossip_sent: old(self).values.gossip_sent.wrapping_add(1),
                ..old(self).values
            }),
    {
        self.values.gossip_sent = self.values.gossip_sent.wrapping_add(1);
    }

    /// Counts `n` more: frames sent.
    pub fn count_gossip_sent(&mut self, n: u64)
        ensures
            final(self).values == (MeshMetricsSnapshot {
                gossip_sent: old(self).values.gossip_sent.wrapping_add(n),
                ..old(self).values
            }),
    {
        self.values.gossip_sent = self.values.gossip_sent.wrapping_add(n);
    }

    /// Counts one more: frames received that decoded.
    pub fn inc_gossip_recv(&mut self)
        ensures
            final(self).values == (MeshMetricsSnapshot {
                gossip_recv: old(self).values.gossip_recv.wrapping_add(1),
                ..old(self).values
            }),
    {
        self.values.gossip_recv = self.values.gossip_recv.wrapping_add(1);
    }

    /// Counts one more: frames that did not decode.
    pub fn inc_decode_errors(&mut self)
        ensures
            final(self).values == (MeshMetricsSnapshot {
                decode_errors: old(self).values.decode_errors.wrapping_add(1),
                ..old(self).values
            }),
    {
        self.values.decode_errors = self.values.decode_errors.wrapping_add(1);
    }

    /// Counts one more: frames of another cluster.
    pub fn inc_foreign_cluster_drops(&mut self)
        ensures
            final(self).values == (MeshMetricsSnapshot {
                foreign_cluster_drops: old(self).values.foreign_cluster_drops.wrapping_add(1),
                ..old(self).values
            }),
    {
        self.values.foreign_cluster_drops = self.values.foreign_cluster_drops.wrapping_add(1);
    }

    /// Counts `n` more: nodes that went from alive to suspect.
    pub fn inc_suspect_promotions(&mut self, n: u64)
        ensures
            final(self).values == (MeshMetricsSnapshot {
                suspect_promotions: old(self).values.suspect_promotions.wrapping_add(n),
                ..old(self).values
            }),
    {
        self.values.suspect_promotions = self.values.suspect_promotions.wrapping_add(n);
    }

    /// Counts `n` more: nodes that went to dead.
    pub fn inc_dead_promotions(&mut self, n: u64)
        ensures
            final(self).values == (MeshMetricsSnapshot {
                dead_promotions: old(self).values.dead_promotions.wrapping_add(n),
                ..old(self).values
            }),
    {
        self.values.dead_promotions = self.values.dead_promotions.wrapping_add(n);
    }

    /// Counts one more: requests dispatched to the local host.
    pub fn inc_rpc_in(&mut self)
        ensures
            final(self).values == (MeshMetricsSnapshot {
                rpc_in: old(self).values.rpc_in.wrapping_add(1),
                ..old(self).values
            }),
    {
        self.values.rpc_in = self.values.rpc_in.wrapping_add(1);
    }

    /// Counts one more: requests sent.
    pub fn inc_rpc_out(&mut self)
        ensures
            final(self).values == (MeshMetricsSnapshot {
                rpc_out: old(self).values.rpc_out.wrapping_add(1),
                ..old(self).values
            }),
    {
        self.values.rpc_out = self.values.rpc_out.wrapping_add(1);
    }

    /// Counts one more: requests sent that ran out of time.
    pub fn inc_rpc_timeouts(&mut self)
        ensures
            final(self).values == (MeshMetricsSnapshot {
                rpc_timeouts: old(self).values.rpc_timeouts.wrapping_add(1),
                ..old(self).values
            }),
    {
        self.values.rpc_timeouts = self.values.rpc_timeouts.wrapping_add(1);
    }

    /// Counts one more: requests sent that came back with an error.
    pub fn inc_rpc_errors(&mut self)
        ensures
            final(self).values == (MeshMetricsSnapshot {
                rpc_errors: old(self).values.rpc_errors.wrapping_add(1),
                ..old(self).values
            }),
    {
        self.values.rpc_errors = self.values.rpc_errors.wrapping_add(1);
    }

    /// Counts one more: seeds added at run time.
    pub fn inc_join_calls(&mut self)
        ensures
            final(self).values == (MeshMetricsSnapshot {
                join_calls: old(self).values.join_calls.wrapping_add(1),
                ..old(self).values
            }),
    {
        self.values.join_calls = self.values.join_calls.wrapping_add(1);
    }

    /// Counts `n` more: vMs that the supervisor recreated.
    pub fn inc_supervisor_restarts(&mut self, n: u64)
        ensures
            final(self).values == (MeshMetricsSnapshot {
                supervisor_restarts: old(self).values.supervisor_restarts.wrapping_add(n),
                ..old(self).values
            }),
    {
        self.values.supervisor_restarts = self.values.supervisor_restarts.wrapping_add(n);
    }
}

} // verus!
