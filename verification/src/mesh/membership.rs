//! Membership table.
//!
//! Every node keeps one row per node it has heard of. Rows arrive by gossip
//! and merge by last writer wins on the pair of epoch and clock. A row whose
//! node stays quiet becomes suspect, then dead. Moments and durations are
//! nanoseconds on the caller's monotonic clock.

use vstd::prelude::*;

use crate::mesh::table;
use crate::mesh::table::{Key, Table};
use crate::text::str_eq;

verus! {

/// Stable identifier of a node.
#[derive(Debug, PartialEq, Eq, PartialOrd, Ord, Hash)]
pub struct NodeId(pub String);

impl View for NodeId {
    type V = Seq<char>;

    open spec fn view(&self) -> Seq<char> {
        self.0@
    }
}

impl Clone for NodeId {
    fn clone(&self) -> (r: NodeId)
        ensures
            r == *self,
    {
        NodeId(self.0.clone())
    }
}

impl<'a> From<&'a str> for NodeId {
    fn from(s: &'a str) -> (r: NodeId)
        ensures
            r@ == s@,
    {
        NodeId(s.to_owned())
    }
}

// Identifiers are told apart by their views, so the conversion is described by
// the clause above and not by a value.
impl<'a> vstd::std_specs::convert::FromSpecImpl<&'a str> for NodeId {
    open spec fn obeys_from_spec() -> bool {
        false
    }

    open spec fn from_spec(s: &'a str) -> NodeId {
        arbitrary()
    }
}

impl NodeId {
    /// Builds an identifier from text.
    pub fn named(s: &str) -> (r: NodeId)
        ensures
            r@ == s@,
    {
        NodeId(s.to_owned())
    }

    /// The identifier as text.
    pub fn as_str(&self) -> (r: &str)
        ensures
            r@ == self@,
    {
        self.0.as_str()
    }

    /// Whether two identifiers are the same.
    pub fn same(&self, other: &NodeId) -> (r: bool)
        ensures
            r == (self@ == other@),
    {
        str_eq(self.0.as_str(), other.0.as_str())
    }
}

/// Health of a node.
#[derive(Debug, Clone, Copy, PartialEq, Eq, Structural)]
pub enum NodeStatus {
    /// Heard from recently.
    Alive,
    /// Quiet for a while.
    Suspect,
    /// Quiet for too long.
    Dead,
    /// Departed on its own.
    Left,
}

/// One row of the membership table, as it is gossiped.
#[derive(Debug, PartialEq, Eq)]
pub struct NodeInfo {
    /// Node.
    pub id: NodeId,
    /// Address at which peers reach the node.
    pub addr: String,
    /// Restart counter of the node.
    pub epoch: u64,
    /// Clock of the node when it last changed the row.
    pub hlc: u64,
    /// Health.
    pub status: NodeStatus,
}

/// Mathematical value of a [`NodeInfo`].
#[verifier::ext_equal]
pub struct NodeInfoView {
    /// See [`NodeInfo::id`].
    pub id: Seq<char>,
    /// See [`NodeInfo::addr`].
    pub addr: Seq<char>,
    /// See [`NodeInfo::epoch`].
    pub epoch: u64,
    /// See [`NodeInfo::hlc`].
    pub hlc: u64,
    /// See [`NodeInfo::status`].
    pub status: NodeStatus,
}

impl View for NodeInfo {
    type V = NodeInfoView;

    open spec fn view(&self) -> NodeInfoView {
        NodeInfoView {
            id: self.id@,
            addr: self.addr@,
            epoch: self.epoch,
            hlc: self.hlc,
            status: self.status,
        }
    }
}

impl Clone for NodeInfo {
    fn clone(&self) -> (r: NodeInfo)
        ensures
            r == *self,
    {
        NodeInfo {
            id: self.id.clone(),
            addr: self.addr.clone(),
            epoch: self.epoch,
            hlc: self.hlc,
            status: self.status,
        }
    }
}

/// Whether the stamp of `a` is strictly newer than that of `b`: a later epoch,
/// or a later clock in the same epoch.
pub open spec fn newer(a: NodeInfoView, b: NodeInfoView) -> bool {
    a.epoch > b.epoch || (a.epoch == b.epoch && a.hlc > b.hlc)
}

impl NodeInfo {
    /// Whether this row is strictly newer than another.
    pub fn supersedes(&self, other: &NodeInfo) -> (r: bool)
        ensures
            r == newer(self@, other@),
    {
        self.epoch > other.epoch || (self.epoch == other.epoch && self.hlc > other.hlc)
    }
}

/// A row and the moment when its node was last heard.
#[derive(Debug)]
pub struct MemberRow {
    /// The row.
    pub info: NodeInfo,
    /// When the node was last heard.
    pub last_seen: u128,
}

/// Mathematical value of a [`MemberRow`].
#[verifier::ext_equal]
pub struct MemberRowView {
    /// See [`MemberRow::info`].
    pub info: NodeInfoView,
    /// See [`MemberRow::last_seen`].
    pub last_seen: u128,
}

impl View for MemberRow {
    type V = MemberRowView;

    open spec fn view(&self) -> MemberRowView {
        MemberRowView { info: self.info@, last_seen: self.last_seen }
    }
}

/// What the failure detector changed in one pass.
#[derive(Debug, Clone, Copy, PartialEq, Eq, Structural)]
pub struct TickDelta {
    /// Rows whose status changed.
    pub state_changes: usize,
    /// Those that went from alive to suspect.
    pub suspect_promotions: usize,
    /// Those that went to dead.
    pub dead_promotions: usize,
}

impl Default for TickDelta {
    fn default() -> (r: TickDelta)
        ensures
            r == (TickDelta { state_changes: 0, suspect_promotions: 0, dead_promotions: 0 }),
    {
        TickDelta { state_changes: 0, suspect_promotions: 0, dead_promotions: 0 }
    }
}

/// Membership table of one node.
#[derive(Debug)]
pub struct Membership {
    /// This node.
    pub self_id: NodeId,
    /// Name of the cluster.
    pub cluster: String,
    /// Rows by node.
    pub rows: Table<MemberRow>,
    /// A node that is silent for longer is suspect.
    pub timeout_suspect: u128,
    /// Silence after which a node is dead.
    pub timeout_dead: u128,
}

/// The status that silence gives to a row.
pub open spec fn status_after(elapsed: int, suspect: u128, dead: u128) -> NodeStatus {
    if elapsed >= dead {
        NodeStatus::Dead
    } else if elapsed > suspect {
        NodeStatus::Suspect
    } else {
        NodeStatus::Alive
    }
}

/// A row after one pass of the failure detector at `now`.
pub open spec fn ticked(
    row: MemberRowView,
    self_id: Seq<char>,
    now: u128,
    suspect: u128,
    dead: u128,
) -> MemberRowView {
    if row.info.id == self_id || row.info.status == NodeStatus::Left || row.info.status
        == NodeStatus::Dead {
        row
    } else {
        let elapsed = if now >= row.last_seen {
            now - row.last_seen
        } else {
            0
        };
        MemberRowView {
            info: NodeInfoView {
                status: status_after(elapsed, suspect, dead),
                ..row.info
            },
            ..row
        }
    }
}

/// How many of the first `n` rows changed from `before` to `after`: all
/// changes, those from alive to suspect, those to dead.
pub open spec fn changes(before: Seq<MemberRowView>, after: Seq<MemberRowView>, n: int) -> (
    int,
    int,
    int,
)
    decreases n,
{
    if n <= 0 {
        (0, 0, 0)
    } else {
        let c = changes(before, after, n - 1);
        let a = before[n - 1].info.status;
        let b = after[n - 1].info.status;
        if a == b {
            c
        } else {
            (
                c.0 + 1,
                c.1 + if a == NodeStatus::Alive && b == NodeStatus::Suspect {
                    1int
                } else {
                    0int
                },
                c.2 + if b == NodeStatus::Dead {
                    1int
                } else {
                    0int
                },
            )
        }
    }
}

/// How many of the first `n` rows have a given status.
pub open spec fn count_status(rows: Seq<MemberRowView>, status: NodeStatus, n: int) -> int
    decreases n,
{
    if n <= 0 {
        0
    } else {
        count_status(rows, status, n - 1) + if rows[n - 1].info.status == status {
            1int
        } else {
            0int
        }
    }
}

/// The rows by node.
pub type Rows = Map<Seq<char>, MemberRowView>;

/// What a merge does to the rows of a node.
pub open spec fn merged(rows: Rows, self_id: Seq<char>, incoming: NodeInfoView, now: u128) -> (
    Rows,
    bool,
) {
    if incoming.id == self_id {
        (rows, false)
    } else if !rows.dom().contains(incoming.id) || newer(incoming, rows[incoming.id].info) {
        (rows.insert(incoming.id, MemberRowView { info: incoming, last_seen: now }), true)
    } else {
        (
            rows.insert(
                incoming.id,
                MemberRowView { last_seen: now, ..rows[incoming.id] },
            ),
            false,
        )
    }
}

impl Membership {
    /// The rows in the order of their nodes.
    pub open spec fn listing(&self) -> Seq<MemberRowView> {
        Seq::new(self.rows.entries@.len(), |i: int| self.rows.entries@[i].val@)
    }

    /// The rows by node.
    pub open spec fn view(&self) -> Rows {
        Map::new(
            |id: Seq<char>| self.rows.map().dom().contains((id, 0u32)),
            |id: Seq<char>| self.rows.map()[(id, 0u32)]@,
        )
    }

    /// Rows stand in order under the names of their nodes, and this node has
    /// one.
    pub open spec fn wf(&self) -> bool {
        &&& self.rows.wf()
        &&& forall|i: int|
            0 <= i < self.rows.entries@.len() ==> (#[trigger] self.rows.entries@[i]).num == 0
                && self.rows.entries@[i].name@ == self.rows.entries@[i].val.info.id@
        &&& self@.dom().contains(self.self_id@)
    }

    /// The settings are those of another table.
    pub open spec fn same_settings(&self, other: &Membership) -> bool {
        &&& self.self_id == other.self_id
        &&& self.cluster == other.cluster
        &&& self.timeout_suspect == other.timeout_suspect
        &&& self.timeout_dead == other.timeout_dead
    }

    /// A row of the listing is the row of its node, and the other way round.
    pub proof fn lemma_listing(&self)
        requires
            self.wf(),
        ensures
            forall|i: int|
                0 <= i < self.listing().len() ==> self@.dom().contains(
                    (#[trigger] self.listing()[i]).info.id,
                ) && self@[self.listing()[i].info.id] == self.listing()[i],
            forall|id: Seq<char>| #[trigger]
                self@.dom().contains(id) ==> exists|i: int|
                    0 <= i < self.listing().len() && (#[trigger] self.listing()[i]).info.id == id,
            forall|i: int, j: int|
                0 <= i < j < self.listing().len() ==> table::name_before(
                    (#[trigger] self.listing()[i]).info.id,
                    (#[trigger] self.listing()[j]).info.id,
                ),
    {
        assert forall|i: int| 0 <= i < self.listing().len() implies self@.dom().contains(
            (#[trigger] self.listing()[i]).info.id,
        ) && self@[self.listing()[i].info.id] == self.listing()[i] by {
            self.rows.lemma_entry(i);
        }
        assert forall|id: Seq<char>| #[trigger] self@.dom().contains(id) implies exists|i: int|
            0 <= i < self.listing().len() && (#[trigger] self.listing()[i]).info.id == id by {
            let i = self.rows.lemma_key((id, 0u32));
            assert(self.listing()[i].info.id == id);
        }
        assert forall|i: int, j: int| 0 <= i < j < self.listing().len() implies table::name_before(
            (#[trigger] self.listing()[i]).info.id,
            (#[trigger] self.listing()[j]).info.id,
        ) by {
            assert(table::key_before(self.rows.entries@[i].key(), self.rows.entries@[j].key()));
        }
    }

    /// A table with this node's own row.
    pub fn new(
        cluster: &str,
        self_info: NodeInfo,
        timeout_suspect: u128,
        timeout_dead: u128,
        now: u128,
    ) -> (r: Membership)
        ensures
            r.wf(),
            r.self_id@ == self_info.id@,
            r.cluster@ == cluster@,
            r.timeout_suspect == timeout_suspect,
            r.timeout_dead == timeout_dead,
            r@ == Map::<Seq<char>, MemberRowView>::empty().insert(
                self_info.id@,
                MemberRowView { info: self_info@, last_seen: now },
            ),
    {
        let self_id = self_info.id.clone();
        let mut rows: Table<MemberRow> = Table::new();
        let ghost empty = rows;
        let ghost id = self_info.id@;
        let ghost info = self_info@;
        rows.insert(self_id.0.clone(), 0, MemberRow { info: self_info, last_seen: now });
        let r = Membership {
            self_id,
            cluster: cluster.to_owned(),
            rows,
            timeout_suspect,
            timeout_dead,
        };
        proof {
            lemma_after_insert(r.rows, empty, id, r.rows.map()[(id, 0u32)]);
            assert(r@ =~= Map::<Seq<char>, MemberRowView>::empty().insert(
                id,
                MemberRowView { info, last_seen: now },
            ));
        }
        r
    }

    /// This node.
    pub fn self_id(&self) -> (r: &NodeId)
        ensures
            *r == self.self_id,
    {
        &self.self_id
    }

    /// Name of the cluster.
    pub fn cluster(&self) -> (r: &str)
        ensures
            r@ == self.cluster@,
    {
        self.cluster.as_str()
    }

    /// Every row, in the order of the nodes.
    pub fn snapshot(&self) -> (r: Vec<NodeInfo>)
        ensures
            r@.len() == self.listing().len(),
            forall|i: int|
                0 <= i < r@.len() ==> (#[trigger] r@[i])@ == self.listing()[i].info,
    {
        let mut out: Vec<NodeInfo> = Vec::new();
        let mut i: usize = 0;
        while i < self.rows.entries.len()
            invariant
                i <= self.rows.entries@.len(),
                out@.len() == i,
                forall|j: int| 0 <= j < i ==> (#[trigger] out@[j])@ == self.listing()[j].info,
            decreases self.rows.entries@.len() - i,
        {
            out.push(self.rows.entries[i].val.info.clone());
            i = i + 1;
        }
        out
    }

    /// Number of rows with a given status.
    pub fn count(&self, status: NodeStatus) -> (r: usize)
        ensures
            r == count_status(self.listing(), status, self.listing().len() as int),
    {
        let mut n: usize = 0;
        let mut i: usize = 0;
        while i < self.rows.entries.len()
            invariant
                i <= self.rows.entries@.len(),
                n <= i,
                n == count_status(self.listing(), status, i as int),
            decreases self.rows.entries@.len() - i,
        {
            if self.rows.entries[i].val.info.status == status {
                n = n + 1;
            }
            i = i + 1;
        }
        n
    }

    /// Number of rows that are alive, this node included.
    pub fn alive_count(&self) -> (r: usize)
        ensures
            r == count_status(self.listing(), NodeStatus::Alive, self.listing().len() as int),
    {
        self.count(NodeStatus::Alive)
    }

    /// Row of a node.
    pub fn get(&self, id: &NodeId) -> (r: Option<&NodeInfo>)
        requires
            self.wf(),
        ensures
            match r {
                Some(info) => self@.dom().contains(id@) && info@ == self@[id@].info,
                None => !self@.dom().contains(id@),
            },
    {
        match self.rows.get(id.as_str(), 0) {
            Some(row) => Some(&row.info),
            None => None,
        }
    }

    /// Replaces or adds the row of a node.
    fn put(&mut self, row: MemberRow)
        requires
            old(self).wf(),
        ensures
            final(self).wf(),
            final(self).same_settings(old(self)),
            final(self)@ == old(self)@.insert(row.info.id@, row@),
    {
        let ghost before = self.rows;
        let ghost id = row.info.id@;
        let ghost value = row@;
        let name = row.info.id.0.clone();
        self.rows.insert(name, 0, row);
        proof {
            lemma_after_insert(self.rows, before, id, row);
            assert(self@ =~= old(self)@.insert(id, value));
        }
    }

    /// Raises this node's own clock and marks it alive and heard.
    pub fn bump_self(&mut self, hlc: u64, now: u128)
        requires
            old(self).wf(),
        ensures
            final(self).wf(),
            final(self).same_settings(old(self)),
            final(self)@ == old(self)@.insert(
                old(self).self_id@,
                bumped(old(self)@[old(self).self_id@], hlc, now),
            ),
    {
        let row = match self.rows.get(self.self_id.as_str(), 0) {
            Some(row) => {
                let mut info = row.info.clone();
                if hlc > info.hlc {
                    info.hlc = hlc;
                }
                info.status = NodeStatus::Alive;
                MemberRow { info, last_seen: now }
            },
            None => {
                assert(false);
                return;
            },
        };
        proof {
            self.lemma_self_row();
        }
        self.put(row);
    }

    /// The row under a name is the row of that node.
    proof fn lemma_self_row(&self)
        requires
            self.wf(),
        ensures
            forall|id: Seq<char>| #[trigger]
                self@.dom().contains(id) ==> self@[id].info.id == id,
    {
        assert forall|id: Seq<char>| #[trigger] self@.dom().contains(id) implies self@[id].info.id
            == id by {
            let i = self.rows.lemma_key((id, 0u32));
        }
    }

    /// Merges a row that came in. The newer stamp wins; a row that is not newer
    /// still counts as a sign of life. This node's own row is never touched.
    pub fn merge(&mut self, incoming: NodeInfo, now: u128) -> (r: bool)
        requires
            old(self).wf(),
        ensures
            final(self).wf(),
            final(self).same_settings(old(self)),
            (final(self)@, r) == merged(old(self)@, old(self).self_id@, incoming@, now),
    {
        if incoming.id.same(&self.self_id) {
            return false;
        }
        proof {
            self.lemma_self_row();
        }
        match self.rows.get(incoming.id.as_str(), 0) {
            None => {
                self.put(MemberRow { info: incoming, last_seen: now });
                true
            },
            Some(existing) => {
                if incoming.supersedes(&existing.info) {
                    self.put(MemberRow { info: incoming, last_seen: now });
                    true
                } else {
                    let info = existing.info.clone();
                    self.put(MemberRow { info, last_seen: now });
                    false
                }
            },
        }
    }

    /// Marks a node as departed. This node itself and unknown nodes stay as
    /// they are.
    pub fn mark_left(&mut self, id: &NodeId)
        requires
            old(self).wf(),
        ensures
            final(self).wf(),
            final(self).same_settings(old(self)),
            final(self)@ == left(old(self)@, old(self).self_id@, id@),
    {
        if id.same(&self.self_id) {
            return;
        }
        proof {
            self.lemma_self_row();
        }
        match self.rows.get(id.as_str(), 0) {
            None => {},
            Some(existing) => {
                let mut info = existing.info.clone();
                info.status = NodeStatus::Left;
                let last_seen: u128 = existing.last_seen;
                self.put(MemberRow { info, last_seen });
            },
        }
    }

    /// Runs the failure detector at `now`.
    pub fn tick(&mut self, now: u128) -> (r: TickDelta)
        requires
            old(self).wf(),
        ensures
            final(self).wf(),
            final(self).same_settings(old(self)),
            final(self).listing() == Seq::new(
                old(self).listing().len(),
                |i: int|
                    ticked(
                        old(self).listing()[i],
                        old(self).self_id@,
                        now,
                        old(self).timeout_suspect,
                        old(self).timeout_dead,
                    ),
            ),
            (r.state_changes as int, r.suspect_promotions as int, r.dead_promotions as int)
                == changes(
                old(self).listing(),
                final(self).listing(),
                old(self).listing().len() as int,
            ),
    {
        let ghost before = self.listing();
        let ghost me = self.self_id@;
        let ghost (ts, td) = (self.timeout_suspect, self.timeout_dead);
        let ghost want = Seq::new(before.len(), |i: int| ticked(before[i], me, now, ts, td));
        let mut delta = TickDelta::default();
        let mut i: usize = 0;
        while i < self.rows.entries.len()
            invariant
                i <= self.rows.entries@.len(),
                self.rows.entries@.len() == before.len(),
                self.wf(),
                self.same_settings(old(self)),
                me == self.self_id@,
                ts == self.timeout_suspect,
                td == self.timeout_dead,
                want == Seq::new(before.len(), |j: int| ticked(before[j], me, now, ts, td)),
                forall|j: int| 0 <= j < i ==> (#[trigger] self.listing()[j]) == want[j],
                forall|j: int|
                    i <= j < before.len() ==> (#[trigger] self.listing()[j]) == before[j],
                (
                    delta.state_changes as int,
                    delta.suspect_promotions as int,
                    delta.dead_promotions as int,
                ) == changes(before, want, i as int),
                delta.state_changes <= i,
                delta.suspect_promotions <= i,
                delta.dead_promotions <= i,
            decreases before.len() - i,
        {
            let row = &self.rows.entries[i].val;
            let status = row.info.status;
            assert(self.listing()[i as int] == before[i as int]);
            if !row.info.id.same(&self.self_id) && status != NodeStatus::Left && status
                != NodeStatus::Dead {
                let elapsed: u128 = if now >= row.last_seen {
                    now - row.last_seen
                } else {
                    0
                };
                let next = if elapsed >= self.timeout_dead {
                    NodeStatus::Dead
                } else if elapsed > self.timeout_suspect {
                    NodeStatus::Suspect
                } else {
                    NodeStatus::Alive
                };
                if next != status {
                    delta.state_changes = delta.state_changes + 1;
                    if status == NodeStatus::Alive && next == NodeStatus::Suspect {
                        delta.suspect_promotions = delta.suspect_promotions + 1;
                    }
                    if next == NodeStatus::Dead {
                        delta.dead_promotions = delta.dead_promotions + 1;
                    }
                    let mut info = row.info.clone();
                    info.status = next;
                    let last_seen: u128 = row.last_seen;
                    let ghost prev = *self;
                    self.rows.set_at(i, MemberRow { info, last_seen });
                    proof {
                        prev.lemma_listing();
                        let id = prev.rows.entries@[i as int].name@;
                        assert(self@.dom() =~= prev@.dom()) by {
                            prev.rows.lemma_entry(i as int);
                            assert(prev.rows.map().dom().contains((id, 0u32)));
                        }
                        assert forall|j: int| 0 <= j < self.rows.entries@.len() implies (
                        #[trigger] self.rows.entries@[j]).num == 0 && self.rows.entries@[j].name@
                            == self.rows.entries@[j].val.info.id@ by {
                            assert(self.rows.entries@[j].key() == prev.rows.entries@[j].key());
                            if j != i {
                                assert(self.rows.entries@[j] == prev.rows.entries@[j]);
                            }
                        }
                        assert forall|j: int| 0 <= j < before.len() && j != i implies (
                        #[trigger] self.listing()[j]) == prev.listing()[j] by {
                            assert(self.rows.entries@[j] == prev.rows.entries@[j]);
                        }
                    }
                }
            }
            assert(self.listing()[i as int] == want[i as int]);
            i = i + 1;
        }
        assert(self.listing() =~= want);
        delta
    }
}

/// This node's row once its clock was raised.
pub open spec fn bumped(row: MemberRowView, hlc: u64, now: u128) -> MemberRowView {
    MemberRowView {
        info: NodeInfoView {
            hlc: if hlc > row.info.hlc {
                hlc
            } else {
                row.info.hlc
            },
            status: NodeStatus::Alive,
            ..row.info
        },
        last_seen: now,
    }
}

/// The rows once a node has departed.
pub open spec fn left(rows: Rows, self_id: Seq<char>, id: Seq<char>) -> Rows {
    if id == self_id || !rows.dom().contains(id) {
        rows
    } else {
        rows.insert(
            id,
            MemberRowView {
                info: NodeInfoView { status: NodeStatus::Left, ..rows[id].info },
                ..rows[id]
            },
        )
    }
}

/// Inserting a row under its node's name keeps the table in order.
proof fn lemma_after_insert(
    after: Table<MemberRow>,
    before: Table<MemberRow>,
    id: Seq<char>,
    row: MemberRow,
)
    requires
        before.wf(),
        after.wf(),
        after.map() == before.map().insert((id, 0u32), row),
        row.info.id@ == id,
        forall|i: int|
            0 <= i < before.entries@.len() ==> (#[trigger] before.entries@[i]).num == 0
                && before.entries@[i].name@ == before.entries@[i].val.info.id@,
    ensures
        forall|i: int|
            0 <= i < after.entries@.len() ==> (#[trigger] after.entries@[i]).num == 0
                && after.entries@[i].name@ == after.entries@[i].val.info.id@,
{
    assert forall|i: int| 0 <= i < after.entries@.len() implies (#[trigger] after.entries@[i]).num
        == 0 && after.entries@[i].name@ == after.entries@[i].val.info.id@ by {
        after.lemma_entry(i);
        let k = after.entries@[i].key();
        if k != (id, 0u32) {
            let j = before.lemma_key(k);
            assert(before.entries@[j].val == after.entries@[i].val);
        }
    }
}

/// A peer can never change this node's own row.
pub proof fn law_merge_spares_self(rows: Rows, self_id: Seq<char>, incoming: NodeInfoView, now: u128)
    requires
        rows.dom().contains(self_id),
    ensures
        merged(rows, self_id, incoming, now).0.dom().contains(self_id),
        merged(rows, self_id, incoming, now).0[self_id] == rows[self_id],
{
}

/// Merging the same row twice is merging it once.
pub proof fn law_merge_idempotent(rows: Rows, self_id: Seq<char>, incoming: NodeInfoView, now: u128)
    ensures
        merged(merged(rows, self_id, incoming, now).0, self_id, incoming, now) == (
            merged(rows, self_id, incoming, now).0,
            false,
        ),
{
    let once = merged(rows, self_id, incoming, now).0;
    let twice = merged(once, self_id, incoming, now).0;
    assert(twice =~= once);
}

/// The order in which two rows arrive does not matter, unless they speak of
/// one node with one stamp.
pub proof fn law_merge_commutes(
    rows: Rows,
    self_id: Seq<char>,
    a: NodeInfoView,
    b: NodeInfoView,
    now: u128,
)
    requires
        a.id != b.id || newer(a, b) || newer(b, a),
    ensures
        merged(merged(rows, self_id, a, now).0, self_id, b, now).0 == merged(
            merged(rows, self_id, b, now).0,
            self_id,
            a,
            now,
        ).0,
{
    let ab = merged(merged(rows, self_id, a, now).0, self_id, b, now).0;
    let ba = merged(merged(rows, self_id, b, now).0, self_id, a, now).0;
    assert(ab =~= ba);
}

/// A restart wins over anything that came before it, whatever the clocks say.
pub proof fn law_restart_wins(rows: Rows, self_id: Seq<char>, incoming: NodeInfoView, now: u128)
    requires
        incoming.id != self_id,
        rows.dom().contains(incoming.id) ==> incoming.epoch > rows[incoming.id].info.epoch,
    ensures
        merged(rows, self_id, incoming, now).0[incoming.id].info == incoming,
        merged(rows, self_id, incoming, now).1,
{
}

/// The failure detector never brings back a node that is dead or departed, and
/// never judges this node itself.
pub proof fn law_tick_is_final(
    row: MemberRowView,
    self_id: Seq<char>,
    now: u128,
    suspect: u128,
    dead: u128,
)
    ensures
        row.info.status == NodeStatus::Dead || row.info.status == NodeStatus::Left || row.info.id
            == self_id ==> ticked(row, self_id, now, suspect, dead) == row,
        ticked(row, self_id, now, suspect, dead).info.id == row.info.id,
{
}

/// Marking a node as departed twice is marking it once.
pub proof fn law_left_idempotent(rows: Rows, self_id: Seq<char>, id: Seq<char>)
    ensures
        left(left(rows, self_id, id), self_id, id) == left(rows, self_id, id),
{
    assert(left(left(rows, self_id, id), self_id, id) =~= left(rows, self_id, id));
}

/// Whether `s` lists `rows`: every row, in the order of the nodes.
pub open spec fn lists(s: Seq<MemberRowView>, rows: Rows) -> bool {
    &&& table::in_order(Seq::new(s.len(), |i: int| (s[i].info.id, 0u32)))
    &&& forall|i: int|
        0 <= i < s.len() ==> rows.dom().contains((#[trigger] s[i]).info.id) && rows[s[i].info.id]
            == s[i]
    &&& forall|id: Seq<char>| #[trigger]
        rows.dom().contains(id) ==> exists|i: int|
            0 <= i < s.len() && (#[trigger] s[i]).info.id == id
}

/// The rows in the order of their nodes.
pub open spec fn ordered(rows: Rows) -> Seq<MemberRowView> {
    choose|s: Seq<MemberRowView>| lists(s, rows)
}

/// There is one list of the rows.
pub proof fn lemma_lists_unique(s: Seq<MemberRowView>, rows: Rows)
    requires
        lists(s, rows),
    ensures
        ordered(rows) == s,
{
    let t = ordered(rows);
    assert(lists(t, rows));
    let ks = Seq::new(s.len(), |i: int| (s[i].info.id, 0u32));
    let kt = Seq::new(t.len(), |i: int| (t[i].info.id, 0u32));
    assert forall|k: Key| #[trigger] ks.contains(k) <==> kt.contains(k) by {
        if ks.contains(k) {
            let i = choose|i: int| 0 <= i < ks.len() && ks[i] == k;
            assert(rows.dom().contains(s[i].info.id));
            let j = choose|j: int| 0 <= j < t.len() && (#[trigger] t[j]).info.id == k.0;
            assert(kt[j] == k);
        }
        if kt.contains(k) {
            let i = choose|i: int| 0 <= i < kt.len() && kt[i] == k;
            assert(rows.dom().contains(t[i].info.id));
            let j = choose|j: int| 0 <= j < s.len() && (#[trigger] s[j]).info.id == k.0;
            assert(ks[j] == k);
        }
    }
    table::lemma_order_unique(ks, kt);
    assert forall|i: int| 0 <= i < s.len() implies s[i] == t[i] by {
        assert(ks[i] == kt[i]);
        assert(rows[s[i].info.id] == s[i]);
        assert(rows[t[i].info.id] == t[i]);
    }
    assert(s =~= t);
}

impl Membership {
    /// The listing lists the rows.
    pub proof fn lemma_ordered(&self)
        requires
            self.wf(),
        ensures
            lists(self.listing(), self@),
            self.listing() == ordered(self@),
    {
        self.lemma_listing();
        let s = self.listing();
        let ks = Seq::new(s.len(), |i: int| (s[i].info.id, 0u32));
        assert forall|i: int, j: int| 0 <= i < j < ks.len() implies table::key_before(
            #[trigger] ks[i],
            #[trigger] ks[j],
        ) by {
            assert(table::name_before(s[i].info.id, s[j].info.id));
        }
        lemma_lists_unique(s, self@);
    }
}

/// The rows after one pass of the failure detector.
pub open spec fn swept(
    rows: Rows,
    self_id: Seq<char>,
    now: u128,
    suspect: u128,
    dead: u128,
) -> Rows {
    rows.map_values(|row: MemberRowView| ticked(row, self_id, now, suspect, dead))
}

/// A pass over the list is a pass over the rows.
pub proof fn lemma_swept(
    before: Membership,
    after: Membership,
    self_id: Seq<char>,
    now: u128,
    suspect: u128,
    dead: u128,
)
    requires
        before.wf(),
        after.wf(),
        after.listing() == Seq::new(
            before.listing().len(),
            |i: int| ticked(before.listing()[i], self_id, now, suspect, dead),
        ),
    ensures
        after@ == swept(before@, self_id, now, suspect, dead),
{
    before.lemma_listing();
    after.lemma_listing();
    let want = swept(before@, self_id, now, suspect, dead);
    assert forall|id: Seq<char>| after@.dom().contains(id) == want.dom().contains(id) by {
        if after@.dom().contains(id) {
            let i = choose|i: int|
                0 <= i < after.listing().len() && (#[trigger] after.listing()[i]).info.id == id;
            assert(before.listing()[i].info.id == id);
        }
        if want.dom().contains(id) {
            let i = choose|i: int|
                0 <= i < before.listing().len() && (#[trigger] before.listing()[i]).info.id == id;
            assert(after.listing()[i].info.id == id);
        }
    }
    assert forall|id: Seq<char>| #[trigger] after@.dom().contains(id) implies after@[id]
        == want[id] by {
        let i = choose|i: int|
            0 <= i < after.listing().len() && (#[trigger] after.listing()[i]).info.id == id;
        assert(before.listing()[i].info.id == id);
    }
    assert(after@ =~= want);
}

} // verus!
