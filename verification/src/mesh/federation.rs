//! Federated VM namespace: the union of what every node owns.
//!
//! Rows merge by last writer wins on the owner's epoch and clock. Rows of this
//! node are authoritative. Rows of a node that is gone stay visible, with
//! their owner marked as not alive.

use vstd::prelude::*;
use vstd::string::*;

use crate::mesh::membership::NodeId;
use crate::mesh::path;
use crate::mesh::table;
use crate::mesh::table::{Key, Table};
use crate::mesh::vault;
use crate::mesh::vault::VolumeAttachment;
use crate::text;
use crate::text::str_eq;

verus! {

/// What happens to a VM whose owner is gone.
#[derive(Debug, Clone, Copy, PartialEq, Eq, Structural)]
pub enum RestartPolicy {
    /// Nothing.
    Never,
    /// The owner restarts it after a fault; the loss of the owner is no fault.
    OnFailure,
    /// The supervisor recreates it elsewhere.
    Always,
}

impl Default for RestartPolicy {
    fn default() -> (r: RestartPolicy)
        ensures
            r == RestartPolicy::Never,
    {
        RestartPolicy::Never
    }
}

/// One VM of the federation.
#[derive(Debug, PartialEq, Eq)]
pub struct RemoteVm {
    /// Node that owns the VM.
    pub owner: NodeId,
    /// Number of the VM on that node.
    pub vm_id: u32,
    /// Label.
    pub label: String,
    /// Life-cycle tag.
    pub state: String,
    /// Last exit code.
    pub last_exit: Option<u32>,
    /// Owner's epoch when the row was made.
    pub epoch: u64,
    /// Owner's clock when the row was made.
    pub hlc: u64,
    /// Whether the owner is alive, as far as this node knows.
    pub owner_alive: bool,
    /// What happens when the owner is gone.
    pub restart_policy: RestartPolicy,
    /// Attached volumes.
    pub volumes: Vec<VolumeAttachment>,
    /// Image that the VM was created from.
    pub image_path: Option<String>,
    /// Number of vCPUs.
    pub cpu_count: Option<u32>,
    /// Memory, in MiB.
    pub memory_mib: Option<u64>,
    /// Checksum of the boot blob.
    pub boot_blob_crc32c: Option<u32>,
}

/// Mathematical value of a [`RemoteVm`].
#[verifier::ext_equal]
pub struct RemoteVmView {
    /// See [`RemoteVm::owner`].
    pub owner: Seq<char>,
    /// See [`RemoteVm::vm_id`].
    pub vm_id: u32,
    /// See [`RemoteVm::label`].
    pub label: Seq<char>,
    /// See [`RemoteVm::state`].
    pub state: Seq<char>,
    /// See [`RemoteVm::last_exit`].
    pub last_exit: Option<u32>,
    /// See [`RemoteVm::epoch`].
    pub epoch: u64,
    /// See [`RemoteVm::hlc`].
    pub hlc: u64,
    /// See [`RemoteVm::owner_alive`].
    pub owner_alive: bool,
    /// See [`RemoteVm::restart_policy`].
    pub restart_policy: RestartPolicy,
    /// See [`RemoteVm::volumes`].
    pub volumes: Seq<(Seq<char>, Seq<char>)>,
    /// See [`RemoteVm::image_path`].
    pub image_path: Option<Seq<char>>,
    /// See [`RemoteVm::cpu_count`].
    pub cpu_count: Option<u32>,
    /// See [`RemoteVm::memory_mib`].
    pub memory_mib: Option<u64>,
    /// See [`RemoteVm::boot_blob_crc32c`].
    pub boot_blob_crc32c: Option<u32>,
}

/// Mathematical value of an optional text.
pub open spec fn text_view(t: Option<String>) -> Option<Seq<char>> {
    match t {
        Some(s) => Some(s@),
        None => None,
    }
}

/// Copies an optional text.
pub fn clone_text(t: &Option<String>) -> (r: Option<String>)
    ensures
        r == *t,
{
    match t {
        Some(s) => Some(s.clone()),
        None => None,
    }
}

impl View for RemoteVm {
    type V = RemoteVmView;

    open spec fn view(&self) -> RemoteVmView {
        RemoteVmView {
            owner: self.owner@,
            vm_id: self.vm_id,
            label: self.label@,
            state: self.state@,
            last_exit: self.last_exit,
            epoch: self.epoch,
            hlc: self.hlc,
            owner_alive: self.owner_alive,
            restart_policy: self.restart_policy,
            volumes: vault::attachment_views(self.volumes@),
            image_path: text_view(self.image_path),
            cpu_count: self.cpu_count,
            memory_mib: self.memory_mib,
            boot_blob_crc32c: self.boot_blob_crc32c,
        }
    }
}

impl Clone for RemoteVm {
    fn clone(&self) -> (r: RemoteVm)
        ensures
            r@ == self@,
    {
        RemoteVm {
            owner: self.owner.clone(),
            vm_id: self.vm_id,
            label: self.label.clone(),
            state: self.state.clone(),
            last_exit: self.last_exit,
            epoch: self.epoch,
            hlc: self.hlc,
            owner_alive: self.owner_alive,
            restart_policy: self.restart_policy,
            volumes: vault::clone_attachments(&self.volumes),
            image_path: clone_text(&self.image_path),
            cpu_count: self.cpu_count,
            memory_mib: self.memory_mib,
            boot_blob_crc32c: self.boot_blob_crc32c,
        }
    }
}

impl RemoteVmView {
    /// Owner and number of the VM.
    pub open spec fn key(self) -> Key {
        (self.owner, self.vm_id)
    }
}

impl RemoteVm {
    /// The federated path of the VM.
    pub fn path(&self) -> (r: String)
        ensures
            r@ == path::vm_path(self.owner@, self.vm_id),
    {
        let mut p = text::concat("/cluster/", self.owner.as_str());
        p.append("/vms/");
        text::push_decimal(&mut p, self.vm_id as u64);
        p
    }
}

/// Mathematical value of a list of VMs.
pub open spec fn vm_views(v: Seq<RemoteVm>) -> Seq<RemoteVmView> {
    Seq::new(v.len(), |i: int| v[i]@)
}

/// Whether the stamp of `a` is at least as new as that of `b`.
pub open spec fn at_least_as_new(a: RemoteVmView, b: RemoteVmView) -> bool {
    a.epoch > b.epoch || (a.epoch == b.epoch && a.hlc >= b.hlc)
}

/// The federation as a map.
pub type Vms = Map<Key, RemoteVmView>;

/// What a merge does.
pub open spec fn vm_merged(vms: Vms, self_id: Seq<char>, incoming: RemoteVmView) -> (Vms, bool) {
    if incoming.owner == self_id {
        (vms, false)
    } else if vms.dom().contains(incoming.key()) && at_least_as_new(
        vms[incoming.key()],
        incoming,
    ) {
        (vms, false)
    } else {
        (vms.insert(incoming.key(), RemoteVmView { owner_alive: true, ..incoming }), true)
    }
}

/// A row as this node publishes it.
pub open spec fn as_local(row: RemoteVmView, self_id: Seq<char>) -> RemoteVmView {
    RemoteVmView { owner: self_id, owner_alive: true, ..row }
}

/// The map once the first `n` rows of a list were published.
pub open spec fn published(vms: Vms, self_id: Seq<char>, rows: Seq<RemoteVmView>, n: int) -> Vms
    decreases n,
{
    if n <= 0 {
        vms
    } else {
        let row = as_local(rows[n - 1], self_id);
        published(vms, self_id, rows, n - 1).insert(row.key(), row)
    }
}

/// The map without the rows of one owner.
pub open spec fn without_owner(vms: Vms, owner: Seq<char>) -> Vms {
    vms.remove_keys(vms.dom().filter(|k: Key| k.0 == owner))
}

/// The rows of one owner, in order.
pub open spec fn of_owner(rows: Seq<RemoteVmView>, owner: Seq<char>) -> Seq<RemoteVmView>
    decreases rows.len(),
{
    if rows.len() == 0 {
        rows
    } else if rows.last().owner == owner {
        of_owner(rows.drop_last(), owner).push(rows.last())
    } else {
        of_owner(rows.drop_last(), owner)
    }
}

/// Federation table of one node.
#[derive(Debug)]
pub struct NamespaceFederation {
    /// This node.
    pub self_id: NodeId,
    /// Rows by owner and number.
    pub rows: Table<RemoteVm>,
}

impl NamespaceFederation {
    /// The rows in order of owner and number.
    pub open spec fn listing(&self) -> Seq<RemoteVmView> {
        Seq::new(self.rows.entries@.len(), |i: int| self.rows.entries@[i].val@)
    }

    /// The rows by owner and number.
    pub open spec fn view(&self) -> Vms {
        Map::new(
            |k: Key| self.rows.map().dom().contains(k),
            |k: Key| self.rows.map()[k]@,
        )
    }

    /// Rows stand in order under their own keys.
    pub open spec fn wf(&self) -> bool {
        &&& self.rows.wf()
        &&& forall|i: int|
            0 <= i < self.rows.entries@.len() ==> (#[trigger] self.rows.entries@[i]).key()
                == self.rows.entries@[i].val@.key()
    }

    /// A row of the listing is the row of its key, and the other way round.
    pub proof fn lemma_listing(&self)
        requires
            self.wf(),
        ensures
            forall|i: int|
                0 <= i < self.listing().len() ==> self@.dom().contains(
                    (#[trigger] self.listing()[i]).key(),
                ) && self@[self.listing()[i].key()] == self.listing()[i],
            forall|k: Key| #[trigger]
                self@.dom().contains(k) ==> exists|i: int|
                    0 <= i < self.listing().len() && (#[trigger] self.listing()[i]).key() == k,
            forall|i: int, j: int|
                0 <= i < j < self.listing().len() ==> table::key_before(
                    (#[trigger] self.listing()[i]).key(),
                    (#[trigger] self.listing()[j]).key(),
                ),
    {
        assert forall|i: int| 0 <= i < self.listing().len() implies self@.dom().contains(
            (#[trigger] self.listing()[i]).key(),
        ) && self@[self.listing()[i].key()] == self.listing()[i] by {
            self.rows.lemma_entry(i);
        }
        assert forall|k: Key| #[trigger] self@.dom().contains(k) implies exists|i: int|
            0 <= i < self.listing().len() && (#[trigger] self.listing()[i]).key() == k by {
            let i = self.rows.lemma_key(k);
            assert(self.listing()[i].key() == k);
        }
        assert forall|i: int, j: int| 0 <= i < j < self.listing().len() implies table::key_before(
            (#[trigger] self.listing()[i]).key(),
            (#[trigger] self.listing()[j]).key(),
        ) by {
            assert(table::key_before(self.rows.entries@[i].key(), self.rows.entries@[j].key()));
        }
    }

    /// An empty federation of this node.
    pub fn new(self_id: NodeId) -> (r: NamespaceFederation)
        ensures
            r.wf(),
            r.self_id == self_id,
            r@ == Map::<Key, RemoteVmView>::empty(),
    {
        let r = NamespaceFederation { self_id, rows: Table::new() };
        assert(r@ =~= Map::<Key, RemoteVmView>::empty());
        r
    }

    /// Adds or replaces a row.
    fn put(&mut self, row: RemoteVm)
        requires
            old(self).wf(),
        ensures
            final(self).wf(),
            final(self).self_id == old(self).self_id,
            final(self)@ == old(self)@.insert(row@.key(), row@),
    {
        let ghost before = self.rows;
        let ghost k = row@.key();
        let name = row.owner.0.clone();
        let num: u32 = row.vm_id;
        self.rows.insert(name, num, row);
        proof {
            assert forall|i: int| 0 <= i < self.rows.entries@.len() implies (
            #[trigger] self.rows.entries@[i]).key() == self.rows.entries@[i].val@.key() by {
                self.rows.lemma_entry(i);
                let x = self.rows.entries@[i].key();
                if x != k {
                    let j = before.lemma_key(x);
                }
            }
            assert(self@ =~= old(self)@.insert(k, row@));
        }
    }

    /// Drops the rows of this node.
    fn drop_local(&mut self)
        requires
            old(self).wf(),
        ensures
            final(self).wf(),
            final(self).self_id == old(self).self_id,
            final(self)@ == without_owner(old(self)@, old(self).self_id@),
    {
        let ghost first = *self;
        let ghost all = self.rows.entries@;
        let ghost me = self.self_id@;
        let n: usize = self.rows.entries.len();
        let mut seen: usize = 0;
        let mut i: usize = 0;
        let ghost mut origin: Seq<int> = Seq::empty();
        while seen < n
            invariant
                n == all.len(),
                i <= seen <= n,
                me == self.self_id@,
                self.self_id == first.self_id,
                self.rows.entries@.len() == i + (n - seen),
                origin.len() == i,
                forall|j: int|
                    0 <= j < i ==> 0 <= #[trigger] origin[j] < seen && self.rows.entries@[j]
                        == all[origin[j]] && all[origin[j]].name@ != me,
                forall|j: int, k: int|
                    0 <= j < k < i ==> #[trigger] origin[j] < #[trigger] origin[k],
                forall|j: int|
                    i <= j < self.rows.entries@.len() ==> #[trigger] self.rows.entries@[j]
                        == all[j - i + seen],
                forall|o: int|
                    0 <= o < seen && (#[trigger] all[o]).name@ != me ==> exists|j: int|
                        0 <= j < i && #[trigger] origin[j] == o,
            decreases n - seen,
        {
            let ghost now = self.rows.entries@;
            let ghost was = origin;
            assert(now[i as int] == all[seen as int]);
            if str_eq(self.rows.entries[i].name.as_str(), self.self_id.as_str()) {
                self.rows.entries.remove(i);
                proof {
                    assert forall|j: int| 0 <= j < i implies self.rows.entries@[j]
                        == now[j] by {}
                    assert forall|j: int| i <= j < self.rows.entries@.len() implies
                        #[trigger] self.rows.entries@[j] == all[j - i + (seen + 1)] by {
                        assert(self.rows.entries@[j] == now[j + 1]);
                    }
                }
            } else {
                proof {
                    origin = origin.push(seen as int);
                    assert forall|o: int|
                        0 <= o < seen + 1 && (#[trigger] all[o]).name@ != me implies exists|j: int|
                        0 <= j < i + 1 && #[trigger] origin[j] == o by {
                        if o < seen {
                            let j = choose|j: int| 0 <= j < i && #[trigger] was[j] == o;
                            assert(origin[j] == o);
                        } else {
                            assert(origin[i as int] == o);
                        }
                    }
                    assert forall|j: int| 0 <= j < i + 1 implies 0 <= #[trigger] origin[j] < seen
                        + 1 && now[j] == all[origin[j]] && all[origin[j]].name@ != me by {
                        if j < i {
                            assert(origin[j] == was[j]);
                        }
                    }
                }
                i = i + 1;
            }
            seen = seen + 1;
        }
        proof {
            let t = self.rows;
            assert forall|a: int, b: int| 0 <= a < b < t.entries@.len() implies table::key_before(
                (#[trigger] t.entries@[a]).key(),
                (#[trigger] t.entries@[b]).key(),
            ) by {
                assert(origin[a] < origin[b]);
                assert(table::key_before(
                    first.rows.entries@[origin[a]].key(),
                    first.rows.entries@[origin[b]].key(),
                ));
            }
            let want = without_owner(first@, me);
            assert forall|k: Key| self@.dom().contains(k) == want.dom().contains(k) by {
                if self@.dom().contains(k) {
                    let j = t.lemma_key(k);
                    first.rows.lemma_entry(origin[j]);
                }
                if want.dom().contains(k) {
                    let o = first.rows.lemma_key(k);
                    assert(all[o].name@ != me);
                    let j = choose|j: int| 0 <= j < i && #[trigger] origin[j] == o;
                    assert(t.entries@[j] == all[o]);
                    t.lemma_entry(j);
                }
            }
            assert forall|k: Key| self@.dom().contains(k) implies #[trigger] self@[k]
                == want[k] by {
                let j = t.lemma_key(k);
                first.rows.lemma_entry(origin[j]);
            }
            assert(self@ =~= want);
            assert forall|j: int| 0 <= j < t.entries@.len() implies (
            #[trigger] t.entries@[j]).key() == t.entries@[j].val@.key() by {
                assert(t.entries@[j] == first.rows.entries@[origin[j]]);
            }
        }
    }

    /// Replaces the rows of this node. Whatever owner a row names, it is
    /// published as this node's own.
    pub fn set_local(&mut self, local: Vec<RemoteVm>)
        requires
            old(self).wf(),
        ensures
            final(self).wf(),
            final(self).self_id == old(self).self_id,
            final(self)@ == published(
                without_owner(old(self)@, old(self).self_id@),
                old(self).self_id@,
                vm_views(local@),
                local@.len() as int,
            ),
    {
        let ghost rows = vm_views(local@);
        let ghost me = self.self_id@;
        self.drop_local();
        let ghost base = self@;
        let mut i: usize = 0;
        while i < local.len()
            invariant
                i <= local@.len(),
                rows == vm_views(local@),
                me == self.self_id@,
                self.self_id == old(self).self_id,
                self.wf(),
                self@ == published(base, me, rows, i as int),
            decreases local@.len() - i,
        {
            let mut row = local[i].clone();
            row.owner = self.self_id.clone();
            row.owner_alive = true;
            assert(row@ == as_local(rows[i as int], me));
            self.put(row);
            i = i + 1;
        }
    }

    /// Merges a row that came in. The newer stamp wins; a row of this node is
    /// never taken from outside.
    pub fn merge(&mut self, incoming: RemoteVm) -> (r: bool)
        requires
            old(self).wf(),
        ensures
            final(self).wf(),
            final(self).self_id == old(self).self_id,
            (final(self)@, r) == vm_merged(old(self)@, old(self).self_id@, incoming@),
    {
        if incoming.owner.same(&self.self_id) {
            return false;
        }
        if let Some(existing) = self.rows.get(incoming.owner.as_str(), incoming.vm_id) {
            if existing.epoch > incoming.epoch || (existing.epoch == incoming.epoch
                && existing.hlc >= incoming.hlc) {
                return false;
            }
        }
        let mut row = incoming;
        row.owner_alive = true;
        self.put(row);
        true
    }

    /// Sets, for every row, whether its owner is alive: this node always is,
    /// the others as `alive_of` says.
    pub fn refresh_alive(&mut self, alive_of: impl Fn(&NodeId) -> bool)
        requires
            old(self).wf(),
            forall|id: &NodeId| #[trigger] call_requires(alive_of, (id,)),
        ensures
            final(self).wf(),
            final(self).self_id == old(self).self_id,
            final(self).listing().len() == old(self).listing().len(),
            forall|i: int|
                0 <= i < old(self).listing().len() ==> {
                    let before = #[trigger] old(self).listing()[i];
                    let after = final(self).listing()[i];
                    &&& after == (RemoteVmView { owner_alive: after.owner_alive, ..before })
                    &&& before.owner == old(self).self_id@ ==> after.owner_alive
                    &&& before.owner != old(self).self_id@ ==> exists|id: &NodeId|
                        id@ == before.owner && #[trigger] call_ensures(
                            alive_of,
                            (id,),
                            after.owner_alive,
                        )
                },
    {
        let ghost before = self.listing();
        let mut i: usize = 0;
        while i < self.rows.entries.len()
            invariant
                i <= self.rows.entries@.len(),
                self.rows.entries@.len() == before.len(),
                self.wf(),
                self.self_id == old(self).self_id,
                before == old(self).listing(),
                forall|id: &NodeId| #[trigger] call_requires(alive_of, (id,)),
                forall|j: int|
                    i <= j < before.len() ==> #[trigger] self.listing()[j] == before[j],
                forall|j: int|
                    0 <= j < i ==> {
                        let b = #[trigger] before[j];
                        let a = self.listing()[j];
                        &&& a == (RemoteVmView { owner_alive: a.owner_alive, ..b })
                        &&& b.owner == self.self_id@ ==> a.owner_alive
                        &&& b.owner != self.self_id@ ==> exists|id: &NodeId|
                            id@ == b.owner && #[trigger] call_ensures(
                                alive_of,
                                (id,),
                                a.owner_alive,
                            )
                    },
            decreases before.len() - i,
        {
            let ghost prev = *self;
            assert(self.listing()[i as int] == before[i as int]);
            let mine = self.rows.entries[i].val.owner.same(&self.self_id);
            let alive = if mine {
                true
            } else {
                alive_of(&self.rows.entries[i].val.owner)
            };
            let mut row = self.rows.entries[i].val.clone();
            row.owner_alive = alive;
            self.rows.set_at(i, row);
            proof {
                let b = before[i as int];
                let id = &prev.rows.entries@[i as int].val.owner;
                assert(id@ == b.owner);
                if !mine {
                    assert(call_ensures(alive_of, (id,), alive));
                }
                assert forall|j: int| 0 <= j < before.len() && j != i implies
                    #[trigger] self.listing()[j] == prev.listing()[j] by {
                    assert(self.rows.entries@[j] == prev.rows.entries@[j]);
                }
                assert forall|j: int| 0 <= j < self.rows.entries@.len() implies (
                #[trigger] self.rows.entries@[j]).key() == self.rows.entries@[j].val@.key() by {
                    assert(self.rows.entries@[j].key() == prev.rows.entries@[j].key());
                    if j != i {
                        assert(self.rows.entries@[j] == prev.rows.entries@[j]);
                    }
                }
            }
            i = i + 1;
        }
    }

    /// Every row, in order of owner and number.
    pub fn list(&self) -> (r: Vec<RemoteVm>)
        ensures
            vm_views(r@) == self.listing(),
    {
        let mut out: Vec<RemoteVm> = Vec::new();
        let mut i: usize = 0;
        while i < self.rows.entries.len()
            invariant
                i <= self.rows.entries@.len(),
                out@.len() == i,
                forall|j: int| 0 <= j < i ==> (#[trigger] out@[j])@ == self.listing()[j],
            decreases self.rows.entries@.len() - i,
        {
            out.push(self.rows.entries[i].val.clone());
            i = i + 1;
        }
        assert(vm_views(out@) =~= self.listing());
        out
    }

    /// The rows of this node, in order.
    pub fn local_rows(&self) -> (r: Vec<RemoteVm>)
        ensures
            vm_views(r@) == of_owner(self.listing(), self.self_id@),
    {
        let ghost all = self.listing();
        let mut out: Vec<RemoteVm> = Vec::new();
        let mut i: usize = 0;
        assert(vm_views(out@) =~= of_owner(all.take(0), self.self_id@));
        while i < self.rows.entries.len()
            invariant
                i <= self.rows.entries@.len(),
                all == self.listing(),
                vm_views(out@) == of_owner(all.take(i as int), self.self_id@),
            decreases self.rows.entries@.len() - i,
        {
            let ghost before = vm_views(out@);
            proof {
                let t = all.take(i + 1);
                assert(t.drop_last() =~= all.take(i as int));
                assert(t.last() == all[i as int]);
            }
            if self.rows.entries[i].val.owner.same(&self.self_id) {
                out.push(self.rows.entries[i].val.clone());
                assert(vm_views(out@) =~= before.push(all[i as int]));
            }
            i = i + 1;
        }
        assert(all.take(i as int) =~= all);
        out
    }

    /// The row that a path addresses. A path that is well formed but addresses
    /// nothing is no error.
    pub fn resolve(&self, path: &str) -> (r: Result<Option<&RemoteVm>, ()>)
        requires
            self.wf(),
        ensures
            match path::parsed_path(path@, true) {
                Err(_) => r is Err,
                Ok(k) => match r {
                    Ok(Some(row)) => self@.dom().contains(k) && row@ == self@[k],
                    Ok(None) => !self@.dom().contains(k),
                    Err(_) => false,
                },
            },
    {
        match path::parse_path(path, true) {
            Err(_) => Err(()),
            Ok((node, n)) => Ok(self.rows.get(node.as_str(), n)),
        }
    }
}

/// Rows of this node are never taken from outside.
pub proof fn law_local_rows_are_safe(vms: Vms, self_id: Seq<char>, incoming: RemoteVmView, k: Key)
    requires
        k.0 == self_id,
    ensures
        vm_merged(vms, self_id, incoming).0.dom().contains(k) == vms.dom().contains(k),
        vms.dom().contains(k) ==> vm_merged(vms, self_id, incoming).0[k] == vms[k],
{
}

/// Merging the same row twice is merging it once.
pub proof fn law_vm_merge_idempotent(vms: Vms, self_id: Seq<char>, incoming: RemoteVmView)
    ensures
        vm_merged(vm_merged(vms, self_id, incoming).0, self_id, incoming) == (
            vm_merged(vms, self_id, incoming).0,
            false,
        ),
{
}

/// The order in which two rows arrive does not matter, unless they speak of
/// one VM with one stamp.
pub proof fn law_vm_merge_commutes(vms: Vms, self_id: Seq<char>, a: RemoteVmView, b: RemoteVmView)
    requires
        a.key() != b.key() || !at_least_as_new(a, b) || !at_least_as_new(b, a),
    ensures
        vm_merged(vm_merged(vms, self_id, a).0, self_id, b).0 == vm_merged(
            vm_merged(vms, self_id, b).0,
            self_id,
            a,
        ).0,
{
    let ab = vm_merged(vm_merged(vms, self_id, a).0, self_id, b).0;
    let ba = vm_merged(vm_merged(vms, self_id, b).0, self_id, a).0;
    assert(ab =~= ba);
}

/// Publishing replaces this node's rows and no others.
pub proof fn law_publish_is_local(
    vms: Vms,
    self_id: Seq<char>,
    rows: Seq<RemoteVmView>,
    n: int,
    k: Key,
)
    requires
        0 <= n <= rows.len(),
    ensures
        k.0 != self_id ==> (published(
            without_owner(vms, self_id),
            self_id,
            rows,
            n,
        ).dom().contains(k) == vms.dom().contains(k)),
        k.0 != self_id && vms.dom().contains(k) ==> published(
            without_owner(vms, self_id),
            self_id,
            rows,
            n,
        )[k] == vms[k],
        k.0 == self_id ==> (published(
            without_owner(vms, self_id),
            self_id,
            rows,
            n,
        ).dom().contains(k) <==> exists|i: int| 0 <= i < n && (#[trigger] rows[i]).vm_id == k.1),
    decreases n,
{
    if n > 0 {
        law_publish_is_local(vms, self_id, rows, n - 1, k);
        assert(rows[n - 1].vm_id == rows[n - 1].vm_id);
    }
}

/// Whether `s` lists `vms`: every row, in order of owner and number.
pub open spec fn lists(s: Seq<RemoteVmView>, vms: Vms) -> bool {
    &&& table::in_order(Seq::new(s.len(), |i: int| s[i].key()))
    &&& forall|i: int|
        0 <= i < s.len() ==> vms.dom().contains((#[trigger] s[i]).key()) && vms[s[i].key()] == s[i]
    &&& forall|k: Key| #[trigger]
        vms.dom().contains(k) ==> exists|i: int|
            0 <= i < s.len() && (#[trigger] s[i]).key() == k
}

/// The rows in order of owner and number.
pub open spec fn ordered(vms: Vms) -> Seq<RemoteVmView> {
    choose|s: Seq<RemoteVmView>| lists(s, vms)
}

/// There is one list of the rows.
pub proof fn lemma_lists_unique(s: Seq<RemoteVmView>, vms: Vms)
    requires
        lists(s, vms),
    ensures
        ordered(vms) == s,
{
    let t = ordered(vms);
    assert(lists(t, vms));
    let ks = Seq::new(s.len(), |i: int| s[i].key());
    let kt = Seq::new(t.len(), |i: int| t[i].key());
    assert forall|k: Key| #[trigger] ks.contains(k) <==> kt.contains(k) by {
        if ks.contains(k) {
            let i = choose|i: int| 0 <= i < ks.len() && ks[i] == k;
            assert(vms.dom().contains(s[i].key()));
            let j = choose|j: int| 0 <= j < t.len() && (#[trigger] t[j]).key() == k;
            assert(kt[j] == k);
        }
        if kt.contains(k) {
            let i = choose|i: int| 0 <= i < kt.len() && kt[i] == k;
            assert(vms.dom().contains(t[i].key()));
            let j = choose|j: int| 0 <= j < s.len() && (#[trigger] s[j]).key() == k;
            assert(ks[j] == k);
        }
    }
    table::lemma_order_unique(ks, kt);
    assert(ks.len() == kt.len());
    assert forall|i: int| 0 <= i < s.len() implies #[trigger] s[i] == t[i] by {
        assert(ks[i] == kt[i]);
        assert(vms[s[i].key()] == s[i]);
        assert(vms[t[i].key()] == t[i]);
    }
    assert(s =~= t);
}

impl NamespaceFederation {
    /// The listing lists the rows.
    pub proof fn lemma_ordered(&self)
        requires
            self.wf(),
        ensures
            lists(self.listing(), self@),
            self.listing() == ordered(self@),
    {
        self.lemma_listing();
        let s = self.listing();
        let ks = Seq::new(s.len(), |i: int| s[i].key());
        assert forall|i: int, j: int| 0 <= i < j < ks.len() implies table::key_before(
            #[trigger] ks[i],
            #[trigger] ks[j],
        ) by {
            assert(table::key_before(s[i].key(), s[j].key()));
        }
        lemma_lists_unique(s, self@);
    }
}

/// The rows once it is known which nodes are alive: this node always is.
pub open spec fn refreshed(
    vms: Vms,
    self_id: Seq<char>,
    alive: spec_fn(Seq<char>) -> bool,
) -> Vms {
    vms.map_values(
        |v: RemoteVmView|
            RemoteVmView { owner_alive: v.owner == self_id || alive(v.owner), ..v },
    )
}

/// Setting who is alive row by row sets it in the map.
pub proof fn lemma_refreshed(
    before: NamespaceFederation,
    after: NamespaceFederation,
    self_id: Seq<char>,
    alive: spec_fn(Seq<char>) -> bool,
)
    requires
        before.wf(),
        after.wf(),
        after.listing() == Seq::new(
            before.listing().len(),
            |i: int|
                RemoteVmView {
                    owner_alive: before.listing()[i].owner == self_id || alive(
                        before.listing()[i].owner,
                    ),
                    ..before.listing()[i]
                },
        ),
    ensures
        after@ == refreshed(before@, self_id, alive),
{
    before.lemma_listing();
    after.lemma_listing();
    let want = refreshed(before@, self_id, alive);
    assert forall|k: Key| after@.dom().contains(k) == want.dom().contains(k) by {
        if after@.dom().contains(k) {
            let i = choose|i: int|
                0 <= i < after.listing().len() && (#[trigger] after.listing()[i]).key() == k;
            assert(before.listing()[i].key() == k);
        }
        if want.dom().contains(k) {
            let i = choose|i: int|
                0 <= i < before.listing().len() && (#[trigger] before.listing()[i]).key() == k;
            assert(after.listing()[i].key() == k);
        }
    }
    assert forall|k: Key| #[trigger] after@.dom().contains(k) implies after@[k] == want[k] by {
        let i = choose|i: int|
            0 <= i < after.listing().len() && (#[trigger] after.listing()[i]).key() == k;
        assert(before.listing()[i].key() == k);
    }
    assert(after@ =~= want);
}

} // verus!
