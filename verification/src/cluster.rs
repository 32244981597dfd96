//! Cluster state: the node registry, the slot-ownership vector, the
//! per-slot migration states and the configuration epoch.

use vstd::prelude::*;
use crate::text::{
    spec_rfind_char, u16_chars_ok, u16_chars_val, parse_u16_chars, rfind_char,
};
use crate::text::spec_fnv64;

verus! {

/// Number of hash slots in a cluster.
pub const TOTAL_SLOTS: u16 = 16384;

/// The slot count, as a vector length.
pub const TOTAL_SLOTS_USIZE: usize = 16384;

/// Per-slot migration state. A slot not present in the migration list
/// is stable; `Normal` never appears in the list.
#[derive(Debug, Clone, Copy, PartialEq, Eq, Structural)]
pub enum SlotState {
    /// Slot is in its normal, stable state.
    Normal,
    /// Slot is being migrated out of this node.
    Migrating,
    /// Slot is being imported into this node.
    Importing,
}

/// One slot's migration record: its state and the peer node involved.
#[derive(Debug, Clone, Copy, PartialEq, Eq, Structural)]
pub struct SlotMigration {
    pub slot: u16,
    pub state: SlotState,
    pub peer: u64,
}

/// Identity and topology of one cluster node.
#[derive(Debug)]
pub struct NodeInfo {
    /// Node id; rendered at the wire as forty hex digits.
    pub id: u64,
    /// Data-plane address, `host:port`.
    pub addr: String,
    /// Cluster-bus port, the data port plus 10000 unless overridden.
    pub cluster_port: u16,
    /// Whether this node is a master.
    pub is_master: bool,
    /// Whether this node is connected.
    pub is_connected: bool,
}

/// The cluster-bus port derived from an address: the text after the last
/// colon (or the whole text when there is none), read as a port, plus
/// 10000 modulo the port space; 16379 when no port can be read.
pub open spec fn spec_cluster_port_of(a: Seq<char>) -> u16 {
    let tail = match spec_rfind_char(a, ':') {
        Some(i) => a.skip(i + 1),
        None => a,
    };
    if u16_chars_ok(tail) {
        ((u16_chars_val(tail) + 10000) % 0x10000) as u16
    } else {
        16379
    }
}

impl NodeInfo {
    /// A new master node at `addr`, its cluster-bus port derived from
    /// the address's data port.
    pub fn new(id: u64, addr: String) -> (r: NodeInfo)
        ensures
            r.id == id,
            r.addr == addr,
            r.cluster_port == spec_cluster_port_of(addr@),
            r.is_master,
            r.is_connected,
    {
        let n = addr.as_str().unicode_len();
        let tail: &str = match rfind_char(addr.as_str(), ':') {
            Some(i) => {
                proof {
                    crate::text::lemma_rfind_char(addr@, ':');
                }
                let t = addr.as_str().substring_char(i + 1, n);
                proof {
                    assert(t@ =~= addr@.skip(i + 1));
                }
                t
            },
            None => addr.as_str(),
        };
        let cluster_port: u16 = match parse_u16_chars(tail) {
            Some(p) => (((p as u32) + 10000) % 0x10000) as u16,
            None => 16379,
        };
        NodeInfo { id, addr, cluster_port, is_master: true, is_connected: true }
    }

    /// A field-for-field copy.
    pub fn duplicate(&self) -> (r: NodeInfo)
        ensures
            r == *self,
    {
        NodeInfo {
            id: self.id,
            addr: self.addr.clone(),
            cluster_port: self.cluster_port,
            is_master: self.is_master,
            is_connected: self.is_connected,
        }
    }
}

/// The assigned-slot count of a prefix of the slot vector.
pub open spec fn spec_count_assigned(s: Seq<Option<u64>>) -> nat
    decreases s.len(),
{
    if s.len() == 0 {
        0
    } else {
        spec_count_assigned(s.drop_last()) + if s.last() is Some {
            1nat
        } else {
            0nat
        }
    }
}

/// The distinct owners appearing in the slot vector.
pub open spec fn spec_owner_set(s: Seq<Option<u64>>) -> Set<u64>
    decreases s.len(),
{
    if s.len() == 0 {
        Set::empty()
    } else {
        match s.last() {
            Some(o) => spec_owner_set(s.drop_last()).insert(o),
            None => spec_owner_set(s.drop_last()),
        }
    }
}

pub proof fn lemma_owner_set_finite(s: Seq<Option<u64>>)
    ensures
        spec_owner_set(s).finite(),
    decreases s.len(),
{
    if s.len() > 0 {
        lemma_owner_set_finite(s.drop_last());
    }
}

/// The owner set holds exactly the ids that own at least one slot:
/// this is what INFO's `cluster_size` field counts.
pub proof fn lemma_owner_set_contains(s: Seq<Option<u64>>, o: u64)
    ensures
        spec_owner_set(s).contains(o) <==> exists|i: int| 0 <= i < s.len() && s[i] == Some(o),
    decreases s.len(),
{
    if s.len() > 0 {
        lemma_owner_set_contains(s.drop_last(), o);
        if spec_owner_set(s).contains(o) {
            if s.last() == Some(o) {
                assert(s[s.len() - 1] == Some(o));
            } else {
                if spec_owner_set(s.drop_last()).contains(o) {
                    let i = choose|i: int| 0 <= i < s.drop_last().len() && s.drop_last()[i]
                        == Some(o);
                    assert(s[i] == Some(o));
                }
            }
        }
        if exists|i: int| 0 <= i < s.len() && s[i] == Some(o) {
            let i = choose|i: int| 0 <= i < s.len() && s[i] == Some(o);
            if i < s.len() - 1 {
                assert(s.drop_last()[i] == Some(o));
            }
        }
    }
}

/// Scan of the first `n` slots: the closed maximal runs so far, and the
/// still-open run, if one reaches position `n - 1`.
pub open spec fn spec_scan(s: Seq<Option<u64>>, n: int) -> (Seq<(u16, u16, u64)>, Option<(
    u16,
    u64,
)>)
    decreases n,
{
    if n <= 0 {
        (Seq::empty(), None)
    } else {
        let (rs, open) = spec_scan(s, n - 1);
        let cur = if 0 <= n - 1 < s.len() {
            s[n - 1]
        } else {
            None
        };
        match open {
            None => match cur {
                None => (rs, None),
                Some(o) => (rs, Some(((n - 1) as u16, o))),
            },
            Some((st, o)) => match cur {
                None => (rs.push((st, (n - 2) as u16, o)), None),
                Some(o2) => if o == o2 {
                    (rs, open)
                } else {
                    (rs.push((st, (n - 2) as u16, o)), Some(((n - 1) as u16, o2)))
                },
            },
        }
    }
}

/// The maximal runs of identical owner in the slot vector, in order:
/// `(start, end, owner)` triples.
pub open spec fn spec_ranges(s: Seq<Option<u64>>) -> Seq<(u16, u16, u64)> {
    let (rs, open) = spec_scan(s, s.len() as int);
    match open {
        Some((st, o)) => rs.push((st, (s.len() - 1) as u16, o)),
        None => rs,
    }
}

/// Every range produced by the scan covers only slots its owner holds.
pub proof fn lemma_scan_cover(s: Seq<Option<u64>>, n: int)
    requires
        n <= s.len() <= 16384,
    ensures
        ({
            let (rs, open) = spec_scan(s, n);
            &&& forall|k: int| 0 <= k < rs.len() ==> {
                let (st, en, o) = #[trigger] rs[k];
                &&& st <= en < n
                &&& forall|j: int| st <= j <= en ==> s[j] == Some(o)
            }
            &&& open matches Some((st, o)) ==> st < n && (forall|j: int|
                st <= j < n ==> s[j] == Some(o))
        }),
    decreases n,
{
    if n > 0 {
        lemma_scan_cover(s, n - 1);
    }
}

/// Every range reported for the slot vector covers exactly slots owned
/// by the reported owner.
pub proof fn lemma_ranges_cover(s: Seq<Option<u64>>)
    requires
        s.len() <= 16384,
    ensures
        forall|k: int| 0 <= k < spec_ranges(s).len() ==> {
            let (st, en, o) = #[trigger] spec_ranges(s)[k];
            &&& st <= en < s.len()
            &&& forall|j: int| st <= j <= en ==> s[j] == Some(o)
        },
{
    lemma_scan_cover(s, s.len() as int);
}

/// The authoritative local view of the cluster.
#[derive(Debug)]
pub struct ClusterState {
    /// Known nodes, in insertion order; ids are unique.
    pub nodes: Vec<NodeInfo>,
    /// Slot assignments: exactly one entry per slot.
    pub slot_assignments: Vec<Option<u64>>,
    /// Migration records; slots are unique, states never `Normal`.
    pub migrations: Vec<SlotMigration>,
    /// Configuration epoch, bumped by every mutation.
    pub config_epoch: u64,
}

impl ClusterState {
    /// Structural well-formedness of the cluster view.
    pub open spec fn wf(self) -> bool {
        &&& self.slot_assignments@.len() == 16384
        &&& forall|i: int, j: int|
            0 <= i < j < self.nodes@.len() ==> (#[trigger] self.nodes@[i]).id
                != (#[trigger] self.nodes@[j]).id
        &&& forall|i: int, j: int|
            0 <= i < j < self.migrations@.len() ==> (#[trigger] self.migrations@[i]).slot
                != (#[trigger] self.migrations@[j]).slot
        &&& forall|i: int|
            0 <= i < self.migrations@.len() ==> (#[trigger] self.migrations@[i]).slot < 16384
                && self.migrations@[i].state != SlotState::Normal
    }

    /// Whether a node with this id is known.
    pub open spec fn spec_has_node(self, id: u64) -> bool {
        exists|i: int| 0 <= i < self.nodes@.len() && (#[trigger] self.nodes@[i]).id == id
    }

    /// The migration record of a slot, if any.
    pub open spec fn spec_migration_of(self, slot: u16) -> Option<SlotMigration> {
        if exists|i: int| 0 <= i < self.migrations@.len() && (#[trigger] self.migrations@[i]).slot
            == slot {
            Some(
                self.migrations@[choose|i: int|
                    0 <= i < self.migrations@.len() && (#[trigger] self.migrations@[i]).slot
                        == slot],
            )
        } else {
            None
        }
    }

    /// A fresh, empty cluster state: no nodes, no assignments, epoch zero.
    pub fn new() -> (r: ClusterState)
        ensures
            r.wf(),
            r.nodes@.len() == 0,
            r.migrations@.len() == 0,
            r.config_epoch == 0,
            forall|i: int| 0 <= i < 16384 ==> #[trigger] r.slot_assignments@[i] is None,
    {
        let mut slots: Vec<Option<u64>> = Vec::new();
        let mut i: usize = 0;
        while i < TOTAL_SLOTS_USIZE
            invariant
                0 <= i <= 16384,
                slots@.len() == i,
                forall|j: int| 0 <= j < i ==> #[trigger] slots@[j] is None,
            decreases 16384 - i,
        {
            slots.push(None);
            i = i + 1;
        }
        ClusterState { nodes: Vec::new(), slot_assignments: slots, migrations: Vec::new(),
            config_epoch: 0 }
    }

    /// Index of the node with the given id.
    pub fn find_node(&self, id: u64) -> (r: Option<usize>)
        ensures
            r matches Some(i) ==> i < self.nodes@.len() && self.nodes@[i as int].id == id,
            r is None ==> !self.spec_has_node(id),
            r is Some <==> self.spec_has_node(id),
    {
        let mut i: usize = 0;
        while i < self.nodes.len()
            invariant
                0 <= i <= self.nodes@.len(),
                forall|j: int| 0 <= j < i ==> (#[trigger] self.nodes@[j]).id != id,
            decreases self.nodes@.len() - i,
        {
            if self.nodes[i].id == id {
                return Some(i);
            }
            i = i + 1;
        }
        None
    }

    /// Index of the migration record for `slot`, with its description.
    pub fn find_migration(&self, slot: u16) -> (r: Option<usize>)
        requires
            self.wf(),
        ensures
            r matches Some(i) ==> i < self.migrations@.len() && self.migrations@[i as int].slot
                == slot && self.spec_migration_of(slot) == Some(self.migrations@[i as int]),
            r is None ==> self.spec_migration_of(slot) is None,
    {
        let mut i: usize = 0;
        while i < self.migrations.len()
            invariant
                self.wf(),
                0 <= i <= self.migrations@.len(),
                forall|j: int| 0 <= j < i ==> (#[trigger] self.migrations@[j]).slot != slot,
            decreases self.migrations@.len() - i,
        {
            if self.migrations[i].slot == slot {
                proof {
                    let w = choose|k: int|
                        0 <= k < self.migrations@.len() && (#[trigger] self.migrations@[k]).slot
                            == slot;
                    assert(w == i);
                }
                return Some(i);
            }
            i = i + 1;
        }
        None
    }

    /// How many slots are assigned.
    pub fn assigned_slots_count(&self) -> (r: usize)
        ensures
            r == spec_count_assigned(self.slot_assignments@),
    {
        let mut count: usize = 0;
        let mut i: usize = 0;
        assert(self.slot_assignments@.subrange(0, 0) =~= Seq::<Option<u64>>::empty());
        while i < self.slot_assignments.len()
            invariant
                0 <= i <= self.slot_assignments@.len(),
                count == spec_count_assigned(self.slot_assignments@.subrange(0, i as int)),
                count <= i,
            decreases self.slot_assignments@.len() - i,
        {
            proof {
                let p = self.slot_assignments@.subrange(0, i + 1);
                assert(p.drop_last() =~= self.slot_assignments@.subrange(0, i as int));
                assert(p.last() == self.slot_assignments@[i as int]);
            }
            if self.slot_assignments[i].is_some() {
                count = count + 1;
            }
            i = i + 1;
        }
        assert(self.slot_assignments@.subrange(0, i as int) =~= self.slot_assignments@);
        count
    }

    /// Whether every slot is assigned.
    pub fn all_slots_assigned(&self) -> (r: bool)
        ensures
            r == (spec_count_assigned(self.slot_assignments@) == 16384),
    {
        self.assigned_slots_count() == TOTAL_SLOTS_USIZE
    }

    /// How many distinct node ids appear in the slot vector.
    pub fn cluster_size(&self) -> (r: usize)
        ensures
            r == spec_owner_set(self.slot_assignments@).len(),
    {
        let mut seen: Vec<u64> = Vec::new();
        let mut i: usize = 0;
        proof {
            assert(self.slot_assignments@.subrange(0, 0) =~= Seq::<Option<u64>>::empty());
            lemma_owner_set_finite(self.slot_assignments@.subrange(0, 0));
        }
        while i < self.slot_assignments.len()
            invariant
                0 <= i <= self.slot_assignments@.len(),
                spec_owner_set(self.slot_assignments@.subrange(0, i as int)).finite(),
                seen@.len() == spec_owner_set(self.slot_assignments@.subrange(0, i as int)).len(),
                forall|j: int| 0 <= j < seen@.len() ==> spec_owner_set(
                    self.slot_assignments@.subrange(0, i as int),
                ).contains(#[trigger] seen@[j]),
                forall|x: u64| spec_owner_set(self.slot_assignments@.subrange(0, i as int))
                    .contains(x) ==> exists|k: int| 0 <= k < seen@.len() && seen@[k] == x,
                seen@.len() <= i,
            decreases self.slot_assignments@.len() - i,
        {
            let ghost pre = self.slot_assignments@.subrange(0, i as int);
            let ghost post = self.slot_assignments@.subrange(0, i + 1);
            proof {
                assert(post.drop_last() =~= pre);
                assert(post.last() == self.slot_assignments@[i as int]);
                lemma_owner_set_finite(post);
            }
            match self.slot_assignments[i] {
                Some(o) => {
                    let mut found = false;
                    let mut k: usize = 0;
                    while k < seen.len()
                        invariant
                            0 <= k <= seen@.len(),
                            found <==> exists|j: int| 0 <= j < k && seen@[j] == o,
                        decreases seen@.len() - k,
                    {
                        if seen[k] == o {
                            found = true;
                        }
                        k = k + 1;
                    }
                    if !found {
                        proof {
                            if spec_owner_set(pre).contains(o) {
                                let w = choose|w: int| 0 <= w < seen@.len() && seen@[w] == o;
                                assert(false);
                            }
                        }
                        let ghost seen0 = seen@;
                        seen.push(o);
                        proof {
                            assert(spec_owner_set(post) == spec_owner_set(pre).insert(o));
                            vstd::set::axiom_set_insert_len(spec_owner_set(pre), o);
                            assert(forall|j: int| 0 <= j < seen0.len() ==> #[trigger] seen@[j]
                                == seen0[j]);
                            assert(seen@[seen0.len() as int] == o);
                            assert(forall|j: int| 0 <= j < seen@.len() ==> spec_owner_set(
                                post,
                            ).contains(#[trigger] seen@[j]));
                            assert forall|x: u64| spec_owner_set(post).contains(x)
                                implies exists|k2: int| 0 <= k2 < seen@.len() && seen@[k2]
                                == x by {
                                if spec_owner_set(pre).contains(x) {
                                    let w = choose|w: int| 0 <= w < seen0.len() && seen0[w] == x;
                                    assert(seen@[w] == x);
                                } else {
                                    assert(x == o);
                                    assert(seen@[seen0.len() as int] == x);
                                }
                            }
                        }
                    } else {
                        proof {
                            let w = choose|j: int| 0 <= j < seen@.len() && seen@[j] == o;
                            assert(spec_owner_set(pre).contains(o));
                            assert(spec_owner_set(post) =~= spec_owner_set(pre));
                        }
                    }
                },
                None => {
                    assert(spec_owner_set(post) =~= spec_owner_set(pre));
                },
            }
            i = i + 1;
        }
        assert(self.slot_assignments@.subrange(0, i as int) =~= self.slot_assignments@);
        seen.len()
    }

    /// The maximal runs of identical owner, in slot order.
    pub fn compute_ranges(&self) -> (r: Vec<(u16, u16, u64)>)
        requires
            self.wf(),
        ensures
            r@ == spec_ranges(self.slot_assignments@),
    {
        let mut out: Vec<(u16, u16, u64)> = Vec::new();
        let mut open: Option<(u16, u64)> = None;
        let mut i: usize = 0;
        while i < self.slot_assignments.len()
            invariant
                self.wf(),
                0 <= i <= self.slot_assignments@.len(),
                (out@, open) == spec_scan(self.slot_assignments@, i as int),
            decreases self.slot_assignments@.len() - i,
        {
            let cur = self.slot_assignments[i];
            match open {
                None => {
                    match cur {
                        None => {},
                        Some(o) => {
                            open = Some((i as u16, o));
                        },
                    }
                },
                Some((st, o)) => {
                    match cur {
                        None => {
                            out.push((st, (i - 1) as u16, o));
                            open = None;
                        },
                        Some(o2) => {
                            if o != o2 {
                                out.push((st, (i - 1) as u16, o));
                                open = Some((i as u16, o2));
                            }
                        },
                    }
                },
            }
            i = i + 1;
        }
        match open {
            Some((st, o)) => {
                out.push((st, (TOTAL_SLOTS_USIZE - 1) as u16, o));
            },
            None => {},
        }
        out
    }

    /// A deep copy of the cluster state.
    pub fn duplicate(&self) -> (r: ClusterState)
        ensures
            r.nodes@ == self.nodes@,
            r.slot_assignments@ == self.slot_assignments@,
            r.migrations@ == self.migrations@,
            r.config_epoch == self.config_epoch,
    {
        let mut nodes: Vec<NodeInfo> = Vec::new();
        let mut i: usize = 0;
        while i < self.nodes.len()
            invariant
                0 <= i <= self.nodes@.len(),
                nodes@ =~= self.nodes@.subrange(0, i as int),
            decreases self.nodes@.len() - i,
        {
            nodes.push(self.nodes[i].duplicate());
            i = i + 1;
        }
        assert(nodes@ =~= self.nodes@);
        let mut slots: Vec<Option<u64>> = Vec::new();
        let mut j: usize = 0;
        while j < self.slot_assignments.len()
            invariant
                0 <= j <= self.slot_assignments@.len(),
                slots@ =~= self.slot_assignments@.subrange(0, j as int),
            decreases self.slot_assignments@.len() - j,
        {
            slots.push(self.slot_assignments[j]);
            j = j + 1;
        }
        assert(slots@ =~= self.slot_assignments@);
        let mut migs: Vec<SlotMigration> = Vec::new();
        let mut k: usize = 0;
        while k < self.migrations.len()
            invariant
                0 <= k <= self.migrations@.len(),
                migs@ =~= self.migrations@.subrange(0, k as int),
            decreases self.migrations@.len() - k,
        {
            migs.push(self.migrations[k]);
            k = k + 1;
        }
        assert(migs@ =~= self.migrations@);
        ClusterState {
            nodes,
            slot_assignments: slots,
            migrations: migs,
            config_epoch: self.config_epoch,
        }
    }
}

impl Default for ClusterState {
    /// The empty cluster state.
    fn default() -> (r: ClusterState)
        ensures
            r.wf(),
            r.nodes@.len() == 0,
            r.migrations@.len() == 0,
            r.config_epoch == 0,
            forall|i: int| 0 <= i < 16384 ==> #[trigger] r.slot_assignments@[i] is None,
    {
        ClusterState::new()
    }
}

/// The consensus-bus address derived from a data address: the host part
/// (before the last colon) joined with the cluster port; an address
/// without a colon is returned unchanged.
pub open spec fn spec_raft_addr(a: Seq<char>, cluster_port: u16) -> Seq<char> {
    match spec_rfind_char(a, ':') {
        Some(i) => a.subrange(0, i) + ":"@ + crate::text::spec_dec_u64(cluster_port as nat),
        None => a,
    }
}

pub fn raft_addr_from(data_addr: &str, cluster_port: u16) -> (r: String)
    ensures
        r@ == spec_raft_addr(data_addr@, cluster_port),
{
    let n = data_addr.unicode_len();
    match rfind_char(data_addr, ':') {
        Some(i) => {
            proof {
                crate::text::lemma_rfind_char(data_addr@, ':');
            }
            let host = data_addr.substring_char(0, i);
            let mut out = host.to_owned();
            out.append(":");
            out.append(crate::text::u64_to_string(cluster_port as u64).as_str());
            proof {
                assert(out@ =~= spec_raft_addr(data_addr@, cluster_port));
            }
            out
        },
        None => data_addr.to_owned(),
    }
}

/// The text after every leading `0x` prefix.
pub open spec fn spec_strip_hex_prefix(b: Seq<u8>) -> Seq<u8>
    decreases b.len(),
{
    if b.len() >= 2 && b[0] == 48u8 && b[1] == 120u8 {
        spec_strip_hex_prefix(b.skip(2))
    } else {
        b
    }
}

/// The node id a configuration text denotes: read as hexadecimal
/// (after stripping every leading `0x`), else as decimal, else a
/// stable hash of the text.
pub open spec fn spec_node_id_of_text(b: Seq<u8>) -> u64 {
    let stripped = spec_strip_hex_prefix(b);
    if crate::text::hex_token_ok(stripped) && crate::text::hex_bytes_val(crate::text::dec_body(
        stripped)) <= u64::MAX {
        crate::text::hex_bytes_val(crate::text::dec_body(stripped)) as u64
    } else if crate::text::dec_token_ok(b) && crate::text::dec_bytes_val(crate::text::dec_body(b))
        <= u64::MAX {
        crate::text::dec_bytes_val(crate::text::dec_body(b)) as u64
    } else {
        crate::text::spec_fnv64(b)
    }
}

/// Resolve a configured node id from its text.
pub fn node_id_from_text(b: &[u8]) -> (r: u64)
    ensures
        r == spec_node_id_of_text(b@),
{
    let mut start: usize = 0;
    assert(b@.skip(0) =~= b@);
    while b.len() - start >= 2 && b[start] == 48u8 && b[start + 1] == 120u8
        invariant
            0 <= start <= b@.len(),
            spec_strip_hex_prefix(b@.skip(start as int)) == spec_strip_hex_prefix(b@),
        decreases b@.len() - start,
    {
        proof {
            assert(b@.skip(start as int).skip(2) =~= b@.skip(start + 2));
        }
        start = start + 2;
    }
    proof {
        assert(spec_strip_hex_prefix(b@.skip(start as int)) =~= b@.skip(start as int));
    }
    let stripped = vstd::slice::slice_subrange(b, start, b.len());
    proof {
        assert(stripped@ =~= b@.skip(start as int));
    }
    match crate::text::parse_u64_hex(stripped) {
        Some(v) => v,
        None => {
            match crate::text::parse_u64_dec(b) {
                Some(v) => v,
                None => crate::text::fnv64(b),
            }
        },
    }
}

} // verus!
