//! The cluster command handlers: KEYSLOT, INFO, NODES, SLOTS, MYID,
//! MEET, FORGET, ADDSLOTS, DELSLOTS, SETSLOT and HELP, plus the
//! MOVED/ASK redirection builders and the redirect decision.

use vstd::prelude::*;
use vstd::utf8::encode_utf8;
use vstd::pervasive::VecAdditionalExecFns;
use crate::cluster::{
    ClusterState, NodeInfo, SlotMigration, SlotState, TOTAL_SLOTS, spec_count_assigned,
    spec_owner_set, spec_ranges, spec_cluster_port_of,
};
use crate::error::AikvError;
use crate::resp::RespValue;
use crate::slots::{key_to_slot, spec_slot_of};
use crate::text::{
    spec_upper_bytes, ascii_upper, bytes_eq, decoded_text, lossy_string, spec_dec_u64,
    u64_to_string, spec_hex40, u64_to_hex40, dec_token_ok, dec_bytes_val, dec_body,
    hex_token_ok, hex_bytes_val, parse_u16_dec, parse_u64_hex, spec_fnv64, fnv64,
};

verus! {

/// The two states are field-for-field equal.
pub open spec fn st_eq(a: ClusterState, b: ClusterState) -> bool {
    &&& a.nodes@ == b.nodes@
    &&& a.slot_assignments@ == b.slot_assignments@
    &&& a.migrations@ == b.migrations@
    &&& a.config_epoch == b.config_epoch
}

/// Every assigned slot's owner is a known node, or the local node itself.
pub open spec fn owners_ok(st: ClusterState, local: Option<u64>) -> bool {
    forall|s: int|
        0 <= s < st.slot_assignments@.len() ==> match #[trigger] st.slot_assignments@[s] {
            Some(o) => st.spec_has_node(o) || local == Some(o),
            None => true,
        }
}

/// The cluster command handler: the local node id and the cluster view.
#[derive(Debug)]
pub struct ClusterCommands {
    /// This node's id, when one was configured.
    pub node_id: Option<u64>,
    /// The cluster state this handler works on.
    pub state: ClusterState,
}

impl ClusterCommands {
    /// Handler invariant: a well-formed state whose slot owners are
    /// known nodes or the local node.
    pub open spec fn wf(self) -> bool {
        &&& self.state.wf()
        &&& owners_ok(self.state, self.node_id)
    }

    /// A handler with no node id over a fresh state.
    pub fn new() -> (r: ClusterCommands)
        ensures
            r.wf(),
            r.node_id is None,
            r.state.nodes@.len() == 0,
            r.state.config_epoch == 0,
            forall|i: int| 0 <= i < 16384 ==> #[trigger] r.state.slot_assignments@[i] is None,
    {
        ClusterCommands { node_id: None, state: ClusterState::new() }
    }

    /// A handler for the given node id; the node itself is registered
    /// at the default local address.
    pub fn with_node_id(node_id: u64) -> (r: ClusterCommands)
        ensures
            r.wf(),
            r.node_id == Some(node_id),
            r.state.spec_has_node(node_id),
            r.state.nodes@.len() == 1,
            r.state.nodes@[0].id == node_id,
            r.state.nodes@[0].addr@ == "127.0.0.1:6379"@,
            r.state.nodes@[0].cluster_port == spec_cluster_port_of("127.0.0.1:6379"@),
            r.state.nodes@[0].is_master,
            r.state.nodes@[0].is_connected,
            r.state.migrations@.len() == 0,
            r.state.config_epoch == 0,
            forall|i: int| 0 <= i < 16384 ==> #[trigger] r.state.slot_assignments@[i] is None,
    {
        let mut state = ClusterState::new();
        let info = NodeInfo::new(node_id, String::from_str("127.0.0.1:6379"));
        state.nodes.push(info);
        assert(state.nodes@[0].id == node_id);
        ClusterCommands { node_id: Some(node_id), state }
    }

    /// A handler over an existing state.
    pub fn with_shared_state(node_id: Option<u64>, state: ClusterState) -> (r: ClusterCommands)
        requires
            state.wf(),
            owners_ok(state, node_id),
        ensures
            r.wf(),
            r.node_id == node_id,
            st_eq(r.state, state),
    {
        ClusterCommands { node_id, state }
    }

    /// A snapshot of the cluster state.
    pub fn state(&self) -> (r: ClusterState)
        ensures
            st_eq(r, self.state),
            self.wf() ==> r.wf() && owners_ok(r, self.node_id),
    {
        let r = self.state.duplicate();
        proof {
            if self.wf() {
                assert(forall|o: u64| self.state.spec_has_node(o) ==> r.spec_has_node(o)) by {
                    assert(r.nodes@ == self.state.nodes@);
                }
            }
        }
        r
    }

    /// The permanent-redirect error: `MOVED <slot> <addr>`.
    pub fn moved_error(slot: u16, addr: &str) -> (r: RespValue)
        ensures
            r matches RespValue::Error(t) && t@ == "MOVED "@ + spec_dec_u64(slot as nat) + " "@
                + addr@,
    {
        let mut t = String::from_str("MOVED ");
        t.append(u64_to_string(slot as u64).as_str());
        t.append(" ");
        t.append(addr);
        proof {
            assert(t@ =~= "MOVED "@ + spec_dec_u64(slot as nat) + " "@ + addr@);
        }
        RespValue::Error(t)
    }

    /// The transient-redirect error: `ASK <slot> <addr>`.
    pub fn ask_error(slot: u16, addr: &str) -> (r: RespValue)
        ensures
            r matches RespValue::Error(t) && t@ == "ASK "@ + spec_dec_u64(slot as nat) + " "@
                + addr@,
    {
        let mut t = String::from_str("ASK ");
        t.append(u64_to_string(slot as u64).as_str());
        t.append(" ");
        t.append(addr);
        proof {
            assert(t@ =~= "ASK "@ + spec_dec_u64(slot as nat) + " "@ + addr@);
        }
        RespValue::Error(t)
    }

    /// KEYSLOT: the hash slot of a key.
    fn keyslot(&self, tail: &[Vec<u8>]) -> (r: Result<RespValue, AikvError>)
        ensures
            keyslot_post(tail@, r),
    {
        if tail.len() != 1 {
            return Err(AikvError::WrongArgCount(String::from_str("CLUSTER KEYSLOT")));
        }
        let slot = key_to_slot(tail[0].as_slice());
        Ok(RespValue::Integer(slot as i64))
    }

    /// MYID: this node's forty-hex id; forty zeros when unset.
    fn myid(&self) -> (r: Result<RespValue, AikvError>)
        ensures
            myid_post(self.node_id, r),
    {
        let my: u64 = match self.node_id {
            Some(id) => id,
            None => 0,
        };
        Ok(RespValue::bulk_text(u64_to_hex40(my)))
    }

    /// HELP: the fixed subcommand documentation.
    fn help(&self) -> (r: Result<RespValue, AikvError>)
        ensures
            help_post(r),
    {
        let mut items: Vec<RespValue> = Vec::new();
        items.push(RespValue::bulk_text(String::from_str("CLUSTER KEYSLOT <key>")));
        items.push(RespValue::bulk_text(String::from_str("    Return the hash slot for <key>.")));
        items.push(RespValue::bulk_text(String::from_str("CLUSTER INFO")));
        items.push(
            RespValue::bulk_text(String::from_str("    Return information about the cluster.")),
        );
        items.push(RespValue::bulk_text(String::from_str("CLUSTER NODES")));
        items.push(
            RespValue::bulk_text(
                String::from_str("    Return information about the cluster nodes."),
            ),
        );
        items.push(RespValue::bulk_text(String::from_str("CLUSTER SLOTS")));
        items.push(
            RespValue::bulk_text(
                String::from_str("    Return information about slot-to-node mapping."),
            ),
        );
        items.push(RespValue::bulk_text(String::from_str("CLUSTER MYID")));
        items.push(RespValue::bulk_text(String::from_str("    Return the node ID.")));
        items.push(
            RespValue::bulk_text(String::from_str("CLUSTER MEET <ip> <port> [<bus-port>]")),
        );
        items.push(RespValue::bulk_text(String::from_str("    Add a node to the cluster.")));
        items.push(RespValue::bulk_text(String::from_str("CLUSTER FORGET <node-id>")));
        items.push(RespValue::bulk_text(String::from_str("    Remove a node from the cluster.")));
        items.push(
            RespValue::bulk_text(String::from_str("CLUSTER ADDSLOTS <slot> [<slot> ...]")),
        );
        items.push(RespValue::bulk_text(String::from_str("    Assign slots to this node.")));
        items.push(
            RespValue::bulk_text(String::from_str("CLUSTER DELSLOTS <slot> [<slot> ...]")),
        );
        items.push(RespValue::bulk_text(String::from_str("    Remove slot assignments.")));
        items.push(
            RespValue::bulk_text(
                String::from_str("CLUSTER SETSLOT <slot> IMPORTING|MIGRATING|NODE|STABLE [<node-id>]"),
            ),
        );
        items.push(RespValue::bulk_text(String::from_str("    Set slot state or assign to node.")));
        Ok(RespValue::Array(Some(items)))
    }
}

/// The MYID reply: the forty-hex rendering of the local id, or of zero.
pub open spec fn myid_post(node_id: Option<u64>, r: Result<RespValue, AikvError>) -> bool {
    match r {
        Ok(RespValue::BulkString(Some(b))) => b@ == encode_utf8(
            spec_hex40(spec_my_id(node_id) as nat),
        ),
        _ => false,
    }
}

/// The HELP reply: the twenty fixed documentation lines.
pub open spec fn help_post(r: Result<RespValue, AikvError>) -> bool {
    match r {
        Ok(RespValue::Array(Some(items))) => items@.len() == 20 && (forall|k: int|
            0 <= k < 20 ==> match #[trigger] items@[k] {
                RespValue::BulkString(Some(b)) => b@ == encode_utf8(spec_help_line(k)),
                _ => false,
            }),
        _ => false,
    }
}

/// The local id rendered by MYID: the configured id, or zero.
pub open spec fn spec_my_id(node_id: Option<u64>) -> u64 {
    match node_id {
        Some(id) => id,
        None => 0,
    }
}

/// The KEYSLOT reply: the key's slot, or an arity error.
pub open spec fn keyslot_post(tail: Seq<Vec<u8>>, r: Result<RespValue, AikvError>) -> bool {
    if tail.len() != 1 {
        match r {
            Err(AikvError::WrongArgCount(c)) => c@ == "CLUSTER KEYSLOT"@,
            _ => false,
        }
    } else {
        match r {
            Ok(RespValue::Integer(v)) => v == spec_slot_of(tail[0]@) as i64,
            _ => false,
        }
    }
}

/// The fixed HELP lines.
pub open spec fn spec_help_line(k: int) -> Seq<char> {
    if k == 0 { "CLUSTER KEYSLOT <key>"@ }
    else if k == 1 { "    Return the hash slot for <key>."@ }
    else if k == 2 { "CLUSTER INFO"@ }
    else if k == 3 { "    Return information about the cluster."@ }
    else if k == 4 { "CLUSTER NODES"@ }
    else if k == 5 { "    Return information about the cluster nodes."@ }
    else if k == 6 { "CLUSTER SLOTS"@ }
    else if k == 7 { "    Return information about slot-to-node mapping."@ }
    else if k == 8 { "CLUSTER MYID"@ }
    else if k == 9 { "    Return the node ID."@ }
    else if k == 10 { "CLUSTER MEET <ip> <port> [<bus-port>]"@ }
    else if k == 11 { "    Add a node to the cluster."@ }
    else if k == 12 { "CLUSTER FORGET <node-id>"@ }
    else if k == 13 { "    Remove a node from the cluster."@ }
    else if k == 14 { "CLUSTER ADDSLOTS <slot> [<slot> ...]"@ }
    else if k == 15 { "    Assign slots to this node."@ }
    else if k == 16 { "CLUSTER DELSLOTS <slot> [<slot> ...]"@ }
    else if k == 17 { "    Remove slot assignments."@ }
    else if k == 18 { "CLUSTER SETSLOT <slot> IMPORTING|MIGRATING|NODE|STABLE [<node-id>]"@ }
    else { "    Set slot state or assign to node."@ }
}

// ---------------------------------------------------------------------------
// Rendering specifications.
// ---------------------------------------------------------------------------

/// The whole INFO body, key:value lines ended by CRLF.
pub open spec fn spec_info_text(st: ClusterState) -> Seq<char> {
    let assigned = spec_count_assigned(st.slot_assignments@);
    let known = st.nodes@.len();
    let size = spec_owner_set(st.slot_assignments@).len();
    let ep = st.config_epoch;
    "cluster_state:"@ + (if assigned == 16384 && known > 0 {
        "ok"@
    } else {
        "fail"@
    }) + "\r\ncluster_slots_assigned:"@ + spec_dec_u64(assigned)
        + "\r\ncluster_slots_ok:"@ + spec_dec_u64(assigned)
        + "\r\ncluster_slots_pfail:0\r\ncluster_slots_fail:0\r\ncluster_known_nodes:"@
        + spec_dec_u64(if known > 0 { known } else { 1 })
        + "\r\ncluster_size:"@ + spec_dec_u64(size)
        + "\r\ncluster_current_epoch:"@ + spec_dec_u64(ep as nat)
        + "\r\ncluster_my_epoch:"@ + spec_dec_u64(ep as nat)
        + "\r\ncluster_stats_messages_sent:0\r\ncluster_stats_messages_received:0\r\n"@
}

/// The INFO reply: a bulk string holding the rendered body.
pub open spec fn info_post(st: ClusterState, r: Result<RespValue, AikvError>) -> bool {
    match r {
        Ok(RespValue::BulkString(Some(b))) => b@ == encode_utf8(spec_info_text(st)),
        _ => false,
    }
}

/// One slot range as text: `start` alone, or `start-end`.
pub open spec fn spec_range_text(rg: (u16, u16)) -> Seq<char> {
    if rg.0 == rg.1 {
        spec_dec_u64(rg.0 as nat)
    } else {
        spec_dec_u64(rg.0 as nat) + "-"@ + spec_dec_u64(rg.1 as nat)
    }
}

/// The ranges owned by `id`, in order.
pub open spec fn spec_node_ranges(rs: Seq<(u16, u16, u64)>, id: u64) -> Seq<(u16, u16)>
    decreases rs.len(),
{
    if rs.len() == 0 {
        Seq::empty()
    } else {
        spec_node_ranges(rs.drop_last(), id) + if rs.last().2 == id {
            seq![(rs.last().0, rs.last().1)]
        } else {
            Seq::empty()
        }
    }
}

/// Space-separated range list.
pub open spec fn spec_ranges_text(rs: Seq<(u16, u16)>) -> Seq<char>
    decreases rs.len(),
{
    if rs.len() == 0 {
        Seq::empty()
    } else if rs.len() == 1 {
        spec_range_text(rs[0])
    } else {
        spec_ranges_text(rs.drop_last()) + " "@ + spec_range_text(rs.last())
    }
}

/// One NODES line for a node.
pub open spec fn spec_node_line(my: u64, ep: u64, n: NodeInfo, rs: Seq<(u16, u16, u64)>)
    -> Seq<char> {
    spec_hex40(n.id as nat) + " "@ + n.addr@ + "@"@ + spec_dec_u64(n.cluster_port as nat) + " "@
        + (if n.id == my {
        "myself,"@
    } else {
        Seq::<char>::empty()
    }) + (if n.is_master {
        "master"@
    } else {
        "slave"@
    }) + " - 0 0 "@ + spec_dec_u64(ep as nat) + " "@ + (if n.is_connected {
        "connected"@
    } else {
        "disconnected"@
    }) + " "@ + spec_ranges_text(spec_node_ranges(rs, n.id)) + "\r\n"@
}

/// The NODES lines, one per node in registry order.
pub open spec fn spec_nodes_lines(my: u64, ep: u64, nodes: Seq<NodeInfo>, rs: Seq<(u16, u16, u64)>)
    -> Seq<Seq<char>> {
    Seq::new(nodes.len(), |i: int| spec_node_line(my, ep, nodes[i], rs))
}

/// Concatenation of a sequence of texts.
pub open spec fn spec_join(ls: Seq<Seq<char>>) -> Seq<char>
    decreases ls.len(),
{
    if ls.len() == 0 {
        Seq::empty()
    } else {
        spec_join(ls.drop_last()) + ls.last()
    }
}

/// The whole NODES body: a synthetic self line when the registry is
/// empty, else one line per known node.
pub open spec fn spec_nodes_text(my: u64, st: ClusterState) -> Seq<char> {
    if st.nodes@.len() == 0 {
        spec_hex40(my as nat) + " 127.0.0.1:6379@16379 myself,master - 0 0 0 connected\r\n"@
    } else {
        spec_join(
            spec_nodes_lines(my, st.config_epoch, st.nodes@, spec_ranges(st.slot_assignments@)),
        )
    }
}

pub open spec fn nodes_post(node_id: Option<u64>, st: ClusterState, r: Result<
    RespValue,
    AikvError,
>) -> bool {
    match r {
        Ok(RespValue::BulkString(Some(b))) => b@ == encode_utf8(
            spec_nodes_text(spec_my_id(node_id), st),
        ),
        _ => false,
    }
}

/// The node registered under `id`, where one exists.
pub open spec fn spec_node_of(st: ClusterState, id: u64) -> NodeInfo {
    st.nodes@[choose|i: int| 0 <= i < st.nodes@.len() && (#[trigger] st.nodes@[i]).id == id]
}

/// The ip reported by SLOTS for an owner: the text before the first
/// colon of its address; the loopback address when the node is unknown.
pub open spec fn spec_slots_ip(st: ClusterState, id: u64) -> Seq<char> {
    if st.spec_has_node(id) {
        let a = spec_node_of(st, id).addr@;
        match crate::text::spec_find_char(a, ':') {
            Some(c) => a.subrange(0, c),
            None => a,
        }
    } else {
        "127.0.0.1"@
    }
}

/// The port reported by SLOTS for an owner: the text between the first
/// and second colons of its address read as a signed number, or 6379.
pub open spec fn spec_slots_port(st: ClusterState, id: u64) -> int {
    if st.spec_has_node(id) {
        let a = spec_node_of(st, id).addr@;
        match crate::text::spec_find_char(a, ':') {
            Some(c) => {
                let rest = a.skip(c + 1);
                let seg = match crate::text::spec_find_char(rest, ':') {
                    Some(j) => rest.subrange(0, j),
                    None => rest,
                };
                if crate::text::i64_chars_ok(seg) {
                    crate::text::i64_chars_val(seg)
                } else {
                    6379
                }
            },
            None => 6379,
        }
    } else {
        6379
    }
}

/// One SLOTS entry: `[start, end, [ip, port, node-id-hex]]`.
pub open spec fn spec_slot_entry(st: ClusterState, rng: (u16, u16, u64), v: RespValue) -> bool {
    match v {
        RespValue::Array(Some(t)) => t@.len() == 3 && t@[0] == RespValue::Integer(rng.0 as i64)
            && t@[1] == RespValue::Integer(rng.1 as i64) && match t@[2] {
            RespValue::Array(Some(n)) => n@.len() == 3 && (match n@[0] {
                RespValue::BulkString(Some(ip)) => ip@ == encode_utf8(spec_slots_ip(st, rng.2)),
                _ => false,
            }) && n@[1] == RespValue::Integer(spec_slots_port(st, rng.2) as i64) && (match n@[2] {
                RespValue::BulkString(Some(h)) => h@ == encode_utf8(spec_hex40(rng.2 as nat)),
                _ => false,
            }),
            _ => false,
        },
        _ => false,
    }
}

pub open spec fn slots_post(st: ClusterState, r: Result<RespValue, AikvError>) -> bool {
    match r {
        Ok(RespValue::Array(Some(entries))) => {
            let rs = spec_ranges(st.slot_assignments@);
            entries@.len() == rs.len() && forall|k: int|
                0 <= k < rs.len() ==> spec_slot_entry(st, rs[k], #[trigger] entries@[k])
        },
        _ => false,
    }
}

impl ClusterCommands {
    /// INFO: the cluster summary, rendered exactly.
    fn info(&self) -> (r: Result<RespValue, AikvError>)
        ensures
            info_post(self.state, r),
    {
        let assigned = self.state.assigned_slots_count();
        let all = self.state.all_slots_assigned();
        let known = self.state.nodes.len();
        let size = self.state.cluster_size();
        let ep = self.state.config_epoch;
        let mut t = String::from_str("cluster_state:");
        if all && known > 0 {
            t.append("ok");
        } else {
            t.append("fail");
        }
        t.append("\r\ncluster_slots_assigned:");
        t.append(u64_to_string(assigned as u64).as_str());
        t.append("\r\ncluster_slots_ok:");
        t.append(u64_to_string(assigned as u64).as_str());
        t.append("\r\ncluster_slots_pfail:0\r\ncluster_slots_fail:0\r\ncluster_known_nodes:");
        let known_shown: usize = if known > 0 {
            known
        } else {
            1
        };
        t.append(u64_to_string(known_shown as u64).as_str());
        t.append("\r\ncluster_size:");
        t.append(u64_to_string(size as u64).as_str());
        t.append("\r\ncluster_current_epoch:");
        t.append(u64_to_string(ep).as_str());
        t.append("\r\ncluster_my_epoch:");
        t.append(u64_to_string(ep).as_str());
        t.append("\r\ncluster_stats_messages_sent:0\r\ncluster_stats_messages_received:0\r\n");
        proof {
            assert(t@ =~= spec_info_text(self.state));
        }
        Ok(RespValue::bulk_text(t))
    }

    /// The space-separated text of the ranges owned by `id`.
    fn ranges_text(rs: &Vec<(u16, u16, u64)>, id: u64) -> (r: String)
        ensures
            r@ == spec_ranges_text(spec_node_ranges(rs@, id)),
    {
        let mut out = String::new();
        let mut first = true;
        let mut k: usize = 0;
        assert(rs@.subrange(0, 0) =~= Seq::<(u16, u16, u64)>::empty());
        while k < rs.len()
            invariant
                0 <= k <= rs@.len(),
                out@ == spec_ranges_text(spec_node_ranges(rs@.subrange(0, k as int), id)),
                first <==> spec_node_ranges(rs@.subrange(0, k as int), id).len() == 0,
            decreases rs@.len() - k,
        {
            let ghost pre = rs@.subrange(0, k as int);
            let ghost post = rs@.subrange(0, k + 1);
            proof {
                assert(post.drop_last() =~= pre);
                assert(post.last() == rs@[k as int]);
            }
            let (a, b, o) = rs[k];
            if o == id {
                let ghost nr_pre = spec_node_ranges(pre, id);
                let ghost nr_post = spec_node_ranges(post, id);
                proof {
                    assert(nr_post =~= nr_pre + seq![(a, b)]);
                    assert(nr_post.drop_last() =~= nr_pre);
                    assert(nr_post.last() == (a, b));
                }
                if !first {
                    out.append(" ");
                }
                if a == b {
                    out.append(u64_to_string(a as u64).as_str());
                } else {
                    out.append(u64_to_string(a as u64).as_str());
                    out.append("-");
                    out.append(u64_to_string(b as u64).as_str());
                }
                proof {
                    if nr_pre.len() == 0 {
                        assert(nr_post.len() == 1);
                        assert(nr_post[0] == (a, b));
                        assert(out@ =~= spec_ranges_text(nr_post));
                    } else {
                        assert(out@ =~= spec_ranges_text(nr_pre) + " "@ + spec_range_text((a, b)));
                        assert(out@ =~= spec_ranges_text(nr_post));
                    }
                }
                first = false;
            } else {
                proof {
                    assert(spec_node_ranges(post, id) =~= spec_node_ranges(pre, id));
                }
            }
            k = k + 1;
        }
        assert(rs@.subrange(0, k as int) =~= rs@);
        out
    }

    /// One NODES line.
    fn node_line(my: u64, ep: u64, n: &NodeInfo, rs: &Vec<(u16, u16, u64)>) -> (r: String)
        ensures
            r@ == spec_node_line(my, ep, *n, rs@),
    {
        let mut t = u64_to_hex40(n.id);
        t.append(" ");
        t.append(n.addr.as_str());
        t.append("@");
        t.append(u64_to_string(n.cluster_port as u64).as_str());
        t.append(" ");
        if n.id == my {
            t.append("myself,");
        }
        if n.is_master {
            t.append("master");
        } else {
            t.append("slave");
        }
        t.append(" - 0 0 ");
        t.append(u64_to_string(ep).as_str());
        t.append(" ");
        if n.is_connected {
            t.append("connected");
        } else {
            t.append("disconnected");
        }
        t.append(" ");
        let rt = Self::ranges_text(rs, n.id);
        t.append(rt.as_str());
        t.append("\r\n");
        proof {
            assert(t@ =~= spec_node_line(my, ep, *n, rs@));
        }
        t
    }

    /// NODES: one line per known node, or a synthetic self line.
    fn nodes(&self) -> (r: Result<RespValue, AikvError>)
        requires
            self.wf(),
        ensures
            nodes_post(self.node_id, self.state, r),
    {
        let my: u64 = match self.node_id {
            Some(id) => id,
            None => 0,
        };
        if self.state.nodes.len() == 0 {
            let mut t = u64_to_hex40(my);
            t.append(" 127.0.0.1:6379@16379 myself,master - 0 0 0 connected\r\n");
            proof {
                assert(t@ =~= spec_nodes_text(my, self.state));
            }
            return Ok(RespValue::bulk_text(t));
        }
        let ranges = self.state.compute_ranges();
        let ep = self.state.config_epoch;
        let mut out = String::new();
        let mut i: usize = 0;
        let ghost lines = spec_nodes_lines(my, ep, self.state.nodes@, ranges@);
        proof {
            assert(lines.subrange(0, 0) =~= Seq::<Seq<char>>::empty());
        }
        while i < self.state.nodes.len()
            invariant
                self.wf(),
                0 <= i <= self.state.nodes@.len(),
                ranges@ == spec_ranges(self.state.slot_assignments@),
                ep == self.state.config_epoch,
                lines == spec_nodes_lines(my, ep, self.state.nodes@, ranges@),
                out@ == spec_join(lines.subrange(0, i as int)),
            decreases self.state.nodes@.len() - i,
        {
            let line = Self::node_line(my, ep, &self.state.nodes[i], &ranges);
            out.append(line.as_str());
            proof {
                let p = lines.subrange(0, i + 1);
                assert(p.drop_last() =~= lines.subrange(0, i as int));
                assert(p.last() == lines[i as int]);
                assert(lines[i as int] == spec_node_line(my, ep, self.state.nodes@[i as int],
                    ranges@));
            }
            i = i + 1;
        }
        proof {
            assert(lines.subrange(0, i as int) =~= lines);
        }
        Ok(RespValue::bulk_text(out))
    }

    /// The ip and port reported by SLOTS for an owner.
    fn node_ip_port(&self, id: u64) -> (r: (String, i64))
        requires
            self.wf(),
        ensures
            r.0@ == spec_slots_ip(self.state, id),
            r.1 == spec_slots_port(self.state, id),
    {
        match self.state.find_node(id) {
            None => (String::from_str("127.0.0.1"), 6379),
            Some(i) => {
                proof {
                    let w = choose|w: int|
                        0 <= w < self.state.nodes@.len() && (#[trigger] self.state.nodes@[w]).id
                            == id;
                    assert(w == i);
                }
                let addr: &str = self.state.nodes[i].addr.as_str();
                let n = addr.unicode_len();
                match crate::text::find_char(addr, ':') {
                    None => {
                        proof {
                            crate::text::lemma_find_char(addr@, ':');
                        }
                        (addr.to_owned(), 6379)
                    },
                    Some(c) => {
                        proof {
                            crate::text::lemma_find_char(addr@, ':');
                        }
                        let ip = addr.substring_char(0, c).to_owned();
                        let rest = addr.substring_char(c + 1, n);
                        proof {
                            assert(rest@ =~= addr@.skip(c + 1));
                        }
                        let seg: &str = match crate::text::find_char(rest, ':') {
                            Some(j) => {
                                proof {
                                    crate::text::lemma_find_char(rest@, ':');
                                }
                                let s2 = rest.substring_char(0, j);
                                s2
                            },
                            None => rest,
                        };
                        let port: i64 = match crate::text::parse_i64_chars(seg) {
                            Some(p) => p,
                            None => 6379,
                        };
                        (ip, port)
                    },
                }
            },
        }
    }

    /// SLOTS: one entry per owned range, with owner address details.
    fn slots(&self) -> (r: Result<RespValue, AikvError>)
        requires
            self.wf(),
        ensures
            slots_post(self.state, r),
    {
        let ranges = self.state.compute_ranges();
        let mut result: Vec<RespValue> = Vec::new();
        let mut k: usize = 0;
        while k < ranges.len()
            invariant
                self.wf(),
                0 <= k <= ranges@.len(),
                ranges@ == spec_ranges(self.state.slot_assignments@),
                result@.len() == k,
                forall|j: int| 0 <= j < k ==> spec_slot_entry(self.state, ranges@[j],
                    #[trigger] result@[j]),
            decreases ranges@.len() - k,
        {
            let (a, b, o) = ranges[k];
            let (ip, port) = self.node_ip_port(o);
            let mut node_entry: Vec<RespValue> = Vec::new();
            node_entry.push(RespValue::bulk_text(ip));
            node_entry.push(RespValue::Integer(port));
            node_entry.push(RespValue::bulk_text(u64_to_hex40(o)));
            let mut slot_entry: Vec<RespValue> = Vec::new();
            slot_entry.push(RespValue::Integer(a as i64));
            slot_entry.push(RespValue::Integer(b as i64));
            slot_entry.push(RespValue::Array(Some(node_entry)));
            result.push(RespValue::Array(Some(slot_entry)));
            k = k + 1;
        }
        Ok(RespValue::Array(Some(result)))
    }
}

// ---------------------------------------------------------------------------
// Mutating subcommands: specifications.
// ---------------------------------------------------------------------------

/// The handler's state did not change.
pub open spec fn unchanged(pre: ClusterCommands, post: ClusterCommands) -> bool {
    st_eq(post.state, pre.state)
}

pub open spec fn err_arity(r: Result<RespValue, AikvError>, c: Seq<char>) -> bool {
    match r {
        Err(AikvError::WrongArgCount(s)) => s@ == c,
        _ => false,
    }
}

pub open spec fn err_invalid(r: Result<RespValue, AikvError>, m: Seq<char>) -> bool {
    match r {
        Err(AikvError::InvalidArgument(s)) => s@ == m,
        _ => false,
    }
}

pub open spec fn err_invalid_cmd(r: Result<RespValue, AikvError>, m: Seq<char>) -> bool {
    match r {
        Err(AikvError::InvalidCommand(s)) => s@ == m,
        _ => false,
    }
}

pub open spec fn ok_simple(r: Result<RespValue, AikvError>, t: Seq<char>) -> bool {
    match r {
        Ok(RespValue::SimpleString(s)) => s@ == t,
        _ => false,
    }
}

/// A slot argument parses as a `u16`.
pub open spec fn slot_parse_ok(a: Seq<u8>) -> bool {
    dec_token_ok(a) && dec_bytes_val(dec_body(a)) <= u16::MAX
}

pub open spec fn slot_val(a: Seq<u8>) -> nat {
    dec_bytes_val(dec_body(a))
}

/// A slot argument parses and is in range.
pub open spec fn slot_arg_good(a: Seq<u8>) -> bool {
    slot_parse_ok(a) && slot_val(a) < 16384
}

/// The parsed slot values, in argument order.
pub open spec fn spec_slot_vals(tail: Seq<Vec<u8>>) -> Seq<u16> {
    Seq::new(tail.len(), |k: int| slot_val(tail[k]@) as u16)
}

/// The message for a slot argument that does not parse or is too large.
pub open spec fn spec_bad_slot_msg(a: Seq<u8>) -> Seq<char> {
    if !slot_parse_ok(a) {
        "Invalid slot number"@
    } else {
        "Invalid slot "@ + spec_dec_u64(slot_val(a)) + " (out of range 0-16383)"@
    }
}

/// A node-id argument parses as hexadecimal into 64 bits.
pub open spec fn hex_id_ok(a: Seq<u8>) -> bool {
    hex_token_ok(a) && hex_bytes_val(dec_body(a)) <= u64::MAX
}

pub open spec fn hex_id_val(a: Seq<u8>) -> nat {
    hex_bytes_val(dec_body(a))
}

/// Whether `x` occurs in `vals`.
pub open spec fn seq_has(vals: Seq<u16>, x: u16) -> bool {
    exists|j: int| 0 <= j < vals.len() && vals[j] == x
}

/// The node written by MEET.
pub open spec fn is_met_node(n: NodeInfo, id: u64, addr: Seq<char>, cp: u16) -> bool {
    &&& n.id == id
    &&& n.addr@ == addr
    &&& n.cluster_port == cp
    &&& n.is_master
    &&& n.is_connected
}

/// MEET's successful state change: the node inserted (replacing any
/// node of the same id), the epoch bumped, everything else untouched.
pub open spec fn meet_applied(pre: ClusterState, post: ClusterState, id: u64, addr: Seq<char>,
    cp: u16) -> bool {
    &&& post.slot_assignments@ == pre.slot_assignments@
    &&& post.migrations@ == pre.migrations@
    &&& post.config_epoch == pre.config_epoch + 1
    &&& if pre.spec_has_node(id) {
        &&& post.nodes@.len() == pre.nodes@.len()
        &&& forall|i: int|
            0 <= i < pre.nodes@.len() && (#[trigger] pre.nodes@[i]).id != id ==> post.nodes@[i]
                == pre.nodes@[i]
        &&& forall|i: int|
            0 <= i < pre.nodes@.len() && (#[trigger] pre.nodes@[i]).id == id ==> is_met_node(
                post.nodes@[i], id, addr, cp)
    } else {
        &&& post.nodes@.len() == pre.nodes@.len() + 1
        &&& forall|i: int| 0 <= i < pre.nodes@.len() ==> #[trigger] post.nodes@[i]
            == pre.nodes@[i]
        &&& is_met_node(post.nodes@[pre.nodes@.len() as int], id, addr, cp)
    }
}

/// The MEET contract.
pub open spec fn meet_post(pre: ClusterCommands, tail: Seq<Vec<u8>>, post: ClusterCommands,
    r: Result<RespValue, AikvError>) -> bool {
    &&& post.node_id == pre.node_id
    &&& if tail.len() < 2 {
        unchanged(pre, post) && err_arity(r, "CLUSTER MEET"@)
    } else if !(dec_token_ok(tail[1]@) && dec_bytes_val(dec_body(tail[1]@)) <= u16::MAX) {
        unchanged(pre, post) && err_invalid(r, "Invalid port number"@)
    } else if tail.len() > 2 && !(dec_token_ok(tail[2]@) && dec_bytes_val(dec_body(tail[2]@))
        <= u16::MAX) {
        unchanged(pre, post) && err_invalid(r, "Invalid cluster port number"@)
    } else {
        let port = dec_bytes_val(dec_body(tail[1]@));
        let cp = if tail.len() > 2 {
            dec_bytes_val(dec_body(tail[2]@))
        } else {
            (port + 10000) % 0x10000
        };
        let addr = decoded_text(tail[0]@) + ":"@ + spec_dec_u64(port);
        let id = spec_fnv64(encode_utf8(addr));
        meet_applied(pre.state, post.state, id, addr, cp as u16) && ok_simple(r, "OK"@)
    }
}

/// The FORGET contract.
pub open spec fn forget_post(pre: ClusterCommands, tail: Seq<Vec<u8>>, post: ClusterCommands,
    r: Result<RespValue, AikvError>) -> bool {
    &&& post.node_id == pre.node_id
    &&& if tail.len() != 1 {
        unchanged(pre, post) && err_arity(r, "CLUSTER FORGET"@)
    } else if !hex_id_ok(tail[0]@) {
        unchanged(pre, post) && err_invalid(r, "Invalid node ID"@)
    } else {
        let id = hex_id_val(tail[0]@) as u64;
        if pre.node_id == Some(id) {
            unchanged(pre, post) && err_invalid(r, "I tried hard but I can't forget myself"@)
        } else if !pre.state.spec_has_node(id) {
            unchanged(pre, post) && err_invalid(r, "Unknown node "@ + decoded_text(tail[0]@))
        } else {
            &&& ok_simple(r, "OK"@)
            &&& post.state.migrations@ == pre.state.migrations@
            &&& post.state.config_epoch == pre.state.config_epoch + 1
            &&& exists|i: int|
                0 <= i < pre.state.nodes@.len() && (#[trigger] pre.state.nodes@[i]).id == id
                    && post.state.nodes@ == pre.state.nodes@.remove(i)
            &&& post.state.slot_assignments@.len() == pre.state.slot_assignments@.len()
            &&& forall|s: int|
                0 <= s < pre.state.slot_assignments@.len()
                    ==> #[trigger] post.state.slot_assignments@[s] == (
                    if pre.state.slot_assignments@[s] == Some(id) {
                    Option::<u64>::None
                } else {
                    pre.state.slot_assignments@[s]
                })
        }
    }
}

/// A slot is busy for `my` when another node owns it.
pub open spec fn slot_busy(st: ClusterState, v: u16, my: u64) -> bool {
    match st.slot_assignments@[v as int] {
        Some(o) => o != my,
        None => false,
    }
}

/// ADDSLOTS failed on the first slot another node holds.
pub open spec fn addslots_busy_err(pre: ClusterCommands, vals: Seq<u16>, my: u64, r: Result<
    RespValue,
    AikvError,
>) -> bool {
    exists|k: int|
        0 <= k < vals.len() && slot_busy(pre.state, #[trigger] vals[k], my) && (forall|j: int|
            0 <= j < k ==> !slot_busy(pre.state, #[trigger] vals[j], my)) && err_invalid(
            r, "Slot "@ + spec_dec_u64(vals[k] as nat) + " is already busy"@)
}

/// The ADDSLOTS contract: parse everything, then all or nothing.
pub open spec fn addslots_post(pre: ClusterCommands, tail: Seq<Vec<u8>>, post: ClusterCommands,
    r: Result<RespValue, AikvError>) -> bool {
    &&& post.node_id == pre.node_id
    &&& if tail.len() == 0 {
        unchanged(pre, post) && err_arity(r, "CLUSTER ADDSLOTS"@)
    } else if pre.node_id is None {
        unchanged(pre, post) && err_invalid_cmd(r, "Node ID not set for this cluster node"@)
    } else {
        let my = pre.node_id->0;
        if !(forall|k: int| 0 <= k < tail.len() ==> slot_arg_good(#[trigger] tail[k]@)) {
            &&& unchanged(pre, post)
            &&& exists|k: int|
                0 <= k < tail.len() && !slot_arg_good(#[trigger] tail[k]@) && (forall|j: int|
                    0 <= j < k ==> slot_arg_good(#[trigger] tail[j]@)) && err_invalid(
                    r, spec_bad_slot_msg(tail[k]@))
        } else {
            let vals = spec_slot_vals(tail);
            if exists|k: int| 0 <= k < vals.len() && slot_busy(pre.state, #[trigger] vals[k], my) {
                &&& unchanged(pre, post)
                &&& addslots_busy_err(pre, vals, my, r)
            } else {
                &&& ok_simple(r, "OK"@)
                &&& post.state.nodes@ == pre.state.nodes@
                &&& post.state.migrations@ == pre.state.migrations@
                &&& post.state.config_epoch == pre.state.config_epoch + 1
                &&& post.state.slot_assignments@.len() == pre.state.slot_assignments@.len()
                &&& forall|s: int|
                    0 <= s < pre.state.slot_assignments@.len()
                        ==> #[trigger] post.state.slot_assignments@[s] == (if seq_has(vals,
                        s as u16) && s < 16384 {
                        Some(my)
                    } else {
                        pre.state.slot_assignments@[s]
                    })
            }
        }
    }
}

/// A slot may not be deleted when a different node owns it (and a local
/// id is set).
pub open spec fn slot_not_owned(st: ClusterState, v: u16, local: Option<u64>) -> bool {
    match st.slot_assignments@[v as int] {
        Some(o) => local is Some && local != Some(o),
        None => false,
    }
}

/// The migration records left after dropping the listed slots.
pub open spec fn spec_remove_migs(ms: Seq<SlotMigration>, vals: Seq<u16>) -> Seq<SlotMigration>
    decreases ms.len(),
{
    if ms.len() == 0 {
        Seq::empty()
    } else {
        spec_remove_migs(ms.drop_last(), vals) + if seq_has(vals, ms.last().slot) {
            Seq::empty()
        } else {
            seq![ms.last()]
        }
    }
}

/// Dropping slots keeps a sublist of the records, pairwise distinct.
pub proof fn lemma_remove_migs_wf(ms: Seq<SlotMigration>, vals: Seq<u16>)
    requires
        forall|x: int, y: int|
            0 <= x < y < ms.len() ==> (#[trigger] ms[x]).slot != (#[trigger] ms[y]).slot,
    ensures
        ({
            let rm = spec_remove_migs(ms, vals);
            &&& forall|j: int|
                0 <= j < rm.len() ==> exists|i: int| 0 <= i < ms.len() && #[trigger] rm[j]
                    == ms[i]
            &&& forall|x: int, y: int|
                0 <= x < y < rm.len() ==> (#[trigger] rm[x]).slot != (#[trigger] rm[y]).slot
            &&& forall|j: int| 0 <= j < rm.len() ==> !seq_has(vals, (#[trigger] rm[j]).slot)
        }),
    decreases ms.len(),
{
    if ms.len() > 0 {
        assert(forall|x: int, y: int|
            0 <= x < y < ms.drop_last().len() ==> (#[trigger] ms.drop_last()[x]).slot
                != (#[trigger] ms.drop_last()[y]).slot);
        lemma_remove_migs_wf(ms.drop_last(), vals);
        let rp = spec_remove_migs(ms.drop_last(), vals);
        let rm = spec_remove_migs(ms, vals);
        assert(forall|j: int| 0 <= j < rp.len() ==> #[trigger] rm[j] == rp[j]);
        assert(forall|j: int| 0 <= j < rp.len() ==> exists|i: int|
            0 <= i < ms.len() && #[trigger] rp[j] == ms[i]) by {
            assert(forall|j: int| 0 <= j < rp.len() ==> exists|i: int|
                0 <= i < ms.drop_last().len() && #[trigger] rp[j] == ms.drop_last()[i]);
            assert(forall|i: int| 0 <= i < ms.drop_last().len() ==> #[trigger] ms.drop_last()[i]
                == ms[i]);
            assert forall|j: int| 0 <= j < rp.len() implies exists|i: int|
                0 <= i < ms.len() && #[trigger] rp[j] == ms[i] by {
                let i = choose|i: int| 0 <= i < ms.drop_last().len() && rp[j]
                    == ms.drop_last()[i];
                assert(rp[j] == ms[i]);
            }
        }
        if !seq_has(vals, ms.last().slot) {
            assert(rm.last() == ms.last());
            assert(rm[rm.len() - 1] == ms[ms.len() - 1]);
            assert forall|x: int, y: int| 0 <= x < y < rm.len() implies (#[trigger] rm[x]).slot
                != (#[trigger] rm[y]).slot by {
                if y == rm.len() - 1 {
                    let i = choose|i: int| 0 <= i < ms.drop_last().len() && rp[x]
                        == ms.drop_last()[i];
                    assert(rm[x] == ms[i]);
                    assert(ms[i].slot != ms[ms.len() - 1].slot);
                }
            }
        }
    }
}

/// The DELSLOTS contract.
pub open spec fn delslots_post(pre: ClusterCommands, tail: Seq<Vec<u8>>, post: ClusterCommands,
    r: Result<RespValue, AikvError>) -> bool {
    &&& post.node_id == pre.node_id
    &&& if tail.len() == 0 {
        unchanged(pre, post) && err_arity(r, "CLUSTER DELSLOTS"@)
    } else if !(forall|k: int| 0 <= k < tail.len() ==> slot_arg_good(#[trigger] tail[k]@)) {
        &&& unchanged(pre, post)
        &&& exists|k: int|
            0 <= k < tail.len() && !slot_arg_good(#[trigger] tail[k]@) && (forall|j: int|
                0 <= j < k ==> slot_arg_good(#[trigger] tail[j]@)) && err_invalid(
                r, spec_bad_slot_msg(tail[k]@))
    } else {
        let vals = spec_slot_vals(tail);
        if exists|k: int| 0 <= k < vals.len() && slot_not_owned(pre.state, #[trigger] vals[k],
            pre.node_id) {
            &&& unchanged(pre, post)
            &&& exists|k: int|
                0 <= k < vals.len() && slot_not_owned(pre.state, #[trigger] vals[k], pre.node_id)
                    && (forall|j: int| 0 <= j < k ==> !slot_not_owned(pre.state,
                    #[trigger] vals[j], pre.node_id)) && err_invalid(r, "Slot "@ + spec_dec_u64(
                    vals[k] as nat) + " is not owned by this node"@)
        } else {
            &&& ok_simple(r, "OK"@)
            &&& post.state.nodes@ == pre.state.nodes@
            &&& post.state.migrations@ == spec_remove_migs(pre.state.migrations@, vals)
            &&& post.state.config_epoch == pre.state.config_epoch + 1
            &&& post.state.slot_assignments@.len() == pre.state.slot_assignments@.len()
            &&& forall|s: int|
                0 <= s < pre.state.slot_assignments@.len()
                    ==> #[trigger] post.state.slot_assignments@[s] == (if seq_has(vals, s as u16)
                    && s < 16384 {
                    Option::<u64>::None
                } else {
                    pre.state.slot_assignments@[s]
                })
        }
    }
}

/// Insert-or-replace of a migration record, keyed by slot.
pub open spec fn mig_upsert(pre: Seq<SlotMigration>, post: Seq<SlotMigration>,
    rec: SlotMigration) -> bool {
    if exists|i: int| 0 <= i < pre.len() && (#[trigger] pre[i]).slot == rec.slot {
        &&& post.len() == pre.len()
        &&& forall|i: int|
            0 <= i < pre.len() && (#[trigger] pre[i]).slot != rec.slot ==> post[i] == pre[i]
        &&& forall|i: int|
            0 <= i < pre.len() && (#[trigger] pre[i]).slot == rec.slot ==> post[i] == rec
    } else {
        post == pre.push(rec)
    }
}

/// Removal of any migration record for a slot.
pub open spec fn mig_removed(pre: Seq<SlotMigration>, post: Seq<SlotMigration>, slot: u16)
    -> bool {
    if exists|i: int| 0 <= i < pre.len() && (#[trigger] pre[i]).slot == slot {
        exists|i: int|
            0 <= i < pre.len() && (#[trigger] pre[i]).slot == slot && post == pre.remove(i)
    } else {
        post == pre
    }
}

/// The SETSLOT contract. Migration half-states are only accepted on the
/// matching side: MIGRATING on a slot this node owns, IMPORTING on one
/// it does not own.
pub open spec fn setslot_post(pre: ClusterCommands, tail: Seq<Vec<u8>>, post: ClusterCommands,
    r: Result<RespValue, AikvError>) -> bool {
    &&& post.node_id == pre.node_id
    &&& if tail.len() < 2 {
        unchanged(pre, post) && err_arity(r, "CLUSTER SETSLOT"@)
    } else if !slot_parse_ok(tail[0]@) {
        unchanged(pre, post) && err_invalid(r, "Invalid slot number"@)
    } else if slot_val(tail[0]@) >= 16384 {
        unchanged(pre, post) && err_invalid(r, spec_bad_slot_msg(tail[0]@))
    } else {
        let slot = slot_val(tail[0]@) as u16;
        let sub = spec_upper_bytes(tail[1]@);
        if sub == encode_utf8("IMPORTING"@) {
            if tail.len() < 3 {
                unchanged(pre, post) && err_arity(r, "CLUSTER SETSLOT IMPORTING"@)
            } else if !hex_id_ok(tail[2]@) {
                unchanged(pre, post) && err_invalid(r, "Invalid node ID"@)
            } else if pre.node_id is Some && pre.state.slot_assignments@[slot as int]
                == Some(pre.node_id->0) {
                unchanged(pre, post) && err_invalid(r, "Slot "@ + spec_dec_u64(slot as nat)
                    + " is already owned by this node"@)
            } else {
                &&& ok_simple(r, "OK"@)
                &&& post.state.nodes@ == pre.state.nodes@
                &&& post.state.slot_assignments@ == pre.state.slot_assignments@
                &&& post.state.config_epoch == pre.state.config_epoch + 1
                &&& mig_upsert(pre.state.migrations@, post.state.migrations@, SlotMigration {
                    slot,
                    state: SlotState::Importing,
                    peer: hex_id_val(tail[2]@) as u64,
                })
            }
        } else if sub == encode_utf8("MIGRATING"@) {
            if tail.len() < 3 {
                unchanged(pre, post) && err_arity(r, "CLUSTER SETSLOT MIGRATING"@)
            } else if !hex_id_ok(tail[2]@) {
                unchanged(pre, post) && err_invalid(r, "Invalid node ID"@)
            } else if !(pre.node_id is Some && pre.state.slot_assignments@[slot as int]
                == Some(pre.node_id->0)) {
                unchanged(pre, post) && err_invalid(r, "Slot "@ + spec_dec_u64(slot as nat)
                    + " is not owned by this node"@)
            } else {
                &&& ok_simple(r, "OK"@)
                &&& post.state.nodes@ == pre.state.nodes@
                &&& post.state.slot_assignments@ == pre.state.slot_assignments@
                &&& post.state.config_epoch == pre.state.config_epoch + 1
                &&& mig_upsert(pre.state.migrations@, post.state.migrations@, SlotMigration {
                    slot,
                    state: SlotState::Migrating,
                    peer: hex_id_val(tail[2]@) as u64,
                })
            }
        } else if sub == encode_utf8("NODE"@) {
            if tail.len() < 3 {
                unchanged(pre, post) && err_arity(r, "CLUSTER SETSLOT NODE"@)
            } else if !hex_id_ok(tail[2]@) {
                unchanged(pre, post) && err_invalid(r, "Invalid node ID"@)
            } else {
                let target = hex_id_val(tail[2]@) as u64;
                if !pre.state.spec_has_node(target) && pre.node_id != Some(target) {
                    unchanged(pre, post) && err_invalid(r, "Unknown node "@ + decoded_text(
                        tail[2]@))
                } else {
                    &&& ok_simple(r, "OK"@)
                    &&& post.state.nodes@ == pre.state.nodes@
                    &&& post.state.config_epoch == pre.state.config_epoch + 1
                    &&& post.state.slot_assignments@ == pre.state.slot_assignments@.update(
                        slot as int, Some(target))
                    &&& mig_removed(pre.state.migrations@, post.state.migrations@, slot)
                }
            }
        } else if sub == encode_utf8("STABLE"@) {
            &&& ok_simple(r, "OK"@)
            &&& post.state.nodes@ == pre.state.nodes@
            &&& post.state.slot_assignments@ == pre.state.slot_assignments@
            &&& post.state.config_epoch == pre.state.config_epoch + 1
            &&& mig_removed(pre.state.migrations@, post.state.migrations@, slot)
        } else {
            unchanged(pre, post) && err_invalid(r, "Unknown SETSLOT subcommand: "@ + decoded_text(
                spec_upper_bytes(tail[1]@)))
        }
    }
}

impl ClusterCommands {
    /// MEET: register a peer node, deriving its id from its address.
    fn meet(&mut self, tail: &[Vec<u8>]) -> (r: Result<RespValue, AikvError>)
        requires
            old(self).wf(),
            old(self).state.config_epoch < u64::MAX,
        ensures
            final(self).wf(),
            meet_post(*old(self), tail@, *final(self), r),
    {
        if tail.len() < 2 {
            return Err(AikvError::WrongArgCount(String::from_str("CLUSTER MEET")));
        }
        let port: u16 = match parse_u16_dec(tail[1].as_slice()) {
            Some(p) => p,
            None => {
                return Err(AikvError::InvalidArgument(String::from_str("Invalid port number")));
            },
        };
        let cluster_port: u16 = if tail.len() > 2 {
            match parse_u16_dec(tail[2].as_slice()) {
                Some(p) => p,
                None => {
                    return Err(
                        AikvError::InvalidArgument(
                            String::from_str("Invalid cluster port number"),
                        ),
                    );
                },
            }
        } else {
            (((port as u32) + 10000) % 0x10000) as u16
        };
        let mut addr = lossy_string(tail[0].as_slice());
        addr.append(":");
        addr.append(u64_to_string(port as u64).as_str());
        let ghost addr_chars: Seq<char> = addr@;
        proof {
            assert(addr_chars =~= decoded_text(tail@[0]@) + ":"@ + spec_dec_u64(port as nat));
        }
        let addr_bytes = addr.as_str().as_bytes_vec();
        let id = fnv64(addr_bytes.as_slice());
        let mut info = NodeInfo::new(id, addr);
        info.cluster_port = cluster_port;
        let ghost pre_nodes = self.state.nodes@;
        match self.state.find_node(id) {
            Some(i) => {
                self.state.nodes.set(i, info);
                proof {
                    assert(forall|j: int| 0 <= j < pre_nodes.len() && j != i
                        ==> #[trigger] self.state.nodes@[j] == pre_nodes[j]);
                    assert(forall|j: int|
                        0 <= j < pre_nodes.len() && (#[trigger] pre_nodes[j]).id == id ==> j
                            == i);
                    assert(forall|j: int| 0 <= j < self.state.nodes@.len()
                        ==> (#[trigger] self.state.nodes@[j]).id == pre_nodes[j].id);
                    assert(forall|x: int, y: int|
                        0 <= x < y < self.state.nodes@.len()
                            ==> (#[trigger] self.state.nodes@[x]).id
                            != (#[trigger] self.state.nodes@[y]).id) by {
                        assert(forall|j: int| 0 <= j < self.state.nodes@.len()
                            ==> (#[trigger] self.state.nodes@[j]).id == pre_nodes[j].id);
                    }
                    assert(forall|o: u64| #![auto] old(self).state.spec_has_node(o)
                        ==> self.state.spec_has_node(o)) by {
                        assert forall|o: u64| old(self).state.spec_has_node(o)
                            implies self.state.spec_has_node(o) by {
                            let w = choose|w: int| 0 <= w < pre_nodes.len()
                                && (#[trigger] pre_nodes[w]).id == o;
                            if w == i {
                                assert(self.state.nodes@[i as int].id == id);
                                assert(pre_nodes[w].id == id);
                            } else {
                                assert(self.state.nodes@[w].id == o);
                            }
                        }
                    }

                }
                self.state.config_epoch = self.state.config_epoch + 1;
                proof {
                    assert(owners_ok(self.state, self.node_id)) by {
                        assert forall|sl: int|
                            0 <= sl < self.state.slot_assignments@.len() implies match #[trigger] self.state.slot_assignments@[sl] {
                            Some(o) => self.state.spec_has_node(o) || self.node_id == Some(o),
                            None => true,
                        } by {
                            match self.state.slot_assignments@[sl] {
                                Some(o) => {
                                    assert(old(self).state.slot_assignments@[sl] == Some(o));
                                    if old(self).state.spec_has_node(o) {
                                        let w = choose|w: int| 0 <= w < pre_nodes.len()
                                            && (#[trigger] pre_nodes[w]).id == o;
                                        if self.state.nodes@.len() == pre_nodes.len() {
                                            assert(self.state.nodes@[w].id == pre_nodes[w].id);
                                        } else {
                                            assert(self.state.nodes@[w] == pre_nodes[w]);
                                        }
                                    }
                                },
                                None => {},
                            }
                        }
                    }
                }
                Ok(RespValue::simple_string("OK"))
            },
            None => {
                self.state.nodes.push(info);
                proof {
                    assert(forall|j: int| 0 <= j < pre_nodes.len()
                        ==> #[trigger] self.state.nodes@[j] == pre_nodes[j]);
                    assert(forall|j: int| 0 <= j < pre_nodes.len()
                        ==> (#[trigger] pre_nodes[j]).id != id);
                    assert(self.state.nodes@[pre_nodes.len() as int].id == id);
                    assert(forall|x: int, y: int|
                        0 <= x < y < self.state.nodes@.len()
                            ==> (#[trigger] self.state.nodes@[x]).id
                            != (#[trigger] self.state.nodes@[y]).id) by {
                        assert(forall|j: int| 0 <= j < pre_nodes.len()
                            ==> #[trigger] self.state.nodes@[j] == pre_nodes[j]);
                        assert(forall|j: int| 0 <= j < pre_nodes.len()
                            ==> (#[trigger] pre_nodes[j]).id != id);
                    }
                    assert(forall|o: u64| #![auto] old(self).state.spec_has_node(o)
                        ==> self.state.spec_has_node(o)) by {
                        assert forall|o: u64| old(self).state.spec_has_node(o)
                            implies self.state.spec_has_node(o) by {
                            let w = choose|w: int| 0 <= w < pre_nodes.len()
                                && (#[trigger] pre_nodes[w]).id == o;
                            assert(self.state.nodes@[w].id == o);
                        }
                    }
                }
                self.state.config_epoch = self.state.config_epoch + 1;
                proof {
                    assert(owners_ok(self.state, self.node_id)) by {
                        assert forall|sl: int|
                            0 <= sl < self.state.slot_assignments@.len() implies match #[trigger] self.state.slot_assignments@[sl] {
                            Some(o) => self.state.spec_has_node(o) || self.node_id == Some(o),
                            None => true,
                        } by {
                            match self.state.slot_assignments@[sl] {
                                Some(o) => {
                                    assert(old(self).state.slot_assignments@[sl] == Some(o));
                                    if old(self).state.spec_has_node(o) {
                                        let w = choose|w: int| 0 <= w < pre_nodes.len()
                                            && (#[trigger] pre_nodes[w]).id == o;
                                        if self.state.nodes@.len() == pre_nodes.len() {
                                            assert(self.state.nodes@[w].id == pre_nodes[w].id);
                                        } else {
                                            assert(self.state.nodes@[w] == pre_nodes[w]);
                                        }
                                    }
                                },
                                None => {},
                            }
                        }
                    }
                }
                Ok(RespValue::simple_string("OK"))
            },
        }
    }

    /// FORGET: remove a known node (never this one) and free its slots.
    fn forget(&mut self, tail: &[Vec<u8>]) -> (r: Result<RespValue, AikvError>)
        requires
            old(self).wf(),
            old(self).state.config_epoch < u64::MAX,
        ensures
            final(self).wf(),
            forget_post(*old(self), tail@, *final(self), r),
    {
        if tail.len() != 1 {
            return Err(AikvError::WrongArgCount(String::from_str("CLUSTER FORGET")));
        }
        let id: u64 = match parse_u64_hex(tail[0].as_slice()) {
            Some(v) => v,
            None => {
                return Err(AikvError::InvalidArgument(String::from_str("Invalid node ID")));
            },
        };
        match self.node_id {
            Some(my) => {
                if my == id {
                    return Err(
                        AikvError::InvalidArgument(
                            String::from_str("I tried hard but I can't forget myself"),
                        ),
                    );
                }
            },
            None => {},
        }
        match self.state.find_node(id) {
            None => {
                let mut m = String::from_str("Unknown node ");
                m.append(lossy_string(tail[0].as_slice()).as_str());
                Err(AikvError::InvalidArgument(m))
            },
            Some(i) => {
                let ghost pre_nodes = self.state.nodes@;
                let ghost pre_slots = self.state.slot_assignments@;
                self.state.nodes.remove(i);
                proof {
                    assert(self.state.nodes@ =~= pre_nodes.remove(i as int));
                    assert(forall|x: int|
                        0 <= x < pre_nodes.remove(i as int).len()
                            ==> #[trigger] pre_nodes.remove(i as int)[x] == if x < i {
                            pre_nodes[x]
                        } else {
                            pre_nodes[x + 1]
                        });
                }
                let mut s: usize = 0;
                while s < self.state.slot_assignments.len()
                    invariant
                        0 <= s <= self.state.slot_assignments@.len(),
                        self.state.slot_assignments@.len() == pre_slots.len(),
                        forall|j: int| 0 <= j < s ==> #[trigger] self.state.slot_assignments@[j]
                            == (if pre_slots[j] == Some(id) {
                            Option::<u64>::None
                        } else {
                            pre_slots[j]
                        }),
                        forall|j: int| s <= j < pre_slots.len()
                            ==> #[trigger] self.state.slot_assignments@[j] == pre_slots[j],
                        self.state.nodes@ == pre_nodes.remove(i as int),
                        self.state.migrations@ == old(self).state.migrations@,
                        self.state.config_epoch == old(self).state.config_epoch,
                        self.node_id == old(self).node_id,
                    decreases self.state.slot_assignments@.len() - s,
                {
                    let clear = match self.state.slot_assignments[s] {
                        Some(o) => o == id,
                        None => false,
                    };
                    if clear {
                        self.state.slot_assignments.set(s, None);
                    }
                    s = s + 1;
                }
                self.state.config_epoch = self.state.config_epoch + 1;
                proof {
                    assert(forall|x: int, y: int|
                        0 <= x < y < self.state.nodes@.len() ==> (#[trigger] self.state.nodes@[x]).id
                            != (#[trigger] self.state.nodes@[y]).id) by {
                        assert(forall|x: int|
                            0 <= x < pre_nodes.remove(i as int).len()
                                ==> #[trigger] pre_nodes.remove(i as int)[x] == if x < i {
                                pre_nodes[x]
                            } else {
                                pre_nodes[x + 1]
                            });
                    }
                    assert(owners_ok(self.state, self.node_id)) by {
                        assert forall|sl: int|
                            0 <= sl < self.state.slot_assignments@.len() implies match #[trigger] self.state.slot_assignments@[sl] {
                            Some(o) => self.state.spec_has_node(o) || self.node_id == Some(o),
                            None => true,
                        } by {
                            match self.state.slot_assignments@[sl] {
                                Some(o) => {
                                    assert(pre_slots[sl] == Some(o));
                                    assert(o != id);
                                    if old(self).state.spec_has_node(o) {
                                        let w = choose|w: int| 0 <= w < pre_nodes.len()
                                            && (#[trigger] pre_nodes[w]).id == o;
                                        assert(w != i);
                                        if w < i {
                                            assert(self.state.nodes@[w].id == o);
                                        } else {
                                            assert(self.state.nodes@[w - 1].id == o);
                                        }
                                    }
                                },
                                None => {},
                            }
                        }
                    }
                }
                Ok(RespValue::simple_string("OK"))
            },
        }
    }
}

impl ClusterCommands {
    /// Parse every slot argument, or report the first bad one.
    fn parse_slots(tail: &[Vec<u8>]) -> (r: Result<Vec<u16>, AikvError>)
        ensures
            match r {
                Ok(vals) => (forall|k: int| 0 <= k < tail@.len() ==> slot_arg_good(
                    #[trigger] tail@[k]@)) && vals@ == spec_slot_vals(tail@),
                Err(e) => !(forall|k: int| 0 <= k < tail@.len() ==> slot_arg_good(
                    #[trigger] tail@[k]@)) && exists|k: int|
                    0 <= k < tail@.len() && !slot_arg_good(#[trigger] tail@[k]@) && (forall|j: int|
                        0 <= j < k ==> slot_arg_good(#[trigger] tail@[j]@)) && err_invalid(
                        Err::<RespValue, AikvError>(e), spec_bad_slot_msg(tail@[k]@)),
            },
    {
        let mut vals: Vec<u16> = Vec::new();
        let mut k: usize = 0;
        while k < tail.len()
            invariant
                0 <= k <= tail@.len(),
                vals@.len() == k,
                forall|j: int| 0 <= j < k ==> slot_arg_good(#[trigger] tail@[j]@),
                forall|j: int| 0 <= j < k ==> #[trigger] vals@[j] == slot_val(tail@[j]@) as u16,
            decreases tail@.len() - k,
        {
            match parse_u16_dec(tail[k].as_slice()) {
                None => {
                    return Err(
                        AikvError::InvalidArgument(String::from_str("Invalid slot number")),
                    );
                },
                Some(v) => {
                    if v >= TOTAL_SLOTS {
                        let mut m = String::from_str("Invalid slot ");
                        m.append(u64_to_string(v as u64).as_str());
                        m.append(" (out of range 0-16383)");
                        proof {
                            assert(m@ =~= spec_bad_slot_msg(tail@[k as int]@));
                        }
                        return Err(AikvError::InvalidArgument(m));
                    }
                    vals.push(v);
                },
            }
            k = k + 1;
        }
        assert(vals@ =~= spec_slot_vals(tail@));
        Ok(vals)
    }

    /// ADDSLOTS: assign the listed slots to this node, all or nothing.
    #[verifier::rlimit(50)]
    fn addslots(&mut self, tail: &[Vec<u8>]) -> (r: Result<RespValue, AikvError>)
        requires
            old(self).wf(),
            old(self).state.config_epoch < u64::MAX,
        ensures
            final(self).wf(),
            addslots_post(*old(self), tail@, *final(self), r),
    {
        if tail.len() == 0 {
            return Err(AikvError::WrongArgCount(String::from_str("CLUSTER ADDSLOTS")));
        }
        let my: u64 = match self.node_id {
            Some(m) => m,
            None => {
                return Err(
                    AikvError::InvalidCommand(
                        String::from_str("Node ID not set for this cluster node"),
                    ),
                );
            },
        };
        let vals: Vec<u16> = match Self::parse_slots(tail) {
            Ok(v) => v,
            Err(e) => {
                return Err(e);
            },
        };
        let ghost valsq: Seq<u16> = vals@;
        let mut k: usize = 0;
        while k < vals.len()
            invariant
                self.wf(),
                *self == *old(self),
                self.node_id == Some(my),
                tail@.len() > 0,
                0 <= k <= valsq.len(),
                vals@ == valsq,
                valsq == spec_slot_vals(tail@),
                forall|j: int| 0 <= j < tail@.len() ==> slot_arg_good(#[trigger] tail@[j]@),
                forall|j: int| 0 <= j < valsq.len() ==> #[trigger] valsq[j] < 16384,
                forall|j: int| 0 <= j < k ==> !slot_busy(self.state, #[trigger] valsq[j], my),
            decreases valsq.len() - k,
        {
            let v = vals[k];
            let busy = match self.state.slot_assignments[v as usize] {
                Some(o) => o != my,
                None => false,
            };
            if busy {
                let mut m = String::from_str("Slot ");
                m.append(u64_to_string(v as u64).as_str());
                m.append(" is already busy");
                let e = AikvError::InvalidArgument(m);
                proof {
                    let sv = spec_slot_vals(tail@);
                    let kk: int = k as int;
                    assert(sv == valsq);
                    assert(m@ =~= "Slot "@ + spec_dec_u64(valsq[kk] as nat)
                        + " is already busy"@);
                    assert(addslots_busy_err(*old(self), sv, my, Err::<RespValue, AikvError>(e)))
                        by {
                        assert(0 <= kk < sv.len() && slot_busy(old(self).state, #[trigger] sv[kk],
                            my) && (forall|j: int| 0 <= j < kk ==> !slot_busy(old(self).state,
                            #[trigger] sv[j], my)) && err_invalid(Err::<RespValue, AikvError>(e),
                            "Slot "@ + spec_dec_u64(sv[kk] as nat) + " is already busy"@));
                    }
                }
                return Err(e);
            }
            k = k + 1;
        }
        let ghost pre_slots = self.state.slot_assignments@;
        let mut k2: usize = 0;
        while k2 < vals.len()
            invariant
                0 <= k2 <= valsq.len(),
                vals@ == valsq,
                valsq == spec_slot_vals(tail@),
                forall|j: int| 0 <= j < tail@.len() ==> slot_arg_good(#[trigger] tail@[j]@),
                forall|j: int| 0 <= j < valsq.len() ==> #[trigger] valsq[j] < 16384,
                self.state.slot_assignments@.len() == pre_slots.len(),
                pre_slots.len() == 16384,
                self.node_id == old(self).node_id,
                self.state.nodes@ == old(self).state.nodes@,
                self.state.migrations@ == old(self).state.migrations@,
                self.state.config_epoch == old(self).state.config_epoch,
                forall|s: int| 0 <= s < 16384 ==> #[trigger] self.state.slot_assignments@[s] == (
                    if exists|j: int| 0 <= j < k2 && #[trigger] valsq[j] == s as u16 {
                    Some(my)
                } else {
                    pre_slots[s]
                }),
            decreases valsq.len() - k2,
        {
            let v = vals[k2];
            self.state.slot_assignments.set(v as usize, Some(my));
            proof {
                assert forall|s: int| 0 <= s < 16384 implies #[trigger] self.state.slot_assignments@[s]
                    == (if exists|j: int| 0 <= j < k2 + 1 && #[trigger] valsq[j] == s as u16 {
                    Some(my)
                } else {
                    pre_slots[s]
                }) by {
                    if s == v as int {
                        assert(valsq[k2 as int] == s as u16);
                    } else {
                        if exists|j: int| 0 <= j < k2 + 1 && #[trigger] valsq[j] == s as u16 {
                            let j = choose|j: int| 0 <= j < k2 + 1 && #[trigger] valsq[j]
                                == s as u16;
                            assert(j < k2);
                        }
                    }
                }
            }
            k2 = k2 + 1;
        }
        self.state.config_epoch = self.state.config_epoch + 1;
        proof {
            assert(owners_ok(self.state, self.node_id)) by {
                assert forall|sl: int|
                    0 <= sl < self.state.slot_assignments@.len() implies match #[trigger] self.state.slot_assignments@[sl] {
                    Some(o) => self.state.spec_has_node(o) || self.node_id == Some(o),
                    None => true,
                } by {
                    match self.state.slot_assignments@[sl] {
                        Some(o) => {
                            if o != my {
                                assert(old(self).state.slot_assignments@[sl] == Some(o));
                                if old(self).state.spec_has_node(o) {
                                    let w = choose|w: int|
                                        0 <= w < old(self).state.nodes@.len()
                                            && (#[trigger] old(self).state.nodes@[w]).id == o;
                                    assert(self.state.nodes@[w].id == o);
                                }
                            }
                        },
                        None => {},
                    }
                }
            }
        }
        Ok(RespValue::simple_string("OK"))
    }

    /// Whether `x` occurs in `vals`.
    fn vec_has_u16(vals: &Vec<u16>, x: u16) -> (r: bool)
        ensures
            r == seq_has(vals@, x),
    {
        let mut k: usize = 0;
        while k < vals.len()
            invariant
                0 <= k <= vals@.len(),
                forall|j: int| 0 <= j < k ==> vals@[j] != x,
            decreases vals@.len() - k,
        {
            if vals[k] == x {
                return true;
            }
            k = k + 1;
        }
        false
    }

    /// DELSLOTS: clear the listed slots, all or nothing, and drop any
    /// migration records for them.
    #[verifier::rlimit(50)]
    fn delslots(&mut self, tail: &[Vec<u8>]) -> (r: Result<RespValue, AikvError>)
        requires
            old(self).wf(),
            old(self).state.config_epoch < u64::MAX,
        ensures
            final(self).wf(),
            delslots_post(*old(self), tail@, *final(self), r),
    {
        if tail.len() == 0 {
            return Err(AikvError::WrongArgCount(String::from_str("CLUSTER DELSLOTS")));
        }
        let vals: Vec<u16> = match Self::parse_slots(tail) {
            Ok(v) => v,
            Err(e) => {
                return Err(e);
            },
        };
        let ghost valsq: Seq<u16> = vals@;
        let mut k: usize = 0;
        while k < vals.len()
            invariant
                self.wf(),
                *self == *old(self),
                0 <= k <= valsq.len(),
                vals@ == valsq,
                valsq == spec_slot_vals(tail@),
                forall|j: int| 0 <= j < tail@.len() ==> slot_arg_good(#[trigger] tail@[j]@),
                forall|j: int| 0 <= j < valsq.len() ==> #[trigger] valsq[j] < 16384,
                forall|j: int| 0 <= j < k ==> !slot_not_owned(self.state, #[trigger] valsq[j],
                    self.node_id),
            decreases valsq.len() - k,
        {
            let v = vals[k];
            let bad = match self.state.slot_assignments[v as usize] {
                Some(o) => match self.node_id {
                    Some(my) => my != o,
                    None => false,
                },
                None => false,
            };
            if bad {
                let mut m = String::from_str("Slot ");
                m.append(u64_to_string(v as u64).as_str());
                m.append(" is not owned by this node");
                let e = AikvError::InvalidArgument(m);
                proof {
                    let sv = spec_slot_vals(tail@);
                    let kk: int = k as int;
                    assert(sv == valsq);
                    assert(m@ =~= "Slot "@ + spec_dec_u64(valsq[kk] as nat)
                        + " is not owned by this node"@);
                    assert(slot_not_owned(old(self).state, sv[kk], old(self).node_id));
                    assert(forall|j: int| 0 <= j < kk ==> !slot_not_owned(old(self).state,
                        #[trigger] sv[j], old(self).node_id));
                    assert(exists|k2: int|
                        0 <= k2 < sv.len() && slot_not_owned(old(self).state, #[trigger] sv[k2],
                            old(self).node_id) && (forall|j: int|
                            0 <= j < k2 ==> !slot_not_owned(old(self).state, #[trigger] sv[j],
                            old(self).node_id)) && err_invalid(Err::<RespValue, AikvError>(e),
                            "Slot "@ + spec_dec_u64(sv[k2] as nat)
                            + " is not owned by this node"@)) by {
                        assert(0 <= kk < sv.len() && slot_not_owned(old(self).state, sv[kk],
                            old(self).node_id) && (forall|j: int|
                            0 <= j < kk ==> !slot_not_owned(old(self).state, #[trigger] sv[j],
                            old(self).node_id)) && err_invalid(Err::<RespValue, AikvError>(e),
                            "Slot "@ + spec_dec_u64(sv[kk] as nat)
                            + " is not owned by this node"@));
                    }
                }
                return Err(e);
            }
            k = k + 1;
        }
        let ghost pre_slots = self.state.slot_assignments@;
        let mut k2: usize = 0;
        while k2 < vals.len()
            invariant
                0 <= k2 <= valsq.len(),
                vals@ == valsq,
                valsq == spec_slot_vals(tail@),
                forall|j: int| 0 <= j < tail@.len() ==> slot_arg_good(#[trigger] tail@[j]@),
                forall|j: int| 0 <= j < valsq.len() ==> #[trigger] valsq[j] < 16384,
                self.state.slot_assignments@.len() == pre_slots.len(),
                pre_slots.len() == 16384,
                self.node_id == old(self).node_id,
                self.state.nodes@ == old(self).state.nodes@,
                self.state.migrations@ == old(self).state.migrations@,
                self.state.config_epoch == old(self).state.config_epoch,
                forall|s: int| 0 <= s < 16384 ==> #[trigger] self.state.slot_assignments@[s] == (
                    if exists|j: int| 0 <= j < k2 && #[trigger] valsq[j] == s as u16 {
                    Option::<u64>::None
                } else {
                    pre_slots[s]
                }),
            decreases valsq.len() - k2,
        {
            let v = vals[k2];
            self.state.slot_assignments.set(v as usize, None);
            proof {
                assert forall|s: int| 0 <= s < 16384 implies #[trigger] self.state.slot_assignments@[s]
                    == (if exists|j: int| 0 <= j < k2 + 1 && #[trigger] valsq[j] == s as u16 {
                    Option::<u64>::None
                } else {
                    pre_slots[s]
                }) by {
                    if s == v as int {
                        assert(valsq[k2 as int] == s as u16);
                    } else {
                        if exists|j: int| 0 <= j < k2 + 1 && #[trigger] valsq[j] == s as u16 {
                            let j = choose|j: int| 0 <= j < k2 + 1 && #[trigger] valsq[j]
                                == s as u16;
                            assert(j < k2);
                        }
                    }
                }
            }
            k2 = k2 + 1;
        }
        let ghost pre_migs = self.state.migrations@;
        let mut kept: Vec<SlotMigration> = Vec::new();
        let mut k3: usize = 0;
        assert(pre_migs.subrange(0, 0) =~= Seq::<SlotMigration>::empty());
        while k3 < self.state.migrations.len()
            invariant
                0 <= k3 <= pre_migs.len(),
                self.state.migrations@ == pre_migs,
                vals@ == valsq,
                valsq == spec_slot_vals(tail@),
                forall|j: int| 0 <= j < tail@.len() ==> slot_arg_good(#[trigger] tail@[j]@),
                kept@ == spec_remove_migs(pre_migs.subrange(0, k3 as int), valsq),
            decreases pre_migs.len() - k3,
        {
            let m = self.state.migrations[k3];
            let ghost pre = pre_migs.subrange(0, k3 as int);
            let ghost post = pre_migs.subrange(0, k3 + 1);
            proof {
                assert(post.drop_last() =~= pre);
                assert(post.last() == pre_migs[k3 as int]);
            }
            if !Self::vec_has_u16(&vals, m.slot) {
                kept.push(m);
                proof {
                    assert(kept@ =~= spec_remove_migs(pre, valsq) + seq![pre_migs[k3 as int]]);
                }
            } else {
                proof {
                    assert(spec_remove_migs(post, valsq) =~= spec_remove_migs(pre, valsq));
                }
            }
            k3 = k3 + 1;
        }
        assert(pre_migs.subrange(0, k3 as int) =~= pre_migs);
        self.state.migrations = kept;
        self.state.config_epoch = self.state.config_epoch + 1;
        proof {
            lemma_remove_migs_wf(pre_migs, valsq);
            assert forall|x: int, y: int|
                0 <= x < y < self.state.migrations@.len() implies (#[trigger] self.state.migrations@[x]).slot
                != (#[trigger] self.state.migrations@[y]).slot by {}
            assert forall|x: int|
                0 <= x < self.state.migrations@.len() implies (#[trigger] self.state.migrations@[x]).slot
                < 16384 && self.state.migrations@[x].state != SlotState::Normal by {
                let i = choose|i: int| 0 <= i < pre_migs.len() && self.state.migrations@[x]
                    == pre_migs[i];
            }
            assert(owners_ok(self.state, self.node_id)) by {
                assert forall|sl: int|
                    0 <= sl < self.state.slot_assignments@.len() implies match #[trigger] self.state.slot_assignments@[sl] {
                    Some(o) => self.state.spec_has_node(o) || self.node_id == Some(o),
                    None => true,
                } by {
                    match self.state.slot_assignments@[sl] {
                        Some(o) => {
                            assert(old(self).state.slot_assignments@[sl] == Some(o));
                            if old(self).state.spec_has_node(o) {
                                let w = choose|w: int|
                                    0 <= w < old(self).state.nodes@.len()
                                        && (#[trigger] old(self).state.nodes@[w]).id == o;
                                assert(self.state.nodes@[w].id == o);
                            }
                        },
                        None => {},
                    }
                }
            }
        }
        Ok(RespValue::simple_string("OK"))
    }
}

/// Owner validity transfers between states with the same owners and nodes.
pub proof fn lemma_owners_ok_frame(a: ClusterState, b: ClusterState, l: Option<u64>)
    requires
        owners_ok(a, l),
        b.slot_assignments@ == a.slot_assignments@,
        b.nodes@ == a.nodes@,
    ensures
        owners_ok(b, l),
{
    assert forall|s: int|
        0 <= s < b.slot_assignments@.len() implies match #[trigger] b.slot_assignments@[s] {
        Some(o) => b.spec_has_node(o) || l == Some(o),
        None => true,
    } by {
        match b.slot_assignments@[s] {
            Some(o) => {
                assert(a.slot_assignments@[s] == Some(o));
                if a.spec_has_node(o) {
                    let w = choose|w: int| 0 <= w < a.nodes@.len() && (#[trigger] a.nodes@[w]).id
                        == o;
                    assert(b.nodes@[w].id == o);
                }
            },
            None => {},
        }
    }
}

impl ClusterState {
    /// Insert or replace the migration record for a slot.
    fn upsert_migration(&mut self, rec: SlotMigration)
        requires
            old(self).wf(),
            rec.slot < 16384,
            rec.state != SlotState::Normal,
        ensures
            final(self).wf(),
            final(self).nodes@ == old(self).nodes@,
            final(self).slot_assignments@ == old(self).slot_assignments@,
            final(self).config_epoch == old(self).config_epoch,
            mig_upsert(old(self).migrations@, final(self).migrations@, rec),
    {
        let ghost pre = self.migrations@;
        match self.find_migration(rec.slot) {
            Some(i) => {
                self.migrations.set(i, rec);
                proof {
                    assert(forall|j: int| 0 <= j < pre.len() && j != i
                        ==> #[trigger] self.migrations@[j] == pre[j]);
                    assert(forall|j: int| 0 <= j < self.migrations@.len()
                        ==> (#[trigger] self.migrations@[j]).slot == pre[j].slot);
                    assert(forall|x: int, y: int|
                        0 <= x < y < self.migrations@.len()
                            ==> (#[trigger] self.migrations@[x]).slot
                            != (#[trigger] self.migrations@[y]).slot) by {
                        assert(forall|j: int| 0 <= j < self.migrations@.len()
                            ==> (#[trigger] self.migrations@[j]).slot == pre[j].slot);
                    }
                    assert(forall|j: int|
                        0 <= j < pre.len() && (#[trigger] pre[j]).slot == rec.slot ==> j == i);
                }
                return;
            },
            None => {
                self.migrations.push(rec);
                proof {
                    assert(forall|j: int| 0 <= j < pre.len() ==> #[trigger] self.migrations@[j]
                        == pre[j]);
                    assert(self.migrations@[pre.len() as int] == rec);
                    assert(forall|j: int| 0 <= j < pre.len() ==> (#[trigger] pre[j]).slot
                        != rec.slot);
                    assert(forall|x: int, y: int|
                        0 <= x < y < self.migrations@.len()
                            ==> (#[trigger] self.migrations@[x]).slot
                            != (#[trigger] self.migrations@[y]).slot) by {
                        assert(forall|j: int| 0 <= j < pre.len()
                            ==> #[trigger] self.migrations@[j] == pre[j]);
                        assert(forall|j: int| 0 <= j < pre.len() ==> (#[trigger] pre[j]).slot
                            != rec.slot);
                    }
                    assert(self.migrations@ =~= pre.push(rec));
                }
                return;
            },
        }
    }

    /// Drop any migration record for a slot.
    fn remove_migration(&mut self, slot: u16)
        requires
            old(self).wf(),
        ensures
            final(self).wf(),
            final(self).nodes@ == old(self).nodes@,
            final(self).slot_assignments@ == old(self).slot_assignments@,
            final(self).config_epoch == old(self).config_epoch,
            mig_removed(old(self).migrations@, final(self).migrations@, slot),
    {
        let ghost pre = self.migrations@;
        match self.find_migration(slot) {
            Some(i) => {
                self.migrations.remove(i);
                proof {
                    assert(self.migrations@ =~= pre.remove(i as int));
                    assert(forall|x: int|
                        0 <= x < pre.remove(i as int).len() ==> #[trigger] pre.remove(
                            i as int,
                        )[x] == if x < i {
                            pre[x]
                        } else {
                            pre[x + 1]
                        });
                    assert(forall|x: int, y: int|
                        0 <= x < y < self.migrations@.len()
                            ==> (#[trigger] self.migrations@[x]).slot
                            != (#[trigger] self.migrations@[y]).slot) by {
                        assert(forall|x: int|
                            0 <= x < pre.remove(i as int).len() ==> #[trigger] pre.remove(
                                i as int,
                            )[x] == if x < i {
                                pre[x]
                            } else {
                                pre[x + 1]
                            });
                    }
                }
                return;
            },
            None => {
                proof {
                    assert(self.migrations@ == pre);
                }
                return;
            },
        }
    }
}

impl ClusterCommands {
    /// SETSLOT: record or clear a slot's migration state, or assign it.
    #[verifier::rlimit(60)]
    fn setslot(&mut self, tail: &[Vec<u8>]) -> (r: Result<RespValue, AikvError>)
        requires
            old(self).wf(),
            old(self).state.config_epoch < u64::MAX,
        ensures
            final(self).wf(),
            setslot_post(*old(self), tail@, *final(self), r),
    {
        if tail.len() < 2 {
            return Err(AikvError::WrongArgCount(String::from_str("CLUSTER SETSLOT")));
        }
        let slot: u16 = match parse_u16_dec(tail[0].as_slice()) {
            Some(v) => v,
            None => {
                return Err(AikvError::InvalidArgument(String::from_str("Invalid slot number")));
            },
        };
        if slot >= TOTAL_SLOTS {
            let mut m = String::from_str("Invalid slot ");
            m.append(u64_to_string(slot as u64).as_str());
            m.append(" (out of range 0-16383)");
            proof {
                assert(m@ =~= spec_bad_slot_msg(tail@[0]@));
            }
            return Err(AikvError::InvalidArgument(m));
        }
        let sub = ascii_upper(tail[1].as_slice());
        if bytes_eq(sub.as_slice(), "IMPORTING".as_bytes()) {
            if tail.len() < 3 {
                return Err(
                    AikvError::WrongArgCount(String::from_str("CLUSTER SETSLOT IMPORTING")),
                );
            }
            let peer: u64 = match parse_u64_hex(tail[2].as_slice()) {
                Some(v) => v,
                None => {
                    return Err(AikvError::InvalidArgument(String::from_str("Invalid node ID")));
                },
            };
            let owned_by_self = match self.node_id {
                Some(my) => match self.state.slot_assignments[slot as usize] {
                    Some(o) => o == my,
                    None => false,
                },
                None => false,
            };
            if owned_by_self {
                let mut m = String::from_str("Slot ");
                m.append(u64_to_string(slot as u64).as_str());
                m.append(" is already owned by this node");
                proof {
                    assert(m@ =~= "Slot "@ + spec_dec_u64(slot as nat)
                        + " is already owned by this node"@);
                }
                return Err(AikvError::InvalidArgument(m));
            }
            self.state.upsert_migration(
                SlotMigration { slot, state: SlotState::Importing, peer },
            );
            self.state.config_epoch = self.state.config_epoch + 1;
            proof {
                lemma_owners_ok_frame(old(self).state, self.state, self.node_id);
            }
            Ok(RespValue::simple_string("OK"))
        } else if bytes_eq(sub.as_slice(), "MIGRATING".as_bytes()) {
            if tail.len() < 3 {
                return Err(
                    AikvError::WrongArgCount(String::from_str("CLUSTER SETSLOT MIGRATING")),
                );
            }
            let peer: u64 = match parse_u64_hex(tail[2].as_slice()) {
                Some(v) => v,
                None => {
                    return Err(AikvError::InvalidArgument(String::from_str("Invalid node ID")));
                },
            };
            let owned_by_self = match self.node_id {
                Some(my) => match self.state.slot_assignments[slot as usize] {
                    Some(o) => o == my,
                    None => false,
                },
                None => false,
            };
            if !owned_by_self {
                let mut m = String::from_str("Slot ");
                m.append(u64_to_string(slot as u64).as_str());
                m.append(" is not owned by this node");
                proof {
                    assert(m@ =~= "Slot "@ + spec_dec_u64(slot as nat)
                        + " is not owned by this node"@);
                }
                return Err(AikvError::InvalidArgument(m));
            }
            self.state.upsert_migration(
                SlotMigration { slot, state: SlotState::Migrating, peer },
            );
            self.state.config_epoch = self.state.config_epoch + 1;
            proof {
                lemma_owners_ok_frame(old(self).state, self.state, self.node_id);
            }
            Ok(RespValue::simple_string("OK"))
        } else if bytes_eq(sub.as_slice(), "NODE".as_bytes()) {
            if tail.len() < 3 {
                return Err(AikvError::WrongArgCount(String::from_str("CLUSTER SETSLOT NODE")));
            }
            let target: u64 = match parse_u64_hex(tail[2].as_slice()) {
                Some(v) => v,
                None => {
                    return Err(AikvError::InvalidArgument(String::from_str("Invalid node ID")));
                },
            };
            let known = match self.state.find_node(target) {
                Some(_) => true,
                None => false,
            };
            let is_self = match self.node_id {
                Some(my) => my == target,
                None => false,
            };
            if !known && !is_self {
                let mut m = String::from_str("Unknown node ");
                m.append(lossy_string(tail[2].as_slice()).as_str());
                return Err(AikvError::InvalidArgument(m));
            }
            self.state.slot_assignments.set(slot as usize, Some(target));
            self.state.remove_migration(slot);
            self.state.config_epoch = self.state.config_epoch + 1;
            proof {
                assert(owners_ok(self.state, self.node_id)) by {
                    assert forall|sl: int|
                        0 <= sl < self.state.slot_assignments@.len() implies match #[trigger] self.state.slot_assignments@[sl] {
                        Some(o) => self.state.spec_has_node(o) || self.node_id == Some(o),
                        None => true,
                    } by {
                        if sl == slot as int {
                            if known {
                                let w = choose|w: int|
                                    0 <= w < old(self).state.nodes@.len()
                                        && (#[trigger] old(self).state.nodes@[w]).id == target;
                                assert(self.state.nodes@[w].id == target);
                            }
                        } else {
                            match self.state.slot_assignments@[sl] {
                                Some(o) => {
                                    assert(old(self).state.slot_assignments@[sl] == Some(o));
                                    if old(self).state.spec_has_node(o) {
                                        let w = choose|w: int|
                                            0 <= w < old(self).state.nodes@.len()
                                                && (#[trigger] old(self).state.nodes@[w]).id == o;
                                        assert(self.state.nodes@[w].id == o);
                                    }
                                },
                                None => {},
                            }
                        }
                    }
                }
            }
            Ok(RespValue::simple_string("OK"))
        } else if bytes_eq(sub.as_slice(), "STABLE".as_bytes()) {
            self.state.remove_migration(slot);
            self.state.config_epoch = self.state.config_epoch + 1;
            proof {
                lemma_owners_ok_frame(old(self).state, self.state, self.node_id);
            }
            Ok(RespValue::simple_string("OK"))
        } else {
            let mut m = String::from_str("Unknown SETSLOT subcommand: ");
            m.append(lossy_string(sub.as_slice()).as_str());
            Err(AikvError::InvalidArgument(m))
        }
    }
}

/// The CLUSTER subcommands, as dispatch selects them.
pub enum SubCommand {
    Keyslot,
    Info,
    Nodes,
    Slots,
    Myid,
    Meet,
    Forget,
    Addslots,
    Delslots,
    Setslot,
    Help,
    Unknown,
}

/// Which subcommand an upper-cased first argument selects.
pub open spec fn subcommand_of(up: Seq<u8>) -> SubCommand {
    if up == encode_utf8("KEYSLOT"@) {
        SubCommand::Keyslot
    } else if up == encode_utf8("INFO"@) {
        SubCommand::Info
    } else if up == encode_utf8("NODES"@) {
        SubCommand::Nodes
    } else if up == encode_utf8("SLOTS"@) {
        SubCommand::Slots
    } else if up == encode_utf8("MYID"@) {
        SubCommand::Myid
    } else if up == encode_utf8("MEET"@) {
        SubCommand::Meet
    } else if up == encode_utf8("FORGET"@) {
        SubCommand::Forget
    } else if up == encode_utf8("ADDSLOTS"@) {
        SubCommand::Addslots
    } else if up == encode_utf8("DELSLOTS"@) {
        SubCommand::Delslots
    } else if up == encode_utf8("SETSLOT"@) {
        SubCommand::Setslot
    } else if up == encode_utf8("HELP"@) {
        SubCommand::Help
    } else {
        SubCommand::Unknown
    }
}

/// The whole CLUSTER dispatch: the first argument, upper-cased, selects
/// the subcommand; unknown names fail, an empty list is an arity error.
pub open spec fn cluster_step(pre: ClusterCommands, args: Seq<Vec<u8>>, post: ClusterCommands,
    r: Result<RespValue, AikvError>) -> bool {
    &&& post.node_id == pre.node_id
    &&& if args.len() == 0 {
        unchanged(pre, post) && err_arity(r, "CLUSTER"@)
    } else {
        let up = spec_upper_bytes(args[0]@);
        let tail = args.skip(1);
        match subcommand_of(up) {
            SubCommand::Keyslot => unchanged(pre, post) && keyslot_post(tail, r),
            SubCommand::Info => unchanged(pre, post) && info_post(pre.state, r),
            SubCommand::Nodes => unchanged(pre, post) && nodes_post(pre.node_id, pre.state, r),
            SubCommand::Slots => unchanged(pre, post) && slots_post(pre.state, r),
            SubCommand::Myid => unchanged(pre, post) && myid_post(pre.node_id, r),
            SubCommand::Meet => meet_post(pre, tail, post, r),
            SubCommand::Forget => forget_post(pre, tail, post, r),
            SubCommand::Addslots => addslots_post(pre, tail, post, r),
            SubCommand::Delslots => delslots_post(pre, tail, post, r),
            SubCommand::Setslot => setslot_post(pre, tail, post, r),
            SubCommand::Help => unchanged(pre, post) && help_post(r),
            SubCommand::Unknown => unchanged(pre, post) && err_invalid_cmd(
                r, "Unknown CLUSTER subcommand: "@ + decoded_text(up)),
        }
    }
}

impl ClusterCommands {
    /// Execute one CLUSTER command.
    pub fn execute(&mut self, args: &Vec<Vec<u8>>) -> (r: Result<RespValue, AikvError>)
        requires
            old(self).wf(),
            old(self).state.config_epoch < u64::MAX,
        ensures
            final(self).wf(),
            cluster_step(*old(self), args@, *final(self), r),
    {
        if args.len() == 0 {
            return Err(AikvError::WrongArgCount(String::from_str("CLUSTER")));
        }
        let up = ascii_upper(args[0].as_slice());
        let tail: &[Vec<u8>] = vstd::slice::slice_subrange(args.as_slice(), 1, args.len());
        proof {
            assert(tail@ =~= args@.skip(1));
        }
        if bytes_eq(up.as_slice(), "KEYSLOT".as_bytes()) {
            self.keyslot(tail)
        } else if bytes_eq(up.as_slice(), "INFO".as_bytes()) {
            self.info()
        } else if bytes_eq(up.as_slice(), "NODES".as_bytes()) {
            self.nodes()
        } else if bytes_eq(up.as_slice(), "SLOTS".as_bytes()) {
            self.slots()
        } else if bytes_eq(up.as_slice(), "MYID".as_bytes()) {
            self.myid()
        } else if bytes_eq(up.as_slice(), "MEET".as_bytes()) {
            self.meet(tail)
        } else if bytes_eq(up.as_slice(), "FORGET".as_bytes()) {
            self.forget(tail)
        } else if bytes_eq(up.as_slice(), "ADDSLOTS".as_bytes()) {
            self.addslots(tail)
        } else if bytes_eq(up.as_slice(), "DELSLOTS".as_bytes()) {
            self.delslots(tail)
        } else if bytes_eq(up.as_slice(), "SETSLOT".as_bytes()) {
            self.setslot(tail)
        } else if bytes_eq(up.as_slice(), "HELP".as_bytes()) {
            self.help()
        } else {
            let mut m = String::from_str("Unknown CLUSTER subcommand: ");
            m.append(lossy_string(up.as_slice()).as_str());
            Err(AikvError::InvalidCommand(m))
        }
    }
}

/// Where a keyed command must be served: locally, with a transient ASK
/// redirect, with a permanent MOVED redirect, or nowhere because the
/// slot is unassigned.
#[derive(Debug, PartialEq)]
pub enum RedirectDecision {
    /// Serve the command on this node.
    Serve,
    /// Redirect this one request to the migration target.
    Ask(u16, String),
    /// Redirect permanently to the owning node.
    Moved(u16, String),
    /// The slot is assigned to nobody.
    Unassigned(u16),
}

/// The data address reported for a node in redirects.
pub open spec fn spec_addr_of(st: ClusterState, id: u64) -> Seq<char> {
    if st.spec_has_node(id) {
        spec_node_of(st, id).addr@
    } else {
        "127.0.0.1:6379"@
    }
}

/// The redirect decision for a key: serve locally when this node owns
/// the slot (or while migrating it out with the key still present);
/// ASK at the migration target for absent keys of outbound slots; MOVED
/// at the owner otherwise; unassigned slots are reported as such.
pub open spec fn redirect_post(cmd: ClusterCommands, key: Seq<u8>, key_exists: bool,
    r: RedirectDecision) -> bool {
    let slot = spec_slot_of(key);
    match cmd.state.slot_assignments@[slot as int] {
        Some(o) => {
            if cmd.node_id == Some(o) {
                match cmd.state.spec_migration_of(slot) {
                    Some(m) => {
                        if m.state == SlotState::Migrating && !key_exists {
                            r matches RedirectDecision::Ask(s, a) && s == slot && a@
                                == spec_addr_of(cmd.state, m.peer)
                        } else {
                            r == RedirectDecision::Serve
                        }
                    },
                    None => r == RedirectDecision::Serve,
                }
            } else {
                r matches RedirectDecision::Moved(s, a) && s == slot && a@ == spec_addr_of(
                    cmd.state, o)
            }
        },
        None => r == RedirectDecision::Unassigned(slot),
    }
}

impl ClusterCommands {
    /// The data address of a node, for redirects.
    fn addr_of(&self, id: u64) -> (r: String)
        requires
            self.wf(),
        ensures
            r@ == spec_addr_of(self.state, id),
    {
        match self.state.find_node(id) {
            Some(i) => {
                proof {
                    let w = choose|w: int|
                        0 <= w < self.state.nodes@.len() && (#[trigger] self.state.nodes@[w]).id
                            == id;
                    assert(w == i);
                }
                self.state.nodes[i].addr.clone()
            },
            None => String::from_str("127.0.0.1:6379"),
        }
    }

    /// Decide whether a command on `key` is served here or redirected.
    /// `key_exists` reports whether the key is present in local storage.
    pub fn check_redirect(&self, key: &[u8], key_exists: bool) -> (r: RedirectDecision)
        requires
            self.wf(),
        ensures
            redirect_post(*self, key@, key_exists, r),
    {
        let slot = crate::slots::key_to_slot(key);
        match self.state.slot_assignments[slot as usize] {
            Some(o) => {
                let is_mine = match self.node_id {
                    Some(my) => my == o,
                    None => false,
                };
                if is_mine {
                    match self.state.find_migration(slot) {
                        Some(i) => {
                            let m = self.state.migrations[i];
                            if (match m.state {
                                SlotState::Migrating => true,
                                _ => false,
                            }) && !key_exists {
                                RedirectDecision::Ask(slot, self.addr_of(m.peer))
                            } else {
                                RedirectDecision::Serve
                            }
                        },
                        None => RedirectDecision::Serve,
                    }
                } else {
                    RedirectDecision::Moved(slot, self.addr_of(o))
                }
            },
            None => RedirectDecision::Unassigned(slot),
        }
    }
}

// ---------------------------------------------------------------------------
// Laws.
// ---------------------------------------------------------------------------

/// The configuration epoch never decreases across a CLUSTER command.
pub proof fn lemma_epoch_monotone(pre: ClusterCommands, args: Seq<Vec<u8>>,
    post: ClusterCommands, r: Result<RespValue, AikvError>)
    requires
        cluster_step(pre, args, post, r),
    ensures
        post.state.config_epoch >= pre.state.config_epoch,
{
}

/// The subcommands that change cluster state.
pub open spec fn is_mutating_subcommand(c: SubCommand) -> bool {
    ||| c is Meet
    ||| c is Forget
    ||| c is Addslots
    ||| c is Delslots
    ||| c is Setslot
}

/// Every successful mutating subcommand bumps the epoch by exactly one.
pub proof fn lemma_epoch_bumps_on_mutation(pre: ClusterCommands, args: Seq<Vec<u8>>,
    post: ClusterCommands, r: Result<RespValue, AikvError>)
    requires
        cluster_step(pre, args, post, r),
        (r is Ok),
        args.len() > 0,
        is_mutating_subcommand(subcommand_of(spec_upper_bytes(args[0]@))),
    ensures
        post.state.config_epoch == pre.state.config_epoch + 1,
{
}

/// ADDSLOTS is atomic: when it fails, no slot assignment changed.
pub proof fn lemma_addslots_atomic(pre: ClusterCommands, args: Seq<Vec<u8>>,
    post: ClusterCommands, r: Result<RespValue, AikvError>)
    requires
        cluster_step(pre, args, post, r),
        args.len() > 0,
        (subcommand_of(spec_upper_bytes(args[0]@)) is Addslots),
        (r is Err),
    ensures
        st_eq(post.state, pre.state),
{
}

/// When the local node is registered, every assigned slot names a known
/// node: the handler invariant plus self-registration close the loop.
pub proof fn lemma_all_owners_known(cmd: ClusterCommands)
    requires
        cmd.wf(),
        cmd.node_id matches Some(id) ==> cmd.state.spec_has_node(id),
    ensures
        forall|s: int|
            0 <= s < cmd.state.slot_assignments@.len()
                ==> match #[trigger] cmd.state.slot_assignments@[s] {
                Some(o) => cmd.state.spec_has_node(o),
                None => true,
            },
{
}

/// Every migration record's peer is a known node, or the local node.
pub open spec fn migration_peers_ok(st: ClusterState, local: Option<u64>) -> bool {
    forall|i: int|
        0 <= i < st.migrations@.len() ==> st.spec_has_node((#[trigger] st.migrations@[i]).peer)
            || local == Some(st.migrations@[i].peer)
}

/// Peer validity transfers between states with the same records and nodes.
proof fn lemma_peers_ok_frame(a: ClusterState, b: ClusterState, l: Option<u64>)
    requires
        migration_peers_ok(a, l),
        b.migrations@ == a.migrations@,
        b.nodes@ == a.nodes@,
    ensures
        migration_peers_ok(b, l),
{
    assert forall|i: int|
        0 <= i < b.migrations@.len() implies b.spec_has_node((#[trigger] b.migrations@[i]).peer)
        || l == Some(b.migrations@[i].peer) by {
        if a.spec_has_node(a.migrations@[i].peer) {
            let w = choose|w: int|
                0 <= w < a.nodes@.len() && (#[trigger] a.nodes@[w]).id == a.migrations@[i].peer;
            assert(b.nodes@[w].id == b.migrations@[i].peer);
        }
    }
}

/// Every element kept by dropping slots is an element of the records.
proof fn lemma_remove_migs_elements(ms: Seq<SlotMigration>, vals: Seq<u16>)
    ensures
        forall|j: int|
            0 <= j < spec_remove_migs(ms, vals).len() ==> exists|i: int|
                0 <= i < ms.len() && #[trigger] spec_remove_migs(ms, vals)[j] == ms[i],
    decreases ms.len(),
{
    if ms.len() > 0 {
        lemma_remove_migs_elements(ms.drop_last(), vals);
        let rp = spec_remove_migs(ms.drop_last(), vals);
        let rm = spec_remove_migs(ms, vals);
        assert(forall|j: int| 0 <= j < rp.len() ==> #[trigger] rm[j] == rp[j]);
        assert forall|j: int| 0 <= j < rm.len() implies exists|i: int|
            0 <= i < ms.len() && #[trigger] rm[j] == ms[i] by {
            if j < rp.len() {
                let i = choose|i: int| 0 <= i < ms.drop_last().len() && rp[j]
                    == ms.drop_last()[i];
                assert(rm[j] == ms[i]);
            } else {
                assert(rm[j] == ms[ms.len() - 1]);
            }
        }
    }
}

/// When SETSLOT records a migration half-state, its peer is a known
/// node or the local one.
pub open spec fn setslot_peer_known(pre: ClusterCommands, args: Seq<Vec<u8>>) -> bool {
    subcommand_of(spec_upper_bytes(args[0]@)) is Setslot ==> {
        let tail = args.skip(1);
        (tail.len() >= 3 && hex_id_ok(tail[2]@) && (spec_upper_bytes(tail[1]@) == encode_utf8(
            "IMPORTING"@,
        ) || spec_upper_bytes(tail[1]@) == encode_utf8("MIGRATING"@))) ==> (
        pre.state.spec_has_node(hex_id_val(tail[2]@) as u64) || pre.node_id == Some(
            hex_id_val(tail[2]@) as u64,
        ))
    }
}

/// FORGET's target is no migration record's peer.
pub open spec fn forget_keeps_peers(pre: ClusterCommands, args: Seq<Vec<u8>>) -> bool {
    subcommand_of(spec_upper_bytes(args[0]@)) is Forget ==> {
        let tail = args.skip(1);
        (tail.len() == 1 && hex_id_ok(tail[0]@)) ==> forall|i: int|
            0 <= i < pre.state.migrations@.len() ==> (#[trigger] pre.state.migrations@[i]).peer
                != hex_id_val(tail[0]@) as u64
    }
}

/// Migration peers stay known across a CLUSTER command, provided the
/// command does not itself record an unknown peer or forget a node that
/// is still a migration peer. The handlers accept both (SETSLOT
/// IMPORTING/MIGRATING takes any well-formed id, and FORGET leaves
/// migration records alone), so on such inputs the property does not
/// hold of any state the commands can produce; the two provisos leave
/// exactly those inputs out.
pub proof fn lemma_migration_peers_preserved(pre: ClusterCommands, args: Seq<Vec<u8>>,
    post: ClusterCommands, r: Result<RespValue, AikvError>)
    requires
        pre.wf(),
        cluster_step(pre, args, post, r),
        migration_peers_ok(pre.state, pre.node_id),
        args.len() > 0,
        setslot_peer_known(pre, args),
        forget_keeps_peers(pre, args),
    ensures
        migration_peers_ok(post.state, post.node_id),
{
    let up = spec_upper_bytes(args[0]@);
    let tail = args.skip(1);
    match subcommand_of(up) {
        SubCommand::Keyslot | SubCommand::Info | SubCommand::Nodes | SubCommand::Slots
            | SubCommand::Myid | SubCommand::Help | SubCommand::Unknown => {
            lemma_peers_ok_frame(pre.state, post.state, post.node_id);
        },
        SubCommand::Meet => {
            if st_eq(post.state, pre.state) {
                lemma_peers_ok_frame(pre.state, post.state, post.node_id);
            } else {
                assert(post.state.migrations@ == pre.state.migrations@);
                assert forall|i: int|
                    0 <= i < post.state.migrations@.len() implies post.state.spec_has_node(
                    (#[trigger] post.state.migrations@[i]).peer) || post.node_id == Some(
                    post.state.migrations@[i].peer) by {
                    let p = post.state.migrations@[i].peer;
                    if pre.state.spec_has_node(p) {
                        let w = choose|w: int|
                            0 <= w < pre.state.nodes@.len()
                                && (#[trigger] pre.state.nodes@[w]).id == p;
                        if post.state.nodes@.len() == pre.state.nodes@.len() {
                            if pre.state.nodes@[w].id == spec_fnv64(encode_utf8(decoded_text(
                                tail[0]@,
                            ) + ":"@ + spec_dec_u64(dec_bytes_val(dec_body(tail[1]@))))) {
                                assert(post.state.nodes@[w].id == pre.state.nodes@[w].id);
                            } else {
                                assert(post.state.nodes@[w] == pre.state.nodes@[w]);
                            }
                        } else {
                            assert(post.state.nodes@[w] == pre.state.nodes@[w]);
                        }
                    }
                }
            }
        },
        SubCommand::Forget => {
            if st_eq(post.state, pre.state) {
                lemma_peers_ok_frame(pre.state, post.state, post.node_id);
            } else {
                let id = hex_id_val(tail[0]@) as u64;
                assert(post.state.migrations@ == pre.state.migrations@);
                let k = choose|k: int|
                    0 <= k < pre.state.nodes@.len() && (#[trigger] pre.state.nodes@[k]).id == id
                        && post.state.nodes@ == pre.state.nodes@.remove(k);
                assert forall|i: int|
                    0 <= i < post.state.migrations@.len() implies post.state.spec_has_node(
                    (#[trigger] post.state.migrations@[i]).peer) || post.node_id == Some(
                    post.state.migrations@[i].peer) by {
                    let p = post.state.migrations@[i].peer;
                    assert(p != id);
                    if pre.state.spec_has_node(p) {
                        let w = choose|w: int|
                            0 <= w < pre.state.nodes@.len()
                                && (#[trigger] pre.state.nodes@[w]).id == p;
                        assert(w != k);
                        assert(forall|x: int|
                            0 <= x < pre.state.nodes@.remove(k).len()
                                ==> #[trigger] pre.state.nodes@.remove(k)[x] == if x < k {
                                pre.state.nodes@[x]
                            } else {
                                pre.state.nodes@[x + 1]
                            });
                        if w < k {
                            assert(post.state.nodes@[w].id == p);
                        } else {
                            assert(post.state.nodes@[w - 1].id == p);
                        }
                    }
                }
            }
        },
        SubCommand::Addslots => {
            // Assignments change, records and nodes do not.
            lemma_peers_ok_frame(pre.state, post.state, post.node_id);
        },
        SubCommand::Delslots => {
            if st_eq(post.state, pre.state) {
                lemma_peers_ok_frame(pre.state, post.state, post.node_id);
            } else {
                let vals = spec_slot_vals(tail);
                lemma_remove_migs_elements(pre.state.migrations@, vals);
                assert forall|i: int|
                    0 <= i < post.state.migrations@.len() implies post.state.spec_has_node(
                    (#[trigger] post.state.migrations@[i]).peer) || post.node_id == Some(
                    post.state.migrations@[i].peer) by {
                    let src_i = choose|x: int|
                        0 <= x < pre.state.migrations@.len() && #[trigger] post.state.migrations@[i]
                            == pre.state.migrations@[x];
                    let p = post.state.migrations@[i].peer;
                    if pre.state.spec_has_node(p) {
                        let w = choose|w: int|
                            0 <= w < pre.state.nodes@.len()
                                && (#[trigger] pre.state.nodes@[w]).id == p;
                        assert(post.state.nodes@[w].id == p);
                    }
                }
            }
        },
        SubCommand::Setslot => {
            if st_eq(post.state, pre.state) {
                lemma_peers_ok_frame(pre.state, post.state, post.node_id);
            } else {
                assert(post.state.nodes@ == pre.state.nodes@);
                assert forall|i: int|
                    0 <= i < post.state.migrations@.len() implies post.state.spec_has_node(
                    (#[trigger] post.state.migrations@[i]).peer) || post.node_id == Some(
                    post.state.migrations@[i].peer) by {
                    let rec = post.state.migrations@[i];
                    let from_pre = exists|x: int|
                        0 <= x < pre.state.migrations@.len() && #[trigger] pre.state.migrations@[x]
                            == rec;
                    if from_pre {
                        let x = choose|x: int|
                            0 <= x < pre.state.migrations@.len()
                                && #[trigger] pre.state.migrations@[x] == rec;
                        if pre.state.spec_has_node(rec.peer) {
                            let w = choose|w: int|
                                0 <= w < pre.state.nodes@.len()
                                    && (#[trigger] pre.state.nodes@[w]).id == rec.peer;
                            assert(post.state.nodes@[w].id == rec.peer);
                        }
                    } else {
                        lemma_setslot_new_record(pre, tail, post, r, i);
                        if pre.state.spec_has_node(rec.peer) {
                            let w = choose|w: int|
                                0 <= w < pre.state.nodes@.len()
                                    && (#[trigger] pre.state.nodes@[w]).id == rec.peer;
                            assert(post.state.nodes@[w].id == rec.peer);
                        }
                    }
                }
            }
        },
    }
}

/// In a SETSLOT step that changed the state, a record that is not one
/// of the old records is the freshly written half-state, whose peer the
/// proviso admits.
proof fn lemma_setslot_new_record(pre: ClusterCommands, tail: Seq<Vec<u8>>,
    post: ClusterCommands, r: Result<RespValue, AikvError>, i: int)
    requires
        pre.wf(),
        setslot_post(pre, tail, post, r),
        !st_eq(post.state, pre.state),
        0 <= i < post.state.migrations@.len(),
        !(exists|x: int|
            0 <= x < pre.state.migrations@.len() && #[trigger] pre.state.migrations@[x]
                == post.state.migrations@[i]),
        ({
            (tail.len() >= 3 && hex_id_ok(tail[2]@) && (spec_upper_bytes(tail[1]@)
                == encode_utf8("IMPORTING"@) || spec_upper_bytes(tail[1]@) == encode_utf8(
                "MIGRATING"@,
            ))) ==> (pre.state.spec_has_node(hex_id_val(tail[2]@) as u64) || pre.node_id == Some(
                hex_id_val(tail[2]@) as u64,
            ))
        }),
    ensures
        pre.state.spec_has_node(post.state.migrations@[i].peer) || pre.node_id == Some(
            post.state.migrations@[i].peer,
        ),
{
    let rec = post.state.migrations@[i];
    let slot = slot_val(tail[0]@) as u16;
    let sub = spec_upper_bytes(tail[1]@);
    if sub == encode_utf8("IMPORTING"@) || sub == encode_utf8("MIGRATING"@) {
        assert(rec.peer == hex_id_val(tail[2]@) as u64);
    } else if sub == encode_utf8("NODE"@) || sub == encode_utf8("STABLE"@) {
        // Removal: every record comes from the old list.
        if exists|x: int|
            0 <= x < pre.state.migrations@.len() && (#[trigger] pre.state.migrations@[x]).slot
                == slot {
            let x = choose|x: int|
                0 <= x < pre.state.migrations@.len() && (#[trigger] pre.state.migrations@[x]).slot
                    == slot && post.state.migrations@ == pre.state.migrations@.remove(x);
            assert(forall|y: int|
                0 <= y < pre.state.migrations@.remove(x).len()
                    ==> #[trigger] pre.state.migrations@.remove(x)[y] == if y < x {
                    pre.state.migrations@[y]
                } else {
                    pre.state.migrations@[y + 1]
                });
            if i < x {
                assert(pre.state.migrations@[i] == rec);
            } else {
                assert(pre.state.migrations@[i + 1] == rec);
            }
            assert(false);
        } else {
            assert(pre.state.migrations@[i] == rec);
            assert(false);
        }
    } else {
        assert(false);
    }
}

/// Every range a SLOTS reply reports covers only slots the reported
/// node id owns in the state vector.
pub proof fn lemma_slots_entries_cover(st: ClusterState, r: Result<RespValue, AikvError>)
    requires
        st.wf(),
        slots_post(st, r),
    ensures
        match r {
            Ok(RespValue::Array(Some(entries))) => forall|k: int|
                0 <= k < entries@.len() ==> {
                    let rng = spec_ranges(st.slot_assignments@)[k];
                    &&& rng.0 <= rng.1 < 16384
                    &&& spec_slot_entry(st, rng, #[trigger] entries@[k])
                    &&& forall|j: int|
                        rng.0 <= j <= rng.1 ==> st.slot_assignments@[j] == Some(rng.2)
                },
            _ => false,
        },
{
    crate::cluster::lemma_ranges_cover(st.slot_assignments@);
}

/// The length of a fixed-width hex rendering.
pub proof fn lemma_hex_width_len(n: nat, w: nat)
    ensures
        crate::text::spec_hex_width(n, w).len() == w,
    decreases w,
{
    if w > 0 {
        lemma_hex_width_len(n / 16, (w - 1) as nat);
    }
}

/// Somewhere in a joined text, each part appears verbatim.
pub proof fn lemma_join_contains(ls: Seq<Seq<char>>, i: int)
    requires
        0 <= i < ls.len(),
    ensures
        exists|off: int|
            0 <= off && off + ls[i].len() <= spec_join(ls).len() && #[trigger] spec_join(
                ls,
            ).subrange(off, off + ls[i].len()) == ls[i],
    decreases ls.len(),
{
    if i == ls.len() - 1 {
        let off = spec_join(ls.drop_last()).len() as int;
        assert(spec_join(ls) == spec_join(ls.drop_last()) + ls.last());
        assert(spec_join(ls).subrange(off, off + ls[i].len()) =~= ls[i]);
    } else {
        assert(ls.drop_last()[i] == ls[i]);
        lemma_join_contains(ls.drop_last(), i);
        let off = choose|off: int|
            0 <= off && off + ls.drop_last()[i].len() <= spec_join(ls.drop_last()).len()
                && #[trigger] spec_join(ls.drop_last()).subrange(
                off, off + ls.drop_last()[i].len()) == ls.drop_last()[i];
        assert(spec_join(ls) == spec_join(ls.drop_last()) + ls.last());
        assert(spec_join(ls).subrange(off, off + ls[i].len()) =~= spec_join(
            ls.drop_last()).subrange(off, off + ls[i].len()));
    }
}

/// Every known node's forty-hex id appears in the NODES body, at the
/// start of that node's line.
pub proof fn lemma_nodes_text_contains_id(my: u64, st: ClusterState, i: int)
    requires
        0 <= i < st.nodes@.len(),
    ensures
        exists|off: int|
            0 <= off && off + 40 <= spec_nodes_text(my, st).len() && #[trigger] spec_nodes_text(
                my,
                st,
            ).subrange(off, off + 40) == spec_hex40(st.nodes@[i].id as nat),
{
    let rs = spec_ranges(st.slot_assignments@);
    let lines = spec_nodes_lines(my, st.config_epoch, st.nodes@, rs);
    let n = st.nodes@[i];
    let line = spec_node_line(my, st.config_epoch, n, rs);
    lemma_hex_width_len(n.id as nat, 40);
    assert(lines[i] == line);
    lemma_join_contains(lines, i);
    let off = choose|off: int|
        0 <= off && off + lines[i].len() <= spec_join(lines).len() && #[trigger] spec_join(
            lines,
        ).subrange(off, off + lines[i].len()) == lines[i];
    assert(line.len() >= 40);
    assert(line.subrange(0, 40) =~= spec_hex40(n.id as nat));
    assert(spec_nodes_text(my, st).subrange(off, off + 40) =~= spec_join(lines).subrange(
        off, off + lines[i].len()).subrange(0, 40));
    assert(spec_nodes_text(my, st).subrange(off, off + 40) == spec_hex40(n.id as nat));
}

impl Default for ClusterCommands {
    /// A handler with no node id over a fresh state.
    fn default() -> (r: ClusterCommands)
        ensures
            r.wf(),
            r.node_id is None,
            r.state.nodes@.len() == 0,
            r.state.config_epoch == 0,
    {
        ClusterCommands::new()
    }
}

} // verus!
