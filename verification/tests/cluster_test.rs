use aikv::cluster::{ClusterState, NodeInfo, SlotState};
use aikv::cluster_commands::{ClusterCommands, RedirectDecision};
use aikv::error::AikvError;
use aikv::resp::RespValue;
use aikv::cluster::node_id_from_text;
use aikv::slots::key_to_slot;
use aikv::text::{fnv64, u64_to_hex40};

fn args(parts: &[&str]) -> Vec<Vec<u8>> {
    parts.iter().map(|p| p.as_bytes().to_vec()).collect()
}

fn bulk_text_of(v: &RespValue) -> String {
    match v {
        RespValue::BulkString(Some(b)) => String::from_utf8(b.clone()).unwrap(),
        _ => panic!("Expected bulk string response"),
    }
}

#[test]
fn test_cluster_keyslot() {
    let mut cmd = ClusterCommands::new();

    let result = cmd.execute(&args(&["KEYSLOT", "foo"]));
    assert!(result.is_ok());

    if let Ok(RespValue::Integer(slot)) = result {
        assert!((0..16384).contains(&slot));
    } else {
        panic!("Expected integer response");
    }
}

#[test]
fn test_cluster_keyslot_hash_tag() {
    let mut cmd = ClusterCommands::new();

    let result1 = cmd.execute(&args(&["KEYSLOT", "{user}name"]));
    let result2 = cmd.execute(&args(&["KEYSLOT", "{user}age"]));

    let slot1 = match result1 {
        Ok(RespValue::Integer(s)) => s,
        _ => panic!("Expected integer"),
    };
    let slot2 = match result2 {
        Ok(RespValue::Integer(s)) => s,
        _ => panic!("Expected integer"),
    };

    assert!((0..16384).contains(&slot1));
    assert!((0..16384).contains(&slot2));
    assert_eq!(slot1, slot2);
}

#[test]
fn test_cluster_keyslot_hash_tag_fields() {
    let mut cmd = ClusterCommands::new();

    let result1 = cmd.execute(&args(&["KEYSLOT", "{user}.name"]));
    let result2 = cmd.execute(&args(&["KEYSLOT", "{user}.age"]));

    let slot1 = match result1 {
        Ok(RespValue::Integer(s)) => s,
        _ => panic!("Expected integer"),
    };
    let slot2 = match result2 {
        Ok(RespValue::Integer(s)) => s,
        _ => panic!("Expected integer"),
    };

    assert_eq!(slot1, slot2);
    assert!((0..16384).contains(&slot1));
    assert_eq!(slot1, key_to_slot(b"user") as i64);
}

#[test]
fn test_cluster_info() {
    let mut cmd = ClusterCommands::new();
    let result = cmd.execute(&args(&["INFO"]));
    assert!(result.is_ok());
}

#[test]
fn test_cluster_info_fresh_state() {
    let mut cmd = ClusterCommands::new();
    let result = cmd.execute(&args(&["INFO"]));
    let text = bulk_text_of(&result.unwrap());
    assert!(text.contains("cluster_state:fail"));
    assert!(text.contains("cluster_slots_assigned:0"));
    assert!(text.contains("cluster_known_nodes:1"));
    assert!(text.contains("cluster_current_epoch:0"));
}

#[test]
fn test_cluster_nodes() {
    let mut cmd = ClusterCommands::new();
    let result = cmd.execute(&args(&["NODES"]));
    assert!(result.is_ok());
}

#[test]
fn test_cluster_myid() {
    let mut cmd = ClusterCommands::new();
    let result = cmd.execute(&args(&["MYID"]));
    assert!(result.is_ok());
}

#[test]
fn test_cluster_myid_rendering() {
    let mut cmd = ClusterCommands::with_node_id(0xab);
    let result = cmd.execute(&args(&["MYID"]));
    let text = bulk_text_of(&result.unwrap());
    assert_eq!(text.len(), 40);
    assert_eq!(text, "00000000000000000000000000000000000000ab");
}

#[test]
fn test_cluster_help() {
    let mut cmd = ClusterCommands::new();
    let result = cmd.execute(&args(&["HELP"]));
    assert!(result.is_ok());
}

#[test]
fn test_cluster_unknown_subcommand() {
    let mut cmd = ClusterCommands::new();
    let result = cmd.execute(&args(&["UNKNOWN"]));
    assert!(result.is_err());
}

#[test]
fn test_cluster_no_subcommand() {
    let mut cmd = ClusterCommands::new();
    let result = cmd.execute(&Vec::new());
    match result {
        Err(AikvError::WrongArgCount(c)) => assert_eq!(c, "CLUSTER"),
        _ => panic!("Expected arity error"),
    }
}

#[test]
fn test_moved_error() {
    let error = ClusterCommands::moved_error(12345, "127.0.0.1:7000");
    if let RespValue::Error(msg) = error {
        assert!(msg.contains("MOVED"));
        assert!(msg.contains("12345"));
        assert!(msg.contains("127.0.0.1:7000"));
    } else {
        panic!("Expected error response");
    }
}

#[test]
fn test_ask_error() {
    let error = ClusterCommands::ask_error(12345, "127.0.0.1:7001");
    if let RespValue::Error(msg) = error {
        assert!(msg.contains("ASK"));
        assert!(msg.contains("12345"));
        assert!(msg.contains("127.0.0.1:7001"));
    } else {
        panic!("Expected error response");
    }
}

#[test]
fn test_cluster_meet() {
    let mut cmd = ClusterCommands::with_node_id(1);

    let result = cmd.execute(&args(&["MEET", "192.168.1.100", "6380"]));
    assert!(result.is_ok());

    let state = cmd.state();
    assert!(state.nodes.len() >= 2);
}

#[test]
fn test_cluster_meet_with_cluster_port() {
    let mut cmd = ClusterCommands::with_node_id(1);

    let result = cmd.execute(&args(&["MEET", "192.168.1.100", "6380", "16380"]));
    assert!(result.is_ok());
}

#[test]
fn test_cluster_meet_wrong_args() {
    let mut cmd = ClusterCommands::with_node_id(1);

    let result = cmd.execute(&args(&["MEET", "192.168.1.100"]));
    assert!(result.is_err());

    let result = cmd.execute(&args(&["MEET"]));
    assert!(result.is_err());
}

#[test]
fn test_cluster_forget() {
    let mut cmd = ClusterCommands::with_node_id(1);

    cmd.execute(&args(&["MEET", "192.168.1.100", "6380"])).unwrap();

    let node_id: u64 = {
        let state = cmd.state();
        state.nodes.iter().map(|n| n.id).find(|&id| id != 1).unwrap()
    };

    let result = cmd.execute(&args(&["FORGET", &format!("{:040x}", node_id)]));
    assert!(result.is_ok());

    let state = cmd.state();
    assert!(!state.nodes.iter().any(|n| n.id == node_id));
}

#[test]
fn test_cluster_forget_self() {
    let mut cmd = ClusterCommands::with_node_id(1);

    let result = cmd.execute(&args(&["FORGET", &format!("{:040x}", 1u64)]));
    assert!(result.is_err());
    match result {
        Err(AikvError::InvalidArgument(m)) => {
            assert!(m.contains("I tried hard but I can't forget myself"));
        }
        _ => panic!("Expected invalid-argument error"),
    }
}

#[test]
fn test_cluster_forget_unknown() {
    let mut cmd = ClusterCommands::with_node_id(1);

    let result = cmd.execute(&args(&["FORGET", "0000000000000000000000000000000000000999"]));
    assert!(result.is_err());
}

#[test]
fn test_cluster_addslots() {
    let mut cmd = ClusterCommands::with_node_id(1);

    let result = cmd.execute(&args(&["ADDSLOTS", "0", "1", "2"]));
    assert!(result.is_ok());

    let state = cmd.state();
    assert_eq!(state.slot_assignments[0], Some(1));
    assert_eq!(state.slot_assignments[1], Some(1));
    assert_eq!(state.slot_assignments[2], Some(1));
}

#[test]
fn test_cluster_addslots_already_assigned() {
    let mut cmd = ClusterCommands::with_node_id(1);

    cmd.execute(&args(&["ADDSLOTS", "0"])).unwrap();

    let mut cmd2 = ClusterCommands::with_shared_state(Some(2), cmd.state());
    let result = cmd2.execute(&args(&["ADDSLOTS", "0"]));
    assert!(result.is_err());
    match result {
        Err(AikvError::InvalidArgument(m)) => assert_eq!(m, "Slot 0 is already busy"),
        _ => panic!("Expected invalid-argument error"),
    }
    // The failed call changed nothing: slot 0 is still owned by node 1.
    let state = cmd2.state();
    assert_eq!(state.slot_assignments[0], Some(1));
}

#[test]
fn test_cluster_addslots_invalid_slot() {
    let mut cmd = ClusterCommands::with_node_id(1);

    let result = cmd.execute(&args(&["ADDSLOTS", "99999"]));
    assert!(result.is_err());
}

#[test]
fn test_cluster_addslots_out_of_range_message() {
    let mut cmd = ClusterCommands::with_node_id(1);

    let result = cmd.execute(&args(&["ADDSLOTS", "16500"]));
    match result {
        Err(AikvError::InvalidArgument(m)) => {
            assert_eq!(m, "Invalid slot 16500 (out of range 0-16383)");
        }
        _ => panic!("Expected invalid-argument error"),
    }
}

#[test]
fn test_cluster_addslots_atomic_on_conflict() {
    let mut cmd = ClusterCommands::with_node_id(1);
    cmd.execute(&args(&["ADDSLOTS", "5"])).unwrap();

    let mut cmd2 = ClusterCommands::with_shared_state(Some(2), cmd.state());
    // Slot 4 is free, slot 5 busy: the whole request must fail with no change.
    let result = cmd2.execute(&args(&["ADDSLOTS", "4", "5"]));
    assert!(result.is_err());
    let state = cmd2.state();
    assert_eq!(state.slot_assignments[4], None);
    assert_eq!(state.slot_assignments[5], Some(1));
}

#[test]
fn test_cluster_delslots() {
    let mut cmd = ClusterCommands::with_node_id(1);

    cmd.execute(&args(&["ADDSLOTS", "0", "1", "2"])).unwrap();

    let result = cmd.execute(&args(&["DELSLOTS", "0", "1"]));
    assert!(result.is_ok());

    let state = cmd.state();
    assert_eq!(state.slot_assignments[0], None);
    assert_eq!(state.slot_assignments[1], None);
    assert_eq!(state.slot_assignments[2], Some(1));
}

#[test]
fn test_cluster_delslots_not_owned() {
    let mut cmd = ClusterCommands::with_node_id(1);
    cmd.execute(&args(&["ADDSLOTS", "7"])).unwrap();

    let mut cmd2 = ClusterCommands::with_shared_state(Some(2), cmd.state());
    let result = cmd2.execute(&args(&["DELSLOTS", "7"]));
    match result {
        Err(AikvError::InvalidArgument(m)) => {
            assert_eq!(m, "Slot 7 is not owned by this node");
        }
        _ => panic!("Expected invalid-argument error"),
    }
}

#[test]
fn test_cluster_setslot_node() {
    let mut cmd = ClusterCommands::with_node_id(1);

    let result = cmd.execute(&args(&["SETSLOT", "100", "NODE", &format!("{:040x}", 1u64)]));
    assert!(result.is_ok());

    let state = cmd.state();
    assert_eq!(state.slot_assignments[100], Some(1));
}

#[test]
fn test_cluster_setslot_migrating() {
    let mut cmd = ClusterCommands::with_node_id(1);

    cmd.execute(&args(&["ADDSLOTS", "100"])).unwrap();

    let target_node_id = 2u64;
    let result = cmd.execute(&args(&[
        "SETSLOT",
        "100",
        "MIGRATING",
        &format!("{:040x}", target_node_id),
    ]));
    assert!(result.is_ok());

    let state = cmd.state();
    let mig = state.migrations.iter().find(|m| m.slot == 100).unwrap();
    assert_eq!(mig.state, SlotState::Migrating);
    assert_eq!(mig.peer, target_node_id);
}

#[test]
fn test_cluster_setslot_importing() {
    let mut cmd = ClusterCommands::with_node_id(1);

    let source_node_id = 2u64;
    let result = cmd.execute(&args(&[
        "SETSLOT",
        "100",
        "IMPORTING",
        &format!("{:040x}", source_node_id),
    ]));
    assert!(result.is_ok());

    let state = cmd.state();
    let mig = state.migrations.iter().find(|m| m.slot == 100).unwrap();
    assert_eq!(mig.state, SlotState::Importing);
    assert_eq!(mig.peer, source_node_id);
}

#[test]
fn test_cluster_setslot_stable() {
    let mut cmd = ClusterCommands::with_node_id(1);

    cmd.execute(&args(&["ADDSLOTS", "100"])).unwrap();
    cmd.execute(&args(&["SETSLOT", "100", "MIGRATING", &format!("{:040x}", 2u64)])).unwrap();

    let result = cmd.execute(&args(&["SETSLOT", "100", "STABLE"]));
    assert!(result.is_ok());

    let state = cmd.state();
    assert!(!state.migrations.iter().any(|m| m.slot == 100));
}

#[test]
fn test_cluster_setslot_invalid_subcommand() {
    let mut cmd = ClusterCommands::with_node_id(1);

    let result = cmd.execute(&args(&["SETSLOT", "100", "INVALID"]));
    assert!(result.is_err());
}

#[test]
fn test_cluster_setslot_migrating_requires_ownership() {
    let mut cmd = ClusterCommands::with_node_id(1);

    // Slot 200 is not owned by this node, so marking it outbound fails.
    let result = cmd.execute(&args(&["SETSLOT", "200", "MIGRATING", &format!("{:040x}", 2u64)]));
    assert!(result.is_err());
}

#[test]
fn test_cluster_slots_after_addslots() {
    let mut cmd = ClusterCommands::with_node_id(1);

    cmd.execute(&args(&["ADDSLOTS", "0", "1", "2", "100", "101"])).unwrap();

    let result = cmd.execute(&args(&["SLOTS"]));
    assert!(result.is_ok());

    if let Ok(RespValue::Array(Some(slots))) = result {
        assert_eq!(slots.len(), 2);
    } else {
        panic!("Expected array response");
    }
}

#[test]
fn test_cluster_slots_entry_contents() {
    let mut cmd = ClusterCommands::with_node_id(1);
    cmd.execute(&args(&["ADDSLOTS", "10", "11", "12"])).unwrap();

    let result = cmd.execute(&args(&["SLOTS"])).unwrap();
    let entries = match result {
        RespValue::Array(Some(entries)) => entries,
        _ => panic!("Expected array response"),
    };
    assert_eq!(entries.len(), 1);
    match &entries[0] {
        RespValue::Array(Some(triple)) => {
            assert_eq!(triple[0], RespValue::Integer(10));
            assert_eq!(triple[1], RespValue::Integer(11 + 1));
            match &triple[2] {
                RespValue::Array(Some(node)) => {
                    assert_eq!(node.len(), 3);
                    assert_eq!(bulk_text_of(&node[0]), "127.0.0.1");
                    assert_eq!(node[1], RespValue::Integer(6379));
                    assert_eq!(bulk_text_of(&node[2]), format!("{:040x}", 1u64));
                }
                _ => panic!("Expected node entry array"),
            }
        }
        _ => panic!("Expected slot entry array"),
    }
}

#[test]
fn test_cluster_info_with_slots() {
    let mut cmd = ClusterCommands::with_node_id(1);

    {
        let mut state = cmd.state();
        for i in 0..16384usize {
            state.slot_assignments[i] = Some(1);
        }
        cmd = ClusterCommands::with_shared_state(Some(1), state);
    }

    let result = cmd.execute(&args(&["INFO"]));
    assert!(result.is_ok());

    if let Ok(RespValue::BulkString(Some(info))) = result {
        let info_str = String::from_utf8_lossy(&info);
        assert!(info_str.contains("cluster_state:ok"));
        assert!(info_str.contains("cluster_slots_assigned:16384"));
    } else {
        panic!("Expected bulk string response");
    }
}

#[test]
fn test_cluster_nodes_format() {
    let mut cmd = ClusterCommands::with_node_id(1);

    cmd.execute(&args(&["ADDSLOTS", "0", "1"])).unwrap();

    let result = cmd.execute(&args(&["NODES"]));
    assert!(result.is_ok());

    if let Ok(RespValue::BulkString(Some(nodes))) = result {
        let nodes_str = String::from_utf8_lossy(&nodes);
        assert!(nodes_str.contains("myself"));
        assert!(nodes_str.contains("master"));
        assert!(nodes_str.contains("connected"));
        assert!(nodes_str.contains("0-1"));
    } else {
        panic!("Expected bulk string response");
    }
}

#[test]
fn test_cluster_nodes_contains_met_node_id() {
    let mut cmd = ClusterCommands::with_node_id(1);
    cmd.execute(&args(&["MEET", "192.168.1.50", "7001"])).unwrap();

    let met_id = fnv64(b"192.168.1.50:7001");
    let result = cmd.execute(&args(&["NODES"])).unwrap();
    let text = bulk_text_of(&result);
    assert!(text.contains(u64_to_hex40(met_id).as_str()));
}

#[test]
fn test_epoch_increases_on_mutations() {
    let mut cmd = ClusterCommands::with_node_id(1);
    assert_eq!(cmd.state().config_epoch, 0);

    cmd.execute(&args(&["MEET", "10.0.0.9", "7000"])).unwrap();
    assert_eq!(cmd.state().config_epoch, 1);

    cmd.execute(&args(&["ADDSLOTS", "3"])).unwrap();
    assert_eq!(cmd.state().config_epoch, 2);

    cmd.execute(&args(&["SETSLOT", "3", "MIGRATING", &format!("{:040x}", 2u64)])).unwrap();
    assert_eq!(cmd.state().config_epoch, 3);

    cmd.execute(&args(&["DELSLOTS", "3"])).unwrap();
    assert_eq!(cmd.state().config_epoch, 4);

    // A read-only command leaves the epoch alone.
    cmd.execute(&args(&["INFO"])).unwrap();
    assert_eq!(cmd.state().config_epoch, 4);
}

#[test]
fn test_check_redirect_serve_and_moved() {
    let mut state = ClusterState::new();
    state.nodes.push(NodeInfo::new(1, "127.0.0.1:6379".to_string()));
    state.nodes.push(NodeInfo::new(2, "10.0.0.2:6400".to_string()));
    let slot = key_to_slot(b"somekey") as usize;
    state.slot_assignments[slot] = Some(1);
    let cmd = ClusterCommands::with_shared_state(Some(1), state);

    assert_eq!(cmd.check_redirect(b"somekey", true), RedirectDecision::Serve);

    let mut state2 = cmd.state();
    state2.slot_assignments[slot] = Some(2);
    let cmd2 = ClusterCommands::with_shared_state(Some(1), state2);
    match cmd2.check_redirect(b"somekey", false) {
        RedirectDecision::Moved(s, addr) => {
            assert_eq!(s as usize, slot);
            assert_eq!(addr, "10.0.0.2:6400");
        }
        other => panic!("Expected a moved redirect, got {:?}", other),
    }
}

#[test]
fn test_check_redirect_ask_during_migration() {
    let mut cmd = ClusterCommands::with_node_id(1);
    cmd.execute(&args(&["MEET", "10.0.0.3", "6500"])).unwrap();
    let target = fnv64(b"10.0.0.3:6500");
    let slot = key_to_slot(b"migrkey");
    cmd.execute(&args(&["ADDSLOTS", &format!("{}", slot)])).unwrap();
    cmd.execute(&args(&["SETSLOT", &format!("{}", slot), "MIGRATING", &format!("{:040x}", target)]))
        .unwrap();

    // The key is still here: serve locally.
    assert_eq!(cmd.check_redirect(b"migrkey", true), RedirectDecision::Serve);

    // The key is gone: ask at the migration target.
    match cmd.check_redirect(b"migrkey", false) {
        RedirectDecision::Ask(s, addr) => {
            assert_eq!(s, slot);
            assert_eq!(addr, "10.0.0.3:6500");
        }
        other => panic!("Expected an ask redirect, got {:?}", other),
    }
}

#[test]
fn test_check_redirect_unassigned() {
    let cmd = ClusterCommands::with_node_id(1);
    match cmd.check_redirect(b"nokey", false) {
        RedirectDecision::Unassigned(s) => assert_eq!(s, key_to_slot(b"nokey")),
        other => panic!("Expected unassigned, got {:?}", other),
    }
}

#[test]
fn test_node_info_cluster_port() {
    let n = NodeInfo::new(7, "10.1.2.3:6400".to_string());
    assert_eq!(n.cluster_port, 16400);
    assert!(n.is_master);
    assert!(n.is_connected);

    let fallback = NodeInfo::new(8, "noport".to_string());
    assert_eq!(fallback.cluster_port, 16379);
}

#[test]
fn test_cluster_state_counts() {
    let mut state = ClusterState::new();
    assert_eq!(state.assigned_slots_count(), 0);
    assert!(!state.all_slots_assigned());
    state.slot_assignments[0] = Some(1);
    state.slot_assignments[1] = Some(2);
    state.slot_assignments[2] = Some(1);
    assert_eq!(state.assigned_slots_count(), 3);
    assert_eq!(state.cluster_size(), 2);
}

#[test]
fn test_raft_addr_from() {
    assert_eq!(aikv::cluster::raft_addr_from("127.0.0.1:6379", 16379), "127.0.0.1:16379");
    assert_eq!(aikv::cluster::raft_addr_from("bare", 16379), "bare");
}

#[test]
fn test_cluster_nodes_empty_registry() {
    let mut cmd = ClusterCommands::new();
    let result = cmd.execute(&args(&["NODES"])).unwrap();
    let text = bulk_text_of(&result);
    assert_eq!(
        text,
        "0000000000000000000000000000000000000000 127.0.0.1:6379@16379 myself,master - 0 0 0 connected\r\n"
    );
}

#[test]
fn test_cluster_help_lines() {
    let mut cmd = ClusterCommands::new();
    let result = cmd.execute(&args(&["HELP"])).unwrap();
    match result {
        RespValue::Array(Some(items)) => {
            assert_eq!(items.len(), 20);
            assert_eq!(bulk_text_of(&items[0]), "CLUSTER KEYSLOT <key>");
        }
        _ => panic!("Expected array response"),
    }
}

#[test]
fn test_cluster_keyslot_wrong_arity() {
    let mut cmd = ClusterCommands::new();
    match cmd.execute(&args(&["KEYSLOT"])) {
        Err(AikvError::WrongArgCount(c)) => assert_eq!(c, "CLUSTER KEYSLOT"),
        _ => panic!("Expected arity error"),
    }
    match cmd.execute(&args(&["KEYSLOT", "a", "b"])) {
        Err(AikvError::WrongArgCount(c)) => assert_eq!(c, "CLUSTER KEYSLOT"),
        _ => panic!("Expected arity error"),
    }
}

#[test]
fn test_cluster_addslots_without_node_id() {
    let mut cmd = ClusterCommands::new();
    match cmd.execute(&args(&["ADDSLOTS", "0"])) {
        Err(AikvError::InvalidCommand(m)) => {
            assert_eq!(m, "Node ID not set for this cluster node");
        }
        _ => panic!("Expected invalid-command error"),
    }
}

#[test]
fn test_cluster_meet_replaces_same_address() {
    let mut cmd = ClusterCommands::with_node_id(1);
    cmd.execute(&args(&["MEET", "10.0.0.4", "7000"])).unwrap();
    let before = cmd.state().nodes.len();
    // Meeting the same address again derives the same id and replaces it.
    cmd.execute(&args(&["MEET", "10.0.0.4", "7000", "17001"])).unwrap();
    let state = cmd.state();
    assert_eq!(state.nodes.len(), before);
    let met = fnv64(b"10.0.0.4:7000");
    let node = state.nodes.iter().find(|n| n.id == met).unwrap();
    assert_eq!(node.cluster_port, 17001);
}

#[test]
fn test_node_id_from_text() {
    assert_eq!(node_id_from_text(b"0xff"), 255);
    // Digit-only text also reads as hexadecimal.
    assert_eq!(node_id_from_text(b"123"), 0x123);
    assert_eq!(node_id_from_text(b"abc"), 0xabc);
    // Only a value too wide for hexadecimal falls back to decimal.
    assert_eq!(node_id_from_text(b"18446744073709551615"), u64::MAX);
    assert_eq!(node_id_from_text(b"not hex at all"), fnv64(b"not hex at all"));
}

#[test]
fn test_cluster_commands_default() {
    let cmd = ClusterCommands::default();
    assert!(cmd.node_id.is_none());
    assert_eq!(cmd.state.config_epoch, 0);
}

#[test]
fn test_forget_leaves_migration_records() {
    // FORGET removes the node and frees its slots, but leaves migration
    // records alone: a record's peer can dangle afterwards, which is why
    // the peer-validity law carries its FORGET proviso.
    let mut cmd = ClusterCommands::with_node_id(1);
    cmd.execute(&args(&["MEET", "10.0.0.5", "7000"])).unwrap();
    let peer = fnv64(b"10.0.0.5:7000");
    cmd.execute(&args(&["SETSLOT", "300", "IMPORTING", &format!("{:040x}", peer)])).unwrap();
    cmd.execute(&args(&["FORGET", &format!("{:040x}", peer)])).unwrap();

    let state = cmd.state();
    assert!(!state.nodes.iter().any(|n| n.id == peer));
    let mig = state.migrations.iter().find(|m| m.slot == 300).unwrap();
    assert_eq!(mig.peer, peer);
}
