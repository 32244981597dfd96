use aikv::error::AikvError;
use aikv::resp::RespValue;
use aikv::slots::{crc16, key_to_slot};
use aikv::storage::StorageAdapter;
use aikv::strmap::StrMap;
use aikv::cluster_commands::ClusterCommands;
use aikv::text::{
    ascii_upper, bytes_to_hex, fnv64, i64_to_string, parse_i64_chars, parse_u16_chars,
    parse_u16_dec, parse_u64_dec, parse_u64_hex, parse_usize_dec, u64_to_hex40, u64_to_string,
};

#[test]
fn test_parse_u64_dec_shapes() {
    assert_eq!(parse_u64_dec(b"0"), Some(0));
    assert_eq!(parse_u64_dec(b"16383"), Some(16383));
    assert_eq!(parse_u64_dec(b"+7"), Some(7));
    assert_eq!(parse_u64_dec(b"007"), Some(7));
    assert_eq!(parse_u64_dec(b""), None);
    assert_eq!(parse_u64_dec(b"+"), None);
    assert_eq!(parse_u64_dec(b"1a"), None);
    assert_eq!(parse_u64_dec(b"-1"), None);
    assert_eq!(parse_u64_dec(b"18446744073709551615"), Some(u64::MAX));
    assert_eq!(parse_u64_dec(b"18446744073709551616"), None);
}

#[test]
fn test_parse_u16_dec_range() {
    assert_eq!(parse_u16_dec(b"65535"), Some(65535));
    assert_eq!(parse_u16_dec(b"65536"), None);
    assert_eq!(parse_usize_dec(b"12"), Some(12));
}

#[test]
fn test_parse_u64_hex_shapes() {
    assert_eq!(parse_u64_hex(b"ff"), Some(255));
    assert_eq!(parse_u64_hex(b"FF"), Some(255));
    assert_eq!(parse_u64_hex(b"0000000000000000000000000000000000000001"), Some(1));
    assert_eq!(parse_u64_hex(b"+a"), Some(10));
    assert_eq!(parse_u64_hex(b""), None);
    assert_eq!(parse_u64_hex(b"xyz"), None);
    assert_eq!(parse_u64_hex(b"ffffffffffffffff"), Some(u64::MAX));
    assert_eq!(parse_u64_hex(b"10000000000000000"), None);
}

#[test]
fn test_char_domain_parsers() {
    assert_eq!(parse_u16_chars("6379"), Some(6379));
    assert_eq!(parse_u16_chars("port"), None);
    assert_eq!(parse_i64_chars("-12"), Some(-12));
    assert_eq!(parse_i64_chars("+12"), Some(12));
    assert_eq!(parse_i64_chars("9223372036854775807"), Some(i64::MAX));
    assert_eq!(parse_i64_chars("-9223372036854775808"), Some(i64::MIN));
    assert_eq!(parse_i64_chars("-9223372036854775809"), None);
}

#[test]
fn test_rendering() {
    assert_eq!(u64_to_string(0), "0");
    assert_eq!(u64_to_string(16383), "16383");
    assert_eq!(i64_to_string(-42), "-42");
    assert_eq!(i64_to_string(i64::MIN), "-9223372036854775808");
    assert_eq!(u64_to_hex40(1), "0000000000000000000000000000000000000001");
    assert_eq!(u64_to_hex40(0xab), format!("{:040x}", 0xabu64));
    assert_eq!(bytes_to_hex(&[0x0f, 0xa0]), "0fa0");
}

#[test]
fn test_ascii_upper_and_lossy_decoding() {
    assert_eq!(ascii_upper(b"keyslot"), b"KEYSLOT".to_vec());
    assert_eq!(ascii_upper(b"MiXeD-09"), b"MIXED-09".to_vec());
    // The dispatcher echoes the decoded subcommand: invalid UTF-8 turns
    // into the replacement character rather than passing through.
    let mut cmd = ClusterCommands::new();
    let result = cmd.execute(&vec![vec![0x61, 0xff, 0x62]]);
    match result {
        Err(AikvError::InvalidCommand(m)) => {
            assert_eq!(m, "Unknown CLUSTER subcommand: A\u{fffd}B");
        }
        _ => panic!("Expected invalid-command error"),
    }
}

#[test]
fn test_fnv64_is_stable() {
    // The same bytes hash identically; different bytes differ.
    assert_eq!(fnv64(b"192.168.1.100:6380"), fnv64(b"192.168.1.100:6380"));
    assert_ne!(fnv64(b"a"), fnv64(b"b"));
}

#[test]
fn test_crc16_and_slot_range() {
    // CRC-16/CCITT-FALSE of "123456789" is the standard check value.
    assert_eq!(crc16(b"123456789"), 0x29b1);
    assert!(key_to_slot(b"") < 16384);
    assert!(key_to_slot(b"foo") < 16384);
    // An empty hash-tag body falls back to whole-key hashing.
    assert_eq!(key_to_slot(b"{}abc"), crc16(b"{}abc") % 16384);
    // A tagged key hashes only its tag body.
    assert_eq!(key_to_slot(b"{tag}rest"), crc16(b"tag") % 16384);
}

#[test]
fn test_error_frames() {
    let e = AikvError::WrongArgCount("CLUSTER".to_string());
    match e.to_resp() {
        RespValue::Error(t) => assert_eq!(t, "ERR wrong number of arguments for 'CLUSTER' command"),
        _ => panic!("Expected error frame"),
    }
    let e = AikvError::InvalidArgument("NOSCRIPT No matching script. Use EVAL.".to_string());
    match e.to_resp() {
        RespValue::Error(t) => assert_eq!(t, "NOSCRIPT No matching script. Use EVAL."),
        _ => panic!("Expected error frame"),
    }
    let e = AikvError::InvalidArgument("Invalid slot number".to_string());
    match e.to_resp() {
        RespValue::Error(t) => assert_eq!(t, "ERR Invalid slot number"),
        _ => panic!("Expected error frame"),
    }
    let e = AikvError::Cluster("the cluster is down".to_string());
    match e.to_resp() {
        RespValue::Error(t) => assert_eq!(t, "CLUSTERDOWN the cluster is down"),
        _ => panic!("Expected error frame"),
    }
    let e = AikvError::Script("boom".to_string());
    match e.to_resp() {
        RespValue::Error(t) => assert_eq!(t, "ERR boom"),
        _ => panic!("Expected error frame"),
    }
    let e = AikvError::Storage("lock poisoned".to_string());
    match e.to_resp() {
        RespValue::Error(t) => assert_eq!(t, "ERR lock poisoned"),
        _ => panic!("Expected error frame"),
    }
}

#[test]
fn test_storage_adapter_basics() {
    let mut s = StorageAdapter::with_db_count(2);
    assert_eq!(s.db_count(), 2);
    assert!(!s.exists_in_db(0, "k"));
    s.set_in_db(0, "k".to_string(), b"v1".to_vec());
    assert_eq!(s.get_from_db(0, "k"), Some(b"v1".to_vec()));
    assert!(s.exists_in_db(0, "k"));
    assert!(!s.exists_in_db(1, "k"));
    s.set_in_db(0, "k".to_string(), b"v2".to_vec());
    assert_eq!(s.get_from_db(0, "k"), Some(b"v2".to_vec()));
    assert!(s.delete_from_db(0, "k"));
    assert!(!s.delete_from_db(0, "k"));
    assert_eq!(s.get_from_db(0, "k"), None);
}

#[test]
fn test_strmap_basics() {
    let mut m: StrMap<String> = StrMap::new();
    assert!(!m.contains("a"));
    m.insert("a".to_string(), "1".to_string());
    m.insert("b".to_string(), "2".to_string());
    assert_eq!(m.get("a"), Some(&"1".to_string()));
    m.insert("a".to_string(), "3".to_string());
    assert_eq!(m.get("a"), Some(&"3".to_string()));
    assert!(m.remove("a"));
    assert!(!m.remove("a"));
    assert!(m.contains("b"));
    m.clear();
    assert!(!m.contains("b"));
}
