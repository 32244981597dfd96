use aikv::error::AikvError;
use aikv::resp::RespValue;
use aikv::script::{script_command, ScriptCommands};
use aikv::storage::StorageAdapter;

fn setup() -> ScriptCommands {
    let storage = StorageAdapter::with_db_count(16);
    ScriptCommands::new(storage)
}

fn args(parts: &[&str]) -> Vec<Vec<u8>> {
    parts.iter().map(|p| p.as_bytes().to_vec()).collect()
}

#[test]
fn test_calculate_sha1() {
    let script = "return 1";
    let sha1 = ScriptCommands::calculate_sha1(script);
    assert_eq!(sha1, "e0e1f9fabfc9d4800c877a703b823ac0578ff8db");
}

#[test]
fn test_script_load() {
    let mut script_commands = setup();
    let script = "return 'hello'";
    let a = args(&[script]);

    let result = script_commands.script_load(&a);
    assert!(result.is_ok());

    if let Ok(RespValue::BulkString(Some(sha1))) = result {
        assert_eq!(
            String::from_utf8_lossy(&sha1),
            "1b936e3fe509bcbc9cd0664897bbe8fd0cac101b"
        );
    } else {
        panic!("Expected BulkString");
    }
}

#[test]
fn test_script_exists() {
    let mut script_commands = setup();
    let script = "return 'hello'";
    let sha1 = ScriptCommands::calculate_sha1(script);

    script_commands.script_load(&args(&[script])).unwrap();

    let exists_args = args(&[&sha1]);
    let result = script_commands.script_exists(&exists_args).unwrap();

    if let RespValue::Array(Some(arr)) = result {
        assert_eq!(arr.len(), 1);
        assert_eq!(arr[0], RespValue::Integer(1));
    } else {
        panic!("Expected Array");
    }
}

#[test]
fn test_script_exists_mixed() {
    let mut script_commands = setup();
    script_commands.script_load(&args(&["return 1"])).unwrap();
    let known = ScriptCommands::calculate_sha1("return 1");

    let result = script_commands
        .script_exists(&args(&[&known, "deadbeefdeadbeefdeadbeefdeadbeefdeadbeef"]))
        .unwrap();
    if let RespValue::Array(Some(arr)) = result {
        assert_eq!(arr[0], RespValue::Integer(1));
        assert_eq!(arr[1], RespValue::Integer(0));
    } else {
        panic!("Expected Array");
    }
}

#[test]
fn test_script_flush() {
    let mut script_commands = setup();
    let script = "return 'hello'";

    script_commands.script_load(&args(&[script])).unwrap();

    let result = script_commands.script_flush(&[]);
    assert!(result.is_ok());
    assert_eq!(result.unwrap(), RespValue::SimpleString("OK".to_string()));

    let sha1 = ScriptCommands::calculate_sha1(script);
    let result = script_commands.script_exists(&args(&[&sha1])).unwrap();

    if let RespValue::Array(Some(arr)) = result {
        assert_eq!(arr[0], RespValue::Integer(0));
    }
}

#[test]
fn test_script_kill() {
    let script_commands = setup();
    let result = script_commands.script_kill(&[]);
    match result {
        Err(AikvError::InvalidArgument(m)) => {
            assert_eq!(m, "NOTBUSY No scripts in execution right now.");
        }
        _ => panic!("Expected NOTBUSY error"),
    }
}

#[test]
fn test_eval_simple_return() {
    let mut script_commands = setup();
    let a = args(&["return 42", "0"]);

    let result = script_commands.eval(&a, 0);
    assert!(result.is_ok());
    assert_eq!(result.unwrap(), RespValue::Integer(42));
}

#[test]
fn test_eval_with_keys() {
    let mut script_commands = setup();
    let a = args(&["return KEYS[1]", "1", "mykey"]);

    let result = script_commands.eval(&a, 0).unwrap();
    if let RespValue::BulkString(Some(value)) = result {
        assert_eq!(String::from_utf8_lossy(&value), "mykey");
    } else {
        panic!("Expected BulkString");
    }
}

#[test]
fn test_eval_with_argv() {
    let mut script_commands = setup();
    let a = args(&["return ARGV[1]", "0", "myarg"]);

    let result = script_commands.eval(&a, 0).unwrap();
    if let RespValue::BulkString(Some(value)) = result {
        assert_eq!(String::from_utf8_lossy(&value), "myarg");
    } else {
        panic!("Expected BulkString");
    }
}

#[test]
fn test_eval_redis_call_set_get() {
    let mut script_commands = setup();
    let script = "\n            redis.call('SET', KEYS[1], ARGV[1])\n            return redis.call('GET', KEYS[1])\n        ";
    let a = args(&[script, "1", "mykey", "myvalue"]);

    let result = script_commands.eval(&a, 0).unwrap();
    if let RespValue::BulkString(Some(value)) = result {
        assert_eq!(String::from_utf8_lossy(&value), "myvalue");
    } else {
        panic!("Expected BulkString");
    }
}

#[test]
fn test_evalsha() {
    let mut script_commands = setup();
    let script = "return 'hello from cache'";

    let load_result = script_commands.script_load(&args(&[script])).unwrap();

    let sha1 = if let RespValue::BulkString(Some(sha)) = load_result {
        sha
    } else {
        panic!("Expected BulkString");
    };

    let evalsha_args = vec![sha1, b"0".to_vec()];
    let result = script_commands.evalsha(&evalsha_args, 0).unwrap();

    if let RespValue::BulkString(Some(value)) = result {
        assert_eq!(String::from_utf8_lossy(&value), "hello from cache");
    } else {
        panic!("Expected BulkString");
    }
}

#[test]
fn test_evalsha_not_found() {
    let mut script_commands = setup();
    let sha1 = "nonexistent_sha1";
    let a = args(&[sha1, "0"]);

    let result = script_commands.evalsha(&a, 0);
    assert!(result.is_err());
}

#[test]
fn test_evalsha_cache_miss_is_noscript() {
    let mut script_commands = setup();
    let a = args(&["deadbeefdeadbeefdeadbeefdeadbeefdeadbeef", "0"]);
    match script_commands.evalsha(&a, 0) {
        Err(AikvError::InvalidArgument(m)) => {
            assert_eq!(m, "NOSCRIPT No matching script. Use EVAL.");
        }
        _ => panic!("Expected NOSCRIPT error"),
    }
}

#[test]
fn test_evalsha_equals_eval_after_load() {
    let mut a = setup();
    let mut b = setup();
    let script = "return 7 + 1";

    let sha = ScriptCommands::calculate_sha1(script);
    a.script_load(&args(&[script])).unwrap();
    let via_sha = a.evalsha(&args(&[&sha, "0"]), 0).unwrap();
    let via_eval = b.eval(&args(&[script, "0"]), 0).unwrap();
    assert_eq!(via_sha, via_eval);
    assert_eq!(via_sha, RespValue::Integer(8));
}

#[test]
fn test_eval_wrong_arity() {
    let mut script_commands = setup();
    match script_commands.eval(&args(&["return 1"]), 0) {
        Err(AikvError::WrongArgCount(c)) => assert_eq!(c, "EVAL"),
        _ => panic!("Expected arity error"),
    }
}

#[test]
fn test_eval_bad_numkeys() {
    let mut script_commands = setup();
    match script_commands.eval(&args(&["return 1", "x"]), 0) {
        Err(AikvError::InvalidArgument(m)) => assert_eq!(m, "numkeys must be a number"),
        _ => panic!("Expected invalid-argument error"),
    }
}

#[test]
fn test_eval_too_few_keys() {
    let mut script_commands = setup();
    match script_commands.eval(&args(&["return 1", "3", "k1"]), 0) {
        Err(AikvError::InvalidArgument(m)) => {
            assert_eq!(m, "Number of keys doesn't match numkeys parameter");
        }
        _ => panic!("Expected invalid-argument error"),
    }
}

#[test]
fn test_eval_caches_script() {
    let mut script_commands = setup();
    let script = "return 5";
    script_commands.eval(&args(&[script, "0"]), 0).unwrap();

    let sha = ScriptCommands::calculate_sha1(script);
    let result = script_commands.evalsha(&args(&[&sha, "0"]), 0).unwrap();
    assert_eq!(result, RespValue::Integer(5));
}

#[test]
fn test_eval_syntax_error_is_script_error() {
    let mut script_commands = setup();
    match script_commands.eval(&args(&["return ((", "0"]), 0) {
        Err(AikvError::Script(m)) => assert!(m.contains("Script execution error")),
        _ => panic!("Expected script error"),
    }
}

#[test]
fn test_eval_call_unknown_command_fails() {
    let mut script_commands = setup();
    let result = script_commands.eval(&args(&["return redis.call('NOPE')", "0"]), 0);
    match result {
        Err(AikvError::Script(m)) => assert!(m.contains("Command not supported in scripts")),
        _ => panic!("Expected script error"),
    }
}

#[test]
fn test_eval_pcall_unknown_command_is_nil() {
    let mut script_commands = setup();
    let result = script_commands.eval(&args(&["return redis.pcall('NOPE')", "0"]), 0).unwrap();
    assert_eq!(result, RespValue::Null);
}

#[test]
fn test_eval_boolean_results() {
    let mut script_commands = setup();
    assert_eq!(
        script_commands.eval(&args(&["return true", "0"]), 0).unwrap(),
        RespValue::Integer(1)
    );
    assert_eq!(
        script_commands.eval(&args(&["return false", "0"]), 0).unwrap(),
        RespValue::Null
    );
    assert_eq!(script_commands.eval(&args(&["return nil", "0"]), 0).unwrap(), RespValue::Null);
}

#[test]
fn test_eval_float_results() {
    let mut script_commands = setup();
    // A float with zero fractional part converts to an integer.
    assert_eq!(
        script_commands.eval(&args(&["return 6.0", "0"]), 0).unwrap(),
        RespValue::Integer(6)
    );
    // Any other float converts to the text of the number.
    match script_commands.eval(&args(&["return 2.5", "0"]), 0).unwrap() {
        RespValue::BulkString(Some(b)) => assert_eq!(String::from_utf8_lossy(&b), "2.5"),
        other => panic!("Expected bulk string, got {:?}", other),
    }
}

#[test]
fn test_eval_table_result() {
    let mut script_commands = setup();
    let result = script_commands.eval(&args(&["return {1, 'two', 3}", "0"]), 0).unwrap();
    match result {
        RespValue::Array(Some(items)) => {
            assert_eq!(items.len(), 3);
            assert_eq!(items[0], RespValue::Integer(1));
            match &items[1] {
                RespValue::BulkString(Some(b)) => assert_eq!(String::from_utf8_lossy(b), "two"),
                other => panic!("Expected bulk string, got {:?}", other),
            }
            assert_eq!(items[2], RespValue::Integer(3));
        }
        other => panic!("Expected array, got {:?}", other),
    }
}

#[test]
fn test_eval_del_and_exists() {
    let mut script_commands = setup();
    script_commands
        .eval(&args(&["redis.call('SET', KEYS[1], ARGV[1])", "1", "a", "1"]), 0)
        .unwrap();
    let exists = script_commands
        .eval(&args(&["return redis.call('EXISTS', KEYS[1], KEYS[1])", "1", "a"]), 0)
        .unwrap();
    assert_eq!(exists, RespValue::Integer(2));
    let deleted = script_commands
        .eval(&args(&["return redis.call('DEL', KEYS[1], KEYS[2])", "2", "a", "missing"]), 0)
        .unwrap();
    assert_eq!(deleted, RespValue::Integer(1));
    let exists_after = script_commands
        .eval(&args(&["return redis.call('GET', KEYS[1])", "1", "a"]), 0)
        .unwrap();
    assert_eq!(exists_after, RespValue::Null);
}

#[test]
fn test_script_command_get_set() {
    let mut storage = StorageAdapter::with_db_count(2);
    let r = script_command(&mut storage, 0, &args(&["SET", "k", "v"])).unwrap();
    assert_eq!(r, RespValue::SimpleString("OK".to_string()));
    let r = script_command(&mut storage, 0, &args(&["GET", "k"])).unwrap();
    assert_eq!(r, RespValue::BulkString(Some(b"v".to_vec())));
    // The other database is untouched.
    let r = script_command(&mut storage, 1, &args(&["GET", "k"])).unwrap();
    assert_eq!(r, RespValue::Null);
}

#[test]
fn test_script_command_db_out_of_range() {
    let mut storage = StorageAdapter::with_db_count(2);
    match script_command(&mut storage, 9, &args(&["GET", "k"])) {
        Err(AikvError::Storage(m)) => assert_eq!(m, "db index out of range"),
        _ => panic!("Expected storage error"),
    }
}

#[test]
fn test_script_command_unknown() {
    let mut storage = StorageAdapter::with_db_count(1);
    match script_command(&mut storage, 0, &args(&["HSET", "k", "f", "v"])) {
        Err(AikvError::InvalidCommand(m)) => {
            assert_eq!(m, "Command not supported in scripts: HSET");
        }
        _ => panic!("Expected invalid-command error"),
    }
}

#[test]
fn test_eval_call_argument_types() {
    let mut script_commands = setup();
    // Integer and boolean arguments render as text.
    script_commands
        .eval(&args(&["redis.call('SET', KEYS[1], 12)", "1", "n"]), 0)
        .unwrap();
    let got = script_commands
        .eval(&args(&["return redis.call('GET', KEYS[1])", "1", "n"]), 0)
        .unwrap();
    assert_eq!(got, RespValue::BulkString(Some(b"12".to_vec())));

    script_commands
        .eval(&args(&["redis.call('SET', KEYS[1], true)", "1", "b"]), 0)
        .unwrap();
    let got = script_commands
        .eval(&args(&["return redis.call('GET', KEYS[1])", "1", "b"]), 0)
        .unwrap();
    assert_eq!(got, RespValue::BulkString(Some(b"1".to_vec())));

    // A table is not a valid call argument: call raises, pcall yields nil.
    let r = script_commands.eval(&args(&["return redis.pcall('SET', KEYS[1], {})", "1", "t"]), 0);
    assert_eq!(r.unwrap(), RespValue::Null);
}

#[test]
fn test_evalsha_miss_leaves_storage_unchanged() {
    let mut script_commands = setup();
    script_commands.storage.set_in_db(0, "stay".to_string(), b"put".to_vec());

    let a = args(&["deadbeefdeadbeefdeadbeefdeadbeefdeadbeef", "0"]);
    assert!(script_commands.evalsha(&a, 0).is_err());

    assert_eq!(script_commands.storage.get_from_db(0, "stay"), Some(b"put".to_vec()));
    assert_eq!(script_commands.storage.db_count(), 16);
}
