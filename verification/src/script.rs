//! Script commands: the SHA-1-indexed cache, EVAL/EVALSHA validation,
//! the sandboxed session loop, and value conversions.

use vstd::prelude::*;
use crate::error::AikvError;
use crate::error::spec_error_text;
use crate::resp::RespValue;
use crate::storage::StorageAdapter;
use crate::strmap::StrMap;
use crate::text::{ascii_upper, bytes_eq, decoded_text, lossy_string, spec_upper_bytes};
use crate::cluster_commands::{err_arity, err_invalid, err_invalid_cmd, ok_simple};

verus! {

/// The interpreter-side value domain, modelled with plain values. A
/// number with a fractional part carries only its rendered text.
pub enum ScriptValue {
    Nil,
    Bool(bool),
    Int(i64),
    NumText(Vec<u8>),
    Str(Vec<u8>),
    Table(Vec<ScriptValue>),
    Other,
}

/// The wire-to-interpreter value conversion relation: nil wire values
/// become boolean false, integers stay integers, strings keep their
/// bytes, arrays convert element-wise.
pub open spec fn resp_script_rel(v: RespValue, s: ScriptValue) -> bool
    decreases v,
{
    match v {
        RespValue::Null => s == ScriptValue::Bool(false),
        RespValue::SimpleString(t) => s matches ScriptValue::Str(b) && b@ == vstd::utf8::encode_utf8(t@),
        RespValue::Error(t) => s matches ScriptValue::Str(b) && b@ == vstd::utf8::encode_utf8(t@),
        RespValue::Integer(i) => s == ScriptValue::Int(i),
        RespValue::BulkString(ob) => match ob {
            Some(b2) => s matches ScriptValue::Str(b) && b@ == b2@,
            None => s == ScriptValue::Bool(false),
        },
        RespValue::Array(oa) => match oa {
            Some(items) => s matches ScriptValue::Table(elems) && elems@.len() == items@.len()
                && (forall|k: int| 0 <= k < items@.len() ==> resp_script_rel(#[trigger] items@[k],
                elems@[k])),
            None => s == ScriptValue::Bool(false),
        },
    }
}

broadcast use vstd::std_specs::vec::axiom_vec_index_decreases;

/// The interpreter-to-wire result conversion relation: nil and opaque
/// values become null, true becomes the integer one, false becomes
/// null, integers stay integers, number text and strings become bulk
/// strings, sequences convert element-wise.
pub open spec fn script_resp_rel(s: ScriptValue, v: RespValue) -> bool
    decreases s,
{
    match s {
        ScriptValue::Nil => v == RespValue::Null,
        ScriptValue::Bool(b) => if b {
            v == RespValue::Integer(1)
        } else {
            v == RespValue::Null
        },
        ScriptValue::Int(i) => v == RespValue::Integer(i),
        ScriptValue::NumText(t) => v matches RespValue::BulkString(Some(b)) && b@ == t@,
        ScriptValue::Str(b2) => v matches RespValue::BulkString(Some(b)) && b@ == b2@,
        ScriptValue::Table(elems) => v matches RespValue::Array(Some(items)) && items@.len()
            == elems@.len() && (forall|k: int|
            0 <= k < elems@.len() ==> script_resp_rel(#[trigger] elems@[k], items@[k])),
        ScriptValue::Other => v == RespValue::Null,
    }
}

/// Convert a script result into a wire value.
pub fn script_to_resp(s: &ScriptValue) -> (r: RespValue)
    ensures
        script_resp_rel(*s, r),
    decreases *s,
{
    match s {
        ScriptValue::Nil => RespValue::Null,
        ScriptValue::Bool(b) => if *b {
            RespValue::Integer(1)
        } else {
            RespValue::Null
        },
        ScriptValue::Int(i) => RespValue::Integer(*i),
        ScriptValue::NumText(t) => RespValue::BulkString(Some(crate::storage::copy_bytes(t))),
        ScriptValue::Str(b) => RespValue::BulkString(Some(crate::storage::copy_bytes(b))),
        ScriptValue::Table(elems) => {
            proof {
                assert(decreases_to!(*s => s->Table_0));
            }
            let mut items: Vec<RespValue> = Vec::new();
            let mut i: usize = 0;
            while i < elems.len()
                invariant
                    0 <= i <= elems@.len(),
                    *s == ScriptValue::Table(*elems),
                    items@.len() == i,
                    forall|k: int| 0 <= k < i ==> script_resp_rel(#[trigger] elems@[k],
                        items@[k]),
                decreases elems@.len() - i,
            {
                proof {
                    assert(decreases_to!(*s => s->Table_0));
                    assert(s->Table_0 == *elems);
                    assert(decreases_to!(*elems => elems@));
                    assert(decreases_to!(elems@ => elems@[i as int]));
                }
                let rv = script_to_resp(&elems[i]);
                items.push(rv);
                i = i + 1;
            }
            RespValue::Array(Some(items))
        },
        ScriptValue::Other => RespValue::Null,
    }
}

/// Convert a wire value into the interpreter's value domain.
pub fn resp_to_script(v: &RespValue) -> (r: ScriptValue)
    ensures
        resp_script_rel(*v, r),
    decreases *v,
{
    match v {
        RespValue::Null => ScriptValue::Bool(false),
        RespValue::SimpleString(s) => ScriptValue::Str(s.as_str().as_bytes_vec()),
        RespValue::Error(s) => ScriptValue::Str(s.as_str().as_bytes_vec()),
        RespValue::Integer(i) => ScriptValue::Int(*i),
        RespValue::BulkString(ob) => match ob {
            Some(b) => ScriptValue::Str(crate::storage::copy_bytes(b)),
            None => ScriptValue::Bool(false),
        },
        RespValue::Array(oa) => match oa {
            Some(items) => {
                let mut elems: Vec<ScriptValue> = Vec::new();
                let mut i: usize = 0;
                while i < items.len()
                    invariant
                        0 <= i <= items@.len(),
                        *v == RespValue::Array(Some(*items)),
                        elems@.len() == i,
                        forall|k: int| 0 <= k < i ==> resp_script_rel(#[trigger] items@[k],
                            elems@[k]),
                    decreases items@.len() - i,
                {
                    proof {
                        let ghost oa2 = v->Array_0;
                        assert(decreases_to!(*v => v->Array_0));
                        assert(decreases_to!(oa2 => oa2->0));
                        assert(oa2->0 == *items);
                        assert(decreases_to!(*items => items@));
                        assert(decreases_to!(items@ => items@[i as int]));
                    }
                    let sv = resp_to_script(&items[i]);
                    elems.push(sv);
                    i = i + 1;
                }
                ScriptValue::Table(elems)
            },
            None => ScriptValue::Bool(false),
        },
    }
}

// ---------------------------------------------------------------------------
// Argument marshalling, interpreter values to command bytes.
// ---------------------------------------------------------------------------

/// How a call argument renders to bytes: strings and number text pass
/// through, integers render in base ten, booleans as `1`/`0`; anything
/// else is not a valid argument.
pub open spec fn spec_marshal_arg(s: ScriptValue) -> Option<Seq<u8>> {
    match s {
        ScriptValue::Str(b) => Some(b@),
        ScriptValue::Int(i) => Some(vstd::utf8::encode_utf8(crate::text::spec_dec_i64(i as int))),
        ScriptValue::NumText(t) => Some(t@),
        ScriptValue::Bool(b) => Some(
            if b {
                vstd::utf8::encode_utf8("1"@)
            } else {
                vstd::utf8::encode_utf8("0"@)
            },
        ),
        _ => None,
    }
}

/// Render one call argument.
pub fn marshal_arg(s: &ScriptValue) -> (r: Option<Vec<u8>>)
    ensures
        match r {
            Some(b) => spec_marshal_arg(*s) == Some(b@),
            None => spec_marshal_arg(*s) is None,
        },
{
    match s {
        ScriptValue::Str(b) => Some(crate::storage::copy_bytes(b)),
        ScriptValue::Int(i) => Some(crate::text::i64_to_string(*i).as_str().as_bytes_vec()),
        ScriptValue::NumText(t) => Some(crate::storage::copy_bytes(t)),
        ScriptValue::Bool(b) => {
            if *b {
                Some("1".as_bytes_vec())
            } else {
                Some("0".as_bytes_vec())
            }
        },
        _ => None,
    }
}

// ---------------------------------------------------------------------------
// The allow-listed command dispatch scripts may call.
// ---------------------------------------------------------------------------

/// The byte views of a sequence of byte vectors.
pub open spec fn views_of(s: Seq<Vec<u8>>) -> Seq<Seq<u8>> {
    Seq::new(s.len(), |i: int| s[i]@)
}

/// Keys removed one by one, left to right.
pub open spec fn spec_del_map(m: Map<Seq<char>, Seq<u8>>, keys: Seq<Seq<u8>>) -> Map<
    Seq<char>,
    Seq<u8>,
>
    decreases keys.len(),
{
    if keys.len() == 0 {
        m
    } else {
        spec_del_map(m.remove(decoded_text(keys[0])), keys.skip(1))
    }
}

/// How many removals hit an existing key (saturating at `i64::MAX`).
pub open spec fn spec_del_count(m: Map<Seq<char>, Seq<u8>>, keys: Seq<Seq<u8>>) -> int
    decreases keys.len(),
{
    if keys.len() == 0 {
        0
    } else {
        let hit: int = if m.contains_key(decoded_text(keys[0])) {
            1
        } else {
            0
        };
        let rest = spec_del_count(m.remove(decoded_text(keys[0])), keys.skip(1));
        if hit + rest > i64::MAX {
            i64::MAX as int
        } else {
            hit + rest
        }
    }
}

/// How many of the keys exist (duplicates count; saturating).
pub open spec fn spec_exists_count(m: Map<Seq<char>, Seq<u8>>, keys: Seq<Seq<u8>>) -> int
    decreases keys.len(),
{
    if keys.len() == 0 {
        0
    } else {
        let hit: int = if m.contains_key(decoded_text(keys[0])) {
            1
        } else {
            0
        };
        let rest = spec_exists_count(m, keys.skip(1));
        if hit + rest > i64::MAX {
            i64::MAX as int
        } else {
            hit + rest
        }
    }
}

/// The contract of the script-visible command dispatch: GET, SET, DEL
/// and EXISTS against one database; anything else is rejected.
pub open spec fn script_command_post(pre: Seq<Map<Seq<char>, Seq<u8>>>, db: int,
    args: Seq<Seq<u8>>, post: Seq<Map<Seq<char>, Seq<u8>>>, r: Result<RespValue, AikvError>)
    -> bool {
    if args.len() == 0 {
        post == pre && err_invalid_cmd(r, "No command specified"@)
    } else {
        let cmd = spec_upper_bytes(args[0]);
        let tail = args.skip(1);
        if cmd == vstd::utf8::encode_utf8("GET"@) {
            if tail.len() != 1 {
                post == pre && err_arity(r, "GET"@)
            } else if !(0 <= db < pre.len()) {
                post == pre && err_storage(r, "db index out of range"@)
            } else {
                let key = decoded_text(tail[0]);
                post == pre && (match r {
                    Ok(RespValue::BulkString(Some(b))) => pre[db].contains_key(key) && b@
                        == pre[db][key],
                    Ok(RespValue::Null) => !pre[db].contains_key(key),
                    _ => false,
                })
            }
        } else if cmd == vstd::utf8::encode_utf8("SET"@) {
            if tail.len() < 2 {
                post == pre && err_arity(r, "SET"@)
            } else if !(0 <= db < pre.len()) {
                post == pre && err_storage(r, "db index out of range"@)
            } else {
                &&& post.len() == pre.len()
                &&& post[db] == pre[db].insert(decoded_text(tail[0]), tail[1])
                &&& forall|i: int| 0 <= i < pre.len() && i != db ==> #[trigger] post[i] == pre[i]
                &&& ok_simple(r, "OK"@)
            }
        } else if cmd == vstd::utf8::encode_utf8("DEL"@) {
            if tail.len() == 0 {
                post == pre && err_arity(r, "DEL"@)
            } else if !(0 <= db < pre.len()) {
                post == pre && err_storage(r, "db index out of range"@)
            } else {
                &&& post.len() == pre.len()
                &&& post[db] == spec_del_map(pre[db], tail)
                &&& forall|i: int| 0 <= i < pre.len() && i != db ==> #[trigger] post[i] == pre[i]
                &&& (match r {
                    Ok(RespValue::Integer(n)) => n == spec_del_count(pre[db], tail),
                    _ => false,
                })
            }
        } else if cmd == vstd::utf8::encode_utf8("EXISTS"@) {
            if tail.len() == 0 {
                post == pre && err_arity(r, "EXISTS"@)
            } else if !(0 <= db < pre.len()) {
                post == pre && err_storage(r, "db index out of range"@)
            } else {
                post == pre && (match r {
                    Ok(RespValue::Integer(n)) => n == spec_exists_count(pre[db], tail),
                    _ => false,
                })
            }
        } else {
            post == pre && err_invalid_cmd(r, "Command not supported in scripts: "@ + decoded_text(
                cmd))
        }
    }
}

pub open spec fn err_storage(r: Result<RespValue, AikvError>, m: Seq<char>) -> bool {
    match r {
        Err(AikvError::Storage(s)) => s@ == m,
        _ => false,
    }
}

/// Execute one allow-listed command against the storage facade.
pub fn script_command(storage: &mut StorageAdapter, db: usize, args: &Vec<Vec<u8>>) -> (r: Result<
    RespValue,
    AikvError,
>)
    requires
        old(storage).wf(),
    ensures
        final(storage).wf(),
        final(storage).view().len() == old(storage).view().len(),
        script_command_post(old(storage).view(), db as int, views_of(args@),
            final(storage).view(), r),
{
    if args.len() == 0 {
        return Err(AikvError::InvalidCommand(String::from_str("No command specified")));
    }
    let cmd = ascii_upper(args[0].as_slice());
    let tail: &[Vec<u8>] = vstd::slice::slice_subrange(args.as_slice(), 1, args.len());
    proof {
        assert(tail@ =~= args@.skip(1));
        assert(views_of(args@).skip(1) =~= views_of(tail@));
        assert(views_of(args@)[0] == args@[0]@);
    }
    if bytes_eq(cmd.as_slice(), "GET".as_bytes()) {
        if tail.len() != 1 {
            return Err(AikvError::WrongArgCount(String::from_str("GET")));
        }
        if db >= storage.db_count() {
            return Err(AikvError::Storage(String::from_str("db index out of range")));
        }
        let key = lossy_string(tail[0].as_slice());
        match storage.get_from_db(db, key.as_str()) {
            Some(v) => Ok(RespValue::BulkString(Some(v))),
            None => Ok(RespValue::Null),
        }
    } else if bytes_eq(cmd.as_slice(), "SET".as_bytes()) {
        if tail.len() < 2 {
            return Err(AikvError::WrongArgCount(String::from_str("SET")));
        }
        if db >= storage.db_count() {
            return Err(AikvError::Storage(String::from_str("db index out of range")));
        }
        let key = lossy_string(tail[0].as_slice());
        let value = crate::storage::copy_bytes(&tail[1]);
        storage.set_in_db(db, key, value);
        Ok(RespValue::simple_string("OK"))
    } else if bytes_eq(cmd.as_slice(), "DEL".as_bytes()) {
        if tail.len() == 0 {
            return Err(AikvError::WrongArgCount(String::from_str("DEL")));
        }
        if db >= storage.db_count() {
            return Err(AikvError::Storage(String::from_str("db index out of range")));
        }
        let ghost m0 = storage.view()[db as int];
        let ghost keys = views_of(tail@);
        proof {
            assert(keys.skip(0) =~= keys);
            lemma_del_count_nonneg(m0, keys);
        }
        let mut count: i64 = 0;
        let mut i: usize = 0;
        while i < tail.len()
            invariant
                0 <= i <= keys.len(),
                keys == views_of(tail@),
                db < old(storage).view().len(),
                storage.wf(),
                storage.view().len() == old(storage).view().len(),
                forall|j: int| 0 <= j < old(storage).view().len() && j != db
                    ==> #[trigger] storage.view()[j] == old(storage).view()[j],
                spec_del_map(storage.view()[db as int], keys.skip(i as int)) == spec_del_map(
                    m0, keys),
                m0 == old(storage).view()[db as int],
                0 <= count <= i64::MAX,
                ({
                    let full = spec_del_count(m0, keys);
                    let rest = spec_del_count(storage.view()[db as int], keys.skip(i as int));
                    &&& (count + rest > i64::MAX ==> full == i64::MAX)
                    &&& (count + rest <= i64::MAX ==> full == count + rest)
                    &&& rest >= 0
                }),
            decreases keys.len() - i,
        {
            proof {
                assert(keys.skip(i as int)[0] == keys[i as int]);
                assert(keys[i as int] == tail@[i as int]@);
                assert(keys.skip(i as int).skip(1) =~= keys.skip(i + 1));
                lemma_del_count_nonneg(storage.view()[db as int].remove(decoded_text(
                    keys[i as int])), keys.skip(i + 1));
            }
            let key = lossy_string(tail[i].as_slice());
            let removed = storage.delete_from_db(db, key.as_str());
            if removed {
                if count < i64::MAX {
                    count = count + 1;
                }
            }
            i = i + 1;
        }
        proof {
            assert(keys.skip(i as int) =~= Seq::<Seq<u8>>::empty());
        }
        Ok(RespValue::Integer(count))
    } else if bytes_eq(cmd.as_slice(), "EXISTS".as_bytes()) {
        if tail.len() == 0 {
            return Err(AikvError::WrongArgCount(String::from_str("EXISTS")));
        }
        if db >= storage.db_count() {
            return Err(AikvError::Storage(String::from_str("db index out of range")));
        }
        let ghost m0 = storage.view()[db as int];
        let ghost keys = views_of(tail@);
        proof {
            assert(keys.skip(0) =~= keys);
            lemma_exists_count_nonneg(m0, keys);
        }
        let mut count: i64 = 0;
        let mut i: usize = 0;
        while i < tail.len()
            invariant
                0 <= i <= keys.len(),
                keys == views_of(tail@),
                db < storage.view().len(),
                storage.wf(),
                *storage == *old(storage),
                m0 == storage.view()[db as int],
                0 <= count <= i64::MAX,
                ({
                    let full = spec_exists_count(m0, keys);
                    let rest = spec_exists_count(m0, keys.skip(i as int));
                    &&& (count + rest > i64::MAX ==> full == i64::MAX)
                    &&& (count + rest <= i64::MAX ==> full == count + rest)
                    &&& rest >= 0
                }),
            decreases keys.len() - i,
        {
            proof {
                assert(keys.skip(i as int)[0] == keys[i as int]);
                assert(keys[i as int] == tail@[i as int]@);
                assert(keys.skip(i as int).skip(1) =~= keys.skip(i + 1));
                lemma_exists_count_nonneg(m0, keys.skip(i + 1));
            }
            let key = lossy_string(tail[i].as_slice());
            let present = storage.exists_in_db(db, key.as_str());
            if present {
                if count < i64::MAX {
                    count = count + 1;
                }
            }
            i = i + 1;
        }
        proof {
            assert(keys.skip(i as int) =~= Seq::<Seq<u8>>::empty());
        }
        Ok(RespValue::Integer(count))
    } else {
        let mut m = String::from_str("Command not supported in scripts: ");
        m.append(lossy_string(cmd.as_slice()).as_str());
        Err(AikvError::InvalidCommand(m))
    }
}

proof fn lemma_del_count_nonneg(m: Map<Seq<char>, Seq<u8>>, keys: Seq<Seq<u8>>)
    ensures
        0 <= spec_del_count(m, keys) <= i64::MAX,
    decreases keys.len(),
{
    if keys.len() > 0 {
        lemma_del_count_nonneg(m.remove(decoded_text(keys[0])), keys.skip(1));
    }
}

proof fn lemma_exists_count_nonneg(m: Map<Seq<char>, Seq<u8>>, keys: Seq<Seq<u8>>)
    ensures
        0 <= spec_exists_count(m, keys) <= i64::MAX,
    decreases keys.len(),
{
    if keys.len() > 0 {
        lemma_exists_count_nonneg(m, keys.skip(1));
    }
}

// ---------------------------------------------------------------------------
// The host bridge a running script calls back into.
// ---------------------------------------------------------------------------

/// The message handed back to a failed call.
pub open spec fn spec_bridge_err_text(e: AikvError) -> Seq<char> {
    match e {
        AikvError::InvalidCommand(m) => m@,
        _ => "Command execution error: "@ + spec_error_text(e),
    }
}

/// The marshalled argument texts, when every argument marshals.
pub open spec fn marshalled_of(vals: Seq<ScriptValue>) -> Seq<Seq<u8>> {
    Seq::new(vals.len(), |k: int| spec_marshal_arg(vals[k])->0)
}

/// The bridge contract: if any argument fails to marshal, the call is
/// refused with no state change; otherwise the marshalled command is
/// dispatched, the reply converted back, a failure reported as text.
pub open spec fn bridge_post(pre: Seq<Map<Seq<char>, Seq<u8>>>, db: int, vals: Seq<ScriptValue>,
    post: Seq<Map<Seq<char>, Seq<u8>>>, r: (bool, ScriptValue)) -> bool {
    if exists|k: int| 0 <= k < vals.len() && spec_marshal_arg(#[trigger] vals[k]) is None {
        &&& post == pre
        &&& !r.0
        &&& r.1 matches ScriptValue::Str(b) && b@ == vstd::utf8::encode_utf8(
            "Invalid argument type"@)
    } else {
        exists|cr: Result<RespValue, AikvError>|
            {
                &&& #[trigger] script_command_post(pre, db, marshalled_of(vals), post, cr)
                &&& match cr {
                    Ok(resp) => r.0 && resp_script_rel(resp, r.1),
                    Err(e) => !r.0 && (r.1 matches ScriptValue::Str(b) && b@
                        == vstd::utf8::encode_utf8(spec_bridge_err_text(e))),
                }
            }
    }
}

/// Serve one `redis.call`/`redis.pcall` request. The boolean reports
/// success; on failure the value carries the message text.
pub fn bridge_request(storage: &mut StorageAdapter, db: usize, vals: &Vec<ScriptValue>) -> (r: (
    bool,
    ScriptValue,
))
    requires
        old(storage).wf(),
    ensures
        final(storage).wf(),
        final(storage).view().len() == old(storage).view().len(),
        bridge_post(old(storage).view(), db as int, vals@, final(storage).view(), r),
{
    let mut args: Vec<Vec<u8>> = Vec::new();
    let mut i: usize = 0;
    while i < vals.len()
        invariant
            0 <= i <= vals@.len(),
            args@.len() == i,
            storage.wf(),
            *storage == *old(storage),
            forall|k: int| 0 <= k < i ==> spec_marshal_arg(#[trigger] vals@[k]) == Some(
                args@[k]@),
        decreases vals@.len() - i,
    {
        match marshal_arg(&vals[i]) {
            Some(b) => {
                args.push(b);
            },
            None => {
                proof {
                    assert(spec_marshal_arg(vals@[i as int]) is None);
                }
                return (
                    false,
                    ScriptValue::Str("Invalid argument type".as_bytes_vec()),
                );
            },
        }
        i = i + 1;
    }
    proof {
        assert(views_of(args@) =~= marshalled_of(vals@));
        if exists|k: int| 0 <= k < vals@.len() && spec_marshal_arg(#[trigger] vals@[k]) is None {
            let k = choose|k: int|
                0 <= k < vals@.len() && spec_marshal_arg(#[trigger] vals@[k]) is None;
            assert(spec_marshal_arg(vals@[k]) is Some);
        }
    }
    let cr = script_command(storage, db, &args);
    match cr {
        Ok(resp) => {
            let sv = resp_to_script(&resp);
            proof {
                assert(script_command_post(old(storage).view(), db as int, marshalled_of(vals@),
                    storage.view(), Ok::<RespValue, AikvError>(resp)));
            }
            (true, sv)
        },
        Err(e) => {
            let text: ScriptValue = match &e {
                AikvError::InvalidCommand(m) => ScriptValue::Str(m.as_str().as_bytes_vec()),
                _ => {
                    let mut t = String::from_str("Command execution error: ");
                    let frame = e.to_resp();
                    match frame {
                        RespValue::Error(msg) => {
                            t.append(msg.as_str());
                        },
                        _ => {},
                    }
                    proof {
                        assert(t@ =~= "Command execution error: "@ + spec_error_text(e));
                    }
                    ScriptValue::Str(t.as_str().as_bytes_vec())
                },
            };
            proof {
                assert(script_command_post(old(storage).view(), db as int, marshalled_of(vals@),
                    storage.view(), Err::<RespValue, AikvError>(e)));
            }
            (false, text)
        },
    }
}

// ---------------------------------------------------------------------------
// The content-addressed script cache and the script commands.
// ---------------------------------------------------------------------------

/// The twenty-byte SHA-1 digest of a byte string: a function of the
/// input alone, identical on every machine.
pub uninterp spec fn sha1_of(b: Seq<u8>) -> Seq<u8>;

/// Relies on the sha1 crate's `Sha1` through the `Digest` trait
/// (`new`, `update`, `finalize`): the SHA-1 digest, twenty bytes,
/// depending on the input bytes alone.
#[verifier::external_body]
fn sha1_digest(b: &[u8]) -> (r: Vec<u8>)
    ensures
        r@ == sha1_of(b@),
        r@.len() == 20,
{
    let mut h = <sha1::Sha1 as sha1::Digest>::new();
    sha1::Digest::update(&mut h, b);
    sha1::Digest::finalize(h).as_slice().to_vec()
}

/// The lowercase-hex SHA-1 of a script's text.
pub open spec fn spec_sha1_hex(s: Seq<char>) -> Seq<char> {
    crate::text::spec_hex_bytes(sha1_of(vstd::utf8::encode_utf8(s)))
}

/// The script command handler: the storage facade and the cache of
/// loaded scripts, indexed by their lowercase-hex SHA-1.
pub struct ScriptCommands {
    pub storage: StorageAdapter,
    pub script_cache: StrMap<String>,
}

impl ScriptCommands {
    /// Handler invariant.
    pub open spec fn wf(self) -> bool {
        &&& self.storage.wf()
        &&& self.script_cache.wf()
    }

    /// The cache, as a map from hex digest to source text.
    pub open spec fn cache(self) -> Map<Seq<char>, Seq<char>> {
        self.script_cache.as_map()
    }

    /// A handler over the given storage, with an empty cache.
    pub fn new(storage: StorageAdapter) -> (r: ScriptCommands)
        requires
            storage.wf(),
        ensures
            r.wf(),
            r.cache() =~= Map::<Seq<char>, Seq<char>>::empty(),
            r.storage == storage,
    {
        ScriptCommands { storage, script_cache: StrMap::new() }
    }

    /// The lowercase hexadecimal SHA-1 of a script.
    pub fn calculate_sha1(script: &str) -> (r: String)
        ensures
            r@ == spec_sha1_hex(script@),
    {
        let bytes = script.as_bytes_vec();
        let digest = sha1_digest(bytes.as_slice());
        crate::text::bytes_to_hex(digest.as_slice())
    }

    /// SCRIPT LOAD: store a script under its digest, returning the
    /// digest text; loading the same text twice is a no-op.
    pub fn script_load(&mut self, args: &[Vec<u8>]) -> (r: Result<RespValue, AikvError>)
        requires
            old(self).wf(),
        ensures
            final(self).wf(),
            final(self).storage == old(self).storage,
            script_load_post(*old(self), args@, *final(self), r),
    {
        if args.len() != 1 {
            return Err(AikvError::WrongArgCount(String::from_str("SCRIPT LOAD")));
        }
        let script = lossy_string(args[0].as_slice());
        let sha = Self::calculate_sha1(script.as_str());
        let sha_copy = sha.clone();
        self.script_cache.insert(sha, script);
        Ok(RespValue::bulk_text(sha_copy))
    }

    /// SCRIPT EXISTS: one `1`/`0` per digest, in argument order.
    pub fn script_exists(&self, args: &[Vec<u8>]) -> (r: Result<RespValue, AikvError>)
        requires
            self.wf(),
        ensures
            script_exists_post(*self, args@, r),
    {
        if args.len() == 0 {
            return Err(AikvError::WrongArgCount(String::from_str("SCRIPT EXISTS")));
        }
        let mut items: Vec<RespValue> = Vec::new();
        let mut i: usize = 0;
        while i < args.len()
            invariant
                self.wf(),
                0 <= i <= args@.len(),
                items@.len() == i,
                forall|k: int| 0 <= k < i ==> #[trigger] items@[k] == RespValue::Integer(
                    if self.cache().contains_key(decoded_text(args@[k]@)) {
                        1i64
                    } else {
                        0i64
                    },
                ),
            decreases args@.len() - i,
        {
            let sha = lossy_string(args[i].as_slice());
            let present = self.script_cache.contains(sha.as_str());
            items.push(RespValue::Integer(if present { 1 } else { 0 }));
            i = i + 1;
        }
        Ok(RespValue::Array(Some(items)))
    }

    /// SCRIPT FLUSH: empty the cache.
    pub fn script_flush(&mut self, args: &[Vec<u8>]) -> (r: Result<RespValue, AikvError>)
        requires
            old(self).wf(),
        ensures
            final(self).wf(),
            final(self).storage == old(self).storage,
            final(self).cache() =~= Map::<Seq<char>, Seq<char>>::empty(),
            ok_simple(r, "OK"@),
    {
        self.script_cache.clear();
        Ok(RespValue::simple_string("OK"))
    }

    /// SCRIPT KILL: execution is cooperative, so no script is ever
    /// running concurrently; always NOTBUSY.
    pub fn script_kill(&self, args: &[Vec<u8>]) -> (r: Result<RespValue, AikvError>)
        ensures
            err_invalid(r, "NOTBUSY No scripts in execution right now."@),
    {
        Err(
            AikvError::InvalidArgument(
                String::from_str("NOTBUSY No scripts in execution right now."),
            ),
        )
    }

    /// EVAL: validate, cache the script under its digest, and run it.
    pub fn eval(&mut self, args: &[Vec<u8>], db_index: usize) -> (r: Result<RespValue, AikvError>)
        requires
            old(self).wf(),
        ensures
            final(self).wf(),
            final(self).storage.view().len() == old(self).storage.view().len(),
            eval_checks(*old(self), args@, "EVAL"@, *final(self), r),
            eval_args_admitted(args@) ==> final(self).cache() =~= old(self).cache().insert(
                spec_sha1_hex(decoded_text(args@[0]@)), decoded_text(args@[0]@)),
            eval_args_admitted(args@) ==> (match r {
                Err(e) => e is Script,
                Ok(_) => true,
            }),
    {
        if args.len() < 2 {
            return Err(AikvError::WrongArgCount(String::from_str("EVAL")));
        }
        let numkeys: usize = match crate::text::parse_usize_dec(args[1].as_slice()) {
            Some(n) => n,
            None => {
                return Err(
                    AikvError::InvalidArgument(String::from_str("numkeys must be a number")),
                );
            },
        };
        if args.len() - 2 < numkeys {
            return Err(
                AikvError::InvalidArgument(
                    String::from_str("Number of keys doesn't match numkeys parameter"),
                ),
            );
        }
        let script = lossy_string(args[0].as_slice());
        let sha = Self::calculate_sha1(script.as_str());
        let source = script.clone();
        self.script_cache.insert(sha, script);
        let (keys, argv) = Self::split_frames(args, numkeys);
        self.execute_script(source.as_str(), &keys, &argv, db_index)
    }

    /// EVALSHA: like EVAL of the cached source; an unknown digest is a
    /// NOSCRIPT error.
    pub fn evalsha(&mut self, args: &[Vec<u8>], db_index: usize) -> (r: Result<
        RespValue,
        AikvError,
    >)
        requires
            old(self).wf(),
        ensures
            final(self).wf(),
            final(self).storage.view().len() == old(self).storage.view().len(),
            final(self).cache() == old(self).cache(),
            eval_checks(*old(self), args@, "EVALSHA"@, *final(self), r),
            (eval_args_admitted(args@) && !old(self).cache().contains_key(decoded_text(args@[0]@)))
                ==> err_invalid(r, "NOSCRIPT No matching script. Use EVAL."@) && final(
                self).storage == old(self).storage,
            (eval_args_admitted(args@) && old(self).cache().contains_key(decoded_text(args@[0]@)))
                ==> (match r {
                Err(e) => e is Script,
                Ok(_) => true,
            }),
    {
        if args.len() < 2 {
            return Err(AikvError::WrongArgCount(String::from_str("EVALSHA")));
        }
        let numkeys: usize = match crate::text::parse_usize_dec(args[1].as_slice()) {
            Some(n) => n,
            None => {
                return Err(
                    AikvError::InvalidArgument(String::from_str("numkeys must be a number")),
                );
            },
        };
        if args.len() - 2 < numkeys {
            return Err(
                AikvError::InvalidArgument(
                    String::from_str("Number of keys doesn't match numkeys parameter"),
                ),
            );
        }
        let sha = lossy_string(args[0].as_slice());
        let source: String = match self.script_cache.get(sha.as_str()) {
            Some(s) => s.clone(),
            None => {
                return Err(
                    AikvError::InvalidArgument(
                        String::from_str("NOSCRIPT No matching script. Use EVAL."),
                    ),
                );
            },
        };
        let (keys, argv) = Self::split_frames(args, numkeys);
        self.execute_script(source.as_str(), &keys, &argv, db_index)
    }

    /// Split the trailing frames into key frames and argument frames.
    fn split_frames(args: &[Vec<u8>], numkeys: usize) -> (r: (Vec<Vec<u8>>, Vec<Vec<u8>>))
        requires
            args@.len() >= 2,
            numkeys <= args@.len() - 2,
        ensures
            r.0@.len() == numkeys,
            r.1@.len() == args@.len() - 2 - numkeys,
            forall|k: int| 0 <= k < numkeys ==> (#[trigger] r.0@[k])@ == args@[k + 2]@,
            forall|k: int| 0 <= k < r.1@.len() ==> (#[trigger] r.1@[k])@ == args@[
                k + 2 + numkeys]@,
    {
        let n = args.len();
        let end: usize = 2 + numkeys;
        let mut keys: Vec<Vec<u8>> = Vec::new();
        let mut i: usize = 2;
        while i < end
            invariant
                2 <= i <= end,
                end == 2 + numkeys,
                end <= args@.len(),
                keys@.len() == i - 2,
                forall|k: int| 0 <= k < i - 2 ==> (#[trigger] keys@[k])@ == args@[k + 2]@,
            decreases end - i,
        {
            keys.push(crate::storage::copy_bytes(&args[i]));
            i = i + 1;
        }
        let mut argv: Vec<Vec<u8>> = Vec::new();
        let mut j: usize = end;
        while j < args.len()
            invariant
                end == 2 + numkeys,
                end <= j <= args@.len(),
                argv@.len() == j - 2 - numkeys,
                forall|k: int| 0 <= k < j - 2 - numkeys ==> (#[trigger] argv@[k])@ == args@[
                    k + 2 + numkeys]@,
            decreases args@.len() - j,
        {
            argv.push(crate::storage::copy_bytes(&args[j]));
            j = j + 1;
        }
        (keys, argv)
    }

    /// Run a script in a fresh sandboxed interpreter: `KEYS` and `ARGV`
    /// installed byte-exact, the host bridge serving `redis.call` and
    /// `redis.pcall`, the final value converted to a wire value.
    fn execute_script(&mut self, source: &str, keys: &Vec<Vec<u8>>, argv: &Vec<Vec<u8>>,
        db_index: usize) -> (r: Result<RespValue, AikvError>)
        requires
            old(self).wf(),
        ensures
            final(self).wf(),
            final(self).script_cache == old(self).script_cache,
            final(self).storage.view().len() == old(self).storage.view().len(),
            r matches Err(e) ==> e is Script,
    {
        let lua = match crate::luaglue::lua_new() {
            Some(l) => l,
            None => {
                return Err(AikvError::Script(String::from_str("Failed to create Lua instance")));
            },
        };
        let g = crate::luaglue::lua_globals(&lua);
        let kt = match crate::luaglue::lua_create_table(&lua) {
            Some(t) => t,
            None => {
                return Err(AikvError::Script(String::from_str("Failed to set KEYS")));
            },
        };
        let mut i: usize = 0;
        while i < keys.len()
            invariant
                0 <= i <= keys@.len(),
                self.wf(),
                self.script_cache == old(self).script_cache,
                self.storage.view().len() == old(self).storage.view().len(),
            decreases keys@.len() - i,
        {
            let s = match crate::luaglue::lua_create_string(&lua, keys[i].as_slice()) {
                Some(s) => s,
                None => {
                    return Err(AikvError::Script(String::from_str("Failed to set KEYS")));
                },
            };
            if i >= 0x7fffffffusize {
                return Err(AikvError::Script(String::from_str("Failed to set KEYS")));
            }
            if !crate::luaglue::table_set_index_string(&kt, (i + 1) as i64, s) {
                return Err(AikvError::Script(String::from_str("Failed to set KEYS")));
            }
            i = i + 1;
        }
        if !crate::luaglue::table_set_named(&g, "KEYS", kt) {
            return Err(AikvError::Script(String::from_str("Failed to set KEYS")));
        }
        let at = match crate::luaglue::lua_create_table(&lua) {
            Some(t) => t,
            None => {
                return Err(AikvError::Script(String::from_str("Failed to set ARGV")));
            },
        };
        let mut j: usize = 0;
        while j < argv.len()
            invariant
                0 <= j <= argv@.len(),
                self.wf(),
                self.script_cache == old(self).script_cache,
                self.storage.view().len() == old(self).storage.view().len(),
            decreases argv@.len() - j,
        {
            let s = match crate::luaglue::lua_create_string(&lua, argv[j].as_slice()) {
                Some(s) => s,
                None => {
                    return Err(AikvError::Script(String::from_str("Failed to set ARGV")));
                },
            };
            if j >= 0x7fffffffusize {
                return Err(AikvError::Script(String::from_str("Failed to set ARGV")));
            }
            if !crate::luaglue::table_set_index_string(&at, (j + 1) as i64, s) {
                return Err(AikvError::Script(String::from_str("Failed to set ARGV")));
            }
            j = j + 1;
        }
        if !crate::luaglue::table_set_named(&g, "ARGV", at) {
            return Err(AikvError::Script(String::from_str("Failed to set ARGV")));
        }
        if !crate::luaglue::lua_exec_chunk(&lua, bridge_prelude()) {
            return Err(AikvError::Script(String::from_str("Failed to set redis table")));
        }
        let user_fn = match crate::luaglue::lua_load_function(&lua, source) {
            Ok(f) => f,
            Err(msg) => {
                let mut m = String::from_str("Script execution error: ");
                m.append(msg.as_str());
                return Err(AikvError::Script(m));
            },
        };
        let runner = match crate::luaglue::table_get_function(&g, "__run") {
            Some(f) => f,
            None => {
                return Err(AikvError::Script(String::from_str("Failed to set redis table")));
            },
        };
        let th = match crate::luaglue::lua_create_thread(&lua, runner) {
            Some(t) => t,
            None => {
                return Err(AikvError::Script(String::from_str("Failed to create Lua instance")));
            },
        };
        let mut event = crate::luaglue::thread_resume_start(&th, user_fn);
        let mut budget: u64 = 100000000;
        while budget > 0
            invariant
                self.wf(),
                self.script_cache == old(self).script_cache,
                self.storage.view().len() == old(self).storage.view().len(),
            decreases budget,
        {
            budget = budget - 1;
            match event {
                crate::luaglue::RawEvent::Failed(msg) => {
                    let mut m = String::from_str("Script execution error: ");
                    m.append(msg.as_str());
                    return Err(AikvError::Script(m));
                },
                crate::luaglue::RawEvent::Completed(v) => {
                    let sv = crate::luaglue::value_to_script(&v, 64);
                    return Ok(script_to_resp(&sv));
                },
                crate::luaglue::RawEvent::Yielded(vals) => {
                    let mut svals: Vec<ScriptValue> = Vec::new();
                    let mut k: usize = 0;
                    while k < vals.len()
                        invariant
                            0 <= k <= vals@.len(),
                        decreases vals@.len() - k,
                    {
                        svals.push(crate::luaglue::value_to_script(&vals[k], 64));
                        k = k + 1;
                    }
                    let (ok, reply) = bridge_request(&mut self.storage, db_index, &svals);
                    let lv = match crate::luaglue::script_to_value(&lua, &reply) {
                        Some(lv) => lv,
                        None => crate::luaglue::value_nil(),
                    };
                    event = crate::luaglue::thread_resume_reply(&th, ok, lv);
                },
            }
        }
        Err(AikvError::Script(String::from_str("Script execution error: too many host calls")))
    }
}

/// The fixed chunk installed before every script: `redis.call` and
/// `redis.pcall` yield their arguments to the host and either return
/// its reply, raise its message, or swallow it; numbers are normalised
/// (an integral value becomes an integer, any other number its text);
/// the coroutine module is hidden from scripts afterwards.
fn bridge_prelude() -> (r: &'static str)
{
    "\
local co_yield = coroutine.yield\n\
coroutine = nil\n\
local function norm(v)\n\
  local t = type(v)\n\
  if t == 'number' then\n\
    if math.type(v) == 'integer' then return v end\n\
    if v % 1 == 0 then\n\
      local i = math.tointeger(v)\n\
      if i ~= nil then return i end\n\
    end\n\
    return tostring(v)\n\
  elseif t == 'table' then\n\
    local out = {}\n\
    local i = 1\n\
    while rawget(v, i) ~= nil do\n\
      out[i] = norm(rawget(v, i))\n\
      i = i + 1\n\
    end\n\
    return out\n\
  end\n\
  return v\n\
end\n\
redis = {}\n\
function redis.call(...)\n\
  local a = table.pack(...)\n\
  for i = 1, a.n do a[i] = norm(a[i]) end\n\
  local ok, res = co_yield(table.unpack(a, 1, a.n))\n\
  if ok then return res end\n\
  error(res, 0)\n\
end\n\
function redis.pcall(...)\n\
  local a = table.pack(...)\n\
  for i = 1, a.n do a[i] = norm(a[i]) end\n\
  local ok, res = co_yield(table.unpack(a, 1, a.n))\n\
  if ok then return res end\n\
  return nil\n\
end\n\
function __run(f)\n\
  return norm(f())\n\
end\n"
}

/// Whether EVAL/EVALSHA's frame-shape checks admit the arguments.
pub open spec fn eval_args_admitted(args: Seq<Vec<u8>>) -> bool {
    &&& args.len() >= 2
    &&& crate::text::dec_token_ok(args[1]@)
    &&& crate::text::dec_bytes_val(crate::text::dec_body(args[1]@)) <= usize::MAX
    &&& args.len() - 2 >= crate::text::dec_bytes_val(crate::text::dec_body(args[1]@))
}

/// The shared argument validation of EVAL and EVALSHA.
pub open spec fn eval_checks(pre: ScriptCommands, args: Seq<Vec<u8>>, name: Seq<char>,
    post: ScriptCommands, r: Result<RespValue, AikvError>) -> bool {
    if args.len() < 2 {
        post == pre && err_arity(r, name)
    } else if !(crate::text::dec_token_ok(args[1]@) && crate::text::dec_bytes_val(
        crate::text::dec_body(args[1]@)) <= usize::MAX) {
        post == pre && err_invalid(r, "numkeys must be a number"@)
    } else if args.len() - 2 < crate::text::dec_bytes_val(crate::text::dec_body(args[1]@)) {
        post == pre && err_invalid(r, "Number of keys doesn't match numkeys parameter"@)
    } else {
        true
    }
}

/// The SCRIPT LOAD contract: content-addressed insertion.
pub open spec fn script_load_post(pre: ScriptCommands, args: Seq<Vec<u8>>, post: ScriptCommands,
    r: Result<RespValue, AikvError>) -> bool {
    if args.len() != 1 {
        post == pre && err_arity(r, "SCRIPT LOAD"@)
    } else {
        let src_text = decoded_text(args[0]@);
        let sha = spec_sha1_hex(src_text);
        &&& post.cache() =~= pre.cache().insert(sha, src_text)
        &&& match r {
            Ok(RespValue::BulkString(Some(b))) => b@ == vstd::utf8::encode_utf8(sha),
            _ => false,
        }
    }
}

/// The SCRIPT EXISTS contract: one integer per digest, in order.
pub open spec fn script_exists_post(pre: ScriptCommands, args: Seq<Vec<u8>>, r: Result<
    RespValue,
    AikvError,
>) -> bool {
    if args.len() == 0 {
        err_arity(r, "SCRIPT EXISTS"@)
    } else {
        match r {
            Ok(RespValue::Array(Some(items))) => items@.len() == args.len() && (forall|k: int|
                0 <= k < args.len() ==> #[trigger] items@[k] == RespValue::Integer(
                    if pre.cache().contains_key(decoded_text(args[k]@)) {
                        1i64
                    } else {
                        0i64
                    },
                )),
            _ => false,
        }
    }
}

// ---------------------------------------------------------------------------
// Laws of the script cache.
// ---------------------------------------------------------------------------

/// Every hex rendering is ASCII text.
proof fn lemma_hex_bytes_ascii(s: Seq<u8>)
    ensures
        vstd::utf8::is_ascii_chars(crate::text::spec_hex_bytes(s)),
    decreases s.len(),
{
    let h = crate::text::spec_hex_bytes(s);
    if s.len() == 0 {
        assert(forall|i: int| 0 <= i < h.len() ==> '\0' <= #[trigger] h[i] <= '\u{7f}');
    } else {
        lemma_hex_bytes_ascii(s.drop_last());
        let hp = crate::text::spec_hex_bytes(s.drop_last());
        assert(forall|i: int| 0 <= i < h.len() ==> '\0' <= #[trigger] h[i] <= '\u{7f}') by {
            assert(forall|i: int| 0 <= i < hp.len() ==> #[trigger] h[i] == hp[i]);
            assert('\0' <= crate::text::hex_char((s.last() / 16) as nat) <= '\u{7f}');
            assert('\0' <= crate::text::hex_char((s.last() % 16) as nat) <= '\u{7f}');
            assert(h[h.len() - 2] == crate::text::hex_char((s.last() / 16) as nat));
            assert(h[h.len() - 1] == crate::text::hex_char((s.last() % 16) as nat));
        }
    }
}

/// ASCII text is unchanged by encoding to bytes and decoding again.
pub proof fn lemma_ascii_text_roundtrip(s: Seq<char>)
    requires
        vstd::utf8::is_ascii_chars(s),
    ensures
        decoded_text(vstd::utf8::encode_utf8(s)) == s,
{
    vstd::utf8::is_ascii_chars_encode_utf8(s);
    let b = vstd::utf8::encode_utf8(s);
    assert(crate::text::all_ascii_bytes(b)) by {
        assert(forall|i: int| 0 <= i < s.len() ==> #[trigger] b[i] == s[i] as u8 && s[i]
            <= '\u{7f}');
    }
    assert(crate::text::ascii_chars_of(b) =~= s) by {
        assert(forall|i: int| 0 <= i < s.len() ==> #[trigger] b[i] == s[i] as u8 && s[i]
            <= '\u{7f}');
    }
}

/// Loading a script makes its digest exist: after SCRIPT LOAD of a
/// source, SCRIPT EXISTS on the returned digest text reports one.
pub proof fn lemma_load_then_exists(c0: ScriptCommands, load_args: Seq<Vec<u8>>,
    c1: ScriptCommands, r1: Result<RespValue, AikvError>, exists_args: Seq<Vec<u8>>, r2: Result<
        RespValue,
        AikvError,
    >)
    requires
        load_args.len() == 1,
        script_load_post(c0, load_args, c1, r1),
        exists_args.len() == 1,
        exists_args[0]@ == vstd::utf8::encode_utf8(spec_sha1_hex(decoded_text(load_args[0]@))),
        script_exists_post(c1, exists_args, r2),
    ensures
        match r2 {
            Ok(RespValue::Array(Some(items))) => items@.len() == 1 && items@[0]
                == RespValue::Integer(1),
            _ => false,
        },
{
    let src_text = decoded_text(load_args[0]@);
    let sha = spec_sha1_hex(src_text);
    lemma_hex_bytes_ascii(sha1_of(vstd::utf8::encode_utf8(src_text)));
    lemma_ascii_text_roundtrip(sha);
    assert(decoded_text(exists_args[0]@) == sha);
    assert(c1.cache().contains_key(sha));
}

/// Flushing empties the cache: SCRIPT EXISTS afterwards reports zero
/// for every digest.
pub proof fn lemma_flush_then_exists_reports_zero(c: ScriptCommands, exists_args: Seq<Vec<u8>>,
    r2: Result<RespValue, AikvError>)
    requires
        c.cache() =~= Map::<Seq<char>, Seq<char>>::empty(),
        exists_args.len() == 1,
        script_exists_post(c, exists_args, r2),
    ensures
        match r2 {
            Ok(RespValue::Array(Some(items))) => items@.len() == 1 && items@[0]
                == RespValue::Integer(0),
            _ => false,
        },
{
}

/// EVALSHA of a digest runs exactly the text that the cache holds under
/// it; with a load contract, that is the loaded source.
pub proof fn lemma_evalsha_uses_loaded_source(c0: ScriptCommands, load_args: Seq<Vec<u8>>,
    c1: ScriptCommands, r1: Result<RespValue, AikvError>)
    requires
        load_args.len() == 1,
        script_load_post(c0, load_args, c1, r1),
    ensures
        c1.cache()[spec_sha1_hex(decoded_text(load_args[0]@))] == decoded_text(load_args[0]@),
{
}

} // verus!
