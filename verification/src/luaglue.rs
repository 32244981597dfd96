//! The trusted boundary to the embedded interpreter: type declarations
//! and one thin wrapper per interpreter operation, plus the verified
//! conversions between interpreter values and the plain value domain.
//!
//! The interpreter runs a script as a coroutine; `redis.call` and
//! `redis.pcall` are installed as functions that yield their arguments
//! to the host, which dispatches them and resumes with the reply. The
//! host therefore only ever sees plain resume/yield events.

use vstd::prelude::*;
use crate::script::ScriptValue;

verus! {

broadcast use vstd::std_specs::vec::axiom_vec_index_decreases;

#[verifier::external_type_specification]
#[verifier::external_body]
pub struct ExLua(mlua::Lua);

#[verifier::external_type_specification]
#[verifier::external_body]
pub struct ExTable(mlua::Table);

#[verifier::external_type_specification]
#[verifier::external_body]
pub struct ExValue(mlua::Value);

#[verifier::external_type_specification]
#[verifier::external_body]
pub struct ExFunction(mlua::Function);

#[verifier::external_type_specification]
#[verifier::external_body]
pub struct ExThread(mlua::Thread);

#[verifier::external_type_specification]
#[verifier::external_body]
pub struct ExLuaString(mlua::String);

/// What one resume of the script coroutine produced.
pub(crate) enum RawEvent {
    /// The script called into the host: the yielded values.
    Yielded(Vec<mlua::Value>),
    /// The script finished with this value.
    Completed(mlua::Value),
    /// The script raised an error; its rendered message.
    Failed(String),
}

/// Relies on `mlua::Lua::new_with`: a fresh interpreter with only the
/// table, string, math, UTF-8 and coroutine modules (no filesystem,
/// network, process or dynamic-load capability).
#[verifier::external_body]
pub(crate) fn lua_new() -> (r: Option<mlua::Lua>)
{
    mlua::Lua::new_with(
        mlua::StdLib::TABLE | mlua::StdLib::STRING | mlua::StdLib::MATH | mlua::StdLib::UTF8
            | mlua::StdLib::COROUTINE,
        mlua::LuaOptions::default(),
    ).ok()
}

/// Relies on `mlua::Lua::globals`: the globals table.
#[verifier::external_body]
pub(crate) fn lua_globals(lua: &mlua::Lua) -> (r: mlua::Table)
{
    lua.globals()
}

/// Relies on `mlua::Lua::create_table`: a fresh empty table.
#[verifier::external_body]
pub(crate) fn lua_create_table(lua: &mlua::Lua) -> (r: Option<mlua::Table>)
{
    lua.create_table().ok()
}

/// Relies on `mlua::Lua::create_string`: an interpreter string holding
/// exactly the given bytes.
#[verifier::external_body]
pub(crate) fn lua_create_string(lua: &mlua::Lua, b: &[u8]) -> (r: Option<mlua::String>)
{
    lua.create_string(b).ok()
}

/// Relies on `mlua::Table::set` with an integer key.
#[verifier::external_body]
pub(crate) fn table_set_index_string(t: &mlua::Table, i: i64, s: mlua::String) -> (r: bool)
{
    t.set(i, s).is_ok()
}

/// Relies on `mlua::Table::set` with an integer key and any value.
#[verifier::external_body]
pub(crate) fn table_set_index_value(t: &mlua::Table, i: i64, v: mlua::Value) -> (r: bool)
{
    t.set(i, v).is_ok()
}

/// Relies on `mlua::Table::set` with a string key, to install a global.
#[verifier::external_body]
pub(crate) fn table_set_named(t: &mlua::Table, name: &str, v: mlua::Table) -> (r: bool)
{
    t.set(name, v).is_ok()
}

/// Relies on `mlua::Table::get`: a function stored under a global name.
#[verifier::external_body]
pub(crate) fn table_get_function(t: &mlua::Table, name: &str) -> (r: Option<mlua::Function>)
{
    t.get::<mlua::Function>(name).ok()
}

/// Relies on `mlua::Chunk::exec`: runs a host-supplied chunk.
#[verifier::external_body]
pub(crate) fn lua_exec_chunk(lua: &mlua::Lua, chunk: &str) -> (r: bool)
{
    lua.load(chunk).exec().is_ok()
}

/// Relies on `mlua::Chunk::into_function`: compiles source without
/// running it; a compile failure yields the rendered message.
#[verifier::external_body]
pub(crate) fn lua_load_function(lua: &mlua::Lua, src_text: &str) -> (r: Result<mlua::Function, String>)
{
    match lua.load(src_text).into_function() {
        Ok(f) => Ok(f),
        Err(e) => Err(e.to_string()),
    }
}

/// Relies on `mlua::Lua::create_thread`: a coroutine for a function.
#[verifier::external_body]
pub(crate) fn lua_create_thread(lua: &mlua::Lua, f: mlua::Function) -> (r: Option<mlua::Thread>)
{
    lua.create_thread(f).ok()
}

/// Relies on `mlua::Thread::resume` and `mlua::Thread::status`: starts
/// the coroutine, handing it the compiled script.
#[verifier::external_body]
pub(crate) fn thread_resume_start(t: &mlua::Thread, f: mlua::Function) -> (r: RawEvent)
{
    match t.resume::<mlua::MultiValue>(f) {
        Ok(mv) => {
            let vals: Vec<mlua::Value> = mv.into_iter().collect();
            if t.status() == mlua::prelude::LuaThreadStatus::Resumable {
                RawEvent::Yielded(vals)
            } else {
                RawEvent::Completed(vals.into_iter().next().unwrap_or(mlua::Value::Nil))
            }
        },
        Err(e) => RawEvent::Failed(e.to_string()),
    }
}

/// Relies on `mlua::Thread::resume` and `mlua::Thread::status`: resumes
/// the coroutine with the host's reply `(ok, value)`.
#[verifier::external_body]
pub(crate) fn thread_resume_reply(t: &mlua::Thread, ok: bool, v: mlua::Value) -> (r: RawEvent)
{
    match t.resume::<mlua::MultiValue>((ok, v)) {
        Ok(mv) => {
            let vals: Vec<mlua::Value> = mv.into_iter().collect();
            if t.status() == mlua::prelude::LuaThreadStatus::Resumable {
                RawEvent::Yielded(vals)
            } else {
                RawEvent::Completed(vals.into_iter().next().unwrap_or(mlua::Value::Nil))
            }
        },
        Err(e) => RawEvent::Failed(e.to_string()),
    }
}

/// Relies on `mlua::Value::Nil`.
#[verifier::external_body]
pub(crate) fn value_nil() -> (r: mlua::Value)
{
    mlua::Value::Nil
}

/// Relies on `mlua::Value::Boolean`.
#[verifier::external_body]
pub(crate) fn value_bool(b: bool) -> (r: mlua::Value)
{
    mlua::Value::Boolean(b)
}

/// Relies on `mlua::Value::Integer`.
#[verifier::external_body]
pub(crate) fn value_int(i: i64) -> (r: mlua::Value)
{
    mlua::Value::Integer(i)
}

/// Relies on `mlua::Value::String`.
#[verifier::external_body]
pub(crate) fn value_of_string(s: mlua::String) -> (r: mlua::Value)
{
    mlua::Value::String(s)
}

/// Relies on `mlua::Value::Table`.
#[verifier::external_body]
pub(crate) fn value_of_table(t: mlua::Table) -> (r: mlua::Value)
{
    mlua::Value::Table(t)
}

/// Relies on matching `mlua::Value::Nil`.
#[verifier::external_body]
pub(crate) fn value_is_nil(v: &mlua::Value) -> (r: bool)
{
    matches!(v, mlua::Value::Nil)
}

/// Relies on matching `mlua::Value::Boolean`.
#[verifier::external_body]
pub(crate) fn value_as_bool(v: &mlua::Value) -> (r: Option<bool>)
{
    match v {
        mlua::Value::Boolean(b) => Some(*b),
        _ => None,
    }
}

/// Relies on matching `mlua::Value::Integer`.
#[verifier::external_body]
pub(crate) fn value_as_int(v: &mlua::Value) -> (r: Option<i64>)
{
    match v {
        mlua::Value::Integer(i) => Some(*i),
        _ => None,
    }
}

/// Relies on matching `mlua::Value::String` and `mlua::String::as_bytes`:
/// the exact bytes of an interpreter string.
#[verifier::external_body]
pub(crate) fn value_string_bytes(v: &mlua::Value) -> (r: Option<Vec<u8>>)
{
    match v {
        mlua::Value::String(s) => Some(s.as_bytes().to_vec()),
        _ => None,
    }
}

/// Relies on matching `mlua::Value::Number` and the standard rendering
/// of a number; the bridge treats the result as opaque text.
#[verifier::external_body]
pub(crate) fn value_number_text(v: &mlua::Value) -> (r: Option<Vec<u8>>)
{
    match v {
        mlua::Value::Number(n) => Some(n.to_string().into_bytes()),
        _ => None,
    }
}

/// Relies on matching `mlua::Value::Table`; the handle is reference-like
/// and cloning it aliases the same table.
#[verifier::external_body]
pub(crate) fn value_as_table(v: &mlua::Value) -> (r: Option<mlua::Table>)
{
    match v {
        mlua::Value::Table(t) => Some(t.clone()),
        _ => None,
    }
}

/// Relies on `mlua::Table::raw_len`: the table's sequence border.
#[verifier::external_body]
pub(crate) fn table_raw_len(t: &mlua::Table) -> (r: usize)
{
    t.raw_len()
}

/// Relies on `mlua::Table::raw_get` with an integer key; a missing
/// entry or a failure reads as nil.
#[verifier::external_body]
pub(crate) fn table_raw_get(t: &mlua::Table, i: i64) -> (r: mlua::Value)
{
    t.raw_get::<mlua::Value>(i).unwrap_or(mlua::Value::Nil)
}

/// An interpreter value read into the plain value domain: scalars map
/// directly, sequences are walked up to their border (a nil entry or
/// exhausted depth ends the walk), anything else is opaque.
pub(crate) fn value_to_script(v: &mlua::Value, depth: u64) -> (r: ScriptValue)
    decreases depth,
{
    if value_is_nil(v) {
        return ScriptValue::Nil;
    }
    match value_as_bool(v) {
        Some(b) => {
            return ScriptValue::Bool(b);
        },
        None => {},
    }
    match value_as_int(v) {
        Some(i) => {
            return ScriptValue::Int(i);
        },
        None => {},
    }
    match value_string_bytes(v) {
        Some(b) => {
            return ScriptValue::Str(b);
        },
        None => {},
    }
    match value_number_text(v) {
        Some(t) => {
            return ScriptValue::NumText(t);
        },
        None => {},
    }
    match value_as_table(v) {
        Some(t) => {
            if depth == 0 {
                return ScriptValue::Other;
            }
            let n0 = table_raw_len(&t);
            let n: usize = if n0 < 0x7fffffffusize {
                n0
            } else {
                0x7fffffffusize
            };
            let mut elems: Vec<ScriptValue> = Vec::new();
            let mut i: usize = 0;
            while i < n
                invariant
                    0 <= i <= n,
                    n < 0x80000000usize,
                    depth >= 1,
                decreases n - i,
            {
                let ev = table_raw_get(&t, (i + 1) as i64);
                if value_is_nil(&ev) {
                    return ScriptValue::Table(elems);
                }
                elems.push(value_to_script(&ev, depth - 1));
                i = i + 1;
            }
            return ScriptValue::Table(elems);
        },
        None => {},
    }
    ScriptValue::Other
}

/// A plain value written back into the interpreter: the shapes the
/// reply conversion produces (nil, booleans, integers, byte strings and
/// sequences); anything unexpected becomes nil.
pub(crate) fn script_to_value(lua: &mlua::Lua, v: &ScriptValue) -> (r: Option<mlua::Value>)
    decreases *v,
{
    match v {
        ScriptValue::Nil => Some(value_nil()),
        ScriptValue::Bool(b) => Some(value_bool(*b)),
        ScriptValue::Int(i) => Some(value_int(*i)),
        ScriptValue::NumText(t) => {
            match lua_create_string(lua, t.as_slice()) {
                Some(s) => Some(value_of_string(s)),
                None => None,
            }
        },
        ScriptValue::Str(b) => {
            match lua_create_string(lua, b.as_slice()) {
                Some(s) => Some(value_of_string(s)),
                None => None,
            }
        },
        ScriptValue::Table(elems) => {
            let t = match lua_create_table(lua) {
                Some(t) => t,
                None => {
                    return None;
                },
            };
            proof {
                assert(decreases_to!(*v => v->Table_0));
            }
            let mut i: usize = 0;
            while i < elems.len()
                invariant
                    0 <= i <= elems@.len(),
                    *v == ScriptValue::Table(*elems),
                decreases elems@.len() - i,
            {
                proof {
                    assert(decreases_to!(*v => v->Table_0));
                    assert(v->Table_0 == *elems);
                    assert(decreases_to!(*elems => elems@));
                    assert(decreases_to!(elems@ => elems@[i as int]));
                }
                let ev = match script_to_value(lua, &elems[i]) {
                    Some(ev) => ev,
                    None => {
                        return None;
                    },
                };
                if !table_set_index_value(&t, (i + 1) as i64, ev) {
                    return None;
                }
                i = i + 1;
            }
            Some(value_of_table(t))
        },
        ScriptValue::Other => Some(value_nil()),
    }
}

} // verus!
