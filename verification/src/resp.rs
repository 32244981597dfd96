//! The tagged wire-value model: every command returns one of these.

use vstd::prelude::*;

verus! {

/// A decoded wire value. `BulkString(None)` and `Array(None)` are the
/// nil forms, distinct from the empty string and the empty array;
/// `Null` is the dedicated null reply.
#[derive(Debug, PartialEq)]
pub enum RespValue {
    SimpleString(String),
    Error(String),
    Integer(i64),
    BulkString(Option<Vec<u8>>),
    Array(Option<Vec<RespValue>>),
    Null,
}

impl RespValue {
    /// A simple-string reply.
    pub fn simple_string(s: &str) -> (r: RespValue)
        ensures
            r matches RespValue::SimpleString(t) && t@ == s@,
    {
        RespValue::SimpleString(String::from_str(s))
    }

    /// A bulk-string reply carrying the given bytes.
    pub fn bulk_string(b: Vec<u8>) -> (r: RespValue)
        ensures
            r matches RespValue::BulkString(Some(v)) && v@ == b@,
    {
        RespValue::BulkString(Some(b))
    }

    /// A bulk-string reply carrying the UTF-8 bytes of the given text.
    pub fn bulk_text(s: String) -> (r: RespValue)
        ensures
            r matches RespValue::BulkString(Some(v)) && v@ == vstd::utf8::encode_utf8(s@),
    {
        let bytes = s.as_str().as_bytes_vec();
        RespValue::BulkString(Some(bytes))
    }
}

} // verus!
