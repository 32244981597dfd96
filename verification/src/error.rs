//! The error taxonomy, and its deterministic mapping to wire error frames.

use vstd::prelude::*;
use crate::resp::RespValue;

verus! {

/// The error kinds a command can produce.
#[derive(Debug, Clone, PartialEq)]
pub enum AikvError {
    /// Arity violation; carries the command name.
    WrongArgCount(String),
    /// Unknown command or subcommand; carries a detail message.
    InvalidCommand(String),
    /// Parse, range or semantic validation failure.
    InvalidArgument(String),
    /// Interpreter setup or execution failure.
    Script(String),
    /// Backing-store failure.
    Storage(String),
    /// Cluster-state precondition failure.
    Cluster(String),
}

/// Whether `s` begins with the prefix `p`.
pub open spec fn starts_with(s: Seq<char>, p: Seq<char>) -> bool {
    s.len() >= p.len() && s.subrange(0, p.len() as int) == p
}

/// Details that already carry their own wire token keep it; everything
/// else is prefixed with the generic `ERR` token.
pub open spec fn spec_detail_text(d: Seq<char>) -> Seq<char> {
    if starts_with(d, "NOSCRIPT "@) || starts_with(d, "NOTBUSY "@) || starts_with(d, "MOVED "@)
        || starts_with(d, "ASK "@) {
        d
    } else {
        "ERR "@ + d
    }
}

/// The error-frame payload for each error kind.
pub open spec fn spec_error_text(e: AikvError) -> Seq<char> {
    match e {
        AikvError::WrongArgCount(c) => "ERR wrong number of arguments for '"@ + c@
            + "' command"@,
        AikvError::InvalidCommand(d) => "ERR "@ + d@,
        AikvError::InvalidArgument(d) => spec_detail_text(d@),
        AikvError::Script(d) => "ERR "@ + d@,
        AikvError::Storage(d) => "ERR "@ + d@,
        AikvError::Cluster(d) => "CLUSTERDOWN "@ + d@,
    }
}

/// Whether the text of `s` begins with the literal `p`.
fn str_starts_with(s: &str, p: &str) -> (r: bool)
    ensures
        r == starts_with(s@, p@),
{
    let n = s.unicode_len();
    let m = p.unicode_len();
    if n < m {
        assert(!starts_with(s@, p@));
        return false;
    }
    let mut i: usize = 0;
    while i < m
        invariant
            0 <= i <= m,
            m == p@.len(),
            n == s@.len(),
            m <= n,
            forall|j: int| 0 <= j < i ==> s@[j] == p@[j],
        decreases m - i,
    {
        if s.get_char(i) != p.get_char(i) {
            assert(s@.subrange(0, m as int)[i as int] != p@[i as int]);
            return false;
        }
        i = i + 1;
    }
    assert(s@.subrange(0, m as int) =~= p@);
    true
}

impl AikvError {
    /// The wire error frame for this error.
    pub fn to_resp(&self) -> (r: RespValue)
        ensures
            r matches RespValue::Error(t) && t@ == spec_error_text(*self),
    {
        match self {
            AikvError::WrongArgCount(c) => {
                let mut t = String::from_str("ERR wrong number of arguments for '");
                t.append(c.as_str());
                t.append("' command");
                RespValue::Error(t)
            },
            AikvError::InvalidCommand(d) => {
                let mut t = String::from_str("ERR ");
                t.append(d.as_str());
                RespValue::Error(t)
            },
            AikvError::InvalidArgument(d) => {
                let keep = str_starts_with(d.as_str(), "NOSCRIPT ")
                    || str_starts_with(d.as_str(), "NOTBUSY ")
                    || str_starts_with(d.as_str(), "MOVED ")
                    || str_starts_with(d.as_str(), "ASK ");
                if keep {
                    RespValue::Error(d.clone())
                } else {
                    let mut t = String::from_str("ERR ");
                    t.append(d.as_str());
                    RespValue::Error(t)
                }
            },
            AikvError::Script(d) => {
                let mut t = String::from_str("ERR ");
                t.append(d.as_str());
                RespValue::Error(t)
            },
            AikvError::Storage(d) => {
                let mut t = String::from_str("ERR ");
                t.append(d.as_str());
                RespValue::Error(t)
            },
            AikvError::Cluster(d) => {
                let mut t = String::from_str("CLUSTERDOWN ");
                t.append(d.as_str());
                RespValue::Error(t)
            },
        }
    }
}

} // verus!
