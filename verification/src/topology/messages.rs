//! What a topology error says, and what caused it.

use vstd::prelude::*;
use crate::error::{os_error_text, starts_with};
use crate::text::{decimal, decimal_string};
use super::TopologyError;

verus! {

broadcast use super::group_id_equality;

/// The underlying cause of a [`TopologyError`].
#[derive(Debug)]
pub enum TopologyCause<'a> {
    /// The operating system's error.
    Io(&'a std::io::Error),
    /// The integer parser's error.
    Parse(&'a std::num::ParseIntError),
}

/// The `Debug` text of a string: quoted, with special characters escaped.
pub uninterp spec fn debug_quoted(s: Seq<char>) -> Seq<char>;

/// The `Debug` text of `s` (`format!("{s:?}")`): a function of the string
/// alone, named [`debug_quoted`]; its escaping rules are not restated.
#[verifier::external_body]
fn quoted_text(s: &str) -> (r: String)
    ensures
        r@ == debug_quoted(s@),
{
    format!("{s:?}")
}

/// The message of a malformed identifier list, given the list's quoted
/// text and the broken rule.
pub fn list_error_message(quoted: &str, reason: &str) -> (r: String)
    ensures
        r@ == "invalid operating-system identifier list "@ + quoted@ + ": "@ + reason@,
{
    let mut r = String::from_str("invalid operating-system identifier list ");
    r.append(quoted);
    r.append(": ");
    r.append(reason);
    proof {
        assert(r@ =~= "invalid operating-system identifier list "@ + quoted@ + ": "@ + reason@);
    }
    r
}

/// The message of the malformed identifier list `input`, which broke
/// rule `reason`: the list appears quoted, as its `Debug` text.
pub fn quoted_list_message(input: &str, reason: &str) -> (r: String)
    ensures
        r@ == "invalid operating-system identifier list "@ + debug_quoted(input@) + ": "@ + reason@,
{
    let q = quoted_text(input);
    list_error_message(q.as_str(), reason)
}

/// The text of an integer-parsing error, as its `Display` writes it.
/// Nothing is claimed of the text.
#[verifier::external_body]
fn parse_error_text(e: &std::num::ParseIntError) -> String {
    format!("{e}")
}

/// The message of a topology error that holds no outside value.
pub open spec fn topology_message(e: TopologyError) -> Seq<char> {
    match e {
        TopologyError::UnsupportedPlatform => "hardware topology discovery is unsupported on this platform"@,
        TopologyError::CpuInMultipleNumaNodes { cpu, first, second } => "online CPU "@ + decimal(cpu@ as nat)
            + " belongs to both NUMA node "@ + decimal(first@ as nat) + " and NUMA node "@ + decimal(second@ as nat),
        TopologyError::CpuWithoutNumaNode { cpu } => "online CPU "@ + decimal(cpu@ as nat)
            + " does not belong to any NUMA node"@,
        TopologyError::InvalidIdList { .. } => "invalid operating-system identifier list "@,
        TopologyError::Io { path, .. } => "cannot read topology file "@ + path@ + ": "@,
        TopologyError::InvalidInteger { path, .. } => "invalid integer in topology file "@ + path@ + ": "@,
    }
}

/// The message of a topology error whose outside cause (the read error or
/// the parse error, for the variants that have one) reads `cause`.
pub open spec fn topology_message_with(e: TopologyError, cause: Seq<char>) -> Seq<char> {
    match e {
        TopologyError::InvalidIdList { input, reason } => topology_message(e) + debug_quoted(input@) + ": "@ + reason@,
        TopologyError::Io { .. } | TopologyError::InvalidInteger { .. } => topology_message(e) + cause,
        _ => topology_message(e),
    }
}

/// The message of topology file `path` that could not be read, whose
/// error reads `cause`.
pub fn io_error_message(path: &str, cause: &str) -> (r: String)
    ensures
        r@ == "cannot read topology file "@ + path@ + ": "@ + cause@,
{
    let mut r = String::from_str("cannot read topology file ");
    r.append(path);
    r.append(": ");
    r.append(cause);
    proof {
        assert(r@ =~= "cannot read topology file "@ + path@ + ": "@ + cause@);
    }
    r
}

/// The message of topology file `path` that held no valid integer, whose
/// parse error reads `cause`.
pub fn integer_error_message(path: &str, cause: &str) -> (r: String)
    ensures
        r@ == "invalid integer in topology file "@ + path@ + ": "@ + cause@,
{
    let mut r = String::from_str("invalid integer in topology file ");
    r.append(path);
    r.append(": ");
    r.append(cause);
    proof {
        assert(r@ =~= "invalid integer in topology file "@ + path@ + ": "@ + cause@);
    }
    r
}

impl TopologyError {
    /// The message, given the text of the outside cause: for a file that
    /// could not be read or parsed, the fixed words, the path, then
    /// `cause`; otherwise the fixed text (with the quoted list and its rule
    /// for a malformed list), and `cause` is not used.
    pub fn message_with_cause(&self, cause: &str) -> (r: String)
        ensures
            r@ == topology_message_with(*self, cause@),
    {
        match self {
            TopologyError::UnsupportedPlatform => String::from_str("hardware topology discovery is unsupported on this platform"),
            TopologyError::InvalidIdList { input, reason } => quoted_list_message(input.as_str(), reason),
            TopologyError::Io { path, .. } => io_error_message(path.as_str(), cause),
            TopologyError::InvalidInteger { path, .. } => integer_error_message(path.as_str(), cause),
            TopologyError::CpuInMultipleNumaNodes { cpu, first, second } => {
                let mut r = String::from_str("online CPU ");
                r.append(decimal_string(cpu.get()).as_str());
                r.append(" belongs to both NUMA node ");
                r.append(decimal_string(first.get()).as_str());
                r.append(" and NUMA node ");
                r.append(decimal_string(second.get()).as_str());
                r
            },
            TopologyError::CpuWithoutNumaNode { cpu } => {
                let mut r = String::from_str("online CPU ");
                r.append(decimal_string(cpu.get()).as_str());
                r.append(" does not belong to any NUMA node");
                r
            },
        }
    }

    /// The message: the fixed text of each failure, with the quoted list
    /// (its `Debug` text) and its rule for a malformed list, and the
    /// cause's text after the path for a file that could not be read or
    /// parsed (see [`Self::message_with_cause`]).
    pub fn message(&self) -> (r: String)
        ensures
            match *self {
                TopologyError::Io { .. } | TopologyError::InvalidInteger { .. } => starts_with(r@, topology_message(*self)),
                _ => r@ == topology_message_with(*self, Seq::empty()),
            },
            exists|cause: Seq<char>| r@ == #[trigger] topology_message_with(*self, cause),
    {
        let t = match self {
            TopologyError::Io { error, .. } => os_error_text(error),
            TopologyError::InvalidInteger { value, .. } => parse_error_text(value),
            _ => String::new(),
        };
        let r = self.message_with_cause(t.as_str());
        proof {
            assert(r@ == topology_message_with(*self, t@));
            if *self is Io || *self is InvalidInteger {
                assert(r@.take(topology_message(*self).len() as int) =~= topology_message(*self));
            }
        }
        r
    }

    /// The underlying cause, if any.
    pub fn source(&self) -> (r: Option<TopologyCause<'_>>)
        ensures
            match *self {
                TopologyError::Io { error, .. } => r == Some(TopologyCause::Io(&error)),
                TopologyError::InvalidInteger { value, .. } => r == Some(TopologyCause::Parse(&value)),
                _ => r is None,
            },
    {
        match self {
            TopologyError::Io { error, .. } => Some(TopologyCause::Io(error)),
            TopologyError::InvalidInteger { value, .. } => Some(TopologyCause::Parse(value)),
            _ => None,
        }
    }
}

} // verus!
