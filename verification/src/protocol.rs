//! The commands of the wire protocol.

use vstd::prelude::*;

verus! {

/// The kinds of command that the server understands.
#[derive(Clone, Copy, Debug, PartialEq, Eq, Structural)]
pub enum CommandType {
    Ping,
    SetValue,
    Get,
    Del,
    Keys,
    ClusterJoin,
}

} // verus!
