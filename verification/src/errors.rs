//! Typed failures.  Every operation either succeeds or returns exactly one
//! of these; nothing is retried or downgraded, and each error names the
//! operation and scope it came from so a caller can diagnose it directly.

use vstd::prelude::*;

verus! {

/// Which external operation was being performed.
#[derive(Clone, Copy, PartialEq, Eq, Structural, Debug)]
pub enum OpKind {
    NetnsAdd,
    NetnsDelete,
    NetnsList,
    AddrAdd,
    AddrList,
    BridgeAdd,
    InterfaceShow,
    InterfaceSetUp,
    InterfaceMtu,
    LinkGetMaster,
    LinkSetMaster,
    VethAdd,
    WireguardCreate,
    WireguardMove,
    WireguardSyncconf,
    WireguardStats,
    IptablesSave,
    IptablesRestore,
    NginxReload,
}

/// An operation together with its scope: the namespace it ran in, if any,
/// and the interface or namespace name it was aimed at, if any.
#[derive(Clone, Debug)]
pub struct OpContext {
    pub op: OpKind,
    pub netns: Option<String>,
    pub name: Option<String>,
}

/// Why decoding tool output failed: which record and which field.
#[derive(Clone, Copy, PartialEq, Eq, Structural, Debug)]
pub enum DecodeError {
    /// The tunnel dump held no interface line at all.
    MissingInterfaceLine,
    /// The dump's interface line did not have exactly four tab-separated
    /// fields.
    InterfaceFieldCount { count: usize },
    /// A dump peer line did not have exactly eight tab-separated fields;
    /// `line` counts peer lines from zero.
    PeerFieldCount { line: usize, count: usize },
    /// A field of the dump's interface line failed to parse.
    BadInterfaceField { field: usize },
    /// A field of a dump peer line failed to parse.
    BadPeerField { line: usize, field: usize },
    /// An address record carried a prefix length beyond its address
    /// family's bit width; `entry` counts flattened addresses from zero.
    PrefixLenOutOfRange { entry: usize },
    /// A query's output was not the JSON shape that query promises.
    JsonShape,
}

/// A failure of one control-plane call.
#[derive(Clone, Debug)]
pub enum NetError {
    /// The external tool could not be launched at all.
    Launch(OpContext),
    /// The tool ran and exited unsuccessfully.
    CommandFailed(OpContext),
    /// The tool's output did not decode.
    Decode(DecodeError),
    /// A query that must return exactly one record returned `count`.
    WrongRecordCount { op: OpKind, count: usize },
}

} // verus!
