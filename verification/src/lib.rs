//! Control-plane primitives for Linux network namespaces, virtual links and
//! WireGuard tunnels.
//!
//! The kernel's network state is only reachable through external tools, so
//! this crate is split along that boundary: it builds the exact argument
//! vectors those tools take, classifies their exit status, and decodes their
//! output into typed records, all with verified contracts.  Spawning the
//! tools themselves (process and file I/O) is left to the embedding
//! application.

pub mod cidr;
pub mod cmd;
pub mod dump;
pub mod endpoint;
pub mod errors;
pub mod keys;
pub mod records;
pub mod text;
