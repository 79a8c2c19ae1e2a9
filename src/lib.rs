//! Sharing one child process's standard input and output among many
//! connected peers: the framing of data units, the registry of live
//! connections, and the decisions each connection and output relay takes.

pub mod framing;
pub mod lines;
pub mod registry;
pub mod session;
