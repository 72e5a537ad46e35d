//! A bulletin store: clients post named, tagged binary values, every post
//! is kept as a new revision, and cold data can be moved into append-only
//! archives that are later loaded again or restored.
//!
//! `board` holds the index, the tiering between memory and spool files and
//! the accounting; `bulletin` one revision's backend; `codec` the archive
//! metadata format; `server` what a session does for each operation;
//! `protocol` and `client` the wire vocabulary; `laws` how the operations
//! relate. Everything that touches the disk or the network is described by
//! the values these functions return and left to the caller.
pub mod board;
pub mod bulletin;
pub mod client;
pub mod codec;
pub mod dispatch;
pub mod error;
pub mod laws;
pub mod logging;
pub mod options;
pub mod protocol;
pub mod server;
pub mod text;
