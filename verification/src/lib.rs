//! Relay core for a device that emits a continuous, unframed stream of JSON
//! objects over a single TCP connection.
//!
//! The library holds the logic of that relay: an incremental frame extractor
//! that turns an accumulating byte buffer into discrete JSON messages while
//! recovering from padding and malformed bytes, a broadcast bus that fans the
//! messages out to any number of subscribers with a drop-on-lag policy, a
//! supervisor that keeps at most one device link active, and the decision
//! rules of the per-subscriber relay sessions and of the named command
//! palettes. The surrounding process (sockets, HTTP, files) performs I/O and
//! calls into these functions with plain values.

pub mod assets;
pub mod bus;
pub mod extractor;
pub mod link;
pub mod palette;
pub mod session;
pub mod state;
pub mod types;
