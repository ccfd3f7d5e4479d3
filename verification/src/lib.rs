//! A minimal game-network protocol server library: variable-length integer
//! and string codecs over byte buffers, length-prefixed packet framing,
//! the handshake/login/play protocol state machine, a roster of connected
//! players, and an in-memory block world.
//!
//! All I/O lives outside this crate; every function here works on plain
//! values and byte buffers, with verified contracts.

pub mod codec;
pub mod player;
pub mod protocol;
pub mod world;
