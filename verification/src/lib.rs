//! A minimal round-based agreement node.
//!
//! The library holds the verified core of the node: the round state machine
//! with its vote bookkeeping, the peer registry, the wire codec for the five
//! peer-to-peer message kinds, and the dispatcher that routes inbound
//! messages to the state machine.  Networking, timers and logging live
//! outside the library and talk to it through plain values.

pub mod codec;
pub mod message;
pub mod node;
pub mod peer;
pub mod state;
pub mod strmap;
pub mod types;
pub mod validator;
