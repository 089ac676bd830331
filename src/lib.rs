//! Transport core of a Kademlia-style DHT node: the wire codec for RPC
//! envelopes, the table of calls waiting for their reply, and the routing
//! decisions of the inbound dispatcher.
use vstd::prelude::*;

pub mod codec;
pub mod dispatch;
pub mod message;
pub mod pending;

pub use codec::{decode, encode, DecodeError, EncodeError};
pub use dispatch::{begin_call, make_token, route, CallError, Dropped, Route};
pub use message::{
    FindValueResult, Key, Message, Node, NodeAndDistance, ReqWrapper, Request, Response, RpcMessage,
};
pub use pending::PendingCalls;

verus! {

/// Largest encoded envelope, and the size of the receive buffer.
pub const BUF_SIZE: usize = 4096;

/// Milliseconds a call waits for its reply before it resolves to `None`.
pub const TIMEOUT: u64 = 5000;

/// Whether the dispatcher logs every envelope it receives.
pub const VERBOSE: bool = false;

} // verus!
