//! The network behaviour of an eth2 node: the gossip wire codec and the
//! multiplexer that turns the events of its sub-protocols into one queue.
pub mod codec;
pub mod message;
pub mod behaviour;
