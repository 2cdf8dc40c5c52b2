//! Verified core of a source-routed network simulation: the packet model,
//! the splitting of messages into fixed-size fragments and their
//! reassembly, and the decisions that clients, servers and the network
//! initializer take on the packets and configurations they are handed.

pub mod packet;
pub mod text;
pub mod assembler;
pub mod network;
pub mod server;
pub mod reassembly;
