//! Nodes of the simulated network and the components they share.

pub mod deassembler;
pub mod client;
pub mod server;
pub mod network_initializer;
