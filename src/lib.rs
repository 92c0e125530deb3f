//! Core of a local-network file sharing node: the encryption envelope, the
//! wire framing of file packets, the peer registry, the route table and its
//! periodic recomputation, the transfer ledger, and the sender, receiver and
//! relay decisions that drive one transfer.
pub mod codec;
pub mod wire;
pub mod routing;
pub mod ledger;
pub mod session;
pub mod registry;
pub mod sources;
