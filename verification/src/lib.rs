//! Rendezvous server logic for a mesh of WireGuard peers.
//!
//! Peers publish the socket addresses under which they can be reached and ask
//! for the addresses of other peers. The server reveals the addresses of a
//! peer only to those that are listed among that peer's contacts, and every
//! question adds the asking peer to the contacts of the peer asked about.
//!
//! The crate holds the decisions of such a server and none of its input or
//! output: a host program owns the sockets and the configuration file, hands
//! over what it read and carries out the actions it is given.

pub mod address;
pub mod config;
pub mod directory;
pub mod history;
pub mod peers;
pub mod session;
pub mod table;
pub mod text;
