//! A live counter shared by every connection that joins the same space.
//!
//! The library keeps the connection registry and the table of space counters,
//! decides what each inbound message does to them, and says which connections
//! must receive which text. Sockets, locks and channels belong to the caller.

pub mod text;
pub mod space;
pub mod client;
pub mod handler;
pub mod ws;
pub mod hub;
