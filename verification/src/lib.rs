//! A verified core for the Windows Packet Filter (WinpkFilter) datalink backend.
//!
//! The modules hold the decisions that the backend makes around the driver:
//! its configuration, how an adapter's GUID is read from its device name,
//! how a batch of outgoing frames is laid out in the write buffer, how
//! received frames are queued and handed out, and how an adapter becomes a
//! network interface description.
pub mod adapters;
pub mod datalink;
pub mod guid;
pub mod receiver;
pub mod sender;
pub mod winpkfilter;
