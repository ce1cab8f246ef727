//! Verified core of the Astral networking bridge: LAN game discovery,
//! multicast sender bookkeeping, EasyTier event and status rendering,
//! application RPC plumbing and local game process selection.

pub mod text;
pub mod lan;
pub mod multicast;
pub mod network;
pub mod events;
pub mod instance;
pub mod process;
pub mod rpc;
pub mod app_rpc_status;
