//! Core logic of a host-side driver that turns an Android phone in USB
//! accessory mode into a virtual graphics tablet and a virtual touchpad.
//!
//! The crate verifies the protocol and state-machine logic: the wire-format
//! decoder and encoder, the accessory-mode handshake state machine, the
//! steady-state transfer-session decisions, and the two virtual-device
//! emitters with their multi-touch slot table and gesture synthesis.
//! All USB and uinput I/O stays outside, in a thin unverified shell that
//! feeds this crate plain bytes and carries its decisions out.

pub mod data;
pub mod decode;
pub mod encode;
pub mod handshake;
pub mod hex;
pub mod hid;
pub mod num;
pub mod parser;
pub mod session;
pub mod split;
pub mod tablet;
pub mod touchpad;
pub mod utf8check;
