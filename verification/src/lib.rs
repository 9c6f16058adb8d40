//! Peer coordination core for a LAN-local mesh of controller and display
//! devices: identity and election priority, multicast discovery of leader
//! candidates and display devices, priority-based leader election, the
//! signaling hub that serves as peer directory and message relay, the
//! length-prefixed TCP point-to-point transport, and the coordination
//! driver's startup and fallback decisions. Display identification data
//! and the shared message vocabulary live here as well; sockets, timers
//! and the multicast sessions run outside this crate and act only on the
//! decisions made here.

pub mod bytes;
pub mod devices;
pub mod discovery;
pub mod driver;
pub mod edid;
pub mod election;
pub mod messages;
pub mod net;
pub mod peer;
pub mod signaling;
pub mod tcp;
pub mod types;
