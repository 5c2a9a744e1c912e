//! Surface/window multiplexer and event translator of a Wayland compositor
//! that shows its clients' windows through the Qubes GUI protocol.
//!
//! Everything here works on plain values: the compositor and the daemon
//! connection hand the library numbers and get back the messages to send
//! and the actions to take.
//!
//! - `proto`: the Qubes GUI messages the agent sends.
//! - `qubes`: window ids, the window registry, the daemon's configures,
//!   closes and the periodic tick.
//! - `shell`: per-surface state, buffer sanitizing and the damage copies.
//! - `input`: the daemon's pointer, keyboard and focus events.

pub mod input;
pub mod proto;
pub mod qubes;
pub mod shell;
