//! Frame synchronisation with a running game: a breakpoint placed on the
//! game's per-frame instruction is stepped over and re-armed, and every
//! connected client is told about each frame and awaited before the game
//! goes on.
pub mod broadcast;
pub mod client;
pub mod cstr;
pub mod injection;
pub mod modules;
pub mod server;
pub mod stepper;
