//! A single-user command-line timer: the state kept in a flat text file, the
//! decisions of the `start` and `stop` commands, and the rendering of elapsed
//! time.
pub mod duration;
pub mod stamp;
pub mod store;
pub mod timer;
pub mod commands;
