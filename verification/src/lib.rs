//! Activity-based sleep suppression: the decisions behind a daemon that keeps a machine
//! awake while it is really doing something.
//!
//! The library takes what was read of the system as plain values and says what to do:
//! [`detect`] looks for activity, [`engine`] decides what to hold, [`daemon`] drives the
//! rounds, and [`tray`] is the user interface. Times are nanoseconds of a clock that never
//! goes back, except for those of files.
pub mod text;
pub mod big;
pub mod double;
pub mod fixed;
pub mod double_laws;
pub mod tally;

pub mod config;
pub mod config_laws;
pub mod config_defaults;
pub mod warnings;
pub mod settings_laws;
pub mod line_laws;

pub mod power;
pub mod detect;
pub mod engine;
pub mod engine_laws;
pub mod log;
pub mod daemon;
pub mod daemon_laws;
pub mod autostart;

pub mod icon;
pub mod png;
pub mod png_laws;
pub mod icon_laws;
pub mod tray;
pub mod tray_laws;
pub mod report_laws;
pub mod autostart_laws;

pub mod operations;
pub mod upkeep;
