//! fuide — building blocks for futuristic (FUI) desktop tools on top of egui.
//!
//! This crate holds the parts of the kit that decide and compute on plain values, each with a
//! contract checked by Verus:
//! - [`agent`]: the agent interface — label lookup, command planning, key combos, the MCP
//!   request routing, base64 / PNG / TGA encoding of screenshots
//! - [`fmt`]: telemetry formatting (`T+HH:MM:SS.s` uptime)
//! - [`fontmetrics`]: sfnt (TTF / OTF / TTC) line-metrics reader
//! - [`pathinput`]: typed-path expansion and Tab completion
//! - [`settings`]: the per-app `key=value` settings file
//! - [`theme`], [`widgets`], [`table`], [`shell`], [`dialog`]: the plain-value parts of the
//!   drawing kit (palette kinds, icon labels, sort state, response records)
//! - [`text`]: character-level helpers shared by the modules above

pub mod agent;
pub mod devshot;
pub mod dialog;
pub mod fmt;
pub mod fontmetrics;
pub mod pathinput;
pub mod settings;
pub mod shell;
pub mod table;
pub mod text;
pub mod theme;
pub mod widgets;
