//! Verified core of an overlay that recognises shop items on screen by
//! template matching and shows their prices.

pub mod arith;
pub mod config;
pub mod event_bus;
pub mod hotkeys;
pub mod logger;
pub mod matchers;
pub mod overlay;
pub mod shop;
pub mod text;
pub mod tray;
