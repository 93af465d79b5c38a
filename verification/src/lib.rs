//! Core of a terminal front end for the Nordic Power Profiler Kit 2.

pub mod acquisition;
pub mod build_info;
pub mod command;
pub mod float;
pub mod laws;
pub mod logging;
pub mod ppk2;
pub mod ring;
pub mod text;
pub mod tui;
