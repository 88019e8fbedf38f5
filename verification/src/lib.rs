//! Composing and applying multi-monitor display layouts: the display model,
//! the reading of what the outputs support, the wizard that builds a layout
//! from a sequence of answers, the catalog of named layouts, and a run of the
//! program as a sequence of decisions.
//!
//! The library decides and computes; it runs no program and touches no file.
//! What it wants done it hands out as an action, and what came of it comes
//! back as an event.

pub mod app;
pub mod builder;
pub mod cli;
pub mod config;
pub mod layout;
pub mod modes;
pub mod pattern;
pub mod screen;
pub mod session;
pub mod text;
pub mod ui;
pub mod wizard;
