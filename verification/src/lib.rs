//! Reading logic of a Bible reader: chapter navigation across book
//! boundaries, the presentation records a reading screen is built from, the
//! planning of the bundled-translation seed, and the small text helpers
//! they rely on.

pub mod commands;
pub mod config;
pub mod db;
pub mod domain;
pub mod text;
pub mod ui;
pub mod web;
