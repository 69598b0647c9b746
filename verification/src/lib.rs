//! Verified core of a tool that lays text out on squared writing paper.

pub mod text;
pub mod layout;
pub mod numparse;
pub mod grid;
pub mod canvas;
pub mod config;
pub mod fonts;
pub mod workflow;
