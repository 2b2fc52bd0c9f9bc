//! Cursor theme management: the search, selection, text and state logic
//! behind the `cursors` terminal interface, with its contracts proved by Verus.

pub mod text;
pub mod config;
pub mod error;
pub mod state;
pub mod theme;
pub mod system;
pub mod apply;
pub mod app;
pub mod event;
pub mod ui;
