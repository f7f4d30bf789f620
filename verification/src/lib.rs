//! An AI chat that lives in a terminal pane: its state, its rules and its looks.

pub mod agent;
pub mod app;
pub mod attachment;
pub mod context;
pub mod conversation;
pub mod display;
pub mod frame;
pub mod keys;
pub mod listing;
pub mod markdown;
pub mod measure;
pub mod message;
pub mod paint;
pub mod palette;
pub mod picker;
pub mod prompt;
pub mod scrollbar;
pub mod selection;
pub mod shell;
pub mod splash;
pub mod stream;
pub mod text;
pub mod turn;
pub mod wrap;
