//! Orchestration core of an interactive disk-cleanup tool: selection of
//! cleanup tasks, the privilege gate, the paced run scheduler, extraction of
//! reclaimed-item records from operation output, and the bounded result store.

pub mod app;
pub mod catalog;
pub mod chars;
pub mod cleaned_item;
pub mod events;
pub mod extract;
pub mod menu_input;
pub mod models;
pub mod prompt;
pub mod security;
pub mod services;
pub mod store;
pub mod system_cleaners;
pub mod text;
pub mod user_cleaners;
