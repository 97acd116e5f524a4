//! Recall: a command-history library for shells.
pub mod commands;
pub mod config;
pub mod db;
pub mod error;
pub mod format;
pub mod models;
pub mod platform;
pub mod shell;
pub mod text;
