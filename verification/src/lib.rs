//! Defining, verifying and planning migrations of a SurrealDB database.

pub mod action;
pub mod args;
pub mod checksum;
pub mod commands;
pub mod config;
pub mod db;
pub mod definition;
pub mod error;
pub mod files;
pub mod key;
pub mod keyed;
pub mod listing;
pub mod migration;
pub mod pattern;
pub mod result;
pub mod round_trip;
pub mod runner;
pub mod settings;
pub mod text;
