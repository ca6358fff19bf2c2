//! Verified core of Symlinkarr: naming, linking, validation, planning and
//! reporting rules, stated as contracts over sequences of characters and
//! integers.

pub mod commands;
pub mod config;
pub mod db;
pub mod discovery;
pub mod handoff;
pub mod import_report;
pub mod json;
pub mod library_scanner;
pub mod linker;
pub mod models;
pub mod order;
pub mod paths;
pub mod tables;
pub mod text;
