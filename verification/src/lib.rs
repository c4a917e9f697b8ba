//! Statement ingestion and heuristic insight pipeline for Dutch bank
//! statement exports: CSV dialect parsing, field normalization, duplicate
//! detection, keyword-based categorization, and statistical insight
//! generation over normalized transactions.

pub mod amount;
pub mod classify;
pub mod csvread;
pub mod date;
pub mod import;
pub mod importer;
pub mod insights;
pub mod models;
pub mod outside;
pub mod resolve;
pub mod text;
pub mod utils;
