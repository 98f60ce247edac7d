//! A recursive, filterable line search engine.
//!
//! The crate holds the decisions of a text search tool: which files of a
//! directory tree are scanned, which lines of a file are reported, and which
//! preceding lines accompany each reported line. Reading directories and
//! files, and writing the report, are left to the caller, who drives the
//! [`walker::Walker`] and the [`scanner::Scanner`] step by step.

pub mod matcher;
pub mod criteria;
pub mod context;
pub mod scanner;
pub mod emitter;
pub mod walker;
pub mod traversal;
pub mod config;
