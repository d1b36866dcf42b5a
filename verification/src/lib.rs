//! Zen: a registry and health engine for Python virtual environments.
//!
//! The library holds the rules: version arithmetic, environment markers,
//! the package scanner, the dependency checker, the health model, the
//! registry and the activation resolver. It reads no file and starts no
//! program; whoever calls it hands in what was read and carries out what
//! is decided.

pub mod activity_log;
pub mod clock;
pub mod deps;
pub mod health;
pub mod hooks;
pub mod marker;
pub mod mcp;
pub mod metadata;
pub mod ops;
pub mod order;
pub mod printer;
pub mod registry;
pub mod repl;
pub mod resolver;
pub mod scanner;
pub mod style;
pub mod templates;
pub mod text;
pub mod types;
pub mod utils;
pub mod validation;
pub mod version;
