//! A command-alias launcher: configuration sources map short names to shell
//! command lines, merged by precedence, then printed or turned into a program
//! invocation.
pub mod alias_map;
pub mod config;
pub mod resolve;
