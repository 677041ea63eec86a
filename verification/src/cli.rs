//! The command-line client: its arguments, the requests it makes and the answers it reads.
pub mod args;
pub mod commands;
pub mod repl;
pub mod response;
