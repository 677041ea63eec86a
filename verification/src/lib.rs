//! A beanstalk work queue: the server's queue engine, its protocol, its
//! write-ahead log and the command-line client, as verified functions on plain
//! values. Sockets, files and timers are left to the program around it.
pub mod binlog;
pub mod cli;
pub mod clock;
pub mod config;
pub mod constants;
pub mod laws;
pub mod listen;
pub mod model;
pub mod names;
pub mod order;
pub mod protocol;
pub mod requests;
pub mod restore;
pub mod session;
pub mod state;
pub mod stats;
pub mod tables;
pub mod text;
pub mod view;
pub mod wal;
