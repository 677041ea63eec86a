//! What holds of the server whatever requests it gets.
pub mod answers;
pub mod asking;
pub mod attach;
pub mod clients;
pub mod commands;
pub mod consistent;
pub mod counting;
pub mod effects;
pub mod framing;
pub mod history;
pub mod ledger;
pub mod logfile;
pub mod logging;
pub mod options;
pub mod pending;
pub mod picking;
pub mod reading;
pub mod recovery;
pub mod reports;
pub mod restoring;
pub mod runs;
pub mod serving;
pub mod sessions;
pub mod steps;
pub mod takeover;
pub mod time;
pub mod totals;
pub mod typing;
pub mod visitors;
pub mod waiting;
pub mod watching;
