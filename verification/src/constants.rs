//! Limits and defaults.
use vstd::prelude::*;

verus! {

pub const DEFAULT_PORT: &'static str = "11300";

pub const DEFAULT_ADDR: &'static str = "0.0.0.0";

/// The longest tube name, in bytes.
pub const MAX_TUBE_NAME_LEN: usize = 200;

/// The longest request line, its end included.
pub const LINE_BUF_SIZE: usize = 224;

pub const JOB_DATA_SIZE_LIMIT_DEFAULT: usize = 65535;

pub const JOB_DATA_SIZE_LIMIT_MAX: usize = 1_073_741_824;

pub const FILE_SIZE_DEFAULT: usize = 10_485_760;

pub const DEFAULT_FSYNC_MS: u64 = 50;

/// A job whose priority number is below this one is urgent.
pub const URGENT_THRESHOLD: u32 = 1024;

/// Nanoseconds in a second.
pub const SECOND: i128 = 1_000_000_000;

/// The characters of a tube name.
pub const NAME_CHARS: &'static str =
    "ABCDEFGHIJKLMNOPQRSTUVWXYZabcdefghijklmnopqrstuvwxyz0123456789-+/;.$_()";

} // verus!
