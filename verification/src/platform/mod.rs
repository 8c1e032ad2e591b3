//! Platform helpers that parse what the operating system reports.

pub mod linux;
