//! Verified core of the dubbing-practice recorder: timestamps and file names,
//! the decisions around saving and converting recordings, and update reports.

pub mod calendar;
pub mod convert;
pub mod file_ops;
pub mod text;
pub mod updater;
