//! What holds of the library as a whole.

pub mod access;
pub mod bitstream;
pub mod blocks;
pub mod chip;
pub mod commands;
pub mod device;
pub mod files;
pub mod firmware;
pub mod format;
pub mod frames;
pub mod hardware;
pub mod invariants;
pub mod jedec;
pub mod patterns;
pub mod progress;
pub mod readable;
pub mod records;
pub mod reports;
pub mod session;
pub mod start;
pub mod stream;
pub mod tap;
pub mod texts;
pub mod timeline;
pub mod uploads;
pub mod views;
