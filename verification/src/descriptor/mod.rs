//! Standard and class-specific USB descriptors and their parsers.

pub mod bytes;
pub mod fixed;
pub mod config;
pub mod bos;
