//! Which files are read and which are written, and under which names.

pub mod read;
pub mod write;
