//! Collects exported JavaScript functions, asks a text-generation service for
//! TypeScript declarations of them and writes the answers as `.d.ts` files.
//! This crate holds the verified logic; reading, writing and network traffic
//! live with the program that uses it.

pub mod args;
pub mod ask;
pub mod compile;
pub mod constants;
pub mod file_io;
pub mod text;
