//! What the tool keeps about the files and commands it manages.

pub mod backup;
pub mod command;
pub mod fs;
