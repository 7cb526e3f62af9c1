mod clock;
pub mod cli;
pub mod coordinator;
pub mod filesystem;
mod hashing;
pub mod message;
pub mod paths;
pub mod permissions;
pub mod registry;
pub mod strutil;
