//! The RESP key-value server: reading requests, the store, and the commands.
pub mod clock;
pub mod command_laws;
pub mod commands;
pub mod deserialize;
pub mod encode;
pub mod laws;
pub mod regex;
pub mod store;
pub mod string_array;
pub mod types;
