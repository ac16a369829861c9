//! Client-side protocol library for the debug channel of a running game:
//! the wire codec, the message catalogue, identifier classification and the
//! routing decisions of a single-connection client.

pub mod client;
pub mod commands;
pub mod connection;
pub mod fmt;
pub mod local_subcommands;
pub mod constants;
pub mod messages;
pub mod protocol;
pub mod response_handling;
pub mod router;
pub mod scriptslog;
pub mod server_subcommands;
pub mod utils;
