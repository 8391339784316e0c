//! Verified core of the Anki sync server deployer: the text, number and path
//! computations that the shortcut sender and the deployer perform, with the
//! file system, registry and process work left to the caller.
pub mod config;
pub mod deploy;
pub mod error;
pub mod number;
pub mod paths;
pub mod send;
pub mod text;
pub mod users;

pub use error::{SendError, UpdateAddrError};
pub use send::{add, desktop, Send, LNK_NAME, START};
