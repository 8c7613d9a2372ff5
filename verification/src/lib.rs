//! A single-user local secret store: a name-to-secret map kept encrypted at
//! rest under a key derived from a master password, together with the
//! command-dispatch engine of its interactive shell.

pub mod cli;
pub mod credentials;
pub mod crypto;
pub mod errors;
pub mod logging;
pub mod manager;
pub mod shell;
pub mod storage;
pub mod text;
pub mod trie;

pub use credentials::Credentials;
pub use logging::LogConfig;
pub use manager::Manager;
pub use shell::Shell;
pub use trie::Trie;
