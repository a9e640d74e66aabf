//! A per-shell identity switcher for an external version-control tool.
//!
//! The crate keeps a registry of named identities (name, email, key
//! reference), an ordered list of directory patterns that pick an identity
//! automatically, and the machinery that makes a selection visible to the
//! parent interactive shell: a session-channel file keyed by the parent
//! process's numeric identity, and a generated setup script whose wrapper
//! functions source that file after every invocation of the tool.

pub mod auto_switch;
pub mod codec;
pub mod config;
pub mod digits;
pub mod errors;
pub mod gus;
pub mod shell;
mod strutil;
pub mod user;

pub use auto_switch::AutoSwitcher;
pub use codec::Item;
pub use codec::ItemV;
pub use codec::decode_config;
pub use codec::decode_items;
pub use codec::decode_users;
pub use codec::encode_config;
pub use codec::encode_items;
pub use codec::encode_users;
pub use config::AutoSwitchPattern;
pub use config::AutoSwitchPatternV;
pub use config::Config;
pub use config::ConfigV;
pub use config::SshKeyType;
pub use errors::GusError;
pub use gus::GitUserSwitcher;
pub use gus::KeyGenRequest;
pub use shell::get_session_script_path;
pub use shell::get_setup_script;
pub use shell::str2envkey;
pub use user::User;
pub use user::UserV;
pub use user::Users;
