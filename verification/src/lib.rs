//! Resolves a short repository reference to the archive of a hosting
//! provider, and decides how that archive is fetched and unpacked into a
//! destination: which address is asked, what a response means, where each
//! entry is written, and what is remembered in the template store.
//!
//! The library computes on plain values. Requests, files and prompts are the
//! caller's.

pub mod command;
pub mod extract;
pub mod fetch;
pub mod guard;
pub mod resolver;
pub mod store;
pub mod text;

pub use crate::command::parser;
pub use crate::guard::has_content_in_dir;
pub use crate::store::{read_from_see, write_to_see, Data, ListItem};
