//! A library for the Gopher protocol (RFC 1436): parsing and formatting of
//! directory listings, and a navigation session over fetched resources.

pub mod item;
pub mod text;
pub mod directory;
pub mod session;
pub mod render;

pub use directory::{Directory, DirectoryItem, GopherError};
pub use item::Type;
pub use session::{Gopher, Request, State};
