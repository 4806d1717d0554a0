//! Logic of the Lunaris XDG desktop portal backend: the picker IPC wire
//! types and framing, request correlation, option parsing, caller
//! sandbox detection, Document Portal URIs, and the picker UI's
//! directory listing and theme.

mod text;

pub mod codec;
pub mod document_portal;
pub mod interfaces;
pub mod keyed;
pub mod lifecycle;
pub mod listing;
pub mod options;
pub mod paths;
pub mod pending;
pub mod protocol;
pub mod request;
pub mod sandbox;
pub mod state;
pub mod theme;
