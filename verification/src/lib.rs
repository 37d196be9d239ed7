//! The protocol core of a small RFB (VNC) server.
//!
//! The crate holds everything about serving a framebuffer that is not input or
//! output: the shared frame with its damage history, rectangle arithmetic,
//! pixel conversion, password authentication, the opening handshake, the
//! reader of client messages and the loop that answers update requests. A host
//! program owns the sockets and the threads, performs the reads and writes
//! that these state machines ask for, and hands the bytes back.
pub mod auth;
pub mod bytes;
pub mod client;
pub mod config;
pub mod damage;
pub mod frame;
pub mod handshake;
pub mod pixel;
pub mod rect;
pub mod update;

pub use auth::{vnc_password_response, VncError};
pub use client::{ClientMessage, ClientState, MessageReader};
pub use config::{VncAuth, VncInputEvent, VncServerConfig};
pub use damage::compute_damage_rect;
pub use frame::{damage_since, SharedFrame};
pub use handshake::{Handshake, Stage};
pub use pixel::{encode_rect, VncPixelFormat};
pub use rect::Rect;
pub use update::{UpdateRequest, UpdateSession};
