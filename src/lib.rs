//! Client-side session logic for a display server that binds advertised
//! globals, draws into shared-memory buffers and negotiates a window through
//! a configure / acknowledge handshake.

pub mod error;
pub mod registry;
pub mod buffer;
pub mod handshake;
