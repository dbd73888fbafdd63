//! Metadata model and parser for the text block that a sprite-sheet icon
//! carries, together with the codec that turns pixel text into RGB bytes.
//!
//! All text is handled as bytes: the metadata block is plain ASCII apart from
//! state names, which are kept byte for byte.

pub mod encode;
pub mod error;
pub mod metadata;
pub mod number;
pub mod pixel;
pub mod render;
pub mod resize;
pub mod state;
pub mod text;
