//! Ply: the verified core of a UI layout engine.
//!
//! This crate holds the integer and state-machine parts of the engine:
//! element-id hashing, element configuration builders, the element tree of
//! a frame, the element map with its generation bookkeeping, keyboard focus,
//! pointer interaction, text-input values, and the word segmentation and
//! cache that text measurement uses.

pub mod align;
pub mod debug_view;
pub mod elements;
pub mod engine;
pub mod focus;
mod fxmap;
pub mod id;
pub mod input;
pub mod laws;
pub mod render_commands;
pub mod scroll;
pub mod render;
pub mod renderer;
pub mod text_cache;
pub mod text_measure;
pub mod tree;
pub mod strings;
