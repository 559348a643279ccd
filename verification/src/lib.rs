//! A resource-archive subsystem: it loads container files holding named,
//! variable-length binary records ("lumps"), merges them into one ordered
//! directory, materializes record bytes lazily through a cache, and decodes
//! a run-length-encoded image format onto a linear framebuffer.

pub mod args;
pub mod banner;
pub mod codec;
pub mod screen;
pub mod state;
pub mod status_bar;
pub mod video;
pub mod wad;
