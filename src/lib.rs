//! Inspection of self-describing runtime modules: the SCALE value decoder,
//! the portable type registry and the metadata envelope that carries it.

pub mod codec;
pub mod registry;
pub mod value;
pub mod decoder;
pub mod wire;
pub mod metadata;
pub mod laws;
pub mod command;
