//! A small module bundler: it discovers the modules reachable from an entry
//! module, gives each one a stable numeric identity, wires every import
//! specifier to the identity of the module it names, and renders the whole
//! set as one script with a tiny runtime loader.

pub mod asset;
pub mod emit;
pub mod error;
pub mod graph;
pub mod transpile;
pub mod laws;
