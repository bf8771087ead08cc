//! A level/scene editor's component reflection and serialization engine.
//!
//! The heart of the crate is the generic bridge between a statically typed
//! entity-component world and a dynamically discovered, text-based
//! persistence format: discovering which components an entity carries,
//! serializing arbitrary component data to a durable RON-like text form, and
//! restoring that text back onto live entities through several fallback
//! strategies that recover malformed or legacy-format data.

use vstd::prelude::*;

pub mod component_editor;
pub mod editor_types;
pub mod extract;
pub mod format;
pub mod laws;
pub mod parse;
pub mod registry;
pub mod roundtrip;
pub mod value;
pub mod world;

verus! {

/// Initial configuration of the editor plugin group.
///
/// Configures the editor's enabled state, the default world file shown in
/// the UI, and whether the logging system is set up.
pub struct BevyGranite {
    /// Whether the editor functionality should be active
    pub active: bool,
    /// String relative path to the default world file for UI
    pub default_world: String,
    /// Whether to enable log setup, essentially controlling the logging system
    pub logging: bool,
}

impl Default for BevyGranite {
    /// The editor starts active, logging, and pointed at the stock world file.
    fn default() -> (r: Self)
        ensures
            r.active,
            r.logging,
            r.default_world@ == "scenes/default.mat"@,
    {
        Self { active: true, default_world: String::from_str("scenes/default.mat"), logging: true }
    }
}

} // verus!
