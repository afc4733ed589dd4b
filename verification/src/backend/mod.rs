//! Generators of bindings from a parsed interface description.
pub mod rust;
pub mod templates;
pub mod layout;
