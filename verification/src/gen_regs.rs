//! Typed register accessors from declarative device descriptions.
//!
//! A device description ([`model::Spec`]) lists the registers of one device. It is
//! checked as a whole ([`validate::validate`]) and then turned into the text of a Rust
//! module ([`emit::emit_device`]).

pub mod accessors;
pub mod emit;
pub mod device_laws;
pub mod field_laws;
pub mod laws;
pub mod layout_laws;
pub mod meaning;
pub mod model;
pub mod module_laws;
pub mod newtype_laws;
pub mod newtypes;
pub mod self_tests;
pub mod validate;
