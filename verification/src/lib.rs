//! Analysis of VHDL design units and of generic package instantiation.

mod protected;

pub mod design;
pub mod diagnostic;
pub mod formal_region;
pub mod named_entity;
pub mod package_instance;
mod fnv_map;
pub mod region;
pub mod resolution;
pub mod syntax;

pub use protected::ProtectedBody;
