//! Input configuration for an axis-input map: default and user settings,
//! profiles per owner, and the bindings that the input map is built from.
pub mod keys;
pub mod entries;
pub mod collections;
pub mod values;
pub mod resources;
pub mod laws;
pub mod read_laws;
pub mod order;
pub mod input_map;
pub mod records;
