//! What small parts of the interface show.
pub mod component_laws;
pub mod components;
