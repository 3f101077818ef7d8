//! Output formats for the intermediate representation.
pub mod cytoscape;
pub mod ids;
pub mod toggle;
