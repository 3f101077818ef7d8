//! Extracts the structural skeleton of a multi-package project (packages,
//! compilation units, modules and their public items) and projects it into a
//! flat vertex/edge document.
pub mod ir;
pub mod manifest;
pub mod output;
pub mod syn_util;
pub mod traverser;
