//! A navigable directory-tree view over archive containers: format detection,
//! inner-path normalisation, direct-child listings with synthesised
//! directories, entry lookup and extraction planning.
//!
//! `paths` and `format` are the leaves. `listing` and `records` work on the
//! records of a container, whatever its format; `laws` states what holds of
//! every listing. `outside` holds the calls into the crates that read the
//! formats, `containers` the backends built on them, and `archive` the
//! dispatcher. `protocol` holds the values of the command layer.

pub mod text;
pub mod paths;
pub mod format;
pub mod error;
pub mod model;
pub mod listing;
pub mod laws;
pub mod records;
pub mod outside;
pub mod containers;
pub mod archive;
pub mod protocol;
