//! Rendering and annotation engine for repository objects: a formatted text
//! tree with nested style labels, a template composition algebra, a label
//! stack style resolver, identifier shortening, and repository-derived
//! property extractors.

pub mod formatter;
pub mod properties;
pub mod ids;
pub mod repo;
pub mod templater;
pub mod text;
