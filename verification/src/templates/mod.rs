//! Template composition: the manifest model and its merge, and the tree copier.

pub mod copier;
pub mod fields;
pub mod json;
pub mod package;
pub mod path;
pub mod table;
pub mod tree;

pub use copier::TemplateCopier;
pub use package::Package;
