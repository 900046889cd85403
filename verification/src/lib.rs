//! Composition of project skeletons from template fragments.
//!
//! A generated project is assembled from a core template and optional
//! add-on templates. The file trees of the templates are laid over each
//! other by [`templates::copier::TemplateCopier`], and their dependency
//! manifests are folded into one by [`templates::package::Package`].

pub mod cli;
pub mod handlers;
pub mod templates;
