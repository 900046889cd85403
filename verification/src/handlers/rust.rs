//! The copy plan of a Rust project.

use crate::cli::Cli;
use crate::handlers::{single_source, single_source_plan};
use crate::templates::copier::TemplateCopier;
use crate::templates::path::{join, joined};
use vstd::prelude::*;

verus! {

/// The template of a Rust project: the default one for the project type
/// `rust`, the workspace one for any other.
pub open spec fn rust_template(project_type: Seq<char>) -> Seq<char> {
    if project_type == "rust"@ {
        "templates/rust/default"@
    } else {
        "templates/rust/workspace"@
    }
}

/// Plans a Rust project: its template is copied into the directory of
/// the project name under the output path.
pub fn handle_rust(cli: Cli) -> (r: TemplateCopier)
    ensures
        r@ == single_source(
            rust_template(cli.project_type@),
            joined(cli.output_path@, cli.project_name@),
        ),
{
    let template_dir = if cli.project_type == "rust".to_owned() {
        "templates/rust/default"
    } else {
        "templates/rust/workspace"
    };
    let output_dir = join(cli.output_path.as_str(), cli.project_name.as_str());
    single_source_plan(template_dir, output_dir.as_str())
}

} // verus!
