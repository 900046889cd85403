//! The copy plan of a Deno project.

use crate::cli::Cli;
use crate::handlers::{single_source, single_source_plan};
use crate::templates::copier::TemplateCopier;
use crate::templates::path::{join, joined};
use vstd::prelude::*;

verus! {

/// Plans a Deno project: the default template is copied into the
/// directory of the project name under the output path.
pub fn handle_deno(cli: Cli) -> (r: TemplateCopier)
    ensures
        r@ == single_source(
            "templates/rust/default"@,
            joined(cli.output_path@, cli.project_name@),
        ),
{
    let template_dir = "templates/rust/default";
    let output_dir = join(cli.output_path.as_str(), cli.project_name.as_str());
    single_source_plan(template_dir, output_dir.as_str())
}

} // verus!
