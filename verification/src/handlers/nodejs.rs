//! The copy plan of a Node.js project.

use crate::cli::{Cli, Linter, SubType};
use crate::handlers::{single_source, single_source_plan};
use crate::templates::copier::TemplateCopier;
use crate::templates::path::{join, joined};
use vstd::prelude::*;

verus! {

/// The template of a Node.js project for a language flavour and a linter.
/// Without a flavour it is the TypeScript template with ESLint.
pub open spec fn nodejs_template(subtype: Option<SubType>, linter: Option<Linter>) -> Seq<char> {
    match (subtype, linter) {
        (Some(SubType::Js), Some(Linter::Eslint)) => "templates/nodejs/js/eslint"@,
        (Some(SubType::Js), Some(Linter::Biome)) => "templates/nodejs/js/biome"@,
        (Some(SubType::Ts), Some(Linter::Eslint)) => "templates/nodejs/ts/eslint"@,
        (Some(SubType::Ts), Some(Linter::Biome)) => "templates/nodejs/ts/biome"@,
        (Some(SubType::Js), None) => "templates/nodejs/js"@,
        (Some(SubType::Ts), None) => "templates/nodejs/ts"@,
        _ => "templates/nodejs/ts/eslint"@,
    }
}

/// Plans a Node.js project: the template of the flavour and the linter is
/// copied into the directory of the project name under the output path.
pub fn handle_nodejs(cli: Cli, subtype: Option<SubType>) -> (r: TemplateCopier)
    ensures
        r@ == single_source(
            nodejs_template(subtype, cli.linter),
            joined(cli.output_path@, cli.project_name@),
        ),
{
    let subtype_dir = match (subtype, cli.linter) {
        (Some(SubType::Js), Some(Linter::Eslint)) => "templates/nodejs/js/eslint",
        (Some(SubType::Js), Some(Linter::Biome)) => "templates/nodejs/js/biome",
        (Some(SubType::Ts), Some(Linter::Eslint)) => "templates/nodejs/ts/eslint",
        (Some(SubType::Ts), Some(Linter::Biome)) => "templates/nodejs/ts/biome",
        (Some(SubType::Js), None) => "templates/nodejs/js",
        (Some(SubType::Ts), None) => "templates/nodejs/ts",
        _ => "templates/nodejs/ts/eslint",
    };
    let output_dir = join(cli.output_path.as_str(), cli.project_name.as_str());
    single_source_plan(subtype_dir, output_dir.as_str())
}

} // verus!
