//! The orchestration of a generation run: which template directories are
//! copied where, which manifests are merged, and the merge itself.

pub mod deno;
pub mod nodejs;
pub mod rust;

use crate::cli::Cli;
use crate::templates::copier::{slices, CopierView, SourceView, TemplateCopier};
use crate::templates::package::{
    merged_package, section_declares, text_package, ManifestError, Package, PackageView,
};
use crate::templates::path::texts;
use vstd::prelude::*;

verus! {

/// Why a project could not be generated.
#[derive(Clone, Copy, Debug, PartialEq, Eq, Structural)]
pub enum GenerationError {
    /// The core template of the project type has no manifest.
    MissingCore,
    /// A manifest could not be read.
    Manifest(ManifestError),
}

/// What a generation run does: the copy plan, and the manifests that are
/// merged into the manifest of the new project.
#[derive(Debug)]
pub struct ProjectPlan {
    /// The directory of the new project.
    pub output_dir: String,
    /// The template directories to copy, in order.
    pub copier: TemplateCopier,
    /// The manifests to merge, in order; one that does not exist is passed over.
    pub package_paths: Vec<String>,
    /// Where the merged manifest is written.
    pub output_package_path: String,
}

/// The directory of one part of the templates of a project type.
pub open spec fn template_dir(project_type: Seq<char>, part: Seq<char>) -> Seq<char> {
    "templates/"@ + project_type + "/"@ + part
}

/// The manifest in a directory.
pub open spec fn manifest_in(dir: Seq<char>) -> Seq<char> {
    dir + "/package.json"@
}

/// The directory of the new project.
pub open spec fn output_dir(cli: Cli) -> Seq<char> {
    cli.output_path@ + "/"@ + cli.project_name@
}

/// The parts of the templates that a request asks for: the core, then
/// the linter and the test framework where they were chosen.
pub open spec fn template_parts(cli: Cli) -> Seq<Seq<char>> {
    let linter = match cli.linter {
        Some(linter) => seq![linter.label()],
        None => Seq::<Seq<char>>::empty(),
    };
    let test_framework = match cli.test_framework {
        Some(test_framework) => seq![test_framework.label()],
        None => Seq::<Seq<char>>::empty(),
    };
    seq!["core"@] + linter + test_framework
}

/// The source of the copy plan for one part: its directory, without the
/// manifest, which is merged and not copied.
pub open spec fn template_source(project_type: Seq<char>, part: Seq<char>) -> SourceView {
    SourceView { root: template_dir(project_type, part), exclusions: seq!["package.json"@] }
}

/// The sources of the copy plan of a request, in order.
pub open spec fn plan_sources(cli: Cli) -> Seq<SourceView> {
    template_parts(cli).map_values(|part: Seq<char>| template_source(cli.project_type@, part))
}

/// The manifests that a request merges, in order.
pub open spec fn plan_manifests(cli: Cli) -> Seq<Seq<char>> {
    template_parts(cli).map_values(
        |part: Seq<char>| manifest_in(template_dir(cli.project_type@, part)),
    )
}

/// The views of the manifest texts found for a plan; `None` stands for a
/// manifest that does not exist.
pub open spec fn document_views(documents: Seq<Option<String>>) -> Seq<Option<Seq<char>>> {
    documents.map_values(
        |document: Option<String>|
            match document {
                Some(text) => Some(text@),
                None => None,
            },
    )
}

/// What a base manifest becomes when the manifests of a list of texts
/// are merged into it in order, or the first reason why one of the texts
/// stands for no manifest. A text that is absent is passed over.
pub open spec fn merged_all(base: PackageView, documents: Seq<Option<Seq<char>>>) -> Result<
    PackageView,
    ManifestError,
>
    decreases documents.len(),
{
    if documents.len() == 0 {
        Ok(base)
    } else {
        match merged_all(base, documents.drop_last()) {
            Err(fault) => Err(fault),
            Ok(so_far) => match documents.last() {
                None => Ok(so_far),
                Some(text) => match text_package(text) {
                    Err(fault) => Err(fault),
                    Ok(overlay) => Ok(merged_package(so_far, overlay)),
                },
            },
        }
    }
}

/// The manifest of the new project, given the texts of the manifests of
/// the plan: the core manifest with every manifest that exists merged
/// into it in order, the core's own included.
pub open spec fn assembled(documents: Seq<Option<Seq<char>>>) -> Result<
    PackageView,
    GenerationError,
> {
    if documents.len() == 0 || documents[0] is None {
        Err(GenerationError::MissingCore)
    } else {
        match text_package(documents[0]->0) {
            Err(fault) => Err(GenerationError::Manifest(fault)),
            Ok(base) => match merged_all(base, documents) {
                Err(fault) => Err(GenerationError::Manifest(fault)),
                Ok(package) => Ok(package),
            },
        }
    }
}

/// A fault among the first texts of a list is the fault of the whole list.
pub proof fn lemma_fault_stands(base: PackageView, documents: Seq<Option<Seq<char>>>, upto: int)
    requires
        0 <= upto <= documents.len(),
        merged_all(base, documents.take(upto)) is Err,
    ensures
        merged_all(base, documents) == merged_all(base, documents.take(upto)),
    decreases documents.len() - upto,
{
    if upto == documents.len() {
        assert(documents.take(upto) =~= documents);
    } else {
        assert(documents.take(upto + 1).drop_last() =~= documents.take(upto));
        lemma_fault_stands(base, documents, upto + 1);
    }
}

/// The core comes first: where the manifests of a list of texts could be
/// merged into a base, a package that the base declares has the base's
/// version in the result, among the runtime and among the development
/// dependencies, and the other fields are those of the base.
pub proof fn lemma_merged_all_keeps_base(
    base: PackageView,
    documents: Seq<Option<Seq<char>>>,
    name: Seq<char>,
)
    requires
        merged_all(base, documents) is Ok,
    ensures
        ({
            &&& merged_all(base, documents) matches Ok(merged)
            &&& merged.extra == base.extra
            &&& section_declares(base.dependencies, name) ==> section_declares(
                merged.dependencies,
                name,
            ) && merged.dependencies->0[name] == base.dependencies->0[name]
            &&& section_declares(base.dev_dependencies, name) ==> section_declares(
                merged.dev_dependencies,
                name,
            ) && merged.dev_dependencies->0[name] == base.dev_dependencies->0[name]
        }),
    decreases documents.len(),
{
    if documents.len() > 0 {
        lemma_merged_all_keeps_base(base, documents.drop_last(), name);
    }
}

/// The manifest of a new project has the core's version of every
/// package that the core manifest declares, whatever the add-ons declare,
/// and the core's other fields.
pub proof fn lemma_assembled_keeps_core(documents: Seq<Option<Seq<char>>>, name: Seq<char>)
    requires
        assembled(documents) is Ok,
    ensures
        documents.len() > 0,
        documents[0] is Some,
        ({
            &&& text_package(documents[0]->0) matches Ok(core)
            &&& assembled(documents) matches Ok(merged)
            &&& merged.extra == core.extra
            &&& section_declares(core.dependencies, name) ==> section_declares(
                merged.dependencies,
                name,
            ) && merged.dependencies->0[name] == core.dependencies->0[name]
            &&& section_declares(core.dev_dependencies, name) ==> section_declares(
                merged.dev_dependencies,
                name,
            ) && merged.dev_dependencies->0[name] == core.dev_dependencies->0[name]
        }),
{
    let core = text_package(documents[0]->0);
    match core {
        Ok(base) => {
            lemma_merged_all_keeps_base(base, documents, name);
        },
        Err(_) => {},
    }
}

/// A copy plan with one source, of which nothing is left out.
pub open spec fn single_source(source: Seq<char>, destination: Seq<char>) -> CopierView {
    CopierView {
        sources: seq![SourceView { root: source, exclusions: Seq::<Seq<char>>::empty() }],
        destination,
    }
}

/// The copy plan with one source, of which nothing is left out.
pub fn single_source_plan(source: &str, destination: &str) -> (r: TemplateCopier)
    ensures
        r@ == single_source(source@, destination@),
{
    let mut copier = TemplateCopier::new(destination);
    let exclusions: Vec<&str> = Vec::new();
    assert(slices(exclusions@) =~= Seq::<Seq<char>>::empty());
    copier.add_source_with_exclusions(source, exclusions);
    assert(copier@.sources =~= single_source(source@, destination@).sources);
    copier
}

/// The template directory of a part of a project type.
fn template_path(project_type: &str, part: &str) -> (r: String)
    ensures
        r@ == template_dir(project_type@, part@),
{
    let mut r = "templates/".to_owned();
    r.append(project_type);
    r.append("/");
    r.append(part);
    r
}

/// Plans the generation of a project: the template directories of the
/// project type are copied into the project directory, the core first,
/// then the chosen linter and the chosen test framework, each without its
/// manifest; the manifests of the same directories are merged in the same
/// order into the manifest of the project.
pub fn handle_project(cli: &Cli) -> (plan: ProjectPlan)
    ensures
        plan.output_dir@ == output_dir(*cli),
        plan.copier@ == (CopierView { sources: plan_sources(*cli), destination: output_dir(*cli) }),
        texts(plan.package_paths@) == plan_manifests(*cli),
        plan.output_package_path@ == manifest_in(output_dir(*cli)),
{
    let mut output_dir = cli.output_path.clone();
    output_dir.append("/");
    output_dir.append(cli.project_name.as_str());

    let mut parts: Vec<&str> = Vec::new();
    parts.push("core");
    if let Some(linter) = &cli.linter {
        parts.push(linter.name());
    }
    if let Some(test_framework) = &cli.test_framework {
        parts.push(test_framework.name());
    }
    assert(slices(parts@) =~= template_parts(*cli));

    let mut copier = TemplateCopier::new(output_dir.as_str());
    let mut package_paths: Vec<String> = Vec::new();
    let mut i: usize = 0;
    assert(copier@.sources =~= plan_sources(*cli).take(0));
    assert(texts(package_paths@) =~= plan_manifests(*cli).take(0));
    while i < parts.len()
        invariant
            i <= parts@.len(),
            slices(parts@) == template_parts(*cli),
            copier@.destination == output_dir@,
            copier@.sources == plan_sources(*cli).take(i as int),
            texts(package_paths@) == plan_manifests(*cli).take(i as int),
        decreases parts@.len() - i,
    {
        let source = template_path(cli.project_type.as_str(), parts[i]);
        let mut manifest = source.clone();
        manifest.append("/package.json");
        let mut exclusions: Vec<&str> = Vec::new();
        exclusions.push("package.json");
        assert(slices(exclusions@) =~= seq!["package.json"@]);
        let ghost before = package_paths@;
        copier.add_source_with_exclusions(source.as_str(), exclusions);
        package_paths.push(manifest);
        proof {
            assert(slices(parts@)[i as int] == parts@[i as int]@);
            assert(plan_sources(*cli).take(i + 1) =~= plan_sources(*cli).take(i as int).push(
                template_source(cli.project_type@, template_parts(*cli)[i as int]),
            ));
            assert(texts(package_paths@) =~= texts(before).push(
                manifest_in(template_dir(cli.project_type@, template_parts(*cli)[i as int])),
            ));
            assert(texts(package_paths@) =~= plan_manifests(*cli).take(i + 1));
        }
        i += 1;
    }
    assert(plan_sources(*cli).take(i as int) =~= plan_sources(*cli));
    assert(plan_manifests(*cli).take(i as int) =~= plan_manifests(*cli));

    let mut output_package_path = output_dir.clone();
    output_package_path.append("/package.json");
    ProjectPlan { output_dir, copier, package_paths, output_package_path }
}

/// Merges the manifests of a plan, given the text of each: `None` for a
/// manifest that does not exist. The core manifest, which is the first,
/// must exist. Every manifest that exists is merged into it in order, the
/// core's own included, so both dependency fields of the result are tables.
pub fn merge_manifests(documents: &Vec<Option<String>>) -> (r: Result<Package, GenerationError>)
    ensures
        match assembled(document_views(documents@)) {
            Ok(package) => r matches Ok(merged) && merged@ == package,
            Err(fault) => r matches Err(e) && e == fault,
        },
{
    let ghost views = document_views(documents@);
    if documents.len() == 0 {
        return Err(GenerationError::MissingCore);
    }
    let core = match &documents[0] {
        Some(text) => text,
        None => {
            return Err(GenerationError::MissingCore);
        },
    };
    let mut merged = match Package::from_text(core.as_str()) {
        Ok(package) => package,
        Err(fault) => {
            return Err(GenerationError::Manifest(fault));
        },
    };
    let ghost base = merged@;
    let mut i: usize = 0;
    assert(views.take(0) =~= Seq::<Option<Seq<char>>>::empty());
    while i < documents.len()
        invariant
            i <= documents@.len(),
            views == document_views(documents@),
            views.len() > 0,
            views[0] is Some,
            text_package(views[0]->0) == Ok::<PackageView, ManifestError>(base),
            merged_all(base, views.take(i as int)) == Ok::<PackageView, ManifestError>(merged@),
        decreases documents@.len() - i,
    {
        proof {
            assert(views.take(i + 1).drop_last() =~= views.take(i as int));
            assert(views.take(i + 1).last() == views[i as int]);
        }
        match &documents[i] {
            Some(text) => {
                match Package::from_text(text.as_str()) {
                    Ok(overlay) => {
                        merged.merge_with(&overlay);
                    },
                    Err(fault) => {
                        proof {
                            lemma_fault_stands(base, views, i + 1);
                        }
                        return Err(GenerationError::Manifest(fault));
                    },
                }
            },
            None => {},
        }
        i += 1;
    }
    assert(views.take(i as int) =~= views);
    Ok(merged)
}

} // verus!
