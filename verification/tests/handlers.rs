use scaffold::cli::{Cli, Linter, SubType, TestFramework};
use scaffold::handlers::deno::handle_deno;
use scaffold::handlers::nodejs::handle_nodejs;
use scaffold::handlers::rust::handle_rust;
use scaffold::handlers::{handle_project, merge_manifests, single_source_plan, GenerationError};
use scaffold::templates::package::ManifestError;
use scaffold::templates::tree::{Node, TreeEntry};
use serde_json::Value;

fn cli(project_type: &str, linter: Option<Linter>, test_framework: Option<TestFramework>) -> Cli {
    Cli {
        project_name: "demo".to_string(),
        output_path: "out".to_string(),
        project_type: project_type.to_string(),
        linter,
        test_framework,
        interactive: false,
    }
}

fn file(at: &str, content: &str) -> TreeEntry {
    TreeEntry {
        path: at.split('/').map(|s| s.to_string()).collect(),
        node: Node::File(content.as_bytes().to_vec()),
    }
}

fn paths(entries: &[TreeEntry]) -> Vec<String> {
    entries.iter().map(|e| e.path.join("/")).collect()
}

fn json(text: &str) -> Value {
    serde_json::from_str(text).unwrap()
}

#[test]
fn plan_of_a_bare_project_has_the_core_only() {
    let plan = handle_project(&cli("nodejs", None, None));
    assert_eq!(plan.output_dir, "out/demo");
    assert_eq!(plan.copier.destination(), "out/demo");
    assert_eq!(plan.copier.source_paths(), vec!["templates/nodejs/core"]);
    assert_eq!(plan.package_paths, vec!["templates/nodejs/core/package.json"]);
    assert_eq!(plan.output_package_path, "out/demo/package.json");
}

#[test]
fn plan_with_both_add_ons_lists_core_linter_tests() {
    let plan = handle_project(&cli("nestjs", Some(Linter::Biome), Some(TestFramework::MochaSinon)));
    assert_eq!(
        plan.copier.source_paths(),
        vec!["templates/nestjs/core", "templates/nestjs/biome", "templates/nestjs/mocha-sinon"]
    );
    assert_eq!(
        plan.package_paths,
        vec![
            "templates/nestjs/core/package.json",
            "templates/nestjs/biome/package.json",
            "templates/nestjs/mocha-sinon/package.json",
        ]
    );
}

#[test]
fn plan_with_a_test_framework_only_has_no_linter() {
    let plan = handle_project(&cli("deno", None, Some(TestFramework::Vitest)));
    assert_eq!(plan.copier.source_paths(), vec!["templates/deno/core", "templates/deno/vitest"]);
    assert_eq!(
        plan.package_paths,
        vec!["templates/deno/core/package.json", "templates/deno/vitest/package.json"]
    );
}

#[test]
fn plan_joins_the_output_path_and_the_name_with_a_separator() {
    let mut request = cli("nodejs", None, None);
    request.output_path = ".".to_string();
    request.project_name = "new_project".to_string();
    let plan = handle_project(&request);
    assert_eq!(plan.output_dir, "./new_project");
    assert_eq!(plan.output_package_path, "./new_project/package.json");
    request.output_path = "out/".to_string();
    assert_eq!(handle_project(&request).output_dir, "out//new_project");
}

#[test]
fn plan_leaves_the_manifest_out_of_every_source() {
    let plan = handle_project(&cli("nodejs", Some(Linter::Eslint), Some(TestFramework::Jest)));
    let trees = vec![
        Some(vec![file("package.json", "{}"), file("index.js", "core")]),
        Some(vec![file("package.json", "{}"), file(".eslintrc", "lint")]),
        Some(vec![file("package.json", "{}"), file("jest.config.js", "jest")]),
    ];
    let r = plan.copier.copy(&trees);
    assert_eq!(paths(&r), vec!["index.js", ".eslintrc", "jest.config.js"]);
}

#[test]
fn scenario_api_server_with_a_linter_and_no_test_framework() {
    let plan = handle_project(&cli("api-server", Some(Linter::Eslint), None));
    assert_eq!(
        plan.package_paths,
        vec!["templates/api-server/core/package.json", "templates/api-server/eslint/package.json"]
    );
    let documents = vec![
        Some(r#"{"dependencies":{"foo":"1.0"}}"#.to_string()),
        Some(r#"{"devDependencies":{"lintA-pkg":"2.0"},"dependencies":{"foo":"9.9"}}"#.to_string()),
    ];
    let merged = merge_manifests(&documents).unwrap();
    let text = merged.to_text().unwrap();
    assert_eq!(
        json(&text),
        json(r#"{"dependencies":{"foo":"1.0"},"devDependencies":{"lintA-pkg":"2.0"}}"#)
    );
}

#[test]
fn scenario_missing_test_framework_template_is_passed_over() {
    let plan = handle_project(&cli("nodejs", Some(Linter::Eslint), Some(TestFramework::Jest)));
    let trees = vec![
        Some(vec![file("package.json", "{}"), file("index.js", "core")]),
        Some(vec![file("package.json", "{}"), file(".eslintrc", "lint")]),
        None,
    ];
    let r = plan.copier.copy(&trees);
    assert_eq!(paths(&r), vec!["index.js", ".eslintrc"]);

    let documents = vec![
        Some(r#"{"name":"core","dependencies":{"a":"1"}}"#.to_string()),
        Some(r#"{"devDependencies":{"eslint":"9"}}"#.to_string()),
        None,
    ];
    let merged = merge_manifests(&documents).unwrap();
    assert_eq!(
        json(&merged.to_text().unwrap()),
        json(r#"{"name":"core","dependencies":{"a":"1"},"devDependencies":{"eslint":"9"}}"#)
    );
}

#[test]
fn merge_of_the_core_alone_makes_both_fields_tables() {
    let merged = merge_manifests(&vec![Some(r#"{"name":"core"}"#.to_string())]).unwrap();
    assert_eq!(
        json(&merged.to_text().unwrap()),
        json(r#"{"name":"core","dependencies":{},"devDependencies":{}}"#)
    );
}

#[test]
fn merge_keeps_the_core_version_through_every_overlay() {
    let documents = vec![
        Some(r#"{"dependencies":{"shared":"core"}}"#.to_string()),
        Some(r#"{"dependencies":{"shared":"linter","l":"1"}}"#.to_string()),
        Some(r#"{"dependencies":{"shared":"tests","l":"2","t":"3"}}"#.to_string()),
    ];
    let merged = merge_manifests(&documents).unwrap();
    assert_eq!(
        json(&merged.to_text().unwrap()),
        json(r#"{"dependencies":{"shared":"core","l":"1","t":"3"},"devDependencies":{}}"#)
    );
}

#[test]
fn merge_takes_the_other_fields_from_the_core_only() {
    let documents = vec![
        Some(r#"{"name":"core","scripts":{"start":"node ."}}"#.to_string()),
        Some(r#"{"name":"lint","scripts":{"lint":"eslint ."},"license":"MIT"}"#.to_string()),
    ];
    let merged = merge_manifests(&documents).unwrap();
    assert_eq!(
        json(&merged.to_text().unwrap()),
        json(
            r#"{"name":"core","scripts":{"start":"node ."},"dependencies":{},"devDependencies":{}}"#
        )
    );
}

#[test]
fn merge_needs_the_core_manifest() {
    assert_eq!(merge_manifests(&vec![]).unwrap_err(), GenerationError::MissingCore);
    assert_eq!(
        merge_manifests(&vec![None, Some("{}".to_string())]).unwrap_err(),
        GenerationError::MissingCore
    );
}

#[test]
fn merge_fails_on_a_manifest_that_cannot_be_read() {
    assert_eq!(
        merge_manifests(&vec![Some("{".to_string())]).unwrap_err(),
        GenerationError::Manifest(ManifestError::Syntax)
    );
    assert_eq!(
        merge_manifests(&vec![Some("{}".to_string()), Some("[]".to_string())]).unwrap_err(),
        GenerationError::Manifest(ManifestError::NotAnObject)
    );
    assert_eq!(
        merge_manifests(&vec![
            Some("{}".to_string()),
            None,
            Some(r#"{"devDependencies":3}"#.to_string()),
        ])
        .unwrap_err(),
        GenerationError::Manifest(ManifestError::DevDependencies)
    );
}

#[test]
fn merge_reports_the_first_fault() {
    assert_eq!(
        merge_manifests(&vec![
            Some("{}".to_string()),
            Some(r#"{"dependencies":1}"#.to_string()),
            Some("not json".to_string()),
        ])
        .unwrap_err(),
        GenerationError::Manifest(ManifestError::Dependencies)
    );
}

#[test]
fn single_source_plan_leaves_nothing_out() {
    let copier = single_source_plan("templates/x", "out/demo");
    assert_eq!(copier.destination(), "out/demo");
    assert_eq!(copier.source_paths(), vec!["templates/x"]);
    let r = copier.copy(&vec![Some(vec![file("package.json", "{}"), file("a", "a")])]);
    assert_eq!(paths(&r), vec!["package.json", "a"]);
}

#[test]
fn deno_plan_copies_the_default_template() {
    let copier = handle_deno(cli("deno", None, None));
    assert_eq!(copier.destination(), "out/demo");
    assert_eq!(copier.source_paths(), vec!["templates/rust/default"]);
}

#[test]
fn rust_plan_picks_the_template_by_the_project_type() {
    let copier = handle_rust(cli("rust", None, None));
    assert_eq!(copier.source_paths(), vec!["templates/rust/default"]);
    assert_eq!(copier.destination(), "out/demo");
    let copier = handle_rust(cli("rust-workspace", None, None));
    assert_eq!(copier.source_paths(), vec!["templates/rust/workspace"]);
    let copier = handle_rust(cli("", None, None));
    assert_eq!(copier.source_paths(), vec!["templates/rust/workspace"]);
}

#[test]
fn nodejs_plan_picks_the_template_by_flavour_and_linter() {
    let cases = [
        (Some(SubType::Js), Some(Linter::Eslint), "templates/nodejs/js/eslint"),
        (Some(SubType::Js), Some(Linter::Biome), "templates/nodejs/js/biome"),
        (Some(SubType::Ts), Some(Linter::Eslint), "templates/nodejs/ts/eslint"),
        (Some(SubType::Ts), Some(Linter::Biome), "templates/nodejs/ts/biome"),
        (Some(SubType::Js), None, "templates/nodejs/js"),
        (Some(SubType::Ts), None, "templates/nodejs/ts"),
        (None, None, "templates/nodejs/ts/eslint"),
        (None, Some(Linter::Biome), "templates/nodejs/ts/eslint"),
        (None, Some(Linter::Eslint), "templates/nodejs/ts/eslint"),
    ];
    for (subtype, linter, expected) in cases {
        let copier = handle_nodejs(cli("nodejs", linter, None), subtype);
        assert_eq!(copier.source_paths(), vec![expected]);
        assert_eq!(copier.destination(), "out/demo");
    }
}

#[test]
fn single_template_plans_join_the_output_path_as_a_path() {
    let mut request = cli("rust", None, None);
    request.output_path = "out/".to_string();
    assert_eq!(handle_rust(request.clone()).destination(), "out/demo");
    request.output_path = "".to_string();
    assert_eq!(handle_deno(request.clone()).destination(), "demo");
    request.project_name = "/srv/demo".to_string();
    assert_eq!(handle_nodejs(request, None).destination(), "/srv/demo");
}
