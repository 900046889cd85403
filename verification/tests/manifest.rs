use scaffold::templates::package::{ManifestError, Package};
use scaffold::templates::table::DependencyTable;
use serde_json::{Number, Value};

fn pairs(entries: &[(&str, &str)]) -> Vec<(String, String)> {
    entries.iter().map(|(n, v)| (n.to_string(), v.to_string())).collect()
}

fn sorted(table: &Option<DependencyTable>) -> Option<Vec<(String, String)>> {
    table.as_ref().map(|t| {
        let mut p = t.pairs();
        p.sort();
        p
    })
}

fn some_pairs(entries: &[(&str, &str)]) -> Option<Vec<(String, String)>> {
    let mut p = pairs(entries);
    p.sort();
    Some(p)
}

fn read(text: &str) -> Package {
    Package::from_text(text).unwrap()
}

fn fault(text: &str) -> ManifestError {
    Package::from_text(text).unwrap_err()
}

fn object(members: Vec<(&str, Value)>) -> Value {
    let mut map = serde_json::Map::new();
    for (name, value) in members {
        map.insert(name.to_string(), value);
    }
    Value::Object(map)
}

#[test]
fn default_manifest_is_empty() {
    let p = Package::default();
    assert!(p.dependencies.is_none());
    assert!(p.dev_dependencies.is_none());
    assert!(p.other_fields.items().is_empty());
}

#[test]
fn from_text_reads_both_tables_and_the_rest() {
    let p = read(
        r#"{"name":"demo","version":"0.1.0","dependencies":{"foo":"1.0","bar":"^2"},
            "devDependencies":{"lint":"3"},"scripts":{"build":"tsc"},"private":true}"#,
    );
    assert_eq!(sorted(&p.dependencies), some_pairs(&[("foo", "1.0"), ("bar", "^2")]));
    assert_eq!(sorted(&p.dev_dependencies), some_pairs(&[("lint", "3")]));
    assert_eq!(p.extra_field("name"), Some(&Value::from("demo")));
    assert_eq!(p.extra_field("version"), Some(&Value::from("0.1.0")));
    assert_eq!(p.extra_field("private"), Some(&Value::Bool(true)));
    assert_eq!(
        p.extra_field("scripts"),
        Some(&object(vec![("build", Value::from("tsc"))]))
    );
    assert_eq!(p.other_fields.items().len(), 4);
}

#[test]
fn from_text_keeps_the_tables_out_of_the_other_fields() {
    let p = read(r#"{"dependencies":{"foo":"1.0"},"devDependencies":{}}"#);
    assert_eq!(p.extra_field("dependencies"), None);
    assert_eq!(p.extra_field("devDependencies"), None);
    assert!(p.other_fields.items().is_empty());
    assert_eq!(sorted(&p.dev_dependencies), some_pairs(&[]));
}

#[test]
fn from_text_reads_a_missing_table_as_absent() {
    let p = read(r#"{"name":"demo"}"#);
    assert!(p.dependencies.is_none());
    assert!(p.dev_dependencies.is_none());
}

#[test]
fn from_text_reads_a_null_table_as_absent() {
    let p = read(r#"{"dependencies":null,"devDependencies":{"a":"1"}}"#);
    assert!(p.dependencies.is_none());
    assert_eq!(sorted(&p.dev_dependencies), some_pairs(&[("a", "1")]));
}

#[test]
fn from_text_of_the_empty_object_is_the_empty_manifest() {
    let p = read("{}");
    assert!(p.dependencies.is_none());
    assert!(p.dev_dependencies.is_none());
    assert!(p.other_fields.items().is_empty());
}

#[test]
fn from_text_rejects_text_that_is_no_json() {
    assert_eq!(fault("{"), ManifestError::Syntax);
    assert_eq!(fault(""), ManifestError::Syntax);
    assert_eq!(fault(r#"{"a":1,}"#), ManifestError::Syntax);
    assert_eq!(fault("{} trailing"), ManifestError::Syntax);
}

#[test]
fn from_text_rejects_a_document_that_is_no_object() {
    assert_eq!(fault("[1,2]"), ManifestError::NotAnObject);
    assert_eq!(fault("null"), ManifestError::NotAnObject);
    assert_eq!(fault(r#""text""#), ManifestError::NotAnObject);
    assert_eq!(fault("42"), ManifestError::NotAnObject);
}

#[test]
fn from_text_rejects_dependencies_that_are_no_table() {
    assert_eq!(fault(r#"{"dependencies":5}"#), ManifestError::Dependencies);
    assert_eq!(fault(r#"{"dependencies":"foo"}"#), ManifestError::Dependencies);
    assert_eq!(fault(r#"{"dependencies":["foo"]}"#), ManifestError::Dependencies);
    assert_eq!(fault(r#"{"dependencies":{"foo":1}}"#), ManifestError::Dependencies);
    assert_eq!(fault(r#"{"dependencies":{"foo":null}}"#), ManifestError::Dependencies);
    assert_eq!(fault(r#"{"dependencies":{"a":"1","foo":{}}}"#), ManifestError::Dependencies);
}

#[test]
fn from_text_rejects_dev_dependencies_that_are_no_table() {
    assert_eq!(fault(r#"{"devDependencies":false}"#), ManifestError::DevDependencies);
    assert_eq!(
        fault(r#"{"dependencies":{"a":"1"},"devDependencies":{"b":2}}"#),
        ManifestError::DevDependencies
    );
}

#[test]
fn from_text_reports_the_runtime_table_first() {
    assert_eq!(
        fault(r#"{"devDependencies":1,"dependencies":2}"#),
        ManifestError::Dependencies
    );
}

#[test]
fn from_document_reads_a_built_document() {
    let doc = object(vec![
        ("name", Value::from("demo")),
        ("count", Value::Number(Number::from(3))),
        ("dependencies", object(vec![("foo", Value::from("1.0"))])),
        ("devDependencies", Value::Null),
    ]);
    let p = Package::from_document(&doc).unwrap();
    assert_eq!(sorted(&p.dependencies), some_pairs(&[("foo", "1.0")]));
    assert!(p.dev_dependencies.is_none());
    assert_eq!(p.extra_field("name"), Some(&Value::from("demo")));
    assert_eq!(p.extra_field("count"), Some(&Value::Number(Number::from(3))));
    assert_eq!(p.extra_field("missing"), None);
}

#[test]
fn from_document_rejects_what_is_no_object() {
    assert_eq!(
        Package::from_document(&Value::Array(vec![])).unwrap_err(),
        ManifestError::NotAnObject
    );
    assert_eq!(
        Package::from_document(&Value::from("dependencies")).unwrap_err(),
        ManifestError::NotAnObject
    );
    assert_eq!(Package::from_document(&Value::Null).unwrap_err(), ManifestError::NotAnObject);
}

#[test]
fn from_document_rejects_a_table_with_a_member_that_is_no_string() {
    let doc = object(vec![("dependencies", object(vec![("foo", Value::Bool(true))]))]);
    assert_eq!(Package::from_document(&doc).unwrap_err(), ManifestError::Dependencies);
    let doc = object(vec![("devDependencies", Value::from("x"))]);
    assert_eq!(Package::from_document(&doc).unwrap_err(), ManifestError::DevDependencies);
}

#[test]
fn to_document_holds_both_tables_and_the_rest() {
    let p = read(r#"{"name":"demo","dependencies":{"foo":"1.0"}}"#);
    let expected = object(vec![
        ("name", Value::from("demo")),
        ("dependencies", object(vec![("foo", Value::from("1.0"))])),
        ("devDependencies", Value::Null),
    ]);
    assert_eq!(p.to_document(), expected);
}

#[test]
fn to_document_of_the_empty_manifest_has_two_null_fields() {
    let expected =
        object(vec![("dependencies", Value::Null), ("devDependencies", Value::Null)]);
    assert_eq!(Package::default().to_document(), expected);
}

#[test]
fn to_text_prints_an_indented_document() {
    let p = read(r#"{"dependencies":{"foo":"1.0"}}"#);
    let expected = "{\n  \"dependencies\": {\n    \"foo\": \"1.0\"\n  },\n  \"devDependencies\": null\n}";
    assert_eq!(p.to_text(), Ok(expected.to_string()));
}

#[test]
fn to_text_prints_what_serde_json_prints_for_the_document() {
    let p = read(r#"{"name":"demo","list":[1,2.5,null],"devDependencies":{"a":"b"}}"#);
    let expected = serde_json::to_string_pretty(&p.to_document()).unwrap();
    assert_eq!(p.to_text(), Ok(expected));
}

#[test]
fn render_document_prints_any_document() {
    assert_eq!(Package::render_document(&Value::Null), Ok("null".to_string()));
    assert_eq!(
        Package::render_document(&Value::Array(vec![Value::from(1), Value::from("x")])),
        Ok("[\n  1,\n  \"x\"\n]".to_string())
    );
}

#[test]
fn reloading_a_document_gives_the_manifest_back() {
    let p = read(
        r#"{"name":"demo","nested":{"deep":[1,{"x":null}]},"dependencies":{"foo":"1.0"},
            "devDependencies":{"bar":"2.0","baz":"3.0"}}"#,
    );
    let again = Package::from_document(&p.to_document()).unwrap();
    assert_eq!(sorted(&again.dependencies), sorted(&p.dependencies));
    assert_eq!(sorted(&again.dev_dependencies), sorted(&p.dev_dependencies));
    let mut before = p.other_fields.items();
    let mut after = again.other_fields.items();
    before.sort_by(|a, b| a.0.cmp(&b.0));
    after.sort_by(|a, b| a.0.cmp(&b.0));
    assert_eq!(after, before);
}

#[test]
fn reloading_the_text_of_a_merged_manifest_gives_it_back() {
    let mut p = read(
        r#"{"name":"demo","version":"1.2.3","scripts":{"test":"jest"},"files":["a","b"],
            "dependencies":{"foo":"1.0"}}"#,
    );
    let overlay = read(r#"{"dependencies":{"foo":"9.9","bar":"2.0"},"devDependencies":{"l":"1"}}"#);
    p.merge_with(&overlay);
    let text = p.to_text().unwrap();
    let again = read(&text);
    assert_eq!(sorted(&again.dependencies), some_pairs(&[("foo", "1.0"), ("bar", "2.0")]));
    assert_eq!(sorted(&again.dev_dependencies), some_pairs(&[("l", "1")]));
    assert_eq!(sorted(&again.dependencies), sorted(&p.dependencies));
    assert_eq!(sorted(&again.dev_dependencies), sorted(&p.dev_dependencies));
    let mut before = p.other_fields.items();
    let mut after = again.other_fields.items();
    before.sort_by(|a, b| a.0.cmp(&b.0));
    after.sort_by(|a, b| a.0.cmp(&b.0));
    assert_eq!(after, before);
    assert_eq!(after.len(), 4);
}

#[test]
fn reloading_keeps_an_absent_table_absent() {
    let p = read(r#"{"devDependencies":{"a":"1"}}"#);
    let again = read(&p.to_text().unwrap());
    assert!(again.dependencies.is_none());
    assert_eq!(sorted(&again.dev_dependencies), some_pairs(&[("a", "1")]));
}

#[test]
fn merge_adds_a_new_package() {
    let mut base = read(r#"{"dependencies":{"foo":"1.0"}}"#);
    let overlay = read(r#"{"dependencies":{"bar":"2.0"}}"#);
    base.merge_with(&overlay);
    assert_eq!(sorted(&base.dependencies), some_pairs(&[("foo", "1.0"), ("bar", "2.0")]));
}

#[test]
fn merge_keeps_the_version_of_the_base() {
    let mut base = read(r#"{"dependencies":{"foo":"1.0"},"devDependencies":{"t":"1"}}"#);
    let overlay = read(r#"{"dependencies":{"foo":"9.9"},"devDependencies":{"t":"2"}}"#);
    base.merge_with(&overlay);
    assert_eq!(sorted(&base.dependencies), some_pairs(&[("foo", "1.0")]));
    assert_eq!(sorted(&base.dev_dependencies), some_pairs(&[("t", "1")]));
}

#[test]
fn merge_treats_the_two_tables_apart() {
    let mut base = read(r#"{"dependencies":{"foo":"1.0"}}"#);
    let overlay = read(r#"{"devDependencies":{"foo":"9.9"}}"#);
    base.merge_with(&overlay);
    assert_eq!(sorted(&base.dependencies), some_pairs(&[("foo", "1.0")]));
    assert_eq!(sorted(&base.dev_dependencies), some_pairs(&[("foo", "9.9")]));
}

#[test]
fn merge_makes_both_fields_tables() {
    let mut base = read("{}");
    base.merge_with(&read("{}"));
    assert_eq!(sorted(&base.dependencies), some_pairs(&[]));
    assert_eq!(sorted(&base.dev_dependencies), some_pairs(&[]));
    assert_eq!(
        base.to_text(),
        Ok("{\n  \"dependencies\": {},\n  \"devDependencies\": {}\n}".to_string())
    );
}

#[test]
fn merge_leaves_the_overlay_alone() {
    let mut base = read(r#"{"dependencies":{"foo":"1.0"}}"#);
    let overlay = read(r#"{"name":"overlay","dependencies":{"foo":"9.9","bar":"2.0"}}"#);
    base.merge_with(&overlay);
    assert_eq!(sorted(&overlay.dependencies), some_pairs(&[("foo", "9.9"), ("bar", "2.0")]));
    assert!(overlay.dev_dependencies.is_none());
    assert_eq!(overlay.extra_field("name"), Some(&Value::from("overlay")));
}

#[test]
fn merge_ignores_the_other_fields_of_the_overlay() {
    let mut base = read(r#"{"name":"core","scripts":{"a":"1"}}"#);
    let overlay = read(r#"{"name":"lint","license":"MIT","scripts":{"b":"2"}}"#);
    base.merge_with(&overlay);
    assert_eq!(base.extra_field("name"), Some(&Value::from("core")));
    assert_eq!(base.extra_field("license"), None);
    assert_eq!(base.extra_field("scripts"), Some(&object(vec![("a", Value::from("1"))])));
    assert_eq!(base.other_fields.items().len(), 2);
}

#[test]
fn merge_is_sensitive_to_the_order() {
    let core = r#"{"dependencies":{"shared":"core"}}"#;
    let linter = r#"{"dependencies":{"shared":"linter","only-linter":"1"}}"#;
    let tests = r#"{"dependencies":{"shared":"tests","only-linter":"2","only-tests":"3"}}"#;

    let mut forward = read(core);
    forward.merge_with(&read(linter));
    forward.merge_with(&read(tests));
    assert_eq!(
        sorted(&forward.dependencies),
        some_pairs(&[("shared", "core"), ("only-linter", "1"), ("only-tests", "3")])
    );

    let mut backward = read(tests);
    backward.merge_with(&read(linter));
    backward.merge_with(&read(core));
    assert_eq!(
        sorted(&backward.dependencies),
        some_pairs(&[("shared", "tests"), ("only-linter", "2"), ("only-tests", "3")])
    );
}

#[test]
fn merge_with_itself_changes_no_version() {
    let text = r#"{"dependencies":{"a":"1","b":"2"},"devDependencies":{"c":"3"}}"#;
    let mut base = read(text);
    base.merge_with(&read(text));
    assert_eq!(sorted(&base.dependencies), some_pairs(&[("a", "1"), ("b", "2")]));
    assert_eq!(sorted(&base.dev_dependencies), some_pairs(&[("c", "3")]));
}

#[test]
fn tables_can_be_set_by_hand() {
    let mut p = Package::default();
    let mut t = DependencyTable::new();
    t.insert("foo".to_string(), "1.0".to_string());
    p.dependencies = Some(t);
    let expected = object(vec![
        ("dependencies", object(vec![("foo", Value::from("1.0"))])),
        ("devDependencies", Value::Null),
    ]);
    assert_eq!(p.to_document(), expected);
}

#[test]
fn messages_name_the_fault() {
    assert_eq!(ManifestError::Syntax.message(), "the manifest is not valid JSON");
    assert_eq!(ManifestError::NotAnObject.message(), "the manifest is not a JSON object");
    assert_eq!(
        ManifestError::Dependencies.message(),
        "`dependencies` is not an object of strings"
    );
    assert_eq!(
        ManifestError::DevDependencies.message(),
        "`devDependencies` is not an object of strings"
    );
    assert_eq!(ManifestError::Render.message(), "the manifest could not be printed");
}
