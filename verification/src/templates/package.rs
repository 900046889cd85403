//! The manifest of a template: two dependency tables and whatever else the
//! document holds, and the merge of one manifest into another.

use crate::templates::fields::{
    dependencies_name, dev_dependencies_name, lemma_lists_unique, lemma_object_lists,
    lemma_reserved_names_differ, object_of, reserved, ExtraFields,
};
use crate::templates::json::{
    distinct_names, duplicate, is_null, lists, make_null, make_object, make_string, members,
    null, object_members, parse, parsed, render, rendered, string_text, text_of,
};
use crate::templates::table::{merged_table, DependencyTable};
use serde_json::Value;
use vstd::prelude::*;

verus! {

/// Why a manifest could not be read or written.
#[derive(Clone, Copy, Debug, PartialEq, Eq, Structural)]
pub enum ManifestError {
    /// The text is no JSON document.
    Syntax,
    /// The document is no JSON object.
    NotAnObject,
    /// The `dependencies` field is neither null nor an object of strings.
    Dependencies,
    /// The `devDependencies` field is neither null nor an object of strings.
    DevDependencies,
    /// The document could not be printed.
    Render,
}

impl ManifestError {
    /// A sentence that says what went wrong.
    pub fn message(&self) -> (r: &'static str)
        ensures
            r@ == match *self {
                ManifestError::Syntax => "the manifest is not valid JSON"@,
                ManifestError::NotAnObject => "the manifest is not a JSON object"@,
                ManifestError::Dependencies => "`dependencies` is not an object of strings"@,
                ManifestError::DevDependencies => "`devDependencies` is not an object of strings"@,
                ManifestError::Render => "the manifest could not be printed"@,
            },
    {
        match self {
            ManifestError::Syntax => "the manifest is not valid JSON",
            ManifestError::NotAnObject => "the manifest is not a JSON object",
            ManifestError::Dependencies => "`dependencies` is not an object of strings",
            ManifestError::DevDependencies => "`devDependencies` is not an object of strings",
            ManifestError::Render => "the manifest could not be printed",
        }
    }
}

/// The manifest that a text stands for, or why it stands for none.
pub open spec fn text_package(text: Seq<char>) -> Result<PackageView, ManifestError> {
    match parsed(text) {
        Some(doc) => document_package(doc),
        None => Err(ManifestError::Syntax),
    }
}

/// What reading owes for a text or a document that stands for a manifest
/// or for none: that manifest, or the reason.
pub open spec fn reads(
    expected: Result<PackageView, ManifestError>,
    r: Result<Package, ManifestError>,
) -> bool {
    match expected {
        Ok(package) => r matches Ok(read) && read@ == package,
        Err(fault) => r == Err::<Package, ManifestError>(fault),
    }
}

/// A manifest as a mathematical value.
pub struct PackageView {
    /// The fields besides the two dependency tables, by name.
    pub extra: Map<Seq<char>, Value>,
    /// The runtime dependencies, where the manifest has the field.
    pub dependencies: Option<Map<Seq<char>, Seq<char>>>,
    /// The development dependencies, where the manifest has the field.
    pub dev_dependencies: Option<Map<Seq<char>, Seq<char>>>,
}

/// The table that a document stands for: it is an object, and each of its
/// members is a string.
pub open spec fn table_reading(doc: Value) -> Option<Map<Seq<char>, Seq<char>>> {
    match members(doc) {
        Some(object) => if forall|name: Seq<char>| #[trigger]
            object.contains_key(name) ==> text_of(object[name]) is Some {
            Some(object.map_values(|member: Value| text_of(member)->0))
        } else {
            None
        },
        None => None,
    }
}

/// How one of the two dependency fields of an object reads. A field that
/// is missing or null is an absent table; a field that is no table is
/// invalid, which the outer `None` says.
pub open spec fn section_reading(object: Map<Seq<char>, Value>, name: Seq<char>) -> Option<
    Option<Map<Seq<char>, Seq<char>>>,
> {
    if !object.contains_key(name) || is_null(object[name]) {
        Some(None)
    } else {
        match table_reading(object[name]) {
            Some(table) => Some(Some(table)),
            None => None,
        }
    }
}

/// The manifest that a document stands for, or why it stands for none.
pub open spec fn document_package(doc: Value) -> Result<PackageView, ManifestError> {
    match members(doc) {
        None => Err(ManifestError::NotAnObject),
        Some(object) => match section_reading(object, dependencies_name()) {
            None => Err(ManifestError::Dependencies),
            Some(dependencies) => match section_reading(object, dev_dependencies_name()) {
                None => Err(ManifestError::DevDependencies),
                Some(dev_dependencies) => Ok(
                    PackageView {
                        extra: object.remove(dependencies_name()).remove(dev_dependencies_name()),
                        dependencies,
                        dev_dependencies,
                    },
                ),
            },
        },
    }
}

/// A document stands for a dependency field: null for an absent table,
/// else an object of strings that reads as the table.
pub open spec fn encodes_section(doc: Value, section: Option<Map<Seq<char>, Seq<char>>>) -> bool {
    match section {
        None => is_null(doc),
        Some(table) => !is_null(doc) && table_reading(doc) == Some(table),
    }
}

/// A document stands for a manifest: it is an object that holds the two
/// dependency fields under their names, and the manifest's other fields
/// unchanged.
pub open spec fn encodes(doc: Value, package: PackageView) -> bool {
    &&& members(doc) matches Some(object)
    &&& object.contains_key(dependencies_name())
    &&& encodes_section(object[dependencies_name()], package.dependencies)
    &&& object.contains_key(dev_dependencies_name())
    &&& encodes_section(object[dev_dependencies_name()], package.dev_dependencies)
    &&& object.remove(dependencies_name()).remove(dev_dependencies_name()) == package.extra
}

/// What a dependency field of the base becomes in a merge: always a
/// table, which holds the base's entries and those of the overlay whose
/// names the base lacks.
pub open spec fn merged_section(
    base: Option<Map<Seq<char>, Seq<char>>>,
    overlay: Option<Map<Seq<char>, Seq<char>>>,
) -> Option<Map<Seq<char>, Seq<char>>> {
    let base_table = match base {
        Some(table) => table,
        None => Map::empty(),
    };
    let overlay_table = match overlay {
        Some(table) => table,
        None => Map::empty(),
    };
    Some(merged_table(base_table, overlay_table))
}

/// What a base manifest becomes when an overlay is merged into it: each
/// dependency field is merged, and the other fields stay those of the base.
pub open spec fn merged_package(base: PackageView, overlay: PackageView) -> PackageView {
    PackageView {
        extra: base.extra,
        dependencies: merged_section(base.dependencies, overlay.dependencies),
        dev_dependencies: merged_section(base.dev_dependencies, overlay.dev_dependencies),
    }
}

/// The view of a table that may be absent.
pub open spec fn section_view(section: Option<DependencyTable>) -> Option<
    Map<Seq<char>, Seq<char>>,
> {
    match section {
        Some(table) => Some(table@),
        None => None,
    }
}

/// What a base manifest becomes when a list of overlays is merged into
/// it, one after the other.
pub open spec fn merged_sequence(base: PackageView, overlays: Seq<PackageView>) -> PackageView
    decreases overlays.len(),
{
    if overlays.len() == 0 {
        base
    } else {
        merged_package(merged_sequence(base, overlays.drop_last()), overlays.last())
    }
}

/// Whether a dependency field declares a package.
pub open spec fn section_declares(
    section: Option<Map<Seq<char>, Seq<char>>>,
    name: Seq<char>,
) -> bool {
    section matches Some(table) && table.contains_key(name)
}

/// A merge adds what is new: a package that only the overlay declares is
/// declared by the merged field, with the overlay's version.
pub proof fn lemma_merge_adds_new(
    base: Option<Map<Seq<char>, Seq<char>>>,
    overlay: Option<Map<Seq<char>, Seq<char>>>,
    name: Seq<char>,
)
    requires
        section_declares(overlay, name),
        !section_declares(base, name),
    ensures
        section_declares(merged_section(base, overlay), name),
        merged_section(base, overlay)->0[name] == overlay->0[name],
{
}

/// First writer wins: a package that the base declares keeps the base's
/// version in the merged field, whatever the overlay declares.
pub proof fn lemma_merge_keeps_existing(
    base: Option<Map<Seq<char>, Seq<char>>>,
    overlay: Option<Map<Seq<char>, Seq<char>>>,
    name: Seq<char>,
)
    requires
        section_declares(base, name),
    ensures
        section_declares(merged_section(base, overlay), name),
        merged_section(base, overlay)->0[name] == base->0[name],
{
}

/// A merge declares nothing that neither side declares.
pub proof fn lemma_merge_adds_nothing_else(
    base: Option<Map<Seq<char>, Seq<char>>>,
    overlay: Option<Map<Seq<char>, Seq<char>>>,
    name: Seq<char>,
)
    requires
        !section_declares(base, name),
        !section_declares(overlay, name),
    ensures
        !section_declares(merged_section(base, overlay), name),
{
}

/// Merging a manifest into itself changes no table that it has, and
/// makes an empty table of one that it lacks.
pub proof fn lemma_merge_with_itself(package: PackageView)
    ensures
        merged_package(package, package).extra == package.extra,
        merged_package(package, package).dependencies == merged_section(
            package.dependencies,
            None,
        ),
        merged_package(package, package).dev_dependencies == merged_section(
            package.dev_dependencies,
            None,
        ),
        package.dependencies is Some ==> merged_package(package, package).dependencies
            == package.dependencies,
        package.dev_dependencies is Some ==> merged_package(package, package).dev_dependencies
            == package.dev_dependencies,
{
    let empty = Map::<Seq<char>, Seq<char>>::empty();
    match package.dependencies {
        Some(table) => {
            assert(merged_table(table, table) =~= table);
            assert(merged_table(table, empty) =~= table);
        },
        None => {
            assert(merged_table(empty, empty) =~= empty);
        },
    }
    match package.dev_dependencies {
        Some(table) => {
            assert(merged_table(table, table) =~= table);
            assert(merged_table(table, empty) =~= table);
        },
        None => {
            assert(merged_table(empty, empty) =~= empty);
        },
    }
}

/// The order of a merge decides: where two manifests declare the same
/// package, each order of merging them keeps the version of the one that
/// is merged into.
pub proof fn lemma_merge_order_decides(first: PackageView, second: PackageView, name: Seq<char>)
    requires
        section_declares(first.dependencies, name),
        section_declares(second.dependencies, name),
    ensures
        merged_package(first, second).dependencies->0[name] == first.dependencies->0[name],
        merged_package(second, first).dependencies->0[name] == second.dependencies->0[name],
{
}

/// Through any list of overlays, a package that the base declares keeps
/// the base's version, among the runtime and among the development
/// dependencies, and the other fields stay those of the base.
pub proof fn lemma_base_wins(base: PackageView, overlays: Seq<PackageView>, name: Seq<char>)
    ensures
        merged_sequence(base, overlays).extra == base.extra,
        section_declares(base.dependencies, name) ==> section_declares(
            merged_sequence(base, overlays).dependencies,
            name,
        ) && merged_sequence(base, overlays).dependencies->0[name] == base.dependencies->0[name],
        section_declares(base.dev_dependencies, name) ==> section_declares(
            merged_sequence(base, overlays).dev_dependencies,
            name,
        ) && merged_sequence(base, overlays).dev_dependencies->0[name]
            == base.dev_dependencies->0[name],
    decreases overlays.len(),
{
    if overlays.len() > 0 {
        lemma_base_wins(base, overlays.drop_last(), name);
    }
}

/// A document that stands for a manifest reads as that manifest.
pub proof fn lemma_reload(doc: Value, package: PackageView)
    requires
        encodes(doc, package),
    ensures
        document_package(doc) == Ok::<PackageView, ManifestError>(package),
{
}

/// Some member before the given place in the list carries the name.
spec fn named_before(items: Seq<(String, Value)>, end: int, name: Seq<char>) -> bool {
    exists|j: int| 0 <= j < end && j < items.len() && (#[trigger] items[j]).0@ == name
}

/// Reads a document as a dependency table.
fn read_table(doc: &Value) -> (r: Option<DependencyTable>)
    ensures
        section_view(r) == table_reading(*doc),
{
    let items = match object_members(doc) {
        Some(items) => items,
        None => {
            return None;
        },
    };
    let ghost object = members(*doc)->0;
    let mut table = DependencyTable::new();
    let mut i: usize = 0;
    while i < items.len()
        invariant
            i <= items@.len(),
            lists(items@, object),
            members(*doc) == Some(object),
            forall|j: int|
                0 <= j < i ==> text_of((#[trigger] items@[j]).1) is Some && table@.contains_key(
                    items@[j].0@,
                ) && table@[items@[j].0@] == text_of(items@[j].1)->0,
            forall|name: Seq<char>| #[trigger]
                table@.contains_key(name) ==> named_before(items@, i as int, name),
        decreases items@.len() - i,
    {
        let text = match string_text(&items[i].1) {
            Some(text) => text,
            None => {
                assert(object.contains_key(items@[i as int].0@));
                return None;
            },
        };
        let ghost before = table@;
        proof {
            if before.contains_key(items@[i as int].0@) {
                let current = items@[i as int].0@;
                let j = choose|j: int|
                    0 <= j < i && j < items@.len() && (#[trigger] items@[j]).0@ == current;
                assert(items@[j].0@ != items@[i as int].0@);
            }
        }
        table.insert_absent(items[i].0.clone(), text);
        proof {
            assert forall|j: int| 0 <= j < i + 1 implies text_of((#[trigger] items@[j]).1) is Some
                && table@.contains_key(items@[j].0@) && table@[items@[j].0@] == text_of(
                items@[j].1,
            )->0 by {
                if j < i {
                    assert(items@[j].0@ != items@[i as int].0@);
                }
            }
            assert forall|name: Seq<char>| #[trigger]
                table@.contains_key(name) implies named_before(items@, i + 1, name) by {
                if name == items@[i as int].0@ {
                    assert(items@[i as int].0@ == name);
                } else {
                    assert(before.contains_key(name));
                    let j = choose|j: int|
                        0 <= j < i && j < items@.len() && (#[trigger] items@[j]).0@ == name;
                    assert(items@[j].0@ == name);
                }
            }
        }
        i += 1;
    }
    proof {
        assert forall|name: Seq<char>| #[trigger] object.contains_key(name) implies text_of(
            object[name],
        ) is Some && table@.contains_key(name) && table@[name] == text_of(object[name])->0 by {
            let j = choose|j: int| 0 <= j < items@.len() && (#[trigger] items@[j]).0@ == name;
            assert(object[items@[j].0@] == items@[j].1);
        }
        assert forall|name: Seq<char>| #[trigger]
            table@.contains_key(name) implies object.contains_key(name) by {
            let j = choose|j: int|
                0 <= j < i && j < items@.len() && (#[trigger] items@[j]).0@ == name;
            assert(object.contains_key(items@[j].0@));
        }
        assert(table@ =~= object.map_values(|member: Value| text_of(member)->0));
    }
    Some(table)
}

/// Reads one of the two dependency fields out of the members of an
/// object. The outer `None` says that the field is no table.
fn read_section(items: &Vec<(String, Value)>, name: &str) -> (r: Option<Option<DependencyTable>>)
    requires
        distinct_names(items@),
    ensures
        match section_reading(object_of(items@), name@) {
            Some(section) => r matches Some(table) && section_view(table) == section,
            None => r is None,
        },
{
    proof {
        lemma_object_lists(items@);
    }
    let key = name.to_owned();
    let mut i: usize = 0;
    while i < items.len()
        invariant
            i <= items@.len(),
            key@ == name@,
            lists(items@, object_of(items@)),
            forall|j: int| 0 <= j < i ==> (#[trigger] items@[j]).0@ != name@,
        decreases items@.len() - i,
    {
        if items[i].0 == key {
            assert(object_of(items@).contains_key(items@[i as int].0@));
            assert(object_of(items@)[items@[i as int].0@] == items@[i as int].1);
            if null(&items[i].1) {
                return Some(None);
            }
            return match read_table(&items[i].1) {
                Some(table) => Some(Some(table)),
                None => None,
            };
        }
        i += 1;
    }
    proof {
        if object_of(items@).contains_key(name@) {
            let j = choose|j: int| 0 <= j < items@.len() && (#[trigger] items@[j]).0@ == name@;
            assert(items@[j].0@ != name@);
        }
    }
    Some(None)
}

/// The document that stands for a dependency field.
fn section_document(section: &Option<DependencyTable>) -> (doc: Value)
    ensures
        encodes_section(doc, section_view(*section)),
{
    let table = match section {
        Some(table) => table,
        None => {
            return make_null();
        },
    };
    let pairs = table.pairs();
    let mut items: Vec<(String, Value)> = Vec::new();
    let mut i: usize = 0;
    while i < pairs.len()
        invariant
            i <= pairs@.len(),
            items@.len() == i,
            forall|j: int|
                0 <= j < i ==> (#[trigger] items@[j]).0@ == pairs@[j].0@ && text_of(items@[j].1)
                    == Some(pairs@[j].1@),
        decreases pairs@.len() - i,
    {
        items.push((pairs[i].0.clone(), make_string(pairs[i].1.as_str())));
        i += 1;
    }
    proof {
        assert forall|a: int, b: int| 0 <= a < b < items@.len() implies (#[trigger] items@[a]).0@
            != (#[trigger] items@[b]).0@ by {
            assert(pairs@[a].0@ != pairs@[b].0@);
        }
    }
    let doc = make_object(items);
    proof {
        let object = members(doc)->0;
        assert forall|name: Seq<char>| #[trigger] object.contains_key(name) implies text_of(
            object[name],
        ) is Some && table@.contains_key(name) && table@[name] == text_of(object[name])->0 by {
            let j = choose|j: int| 0 <= j < items@.len() && (#[trigger] items@[j]).0@ == name;
            assert(object[items@[j].0@] == items@[j].1);
            assert(table@.contains_key(pairs@[j].0@));
        }
        assert forall|name: Seq<char>| #[trigger]
            table@.contains_key(name) implies object.contains_key(name) by {
            let j = choose|j: int| 0 <= j < pairs@.len() && (#[trigger] pairs@[j]).0@ == name;
            assert(object.contains_key(items@[j].0@));
        }
        assert(table@ =~= object.map_values(|member: Value| text_of(member)->0));
    }
    doc
}

/// One of the two dependency fields of a manifest.
#[derive(Clone, Copy, Debug, PartialEq, Eq)]
pub enum Section {
    /// The field `dependencies`.
    Dependencies,
    /// The field `devDependencies`.
    DevDependencies,
}

/// A dependency manifest.
#[derive(Debug)]
pub struct Package {
    /// The fields besides the two dependency tables.
    pub other_fields: ExtraFields,
    /// The runtime dependencies.
    pub dependencies: Option<DependencyTable>,
    /// The development dependencies.
    pub dev_dependencies: Option<DependencyTable>,
}

impl View for Package {
    type V = PackageView;

    open spec fn view(&self) -> PackageView {
        PackageView {
            extra: self.other_fields@,
            dependencies: section_view(self.dependencies),
            dev_dependencies: section_view(self.dev_dependencies),
        }
    }
}

impl Default for Package {
    /// The manifest without any field.
    fn default() -> (r: Self)
        ensures
            r@.extra == Map::<Seq<char>, Value>::empty(),
            r@.dependencies is None,
            r@.dev_dependencies is None,
    {
        Package { other_fields: ExtraFields::new(), dependencies: None, dev_dependencies: None }
    }
}

impl Package {
    /// The value of a field besides the two dependency tables.
    pub fn extra_field(&self, name: &str) -> (r: Option<&Value>)
        ensures
            r is Some <==> self@.extra.contains_key(name@),
            r matches Some(value) ==> *value == self@.extra[name@],
    {
        self.other_fields.get(name)
    }

    /// Reads a manifest out of a document. The document must be an object;
    /// each of the two dependency fields must be missing, null or an
    /// object of strings; every other member becomes an extra field.
    pub fn from_document(doc: &Value) -> (r: Result<Package, ManifestError>)
        ensures
            reads(document_package(*doc), r),
    {
        let items = match object_members(doc) {
            Some(items) => items,
            None => {
                return Err(ManifestError::NotAnObject);
            },
        };
        let ghost object = members(*doc)->0;
        proof {
            lemma_object_lists(items@);
            lemma_lists_unique(items@, object, object_of(items@));
            lemma_reserved_names_differ();
        }
        let dependencies = match read_section(&items, "dependencies") {
            Some(section) => section,
            None => {
                return Err(ManifestError::Dependencies);
            },
        };
        let dev_dependencies = match read_section(&items, "devDependencies") {
            Some(section) => section,
            None => {
                return Err(ManifestError::DevDependencies);
            },
        };
        let mut other_fields = ExtraFields::new();
        let mut i: usize = 0;
        while i < items.len()
            invariant
                i <= items@.len(),
                lists(items@, object),
                forall|j: int|
                    0 <= j < i && !reserved((#[trigger] items@[j]).0@)
                        ==> other_fields@.contains_key(items@[j].0@) && other_fields@[items@[j].0@]
                        == items@[j].1,
                forall|name: Seq<char>| #[trigger]
                    other_fields@.contains_key(name) ==> !reserved(name) && named_before(
                        items@,
                        i as int,
                        name,
                    ),
            decreases items@.len() - i,
        {
            let ghost before = other_fields@;
            proof {
                if before.contains_key(items@[i as int].0@) {
                    let j = choose|j: int|
                        0 <= j < i && j < items@.len() && (#[trigger] items@[j]).0@
                            == items@[i as int].0@;
                    assert(items@[j].0@ != items@[i as int].0@);
                }
            }
            other_fields.insert_absent(items[i].0.clone(), duplicate(&items[i].1));
            proof {
                assert forall|j: int|
                    0 <= j < i + 1 && !reserved(
                        (#[trigger] items@[j]).0@,
                    ) implies other_fields@.contains_key(items@[j].0@)
                    && other_fields@[items@[j].0@] == items@[j].1 by {
                    if j < i {
                        assert(items@[j].0@ != items@[i as int].0@);
                    }
                }
                assert forall|name: Seq<char>| #[trigger]
                    other_fields@.contains_key(name) implies !reserved(name) && named_before(
                    items@,
                    i + 1,
                    name,
                ) by {
                    if name == items@[i as int].0@ {
                        assert(items@[i as int].0@ == name);
                    } else {
                        assert(before.contains_key(name));
                        let j = choose|j: int|
                            0 <= j < i && j < items@.len() && (#[trigger] items@[j]).0@ == name;
                        assert(items@[j].0@ == name);
                    }
                }
            }
            i += 1;
        }
        proof {
            let rest = object.remove(dependencies_name()).remove(dev_dependencies_name());
            assert forall|name: Seq<char>| #[trigger]
                rest.contains_key(name) implies other_fields@.contains_key(name)
                && other_fields@[name] == rest[name] by {
                let j = choose|j: int| 0 <= j < items@.len() && (#[trigger] items@[j]).0@ == name;
                assert(object[items@[j].0@] == items@[j].1);
            }
            assert forall|name: Seq<char>| #[trigger]
                other_fields@.contains_key(name) implies rest.contains_key(name) by {
                let j = choose|j: int|
                    0 <= j < i && j < items@.len() && (#[trigger] items@[j]).0@ == name;
                assert(object.contains_key(items@[j].0@));
            }
            assert(other_fields@ =~= rest);
        }
        Ok(Package { other_fields, dependencies, dev_dependencies })
    }

    /// Reads a manifest out of JSON text.
    pub fn from_text(text: &str) -> (r: Result<Package, ManifestError>)
        ensures
            reads(text_package(text@), r),
    {
        match parse(text) {
            Ok(doc) => Package::from_document(&doc),
            Err(_) => Err(ManifestError::Syntax),
        }
    }

    /// The document that stands for this manifest: the extra fields, then
    /// the two dependency fields, each null where the table is absent.
    pub fn to_document(&self) -> (doc: Value)
        ensures
            encodes(doc, self@),
            document_package(doc) == Ok::<PackageView, ManifestError>(self@),
    {
        let mut items = self.other_fields.items();
        let ghost extra = items@;
        let runtime = section_document(&self.dependencies);
        let development = section_document(&self.dev_dependencies);
        items.push(("dependencies".to_owned(), runtime));
        items.push(("devDependencies".to_owned(), development));
        proof {
            lemma_reserved_names_differ();
            let n = extra.len() as int;
            assert(items@[n].0@ == dependencies_name());
            assert(items@[n + 1].0@ == dev_dependencies_name());
            assert forall|a: int, b: int|
                0 <= a < b < items@.len() implies (#[trigger] items@[a]).0@
                != (#[trigger] items@[b]).0@ by {
                if a < n {
                    assert(items@[a] == extra[a]);
                    assert(self.other_fields@.contains_key(extra[a].0@));
                    assert(!reserved(extra[a].0@));
                }
                if b < n {
                    assert(items@[b] == extra[b]);
                }
            }
        }
        let doc = make_object(items);
        proof {
            let n = extra.len() as int;
            let object = members(doc)->0;
            assert(object.contains_key(items@[n].0@));
            assert(object.contains_key(items@[n + 1].0@));
            let rest = object.remove(dependencies_name()).remove(dev_dependencies_name());
            assert forall|name: Seq<char>| #[trigger]
                rest.contains_key(name) implies self.other_fields@.contains_key(name)
                && self.other_fields@[name] == rest[name] by {
                let j = choose|j: int| 0 <= j < items@.len() && (#[trigger] items@[j]).0@ == name;
                assert(object[items@[j].0@] == items@[j].1);
                assert(j < n);
                assert(items@[j] == extra[j]);
                assert(self.other_fields@.contains_key(extra[j].0@));
            }
            assert forall|name: Seq<char>| #[trigger]
                self.other_fields@.contains_key(name) implies rest.contains_key(name) by {
                let j = choose|j: int| 0 <= j < extra.len() && (#[trigger] extra[j]).0@ == name;
                assert(items@[j] == extra[j]);
                assert(object.contains_key(items@[j].0@));
            }
            assert(rest =~= self.other_fields@);
            lemma_reload(doc, self@);
        }
        doc
    }

    /// Prints a document as indented JSON text.
    pub fn render_document(doc: &Value) -> (r: Result<String, ManifestError>)
        ensures
            match rendered(*doc) {
                Some(text) => r matches Ok(printed) && printed@ == text,
                None => r == Err::<String, ManifestError>(ManifestError::Render),
            },
    {
        match render(doc) {
            Ok(text) => Ok(text),
            Err(_) => Err(ManifestError::Render),
        }
    }

    /// Prints this manifest as indented JSON text: the printing of a
    /// document that stands for it.
    pub fn to_text(&self) -> (r: Result<String, ManifestError>)
        ensures
            exists|doc: Value| #[trigger]
                encodes(doc, self@) && match rendered(doc) {
                    Some(text) => r matches Ok(printed) && printed@ == text,
                    None => r == Err::<String, ManifestError>(ManifestError::Render),
                },
    {
        let doc = self.to_document();
        Package::render_document(&doc)
    }

    /// Merges an overlay into this manifest. Both dependency fields become
    /// tables; a package that this manifest declares keeps its version, and
    /// the overlay's other packages are added. The other fields are kept,
    /// and those of the overlay are not read.
    pub fn merge_with(&mut self, other: &Package)
        ensures
            final(self)@ == merged_package(old(self)@, other@),
    {
        self.merge_dependencies(Section::Dependencies, &other.dependencies);
        self.merge_dependencies(Section::DevDependencies, &other.dev_dependencies);
    }

    /// Merges an overlay's table into one dependency field of this manifest.
    fn merge_dependencies(&mut self, section: Section, other_deps: &Option<DependencyTable>)
        ensures
            final(self)@.extra == old(self)@.extra,
            section == Section::Dependencies ==> {
                &&& final(self)@.dependencies == merged_section(
                    old(self)@.dependencies,
                    section_view(*other_deps),
                )
                &&& final(self)@.dev_dependencies == old(self)@.dev_dependencies
            },
            section == Section::DevDependencies ==> {
                &&& final(self)@.dev_dependencies == merged_section(
                    old(self)@.dev_dependencies,
                    section_view(*other_deps),
                )
                &&& final(self)@.dependencies == old(self)@.dependencies
            },
    {
        let mut self_deps = match section {
            Section::Dependencies => self.dependencies.take(),
            Section::DevDependencies => self.dev_dependencies.take(),
        };
        let mut table = match self_deps {
            Some(table) => table,
            None => DependencyTable::new(),
        };
        match other_deps {
            Some(other_map) => {
                table.merge_from(other_map);
            },
            None => {
                assert(table@ =~= merged_table(table@, Map::empty()));
            },
        }
        match section {
            Section::Dependencies => {
                self.dependencies = Some(table);
            },
            Section::DevDependencies => {
                self.dev_dependencies = Some(table);
            },
        }
    }
}

} // verus!
