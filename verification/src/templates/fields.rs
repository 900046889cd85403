//! The fields of a manifest that are carried through unread.

use crate::templates::json::{distinct_names, duplicate, lists, names};
use serde_json::Value;
use vstd::prelude::*;

verus! {

/// The name of the field that holds the runtime dependencies.
pub open spec fn dependencies_name() -> Seq<char> {
    "dependencies"@
}

/// The name of the field that holds the development dependencies.
pub open spec fn dev_dependencies_name() -> Seq<char> {
    "devDependencies"@
}

/// Whether a field name is one of the two that a manifest reads itself.
pub open spec fn reserved(name: Seq<char>) -> bool {
    name == dependencies_name() || name == dev_dependencies_name()
}

/// The two reserved names differ.
pub proof fn lemma_reserved_names_differ()
    ensures
        dependencies_name() != dev_dependencies_name(),
{
    reveal_strlit("dependencies");
    reveal_strlit("devDependencies");
    assert(dependencies_name().len() != dev_dependencies_name().len());
}

/// The object that a list of members stands for. Where a name occurs more
/// than once, one of its members is taken.
pub closed spec fn object_of(items: Seq<(String, Value)>) -> Map<Seq<char>, Value> {
    Map::new(
        |name: Seq<char>| names(items, name),
        |name: Seq<char>|
            items[choose|i: int| 0 <= i < items.len() && (#[trigger] items[i]).0@ == name].1,
    )
}

/// A list without repeated names holds exactly the members of its object.
pub proof fn lemma_object_lists(items: Seq<(String, Value)>)
    requires
        distinct_names(items),
    ensures
        lists(items, object_of(items)),
{
    let object = object_of(items);
    assert forall|i: int| 0 <= i < items.len() implies object.contains_key(
        (#[trigger] items[i]).0@,
    ) && object[items[i].0@] == items[i].1 by {
        let name = items[i].0@;
        assert(names(items, name));
        let j = choose|j: int| 0 <= j < items.len() && (#[trigger] items[j]).0@ == name;
        assert(j == i);
    }
}

/// Two objects that one list holds the members of are the same object.
pub proof fn lemma_lists_unique(
    items: Seq<(String, Value)>,
    first: Map<Seq<char>, Value>,
    second: Map<Seq<char>, Value>,
)
    requires
        lists(items, first),
        lists(items, second),
    ensures
        first == second,
{
    assert forall|name: Seq<char>| first.contains_key(name) implies second.contains_key(name)
        && first[name] == second[name] by {
        let i = choose|i: int| 0 <= i < items.len() && (#[trigger] items[i]).0@ == name;
        assert(second.contains_key(items[i].0@));
    }
    assert forall|name: Seq<char>| second.contains_key(name) implies first.contains_key(name) by {
        let i = choose|i: int| 0 <= i < items.len() && (#[trigger] items[i]).0@ == name;
        assert(first.contains_key(items[i].0@));
    }
    assert(first =~= second);
}

/// Adding a member with a new name to a list adds it to the object.
pub proof fn lemma_object_push(items: Seq<(String, Value)>, item: (String, Value))
    requires
        distinct_names(items),
        !names(items, item.0@),
    ensures
        distinct_names(items.push(item)),
        object_of(items.push(item)) == object_of(items).insert(item.0@, item.1),
{
    let longer = items.push(item);
    assert forall|i: int, j: int| 0 <= i < j < longer.len() implies (#[trigger] longer[i]).0@
        != (#[trigger] longer[j]).0@ by {
        assert(longer[i] == items[i]);
        if j < items.len() {
            assert(longer[j] == items[j]);
        }
    }
    lemma_object_lists(items);
    lemma_object_lists(longer);
    let grown = object_of(items).insert(item.0@, item.1);
    assert forall|i: int| 0 <= i < longer.len() implies grown.contains_key(
        (#[trigger] longer[i]).0@,
    ) && grown[longer[i].0@] == longer[i].1 by {
        if i < items.len() {
            assert(longer[i] == items[i]);
        }
    }
    assert forall|name: Seq<char>| #[trigger] grown.contains_key(name) implies names(
        longer,
        name,
    ) by {
        if name == item.0@ {
            assert(longer[items.len() as int].0@ == name);
        } else {
            let i = choose|i: int| 0 <= i < items.len() && (#[trigger] items[i]).0@ == name;
            assert(longer[i] == items[i]);
        }
    }
    lemma_lists_unique(longer, object_of(longer), grown);
}

/// The fields of a manifest besides its two dependency tables, by name.
/// A name occurs at most once, and neither reserved name occurs.
#[derive(Debug)]
pub struct ExtraFields {
    entries: Vec<(String, Value)>,
}

impl View for ExtraFields {
    type V = Map<Seq<char>, Value>;

    closed spec fn view(&self) -> Map<Seq<char>, Value> {
        object_of(self.entries@)
    }
}

impl ExtraFields {
    #[verifier::type_invariant]
    spec fn well_formed(&self) -> bool {
        &&& distinct_names(self.entries@)
        &&& forall|i: int|
            0 <= i < self.entries@.len() ==> !reserved((#[trigger] self.entries@[i]).0@)
    }

    /// No fields.
    pub fn new() -> (r: Self)
        ensures
            r@ == Map::<Seq<char>, Value>::empty(),
    {
        let r = ExtraFields { entries: Vec::new() };
        assert(r@ =~= Map::<Seq<char>, Value>::empty());
        r
    }

    fn position(&self, name: &String) -> (r: Option<usize>)
        ensures
            match r {
                Some(i) => i < self.entries@.len() && self.entries@[i as int].0@ == name@,
                None => !names(self.entries@, name@),
            },
    {
        let mut i: usize = 0;
        while i < self.entries.len()
            invariant
                i <= self.entries@.len(),
                forall|j: int| 0 <= j < i ==> (#[trigger] self.entries@[j]).0@ != name@,
            decreases self.entries@.len() - i,
        {
            if self.entries[i].0 == *name {
                return Some(i);
            }
            i += 1;
        }
        None
    }

    /// The value of the field, where there is one. A reserved name never
    /// names a field here.
    pub fn get(&self, name: &str) -> (r: Option<&Value>)
        ensures
            r is Some <==> self@.contains_key(name@),
            r matches Some(value) ==> *value == self@[name@],
            reserved(name@) ==> r is None,
    {
        let key = name.to_owned();
        proof {
            use_type_invariant(self);
            lemma_object_lists(self.entries@);
        }
        match self.position(&key) {
            Some(i) => Some(&self.entries[i].1),
            None => None,
        }
    }

    /// Adds the field unless its name is reserved or names a field
    /// already; says whether it was added.
    pub fn insert_absent(&mut self, name: String, value: Value) -> (added: bool)
        ensures
            added == (!reserved(name@) && !old(self)@.contains_key(name@)),
            final(self)@ == if added {
                old(self)@.insert(name@, value)
            } else {
                old(self)@
            },
    {
        proof {
            use_type_invariant(&*self);
        }
        if Self::is_reserved(&name) {
            return false;
        }
        match self.position(&name) {
            Some(_) => false,
            None => {
                let mut entries: Vec<(String, Value)> = Vec::new();
                std::mem::swap(&mut self.entries, &mut entries);
                proof {
                    lemma_object_push(entries@, (name, value));
                }
                entries.push((name, value));
                std::mem::swap(&mut self.entries, &mut entries);
                true
            },
        }
    }

    /// Whether the name is one of the two reserved field names.
    pub fn is_reserved(name: &String) -> (r: bool)
        ensures
            r == reserved(name@),
    {
        let runtime = "dependencies".to_owned();
        let development = "devDependencies".to_owned();
        *name == runtime || *name == development
    }

    /// The fields, each once.
    pub fn items(&self) -> (r: Vec<(String, Value)>)
        ensures
            lists(r@, self@),
            forall|name: Seq<char>| #[trigger] self@.contains_key(name) ==> !reserved(name),
    {
        proof {
            use_type_invariant(self);
            lemma_object_lists(self.entries@);
        }
        let mut r: Vec<(String, Value)> = Vec::new();
        let mut i: usize = 0;
        while i < self.entries.len()
            invariant
                i <= self.entries@.len(),
                r@.len() == i,
                forall|j: int| 0 <= j < i ==> (#[trigger] r@[j]) == self.entries@[j],
            decreases self.entries@.len() - i,
        {
            r.push((self.entries[i].0.clone(), duplicate(&self.entries[i].1)));
            i += 1;
        }
        assert(r@ =~= self.entries@);
        r
    }
}

} // verus!
