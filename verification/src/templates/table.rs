//! Dependency tables: package names with their version constraints.

use vstd::prelude::*;

verus! {

/// Some entry of the list is for the name.
pub open spec fn declares(entries: Seq<(String, String)>, name: Seq<char>) -> bool {
    exists|i: int| 0 <= i < entries.len() && (#[trigger] entries[i]).0@ == name
}

/// No two entries of the list are for the same name.
pub open spec fn distinct(entries: Seq<(String, String)>) -> bool {
    forall|i: int, j: int|
        0 <= i < j < entries.len() ==> (#[trigger] entries[i]).0@ != (#[trigger] entries[j]).0@
}

/// The list holds each entry of the table exactly once, and nothing else.
pub open spec fn enumerates(
    entries: Seq<(String, String)>,
    table: Map<Seq<char>, Seq<char>>,
) -> bool {
    &&& distinct(entries)
    &&& forall|i: int|
        0 <= i < entries.len() ==> table.contains_key((#[trigger] entries[i]).0@)
            && table[entries[i].0@] == entries[i].1@
    &&& forall|name: Seq<char>| #[trigger] table.contains_key(name) ==> declares(entries, name)
}

/// What a base table becomes when an overlay is merged into it: the
/// overlay's packages are added, and a package that the base already
/// declares keeps the base's version.
pub open spec fn merged_table(
    base: Map<Seq<char>, Seq<char>>,
    overlay: Map<Seq<char>, Seq<char>>,
) -> Map<Seq<char>, Seq<char>> {
    overlay.union_prefer_right(base)
}

/// The table that a list of entries stands for. Where a name occurs more
/// than once, one of its entries is taken.
pub closed spec fn table_of(entries: Seq<(String, String)>) -> Map<Seq<char>, Seq<char>> {
    Map::new(
        |name: Seq<char>| declares(entries, name),
        |name: Seq<char>|
            entries[choose|i: int| 0 <= i < entries.len() && (#[trigger] entries[i]).0@ == name].1@,
    )
}

/// A list without repeated names holds exactly the entries of its table.
pub proof fn lemma_table_enumerates(entries: Seq<(String, String)>)
    requires
        distinct(entries),
    ensures
        enumerates(entries, table_of(entries)),
{
    let table = table_of(entries);
    assert forall|i: int| 0 <= i < entries.len() implies table.contains_key(
        (#[trigger] entries[i]).0@,
    ) && table[entries[i].0@] == entries[i].1@ by {
        let name = entries[i].0@;
        assert(declares(entries, name));
        let j = choose|j: int| 0 <= j < entries.len() && (#[trigger] entries[j]).0@ == name;
        assert(j == i);
    }
}

/// Two tables that one list enumerates are the same table.
pub proof fn lemma_enumerates_unique(
    entries: Seq<(String, String)>,
    first: Map<Seq<char>, Seq<char>>,
    second: Map<Seq<char>, Seq<char>>,
)
    requires
        enumerates(entries, first),
        enumerates(entries, second),
    ensures
        first == second,
{
    assert forall|name: Seq<char>| first.contains_key(name) implies second.contains_key(name)
        && first[name] == second[name] by {
        let i = choose|i: int| 0 <= i < entries.len() && (#[trigger] entries[i]).0@ == name;
        assert(second.contains_key(entries[i].0@));
    }
    assert forall|name: Seq<char>| second.contains_key(name) implies first.contains_key(name) by {
        let i = choose|i: int| 0 <= i < entries.len() && (#[trigger] entries[i]).0@ == name;
        assert(first.contains_key(entries[i].0@));
    }
    assert(first =~= second);
}

/// A table has as many entries as a list that enumerates it.
pub proof fn lemma_enumerates_len(entries: Seq<(String, String)>, table: Map<Seq<char>, Seq<char>>)
    requires
        enumerates(entries, table),
    ensures
        table.dom().finite(),
        table.len() == entries.len(),
    decreases entries.len(),
{
    if entries.len() == 0 {
        assert(table.dom() =~= Set::<Seq<char>>::empty());
    } else {
        let front = entries.drop_last();
        let last = entries.last();
        let rest = table.remove(last.0@);
        assert forall|i: int| 0 <= i < front.len() implies rest.contains_key(
            (#[trigger] front[i]).0@,
        ) && rest[front[i].0@] == front[i].1@ by {
            assert(front[i] == entries[i]);
            assert(entries[i].0@ != entries[entries.len() - 1].0@);
        }
        assert forall|name: Seq<char>| #[trigger] rest.contains_key(name) implies declares(
            front,
            name,
        ) by {
            let i = choose|i: int| 0 <= i < entries.len() && (#[trigger] entries[i]).0@ == name;
            assert(front[i] == entries[i]);
        }
        assert forall|i: int, j: int| 0 <= i < j < front.len() implies (#[trigger] front[i]).0@
            != (#[trigger] front[j]).0@ by {
            assert(front[i] == entries[i]);
            assert(front[j] == entries[j]);
        }
        lemma_enumerates_len(front, rest);
        assert(table.contains_key(entries[entries.len() - 1].0@));
        assert(table.dom() =~= rest.dom().insert(last.0@));
    }
}

/// Adding an entry for a new name to a list adds it to the table.
pub proof fn lemma_table_push(entries: Seq<(String, String)>, entry: (String, String))
    requires
        distinct(entries),
        !declares(entries, entry.0@),
    ensures
        distinct(entries.push(entry)),
        table_of(entries.push(entry)) == table_of(entries).insert(entry.0@, entry.1@),
{
    let longer = entries.push(entry);
    assert forall|i: int, j: int| 0 <= i < j < longer.len() implies (#[trigger] longer[i]).0@
        != (#[trigger] longer[j]).0@ by {
        assert(longer[i] == entries[i]);
        if j < entries.len() {
            assert(longer[j] == entries[j]);
        }
    }
    lemma_table_enumerates(entries);
    lemma_table_enumerates(longer);
    let grown = table_of(entries).insert(entry.0@, entry.1@);
    assert forall|i: int| 0 <= i < longer.len() implies grown.contains_key(
        (#[trigger] longer[i]).0@,
    ) && grown[longer[i].0@] == longer[i].1@ by {
        if i < entries.len() {
            assert(longer[i] == entries[i]);
        }
    }
    assert forall|name: Seq<char>| #[trigger] grown.contains_key(name) implies declares(
        longer,
        name,
    ) by {
        if name == entry.0@ {
            assert(longer[entries.len() as int].0@ == name);
        } else {
            let i = choose|i: int| 0 <= i < entries.len() && (#[trigger] entries[i]).0@ == name;
            assert(longer[i] == entries[i]);
        }
    }
    lemma_enumerates_unique(longer, table_of(longer), grown);
}

/// Replacing the version of one entry of a list replaces it in the table.
pub proof fn lemma_table_update(entries: Seq<(String, String)>, at: int, entry: (String, String))
    requires
        distinct(entries),
        0 <= at < entries.len(),
        entries[at].0@ == entry.0@,
    ensures
        distinct(entries.update(at, entry)),
        table_of(entries.update(at, entry)) == table_of(entries).insert(entry.0@, entry.1@),
{
    let changed = entries.update(at, entry);
    assert forall|i: int, j: int| 0 <= i < j < changed.len() implies (#[trigger] changed[i]).0@
        != (#[trigger] changed[j]).0@ by {
        assert(changed[i].0@ == entries[i].0@);
        assert(changed[j].0@ == entries[j].0@);
    }
    lemma_table_enumerates(entries);
    lemma_table_enumerates(changed);
    let grown = table_of(entries).insert(entry.0@, entry.1@);
    assert forall|i: int| 0 <= i < changed.len() implies grown.contains_key(
        (#[trigger] changed[i]).0@,
    ) && grown[changed[i].0@] == changed[i].1@ by {
        if i != at {
            assert(changed[i] == entries[i]);
            assert(entries[i].0@ != entries[at].0@);
        }
    }
    assert forall|name: Seq<char>| #[trigger] grown.contains_key(name) implies declares(
        changed,
        name,
    ) by {
        if name == entry.0@ {
            assert(changed[at].0@ == name);
        } else {
            let i = choose|i: int| 0 <= i < entries.len() && (#[trigger] entries[i]).0@ == name;
            assert(changed[i] == entries[i]);
        }
    }
    lemma_enumerates_unique(changed, table_of(changed), grown);
}

/// A mapping from package name to version constraint, in which a name
/// occurs at most once.
#[derive(Debug)]
pub struct DependencyTable {
    entries: Vec<(String, String)>,
}

impl View for DependencyTable {
    type V = Map<Seq<char>, Seq<char>>;

    closed spec fn view(&self) -> Map<Seq<char>, Seq<char>> {
        table_of(self.entries@)
    }
}

impl DependencyTable {
    #[verifier::type_invariant]
    spec fn well_formed(&self) -> bool {
        distinct(self.entries@)
    }

    /// The empty table.
    pub fn new() -> (r: Self)
        ensures
            r@ == Map::<Seq<char>, Seq<char>>::empty(),
    {
        let r = DependencyTable { entries: Vec::new() };
        assert(r@ =~= Map::<Seq<char>, Seq<char>>::empty());
        r
    }

    fn position(&self, name: &String) -> (r: Option<usize>)
        ensures
            match r {
                Some(i) => i < self.entries@.len() && self.entries@[i as int].0@ == name@,
                None => !declares(self.entries@, name@),
            },
    {
        let mut i: usize = 0;
        while i < self.entries.len()
            invariant
                i <= self.entries@.len(),
                forall|j: int| 0 <= j < i ==> (#[trigger] self.entries@[j]).0@ != name@,
            decreases self.entries@.len() - i,
        {
            if self.entries[i].0 == *name {
                return Some(i);
            }
            i += 1;
        }
        None
    }

    /// The number of packages that the table declares.
    pub fn len(&self) -> (r: usize)
        ensures
            self@.dom().finite(),
            r == self@.len(),
    {
        proof {
            use_type_invariant(self);
            lemma_table_enumerates(self.entries@);
            lemma_enumerates_len(self.entries@, self@);
        }
        self.entries.len()
    }

    /// Whether the table declares no package.
    pub fn is_empty(&self) -> (r: bool)
        ensures
            r == (self@ == Map::<Seq<char>, Seq<char>>::empty()),
    {
        proof {
            use_type_invariant(self);
            lemma_table_enumerates(self.entries@);
            if self.entries@.len() == 0 {
                assert(self@ =~= Map::<Seq<char>, Seq<char>>::empty());
            } else {
                assert(self@.contains_key(self.entries@[0].0@));
            }
        }
        self.entries.len() == 0
    }

    /// Whether the table declares the package.
    pub fn contains_key(&self, name: &str) -> (r: bool)
        ensures
            r == self@.contains_key(name@),
    {
        let key = name.to_owned();
        self.position(&key).is_some()
    }

    /// The version constraint that the table declares for the package.
    pub fn get(&self, name: &str) -> (r: Option<&String>)
        ensures
            r is Some <==> self@.contains_key(name@),
            r matches Some(version) ==> version@ == self@[name@],
    {
        let key = name.to_owned();
        proof {
            use_type_invariant(self);
            lemma_table_enumerates(self.entries@);
        }
        match self.position(&key) {
            Some(i) => Some(&self.entries[i].1),
            None => None,
        }
    }

    /// Declares the package with the version, in place of the version that
    /// the table declared for it before, which is returned.
    pub fn insert(&mut self, name: String, version: String) -> (previous: Option<String>)
        ensures
            final(self)@ == old(self)@.insert(name@, version@),
            previous is Some <==> old(self)@.contains_key(name@),
            previous matches Some(v) ==> v@ == old(self)@[name@],
    {
        proof {
            use_type_invariant(&*self);
            lemma_table_enumerates(self.entries@);
        }
        let found = self.position(&name);
        let mut entries: Vec<(String, String)> = Vec::new();
        std::mem::swap(&mut self.entries, &mut entries);
        let previous = match found {
            Some(i) => {
                proof {
                    lemma_table_update(entries@, i as int, (name, version));
                }
                let mut entry = (name, version);
                std::mem::swap(&mut entries[i], &mut entry);
                Some(entry.1)
            },
            None => {
                proof {
                    lemma_table_push(entries@, (name, version));
                }
                entries.push((name, version));
                None
            },
        };
        std::mem::swap(&mut self.entries, &mut entries);
        previous
    }

    /// Declares the package unless the table already declares it; says
    /// whether the entry was added.
    pub fn insert_absent(&mut self, name: String, version: String) -> (added: bool)
        ensures
            added == !old(self)@.contains_key(name@),
            final(self)@ == if added {
                old(self)@.insert(name@, version@)
            } else {
                old(self)@
            },
    {
        proof {
            use_type_invariant(&*self);
        }
        match self.position(&name) {
            Some(_) => false,
            None => {
                let mut entries: Vec<(String, String)> = Vec::new();
                std::mem::swap(&mut self.entries, &mut entries);
                proof {
                    lemma_table_push(entries@, (name, version));
                }
                entries.push((name, version));
                std::mem::swap(&mut self.entries, &mut entries);
                true
            },
        }
    }

    /// The entries of the table, each once.
    pub fn pairs(&self) -> (r: Vec<(String, String)>)
        ensures
            enumerates(r@, self@),
    {
        proof {
            use_type_invariant(self);
            lemma_table_enumerates(self.entries@);
        }
        let mut r: Vec<(String, String)> = Vec::new();
        let mut i: usize = 0;
        while i < self.entries.len()
            invariant
                i <= self.entries@.len(),
                r@.len() == i,
                forall|j: int| 0 <= j < i ==> (#[trigger] r@[j]) == self.entries@[j],
            decreases self.entries@.len() - i,
        {
            r.push((self.entries[i].0.clone(), self.entries[i].1.clone()));
            i += 1;
        }
        assert(r@ =~= self.entries@);
        r
    }

    /// Merges an overlay into this table: each package of the overlay that
    /// this table does not declare yet is added with the overlay's version.
    pub fn merge_from(&mut self, overlay: &DependencyTable)
        ensures
            final(self)@ == merged_table(old(self)@, overlay@),
    {
        proof {
            use_type_invariant(overlay);
        }
        let mut i: usize = 0;
        assert(table_of(overlay.entries@.take(0)) =~= Map::<Seq<char>, Seq<char>>::empty());
        assert(self@ =~= merged_table(old(self)@, table_of(overlay.entries@.take(0))));
        while i < overlay.entries.len()
            invariant
                i <= overlay.entries@.len(),
                distinct(overlay.entries@),
                self@ == merged_table(old(self)@, table_of(overlay.entries@.take(i as int))),
            decreases overlay.entries@.len() - i,
        {
            let ghost done = overlay.entries@.take(i as int);
            let ghost before = self@;
            let name = overlay.entries[i].0.clone();
            let version = overlay.entries[i].1.clone();
            self.insert_absent(name, version);
            proof {
                let entry = overlay.entries@[i as int];
                assert(overlay.entries@.take(i + 1) =~= done.push(entry));
                assert(distinct(done)) by {
                    assert forall|a: int, b: int|
                        0 <= a < b < done.len() implies (#[trigger] done[a]).0@
                        != (#[trigger] done[b]).0@ by {
                        assert(done[a] == overlay.entries@[a]);
                        assert(done[b] == overlay.entries@[b]);
                    }
                }
                assert(!declares(done, entry.0@)) by {
                    if declares(done, entry.0@) {
                        let a = choose|a: int| 0 <= a < done.len() && (#[trigger] done[a]).0@
                            == entry.0@;
                        assert(done[a] == overlay.entries@[a]);
                    }
                }
                lemma_table_push(done, entry);
                assert(self@ =~= merged_table(old(self)@, table_of(done.push(entry))));
            }
            i += 1;
        }
        assert(overlay.entries@.take(i as int) =~= overlay.entries@);
    }
}

} // verus!
