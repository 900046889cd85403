//! The copy plan: which template trees are laid over each other under one
//! destination, and what of each is left out.

use crate::templates::path::{
    components, ends_with, join_all, joined_all, path_components, prefix_ends_with, texts,
};
use crate::templates::tree::{
    entry_views, last_at, lemma_last_at_concat, lemma_last_write_stands, placed_all, EntryView,
    Node, NodeView, TreeEntry,
};
use vstd::prelude::*;

verus! {

/// A source of a copy plan: a directory, and the paths that are left out
/// of it.
pub struct SourceView {
    /// The path of the source directory.
    pub root: Seq<char>,
    /// The exclusions, each a path.
    pub exclusions: Seq<Seq<char>>,
}

/// A copy plan as a mathematical value.
pub struct CopierView {
    /// The sources, in the order in which they are copied.
    pub sources: Seq<SourceView>,
    /// The path of the destination directory.
    pub destination: Seq<char>,
}

/// The components of each exclusion of a list.
pub open spec fn patterns_of(exclusions: Seq<Seq<char>>) -> Seq<Seq<Seq<char>>> {
    exclusions.map_values(|exclusion: Seq<char>| components(exclusion))
}

/// Whether a path ends with one of the patterns.
pub open spec fn matches_any(path: Seq<Seq<char>>, patterns: Seq<Seq<Seq<char>>>) -> bool {
    exists|e: int| 0 <= e < patterns.len() && ends_with(path, #[trigger] patterns[e])
}

/// Whether a path below a root, or a directory above it and below the
/// root, matches one of the patterns when it is taken from the root on.
pub open spec fn skipped_by(
    root: Seq<Seq<char>>,
    path: Seq<Seq<char>>,
    patterns: Seq<Seq<Seq<char>>>,
) -> bool {
    exists|depth: int|
        1 <= depth <= path.len() && matches_any(root + #[trigger] path.take(depth), patterns)
}

/// Whether an entry of a source is left out: its own path, or that of a
/// directory above it, taken from the source directory on, ends with the
/// components of an exclusion. The source directory itself never is.
pub open spec fn skipped(source: SourceView, path: Seq<Seq<char>>) -> bool {
    skipped_by(components(source.root), path, patterns_of(source.exclusions))
}

/// The test that the entries of a source pass to be copied.
pub open spec fn copies(source: SourceView) -> spec_fn(EntryView) -> bool {
    |entry: EntryView| !skipped(source, entry.path)
}

/// The entries of a source that are copied, in their order.
pub open spec fn kept(source: SourceView, listing: Seq<EntryView>) -> Seq<EntryView> {
    listing.filter(copies(source))
}

/// The views of the trees found for the sources of a plan; `None` stands
/// for a source directory that does not exist.
pub open spec fn tree_views(trees: Seq<Option<Vec<TreeEntry>>>) -> Seq<Option<Seq<EntryView>>> {
    trees.map_values(
        |tree: Option<Vec<TreeEntry>>|
            match tree {
                Some(listing) => Some(entry_views(listing@)),
                None => None,
            },
    )
}

/// The tree found for a source, where the list of trees reaches that far
/// and the source directory exists.
pub open spec fn tree_of(trees: Seq<Option<Seq<EntryView>>>, index: int) -> Option<
    Seq<EntryView>,
> {
    if 0 <= index < trees.len() {
        trees[index]
    } else {
        None
    }
}

/// The entries that a plan writes under its destination, in order: for
/// each source whose directory exists, in the order of the plan, its
/// entries that are not left out.
pub open spec fn planned(sources: Seq<SourceView>, trees: Seq<Option<Seq<EntryView>>>) -> Seq<
    EntryView,
>
    decreases sources.len(),
{
    if sources.len() == 0 {
        Seq::<EntryView>::empty()
    } else {
        let front = planned(sources.drop_last(), trees);
        match tree_of(trees, sources.len() - 1) {
            Some(listing) => front + kept(sources.last(), listing),
            None => front,
        }
    }
}

/// What one source puts at a path: nothing where its directory does not
/// exist or the path is left out, else what its last entry there holds.
pub open spec fn source_gives(
    source: SourceView,
    tree: Option<Seq<EntryView>>,
    path: Seq<Seq<char>>,
) -> Option<NodeView> {
    match tree {
        Some(listing) => if skipped(source, path) {
            None
        } else {
            last_at(listing, path)
        },
        None => None,
    }
}

/// What a plan puts at a path: what the last of its sources that puts
/// anything there puts there.
pub open spec fn plan_gives(
    sources: Seq<SourceView>,
    trees: Seq<Option<Seq<EntryView>>>,
    path: Seq<Seq<char>>,
) -> Option<NodeView>
    decreases sources.len(),
{
    if sources.len() == 0 {
        None
    } else {
        match source_gives(sources.last(), tree_of(trees, sources.len() - 1), path) {
            Some(node) => Some(node),
            None => plan_gives(sources.drop_last(), trees, path),
        }
    }
}

/// Leaving out twice is leaving out once: of the entries that a source
/// copies, it copies every one. So a tree from which entries that the
/// source leaves out were dropped beforehand is copied like the whole tree.
pub proof fn lemma_kept_twice(source: SourceView, listing: Seq<EntryView>)
    ensures
        kept(source, kept(source, listing)) == kept(source, listing),
    decreases listing.len(),
{
    reveal(Seq::filter);
    if listing.len() > 0 {
        lemma_kept_twice(source, listing.drop_last());
        let front = kept(source, listing.drop_last());
        if copies(source)(listing.last()) {
            assert(kept(source, listing) == front.push(listing.last()));
            assert(front.push(listing.last()).drop_last() =~= front);
        }
    }
}

/// The last entry that is copied from a source to a path is the last
/// entry of the source there, unless the path is left out.
pub proof fn lemma_kept_last(source: SourceView, listing: Seq<EntryView>, path: Seq<Seq<char>>)
    ensures
        last_at(kept(source, listing), path) == source_gives(source, Some(listing), path),
    decreases listing.len(),
{
    reveal(Seq::filter);
    if listing.len() > 0 {
        lemma_kept_last(source, listing.drop_last(), path);
        let front = kept(source, listing.drop_last());
        if copies(source)(listing.last()) {
            assert(kept(source, listing) == front.push(listing.last()));
            assert(front.push(listing.last()).drop_last() =~= front);
        }
    }
}

/// The last entry that a plan writes to a path is what the plan puts there.
pub proof fn lemma_planned_last(
    sources: Seq<SourceView>,
    trees: Seq<Option<Seq<EntryView>>>,
    path: Seq<Seq<char>>,
)
    ensures
        last_at(planned(sources, trees), path) == plan_gives(sources, trees, path),
    decreases sources.len(),
{
    if sources.len() > 0 {
        lemma_planned_last(sources.drop_last(), trees, path);
        match tree_of(trees, sources.len() - 1) {
            Some(listing) => {
                lemma_kept_last(sources.last(), listing, path);
                lemma_last_at_concat(
                    planned(sources.drop_last(), trees),
                    kept(sources.last(), listing),
                    path,
                );
            },
            None => {},
        }
    }
}

/// Where the entries of a plan could all be written, the destination
/// holds at every path what the last source that puts anything there puts
/// there: a later source overwrites an earlier one, and a source that
/// leaves a path out leaves there what an earlier source put.
pub proof fn lemma_destination_holds_plan(
    sources: Seq<SourceView>,
    trees: Seq<Option<Seq<EntryView>>>,
    start: Map<Seq<Seq<char>>, NodeView>,
    path: Seq<Seq<char>>,
)
    requires
        placed_all(start, planned(sources, trees)) is Some,
        plan_gives(sources, trees, path) is Some,
    ensures
        placed_all(start, planned(sources, trees))->0.contains_key(path),
        placed_all(start, planned(sources, trees))->0[path] == plan_gives(sources, trees, path)->0,
{
    lemma_planned_last(sources, trees, path);
    lemma_last_write_stands(start, planned(sources, trees), path);
}

/// What a plan puts at a path when no source after a given one puts
/// anything there is what that source puts there.
pub proof fn lemma_plan_gives_from(
    sources: Seq<SourceView>,
    trees: Seq<Option<Seq<EntryView>>>,
    index: int,
    path: Seq<Seq<char>>,
)
    requires
        0 <= index < sources.len(),
        source_gives(sources[index], tree_of(trees, index), path) is Some,
        forall|later: int|
            index < later < sources.len() ==> source_gives(
                #[trigger] sources[later],
                tree_of(trees, later),
                path,
            ) is None,
    ensures
        plan_gives(sources, trees, path) == source_gives(
            sources[index],
            tree_of(trees, index),
            path,
        ),
    decreases sources.len(),
{
    if index < sources.len() - 1 {
        let front = sources.drop_last();
        assert(sources[sources.len() - 1] == sources.last());
        assert forall|later: int| index < later < front.len() implies source_gives(
            #[trigger] front[later],
            tree_of(trees, later),
            path,
        ) is None by {
            assert(front[later] == sources[later]);
        }
        assert(front[index] == sources[index]);
        lemma_plan_gives_from(front, trees, index, path);
    }
}

/// Every copied file arrives: a file of an existing source that is not
/// left out stands under the destination at its path with its content,
/// provided that the entries of the plan could all be written, that the
/// source lists nothing else at the path afterwards, and that no later
/// source puts anything there.
pub proof fn lemma_copied_file_arrives(
    sources: Seq<SourceView>,
    trees: Seq<Option<Seq<EntryView>>>,
    start: Map<Seq<Seq<char>>, NodeView>,
    index: int,
    at: int,
)
    requires
        placed_all(start, planned(sources, trees)) is Some,
        0 <= index < sources.len(),
        tree_of(trees, index) is Some,
        0 <= at < tree_of(trees, index)->0.len(),
        tree_of(trees, index)->0[at].node is File,
        !skipped(sources[index], tree_of(trees, index)->0[at].path),
        forall|after: int|
            at < after < tree_of(trees, index)->0.len() ==> (#[trigger] tree_of(
                trees,
                index,
            )->0[after]).path != tree_of(trees, index)->0[at].path,
        forall|later: int|
            index < later < sources.len() ==> source_gives(
                #[trigger] sources[later],
                tree_of(trees, later),
                tree_of(trees, index)->0[at].path,
            ) is None,
    ensures
        placed_all(start, planned(sources, trees))->0.contains_key(
            tree_of(trees, index)->0[at].path,
        ),
        placed_all(start, planned(sources, trees))->0[tree_of(trees, index)->0[at].path]
            == tree_of(trees, index)->0[at].node,
{
    let listing = tree_of(trees, index)->0;
    let path = listing[at].path;
    lemma_last_at_found(listing, at);
    lemma_plan_gives_from(sources, trees, index, path);
    lemma_destination_holds_plan(sources, trees, start, path);
}

/// Exclusions are per source, and the last source wins: of two sources
/// that hold something at the same path, the destination holds what the
/// second holds unless the second leaves the path out; then it holds what
/// the first holds, unless the first leaves it out too.
pub proof fn lemma_second_source_wins(
    first: SourceView,
    second: SourceView,
    first_tree: Seq<EntryView>,
    second_tree: Seq<EntryView>,
    start: Map<Seq<Seq<char>>, NodeView>,
    path: Seq<Seq<char>>,
)
    requires
        placed_all(
            start,
            planned(seq![first, second], seq![Some(first_tree), Some(second_tree)]),
        ) is Some,
        last_at(first_tree, path) is Some,
        last_at(second_tree, path) is Some,
        !skipped(first, path) || !skipped(second, path),
    ensures
        ({
            let end = placed_all(
                start,
                planned(seq![first, second], seq![Some(first_tree), Some(second_tree)]),
            )->0;
            &&& end.contains_key(path)
            &&& end[path] == if skipped(second, path) {
                last_at(first_tree, path)->0
            } else {
                last_at(second_tree, path)->0
            }
        }),
{
    let sources = seq![first, second];
    let trees = seq![Some(first_tree), Some(second_tree)];
    let one = sources.drop_last();
    assert(one =~= seq![first]);
    assert(one.drop_last() =~= Seq::<SourceView>::empty());
    assert(plan_gives(one.drop_last(), trees, path) is None);
    assert(one.last() == first);
    assert(tree_of(trees, one.len() - 1) == Some(first_tree));
    assert(plan_gives(one, trees, path) == source_gives(first, Some(first_tree), path));
    assert(sources.last() == second);
    assert(tree_of(trees, sources.len() - 1) == Some(second_tree));
    assert(plan_gives(sources, trees, path) == match source_gives(
        second,
        Some(second_tree),
        path,
    ) {
        Some(node) => Some(node),
        None => plan_gives(one, trees, path),
    });
    lemma_destination_holds_plan(sources, trees, start, path);
}

/// An entry that no later entry of its list shares its path with is the
/// last entry at its path.
pub proof fn lemma_last_at_found(listing: Seq<EntryView>, at: int)
    requires
        0 <= at < listing.len(),
        forall|after: int|
            at < after < listing.len() ==> (#[trigger] listing[after]).path != listing[at].path,
    ensures
        last_at(listing, listing[at].path) == Some(listing[at].node),
    decreases listing.len(),
{
    if at < listing.len() - 1 {
        let front = listing.drop_last();
        assert(listing[listing.len() - 1].path != listing[at].path);
        assert forall|after: int| at < after < front.len() implies (#[trigger] front[after]).path
            != front[at].path by {
            assert(front[after] == listing[after]);
        }
        lemma_last_at_found(front, at);
    }
}

/// The views of a list of sources.
pub open spec fn source_views(dirs: Seq<(String, Vec<String>)>) -> Seq<SourceView> {
    dirs.map_values(
        |dir: (String, Vec<String>)| SourceView { root: dir.0@, exclusions: texts(dir.1@) },
    )
}

/// The views of a list of texts.
pub open spec fn slices(names: Seq<&str>) -> Seq<Seq<char>> {
    names.map_values(|name: &str| name@)
}

/// The views of a list of split paths.
pub open spec fn pattern_views(patterns: Seq<Vec<String>>) -> Seq<Seq<Seq<char>>> {
    patterns.map_values(|pattern: Vec<String>| texts(pattern@))
}

/// A copy of a list of names.
fn clone_names(names: &Vec<String>) -> (r: Vec<String>)
    ensures
        r@ == names@,
{
    let mut r: Vec<String> = Vec::new();
    let mut i: usize = 0;
    while i < names.len()
        invariant
            i <= names@.len(),
            r@ == names@.take(i as int),
        decreases names@.len() - i,
    {
        r.push(names[i].clone());
        assert(r@ =~= names@.take(i + 1));
        i += 1;
    }
    assert(names@.take(i as int) =~= names@);
    r
}

/// A copy of a list of bytes.
fn clone_bytes(bytes: &Vec<u8>) -> (r: Vec<u8>)
    ensures
        r@ == bytes@,
{
    let mut r: Vec<u8> = Vec::new();
    let mut i: usize = 0;
    while i < bytes.len()
        invariant
            i <= bytes@.len(),
            r@ == bytes@.take(i as int),
        decreases bytes@.len() - i,
    {
        r.push(bytes[i]);
        assert(r@ =~= bytes@.take(i + 1));
        i += 1;
    }
    assert(bytes@.take(i as int) =~= bytes@);
    r
}

/// A copy of an entry.
fn clone_entry(entry: &TreeEntry) -> (r: TreeEntry)
    ensures
        r@ == entry@,
{
    let node = match &entry.node {
        Node::Directory => Node::Directory,
        Node::File(content) => Node::File(clone_bytes(content)),
    };
    TreeEntry { path: clone_names(&entry.path), node }
}

/// Whether an entry below a root is left out by one of the patterns.
fn is_skipped(root: &Vec<String>, path: &Vec<String>, patterns: &Vec<Vec<String>>) -> (r: bool)
    ensures
        r == skipped_by(texts(root@), texts(path@), pattern_views(patterns@)),
{
    let mut full = clone_names(root);
    let mut i: usize = 0;
    while i < path.len()
        invariant
            i <= path@.len(),
            full@ == root@ + path@.take(i as int),
        decreases path@.len() - i,
    {
        full.push(path[i].clone());
        assert(full@ =~= root@ + path@.take(i + 1));
        i += 1;
    }
    assert(path@.take(i as int) =~= path@);
    let base = root.len();
    let total = full.len();
    let mut above: usize = 0;
    while above < path.len()
        invariant
            above <= path@.len(),
            base == root@.len(),
            total == base + path@.len(),
            full@ == root@ + path@,
            forall|d: int|
                1 <= d <= above ==> !matches_any(
                    texts(root@) + #[trigger] texts(path@).take(d),
                    pattern_views(patterns@),
                ),
        decreases path@.len() - above,
    {
        let depth = above + 1;
        let ghost prefix = texts(root@) + texts(path@).take(depth as int);
        assert(texts(full@).take(base + depth) =~= prefix);
        let mut e: usize = 0;
        while e < patterns.len()
            invariant
                e <= patterns@.len(),
                depth == above + 1,
                depth <= path@.len(),
                base == root@.len(),
                total == base + path@.len(),
                full@ == root@ + path@,
                prefix == texts(root@) + texts(path@).take(depth as int),
                texts(full@).take(base + depth) == prefix,
                forall|x: int|
                    0 <= x < e ==> !ends_with(prefix, #[trigger] pattern_views(patterns@)[x]),
            decreases patterns@.len() - e,
        {
            if prefix_ends_with(&full, base + depth, &patterns[e]) {
                assert(ends_with(prefix, pattern_views(patterns@)[e as int]));
                return true;
            }
            e += 1;
        }
        above += 1;
    }
    false
}

/// The components of each exclusion of a list.
fn split_exclusions(exclusions: &Vec<String>) -> (r: Vec<Vec<String>>)
    ensures
        pattern_views(r@) == patterns_of(texts(exclusions@)),
{
    let mut patterns: Vec<Vec<String>> = Vec::new();
    let mut e: usize = 0;
    while e < exclusions.len()
        invariant
            e <= exclusions@.len(),
            patterns@.len() == e,
            forall|x: int|
                0 <= x < e ==> texts((#[trigger] patterns@[x])@) == components(exclusions@[x]@),
        decreases exclusions@.len() - e,
    {
        patterns.push(path_components(exclusions[e].as_str()));
        e += 1;
    }
    assert(pattern_views(patterns@) =~= patterns_of(texts(exclusions@)));
    patterns
}

/// A plan for copying template trees into one destination: an ordered
/// list of source directories, each with the paths that are left out of it.
#[derive(Debug)]
pub struct TemplateCopier {
    source_dirs: Vec<(String, Vec<String>)>,
    destination: String,
}

impl View for TemplateCopier {
    type V = CopierView;

    closed spec fn view(&self) -> CopierView {
        CopierView { sources: source_views(self.source_dirs@), destination: self.destination@ }
    }
}

impl TemplateCopier {
    /// A plan without sources for a destination.
    pub fn new(destination: &str) -> (r: Self)
        ensures
            r@.destination == destination@,
            r@.sources == Seq::<SourceView>::empty(),
    {
        let r = TemplateCopier { source_dirs: Vec::new(), destination: destination.to_owned() };
        assert(r@.sources =~= Seq::<SourceView>::empty());
        r
    }

    /// Adds a source directory to the end of the plan, with the paths that
    /// are left out of it.
    pub fn add_source_with_exclusions(&mut self, source: &str, exclusions: Vec<&str>) -> (r:
        &mut Self)
        ensures
            r@.destination == old(self)@.destination,
            r@.sources == old(self)@.sources.push(
                SourceView { root: source@, exclusions: slices(exclusions@) },
            ),
            *final(self) == *final(r),
    {
        let mut owned: Vec<String> = Vec::new();
        let mut i: usize = 0;
        while i < exclusions.len()
            invariant
                i <= exclusions@.len(),
                owned@.len() == i,
                forall|j: int| 0 <= j < i ==> (#[trigger] owned@[j])@ == exclusions@[j]@,
            decreases exclusions@.len() - i,
        {
            owned.push(exclusions[i].to_owned());
            i += 1;
        }
        assert(texts(owned@) =~= slices(exclusions@));
        self.source_dirs.push((source.to_owned(), owned));
        assert(self@.sources =~= old(self)@.sources.push(
            SourceView { root: source@, exclusions: slices(exclusions@) },
        ));
        self
    }

    /// The path of the destination directory.
    pub fn destination(&self) -> (r: &String)
        ensures
            r@ == self@.destination,
    {
        &self.destination
    }

    /// The paths of the source directories, in the order of the plan.
    pub fn source_paths(&self) -> (r: Vec<String>)
        ensures
            r@.len() == self@.sources.len(),
            forall|i: int| 0 <= i < r@.len() ==> (#[trigger] r@[i])@ == self@.sources[i].root,
    {
        let mut r: Vec<String> = Vec::new();
        let mut i: usize = 0;
        while i < self.source_dirs.len()
            invariant
                i <= self.source_dirs@.len(),
                r@.len() == i,
                forall|j: int| 0 <= j < i ==> (#[trigger] r@[j])@ == self.source_dirs@[j].0@,
            decreases self.source_dirs@.len() - i,
        {
            r.push(self.source_dirs[i].0.clone());
            i += 1;
        }
        r
    }

    /// Whether a source of the plan leaves out an entry at a path of its
    /// tree. A place beyond the sources of the plan leaves nothing out.
    pub fn skips(&self, index: usize, path: &Vec<String>) -> (r: bool)
        ensures
            r == (index < self@.sources.len() && skipped(
                self@.sources[index as int],
                texts(path@),
            )),
    {
        if index >= self.source_dirs.len() {
            return false;
        }
        let root = path_components(self.source_dirs[index].0.as_str());
        let patterns = split_exclusions(&self.source_dirs[index].1);
        is_skipped(&root, path, &patterns)
    }

    /// The path under the destination that an entry is written to.
    pub fn destination_path(&self, path: &Vec<String>) -> (r: String)
        ensures
            r@ == joined_all(self@.destination, texts(path@)),
    {
        join_all(self.destination.as_str(), path)
    }

    /// The entries to write under the destination, in order, given the
    /// tree found in each source directory: `None` where the directory does
    /// not exist, which is the same as a source without a tree. The entries
    /// of each existing source follow those of the sources before it, and an
    /// entry is left out where the source excludes it or a directory above it.
    pub fn copy(&self, trees: &Vec<Option<Vec<TreeEntry>>>) -> (r: Vec<TreeEntry>)
        ensures
            entry_views(r@) == planned(self@.sources, tree_views(trees@)),
    {
        let mut out: Vec<TreeEntry> = Vec::new();
        let mut i: usize = 0;
        assert(self@.sources.take(0) =~= Seq::<SourceView>::empty());
        assert(entry_views(out@) =~= Seq::<EntryView>::empty());
        while i < self.source_dirs.len()
            invariant
                i <= self.source_dirs@.len(),
                entry_views(out@) == planned(self@.sources.take(i as int), tree_views(trees@)),
            decreases self.source_dirs@.len() - i,
        {
            proof {
                let done = self@.sources.take(i + 1);
                assert(done.drop_last() =~= self@.sources.take(i as int));
                assert(done.last() == self@.sources[i as int]);
                assert(self@.sources[i as int] == SourceView {
                    root: self.source_dirs@[i as int].0@,
                    exclusions: texts(self.source_dirs@[i as int].1@),
                });
            }
            if i < trees.len() {
                match &trees[i] {
                    Some(listing) => {
                        assert(tree_of(tree_views(trees@), i as int) == Some(
                            entry_views(listing@),
                        ));
                        Self::copy_tree(
                            &self.source_dirs[i].0,
                            listing,
                            &self.source_dirs[i].1,
                            &mut out,
                        );
                    },
                    None => {
                        assert(tree_of(tree_views(trees@), i as int) is None);
                    },
                }
            }
            i += 1;
        }
        assert(self@.sources.take(i as int) =~= self@.sources);
        out
    }

    /// Adds to a list the entries of one source that are not left out.
    fn copy_tree(
        src: &String,
        entries: &Vec<TreeEntry>,
        exclusions: &Vec<String>,
        out: &mut Vec<TreeEntry>,
    )
        ensures
            entry_views(final(out)@) == entry_views(old(out)@) + kept(
                SourceView { root: src@, exclusions: texts(exclusions@) },
                entry_views(entries@),
            ),
    {
        let ghost source = SourceView { root: src@, exclusions: texts(exclusions@) };
        let root = path_components(src.as_str());
        let patterns = split_exclusions(exclusions);
        let ghost listing = entry_views(entries@);
        let mut j: usize = 0;
        proof {
            reveal(Seq::filter);
            assert(listing.take(0) =~= Seq::<EntryView>::empty());
            assert(entry_views(out@) =~= entry_views(old(out)@) + kept(source, listing.take(0)));
        }
        while j < entries.len()
            invariant
                j <= entries@.len(),
                listing == entry_views(entries@),
                source == (SourceView { root: src@, exclusions: texts(exclusions@) }),
                texts(root@) == components(src@),
                pattern_views(patterns@) == patterns_of(texts(exclusions@)),
                entry_views(out@) == entry_views(old(out)@) + kept(source, listing.take(j as int)),
            decreases entries@.len() - j,
        {
            let ghost before = out@;
            let skip = is_skipped(&root, &entries[j].path, &patterns);
            if !skip {
                out.push(clone_entry(&entries[j]));
                assert(entry_views(out@) =~= entry_views(before).push(entries@[j as int]@));
            }
            proof {
                reveal(Seq::filter);
                let done = listing.take(j + 1);
                assert(done.drop_last() =~= listing.take(j as int));
                assert(done.last() == entries@[j as int]@);
                assert(skip == skipped(source, done.last().path));
                assert(copies(source)(done.last()) == !skip);
                assert(entry_views(out@) =~= entry_views(old(out)@) + kept(source, done));
            }
            j += 1;
        }
        assert(listing.take(j as int) =~= listing);
    }
}

} // verus!
