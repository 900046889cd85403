//! File trees as lists of entries, and what writing such a list under a
//! destination leaves there.

use crate::templates::path::texts;
use vstd::prelude::*;

verus! {

/// What stands at a path: a directory, or a file with its bytes.
#[derive(Debug, PartialEq, Eq)]
pub enum Node {
    /// A directory.
    Directory,
    /// A file and its content.
    File(Vec<u8>),
}

/// A node as a mathematical value.
pub enum NodeView {
    /// A directory.
    Directory,
    /// A file and its content.
    File(Seq<u8>),
}

impl View for Node {
    type V = NodeView;

    open spec fn view(&self) -> NodeView {
        match self {
            Node::Directory => NodeView::Directory,
            Node::File(content) => NodeView::File(content@),
        }
    }
}

/// One entry of a file tree: the names that lead to it from the root of
/// the tree, and what stands there.
#[derive(Debug, PartialEq, Eq)]
pub struct TreeEntry {
    /// The names from the root of the tree down to the entry.
    pub path: Vec<String>,
    /// What stands at the path.
    pub node: Node,
}

/// An entry as a mathematical value.
pub struct EntryView {
    /// The names from the root of the tree down to the entry.
    pub path: Seq<Seq<char>>,
    /// What stands at the path.
    pub node: NodeView,
}

impl View for TreeEntry {
    type V = EntryView;

    open spec fn view(&self) -> EntryView {
        EntryView { path: texts(self.path@), node: self.node@ }
    }
}

/// The views of a list of entries.
pub open spec fn entry_views(entries: Seq<TreeEntry>) -> Seq<EntryView> {
    entries.map_values(|entry: TreeEntry| entry@)
}

/// Whether a path is one of the first prefixes of another: of those no
/// longer than the limit, the empty one included.
pub open spec fn leads_to(path: Seq<Seq<char>>, target: Seq<Seq<char>>, limit: int) -> bool {
    path.len() <= limit && path.len() <= target.len() && path == target.take(path.len() as int)
}

/// Whether a file stands in the way of a path: at one of its proper prefixes.
pub open spec fn blocked(tree: Map<Seq<Seq<char>>, NodeView>, path: Seq<Seq<char>>) -> bool {
    exists|k: int|
        0 <= k < path.len() && tree.contains_key(#[trigger] path.take(k)) && tree[path.take(
            k,
        )] is File
}

/// The tree after the prefixes of a path, up to a length, have been made
/// directories.
pub open spec fn with_directories(
    tree: Map<Seq<Seq<char>>, NodeView>,
    path: Seq<Seq<char>>,
    limit: int,
) -> Map<Seq<Seq<char>>, NodeView> {
    Map::new(
        |at: Seq<Seq<char>>| tree.contains_key(at) || leads_to(at, path, limit),
        |at: Seq<Seq<char>>|
            if leads_to(at, path, limit) {
                NodeView::Directory
            } else {
                tree[at]
            },
    )
}

/// The tree after an entry has been written into it, or `None` where the
/// entry cannot be written. A directory is made together with the
/// directories above it, and stays as it is where it exists. A file is
/// written after the directories above it have been made, in place of a
/// file that stood at its path. Nothing can be written below a file, no
/// directory in place of a file, and no file in place of a directory or
/// of the root.
pub open spec fn placed(tree: Map<Seq<Seq<char>>, NodeView>, entry: EntryView) -> Option<
    Map<Seq<Seq<char>>, NodeView>,
> {
    let path = entry.path;
    if blocked(tree, path) {
        None
    } else {
        match entry.node {
            NodeView::Directory => if tree.contains_key(path) && tree[path] is File {
                None
            } else {
                Some(with_directories(tree, path, path.len() as int))
            },
            NodeView::File(content) => if path.len() == 0 || (tree.contains_key(path)
                && tree[path] is Directory) {
                None
            } else {
                Some(
                    with_directories(tree, path, path.len() - 1).insert(
                        path,
                        NodeView::File(content),
                    ),
                )
            },
        }
    }
}

/// The tree after a list of entries has been written into it in order, or
/// `None` where one of them cannot be written.
pub open spec fn placed_all(tree: Map<Seq<Seq<char>>, NodeView>, entries: Seq<EntryView>) -> Option<
    Map<Seq<Seq<char>>, NodeView>,
>
    decreases entries.len(),
{
    if entries.len() == 0 {
        Some(tree)
    } else {
        match placed_all(tree, entries.drop_last()) {
            Some(before) => placed(before, entries.last()),
            None => None,
        }
    }
}

/// What the last entry of a list at a path holds, if the list has an
/// entry at the path.
pub open spec fn last_at(entries: Seq<EntryView>, path: Seq<Seq<char>>) -> Option<NodeView>
    decreases entries.len(),
{
    if entries.len() == 0 {
        None
    } else if entries.last().path == path {
        Some(entries.last().node)
    } else {
        last_at(entries.drop_last(), path)
    }
}

/// Of two lists written one after the other, the later one decides what
/// is the last entry at a path.
pub proof fn lemma_last_at_concat(
    first: Seq<EntryView>,
    second: Seq<EntryView>,
    path: Seq<Seq<char>>,
)
    ensures
        last_at(first + second, path) == match last_at(second, path) {
            Some(node) => Some(node),
            None => last_at(first, path),
        },
    decreases second.len(),
{
    if second.len() == 0 {
        assert(first + second =~= first);
    } else {
        assert((first + second).drop_last() =~= first + second.drop_last());
        assert((first + second).last() == second.last());
        lemma_last_at_concat(first, second.drop_last(), path);
    }
}

/// Last writer wins: where a list of entries could be written, the tree
/// holds at each path what the last entry at that path holds.
pub proof fn lemma_last_write_stands(
    tree: Map<Seq<Seq<char>>, NodeView>,
    entries: Seq<EntryView>,
    path: Seq<Seq<char>>,
)
    requires
        placed_all(tree, entries) is Some,
        last_at(entries, path) is Some,
    ensures
        placed_all(tree, entries)->0.contains_key(path),
        placed_all(tree, entries)->0[path] == last_at(entries, path)->0,
    decreases entries.len(),
{
    let front = entries.drop_last();
    let last = entries.last();
    let before = placed_all(tree, front)->0;
    let end = placed_all(tree, entries)->0;
    assert(placed(before, last) == Some(end));
    if last.path == path {
        assert(leads_to(path, path, path.len() as int)) by {
            assert(path.take(path.len() as int) =~= path);
        }
    } else {
        lemma_last_write_stands(tree, front, path);
        let limit = match last.node {
            NodeView::Directory => last.path.len() as int,
            NodeView::File(_) => last.path.len() - 1,
        };
        if leads_to(path, last.path, limit) {
            assert(path.len() < last.path.len()) by {
                if path.len() == last.path.len() {
                    assert(last.path.take(path.len() as int) =~= last.path);
                }
            }
            assert(last.path.take(path.len() as int) == path);
            assert(!blocked(before, last.path));
        }
    }
}

/// Writing a list of entries leaves alone every path that is neither the
/// path of an entry nor above one.
pub proof fn lemma_other_paths_untouched(
    tree: Map<Seq<Seq<char>>, NodeView>,
    entries: Seq<EntryView>,
    path: Seq<Seq<char>>,
)
    requires
        placed_all(tree, entries) is Some,
        forall|i: int|
            0 <= i < entries.len() ==> !leads_to(
                path,
                (#[trigger] entries[i]).path,
                entries[i].path.len() as int,
            ),
    ensures
        placed_all(tree, entries)->0.contains_key(path) == tree.contains_key(path),
        tree.contains_key(path) ==> placed_all(tree, entries)->0[path] == tree[path],
    decreases entries.len(),
{
    if entries.len() > 0 {
        let front = entries.drop_last();
        let last = entries.last();
        assert forall|i: int| 0 <= i < front.len() implies !leads_to(
            path,
            (#[trigger] front[i]).path,
            front[i].path.len() as int,
        ) by {
            assert(front[i] == entries[i]);
        }
        lemma_other_paths_untouched(tree, front, path);
        assert(!leads_to(path, last.path, last.path.len() as int));
        assert(path != last.path) by {
            if path == last.path {
                assert(last.path.take(last.path.len() as int) =~= last.path);
            }
        }
    }
}

} // verus!
