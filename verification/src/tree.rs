//! The remote folder tree as a mathematical object, and what it means to
//! flatten it.

use vstd::prelude::*;
use crate::entry::EntryView;

verus! {

/// A node of the remote tree together with everything below it.
pub enum RemoteNode {
    /// A file: a video or anything else that is not a folder.
    Leaf { entry: EntryView },
    /// A folder and the nodes that a listing of it returns, in listing order.
    Folder { entry: EntryView, children: Seq<RemoteNode> },
}

impl RemoteNode {
    /// The entry that a listing of the parent folder shows for this node.
    pub open spec fn entry(self) -> EntryView {
        match self {
            RemoteNode::Leaf { entry } => entry,
            RemoteNode::Folder { entry, .. } => entry,
        }
    }

    /// The leaves at or below this node, in traversal order.
    pub open spec fn leaves(self) -> Seq<EntryView> {
        match self {
            RemoteNode::Leaf { entry } => seq![entry],
            RemoteNode::Folder { children, .. } => forest_leaves(children),
        }
    }
}

/// The entries that a listing shows for the nodes of `forest`.
pub open spec fn roots(forest: Seq<RemoteNode>) -> Seq<EntryView> {
    Seq::new(forest.len(), |i: int| forest[i].entry())
}

/// The flattening of a forest: the leaves of its first tree, then those of
/// the second, and so on; folders are expanded depth first and leave nothing
/// of themselves behind.
pub open spec fn forest_leaves(forest: Seq<RemoteNode>) -> Seq<EntryView>
    decreases forest,
{
    if forest.len() == 0 {
        Seq::empty()
    } else {
        let head = match forest[0] {
            RemoteNode::Leaf { entry } => seq![entry],
            RemoteNode::Folder { children, .. } => forest_leaves(children),
        };
        head + forest_leaves(forest.drop_first())
    }
}

/// The number of nodes in a forest, folders included.
pub open spec fn forest_size(forest: Seq<RemoteNode>) -> nat
    decreases forest,
{
    if forest.len() == 0 {
        0
    } else {
        let below = match forest[0] {
            RemoteNode::Leaf { .. } => 0,
            RemoteNode::Folder { children, .. } => forest_size(children),
        };
        1 + below + forest_size(forest.drop_first())
    }
}

/// The kinds in a forest agree with its shape: a node has children exactly
/// if its entry says that it is a folder.
pub open spec fn forest_wf(forest: Seq<RemoteNode>) -> bool
    decreases forest,
{
    if forest.len() == 0 {
        true
    } else {
        let head = match forest[0] {
            RemoteNode::Leaf { entry } => !(entry.kind is Folder),
            RemoteNode::Folder { entry, children } => entry.kind is Folder && forest_wf(children),
        };
        head && forest_wf(forest.drop_first())
    }
}

/// Flattening goes tree by tree: the leaves of two forests laid end to end
/// are the leaves of the first followed by the leaves of the second.
pub proof fn lemma_forest_leaves_concat(first: Seq<RemoteNode>, second: Seq<RemoteNode>)
    ensures
        forest_leaves(first + second) == forest_leaves(first) + forest_leaves(second),
    decreases first.len(),
{
    if first.len() == 0 {
        assert(first + second == second);
    } else {
        assert((first + second).drop_first() == first.drop_first() + second);
        assert((first + second)[0] == first[0]);
        lemma_forest_leaves_concat(first.drop_first(), second);
    }
}

/// The size of two forests laid end to end is the sum of their sizes.
pub proof fn lemma_forest_size_concat(first: Seq<RemoteNode>, second: Seq<RemoteNode>)
    ensures
        forest_size(first + second) == forest_size(first) + forest_size(second),
    decreases first.len(),
{
    if first.len() == 0 {
        assert(first + second == second);
    } else {
        assert((first + second).drop_first() == first.drop_first() + second);
        assert((first + second)[0] == first[0]);
        lemma_forest_size_concat(first.drop_first(), second);
    }
}

/// Two well-formed forests laid end to end are well formed, and conversely.
pub proof fn lemma_forest_wf_concat(first: Seq<RemoteNode>, second: Seq<RemoteNode>)
    ensures
        forest_wf(first + second) == (forest_wf(first) && forest_wf(second)),
    decreases first.len(),
{
    if first.len() == 0 {
        assert(first + second == second);
    } else {
        assert((first + second).drop_first() == first.drop_first() + second);
        assert((first + second)[0] == first[0]);
        lemma_forest_wf_concat(first.drop_first(), second);
    }
}

/// Flattening never yields a folder.
pub proof fn lemma_leaves_are_not_folders(forest: Seq<RemoteNode>)
    requires
        forest_wf(forest),
    ensures
        forall|k: int|
            0 <= k < forest_leaves(forest).len() ==> !((#[trigger] forest_leaves(forest)[k]).kind
                is Folder),
    decreases forest,
{
    if forest.len() > 0 {
        match forest[0] {
            RemoteNode::Leaf { .. } => {},
            RemoteNode::Folder { children, .. } => {
                lemma_leaves_are_not_folders(children);
            },
        }
        lemma_leaves_are_not_folders(forest.drop_first());
    }
}

/// An entry is among the leaves of a forest exactly if it is among the
/// leaves of one of its trees.
pub proof fn lemma_forest_leaves_membership(forest: Seq<RemoteNode>, entry: EntryView)
    ensures
        forest_leaves(forest).contains(entry) <==> exists|i: int|
            0 <= i < forest.len() && (#[trigger] forest[i]).leaves().contains(entry),
    decreases forest.len(),
{
    if forest.len() > 0 {
        let head = forest[0].leaves();
        let rest = forest.drop_first();
        let tail = forest_leaves(rest);
        lemma_forest_leaves_membership(rest, entry);
        assert(forest_leaves(forest) == head + tail);
        if forest_leaves(forest).contains(entry) {
            let k = choose|k: int| 0 <= k < (head + tail).len() && (head + tail)[k] == entry;
            if k < head.len() {
                assert(head[k] == entry);
                assert(forest[0].leaves().contains(entry));
            } else {
                assert(tail[k - head.len()] == entry);
                let i = choose|i: int|
                    0 <= i < rest.len() && (#[trigger] rest[i]).leaves().contains(entry);
                assert(forest[i + 1] == rest[i]);
                assert(forest[i + 1].leaves().contains(entry));
            }
        }
        if exists|i: int|
            0 <= i < forest.len() && (#[trigger] forest[i]).leaves().contains(entry) {
            let i = choose|i: int|
                0 <= i < forest.len() && (#[trigger] forest[i]).leaves().contains(entry);
            if i == 0 {
                let k = choose|k: int| 0 <= k < head.len() && head[k] == entry;
                assert((head + tail)[k] == entry);
            } else {
                assert(rest[i - 1] == forest[i]);
                assert(rest[i - 1].leaves().contains(entry));
                let k = choose|k: int| 0 <= k < tail.len() && tail[k] == entry;
                assert((head + tail)[head.len() + k] == entry);
            }
        }
    }
}

/// What lies under a folder is what lies under its direct children: an entry
/// is a leaf of the folder exactly if it is a leaf of one of the children.
pub proof fn lemma_folder_leaves_are_childrens_leaves(
    folder: EntryView,
    children: Seq<RemoteNode>,
    entry: EntryView,
)
    ensures
        (RemoteNode::Folder { entry: folder, children }).leaves().contains(entry) <==> exists|
            i: int,
        |
            0 <= i < children.len() && (#[trigger] children[i]).leaves().contains(entry),
{
    lemma_forest_leaves_membership(children, entry);
}

} // verus!
