//! The tree flattener: walks the remote folder tree one listing at a time
//! and collects its leaves.
//!
//! The flattener does not talk to the remote store. It names the folder it
//! needs listed next; whoever drives it fetches that listing and hands it
//! in, until no folder is left.

use vstd::prelude::*;
use crate::entry::{EntryView, RemoteEntry};
use crate::tree::{
    forest_leaves, forest_size, forest_wf, lemma_forest_leaves_concat, lemma_forest_size_concat,
    lemma_forest_wf_concat, roots, RemoteNode,
};

verus! {

/// The mathematical value of a [`Flattener`].
#[verifier::ext_equal]
pub struct FlattenerView {
    /// The folder whose listing is needed next; `None` once the walk is over.
    pub awaiting: Option<i64>,
    /// The entries that are still to be looked at, the next one first.
    pub pending: Seq<EntryView>,
    /// The leaves found so far, in traversal order.
    pub leaves: Seq<EntryView>,
    /// The folders whose listing failed, in the order in which they failed.
    pub failed: Seq<i64>,
}

impl FlattenerView {
    /// The state before the first listing: the root folder is awaited.
    pub open spec fn start(root_id: i64) -> FlattenerView {
        FlattenerView {
            awaiting: Some(root_id),
            pending: Seq::empty(),
            leaves: Seq::empty(),
            failed: Seq::empty(),
        }
    }

    /// Whether no folder is among the leaves found so far.
    pub open spec fn leaves_are_files(self) -> bool {
        forall|k: int|
            0 <= k < self.leaves.len() ==> !((#[trigger] self.leaves[k]).kind is Folder)
    }

    /// Moves the leaves at the head of `pending` over to `leaves`, up to the
    /// first folder, which becomes the awaited one; with no folder left the
    /// walk is over.
    pub open spec fn settle(self) -> FlattenerView
        decreases self.pending.len(),
    {
        if self.pending.len() == 0 {
            FlattenerView { awaiting: None, ..self }
        } else if self.pending[0].kind is Folder {
            FlattenerView {
                awaiting: Some(self.pending[0].id),
                pending: self.pending.drop_first(),
                ..self
            }
        } else {
            (FlattenerView {
                pending: self.pending.drop_first(),
                leaves: self.leaves.push(self.pending[0]),
                ..self
            }).settle()
        }
    }

    /// The state after the listing of the awaited folder came in. The
    /// children go in front of what was pending, in listing order. A listing
    /// that failed counts as an empty one, and the folder is noted. Once the
    /// walk is over, nothing changes any more.
    pub open spec fn accept(self, listing: Option<Seq<EntryView>>) -> FlattenerView {
        match self.awaiting {
            None => self,
            Some(folder_id) => match listing {
                Some(children) => (FlattenerView {
                    pending: children + self.pending,
                    ..self
                }).settle(),
                None => (FlattenerView { failed: self.failed.push(folder_id), ..self }).settle(),
            },
        }
    }
}

/// A stack of entries, read from its top.
spec fn from_top(stack: Seq<RemoteEntry>) -> Seq<EntryView> {
    Seq::new(stack.len(), |i: int| stack[stack.len() - 1 - i]@)
}

/// The state of one walk over the remote tree.
pub struct Flattener {
    awaiting: Option<i64>,
    work: Vec<RemoteEntry>,
    leaves: Vec<RemoteEntry>,
    failed: Vec<i64>,
}

impl View for Flattener {
    type V = FlattenerView;

    closed spec fn view(&self) -> FlattenerView {
        FlattenerView {
            awaiting: self.awaiting,
            pending: from_top(self.work@),
            leaves: self.leaves.deep_view(),
            failed: self.failed@,
        }
    }
}

impl Flattener {
    /// Begins a walk at the folder `root_id`.
    pub fn new(root_id: i64) -> (flattener: Flattener)
        ensures
            flattener@ == FlattenerView::start(root_id),
    {
        let flattener = Flattener {
            awaiting: Some(root_id),
            work: Vec::new(),
            leaves: Vec::new(),
            failed: Vec::new(),
        };
        assert(flattener@.pending == Seq::<EntryView>::empty());
        assert(flattener@.leaves == Seq::<EntryView>::empty());
        flattener
    }

    /// The folder to list next, or `None` when the walk is over.
    pub fn pending_folder(&self) -> (folder: Option<i64>)
        ensures
            folder == self@.awaiting,
    {
        self.awaiting
    }

    /// The leaves found so far.
    pub fn leaves(&self) -> (leaves: &Vec<RemoteEntry>)
        ensures
            leaves.deep_view() == self@.leaves,
    {
        &self.leaves
    }

    /// The folders whose listing failed and was taken for empty.
    pub fn failed_folders(&self) -> (failed: &Vec<i64>)
        ensures
            failed@ == self@.failed,
    {
        &self.failed
    }

    /// Ends the walk and hands out the leaves found.
    pub fn into_leaves(self) -> (leaves: Vec<RemoteEntry>)
        ensures
            leaves.deep_view() == self@.leaves,
    {
        self.leaves
    }

    fn settle(&mut self)
        ensures
            final(self)@ == old(self)@.settle(),
    {
        let ghost target = self@.settle();
        loop
            invariant
                target == old(self)@.settle(),
                self@.settle() == target,
            decreases self.work.len(),
        {
            let ghost before = self@;
            match self.work.pop() {
                None => {
                    self.awaiting = None;
                    return;
                },
                Some(top) => {
                    assert(before.pending[0] == top@);
                    assert(from_top(self.work@) == before.pending.drop_first());
                    if top.is_folder() {
                        self.awaiting = Some(top.id);
                        return;
                    } else {
                        let ghost found = self.leaves.deep_view();
                        let ghost leaf = top@;
                        self.leaves.push(top);
                        assert(self.leaves.deep_view() == found.push(leaf));
                    }
                },
            }
        }
    }

    /// Takes in the listing of the folder that [`Flattener::pending_folder`]
    /// named. `None` stands for a listing that the remote store refused: the
    /// folder is then treated as empty and remembered as failed.
    pub fn accept_listing(&mut self, listing: Option<Vec<RemoteEntry>>)
        ensures
            final(self)@ == old(self)@.accept(listing.deep_view()),
            old(self)@.leaves_are_files() ==> final(self)@.leaves_are_files(),
    {
        proof {
            if self@.leaves_are_files() {
                lemma_accept_keeps_folders_out(self@, listing.deep_view());
            }
        }
        match self.awaiting {
            None => {},
            Some(folder_id) => {
                match listing {
                    Some(mut children) => {
                        let ghost listed = children.deep_view();
                        let ghost start = self@;
                        assert(listed.skip(children.len() as int) + start.pending
                            == start.pending);
                        while children.len() > 0
                            invariant
                                children.deep_view() == listed.take(children.len() as int),
                                children.len() <= listed.len(),
                                self@ == (FlattenerView {
                                    pending: listed.skip(children.len() as int) + start.pending,
                                    ..start
                                }),
                            decreases children.len(),
                        {
                            let ghost stack = self.work@;
                            let ghost rest = children.len() - 1;
                            let child = children.pop().unwrap();
                            assert(child@ == listed[rest]) by {
                                assert(listed.take(rest + 1)[rest] == listed[rest]);
                            }
                            self.work.push(child);
                            assert(from_top(self.work@) == seq![listed[rest]] + from_top(stack));
                            assert(listed.skip(rest) == seq![listed[rest]] + listed.skip(rest + 1));
                            assert(children.deep_view() == listed.take(rest));
                        }
                        assert(listed.skip(0) == listed);
                    },
                    None => {
                        self.failed.push(folder_id);
                    },
                }
                self.settle();
            },
        }
    }
}

proof fn lemma_settle_keeps_folders_out(state: FlattenerView)
    requires
        state.leaves_are_files(),
    ensures
        state.settle().leaves_are_files(),
    decreases state.pending.len(),
{
    if state.pending.len() > 0 && !(state.pending[0].kind is Folder) {
        let moved = FlattenerView {
            pending: state.pending.drop_first(),
            leaves: state.leaves.push(state.pending[0]),
            ..state
        };
        lemma_settle_keeps_folders_out(moved);
    }
}

/// Whatever the listings say, no folder ever gets among the leaves.
pub proof fn lemma_accept_keeps_folders_out(state: FlattenerView, listing: Option<Seq<EntryView>>)
    requires
        state.leaves_are_files(),
    ensures
        state.accept(listing).leaves_are_files(),
{
    match state.awaiting {
        None => {},
        Some(folder_id) => match listing {
            Some(children) => {
                lemma_settle_keeps_folders_out(
                    FlattenerView { pending: children + state.pending, ..state },
                );
            },
            None => {
                lemma_settle_keeps_folders_out(
                    FlattenerView { failed: state.failed.push(folder_id), ..state },
                );
            },
        },
    }
}

/// A forest without the leaves at its head: it is empty or begins with a
/// folder.
pub open spec fn strip_leaves(forest: Seq<RemoteNode>) -> Seq<RemoteNode>
    decreases forest.len(),
{
    if forest.len() == 0 || forest[0] is Folder {
        forest
    } else {
        strip_leaves(forest.drop_first())
    }
}

/// What is left to walk once the folder at the head of `agenda` has been
/// listed: its children, then the rest, without the leaves at the head.
pub open spec fn next_agenda(agenda: Seq<RemoteNode>) -> Seq<RemoteNode>
    recommends
        agenda.len() > 0,
        agenda[0] is Folder,
{
    strip_leaves(agenda[0]->children + agenda.drop_first())
}

/// The state of a walk agrees with a part of the remote tree: `agenda` is
/// what is left to walk, the awaited folder at its head, and the leaves
/// found so far followed by the leaves of the agenda make up `total`.
pub open spec fn tracks(
    state: FlattenerView,
    agenda: Seq<RemoteNode>,
    total: Seq<EntryView>,
) -> bool {
    &&& forest_wf(agenda)
    &&& state.leaves + forest_leaves(agenda) == total
    &&& match state.awaiting {
        Some(folder_id) => {
            &&& agenda.len() > 0
            &&& agenda[0] is Folder
            &&& agenda[0].entry().id == folder_id
            &&& state.pending == roots(agenda.drop_first())
        },
        None => agenda.len() == 0 && state.pending.len() == 0,
    }
}

/// The walk as a whole: as long as a folder is awaited, it is answered with
/// the listing that the tree holds for it.
pub open spec fn traverse(state: FlattenerView, agenda: Seq<RemoteNode>) -> FlattenerView
    decreases forest_size(agenda),
{
    if state.awaiting is Some && agenda.len() > 0 && agenda[0] is Folder {
        proof {
            lemma_next_agenda_is_smaller(agenda);
        }
        traverse(state.accept(Some(roots(agenda[0]->children))), next_agenda(agenda))
    } else {
        state
    }
}

proof fn lemma_strip_leaves_is_no_larger(forest: Seq<RemoteNode>)
    ensures
        forest_size(strip_leaves(forest)) <= forest_size(forest),
    decreases forest.len(),
{
    if forest.len() > 0 && !(forest[0] is Folder) {
        lemma_strip_leaves_is_no_larger(forest.drop_first());
    }
}

/// Every listing makes the agenda smaller, so a walk over a tree ends.
pub proof fn lemma_next_agenda_is_smaller(agenda: Seq<RemoteNode>)
    requires
        agenda.len() > 0,
        agenda[0] is Folder,
    ensures
        forest_size(next_agenda(agenda)) < forest_size(agenda),
{
    let children = agenda[0]->children;
    let rest = agenda.drop_first();
    lemma_forest_size_concat(children, rest);
    lemma_strip_leaves_is_no_larger(children + rest);
}

proof fn lemma_settle_tracks(state: FlattenerView, forest: Seq<RemoteNode>)
    requires
        forest_wf(forest),
        state.pending == roots(forest),
    ensures
        tracks(state.settle(), strip_leaves(forest), state.leaves + forest_leaves(forest)),
        state.settle().failed == state.failed,
    decreases forest.len(),
{
    if forest.len() == 0 {
    } else {
        let rest = forest.drop_first();
        assert(state.pending[0] == forest[0].entry());
        assert(state.pending.drop_first() == roots(rest));
        if forest[0] is Folder {
        } else {
            let moved = FlattenerView {
                pending: state.pending.drop_first(),
                leaves: state.leaves.push(state.pending[0]),
                ..state
            };
            lemma_settle_tracks(moved, rest);
            assert(moved.leaves + forest_leaves(rest) == state.leaves + forest_leaves(forest));
        }
    }
}

/// A fresh walk agrees with the tree below its root.
pub proof fn lemma_start_tracks(root: EntryView, children: Seq<RemoteNode>)
    requires
        root.kind is Folder,
        forest_wf(children),
    ensures
        tracks(
            FlattenerView::start(root.id),
            seq![RemoteNode::Folder { entry: root, children }],
            forest_leaves(children),
        ),
{
    let agenda = seq![RemoteNode::Folder { entry: root, children }];
    let rest = agenda.drop_first();
    assert(rest == Seq::<RemoteNode>::empty());
    assert(forest_wf(rest));
    assert(forest_leaves(rest) == Seq::<EntryView>::empty());
    assert(agenda[0] == (RemoteNode::Folder { entry: root, children }));
    assert(forest_wf(agenda));
    assert(forest_leaves(agenda) == forest_leaves(children) + forest_leaves(rest));
    assert(roots(rest) == Seq::<EntryView>::empty());
}

/// A walk that agrees with the tree goes on agreeing with it when the
/// awaited folder is answered with the listing that the tree holds for it.
pub proof fn lemma_listing_keeps_track(
    state: FlattenerView,
    agenda: Seq<RemoteNode>,
    total: Seq<EntryView>,
)
    requires
        tracks(state, agenda, total),
        state.awaiting is Some,
    ensures
        tracks(state.accept(Some(roots(agenda[0]->children))), next_agenda(agenda), total),
        state.accept(Some(roots(agenda[0]->children))).failed == state.failed,
{
    let children = agenda[0]->children;
    let rest = agenda.drop_first();
    let loaded = FlattenerView { pending: roots(children) + state.pending, ..state };
    assert(loaded.pending == roots(children + rest));
    lemma_forest_wf_concat(children, rest);
    lemma_forest_leaves_concat(children, rest);
    lemma_settle_tracks(loaded, children + rest);
}

/// A walk that agrees with the tree and awaits nothing has found exactly the
/// leaves of the tree.
pub proof fn lemma_done_has_all_leaves(
    state: FlattenerView,
    agenda: Seq<RemoteNode>,
    total: Seq<EntryView>,
)
    requires
        tracks(state, agenda, total),
        state.awaiting is None,
    ensures
        state.leaves == total,
{
}

proof fn lemma_traverse_tracks(
    state: FlattenerView,
    agenda: Seq<RemoteNode>,
    total: Seq<EntryView>,
)
    requires
        tracks(state, agenda, total),
    ensures
        traverse(state, agenda).awaiting is None,
        traverse(state, agenda).pending.len() == 0,
        traverse(state, agenda).leaves == total,
        traverse(state, agenda).failed == state.failed,
    decreases forest_size(agenda),
{
    if state.awaiting is Some {
        lemma_next_agenda_is_smaller(agenda);
        lemma_listing_keeps_track(state, agenda, total);
        lemma_traverse_tracks(
            state.accept(Some(roots(agenda[0]->children))),
            next_agenda(agenda),
            total,
        );
    }
}

/// Walking the tree below a folder, every listing answered as the tree has
/// it, ends with exactly the flattening of the tree: every leaf, in
/// traversal order, and no folder.
pub proof fn lemma_walk_flattens(root: EntryView, children: Seq<RemoteNode>)
    requires
        root.kind is Folder,
        forest_wf(children),
    ensures
        ({
            let end = traverse(
                FlattenerView::start(root.id),
                seq![RemoteNode::Folder { entry: root, children }],
            );
            &&& end.awaiting is None
            &&& end.leaves == forest_leaves(children)
            &&& end.failed.len() == 0
        }),
{
    lemma_start_tracks(root, children);
    lemma_traverse_tracks(
        FlattenerView::start(root.id),
        seq![RemoteNode::Folder { entry: root, children }],
        forest_leaves(children),
    );
}

proof fn lemma_settle_keeps_failed(state: FlattenerView, failed: Seq<i64>)
    ensures
        (FlattenerView { failed, ..state }).settle() == (FlattenerView {
            failed,
            ..state.settle()
        }),
    decreases state.pending.len(),
{
    if state.pending.len() > 0 && !(state.pending[0].kind is Folder) {
        let moved = FlattenerView {
            pending: state.pending.drop_first(),
            leaves: state.leaves.push(state.pending[0]),
            ..state
        };
        lemma_settle_keeps_failed(moved, failed);
    }
}

/// A listing that failed is taken for an empty one, but for the note that is
/// made of the folder.
pub proof fn lemma_failed_listing_counts_as_empty(state: FlattenerView)
    requires
        state.awaiting is Some,
    ensures
        state.accept(None) == (FlattenerView {
            failed: state.failed.push(state.awaiting->0),
            ..state.accept(Some(Seq::empty()))
        }),
{
    assert(Seq::<EntryView>::empty() + state.pending == state.pending);
    lemma_settle_keeps_failed(state, state.failed.push(state.awaiting->0));
}

} // verus!
