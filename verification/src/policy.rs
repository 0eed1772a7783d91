//! The safe-delete policy: when archiving a video may remove its whole
//! folder from the remote side.

use vstd::prelude::*;
use crate::entry::{is_video, EntryView, RemoteEntry};

verus! {

/// Whether the folder that holds `file` may be deleted in its place: no
/// video other than `file` itself is among the leaves listed under it.
pub open spec fn safe_to_delete_parent(siblings: Seq<EntryView>, file: EntryView) -> bool {
    forall|i: int|
        0 <= i < siblings.len() ==> !((#[trigger] siblings[i]).kind is Video && siblings[i].id
            != file.id)
}

/// What to delete on the remote side when `file` is archived: its folder,
/// where that is not the root of the run and holds no other video; else the
/// file alone.
pub open spec fn deletion_target(file: EntryView, root_id: i64, siblings: Seq<EntryView>) -> i64 {
    if file.parent_id != root_id && safe_to_delete_parent(siblings, file) {
        file.parent_id
    } else {
        file.id
    }
}

/// No two entries of a listing share an identifier.
pub open spec fn distinct_ids(entries: Seq<EntryView>) -> bool {
    forall|i: int, j: int|
        0 <= i < entries.len() && 0 <= j < entries.len() && i != j ==> (#[trigger] entries[i]).id
            != (#[trigger] entries[j]).id
}

/// The first step of removing the remote copy of an archived video.
#[derive(Clone, Copy, Debug, PartialEq, Eq, Structural)]
pub enum DeletionStep {
    /// Delete the entry with this identifier; nothing more to find out.
    Delete { id: i64 },
    /// List the leaves under this folder again, then decide with
    /// [`resolve_deletion`].
    InspectParent { folder_id: i64 },
}

/// Decides, from a fresh listing of the leaves under the folder of `file`,
/// whether that folder holds no video besides `file`.
pub fn parent_safe_to_delete(siblings: &Vec<RemoteEntry>, file: &RemoteEntry) -> (safe: bool)
    ensures
        safe == safe_to_delete_parent(siblings.deep_view(), file@),
{
    let mut i: usize = 0;
    while i < siblings.len()
        invariant
            i <= siblings.len(),
            forall|j: int|
                0 <= j < i ==> !((#[trigger] siblings.deep_view()[j]).kind is Video
                    && siblings.deep_view()[j].id != file.id),
        decreases siblings.len() - i,
    {
        if siblings[i].is_video() && siblings[i].id != file.id {
            assert(siblings.deep_view()[i as int] == siblings[i as int]@);
            return false;
        }
        assert(siblings.deep_view()[i as int] == siblings[i as int]@);
        i += 1;
    }
    true
}

/// The first step for `file` in a run rooted at `root_id`.
pub open spec fn deletion_step(file: EntryView, root_id: i64) -> DeletionStep {
    if file.parent_id != root_id {
        DeletionStep::InspectParent { folder_id: file.parent_id }
    } else {
        DeletionStep::Delete { id: file.id }
    }
}

/// The entry to delete once the folder of `file` has been listed.
pub open spec fn resolved_target(file: EntryView, siblings: Seq<EntryView>) -> i64 {
    if safe_to_delete_parent(siblings, file) {
        file.parent_id
    } else {
        file.id
    }
}

/// Begins the removal of the remote copy of `file`. A file that lies
/// directly in the root of the run is deleted alone, and no listing is
/// needed; for any other, its folder has to be listed first.
pub fn plan_deletion(file: &RemoteEntry, root_id: i64) -> (step: DeletionStep)
    ensures
        step == deletion_step(file@, root_id),
{
    if file.parent_id != root_id {
        DeletionStep::InspectParent { folder_id: file.parent_id }
    } else {
        DeletionStep::Delete { id: file.id }
    }
}

/// Completes the removal that [`plan_deletion`] began with `InspectParent`:
/// given the fresh listing of the folder, names the entry to delete.
pub fn resolve_deletion(file: &RemoteEntry, siblings: &Vec<RemoteEntry>) -> (id: i64)
    ensures
        id == resolved_target(file@, siblings.deep_view()),
{
    if parent_safe_to_delete(siblings, file) {
        file.parent_id
    } else {
        file.id
    }
}

/// The two steps together delete what the policy names: the file alone if
/// it lies in the root, and else what the listing of its folder allows.
pub proof fn lemma_steps_reach_the_deletion_target(
    file: EntryView,
    root_id: i64,
    siblings: Seq<EntryView>,
)
    ensures
        deletion_target(file, root_id, siblings) == match deletion_step(file, root_id) {
            DeletionStep::Delete { id } => id,
            DeletionStep::InspectParent { .. } => resolved_target(file, siblings),
        },
{
}

/// A folder is deleted only where the policy vouches for it: if the target
/// is not the file itself, then the file lies outside the root, and no video
/// of the listing but the file is lost with the folder.
pub proof fn lemma_folder_is_deleted_only_when_safe(
    file: EntryView,
    root_id: i64,
    siblings: Seq<EntryView>,
)
    requires
        deletion_target(file, root_id, siblings) != file.id,
    ensures
        deletion_target(file, root_id, siblings) == file.parent_id,
        file.parent_id != root_id,
        forall|i: int|
            0 <= i < siblings.len() && (#[trigger] siblings[i]).kind is Video ==> siblings[i].id
                == file.id,
{
}

/// Where every video of a listing bears the identifier `id`, and no two
/// entries share an identifier, the listing has at most one video.
proof fn lemma_one_id_one_video(entries: Seq<EntryView>, id: i64)
    requires
        distinct_ids(entries),
        forall|i: int|
            0 <= i < entries.len() && (#[trigger] entries[i]).kind is Video ==> entries[i].id
                == id,
    ensures
        entries.filter(is_video()).len() <= 1,
    decreases entries.len(),
{
    reveal(Seq::filter);
    if entries.len() > 0 {
        let earlier = entries.drop_last();
        if entries.last().kind is Video {
            assert forall|i: int| 0 <= i < earlier.len() implies !is_video()(
                #[trigger] earlier[i],
            ) by {
                assert(earlier[i] == entries[i]);
                assert(entries.last() == entries[entries.len() - 1]);
            }
            earlier.lemma_all_neg_filter_empty(is_video());
        } else {
            assert forall|i: int, j: int|
                0 <= i < earlier.len() && 0 <= j < earlier.len() && i != j implies (
            #[trigger] earlier[i]).id != (#[trigger] earlier[j]).id by {
                assert(earlier[i] == entries[i] && earlier[j] == entries[j]);
            }
            assert forall|i: int| 0 <= i < earlier.len() && (#[trigger] earlier[i]).kind is Video
                implies earlier[i].id == id by {
                assert(earlier[i] == entries[i]);
            }
            lemma_one_id_one_video(earlier, id);
        }
    }
}

/// A listing with videos at two different positions has at least two videos.
proof fn lemma_two_positions_two_videos(entries: Seq<EntryView>, i: int, j: int)
    requires
        0 <= i < j < entries.len(),
        entries[i].kind is Video,
        entries[j].kind is Video,
    ensures
        entries.filter(is_video()).len() >= 2,
    decreases entries.len(),
{
    reveal(Seq::filter);
    let earlier = entries.drop_last();
    if j == entries.len() - 1 {
        assert(earlier[i] == entries[i]);
        earlier.lemma_filter_contains(is_video(), i);
    } else {
        assert(earlier[i] == entries[i] && earlier[j] == entries[j]);
        lemma_two_positions_two_videos(earlier, i, j);
    }
}

/// A folder in which two or more videos lie is never safe to delete, whichever
/// of its files is being archived.
pub proof fn lemma_shared_folder_is_unsafe(siblings: Seq<EntryView>, file: EntryView)
    requires
        distinct_ids(siblings),
        siblings.filter(is_video()).len() >= 2,
    ensures
        !safe_to_delete_parent(siblings, file),
{
    if safe_to_delete_parent(siblings, file) {
        lemma_one_id_one_video(siblings, file.id);
    }
}

/// A folder whose only video is the one being archived is safe to delete,
/// whatever else lies in it.
pub proof fn lemma_only_video_is_safe(siblings: Seq<EntryView>, file: EntryView)
    requires
        siblings.contains(file),
        file.kind is Video,
        siblings.filter(is_video()).len() == 1,
    ensures
        safe_to_delete_parent(siblings, file),
{
    let at = choose|k: int| 0 <= k < siblings.len() && siblings[k] == file;
    assert forall|i: int| 0 <= i < siblings.len() implies !((#[trigger] siblings[i]).kind is Video
        && siblings[i].id != file.id) by {
        if siblings[i].kind is Video && siblings[i].id != file.id {
            if i < at {
                lemma_two_positions_two_videos(siblings, i, at);
            } else {
                lemma_two_positions_two_videos(siblings, at, i);
            }
        }
    }
}

} // verus!
