//! Entries of the remote folder tree.

use vstd::prelude::*;
use vstd::string::StringExecFns;

verus! {

/// What a node of the remote tree is. Folders are containers and never reach
/// the output of a traversal; videos are what gets downloaded; anything else
/// (subtitles, metadata) only accompanies a video.
#[derive(Clone, Copy, Debug, PartialEq, Eq, Structural)]
pub enum EntryKind {
    Folder,
    Video,
    Other,
}

/// One node of the remote tree, as the remote store reports it.
#[derive(Debug, PartialEq, Eq)]
pub struct RemoteEntry {
    /// Identifier assigned by the remote store; unique within the account.
    pub id: i64,
    pub name: String,
    pub kind: EntryKind,
    /// The folder this node lives in directly.
    pub parent_id: i64,
    pub size: i64,
}

/// The mathematical value of a [`RemoteEntry`].
#[verifier::ext_equal]
pub struct EntryView {
    pub id: i64,
    pub name: Seq<char>,
    pub kind: EntryKind,
    pub parent_id: i64,
    pub size: i64,
}

impl View for RemoteEntry {
    type V = EntryView;

    open spec fn view(&self) -> EntryView {
        EntryView {
            id: self.id,
            name: self.name@,
            kind: self.kind,
            parent_id: self.parent_id,
            size: self.size,
        }
    }
}

impl DeepView for RemoteEntry {
    type V = EntryView;

    open spec fn deep_view(&self) -> EntryView {
        self@
    }
}

impl Clone for RemoteEntry {
    fn clone(&self) -> (copy: Self)
        ensures
            copy == *self,
    {
        RemoteEntry {
            id: self.id,
            name: self.name.clone(),
            kind: self.kind,
            parent_id: self.parent_id,
            size: self.size,
        }
    }
}

/// Picks the videos out of a listing.
pub open spec fn is_video() -> spec_fn(EntryView) -> bool {
    |entry: EntryView| entry.kind is Video
}

/// The type tag by which the remote store marks a folder.
pub open spec fn folder_tag() -> Seq<char> {
    "FOLDER"@
}

/// The type tag by which the remote store marks a video.
pub open spec fn video_tag() -> Seq<char> {
    "VIDEO"@
}

/// The kind that a type tag of the remote store stands for.
pub open spec fn kind_of_tag(tag: Seq<char>) -> EntryKind {
    if tag == folder_tag() {
        EntryKind::Folder
    } else if tag == video_tag() {
        EntryKind::Video
    } else {
        EntryKind::Other
    }
}

impl EntryKind {
    /// Reads the kind off the type tag of a remote listing. The tags are
    /// compared exactly: `"folder"` is not a folder.
    pub fn from_file_type(file_type: &String) -> (kind: EntryKind)
        ensures
            kind == kind_of_tag(file_type@),
    {
        let folder = String::from_str("FOLDER");
        let video = String::from_str("VIDEO");
        if *file_type == folder {
            EntryKind::Folder
        } else if *file_type == video {
            EntryKind::Video
        } else {
            EntryKind::Other
        }
    }

    /// A leaf is anything that is not a folder.
    pub fn is_leaf(&self) -> (leaf: bool)
        ensures
            leaf == !(*self is Folder),
    {
        !matches!(self, EntryKind::Folder)
    }
}

impl RemoteEntry {
    /// Builds an entry from the fields of one item of a remote listing.
    pub fn new(id: i64, name: String, file_type: &String, parent_id: i64, size: i64) -> (entry:
        RemoteEntry)
        ensures
            entry@ == (EntryView {
                id,
                name: name@,
                kind: kind_of_tag(file_type@),
                parent_id,
                size,
            }),
    {
        RemoteEntry { id, name, kind: EntryKind::from_file_type(file_type), parent_id, size }
    }

    pub fn is_video(&self) -> (video: bool)
        ensures
            video == (self.kind is Video),
    {
        matches!(self.kind, EntryKind::Video)
    }

    pub fn is_folder(&self) -> (folder: bool)
        ensures
            folder == (self.kind is Folder),
    {
        matches!(self.kind, EntryKind::Folder)
    }
}

/// Whether `name` is one of `names`.
pub fn contains_name(names: &Vec<String>, name: &String) -> (found: bool)
    ensures
        found == names.deep_view().contains(name@),
{
    let mut i: usize = 0;
    while i < names.len()
        invariant
            i <= names.len(),
            forall|j: int| 0 <= j < i ==> names.deep_view()[j] != name@,
        decreases names.len() - i,
    {
        if names[i] == *name {
            assert(names.deep_view()[i as int] == name@);
            return true;
        }
        i += 1;
    }
    false
}

} // verus!
