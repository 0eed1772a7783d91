//! The local inventory: which names of the working directory count as
//! downloaded.

use vstd::prelude::*;
use vstd::string::{StrSliceExecFns, StringExecFns};
use crate::entry::contains_name;

verus! {

/// The suffix of the control file that the downloader keeps beside a file for
/// as long as the transfer is in progress.
pub const PARTIAL_MARKER: &'static str = ".aria2";

/// The marker suffix as a sequence of characters.
pub open spec fn marker_suffix() -> Seq<char> {
    ".aria2"@
}

/// Whether `name` is itself the name of a marker.
pub open spec fn is_marker(name: Seq<char>) -> bool {
    marker_suffix().is_suffix_of(name)
}

/// The name of the marker that accompanies `name` while it is downloading.
pub open spec fn marker_of(name: Seq<char>) -> Seq<char> {
    name + marker_suffix()
}

/// Picks, among the names of a directory, those that count as downloaded:
/// a name that is no marker and has no marker beside it.
pub open spec fn is_complete(all: Seq<Seq<char>>) -> spec_fn(Seq<char>) -> bool {
    |name: Seq<char>| !is_marker(name) && !all.contains(marker_of(name))
}

/// The inventory of a directory whose entries bear the names `all`, in the
/// order of `all`.
pub open spec fn inventory(all: Seq<Seq<char>>) -> Seq<Seq<char>> {
    all.filter(is_complete(all))
}

/// Whether `text` ends with `suffix`.
pub fn ends_with(text: &str, suffix: &str) -> (found: bool)
    ensures
        found == suffix@.is_suffix_of(text@),
{
    let length = text.unicode_len();
    let tail_length = suffix.unicode_len();
    if length < tail_length {
        return false;
    }
    let tail = String::from_str(text.substring_char(length - tail_length, length));
    let wanted = String::from_str(suffix);
    tail == wanted
}

/// Whether `name` is the name of a marker rather than of a download.
pub fn is_marker_name(name: &str) -> (marker: bool)
    ensures
        marker == is_marker(name@),
{
    ends_with(name, PARTIAL_MARKER)
}

/// Reduces the names of the entries of the working directory to the names
/// that count as downloaded: markers are dropped, and so is every name that
/// still has its marker beside it.
pub fn local_inventory(entries: &Vec<String>) -> (files: Vec<String>)
    ensures
        files.deep_view() == inventory(entries.deep_view()),
{
    let mut files: Vec<String> = Vec::new();
    let ghost all = entries.deep_view();
    let mut i: usize = 0;
    assert(all.take(0).filter(is_complete(all)) == Seq::<Seq<char>>::empty()) by {
        reveal(Seq::filter);
    }
    while i < entries.len()
        invariant
            i <= entries.len(),
            all == entries.deep_view(),
            files.deep_view() == all.take(i as int).filter(is_complete(all)),
        decreases entries.len() - i,
    {
        let name = &entries[i];
        let ghost before = files.deep_view();
        proof {
            assert(all.take(i + 1) == all.take(i as int).push(name@));
            all.take(i as int).lemma_filter_push(name@, is_complete(all));
        }
        if !is_marker_name(name.as_str()) {
            let marker = name.clone().concat(PARTIAL_MARKER);
            if !contains_name(entries, &marker) {
                files.push(name.clone());
                assert(files.deep_view() == before.push(name@));
            }
        }
        i += 1;
    }
    assert(all.take(entries.len() as int) == all);
    files
}

/// A name is in the inventory exactly if the directory has it, it is no
/// marker, and the directory does not have its marker.
pub proof fn lemma_inventory_membership(all: Seq<Seq<char>>, name: Seq<char>)
    ensures
        inventory(all).contains(name) <==> all.contains(name) && !is_marker(name) && !all.contains(
            marker_of(name),
        ),
{
    let keep = is_complete(all);
    if inventory(all).contains(name) {
        all.lemma_filter_contains_rev(keep, name);
        let at = choose|k: int| 0 <= k < inventory(all).len() && inventory(all)[k] == name;
        all.lemma_filter_pred(keep, at);
    }
    if all.contains(name) && keep(name) {
        let at = choose|k: int| 0 <= k < all.len() && all[k] == name;
        all.lemma_filter_contains(keep, at);
    }
}

/// The inventory names every file once: where no two entries of the
/// directory bear the same name, no two names of the inventory are the same.
pub proof fn lemma_inventory_names_are_distinct(all: Seq<Seq<char>>)
    requires
        all.no_duplicates(),
    ensures
        inventory(all).no_duplicates(),
{
    lemma_filter_keeps_names_distinct(all, is_complete(all));
}

proof fn lemma_filter_keeps_names_distinct(names: Seq<Seq<char>>, keep: spec_fn(Seq<char>) -> bool)
    requires
        names.no_duplicates(),
    ensures
        names.filter(keep).no_duplicates(),
    decreases names.len(),
{
    reveal(Seq::filter);
    if names.len() > 0 {
        let earlier = names.drop_last();
        let last = names.last();
        let kept = earlier.filter(keep);
        lemma_filter_keeps_names_distinct(earlier, keep);
        if keep(last) {
            if kept.contains(last) {
                earlier.lemma_filter_contains_rev(keep, last);
                let at = choose|k: int| 0 <= k < earlier.len() && earlier[k] == last;
                assert(names[at] == names[names.len() - 1]);
            }
            assert forall|i: int, j: int|
                0 <= i < kept.push(last).len() && 0 <= j < kept.push(last).len() && i
                    != j implies kept.push(last)[i] != kept.push(last)[j] by {
                if i < kept.len() && j < kept.len() {
                } else if i < kept.len() {
                    assert(kept.contains(kept[i]));
                } else {
                    assert(kept.contains(kept[j]));
                }
            }
        }
    }
}

} // verus!
