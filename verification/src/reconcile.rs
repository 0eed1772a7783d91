//! The reconciliation engine: one decision for every remote video.

use vstd::prelude::*;
use crate::config::Config;
use crate::entry::{contains_name, is_video, EntryView, RemoteEntry};
use crate::inventory::{inventory, lemma_inventory_membership, marker_of};

verus! {

/// The directory, directly beneath the working directory, into which the
/// local file of an archived video is moved.
pub const COMPLETED_DIR: &'static str = "completed";

/// What a run does about one remote video.
#[derive(Debug, PartialEq, Eq)]
pub enum Decision {
    /// Not local yet and under the display cap: resolve the download link of
    /// this file and print it.
    Emit { file_id: i64 },
    /// Already local: remove the remote copy and move the local file to the
    /// archive.
    Archive { file_id: i64, local_name: String },
    /// Not local yet, but the display cap is used up: leave it for a later run.
    Skip,
}

/// The mathematical value of a [`Decision`].
#[verifier::ext_equal]
pub enum DecisionView {
    Emit { file_id: i64 },
    Archive { file_id: i64, local_name: Seq<char> },
    Skip,
}

impl View for Decision {
    type V = DecisionView;

    open spec fn view(&self) -> DecisionView {
        match *self {
            Decision::Emit { file_id } => DecisionView::Emit { file_id },
            Decision::Archive { file_id, local_name } => DecisionView::Archive {
                file_id,
                local_name: local_name@,
            },
            Decision::Skip => DecisionView::Skip,
        }
    }
}

impl DeepView for Decision {
    type V = DecisionView;

    open spec fn deep_view(&self) -> DecisionView {
        self@
    }
}

/// Whether one more link may be printed after `emitted` of them.
pub open spec fn within_cap(emitted: nat, cap: Option<u32>) -> bool {
    cap matches Some(limit) ==> emitted < limit
}

/// The decision for one video, given the local names and the number of links
/// printed so far in this run.
pub open spec fn decision_for(
    video: EntryView,
    local: Seq<Seq<char>>,
    emitted: nat,
    cap: Option<u32>,
) -> DecisionView {
    if local.contains(video.name) {
        DecisionView::Archive { file_id: video.id, local_name: video.name }
    } else if within_cap(emitted, cap) {
        DecisionView::Emit { file_id: video.id }
    } else {
        DecisionView::Skip
    }
}

/// The number of links that a run over `remote` prints.
pub open spec fn emitted_count(
    remote: Seq<EntryView>,
    local: Seq<Seq<char>>,
    cap: Option<u32>,
) -> nat
    decreases remote.len(),
{
    if remote.len() == 0 {
        0
    } else {
        let before = emitted_count(remote.drop_last(), local, cap);
        let last = remote.last();
        if last.kind is Video && decision_for(last, local, before, cap) is Emit {
            before + 1
        } else {
            before
        }
    }
}

/// The decisions of a run over `remote`, in the order of `remote`: one for
/// each video, none for anything else.
pub open spec fn plan(
    remote: Seq<EntryView>,
    local: Seq<Seq<char>>,
    cap: Option<u32>,
) -> Seq<DecisionView>
    decreases remote.len(),
{
    if remote.len() == 0 {
        Seq::empty()
    } else {
        let earlier = plan(remote.drop_last(), local, cap);
        let last = remote.last();
        if last.kind is Video {
            earlier.push(
                decision_for(last, local, emitted_count(remote.drop_last(), local, cap), cap),
            )
        } else {
            earlier
        }
    }
}

/// The decision about one entry of the flattened listing: a video gets the
/// decision that [`decision_for`] names, anything else gets none.
pub open spec fn entry_decision(
    entry: EntryView,
    local: Seq<Seq<char>>,
    emitted: nat,
    cap: Option<u32>,
) -> Option<DecisionView> {
    if entry.kind is Video {
        Some(decision_for(entry, local, emitted, cap))
    } else {
        None
    }
}

/// Decides about one remote entry, given the local names and the number of
/// links printed so far. Only videos get a decision.
pub fn decide(
    entry: &RemoteEntry,
    local: &Vec<String>,
    emitted: usize,
    cap: Option<u32>,
) -> (decision: Option<Decision>)
    ensures
        decision.deep_view() == entry_decision(entry@, local.deep_view(), emitted as nat, cap),
{
    if !entry.is_video() {
        return None;
    }
    if contains_name(local, &entry.name) {
        Some(Decision::Archive { file_id: entry.id, local_name: entry.name.clone() })
    } else {
        let allowed = match cap {
            None => true,
            Some(limit) => emitted < limit as usize,
        };
        if allowed {
            Some(Decision::Emit { file_id: entry.id })
        } else {
            Some(Decision::Skip)
        }
    }
}

/// The mathematical value of a [`Reconciler`].
#[verifier::ext_equal]
pub struct ReconcilerView {
    /// The names that count as downloaded.
    pub local: Seq<Seq<char>>,
    /// The display cap, if one is configured.
    pub cap: Option<u32>,
    /// The number of links printed so far in this run.
    pub emitted: nat,
}

impl ReconcilerView {
    /// The state at the beginning of a run.
    pub open spec fn start(local: Seq<Seq<char>>, cap: Option<u32>) -> ReconcilerView {
        ReconcilerView { local, cap, emitted: 0 }
    }

    /// The decision about the next entry: videos get one, anything else none.
    pub open spec fn decision(self, entry: EntryView) -> Option<DecisionView> {
        entry_decision(entry, self.local, self.emitted, self.cap)
    }

    /// The state after the next entry: a link more, if one was printed.
    pub open spec fn after(self, entry: EntryView) -> ReconcilerView {
        if self.decision(entry) matches Some(DecisionView::Emit { .. }) {
            ReconcilerView { emitted: self.emitted + 1, ..self }
        } else {
            self
        }
    }

    /// The state after a whole listing.
    pub open spec fn after_all(self, remote: Seq<EntryView>) -> ReconcilerView
        decreases remote.len(),
    {
        if remote.len() == 0 {
            self
        } else {
            self.after_all(remote.drop_last()).after(remote.last())
        }
    }
}

/// The state of one run: what is local, what the cap is, and how many links
/// have been printed.
pub struct Reconciler<'a> {
    local: &'a Vec<String>,
    cap: Option<u32>,
    emitted: usize,
}

impl<'a> View for Reconciler<'a> {
    type V = ReconcilerView;

    closed spec fn view(&self) -> ReconcilerView {
        ReconcilerView {
            local: self.local.deep_view(),
            cap: self.cap,
            emitted: self.emitted as nat,
        }
    }
}

impl<'a> Reconciler<'a> {
    /// Begins a run over the local names `downloaded_files` with the display
    /// cap of `config`.
    pub fn new(downloaded_files: &'a Vec<String>, config: &Config) -> (reconciler: Reconciler<'a>)
        ensures
            reconciler@ == ReconcilerView::start(
                downloaded_files.deep_view(),
                config@.max_display,
            ),
            reconciler@.cap matches Some(limit) ==> limit > 0,
    {
        Reconciler { local: downloaded_files, cap: config.max_display(), emitted: 0 }
    }

    /// The number of links printed so far.
    pub fn emitted(&self) -> (emitted: usize)
        ensures
            emitted == self@.emitted,
    {
        self.emitted
    }

    /// Decides about the next entry of the flattened listing and counts the
    /// link, if the decision is to print one.
    pub fn next_decision(&mut self, entry: &RemoteEntry) -> (decision: Option<Decision>)
        requires
            old(self)@.emitted < usize::MAX,
        ensures
            decision.deep_view() == old(self)@.decision(entry@),
            final(self)@ == old(self)@.after(entry@),
    {
        let decision = decide(entry, self.local, self.emitted, self.cap);
        if let Some(Decision::Emit { .. }) = decision {
            self.emitted += 1;
        }
        decision
    }
}

/// Decides the whole run: walks the flattened remote listing in order and
/// gives every video its decision, counting the links as it goes.
pub fn run(
    config: &Config,
    downloaded_files: &Vec<String>,
    files: &Vec<RemoteEntry>,
) -> (decisions: Vec<Decision>)
    ensures
        decisions.deep_view() == plan(
            files.deep_view(),
            downloaded_files.deep_view(),
            config@.max_display,
        ),
{
    let mut decisions: Vec<Decision> = Vec::new();
    let mut reconciler = Reconciler::new(downloaded_files, config);
    let ghost remote = files.deep_view();
    let ghost local = downloaded_files.deep_view();
    let ghost cap = config@.max_display;
    let mut i: usize = 0;
    while i < files.len()
        invariant
            i <= files.len(),
            remote == files.deep_view(),
            reconciler@ == (ReconcilerView {
                local,
                cap,
                emitted: emitted_count(remote.take(i as int), local, cap),
            }),
            reconciler@.emitted <= i,
            decisions.deep_view() == plan(remote.take(i as int), local, cap),
        decreases files.len() - i,
    {
        let ghost seen = remote.take(i as int);
        let ghost next = remote.take(i + 1);
        assert(next.drop_last() == seen);
        assert(next.last() == files[i as int]@);
        let ghost before = decisions.deep_view();
        match reconciler.next_decision(&files[i]) {
            Some(decision) => {
                let ghost d = decision@;
                decisions.push(decision);
                assert(decisions.deep_view() == before.push(d));
            },
            None => {},
        }
        i += 1;
    }
    assert(remote.take(files.len() as int) == remote);
    decisions
}

/// Picks the videos that are not local yet.
pub open spec fn is_missing_video(local: Seq<Seq<char>>) -> spec_fn(EntryView) -> bool {
    |entry: EntryView| entry.kind is Video && !local.contains(entry.name)
}

/// Picks the decisions that print a link.
pub open spec fn is_emit() -> spec_fn(DecisionView) -> bool {
    |decision: DecisionView| decision is Emit
}

/// A run over the first `n` entries decides them as the run over all of them
/// does, and prints no more links.
pub proof fn lemma_plan_of_prefix(
    remote: Seq<EntryView>,
    local: Seq<Seq<char>>,
    cap: Option<u32>,
    n: int,
)
    requires
        0 <= n <= remote.len(),
    ensures
        plan(remote.take(n), local, cap).is_prefix_of(plan(remote, local, cap)),
        emitted_count(remote.take(n), local, cap) <= emitted_count(remote, local, cap),
    decreases remote.len(),
{
    if n == remote.len() {
        assert(remote.take(n) == remote);
    } else {
        let earlier = remote.drop_last();
        assert(earlier.take(n) == remote.take(n));
        lemma_plan_of_prefix(earlier, local, cap, n);
    }
}

/// Deciding entry by entry is deciding the whole run: after a listing, the
/// count stands at the number of links of the plan, and the decision about
/// the entry that comes next is the one that the plan has for it.
pub proof fn lemma_steps_make_the_plan(
    remote: Seq<EntryView>,
    local: Seq<Seq<char>>,
    cap: Option<u32>,
)
    ensures
        ReconcilerView::start(local, cap).after_all(remote) == (ReconcilerView {
            local,
            cap,
            emitted: emitted_count(remote, local, cap),
        }),
        remote.len() > 0 ==> plan(remote, local, cap) == match ReconcilerView::start(
            local,
            cap,
        ).after_all(remote.drop_last()).decision(remote.last()) {
            Some(decision) => plan(remote.drop_last(), local, cap).push(decision),
            None => plan(remote.drop_last(), local, cap),
        },
    decreases remote.len(),
{
    if remote.len() > 0 {
        lemma_steps_make_the_plan(remote.drop_last(), local, cap);
    }
}

/// A run makes exactly one decision for each video and none for anything else.
pub proof fn lemma_one_decision_per_video(
    remote: Seq<EntryView>,
    local: Seq<Seq<char>>,
    cap: Option<u32>,
)
    ensures
        plan(remote, local, cap).len() == remote.filter(is_video()).len(),
    decreases remote.len(),
{
    reveal(Seq::filter);
    if remote.len() > 0 {
        lemma_one_decision_per_video(remote.drop_last(), local, cap);
    }
}

/// The decision about the video at position `i` stands in the plan behind the
/// decisions about the videos before it, and it is the one that the local
/// names and the links printed before it call for: a video whose name is
/// local is archived, whatever the cap; one whose name is not local is
/// emitted as long as the cap allows, and skipped after that.
pub proof fn lemma_decision_of_video(
    remote: Seq<EntryView>,
    local: Seq<Seq<char>>,
    cap: Option<u32>,
    i: int,
)
    requires
        0 <= i < remote.len(),
        remote[i].kind is Video,
    ensures
        ({
            let at = plan(remote.take(i), local, cap).len() as int;
            let before = emitted_count(remote.take(i), local, cap);
            let decision = plan(remote, local, cap)[at];
            &&& at < plan(remote, local, cap).len()
            &&& decision == decision_for(remote[i], local, before, cap)
            &&& local.contains(remote[i].name) ==> decision == (DecisionView::Archive {
                file_id: remote[i].id,
                local_name: remote[i].name,
            })
            &&& !local.contains(remote[i].name) && within_cap(before, cap) ==> decision == (
            DecisionView::Emit { file_id: remote[i].id })
            &&& !local.contains(remote[i].name) && !within_cap(before, cap) ==> decision
                is Skip
        }),
{
    let upto = remote.take(i + 1);
    assert(upto.drop_last() == remote.take(i));
    assert(upto.last() == remote[i]);
    lemma_plan_of_prefix(remote, local, cap, i + 1);
    let at = plan(remote.take(i), local, cap).len() as int;
    let whole = plan(remote, local, cap);
    let part = plan(upto, local, cap);
    assert(part.len() == at + 1);
    assert(part[at] == whole.subrange(0, part.len() as int)[at]);
}

/// With a cap configured, a run never prints more links than the cap.
pub proof fn lemma_emitted_within_cap(remote: Seq<EntryView>, local: Seq<Seq<char>>, limit: u32)
    ensures
        emitted_count(remote, local, Some(limit)) <= limit,
    decreases remote.len(),
{
    if remote.len() > 0 {
        lemma_emitted_within_cap(remote.drop_last(), local, limit);
    }
}

/// The number of links in closed form: a run prints one for every video that
/// is not local yet, until the cap is reached.
pub proof fn lemma_emitted_count_in_closed_form(
    remote: Seq<EntryView>,
    local: Seq<Seq<char>>,
    cap: Option<u32>,
)
    ensures
        emitted_count(remote, local, cap) == match cap {
            Some(limit) => if remote.filter(is_missing_video(local)).len() <= limit {
                remote.filter(is_missing_video(local)).len()
            } else {
                limit as nat
            },
            None => remote.filter(is_missing_video(local)).len(),
        },
    decreases remote.len(),
{
    reveal(Seq::filter);
    if remote.len() > 0 {
        lemma_emitted_count_in_closed_form(remote.drop_last(), local, cap);
    }
}

/// Which of the missing videos get their link: a video that is not local is
/// emitted exactly if fewer videos before it were missing than the cap
/// allows links.
pub proof fn lemma_emit_follows_the_order(
    remote: Seq<EntryView>,
    local: Seq<Seq<char>>,
    cap: Option<u32>,
    i: int,
)
    requires
        0 <= i < remote.len(),
        remote[i].kind is Video,
        !local.contains(remote[i].name),
    ensures
        ({
            let at = plan(remote.take(i), local, cap).len() as int;
            let missing_before = remote.take(i).filter(is_missing_video(local)).len();
            plan(remote, local, cap)[at] == if within_cap(missing_before, cap) {
                DecisionView::Emit { file_id: remote[i].id }
            } else {
                DecisionView::Skip
            }
        }),
{
    lemma_decision_of_video(remote, local, cap, i);
    lemma_emitted_count_in_closed_form(remote.take(i), local, cap);
}

/// The running count of a run is the number of `Emit` decisions in its plan.
pub proof fn lemma_emitted_count_counts_emits(
    remote: Seq<EntryView>,
    local: Seq<Seq<char>>,
    cap: Option<u32>,
)
    ensures
        emitted_count(remote, local, cap) == plan(remote, local, cap).filter(is_emit()).len(),
    decreases remote.len(),
{
    reveal(Seq::filter);
    if remote.len() > 0 {
        let earlier = remote.drop_last();
        lemma_emitted_count_counts_emits(earlier, local, cap);
        if remote.last().kind is Video {
            let decision = decision_for(
                remote.last(),
                local,
                emitted_count(earlier, local, cap),
                cap,
            );
            plan(earlier, local, cap).lemma_filter_push(decision, is_emit());
        }
    }
}

/// Without a cap, a run prints a link for every video that is not local yet,
/// and skips nothing.
pub proof fn lemma_no_cap_emits_every_missing_video(
    remote: Seq<EntryView>,
    local: Seq<Seq<char>>,
)
    ensures
        emitted_count(remote, local, None) == remote.filter(is_missing_video(local)).len(),
        forall|k: int|
            0 <= k < plan(remote, local, None).len() ==> !(#[trigger] plan(remote, local, None)[k]
                is Skip),
    decreases remote.len(),
{
    reveal(Seq::filter);
    if remote.len() > 0 {
        lemma_no_cap_emits_every_missing_video(remote.drop_last(), local);
    }
}

/// Picks the decisions that archive.
pub open spec fn is_archive() -> spec_fn(DecisionView) -> bool {
    |decision: DecisionView| decision is Archive
}

/// Archiving does not depend on the cap: whatever the cap, a run makes as
/// many decisions, and it archives at the same places the same files.
pub proof fn lemma_archiving_ignores_the_cap(
    remote: Seq<EntryView>,
    local: Seq<Seq<char>>,
    cap: Option<u32>,
    other_cap: Option<u32>,
)
    ensures
        plan(remote, local, cap).len() == plan(remote, local, other_cap).len(),
        forall|k: int|
            0 <= k < plan(remote, local, cap).len() && (is_archive()(plan(remote, local, cap)[k])
                || is_archive()(plan(remote, local, other_cap)[k])) ==> #[trigger] plan(
                remote,
                local,
                cap,
            )[k] == plan(remote, local, other_cap)[k],
    decreases remote.len(),
{
    if remote.len() > 0 {
        lemma_archiving_ignores_the_cap(remote.drop_last(), local, cap, other_cap);
    }
}

/// A download that still has its marker beside it is not local yet: a video
/// of that name is never archived, whatever else the directory holds.
pub proof fn lemma_marked_download_is_not_archived(
    all: Seq<Seq<char>>,
    video: EntryView,
    emitted: nat,
    cap: Option<u32>,
)
    requires
        all.contains(marker_of(video.name)),
    ensures
        !(decision_for(video, inventory(all), emitted, cap) is Archive),
        within_cap(emitted, cap) ==> decision_for(video, inventory(all), emitted, cap) == (
        DecisionView::Emit { file_id: video.id }),
{
    lemma_inventory_membership(all, video.name);
}

/// The remote listing as a completed run leaves it, as far as decisions go:
/// every video that was archived is gone from the remote side.
pub open spec fn remote_after(remote: Seq<EntryView>, local: Seq<Seq<char>>) -> Seq<EntryView> {
    remote.filter(survives(local))
}

/// Picks the entries that a run does not archive.
pub open spec fn survives(local: Seq<Seq<char>>) -> spec_fn(EntryView) -> bool {
    |entry: EntryView| !(entry.kind is Video && local.contains(entry.name))
}

/// Whether a run archives anything.
pub open spec fn archives_any(remote: Seq<EntryView>, local: Seq<Seq<char>>) -> bool {
    exists|i: int|
        0 <= i < remote.len() && (#[trigger] remote[i]).kind is Video && local.contains(
            remote[i].name,
        )
}

/// The local names as a completed run leaves them: the files of the archived
/// videos have moved out of the working directory, and the archive directory
/// stands in it if anything was archived.
pub open spec fn local_after(remote: Seq<EntryView>, local: Seq<Seq<char>>) -> Seq<Seq<char>> {
    let kept = local.filter(stays(remote));
    if archives_any(remote, local) && !local.contains(COMPLETED_DIR@) {
        kept.push(COMPLETED_DIR@)
    } else {
        kept
    }
}

/// Picks the local names that no remote video bears.
pub open spec fn stays(remote: Seq<EntryView>) -> spec_fn(Seq<char>) -> bool {
    |name: Seq<char>|
        !exists|i: int| 0 <= i < remote.len() && remote[i].kind is Video && remote[i].name == name
}

/// Whether no remote video bears the name of the archive directory. A video
/// of that name would be taken for downloaded as soon as the directory is
/// there.
pub open spec fn spares_archive_name(remote: Seq<EntryView>) -> bool {
    forall|i: int|
        0 <= i < remote.len() && (#[trigger] remote[i]).kind is Video ==> remote[i].name
            != COMPLETED_DIR@
}

/// What the second of two runs decides when it sees no local name that the
/// first did not see, the archive directory aside: it archives nothing, and
/// without a cap it prints again exactly the links that a first run without
/// a cap printed.
proof fn lemma_rerun(
    remote: Seq<EntryView>,
    local: Seq<Seq<char>>,
    local_later: Seq<Seq<char>>,
    cap: Option<u32>,
)
    requires
        spares_archive_name(remote),
        forall|name: Seq<char>|
            local_later.contains(name) ==> local.contains(name) || name == COMPLETED_DIR@,
    ensures
        forall|k: int|
            0 <= k < plan(remote_after(remote, local), local_later, cap).len() ==> !(
            #[trigger] plan(remote_after(remote, local), local_later, cap)[k] is Archive),
        plan(remote_after(remote, local), local_later, None) == plan(remote, local, None).filter(
            is_emit(),
        ),
    decreases remote.len(),
{
    reveal(Seq::filter);
    if remote.len() > 0 {
        let earlier = remote.drop_last();
        let last = remote.last();
        assert forall|i: int| 0 <= i < earlier.len() && (#[trigger] earlier[i]).kind
            is Video implies earlier[i].name != COMPLETED_DIR@ by {
            assert(earlier[i] == remote[i]);
        }
        assert(last == remote[remote.len() - 1]);
        lemma_rerun(earlier, local, local_later, cap);
        let kept = remote_after(earlier, local);
        if survives(local)(last) {
            assert(remote_after(remote, local) == kept.push(last));
            assert(kept.push(last).drop_last() == kept);
        } else {
            assert(remote_after(remote, local) == kept);
        }
        if last.kind is Video {
            let first = decision_for(last, local, emitted_count(earlier, local, None), None);
            plan(earlier, local, None).lemma_filter_push(first, is_emit());
        }
    }
}

/// A completed run leaves no local name behind that was not there before,
/// the archive directory aside.
proof fn lemma_local_after_adds_nothing(remote: Seq<EntryView>, local: Seq<Seq<char>>)
    ensures
        forall|name: Seq<char>| #[trigger]
            local_after(remote, local).contains(name) ==> local.contains(name) || name
                == COMPLETED_DIR@,
{
    let kept = local.filter(stays(remote));
    let later = local_after(remote, local);
    assert forall|name: Seq<char>| #[trigger] later.contains(name) implies local.contains(name)
        || name == COMPLETED_DIR@ by {
        let at = choose|k: int| 0 <= k < later.len() && later[k] == name;
        if at < kept.len() {
            assert(kept[at] == name);
            local.lemma_filter_contains_rev(stays(remote), name);
        }
    }
}

/// A run that follows a completed run, with nothing changed in between,
/// archives nothing: what the first run found local it has archived, and what
/// is left on the remote side was not local.
pub proof fn lemma_rerun_archives_nothing(
    remote: Seq<EntryView>,
    local: Seq<Seq<char>>,
    cap: Option<u32>,
)
    requires
        spares_archive_name(remote),
    ensures
        forall|k: int|
            0 <= k < plan(remote_after(remote, local), local_after(remote, local), cap).len()
                ==> !(#[trigger] plan(
                remote_after(remote, local),
                local_after(remote, local),
                cap,
            )[k] is Archive),
{
    lemma_local_after_adds_nothing(remote, local);
    lemma_rerun(remote, local, local_after(remote, local), cap);
}

/// Without a cap, a run that follows a completed run, with nothing changed in
/// between, prints exactly the links that the first run printed, and decides
/// nothing else.
pub proof fn lemma_rerun_repeats_emits(remote: Seq<EntryView>, local: Seq<Seq<char>>)
    requires
        spares_archive_name(remote),
    ensures
        plan(remote_after(remote, local), local_after(remote, local), None) == plan(
            remote,
            local,
            None,
        ).filter(is_emit()),
{
    lemma_local_after_adds_nothing(remote, local);
    lemma_rerun(remote, local, local_after(remote, local), None);
}

/// A listing without videos calls for no decision.
proof fn lemma_no_video_no_decision(
    remote: Seq<EntryView>,
    local: Seq<Seq<char>>,
    cap: Option<u32>,
)
    requires
        remote.filter(is_video()).len() == 0,
    ensures
        plan(remote, local, cap).len() == 0,
{
    lemma_one_decision_per_video(remote, local, cap);
}

/// Running twice is as good as running once: where the first run without a
/// cap had no link to print, the run that follows it, with nothing changed in
/// between, prints no link and archives nothing.
pub proof fn lemma_rerun_is_quiet(remote: Seq<EntryView>, local: Seq<Seq<char>>)
    requires
        emitted_count(remote, local, None) == 0,
    ensures
        plan(remote_after(remote, local), local_after(remote, local), None).len() == 0,
{
    lemma_no_cap_emits_every_missing_video(remote, local);
    lemma_survivors_have_no_missing_video(remote, local);
    lemma_no_video_no_decision(
        remote_after(remote, local),
        local_after(remote, local),
        None,
    );
}

/// Where every video is local, no video survives the run.
proof fn lemma_survivors_have_no_missing_video(remote: Seq<EntryView>, local: Seq<Seq<char>>)
    requires
        remote.filter(is_missing_video(local)).len() == 0,
    ensures
        remote_after(remote, local).filter(is_video()).len() == 0,
    decreases remote.len(),
{
    reveal(Seq::filter);
    if remote.len() > 0 {
        let earlier = remote.drop_last();
        let last = remote.last();
        earlier.lemma_filter_len(is_missing_video(local));
        lemma_survivors_have_no_missing_video(earlier, local);
        let kept = remote_after(earlier, local);
        if survives(local)(last) {
            assert(remote_after(remote, local) == kept.push(last));
            kept.lemma_filter_push(last, is_video());
        } else {
            assert(remote_after(remote, local) == kept);
        }
    }
}

} // verus!
