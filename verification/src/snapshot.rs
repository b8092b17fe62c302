//! The state that the poller and the reconciler share: the containers last
//! seen, and the ids that have gone since and still await their cleanup.
//!
//! A [`Snapshot`] is plain data. The program that shares it between two tasks
//! puts it behind one lock and holds that lock for one method call at a time.
//! Every method here is one step in memory, so no call against Docker or
//! Discord is ever made with the lock held.

use crate::docker::{Container, ContainerView, LogOutput, LogOutputView};
use crate::seqs::{lemma_filter_no_duplicates, lemma_values_push};
use vstd::prelude::*;
use vstd::seq_lib::lemma_no_dup_in_concat;

verus! {

/// A container together with the tail of its log output.
#[derive(Debug, PartialEq, Eq)]
pub struct Workload {
    pub container: Container,
    pub log_tail: Vec<LogOutput>,
}

/// The mathematical value of a [`Workload`].
pub ghost struct WorkloadView {
    pub container: ContainerView,
    pub log_tail: Seq<LogOutputView>,
}

impl View for Workload {
    type V = WorkloadView;

    open spec fn view(&self) -> WorkloadView {
        WorkloadView { container: self.container@, log_tail: self.log_tail.deep_view() }
    }
}

impl DeepView for Workload {
    type V = WorkloadView;

    open spec fn deep_view(&self) -> WorkloadView {
        self@
    }
}

/// Copies log frames one by one.
pub fn copy_logs(logs: &Vec<LogOutput>) -> (copy: Vec<LogOutput>)
    ensures
        copy.deep_view() == logs.deep_view(),
{
    let mut copy: Vec<LogOutput> = Vec::new();
    let mut i: usize = 0;
    while i < logs.len()
        invariant
            i <= logs.len(),
            copy.deep_view() == logs.deep_view().take(i as int),
        decreases logs.len() - i,
    {
        let ghost before = copy@;
        let frame = logs[i].clone();
        let ghost added = frame;
        copy.push(frame);
        i += 1;
        proof {
            lemma_values_push(before, added);
            assert(copy.deep_view() =~= logs.deep_view().take(i as int));
        }
    }
    proof {
        assert(logs.deep_view().take(logs.len() as int) =~= logs.deep_view());
    }
    copy
}

impl Clone for Workload {
    fn clone(&self) -> (copy: Self)
        ensures
            copy@ == self@,
    {
        Workload { container: self.container.clone(), log_tail: copy_logs(&self.log_tail) }
    }
}

/// Copies workloads one by one.
pub fn copy_workloads(workloads: &Vec<Workload>) -> (copy: Vec<Workload>)
    ensures
        copy.deep_view() == workloads.deep_view(),
{
    let mut copy: Vec<Workload> = Vec::new();
    let mut i: usize = 0;
    while i < workloads.len()
        invariant
            i <= workloads.len(),
            copy.deep_view() == workloads.deep_view().take(i as int),
        decreases workloads.len() - i,
    {
        let ghost before = copy@;
        let workload = workloads[i].clone();
        let ghost added = workload;
        copy.push(workload);
        i += 1;
        proof {
            lemma_values_push(before, added);
            assert(copy.deep_view() =~= workloads.deep_view().take(i as int));
        }
    }
    proof {
        assert(workloads.deep_view().take(workloads.len() as int) =~= workloads.deep_view());
    }
    copy
}

/// Copies ids one by one.
pub fn copy_ids(ids: &Vec<String>) -> (copy: Vec<String>)
    ensures
        copy.deep_view() == ids.deep_view(),
{
    let mut copy: Vec<String> = Vec::new();
    let mut i: usize = 0;
    while i < ids.len()
        invariant
            i <= ids.len(),
            copy.deep_view() == ids.deep_view().take(i as int),
        decreases ids.len() - i,
    {
        let ghost before = copy@;
        let id = ids[i].clone();
        let ghost added = id;
        copy.push(id);
        i += 1;
        proof {
            lemma_values_push(before, added);
            assert(copy.deep_view() =~= ids.deep_view().take(i as int));
        }
    }
    proof {
        assert(ids.deep_view().take(ids.len() as int) =~= ids.deep_view());
    }
    copy
}

/// The ids of a sequence of workloads, in order.
pub open spec fn ids_of(workloads: Seq<WorkloadView>) -> Seq<Seq<char>> {
    workloads.map_values(|w: WorkloadView| w.container.id)
}

/// A listing without its repeats: of the workloads that share an id, the
/// first stays.
pub open spec fn first_of_each(listing: Seq<WorkloadView>) -> Seq<WorkloadView>
    decreases listing.len(),
{
    if listing.len() == 0 {
        Seq::empty()
    } else {
        let before = first_of_each(listing.drop_last());
        if ids_of(before).contains(listing.last().container.id) {
            before
        } else {
            before.push(listing.last())
        }
    }
}

/// The test that an id is not among the ids of `workloads`.
pub open spec fn gone_from(workloads: Seq<WorkloadView>) -> spec_fn(Seq<char>) -> bool {
    |id: Seq<char>| !ids_of(workloads).contains(id)
}

/// The mathematical value of a [`Snapshot`].
pub ghost struct SnapshotView {
    /// The workloads of the last listing, in its order.
    pub workloads: Seq<WorkloadView>,
    /// The ids that left and have not been drained yet, oldest first.
    pub pending_removals: Seq<Seq<char>>,
}

impl SnapshotView {
    /// No id occurs twice among the workloads, none twice among the pending
    /// removals, and no workload's id awaits removal.
    pub open spec fn wf(self) -> bool {
        &&& ids_of(self.workloads).no_duplicates()
        &&& self.pending_removals.no_duplicates()
        &&& forall|i: int|
            0 <= i < self.pending_removals.len() ==> !ids_of(self.workloads).contains(
                #[trigger] self.pending_removals[i],
            )
    }

    /// The snapshot after `listing` has been published. The listing, without
    /// repeated ids, replaces the workloads whole. Awaiting removal are then
    /// the ids that awaited it before and those of the workloads before, as
    /// far as the listing does not hold them.
    pub open spec fn publish(self, listing: Seq<WorkloadView>) -> SnapshotView {
        let installed = first_of_each(listing);
        SnapshotView {
            workloads: installed,
            pending_removals: (self.pending_removals + ids_of(self.workloads)).filter(
                gone_from(installed),
            ),
        }
    }

    /// The snapshot after its pending removals have been drained.
    pub open spec fn drained(self) -> SnapshotView {
        SnapshotView { workloads: self.workloads, pending_removals: Seq::empty() }
    }
}

/// Without its repeats a listing has each id once, and exactly the ids it
/// had.
pub proof fn lemma_first_of_each(listing: Seq<WorkloadView>)
    ensures
        ids_of(first_of_each(listing)).no_duplicates(),
        forall|id: Seq<char>|
            #![trigger ids_of(first_of_each(listing)).contains(id)]
            #![trigger ids_of(listing).contains(id)]
            ids_of(first_of_each(listing)).contains(id) <==> ids_of(listing).contains(id),
        ids_of(listing).no_duplicates() ==> first_of_each(listing) == listing,
    decreases listing.len(),
{
    let kept = first_of_each(listing);
    if listing.len() == 0 {
        assert(kept =~= listing);
    } else {
        let front = listing.drop_last();
        let last = listing.last();
        let before = first_of_each(front);
        lemma_first_of_each(front);
        assert(ids_of(listing) =~= ids_of(front).push(last.container.id));
        if !ids_of(before).contains(last.container.id) {
            assert(ids_of(kept) =~= ids_of(before).push(last.container.id));
        }
        assert forall|id: Seq<char>|
            #![trigger ids_of(kept).contains(id)]
            #![trigger ids_of(listing).contains(id)]
            ids_of(kept).contains(id) <==> ids_of(listing).contains(id) by {
            assert(ids_of(first_of_each(front)).contains(id) <==> ids_of(front).contains(id));
            if ids_of(kept).contains(id) {
                if ids_of(before).contains(id) {
                    let j = choose|j: int| 0 <= j < ids_of(front).len() && ids_of(front)[j] == id;
                    assert(ids_of(listing)[j] == id);
                } else {
                    assert(id == last.container.id);
                    assert(ids_of(listing)[listing.len() - 1] == id);
                }
            }
            if ids_of(listing).contains(id) {
                let j = choose|j: int| 0 <= j < ids_of(listing).len() && ids_of(listing)[j] == id;
                if j < front.len() {
                    assert(ids_of(front)[j] == id);
                    assert(ids_of(before).contains(id));
                    let k = choose|k: int|
                        0 <= k < ids_of(before).len() && ids_of(before)[k] == id;
                    assert(ids_of(kept)[k] == id);
                } else {
                    assert(id == last.container.id);
                    if !ids_of(before).contains(id) {
                        assert(ids_of(kept)[kept.len() - 1] == id);
                    } else {
                        let k = choose|k: int|
                            0 <= k < ids_of(before).len() && ids_of(before)[k] == id;
                        assert(ids_of(kept)[k] == id);
                    }
                }
            }
        }
        if ids_of(listing).no_duplicates() {
            assert forall|i: int, j: int|
                0 <= i < ids_of(front).len() && 0 <= j < ids_of(front).len() && i
                    != j implies ids_of(front)[i] != ids_of(front)[j] by {
                assert(ids_of(listing)[i] == ids_of(front)[i]);
                assert(ids_of(listing)[j] == ids_of(front)[j]);
            }
            assert(before == front);
            if ids_of(front).contains(last.container.id) {
                let j = choose|j: int|
                    0 <= j < ids_of(front).len() && ids_of(front)[j] == last.container.id;
                assert(ids_of(listing)[j] == ids_of(listing)[listing.len() - 1]);
            }
            assert(kept =~= listing);
        }
    }
}

/// Publishing keeps a snapshot well formed: the workloads have each id once,
/// the pending removals too, and no installed id awaits removal.
pub proof fn lemma_publish_wf(before: SnapshotView, listing: Seq<WorkloadView>)
    requires
        before.wf(),
    ensures
        before.publish(listing).wf(),
        forall|id: Seq<char>|
            before.publish(listing).pending_removals.contains(id) <==> (
            before.pending_removals.contains(id) || ids_of(before.workloads).contains(id))
                && !ids_of(listing).contains(id),
{
    let after = before.publish(listing);
    let installed = first_of_each(listing);
    let candidates = before.pending_removals + ids_of(before.workloads);
    let gone = gone_from(installed);
    lemma_first_of_each(listing);
    lemma_no_dup_in_concat(before.pending_removals, ids_of(before.workloads));
    lemma_filter_no_duplicates(candidates, gone);
    assert forall|i: int| 0 <= i < after.pending_removals.len() implies !ids_of(
        after.workloads,
    ).contains(#[trigger] after.pending_removals[i]) by {
        candidates.lemma_filter_pred(gone, i);
    }
    assert forall|id: Seq<char>|
        after.pending_removals.contains(id) <==> (before.pending_removals.contains(id) || ids_of(
            before.workloads,
        ).contains(id)) && !ids_of(listing).contains(id) by {
        if after.pending_removals.contains(id) {
            let i = choose|i: int|
                0 <= i < after.pending_removals.len() && after.pending_removals[i] == id;
            candidates.lemma_filter_pred(gone, i);
            candidates.lemma_filter_contains_rev(gone, id);
            let j = choose|j: int| 0 <= j < candidates.len() && candidates[j] == id;
            if j < before.pending_removals.len() {
                assert(before.pending_removals[j] == id);
            } else {
                assert(ids_of(before.workloads)[j - before.pending_removals.len()] == id);
            }
        }
        if (before.pending_removals.contains(id) || ids_of(before.workloads).contains(id))
            && !ids_of(listing).contains(id) {
            if before.pending_removals.contains(id) {
                let j = choose|j: int|
                    0 <= j < before.pending_removals.len() && before.pending_removals[j] == id;
                assert(candidates[j] == id);
                candidates.lemma_filter_contains(gone, j);
            } else {
                let j = choose|j: int|
                    0 <= j < ids_of(before.workloads).len() && ids_of(before.workloads)[j] == id;
                assert(candidates[before.pending_removals.len() + j] == id);
                candidates.lemma_filter_contains(gone, before.pending_removals.len() + j);
            }
        }
    }
}

/// Publishing replaces the workloads whole: every workload installed is one
/// of the listing, in the listing's order of first appearance, and none is
/// left from before. Where the listing has each id once, the workloads
/// installed are the listing itself.
pub proof fn law_publish_replaces_whole(before: SnapshotView, listing: Seq<WorkloadView>)
    ensures
        before.publish(listing).workloads == first_of_each(listing),
        forall|i: int|
            0 <= i < first_of_each(listing).len() ==> listing.contains(
                #[trigger] first_of_each(listing)[i],
            ),
        ids_of(listing).no_duplicates() ==> before.publish(listing).workloads == listing,
    decreases listing.len(),
{
    lemma_first_of_each(listing);
    if listing.len() > 0 {
        let front = listing.drop_last();
        law_publish_replaces_whole(before, front);
        assert forall|i: int| 0 <= i < first_of_each(listing).len() implies listing.contains(
            #[trigger] first_of_each(listing)[i],
        ) by {
            if i < first_of_each(front).len() {
                assert(front.contains(first_of_each(front)[i]));
                let j = choose|j: int| 0 <= j < front.len() && front[j] == first_of_each(front)[i];
                assert(listing[j] == first_of_each(listing)[i]);
            } else {
                assert(listing[listing.len() - 1] == first_of_each(listing)[i]);
            }
        }
    }
}

/// Whether one of `workloads` has the id `id`.
pub fn holds_id(workloads: &Vec<Workload>, id: &String) -> (found: bool)
    ensures
        found == ids_of(workloads.deep_view()).contains(id@),
{
    let mut i: usize = 0;
    while i < workloads.len()
        invariant
            i <= workloads.len(),
            forall|j: int| 0 <= j < i ==> ids_of(workloads.deep_view())[j] != id@,
        decreases workloads.len() - i,
    {
        if workloads[i].container.id == *id {
            proof {
                assert(ids_of(workloads.deep_view())[i as int] == id@);
            }
            return true;
        }
        i += 1;
    }
    false
}

/// Copies `listing` without its repeats: of the workloads that share an id,
/// the first stays.
pub fn without_repeats(listing: &Vec<Workload>) -> (kept: Vec<Workload>)
    ensures
        kept.deep_view() == first_of_each(listing.deep_view()),
{
    let mut kept: Vec<Workload> = Vec::new();
    let mut i: usize = 0;
    proof {
        assert(kept.deep_view() =~= first_of_each(listing.deep_view().take(0)));
    }
    while i < listing.len()
        invariant
            i <= listing.len(),
            kept.deep_view() == first_of_each(listing.deep_view().take(i as int)),
        decreases listing.len() - i,
    {
        proof {
            assert(listing.deep_view().take(i + 1).drop_last() =~= listing.deep_view().take(
                i as int,
            ));
        }
        if !holds_id(&kept, &listing[i].container.id) {
            let ghost before = kept@;
            let workload = listing[i].clone();
            let ghost added = workload;
            kept.push(workload);
            proof {
                lemma_values_push(before, added);
            }
        }
        i += 1;
    }
    proof {
        assert(listing.deep_view().take(listing.len() as int) =~= listing.deep_view());
    }
    kept
}

/// The last listing of workloads and the ids that have left since.
#[derive(Debug)]
pub struct Snapshot {
    workloads: Vec<Workload>,
    pending_removals: Vec<String>,
}

impl View for Snapshot {
    type V = SnapshotView;

    closed spec fn view(&self) -> SnapshotView {
        SnapshotView {
            workloads: self.workloads.deep_view(),
            pending_removals: self.pending_removals.deep_view(),
        }
    }
}

impl Snapshot {
    /// Whether the snapshot is well formed, as every snapshot made by this
    /// module is.
    pub open spec fn wf(&self) -> bool {
        self@.wf()
    }

    /// The snapshot before the first listing: no workloads, nothing to
    /// remove.
    pub fn new() -> (snapshot: Snapshot)
        ensures
            snapshot@.workloads == Seq::<WorkloadView>::empty(),
            snapshot@.pending_removals == Seq::<Seq<char>>::empty(),
            snapshot.wf(),
    {
        let snapshot = Snapshot { workloads: Vec::new(), pending_removals: Vec::new() };
        proof {
            assert(snapshot@.workloads =~= Seq::<WorkloadView>::empty());
            assert(snapshot@.pending_removals =~= Seq::<Seq<char>>::empty());
            assert(ids_of(snapshot@.workloads) =~= Seq::<Seq<char>>::empty());
        }
        snapshot
    }

    /// Installs a fresh listing. The workloads are replaced whole, never
    /// merged; the ids that the listing no longer holds join the pending
    /// removals, and an id that it holds again leaves them.
    pub fn publish(&mut self, listing: Vec<Workload>)
        ensures
            final(self)@ == old(self)@.publish(listing.deep_view()),
            old(self).wf() ==> final(self).wf(),
    {
        let installed = without_repeats(&listing);
        let ghost gone = gone_from(installed.deep_view());
        let ghost waiting = self.pending_removals.deep_view();
        let ghost leaving = ids_of(self.workloads.deep_view());
        let mut pending: Vec<String> = Vec::new();
        let mut i: usize = 0;
        proof {
            reveal(Seq::filter);
            assert(pending.deep_view() =~= waiting.take(0).filter(gone));
        }
        while i < self.pending_removals.len()
            invariant
                i <= self.pending_removals.len(),
                waiting == self.pending_removals.deep_view(),
                gone == gone_from(installed.deep_view()),
                pending.deep_view() == waiting.take(i as int).filter(gone),
            decreases self.pending_removals.len() - i,
        {
            proof {
                waiting.take(i as int).lemma_filter_push(waiting[i as int], gone);
                assert(waiting.take(i as int).push(waiting[i as int]) =~= waiting.take(i + 1));
            }
            if !holds_id(&installed, &self.pending_removals[i]) {
                let ghost before = pending@;
                let id = self.pending_removals[i].clone();
                let ghost added = id;
                pending.push(id);
                proof {
                    lemma_values_push(before, added);
                }
            }
            i += 1;
        }
        let mut k: usize = 0;
        proof {
            assert(waiting.take(waiting.len() as int) =~= waiting);
            assert(leaving.take(0).filter(gone) =~= Seq::<Seq<char>>::empty());
            assert(pending.deep_view() =~= waiting.filter(gone) + leaving.take(0).filter(gone));
        }
        while k < self.workloads.len()
            invariant
                k <= self.workloads.len(),
                leaving == ids_of(self.workloads.deep_view()),
                gone == gone_from(installed.deep_view()),
                pending.deep_view() == waiting.filter(gone) + leaving.take(k as int).filter(gone),
            decreases self.workloads.len() - k,
        {
            proof {
                leaving.take(k as int).lemma_filter_push(leaving[k as int], gone);
                assert(leaving.take(k as int).push(leaving[k as int]) =~= leaving.take(k + 1));
            }
            if !holds_id(&installed, &self.workloads[k].container.id) {
                let ghost before = pending@;
                let id = self.workloads[k].container.id.clone();
                let ghost added = id;
                pending.push(id);
                proof {
                    lemma_values_push(before, added);
                    assert(pending.deep_view() =~= waiting.filter(gone) + leaving.take(
                        k as int,
                    ).filter(gone).push(added@));
                }
            }
            k += 1;
        }
        proof {
            assert(leaving.take(leaving.len() as int) =~= leaving);
            Seq::filter_distributes_over_add(waiting, leaving, gone);
            if old(self).wf() {
                lemma_publish_wf(old(self)@, listing.deep_view());
            }
        }
        self.workloads = installed;
        self.pending_removals = pending;
    }

    /// Hands out the pending removals, oldest first, and forgets them. The
    /// workloads stay as they are.
    pub fn drain_removals(&mut self) -> (removals: Vec<String>)
        ensures
            removals.deep_view() == old(self)@.pending_removals,
            final(self)@ == old(self)@.drained(),
            old(self).wf() ==> final(self).wf(),
    {
        let mut removals: Vec<String> = Vec::new();
        std::mem::swap(&mut self.pending_removals, &mut removals);
        proof {
            assert(self.pending_removals.deep_view() =~= Seq::<Seq<char>>::empty());
        }
        removals
    }

    /// A copy of the workloads as they stand, in the listing's order.
    pub fn workloads(&self) -> (copy: Vec<Workload>)
        ensures
            copy.deep_view() == self@.workloads,
    {
        copy_workloads(&self.workloads)
    }

    /// A copy of the ids that await removal, oldest first.
    pub fn pending_removals(&self) -> (copy: Vec<String>)
        ensures
            copy.deep_view() == self@.pending_removals,
    {
        copy_ids(&self.pending_removals)
    }
}

} // verus!
