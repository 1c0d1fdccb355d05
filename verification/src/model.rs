//! The list as a sequence of pods, and what each operation makes of it.
//!
//! Every contract of [`crate::PodStore`] and [`crate::PodList`] is stated over
//! the functions of this module.

use vstd::prelude::*;

use crate::change::ChangeView;
use crate::pod::{PodView, ReportView};
use crate::status::{Counter, PodStatus};

verus! {

/// The identifiers of `pods`, in order.
pub open spec fn ids(pods: Seq<PodView>) -> Seq<Seq<char>> {
    pods.map_values(|p: PodView| p.id)
}

/// Whether a pod of `pods` has the identifier `id`.
pub open spec fn has_id(pods: Seq<PodView>, id: Seq<char>) -> bool {
    exists|i: int| 0 <= i < pods.len() && (#[trigger] pods[i]).id == id
}

/// A position at which `pods` holds a pod with the identifier `id`; the only
/// one where the identifiers are distinct.
pub open spec fn index_of(pods: Seq<PodView>, id: Seq<char>) -> int {
    choose|i: int| 0 <= i < pods.len() && (#[trigger] pods[i]).id == id
}

/// No two pods of `pods` share an identifier.
#[verifier::opaque]
pub open spec fn distinct(pods: Seq<PodView>) -> bool {
    forall|i: int, j: int|
        0 <= i < j < pods.len() ==> (#[trigger] pods[i]).id != (#[trigger] pods[j]).id
}

/// The test "is in the state `status`".
pub open spec fn in_status(status: PodStatus) -> spec_fn(PodView) -> bool {
    |p: PodView| p.status == status
}

/// The test "is counted under `counter`".
pub open spec fn counted_under(counter: Counter) -> spec_fn(PodView) -> bool {
    |p: PodView| p.status.counter() == counter
}

/// The test "is selected".
pub open spec fn is_selected() -> spec_fn(PodView) -> bool {
    |p: PodView| p.selected
}

/// How many pods of `pods` are in the state `status`.
pub open spec fn count_status(pods: Seq<PodView>, status: PodStatus) -> nat {
    pods.filter(in_status(status)).len()
}

/// How many pods of `pods` are selected.
pub open spec fn num_selected(pods: Seq<PodView>) -> nat {
    pods.filter(is_selected()).len()
}

/// How many pods are neither running nor paused nor degraded: the total less
/// those three counts.
pub open spec fn not_running(pods: Seq<PodView>) -> int {
    pods.len() - count_status(pods, PodStatus::Running) - count_status(pods, PodStatus::Paused)
        - count_status(pods, PodStatus::Degraded)
}

/// The value of `counter` over `pods`.
pub open spec fn counter_value(pods: Seq<PodView>, counter: Counter) -> int {
    match counter {
        Counter::Degraded => count_status(pods, PodStatus::Degraded) as int,
        Counter::NotRunning => not_running(pods),
        Counter::Paused => count_status(pods, PodStatus::Paused) as int,
        Counter::Running => count_status(pods, PodStatus::Running) as int,
    }
}

/// The notification that `counter` owes for the step from `before` to
/// `after`: its new value where that differs from the old one, else none.
pub open spec fn counter_change(before: Seq<PodView>, after: Seq<PodView>, counter: Counter) -> Seq<
    ChangeView,
> {
    if counter_value(before, counter) != counter_value(after, counter) {
        seq![ChangeView::CounterChanged { counter, value: counter_value(after, counter) }]
    } else {
        Seq::empty()
    }
}

/// The counter notifications for the step from `before` to `after`: one for
/// each counter whose value changed, in the order degraded, not running,
/// paused, running.
pub open spec fn counter_changes(before: Seq<PodView>, after: Seq<PodView>) -> Seq<ChangeView> {
    counter_change(before, after, Counter::Degraded) + counter_change(
        before,
        after,
        Counter::NotRunning,
    ) + counter_change(before, after, Counter::Paused) + counter_change(
        before,
        after,
        Counter::Running,
    )
}

/// `pods` without the pod `id`: the pods after it move up by one place. A list
/// that has no such pod stays as it is.
pub open spec fn removed(pods: Seq<PodView>, id: Seq<char>) -> Seq<PodView> {
    if has_id(pods, id) {
        pods.remove(index_of(pods, id))
    } else {
        pods
    }
}

/// What observers are told when the pod `id` is removed from `pods`: that one
/// pod left at its position, the counters that changed, and that the pod is
/// gone. Nothing where `pods` has no such pod.
pub open spec fn removal_changes(pods: Seq<PodView>, id: Seq<char>) -> Seq<ChangeView> {
    if has_id(pods, id) {
        seq![ChangeView::ItemsChanged { position: index_of(pods, id), removed: 1, added: 0 }]
            + counter_changes(pods, removed(pods, id)) + seq![ChangeView::PodDeleted { id }]
    } else {
        Seq::empty()
    }
}

/// `pods` after the listing entry `report`: a pod that is already there takes
/// the reported state and keeps its place and its selection; a new one is
/// appended, not selected.
pub open spec fn upserted(pods: Seq<PodView>, report: ReportView) -> Seq<PodView> {
    let id = report.id.unwrap();
    if has_id(pods, id) {
        let k = index_of(pods, id);
        pods.update(k, pods[k].updated(report.status))
    } else {
        pods.push(PodView::created(id, report.status))
    }
}

/// The notification that a pod owes when `status` is reported for it: its new
/// state where that differs from the one it was in, else none.
pub open spec fn status_changes(pod: PodView, status: PodStatus) -> Seq<ChangeView> {
    if pod.status != status {
        seq![ChangeView::StatusChanged { id: pod.id, status }]
    } else {
        Seq::empty()
    }
}

/// What observers are told when `report` is applied to `pods`. For a pod that
/// is already there: its new state and the counters, as far as they changed.
/// For a new one: that one pod came at the end, the counters that changed,
/// and that the pod was added.
pub open spec fn upsert_changes(pods: Seq<PodView>, report: ReportView) -> Seq<ChangeView> {
    let id = report.id.unwrap();
    if has_id(pods, id) {
        status_changes(pods[index_of(pods, id)], report.status) + counter_changes(
            pods,
            upserted(pods, report),
        )
    } else {
        seq![ChangeView::ItemsChanged { position: pods.len() as int, removed: 0, added: 1 }]
            + counter_changes(pods, upserted(pods, report)) + seq![ChangeView::PodAdded { id }]
    }
}

/// Whether an entry of `reports` names the pod `id`.
pub open spec fn reported(reports: Seq<ReportView>, id: Seq<char>) -> bool {
    exists|j: int| 0 <= j < reports.len() && (#[trigger] reports[j]).id == Some(id)
}

/// The test "no entry of `reports` names this pod".
pub open spec fn is_stale(reports: Seq<ReportView>) -> spec_fn(PodView) -> bool {
    |p: PodView| !reported(reports, p.id)
}

/// The identifiers of the pods of `pods` that `reports` no longer names, in
/// the order of `pods`.
pub open spec fn stale_ids(pods: Seq<PodView>, reports: Seq<ReportView>) -> Seq<Seq<char>> {
    ids(pods.filter(is_stale(reports)))
}

/// The test "an entry of `reports` names this pod".
pub open spec fn is_listed(reports: Seq<ReportView>) -> spec_fn(PodView) -> bool {
    |p: PodView| reported(reports, p.id)
}

/// The state that `reports` gives for the pod `id`: that of the last entry
/// that names it.
pub open spec fn reported_status(reports: Seq<ReportView>, id: Seq<char>) -> PodStatus
    decreases reports.len(),
{
    if reports.len() == 0 {
        PodStatus::Unknown
    } else if reports.last().id == Some(id) {
        reports.last().status
    } else {
        reported_status(reports.drop_last(), id)
    }
}

/// What `reports` makes of a pod that the list holds: a pod that it names
/// takes the state it gives, any other stays as it is.
pub open spec fn refreshed_pod(reports: Seq<ReportView>) -> spec_fn(PodView) -> PodView {
    |p: PodView|
        if reported(reports, p.id) {
            p.updated(reported_status(reports, p.id))
        } else {
            p
        }
}

/// The pod that `reports` makes for an identifier that is new to the list.
pub open spec fn created_pod(reports: Seq<ReportView>) -> spec_fn(Seq<char>) -> PodView {
    |id: Seq<char>| PodView::created(id, reported_status(reports, id))
}

/// Every entry of `reports` has an identifier.
pub open spec fn all_keyed(reports: Seq<ReportView>) -> bool {
    forall|j: int| 0 <= j < reports.len() ==> (#[trigger] reports[j]).id.is_some()
}

/// `pods` after the pods `gone` were removed from it, one after the other.
pub open spec fn removed_all(pods: Seq<PodView>, gone: Seq<Seq<char>>) -> Seq<PodView>
    decreases gone.len(),
{
    if gone.len() == 0 {
        pods
    } else {
        removed(removed_all(pods, gone.drop_last()), gone.last())
    }
}

/// What observers are told while the pods `gone` are removed from `pods`, one
/// after the other.
pub open spec fn removal_changes_all(pods: Seq<PodView>, gone: Seq<Seq<char>>) -> Seq<ChangeView>
    decreases gone.len(),
{
    if gone.len() == 0 {
        Seq::empty()
    } else {
        removal_changes_all(pods, gone.drop_last()) + removal_changes(
            removed_all(pods, gone.drop_last()),
            gone.last(),
        )
    }
}

/// `pods` after the entries of `reports` were applied to it, in their order.
pub open spec fn merged(pods: Seq<PodView>, reports: Seq<ReportView>) -> Seq<PodView>
    decreases reports.len(),
{
    if reports.len() == 0 {
        pods
    } else {
        upserted(merged(pods, reports.drop_last()), reports.last())
    }
}

/// What observers are told while the entries of `reports` are applied to
/// `pods`, in their order.
pub open spec fn merge_changes(pods: Seq<PodView>, reports: Seq<ReportView>) -> Seq<ChangeView>
    decreases reports.len(),
{
    if reports.len() == 0 {
        Seq::empty()
    } else {
        merge_changes(pods, reports.drop_last()) + upsert_changes(
            merged(pods, reports.drop_last()),
            reports.last(),
        )
    }
}

/// `pods` with the pods that a full listing no longer names taken out. A
/// listing that was asked for one pod only takes none out.
pub open spec fn purged(pods: Seq<PodView>, full: bool, reports: Seq<ReportView>) -> Seq<PodView> {
    if full {
        removed_all(pods, stale_ids(pods, reports))
    } else {
        pods
    }
}

/// `pods` brought into agreement with the listing `reports`: first the pods
/// that a full listing no longer names leave, then each entry is applied.
pub open spec fn reconciled(pods: Seq<PodView>, full: bool, reports: Seq<ReportView>) -> Seq<
    PodView,
> {
    merged(purged(pods, full, reports), reports)
}

/// What observers are told while `pods` is brought into agreement with
/// `reports`: the removals first, then what each entry caused.
pub open spec fn reconcile_changes(pods: Seq<PodView>, full: bool, reports: Seq<ReportView>) -> Seq<
    ChangeView,
> {
    (if full {
        removal_changes_all(pods, stale_ids(pods, reports))
    } else {
        Seq::empty()
    }) + merge_changes(purged(pods, full, reports), reports)
}

/// `pods` with the selection of every pod set to `selected`.
pub open spec fn all_selected(pods: Seq<PodView>, selected: bool) -> Seq<PodView> {
    pods.map_values(|p: PodView| p.with_selected(selected))
}

/// `pods` with the selection of the pod `id` turned over. A list that has no
/// such pod stays as it is.
pub open spec fn toggled(pods: Seq<PodView>, id: Seq<char>) -> Seq<PodView> {
    if has_id(pods, id) {
        let k = index_of(pods, id);
        pods.update(k, pods[k].with_selected(!pods[k].selected))
    } else {
        pods
    }
}

/// Where the identifiers are distinct, a pod's identifier is found at the
/// pod's own position and nowhere else.
pub proof fn lemma_index_of(pods: Seq<PodView>, k: int)
    requires
        distinct(pods),
        0 <= k < pods.len(),
    ensures
        has_id(pods, pods[k].id),
        index_of(pods, pods[k].id) == k,
{
    reveal(distinct);
}

/// Taking out the pod at `k` keeps the identifiers distinct.
pub proof fn lemma_remove_at_distinct(pods: Seq<PodView>, k: int)
    requires
        distinct(pods),
        0 <= k < pods.len(),
    ensures
        distinct(pods.remove(k)),
        !has_id(pods.remove(k), pods[k].id),
{
    reveal(distinct);
    let after = pods.remove(k);
}

/// Taking out the pod at `k` takes out no identifier but that pod's.
pub proof fn lemma_remove_at_keeps(pods: Seq<PodView>, k: int, other: Seq<char>)
    requires
        0 <= k < pods.len(),
        other != pods[k].id,
    ensures
        has_id(pods.remove(k), other) <==> has_id(pods, other),
{
    let after = pods.remove(k);
    if has_id(pods, other) {
        let i0 = index_of(pods, other);
        let i = if i0 < k { i0 } else { i0 - 1 };
        assert(after[i] == pods[i0]);
    }
}

/// Removing a pod keeps the identifiers distinct, and takes out no other
/// identifier.
pub proof fn lemma_removed_distinct(pods: Seq<PodView>, id: Seq<char>)
    requires
        distinct(pods),
    ensures
        distinct(removed(pods, id)),
        !has_id(removed(pods, id), id),
        forall|other: Seq<char>|
            other != id ==> (#[trigger] has_id(removed(pods, id), other) <==> has_id(pods, other)),
{
    if has_id(pods, id) {
        let k = index_of(pods, id);
        lemma_remove_at_distinct(pods, k);
        assert forall|other: Seq<char>| other != id implies (#[trigger] has_id(
            removed(pods, id),
            other,
        ) <==> has_id(pods, other)) by {
            lemma_remove_at_keeps(pods, k, other);
        }
    }
}

/// Replacing the pod at `k` by one of the same identifier keeps the
/// identifiers distinct.
pub proof fn lemma_update_at_distinct(pods: Seq<PodView>, k: int, pod: PodView)
    requires
        distinct(pods),
        0 <= k < pods.len(),
        pod.id == pods[k].id,
    ensures
        distinct(pods.update(k, pod)),
{
    reveal(distinct);
}

/// Replacing the pod at `k` by one of the same identifier changes no
/// identifier.
pub proof fn lemma_update_at_keeps(pods: Seq<PodView>, k: int, pod: PodView, other: Seq<char>)
    requires
        0 <= k < pods.len(),
        pod.id == pods[k].id,
    ensures
        has_id(pods.update(k, pod), other) <==> has_id(pods, other),
{
    let after = pods.update(k, pod);
    if has_id(pods, other) {
        let i = index_of(pods, other);
        assert(after[i].id == pods[i].id);
    }
}

/// Appending a pod whose identifier is new keeps the identifiers distinct.
pub proof fn lemma_push_distinct(pods: Seq<PodView>, pod: PodView)
    requires
        distinct(pods),
        !has_id(pods, pod.id),
    ensures
        distinct(pods.push(pod)),
{
    reveal(distinct);
}

/// Appending a pod adds its identifier and no other.
pub proof fn lemma_push_keeps(pods: Seq<PodView>, pod: PodView, other: Seq<char>)
    ensures
        has_id(pods.push(pod), other) <==> has_id(pods, other) || other == pod.id,
{
    let after = pods.push(pod);
    if has_id(pods, other) {
        let i = index_of(pods, other);
        assert(after[i].id == other);
    }
    if other == pod.id {
        assert(after[pods.len() as int].id == other);
    }
}

/// Applying a listing entry keeps the identifiers distinct, and adds no
/// identifier but its own.
pub proof fn lemma_upserted_distinct(pods: Seq<PodView>, report: ReportView)
    requires
        distinct(pods),
        report.id.is_some(),
    ensures
        distinct(upserted(pods, report)),
        has_id(upserted(pods, report), report.id.unwrap()),
        forall|other: Seq<char>|
            other != report.id.unwrap() ==> (#[trigger] has_id(upserted(pods, report), other)
                <==> has_id(pods, other)),
{
    let id = report.id.unwrap();
    if has_id(pods, id) {
        let k = index_of(pods, id);
        let pod = pods[k].updated(report.status);
        lemma_update_at_distinct(pods, k, pod);
        lemma_update_at_keeps(pods, k, pod, id);
        assert forall|other: Seq<char>| other != id implies (#[trigger] has_id(
            upserted(pods, report),
            other,
        ) <==> has_id(pods, other)) by {
            lemma_update_at_keeps(pods, k, pod, other);
        }
    } else {
        let pod = PodView::created(id, report.status);
        lemma_push_distinct(pods, pod);
        lemma_push_keeps(pods, pod, id);
        assert forall|other: Seq<char>| other != id implies (#[trigger] has_id(
            upserted(pods, report),
            other,
        ) <==> has_id(pods, other)) by {
            lemma_push_keeps(pods, pod, other);
        }
    }
}


/// The test "tells that the sequence of pods changed".
pub open spec fn is_structural() -> spec_fn(ChangeView) -> bool {
    |c: ChangeView| c is ItemsChanged
}

/// The test "tells that a pod was added".
pub open spec fn is_added() -> spec_fn(ChangeView) -> bool {
    |c: ChangeView| c is PodAdded
}

/// The test "tells that a pod is gone".
pub open spec fn is_deleted() -> spec_fn(ChangeView) -> bool {
    |c: ChangeView| c is PodDeleted
}

/// The structural notifications of `log`, in order: those that tell of pods
/// leaving or entering the sequence.
pub open spec fn structural(log: Seq<ChangeView>) -> Seq<ChangeView> {
    log.filter(is_structural())
}

/// The identifiers of the pods that `log` reports as added, in order.
pub open spec fn added_ids(log: Seq<ChangeView>) -> Seq<Seq<char>> {
    log.filter(is_added()).map_values(|c: ChangeView| c->PodAdded_id)
}

/// The identifiers of the pods that `log` reports as gone, in order.
pub open spec fn deleted_ids(log: Seq<ChangeView>) -> Seq<Seq<char>> {
    log.filter(is_deleted()).map_values(|c: ChangeView| c->PodDeleted_id)
}

/// The identifiers that the entries of `reports` name, in order.
pub open spec fn report_ids(reports: Seq<ReportView>) -> Seq<Seq<char>> {
    reports.map_values(|r: ReportView| r.id.unwrap())
}

/// The notification that the listing flag owes for the step from `before` to
/// `after`: its new value where that differs, else none.
pub open spec fn listing_changes(before: bool, after: bool) -> Seq<ChangeView> {
    if before != after {
        seq![ChangeView::ListingChanged { listing: after }]
    } else {
        Seq::empty()
    }
}

/// The notification that the end of a reconciliation owes: that the list is
/// initialized, the first time only.
pub open spec fn initialized_changes(before: bool) -> Seq<ChangeView> {
    if before {
        Seq::empty()
    } else {
        seq![ChangeView::Initialized]
    }
}

/// The pods after a fetch that was asked for `scope` came back as `fetched`
/// (nothing for a failed call): a listing is reconciled with, in full where
/// no scope was given; a failure leaves the pods as they were.
pub open spec fn refreshed(
    pods: Seq<PodView>,
    scope: Option<Seq<char>>,
    fetched: Option<Seq<ReportView>>,
) -> Seq<PodView> {
    match fetched {
        Some(reports) => reconciled(pods, scope.is_none(), reports),
        None => pods,
    }
}

/// What observers are told of the pods when a fetch comes back: what the
/// reconciliation caused, or the one failure signal.
pub open spec fn refresh_changes(
    pods: Seq<PodView>,
    scope: Option<Seq<char>>,
    fetched: Option<Seq<ReportView>>,
) -> Seq<ChangeView> {
    match fetched {
        Some(reports) => reconcile_changes(pods, scope.is_none(), reports),
        None => seq![ChangeView::RefreshFailed],
    }
}

/// Appending one pod raises the count of its own state by one and leaves the
/// other counts, and the count of selected pods goes up by one if it is
/// selected.
pub proof fn lemma_counts_push(pods: Seq<PodView>, pod: PodView)
    ensures
        forall|status: PodStatus| #[trigger]
            count_status(pods.push(pod), status) == count_status(pods, status) + (if pod.status
                == status {
                1int
            } else {
                0int
            }),
        num_selected(pods.push(pod)) == num_selected(pods) + (if pod.selected {
            1int
        } else {
            0int
        }),
{
    assert forall|status: PodStatus| #[trigger]
        count_status(pods.push(pod), status) == count_status(pods, status) + (if pod.status
            == status {
            1int
        } else {
            0int
        }) by {
        pods.lemma_filter_len_push(in_status(status), pod);
    }
    pods.lemma_filter_len_push(is_selected(), pod);
}

/// The running, paused and degraded pods together are no more than all pods.
pub proof fn lemma_counts_bounded(pods: Seq<PodView>)
    ensures
        count_status(pods, PodStatus::Running) + count_status(pods, PodStatus::Paused)
            + count_status(pods, PodStatus::Degraded) + pods.filter(
            counted_under(Counter::NotRunning),
        ).len() == pods.len(),
        not_running(pods) == pods.filter(counted_under(Counter::NotRunning)).len(),
    decreases pods.len(),
{
    if pods.len() > 0 {
        let front = pods.drop_last();
        let pod = pods.last();
        assert(pods =~= front.push(pod));
        lemma_counts_bounded(front);
        lemma_counts_push(front, pod);
        front.lemma_filter_len_push(counted_under(Counter::NotRunning), pod);
    }
}

} // verus!
