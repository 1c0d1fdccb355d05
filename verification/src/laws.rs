//! What holds of the list whatever it holds and whatever the remote engine
//! answers. Each law is proved over the functions of [`crate::model`], in
//! which the contracts of [`crate::PodList`] are stated.

use vstd::prelude::*;

use crate::change::ChangeView;
use crate::model::{
    added_ids, all_keyed, counted_under, counter_change, counter_changes, counter_value,
    created_pod, deleted_ids, distinct, has_id, ids, index_of, initialized_changes, is_added,
    is_deleted, is_listed, is_selected, is_stale, is_structural, lemma_counts_bounded,
    lemma_index_of, lemma_removed_distinct, lemma_update_at_distinct, lemma_upserted_distinct,
    listing_changes, merge_changes, merged, num_selected, purged, reconcile_changes, reconciled,
    refresh_changes, refreshed, refreshed_pod, removal_changes, removal_changes_all, removed,
    removed_all, report_ids, reported, reported_status, stale_ids, status_changes, structural,
    toggled, upsert_changes, upserted,
};
use crate::pod::{PodView, ReportView};
use crate::status::Counter;

verus! {

/// A filter that no element passes leaves nothing.
proof fn lemma_filter_none<A>(s: Seq<A>, p: spec_fn(A) -> bool)
    requires
        forall|i: int| 0 <= i < s.len() ==> !p(#[trigger] s[i]),
    ensures
        s.filter(p) == Seq::<A>::empty(),
{
    if s.filter(p).len() > 0 {
        let x = s.filter(p)[0];
        s.lemma_filter_contains_rev(p, x);
    }
}

/// A filter on one element keeps it or leaves nothing.
proof fn lemma_filter_one<A>(x: A, p: spec_fn(A) -> bool)
    ensures
        seq![x].filter(p) == (if p(x) {
            seq![x]
        } else {
            Seq::<A>::empty()
        }),
{
    let e = Seq::<A>::empty();
    e.lemma_filter_push(x, p);
}

/// Taking one element out lowers the number that pass a filter by one if
/// that element passed, and not otherwise.
proof fn lemma_filter_len_remove<A>(s: Seq<A>, k: int, p: spec_fn(A) -> bool)
    requires
        0 <= k < s.len(),
    ensures
        s.remove(k).filter(p).len() == s.filter(p).len() - (if p(s[k]) {
            1int
        } else {
            0int
        }),
{
    let a = s.take(k);
    let b = s.skip(k + 1);
    assert(s =~= a.push(s[k]) + b);
    a.lemma_filter_len_push(p, s[k]);
}

/// The three readings of a log go through concatenation.
proof fn lemma_concat(a: Seq<ChangeView>, b: Seq<ChangeView>)
    ensures
        structural(a + b) == structural(a) + structural(b),
        added_ids(a + b) == added_ids(a) + added_ids(b),
        deleted_ids(a + b) == deleted_ids(a) + deleted_ids(b),
{
}

/// A log without structural, added and deleted notifications reads as empty
/// in all three readings.
proof fn lemma_quiet(log: Seq<ChangeView>)
    requires
        forall|i: int|
            0 <= i < log.len() ==> !((#[trigger] log[i]) is ItemsChanged) && !(log[i] is PodAdded)
                && !(log[i] is PodDeleted),
    ensures
        structural(log) == Seq::<ChangeView>::empty(),
        added_ids(log) == Seq::<Seq<char>>::empty(),
        deleted_ids(log) == Seq::<Seq<char>>::empty(),
{
    lemma_filter_none(log, is_structural());
    lemma_filter_none(log, is_added());
    lemma_filter_none(log, is_deleted());
}

/// A log of one change reads as that change in the reading that it belongs
/// to, and as empty in the others.
proof fn lemma_single(c: ChangeView)
    ensures
        structural(seq![c]) == (if c is ItemsChanged {
            seq![c]
        } else {
            Seq::<ChangeView>::empty()
        }),
        added_ids(seq![c]) == (if c is PodAdded {
            seq![c->PodAdded_id]
        } else {
            Seq::<Seq<char>>::empty()
        }),
        deleted_ids(seq![c]) == (if c is PodDeleted {
            seq![c->PodDeleted_id]
        } else {
            Seq::<Seq<char>>::empty()
        }),
{
    lemma_filter_one(c, is_structural());
    lemma_filter_one(c, is_added());
    lemma_filter_one(c, is_deleted());
}

/// Counter notifications read as empty in all three readings.
proof fn lemma_counter_changes_quiet(before: Seq<PodView>, after: Seq<PodView>)
    ensures
        structural(counter_changes(before, after)) == Seq::<ChangeView>::empty(),
        added_ids(counter_changes(before, after)) == Seq::<Seq<char>>::empty(),
        deleted_ids(counter_changes(before, after)) == Seq::<Seq<char>>::empty(),
{
    let a = counter_change(before, after, Counter::Degraded);
    let b = counter_change(before, after, Counter::NotRunning);
    let c = counter_change(before, after, Counter::Paused);
    let d = counter_change(before, after, Counter::Running);
    lemma_quiet(a);
    lemma_quiet(b);
    lemma_quiet(c);
    lemma_quiet(d);
}

/// How the notifications of one removal read.
proof fn lemma_removal_readings(pods: Seq<PodView>, id: Seq<char>)
    ensures
        has_id(pods, id) ==> {
            &&& structural(removal_changes(pods, id)) == seq![
                ChangeView::ItemsChanged { position: index_of(pods, id), removed: 1, added: 0 },
            ]
            &&& deleted_ids(removal_changes(pods, id)) == seq![id]
        },
        !has_id(pods, id) ==> {
            &&& structural(removal_changes(pods, id)) == Seq::<ChangeView>::empty()
            &&& deleted_ids(removal_changes(pods, id)) == Seq::<Seq<char>>::empty()
        },
        added_ids(removal_changes(pods, id)) == Seq::<Seq<char>>::empty(),
{
    if has_id(pods, id) {
        let first = ChangeView::ItemsChanged { position: index_of(pods, id), removed: 1, added: 0 };
        let middle = counter_changes(pods, removed(pods, id));
        let last = ChangeView::PodDeleted { id };
        lemma_single(first);
        lemma_single(last);
        lemma_counter_changes_quiet(pods, removed(pods, id));
        lemma_concat(seq![first] + middle, seq![last]);
        assert(deleted_ids(removal_changes(pods, id)) =~= seq![id]);
    }
}

/// How the notifications of one listing entry read.
proof fn lemma_upsert_readings(pods: Seq<PodView>, report: ReportView)
    ensures
        has_id(pods, report.id.unwrap()) ==> {
            &&& structural(upsert_changes(pods, report)) == Seq::<ChangeView>::empty()
            &&& added_ids(upsert_changes(pods, report)) == Seq::<Seq<char>>::empty()
        },
        !has_id(pods, report.id.unwrap()) ==> {
            &&& structural(upsert_changes(pods, report)) == seq![
                ChangeView::ItemsChanged { position: pods.len() as int, removed: 0, added: 1 },
            ]
            &&& added_ids(upsert_changes(pods, report)) == seq![report.id.unwrap()]
        },
        deleted_ids(upsert_changes(pods, report)) == Seq::<Seq<char>>::empty(),
{
    let id = report.id.unwrap();
    let middle = counter_changes(pods, upserted(pods, report));
    lemma_counter_changes_quiet(pods, upserted(pods, report));
    if has_id(pods, id) {
        let first = status_changes(pods[index_of(pods, id)], report.status);
        lemma_quiet(first);
    } else {
        let first = ChangeView::ItemsChanged { position: pods.len() as int, removed: 0, added: 1 };
        let last = ChangeView::PodAdded { id };
        lemma_single(first);
        lemma_single(last);
        lemma_concat(seq![first] + middle, seq![last]);
    }
}

/// The four counters add up to the number of pods, whatever the list holds,
/// and none of them is negative: the pods that are not running are those
/// whose state is neither running nor paused nor degraded.
pub proof fn law_counters_add_up(pods: Seq<PodView>)
    ensures
        counter_value(pods, Counter::Running) + counter_value(pods, Counter::Paused)
            + counter_value(pods, Counter::Degraded) + counter_value(pods, Counter::NotRunning)
            == pods.len(),
        counter_value(pods, Counter::NotRunning) == pods.filter(
            counted_under(Counter::NotRunning),
        ).len(),
        forall|counter: Counter| 0 <= #[trigger] counter_value(pods, counter) <= pods.len(),
{
    lemma_counts_bounded(pods);
}

/// Removing the pod at position `k` of a list of `n` pods leaves `n - 1` pods:
/// those before `k` stay in place, each pod after `k` moves up by exactly one
/// place, and the one structural notification names position `k`, one pod
/// removed and none added.
pub proof fn law_remove_preserves_order(pods: Seq<PodView>, id: Seq<char>)
    requires
        distinct(pods),
        has_id(pods, id),
    ensures
        removed(pods, id).len() == pods.len() - 1,
        forall|j: int|
            0 <= j < index_of(pods, id) ==> #[trigger] removed(pods, id)[j] == pods[j],
        forall|j: int|
            index_of(pods, id) <= j < pods.len() - 1 ==> #[trigger] removed(pods, id)[j] == pods[j
                + 1],
        removal_changes(pods, id)[0] == (ChangeView::ItemsChanged {
            position: index_of(pods, id),
            removed: 1,
            added: 0,
        }),
        structural(removal_changes(pods, id)) == seq![
            ChangeView::ItemsChanged { position: index_of(pods, id), removed: 1, added: 0 },
        ],
        deleted_ids(removal_changes(pods, id)) == seq![id],
{
    lemma_removal_readings(pods, id);
}

/// Removing a pod takes its selection with it and leaves every other
/// selection: the number of selected pods falls by one if the pod was
/// selected, and stays otherwise. So after a pod is selected and then removed,
/// the selected pods are the others that were selected before, and none where
/// no other pod was.
pub proof fn law_selection_cleanup(pods: Seq<PodView>, id: Seq<char>)
    requires
        distinct(pods),
        has_id(pods, id),
    ensures
        num_selected(removed(pods, id)) == num_selected(pods) - (if pods[index_of(
            pods,
            id,
        )].selected {
            1int
        } else {
            0int
        }),
        num_selected(removed(toggled(pods, id), id)) == num_selected(removed(pods, id)),
        (forall|j: int| 0 <= j < pods.len() && j != index_of(pods, id) ==> !(#[trigger] pods[j]).selected)
            ==> num_selected(removed(toggled(pods, id), id)) == 0,
{
    let k = index_of(pods, id);
    lemma_filter_len_remove(pods, k, is_selected());
    let turned = toggled(pods, id);
    lemma_update_at_distinct(pods, k, pods[k].with_selected(!pods[k].selected));
    lemma_index_of(turned, k);
    assert(removed(turned, id) =~= removed(pods, id));
    if forall|j: int| 0 <= j < pods.len() && j != k ==> !(#[trigger] pods[j]).selected {
        let rest = removed(pods, id);
        lemma_filter_none(rest, is_selected());
    }
}

/// What a sequence contains after one more element was appended.
proof fn lemma_contains_push<A>(s: Seq<A>, x: A, y: A)
    ensures
        s.push(x).contains(y) <==> s.contains(y) || y == x,
{
    let t = s.push(x);
    if s.contains(y) {
        let i = choose|i: int| 0 <= i < s.len() && s[i] == y;
        assert(t[i] == y);
    }
    if y == x {
        assert(t[s.len() as int] == y);
    }
}

/// A sequence that contains nothing is empty.
proof fn lemma_contains_nothing<A>(s: Seq<A>)
    requires
        forall|x: A| !s.contains(x),
    ensures
        s == Seq::<A>::empty(),
{
    if s.len() > 0 {
        assert(s.contains(s[0]));
    }
}

/// The identifiers of a list are those that the list has.
proof fn lemma_ids_contains(pods: Seq<PodView>, id: Seq<char>)
    ensures
        ids(pods).contains(id) <==> has_id(pods, id),
{
    if has_id(pods, id) {
        let i = index_of(pods, id);
        assert(ids(pods)[i] == id);
    }
}

/// The identifiers that a listing names are those that it reports.
proof fn lemma_report_ids_contains(reports: Seq<ReportView>, id: Seq<char>)
    requires
        all_keyed(reports),
    ensures
        report_ids(reports).contains(id) <==> reported(reports, id),
{
    if reported(reports, id) {
        let j = choose|j: int| 0 <= j < reports.len() && (#[trigger] reports[j]).id == Some(id);
        assert(report_ids(reports)[j] == id);
    }
}

/// A prefix of a list with distinct identifiers has distinct identifiers.
proof fn lemma_front_distinct(pods: Seq<PodView>)
    requires
        distinct(pods),
        pods.len() > 0,
    ensures
        distinct(pods.drop_last()),
        !has_id(pods.drop_last(), pods.last().id),
{
    reveal(distinct);
    let front = pods.drop_last();
}

/// The stale identifiers are those that the list has and the listing does
/// not report, each once.
proof fn lemma_stale_ids(pods: Seq<PodView>, reports: Seq<ReportView>)
    requires
        distinct(pods),
    ensures
        stale_ids(pods, reports).no_duplicates(),
        forall|id: Seq<char>| #[trigger]
            stale_ids(pods, reports).contains(id) <==> has_id(pods, id) && !reported(reports, id),
    decreases pods.len(),
{
    let test = is_stale(reports);
    if pods.len() > 0 {
        let front = pods.drop_last();
        let last = pods.last();
        assert(pods =~= front.push(last));
        lemma_front_distinct(pods);
        lemma_stale_ids(front, reports);
        front.lemma_filter_push(last, test);
        let before = stale_ids(front, reports);
        let now = stale_ids(pods, reports);
        if test(last) {
            assert(now =~= before.push(last.id));
            assert(!before.contains(last.id));
        }
        assert forall|id: Seq<char>| #[trigger]
            now.contains(id) <==> has_id(pods, id) && !reported(reports, id) by {
            lemma_contains_push(before, last.id, id);
        }
    }
}

/// What is left after a run of removals: distinct identifiers, those that
/// the list had and the run did not name.
proof fn lemma_removed_all(pods: Seq<PodView>, gone: Seq<Seq<char>>)
    requires
        distinct(pods),
    ensures
        distinct(removed_all(pods, gone)),
        forall|id: Seq<char>| #[trigger]
            has_id(removed_all(pods, gone), id) <==> has_id(pods, id) && !gone.contains(id),
    decreases gone.len(),
{
    if gone.len() > 0 {
        let front = gone.drop_last();
        let last = gone.last();
        assert(gone =~= front.push(last));
        lemma_removed_all(pods, front);
        let prev = removed_all(pods, front);
        lemma_removed_distinct(prev, last);
    }
}

/// What a run of removals tells: each pod named once and held by the list
/// is reported gone, in the run's order, with one structural notification
/// each, and none is reported added.
proof fn lemma_removal_log(pods: Seq<PodView>, gone: Seq<Seq<char>>)
    requires
        distinct(pods),
        gone.no_duplicates(),
        forall|i: int| 0 <= i < gone.len() ==> has_id(pods, #[trigger] gone[i]),
    ensures
        deleted_ids(removal_changes_all(pods, gone)) == gone,
        added_ids(removal_changes_all(pods, gone)) == Seq::<Seq<char>>::empty(),
        structural(removal_changes_all(pods, gone)).len() == gone.len(),
    decreases gone.len(),
{
    if gone.len() > 0 {
        let front = gone.drop_last();
        let last = gone.last();
        lemma_removal_log(pods, front);
        lemma_removed_all(pods, front);
        let prev = removed_all(pods, front);
        lemma_removal_readings(prev, last);
        lemma_concat(removal_changes_all(pods, front), removal_changes(prev, last));
    }
}

/// What a run of listing entries leaves: distinct identifiers, those that the
/// list had and those that the entries name.
proof fn lemma_merged(pods: Seq<PodView>, reports: Seq<ReportView>)
    requires
        distinct(pods),
        all_keyed(reports),
    ensures
        distinct(merged(pods, reports)),
        forall|id: Seq<char>| #[trigger]
            has_id(merged(pods, reports), id) <==> has_id(pods, id) || reported(reports, id),
    decreases reports.len(),
{
    if reports.len() > 0 {
        let front = reports.drop_last();
        let last = reports.last();
        lemma_front_keyed(reports);
        lemma_merged(pods, front);
        let prev = merged(pods, front);
        lemma_upserted_distinct(prev, last);
    }
}

/// A listing whose entries all have identifiers stays so without its last
/// entry, and that entry has one.
proof fn lemma_front_keyed(reports: Seq<ReportView>)
    requires
        all_keyed(reports),
        reports.len() > 0,
    ensures
        all_keyed(reports.drop_last()),
        reports.last().id.is_some(),
        reports == reports.drop_last().push(reports.last()),
{
}

/// How the last entry of a listing adds to what the entries before it told.
proof fn lemma_merge_step(pods: Seq<PodView>, reports: Seq<ReportView>)
    requires
        reports.len() > 0,
    ensures
        ({
            let front = reports.drop_last();
            let name = reports.last().id.unwrap();
            let known = has_id(merged(pods, front), name);
            let before = merge_changes(pods, front);
            let log = merge_changes(pods, reports);
            &&& deleted_ids(log) == deleted_ids(before)
            &&& known ==> added_ids(log) == added_ids(before) && structural(log) == structural(
                before,
            )
            &&& !known ==> added_ids(log) == added_ids(before).push(name) && structural(log).len()
                == structural(before).len() + 1
        }),
{
    let front = reports.drop_last();
    let prev = merged(pods, front);
    let before = merge_changes(pods, front);
    let step = upsert_changes(prev, reports.last());
    lemma_upsert_readings(prev, reports.last());
    lemma_concat(before, step);
}

/// What a run of listing entries tells: no pod is reported gone; the pods
/// reported added are those that the entries name and the list did not have,
/// each once, with one structural notification each.
proof fn lemma_merge_log(pods: Seq<PodView>, reports: Seq<ReportView>)
    requires
        distinct(pods),
        all_keyed(reports),
    ensures
        deleted_ids(merge_changes(pods, reports)) == Seq::<Seq<char>>::empty(),
        added_ids(merge_changes(pods, reports)).no_duplicates(),
        forall|id: Seq<char>| #[trigger]
            added_ids(merge_changes(pods, reports)).contains(id) <==> reported(reports, id)
                && !has_id(pods, id),
        structural(merge_changes(pods, reports)).len() == added_ids(
            merge_changes(pods, reports),
        ).len(),
    decreases reports.len(),
{
    let now = added_ids(merge_changes(pods, reports));
    if reports.len() > 0 {
        let front = reports.drop_last();
        let last = reports.last();
        let name = last.id.unwrap();
        let prev = merged(pods, front);
        let before = added_ids(merge_changes(pods, front));
        lemma_front_keyed(reports);
        lemma_merge_log(pods, front);
        lemma_merged(pods, front);
        lemma_merge_step(pods, reports);
        if !has_id(prev, name) {
            assert(before.contains(name) <==> reported(front, name) && !has_id(pods, name));
        }
        assert forall|id: Seq<char>| #[trigger]
            now.contains(id) <==> reported(reports, id) && !has_id(pods, id) by {
            lemma_contains_push(before, name, id);
        }
    }
}

/// A run of listing entries that names only pods that the list has leaves
/// every pod at its place.
proof fn lemma_merge_keeps_ids(pods: Seq<PodView>, reports: Seq<ReportView>)
    requires
        distinct(pods),
        all_keyed(reports),
        forall|id: Seq<char>| reported(reports, id) ==> has_id(pods, id),
    ensures
        ids(merged(pods, reports)) == ids(pods),
    decreases reports.len(),
{
    if reports.len() > 0 {
        let front = reports.drop_last();
        lemma_merge_keeps_ids(pods, front);
        lemma_merged(pods, front);
    }
}

/// After a full reconciliation the list holds exactly the pods that the
/// listing names, each once. The pods reported gone are exactly those that
/// the list had and the listing does not name, each once and in the order in
/// which the list held them; the pods reported added are exactly those that
/// the listing names and the list did not have, each once; and there is one
/// structural notification for each of them, and no other.
pub proof fn law_reconcile_by_difference(pods: Seq<PodView>, reports: Seq<ReportView>)
    requires
        distinct(pods),
        all_keyed(reports),
    ensures
        distinct(reconciled(pods, true, reports)),
        ids(reconciled(pods, true, reports)).to_set() == report_ids(reports).to_set(),
        deleted_ids(reconcile_changes(pods, true, reports)).to_set() == ids(
            pods,
        ).to_set().difference(report_ids(reports).to_set()),
        added_ids(reconcile_changes(pods, true, reports)).to_set() == report_ids(
            reports,
        ).to_set().difference(ids(pods).to_set()),
        deleted_ids(reconcile_changes(pods, true, reports)) == stale_ids(pods, reports),
        deleted_ids(reconcile_changes(pods, true, reports)).no_duplicates(),
        added_ids(reconcile_changes(pods, true, reports)).no_duplicates(),
        structural(reconcile_changes(pods, true, reports)).len() == deleted_ids(
            reconcile_changes(pods, true, reports),
        ).len() + added_ids(reconcile_changes(pods, true, reports)).len(),
{
    let gone = stale_ids(pods, reports);
    let kept = removed_all(pods, gone);
    let after = reconciled(pods, true, reports);
    let first = removal_changes_all(pods, gone);
    let second = merge_changes(kept, reports);
    let log = reconcile_changes(pods, true, reports);
    lemma_stale_ids(pods, reports);
    assert forall|i: int| 0 <= i < gone.len() implies has_id(pods, #[trigger] gone[i]) by {
        assert(gone.contains(gone[i]));
    }
    lemma_removed_all(pods, gone);
    lemma_removal_log(pods, gone);
    lemma_merged(kept, reports);
    lemma_merge_log(kept, reports);
    lemma_concat(first, second);
    assert forall|id: Seq<char>|
        ids(after).to_set().contains(id) <==> report_ids(reports).to_set().contains(id) by {
        lemma_ids_contains(after, id);
        lemma_report_ids_contains(reports, id);
    }
    assert forall|id: Seq<char>|
        deleted_ids(log).to_set().contains(id) <==> ids(pods).to_set().difference(
            report_ids(reports).to_set(),
        ).contains(id) by {
        lemma_ids_contains(pods, id);
        lemma_report_ids_contains(reports, id);
    }
    assert forall|id: Seq<char>|
        added_ids(log).to_set().contains(id) <==> report_ids(reports).to_set().difference(
            ids(pods).to_set(),
        ).contains(id) by {
        lemma_ids_contains(pods, id);
        lemma_report_ids_contains(reports, id);
    }
}

/// A list in which every pod is reported has no stale pod.
proof fn lemma_nothing_stale(pods: Seq<PodView>, reports: Seq<ReportView>)
    requires
        distinct(pods),
        forall|id: Seq<char>| has_id(pods, id) ==> reported(reports, id),
    ensures
        stale_ids(pods, reports) == Seq::<Seq<char>>::empty(),
{
    let gone = stale_ids(pods, reports);
    lemma_stale_ids(pods, reports);
    lemma_contains_nothing(gone);
}

/// Which pods a reconciliation leaves: every pod that the listing names,
/// and, where the listing was full, no other.
proof fn lemma_reconciled_ids(pods: Seq<PodView>, full: bool, reports: Seq<ReportView>)
    requires
        distinct(pods),
        all_keyed(reports),
    ensures
        distinct(reconciled(pods, full, reports)),
        forall|id: Seq<char>|
            reported(reports, id) ==> #[trigger] has_id(reconciled(pods, full, reports), id),
        full ==> forall|id: Seq<char>| #[trigger]
            has_id(reconciled(pods, full, reports), id) ==> reported(reports, id),
{
    let start = purged(pods, full, reports);
    if full {
        lemma_stale_ids(pods, reports);
        lemma_removed_all(pods, stale_ids(pods, reports));
    }
    lemma_merged(start, reports);
}

/// A run of listing entries that names only pods that the list has tells
/// of no pod added or gone and of no structural change.
proof fn lemma_merge_quiet(pods: Seq<PodView>, reports: Seq<ReportView>)
    requires
        distinct(pods),
        all_keyed(reports),
        forall|id: Seq<char>| reported(reports, id) ==> has_id(pods, id),
    ensures
        structural(merge_changes(pods, reports)) == Seq::<ChangeView>::empty(),
        added_ids(merge_changes(pods, reports)) == Seq::<Seq<char>>::empty(),
        deleted_ids(merge_changes(pods, reports)) == Seq::<Seq<char>>::empty(),
{
    let log = merge_changes(pods, reports);
    lemma_merge_log(pods, reports);
    lemma_contains_nothing(added_ids(log));
}

/// The notifications of the flags are not structural.
proof fn lemma_flags_quiet(listing: bool, initialized: bool, middle: Seq<ChangeView>)
    ensures
        structural(
            listing_changes(listing, true) + middle + seq![
                ChangeView::ListingChanged { listing: false },
            ] + initialized_changes(initialized),
        ) == structural(middle),
{
    let a = listing_changes(listing, true);
    let c = seq![ChangeView::ListingChanged { listing: false }];
    let d = initialized_changes(initialized);
    lemma_quiet(a);
    lemma_quiet(c);
    lemma_quiet(d);
}

/// A refresh that brings the same listing as the refresh before it, asked
/// for the same scope, tells of no structural change: no pod leaves, none
/// enters, none is reported added or gone, and every pod keeps its place.
/// This holds of the notifications of the pods and of the whole log of the
/// refresh, whatever the flags were.
pub proof fn law_refresh_idempotent(
    pods: Seq<PodView>,
    scope: Option<Seq<char>>,
    reports: Seq<ReportView>,
    listing: bool,
    initialized: bool,
)
    requires
        distinct(pods),
        all_keyed(reports),
    ensures
        ({
            let after = refreshed(pods, scope, Some(reports));
            let again = refresh_changes(after, scope, Some(reports));
            let log = listing_changes(listing, true) + again + seq![
                ChangeView::ListingChanged { listing: false },
            ] + initialized_changes(initialized);
            &&& structural(again) == Seq::<ChangeView>::empty()
            &&& added_ids(again) == Seq::<Seq<char>>::empty()
            &&& deleted_ids(again) == Seq::<Seq<char>>::empty()
            &&& structural(log) == Seq::<ChangeView>::empty()
            &&& ids(refreshed(after, scope, Some(reports))) == ids(after)
        }),
{
    let full = scope.is_none();
    let after = reconciled(pods, full, reports);
    lemma_reconciled_ids(pods, full, reports);
    if full {
        lemma_nothing_stale(after, reports);
    }
    let again = merge_changes(after, reports);
    assert(refresh_changes(after, scope, Some(reports)) =~= again);
    lemma_merge_quiet(after, reports);
    lemma_merge_keeps_ids(after, reports);
    lemma_flags_quiet(listing, initialized, again);
}

/// Removing a pod from a list and from the list without its last pod comes
/// to the same, where the last pod is another one.
proof fn lemma_removed_push(pods: Seq<PodView>, pod: PodView, id: Seq<char>)
    requires
        distinct(pods.push(pod)),
        id != pod.id,
    ensures
        removed(pods.push(pod), id) == removed(pods, id).push(pod),
{
    let all = pods.push(pod);
    if has_id(pods, id) {
        let k = index_of(pods, id);
        lemma_index_of(all, k);
    }
}

/// A run of removals that does not name the last pod leaves it last.
proof fn lemma_removed_all_push(pods: Seq<PodView>, pod: PodView, gone: Seq<Seq<char>>)
    requires
        distinct(pods.push(pod)),
        !gone.contains(pod.id),
    ensures
        removed_all(pods.push(pod), gone) == removed_all(pods, gone).push(pod),
    decreases gone.len(),
{
    if gone.len() > 0 {
        let front = gone.drop_last();
        let last = gone.last();
        lemma_removed_all_push(pods, pod, front);
        lemma_removed_all(pods.push(pod), front);
        lemma_removed_push(removed_all(pods, front), pod, last);
    }
}

/// Removing the stale pods one after the other leaves the pods that the
/// listing names, in their order.
proof fn lemma_purged_is_filter(pods: Seq<PodView>, reports: Seq<ReportView>)
    requires
        distinct(pods),
    ensures
        removed_all(pods, stale_ids(pods, reports)) == pods.filter(is_listed(reports)),
    decreases pods.len(),
{
    let listed = is_listed(reports);
    let stale = is_stale(reports);
    if pods.len() > 0 {
        let front = pods.drop_last();
        let last = pods.last();
        assert(pods =~= front.push(last));
        lemma_front_distinct(pods);
        lemma_purged_is_filter(front, reports);
        front.lemma_filter_push(last, listed);
        front.lemma_filter_push(last, stale);
        lemma_stale_ids(front, reports);
        let gone_front = stale_ids(front, reports);
        lemma_removed_all_push(front, last, gone_front);
        if !reported(reports, last.id) {
            let gone = stale_ids(pods, reports);
            assert(gone.drop_last() =~= gone_front);
            lemma_removed_all(pods, gone_front);
        }
    }
}

/// What a run of listing entries leaves: the pods that were there, each as
/// the listing has it, followed by the pods reported added, as the listing
/// has them.
proof fn lemma_merged_shape(start: Seq<PodView>, reports: Seq<ReportView>)
    requires
        distinct(start),
        all_keyed(reports),
    ensures
        merged(start, reports) == start.map_values(refreshed_pod(reports)) + added_ids(
            merge_changes(start, reports),
        ).map_values(created_pod(reports)),
    decreases reports.len(),
{
    let cur = merged(start, reports);
    let fresh = added_ids(merge_changes(start, reports));
    let target = start.map_values(refreshed_pod(reports)) + fresh.map_values(created_pod(reports));
    if reports.len() > 0 {
        let front = reports.drop_last();
        let last = reports.last();
        let name = last.id.unwrap();
        lemma_front_keyed(reports);
        lemma_merged_shape(start, front);
        lemma_merged(start, front);
        lemma_merge_step(start, reports);
        let prev = merged(start, front);
        if has_id(prev, name) {
            assert forall|i: int| 0 <= i < cur.len() implies #[trigger] cur[i] == target[i] by {
                lemma_index_of(prev, i);
            }
        }
    }
}

/// What a reconciliation leaves, said at once. First come the pods that were
/// there, in the order they had: after a full listing those that the listing
/// names, after a listing of one pod all of them. Each that the listing names
/// is in the state of the last entry that names it, and keeps its selection.
/// Then come the pods reported added, in the order in which they were
/// reported, each in the state of the last entry that names it, not selected.
pub proof fn law_reconciled_pods(pods: Seq<PodView>, full: bool, reports: Seq<ReportView>)
    requires
        distinct(pods),
        all_keyed(reports),
    ensures
        reconciled(pods, full, reports) == (if full {
            pods.filter(is_listed(reports))
        } else {
            pods
        }).map_values(refreshed_pod(reports)) + added_ids(
            reconcile_changes(pods, full, reports),
        ).map_values(created_pod(reports)),
{
    let start = purged(pods, full, reports);
    let second = merge_changes(start, reports);
    if full {
        let gone = stale_ids(pods, reports);
        let first = removal_changes_all(pods, gone);
        lemma_purged_is_filter(pods, reports);
        lemma_stale_ids(pods, reports);
        assert forall|i: int| 0 <= i < gone.len() implies has_id(pods, #[trigger] gone[i]) by {
            assert(gone.contains(gone[i]));
        }
        lemma_removed_all(pods, gone);
        lemma_removal_log(pods, gone);
        lemma_concat(first, second);
    }
    lemma_merged_shape(start, reports);
}

} // verus!
