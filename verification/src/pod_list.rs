//! The list itself: the store, kept in step with the remote listing, with the
//! counters and the selection derived from it.

use vstd::prelude::*;

use crate::change::{Change, ChangeView, Event, FetchRequest, log_view, record, RefreshError};
use crate::model::{
    all_keyed, all_selected, count_status, counter_changes, counter_value, distinct, has_id,
    ids, index_of, initialized_changes, is_stale, lemma_counts_bounded, lemma_counts_push,
    listing_changes, merge_changes, merged, not_running, num_selected, purged, reconciled,
    refresh_changes, refreshed, removal_changes, removal_changes_all, removed, removed_all,
    reported, stale_ids, toggled, upsert_changes, upserted,
};
use crate::pod::{fetched_view, Pod, PodReport, PodView, reports_view};
use crate::status::{Counter, PodStatus};
use crate::store::{names_view, PodStore};

verus! {

/// Whether a reconciliation has ever ended. The step to `Initialized` is taken
/// once and never back.
#[derive(Clone, Copy, Debug, PartialEq, Eq, Structural)]
pub enum InitState {
    Uninitialized,
    Initialized,
}

/// The four counters, taken in one pass over the list.
#[derive(Clone, Copy, Debug, PartialEq, Eq)]
pub struct Counters {
    pub degraded: usize,
    pub not_running: usize,
    pub paused: usize,
    pub running: usize,
}

impl Counters {
    /// These are the counters of `pods`.
    pub open spec fn counts(self, pods: Seq<PodView>) -> bool {
        &&& self.degraded == counter_value(pods, Counter::Degraded)
        &&& self.not_running == counter_value(pods, Counter::NotRunning)
        &&& self.paused == counter_value(pods, Counter::Paused)
        &&& self.running == counter_value(pods, Counter::Running)
    }
}

/// What a [`PodList`] is to the contracts.
pub struct PodListView {
    /// The pods, in the order in which observers see them.
    pub pods: Seq<PodView>,
    /// Whether a fetch is under way.
    pub listing: bool,
    /// Whether a reconciliation has ever ended.
    pub initialized: bool,
    /// Whether the user is selecting pods.
    pub selection_mode: bool,
}

/// The local mirror of the remote engine's pods.
#[derive(Debug)]
pub struct PodList {
    store: PodStore,
    listing: bool,
    initialized: InitState,
    selection_mode: bool,
}

impl View for PodList {
    type V = PodListView;

    closed spec fn view(&self) -> PodListView {
        PodListView {
            pods: self.store@,
            listing: self.listing,
            initialized: self.initialized == InitState::Initialized,
            selection_mode: self.selection_mode,
        }
    }
}

impl Default for PodList {
    /// An empty list, as [`PodList::new`] makes it.
    fn default() -> (list: PodList)
        ensures
            list.wf(),
            list@ == (PodListView {
                pods: Seq::empty(),
                listing: false,
                initialized: false,
                selection_mode: false,
            }),
    {
        PodList::new()
    }
}

/// Whether an entry of `reports` names the pod `id`.
fn is_reported(reports: &Vec<PodReport>, id: &String) -> (found: bool)
    ensures
        found == reported(reports_view(reports@), id@),
{
    let n: usize = reports.len();
    let mut j: usize = 0;
    while j < n
        invariant
            n == reports@.len(),
            j <= n,
            forall|k: int| 0 <= k < j ==> (#[trigger] reports_view(reports@)[k]).id != Some(id@),
        decreases n - j,
    {
        match &reports[j].id {
            Some(name) => {
                if *name == *id {
                    assert(reports_view(reports@)[j as int].id == Some(id@));
                    return true;
                }
            },
            None => {},
        }
        j = j + 1;
    }
    false
}

impl PodList {
    /// The list's invariant: that of its store.
    pub closed spec fn wf(&self) -> bool {
        self.store.wf()
    }

    /// A well-formed list holds no identifier twice.
    pub proof fn lemma_wf_distinct(&self)
        requires
            self.wf(),
        ensures
            distinct(self@.pods),
    {
        self.store.lemma_wf_distinct();
    }

    /// An empty list: nothing fetched yet, nothing under way, not selecting.
    pub fn new() -> (list: PodList)
        ensures
            list.wf(),
            list@ == (PodListView {
                pods: Seq::empty(),
                listing: false,
                initialized: false,
                selection_mode: false,
            }),
    {
        PodList {
            store: PodStore::new(),
            listing: false,
            initialized: InitState::Uninitialized,
            selection_mode: false,
        }
    }

    /// The number of pods.
    pub fn len(&self) -> (n: usize)
        ensures
            n == self@.pods.len(),
    {
        self.store.len()
    }

    /// The pod at `position`, if there is one.
    pub fn item(&self, position: usize) -> (found: Option<&Pod>)
        ensures
            match found {
                Some(pod) => position < self@.pods.len() && pod@ == self@.pods[position as int],
                None => position >= self@.pods.len(),
            },
    {
        self.store.at(position)
    }

    /// The pod `id`, if the list holds it.
    pub fn get_pod(&self, id: &str) -> (found: Option<&Pod>)
        requires
            self.wf(),
        ensures
            match found {
                Some(pod) => has_id(self@.pods, id@) && pod@ == self@.pods[index_of(
                    self@.pods,
                    id@,
                )],
                None => !has_id(self@.pods, id@),
            },
    {
        self.store.get(id)
    }

    /// The identifiers of the pods, in order.
    pub fn ids(&self) -> (names: Vec<String>)
        ensures
            names_view(names@) == ids(self@.pods),
    {
        self.store.ids()
    }

    /// Whether a fetch is under way.
    pub fn listing(&self) -> (listing: bool)
        ensures
            listing == self@.listing,
    {
        self.listing
    }

    /// Whether a reconciliation has ever ended.
    pub fn is_initialized(&self) -> (initialized: bool)
        ensures
            initialized == self@.initialized,
    {
        self.initialized == InitState::Initialized
    }

    /// Whether the user is selecting pods.
    pub fn selection_mode(&self) -> (mode: bool)
        ensures
            mode == self@.selection_mode,
    {
        self.selection_mode
    }

    /// How many pods are in the state `status`.
    pub fn num_pods_of_status(&self, status: PodStatus) -> (n: usize)
        ensures
            n == count_status(self@.pods, status),
    {
        let total: usize = self.store.len();
        let mut n: usize = 0;
        let mut i: usize = 0;
        while i < total
            invariant
                total == self.store@.len(),
                i <= total,
                n <= i,
                n == count_status(self.store@.take(i as int), status),
            decreases total - i,
        {
            proof {
                assert(self.store@.take(i + 1) =~= self.store@.take(i as int).push(
                    self.store@[i as int],
                ));
                lemma_counts_push(self.store@.take(i as int), self.store@[i as int]);
            }
            match self.store.at(i) {
                Some(pod) => {
                    if pod.status == status {
                        n = n + 1;
                    }
                },
                None => {},
            }
            i = i + 1;
        }
        assert(self.store@.take(total as int) =~= self.store@);
        n
    }

    /// How many pods are degraded.
    pub fn degraded(&self) -> (n: usize)
        ensures
            n == counter_value(self@.pods, Counter::Degraded),
    {
        self.num_pods_of_status(PodStatus::Degraded)
    }

    /// How many pods are paused.
    pub fn paused(&self) -> (n: usize)
        ensures
            n == counter_value(self@.pods, Counter::Paused),
    {
        self.num_pods_of_status(PodStatus::Paused)
    }

    /// How many pods are running.
    pub fn running(&self) -> (n: usize)
        ensures
            n == counter_value(self@.pods, Counter::Running),
    {
        self.num_pods_of_status(PodStatus::Running)
    }

    /// How many pods are neither running nor paused nor degraded.
    pub fn not_running(&self) -> (n: usize)
        ensures
            n == counter_value(self@.pods, Counter::NotRunning),
    {
        proof {
            lemma_counts_bounded(self@.pods);
        }
        self.len() - self.running() - self.paused() - self.degraded()
    }

    /// The four counters, taken in one pass over the list.
    pub fn counters(&self) -> (c: Counters)
        ensures
            c.counts(self@.pods),
            c.degraded + c.not_running + c.paused + c.running == self@.pods.len(),
    {
        let total: usize = self.store.len();
        let mut c = Counters { degraded: 0, not_running: 0, paused: 0, running: 0 };
        let mut i: usize = 0;
        while i < total
            invariant
                total == self.store@.len(),
                i <= total,
                c.counts(self.store@.take(i as int)),
                self.store@.take(i as int).len() == i,
            decreases total - i,
        {
            proof {
                assert(self.store@.take(i + 1) =~= self.store@.take(i as int).push(
                    self.store@[i as int],
                ));
                lemma_counts_push(self.store@.take(i as int), self.store@[i as int]);
            }
            match self.store.at(i) {
                Some(pod) => {
                    match pod.status.counted_as() {
                        Counter::Degraded => {
                            c.degraded = c.degraded + 1;
                        },
                        Counter::NotRunning => {
                            c.not_running = c.not_running + 1;
                        },
                        Counter::Paused => {
                            c.paused = c.paused + 1;
                        },
                        Counter::Running => {
                            c.running = c.running + 1;
                        },
                    }
                },
                None => {},
            }
            i = i + 1;
        }
        assert(self.store@.take(total as int) =~= self.store@);
        c
    }

    /// The value of `counter`.
    pub fn counter(&self, counter: Counter) -> (n: usize)
        ensures
            n == counter_value(self@.pods, counter),
    {
        match counter {
            Counter::Degraded => self.degraded(),
            Counter::NotRunning => self.not_running(),
            Counter::Paused => self.paused(),
            Counter::Running => self.running(),
        }
    }

    /// How many pods are selected.
    pub fn num_selected(&self) -> (n: usize)
        ensures
            n == num_selected(self@.pods),
    {
        let total: usize = self.store.len();
        let mut n: usize = 0;
        let mut i: usize = 0;
        while i < total
            invariant
                total == self.store@.len(),
                i <= total,
                n <= i,
                n == num_selected(self.store@.take(i as int)),
            decreases total - i,
        {
            proof {
                assert(self.store@.take(i + 1) =~= self.store@.take(i as int).push(
                    self.store@[i as int],
                ));
                lemma_counts_push(self.store@.take(i as int), self.store@[i as int]);
            }
            match self.store.at(i) {
                Some(pod) => {
                    if pod.selected {
                        n = n + 1;
                    }
                },
                None => {},
            }
            i = i + 1;
        }
        assert(self.store@.take(total as int) =~= self.store@);
        n
    }

    /// Tells observers of each counter whose value is no longer what `before`
    /// recorded for the pods `prior`.
    fn notify_num_pods(&self, before: &Counters, log: &mut Vec<Change>, Ghost(prior): Ghost<
        Seq<PodView>,
    >)
        requires
            before.counts(prior),
        ensures
            log_view(final(log)@) == log_view(old(log)@) + counter_changes(prior, self@.pods),
    {
        let after = self.counters();
        if before.degraded != after.degraded {
            record(log, Change::CounterChanged { counter: Counter::Degraded, value: after.degraded });
        }
        if before.not_running != after.not_running {
            record(
                log,
                Change::CounterChanged { counter: Counter::NotRunning, value: after.not_running },
            );
        }
        if before.paused != after.paused {
            record(log, Change::CounterChanged { counter: Counter::Paused, value: after.paused });
        }
        if before.running != after.running {
            record(log, Change::CounterChanged { counter: Counter::Running, value: after.running });
        }
    }

    /// Removes the pod `id` and appends to `log` what observers are told of it.
    fn remove_pod_into(&mut self, id: &str, log: &mut Vec<Change>)
        requires
            old(self).wf(),
        ensures
            final(self).wf(),
            final(self)@ == (PodListView { pods: removed(old(self)@.pods, id@), ..old(self)@ }),
            log_view(final(log)@) == log_view(old(log)@) + removal_changes(old(self)@.pods, id@),
    {
        let ghost prior = self@.pods;
        if self.store.position(id).is_none() {
            return ;
        }
        let before = self.counters();
        match self.store.remove(id) {
            Some((position, pod)) => {
                record(log, Change::ItemsChanged { position, removed: 1, added: 0 });
                self.notify_num_pods(&before, log, Ghost(prior));
                record(log, Change::PodDeleted { id: pod.id });
            },
            None => {},
        }
    }

    /// Removes the pod `id`. The pods after it move up by one place, and
    /// observers are told where one pod left, which counters changed, and that
    /// the pod is gone. A list without such a pod stays as it is and tells
    /// nothing.
    pub fn remove_pod(&mut self, id: &str) -> (changes: Vec<Change>)
        requires
            old(self).wf(),
        ensures
            final(self).wf(),
            final(self)@ == (PodListView { pods: removed(old(self)@.pods, id@), ..old(self)@ }),
            log_view(changes@) == removal_changes(old(self)@.pods, id@),
    {
        let mut changes: Vec<Change> = Vec::new();
        self.remove_pod_into(id, &mut changes);
        changes
    }

    /// Applies one listing entry and appends to `log` what observers are told
    /// of it.
    fn upsert_into(&mut self, report: &PodReport, log: &mut Vec<Change>)
        requires
            old(self).wf(),
            report.id.is_some(),
        ensures
            final(self).wf(),
            final(self)@ == (PodListView {
                pods: upserted(old(self)@.pods, report@),
                ..old(self)@
            }),
            log_view(final(log)@) == log_view(old(log)@) + upsert_changes(old(self)@.pods, report@),
    {
        let ghost prior = self@.pods;
        let id: &String = match &report.id {
            Some(id) => id,
            None => {
                return ;
            },
        };
        let unchanged: bool = match self.store.get(id.as_str()) {
            Some(pod) => pod.status == report.status,
            None => false,
        };
        if unchanged {
            let _ = self.store.insert_or_update(report);
            assert(self.store@ =~= prior);
            return ;
        }
        let before = self.counters();
        let (position, is_new) = self.store.insert_or_update(report);
        if is_new {
            record(log, Change::ItemsChanged { position, removed: 0, added: 1 });
            self.notify_num_pods(&before, log, Ghost(prior));
            record(log, Change::PodAdded { id: id.clone() });
        } else {
            record(log, Change::StatusChanged { id: id.clone(), status: report.status });
            self.notify_num_pods(&before, log, Ghost(prior));
        }
    }

    /// The identifiers of the pods that `reports` no longer names, in order.
    fn stale(&self, reports: &Vec<PodReport>) -> (gone: Vec<String>)
        ensures
            names_view(gone@) == stale_ids(self@.pods, reports_view(reports@)),
    {
        let ghost pods = self.store@;
        let ghost test = is_stale(reports_view(reports@));
        let total: usize = self.store.len();
        let mut gone: Vec<String> = Vec::new();
        let mut i: usize = 0;
        while i < total
            invariant
                pods == self.store@,
                test == is_stale(reports_view(reports@)),
                total == pods.len(),
                i <= total,
                names_view(gone@) == ids(pods.take(i as int).filter(test)),
            decreases total - i,
        {
            proof {
                assert(pods.take(i + 1) =~= pods.take(i as int).push(pods[i as int]));
                pods.take(i as int).lemma_filter_push(pods[i as int], test);
            }
            let ghost kept = pods.take(i as int).filter(test);
            match self.store.at(i) {
                Some(pod) => {
                    if !is_reported(reports, &pod.id) {
                        gone.push(pod.id.clone());
                        assert(ids(kept.push(pods[i as int])) =~= ids(kept).push(pods[i as int].id));
                    }
                },
                None => {},
            }
            i = i + 1;
        }
        assert(pods.take(total as int) =~= pods);
        gone
    }

    /// Removes the pods that `reports` no longer names, in ascending order of
    /// position.
    fn purge(&mut self, reports: &Vec<PodReport>, log: &mut Vec<Change>)
        requires
            old(self).wf(),
        ensures
            final(self).wf(),
            final(self)@ == (PodListView {
                pods: purged(old(self)@.pods, true, reports_view(reports@)),
                ..old(self)@
            }),
            log_view(final(log)@) == log_view(old(log)@) + removal_changes_all(
                old(self)@.pods,
                stale_ids(old(self)@.pods, reports_view(reports@)),
            ),
    {
        let ghost prior = self@;
        let ghost start = log_view(log@);
        let gone = self.stale(reports);
        let ghost names = names_view(gone@);
        let total: usize = gone.len();
        let mut k: usize = 0;
        while k < total
            invariant
                self.wf(),
                names == names_view(gone@),
                total == gone@.len(),
                k <= total,
                self@ == (PodListView { pods: removed_all(prior.pods, names.take(k as int)), ..prior }),
                log_view(log@) == start + removal_changes_all(prior.pods, names.take(k as int)),
            decreases total - k,
        {
            proof {
                assert(names.take(k + 1).drop_last() =~= names.take(k as int));
            }
            self.remove_pod_into(gone[k].as_str(), log);
            k = k + 1;
        }
        assert(names.take(total as int) =~= names);
    }

    /// Applies the entries of `reports`, in their order.
    fn merge(&mut self, reports: &Vec<PodReport>, log: &mut Vec<Change>)
        requires
            old(self).wf(),
            all_keyed(reports_view(reports@)),
        ensures
            final(self).wf(),
            final(self)@ == (PodListView {
                pods: merged(old(self)@.pods, reports_view(reports@)),
                ..old(self)@
            }),
            log_view(final(log)@) == log_view(old(log)@) + merge_changes(
                old(self)@.pods,
                reports_view(reports@),
            ),
    {
        let ghost prior = self@;
        let ghost start = log_view(log@);
        let ghost entries = reports_view(reports@);
        let total: usize = reports.len();
        let mut j: usize = 0;
        while j < total
            invariant
                self.wf(),
                entries == reports_view(reports@),
                all_keyed(entries),
                total == reports@.len(),
                j <= total,
                self@ == (PodListView { pods: merged(prior.pods, entries.take(j as int)), ..prior }),
                log_view(log@) == start + merge_changes(prior.pods, entries.take(j as int)),
            decreases total - j,
        {
            proof {
                assert(entries.take(j + 1).drop_last() =~= entries.take(j as int));
                assert(entries.take(j + 1).last() == reports@[j as int]@);
            }
            self.upsert_into(&reports[j], log);
            j = j + 1;
        }
        assert(entries.take(total as int) =~= entries);
    }

    /// Sets the listing flag and tells observers if it changed.
    fn set_listing(&mut self, value: bool, log: &mut Vec<Change>)
        requires
            old(self).wf(),
        ensures
            final(self).wf(),
            final(self)@ == (PodListView { listing: value, ..old(self)@ }),
            log_view(final(log)@) == log_view(old(log)@) + listing_changes(
                old(self)@.listing,
                value,
            ),
    {
        if self.listing != value {
            self.listing = value;
            record(log, Change::ListingChanged { listing: value });
        }
    }

    /// Latches the list as initialized and tells observers the first time.
    fn set_as_initialized(&mut self, log: &mut Vec<Change>)
        requires
            old(self).wf(),
        ensures
            final(self).wf(),
            final(self)@ == (PodListView { initialized: true, ..old(self)@ }),
            log_view(final(log)@) == log_view(old(log)@) + initialized_changes(
                old(self)@.initialized,
            ),
    {
        if !self.is_initialized() {
            self.initialized = InitState::Initialized;
            record(log, Change::Initialized);
        }
    }
}

/// Whether every entry of `reports` has an identifier, as a reconciliation
/// needs it.
pub fn all_reports_keyed(reports: &Vec<PodReport>) -> (keyed: bool)
    ensures
        keyed == all_keyed(reports_view(reports@)),
{
    let n: usize = reports.len();
    let mut j: usize = 0;
    while j < n
        invariant
            n == reports@.len(),
            j <= n,
            forall|k: int| 0 <= k < j ==> (#[trigger] reports_view(reports@)[k]).id.is_some(),
        decreases n - j,
    {
        if reports[j].id.is_none() {
            assert(reports_view(reports@)[j as int].id.is_none());
            return false;
        }
        j = j + 1;
    }
    true
}

/// The action of an event that reports a pod as removed.
pub open spec fn removal_action() -> Seq<char> {
    "remove"@
}

impl PodList {
    /// The first half of a refresh, into `log`.
    fn begin_into(&mut self, log: &mut Vec<Change>)
        requires
            old(self).wf(),
        ensures
            final(self).wf(),
            final(self)@ == (PodListView { listing: true, ..old(self)@ }),
            log_view(final(log)@) == log_view(old(log)@) + listing_changes(
                old(self)@.listing,
                true,
            ),
    {
        self.set_listing(true, log);
    }

    /// The second half of a refresh, into `log`.
    fn complete_into(
        &mut self,
        request: &FetchRequest,
        fetched: Result<Vec<PodReport>, RefreshError>,
        log: &mut Vec<Change>,
    )
        requires
            old(self).wf(),
            fetched_view(fetched) matches Some(reports) ==> all_keyed(reports),
        ensures
            final(self).wf(),
            final(self)@ == (PodListView {
                pods: refreshed(old(self)@.pods, request@, fetched_view(fetched)),
                listing: false,
                initialized: true,
                selection_mode: old(self)@.selection_mode,
            }),
            log_view(final(log)@) == log_view(old(log)@) + refresh_changes(
                old(self)@.pods,
                request@,
                fetched_view(fetched),
            ) + listing_changes(old(self)@.listing, false) + initialized_changes(
                old(self)@.initialized,
            ),
    {
        match fetched {
            Ok(reports) => {
                if request.id.is_none() {
                    self.purge(&reports, log);
                }
                self.merge(&reports, log);
            },
            Err(_) => {
                record(log, Change::RefreshFailed);
            },
        }
        self.set_listing(false, log);
        self.set_as_initialized(log);
    }

    /// Starts a refresh: marks the list as listing, before anything is
    /// fetched, and hands back the request that the caller is to put to the
    /// remote engine: for the pod `id` alone, or for all pods where `id` is
    /// nothing. The answer goes to [`PodList::complete_refresh`].
    pub fn begin_refresh(&mut self, id: Option<String>) -> (started: (Vec<Change>, FetchRequest))
        requires
            old(self).wf(),
        ensures
            final(self).wf(),
            final(self)@ == (PodListView { listing: true, ..old(self)@ }),
            log_view(started.0@) == listing_changes(old(self)@.listing, true),
            started.1.id == id,
    {
        let mut changes: Vec<Change> = Vec::new();
        self.begin_into(&mut changes);
        (changes, FetchRequest { id })
    }

    /// Ends a refresh with what the remote engine answered to `request`.
    ///
    /// A listing is reconciled with: where all pods were asked for, the pods
    /// that it no longer names are removed first, in ascending order of
    /// position; then each entry, in the listing's order, updates its pod in
    /// place or appends a new one. A failed call leaves the pods as they were
    /// and is reported once. Either way the list is then no longer listing,
    /// and initialized.
    pub fn complete_refresh(
        &mut self,
        request: &FetchRequest,
        fetched: Result<Vec<PodReport>, RefreshError>,
    ) -> (changes: Vec<Change>)
        requires
            old(self).wf(),
            fetched_view(fetched) matches Some(reports) ==> all_keyed(reports),
        ensures
            final(self).wf(),
            final(self)@ == (PodListView {
                pods: refreshed(old(self)@.pods, request@, fetched_view(fetched)),
                listing: false,
                initialized: true,
                selection_mode: old(self)@.selection_mode,
            }),
            log_view(changes@) == refresh_changes(
                old(self)@.pods,
                request@,
                fetched_view(fetched),
            ) + listing_changes(old(self)@.listing, false) + initialized_changes(
                old(self)@.initialized,
            ),
    {
        let mut changes: Vec<Change> = Vec::new();
        self.complete_into(request, fetched, &mut changes);
        changes
    }

    /// A whole refresh, for a caller that has the remote engine's answer at
    /// hand: [`PodList::begin_refresh`] for `id`, then
    /// [`PodList::complete_refresh`] with `fetched`.
    pub fn refresh(&mut self, id: Option<String>, fetched: Result<Vec<PodReport>, RefreshError>) -> (changes:
        Vec<Change>)
        requires
            old(self).wf(),
            fetched_view(fetched) matches Some(reports) ==> all_keyed(reports),
        ensures
            final(self).wf(),
            final(self)@ == (PodListView {
                pods: refreshed(old(self)@.pods, (FetchRequest { id })@, fetched_view(fetched)),
                listing: false,
                initialized: true,
                selection_mode: old(self)@.selection_mode,
            }),
            log_view(changes@) == listing_changes(old(self)@.listing, true) + refresh_changes(
                old(self)@.pods,
                (FetchRequest { id })@,
                fetched_view(fetched),
            ) + seq![ChangeView::ListingChanged { listing: false }] + initialized_changes(
                old(self)@.initialized,
            ),
    {
        let mut changes: Vec<Change> = Vec::new();
        self.begin_into(&mut changes);
        let request = FetchRequest { id };
        self.complete_into(&request, fetched, &mut changes);
        changes
    }

    /// Reacts to one event of the remote engine's stream.
    ///
    /// An event whose action is `"remove"` removes the pod it names, with no
    /// remote call. Any other action starts a refresh, which the caller is to
    /// carry out: of the named pod alone where the list holds it, of all pods
    /// where it does not.
    pub fn handle_event(&mut self, event: &Event) -> (done: (Vec<Change>, Option<FetchRequest>))
        requires
            old(self).wf(),
        ensures
            final(self).wf(),
            event.action@ == removal_action() ==> {
                &&& final(self)@ == (PodListView {
                    pods: removed(old(self)@.pods, event.entity_id@),
                    ..old(self)@
                })
                &&& log_view(done.0@) == removal_changes(old(self)@.pods, event.entity_id@)
                &&& done.1 is None
            },
            event.action@ != removal_action() ==> {
                &&& final(self)@ == (PodListView { listing: true, ..old(self)@ })
                &&& log_view(done.0@) == listing_changes(old(self)@.listing, true)
                &&& done.1 matches Some(request)
                &&& request@ == (if has_id(old(self)@.pods, event.entity_id@) {
                    Some(event.entity_id@)
                } else {
                    None
                })
            },
    {
        let remove: String = "remove".to_owned();
        if event.action == remove {
            let changes = self.remove_pod(event.entity_id.as_str());
            (changes, None)
        } else {
            let id: Option<String> = match self.store.position(event.entity_id.as_str()) {
                Some(_) => Some(event.entity_id.clone()),
                None => None,
            };
            let (changes, request) = self.begin_refresh(id);
            (changes, Some(request))
        }
    }

    /// Sets the selection of every pod to `selected`.
    fn select_each(&mut self, selected: bool)
        requires
            old(self).wf(),
        ensures
            final(self).wf(),
            final(self)@ == (PodListView {
                pods: all_selected(old(self)@.pods, selected),
                ..old(self)@
            }),
    {
        let ghost prior = self@;
        let total: usize = self.store.len();
        let mut i: usize = 0;
        while i < total
            invariant
                self.wf(),
                total == prior.pods.len(),
                self@.pods.len() == total,
                i <= total,
                self@ == (PodListView { pods: self@.pods, ..prior }),
                forall|j: int| 0 <= j < i ==> #[trigger] self@.pods[j] == prior.pods[j].with_selected(selected),
                forall|j: int| i <= j < total ==> #[trigger] self@.pods[j] == prior.pods[j],
            decreases total - i,
        {
            self.store.set_selected(i, selected);
            i = i + 1;
        }
        assert(self@.pods =~= all_selected(prior.pods, selected));
    }

    /// Enters or leaves selection mode. Entering selects nothing; leaving
    /// clears every selection.
    pub fn set_selection_mode(&mut self, value: bool)
        requires
            old(self).wf(),
        ensures
            final(self).wf(),
            final(self)@ == (PodListView {
                pods: if old(self)@.selection_mode && !value {
                    all_selected(old(self)@.pods, false)
                } else {
                    old(self)@.pods
                },
                selection_mode: value,
                ..old(self)@
            }),
    {
        if self.selection_mode && !value {
            self.select_each(false);
        }
        self.selection_mode = value;
    }

    /// Turns over the selection of the pod `id`. A list without such a pod
    /// stays as it is.
    pub fn toggle(&mut self, id: &str)
        requires
            old(self).wf(),
        ensures
            final(self).wf(),
            final(self)@ == (PodListView { pods: toggled(old(self)@.pods, id@), ..old(self)@ }),
    {
        match self.store.position(id) {
            Some(index) => {
                let selected = match self.store.at(index) {
                    Some(pod) => pod.selected,
                    None => false,
                };
                self.store.set_selected(index, !selected);
            },
            None => {},
        }
    }

    /// Selects every pod.
    pub fn select_all(&mut self)
        requires
            old(self).wf(),
        ensures
            final(self).wf(),
            final(self)@ == (PodListView {
                pods: all_selected(old(self)@.pods, true),
                ..old(self)@
            }),
    {
        self.select_each(true);
    }

    /// Clears the selection of every pod.
    pub fn clear_selection(&mut self)
        requires
            old(self).wf(),
        ensures
            final(self).wf(),
            final(self)@ == (PodListView {
                pods: all_selected(old(self)@.pods, false),
                ..old(self)@
            }),
    {
        self.select_each(false);
    }
}

} // verus!
