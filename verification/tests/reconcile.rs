use pod_list::{
    all_reports_keyed, Change, Counter, Event, FetchRequest, PodList, PodReport, PodStatus,
    RefreshError,
};

fn report(id: &str, status: PodStatus) -> PodReport {
    PodReport { id: Some(id.to_owned()), status }
}

fn event(id: &str, action: &str) -> Event {
    Event { entity_id: id.to_owned(), action: action.to_owned() }
}

fn added(id: &str) -> Change {
    Change::PodAdded { id: id.to_owned() }
}

fn deleted(id: &str) -> Change {
    Change::PodDeleted { id: id.to_owned() }
}

fn counter(counter: Counter, value: usize) -> Change {
    Change::CounterChanged { counter, value }
}

fn items(position: usize, removed: usize, added: usize) -> Change {
    Change::ItemsChanged { position, removed, added }
}

fn structural(changes: &[Change]) -> Vec<&Change> {
    changes.iter().filter(|c| matches!(c, Change::ItemsChanged { .. })).collect()
}

fn list_of(reports: Vec<PodReport>) -> PodList {
    let mut list = PodList::new();
    list.refresh(None, Ok(reports));
    list
}

fn a_running_b_paused() -> PodList {
    list_of(vec![report("a", PodStatus::Running), report("b", PodStatus::Paused)])
}

#[test]
fn new_list_is_empty_and_idle() {
    let list = PodList::new();
    assert_eq!(list.len(), 0);
    assert!(!list.is_initialized());
    assert!(!list.listing());
    assert!(!list.selection_mode());
    assert_eq!(list.ids(), Vec::<String>::new());
    assert!(list.item(0).is_none());
    assert_eq!(list.running() + list.paused() + list.degraded() + list.not_running(), 0);
}

#[test]
fn first_refresh_fills_the_empty_list() {
    let mut list = PodList::new();
    let changes = list.refresh(
        None,
        Ok(vec![report("a", PodStatus::Running), report("b", PodStatus::Paused)]),
    );
    assert_eq!(list.len(), 2);
    assert_eq!(list.ids(), vec!["a".to_owned(), "b".to_owned()]);
    assert_eq!(list.running(), 1);
    assert_eq!(list.paused(), 1);
    assert_eq!(list.degraded(), 0);
    assert_eq!(list.not_running(), 0);
    assert!(list.is_initialized());
    assert!(!list.listing());
    assert_eq!(
        changes,
        vec![
            Change::ListingChanged { listing: true },
            items(0, 0, 1),
            counter(Counter::Running, 1),
            added("a"),
            items(1, 0, 1),
            counter(Counter::Paused, 1),
            added("b"),
            Change::ListingChanged { listing: false },
            Change::Initialized,
        ]
    );
    assert_eq!(structural(&changes).len(), 2);
}

#[test]
fn remove_event_removes_the_named_pod() {
    let mut list = a_running_b_paused();
    let (changes, request) = list.handle_event(&event("a", "remove"));
    assert_eq!(request, None);
    assert_eq!(list.ids(), vec!["b".to_owned()]);
    assert_eq!(list.len(), 1);
    assert_eq!(changes, vec![items(0, 1, 0), counter(Counter::Running, 0), deleted("a")]);
    assert!(!list.listing());
}

#[test]
fn refresh_drops_the_vanished_and_updates_in_place() {
    let mut list = a_running_b_paused();
    let changes = list.refresh(None, Ok(vec![report("b", PodStatus::Running)]));
    assert_eq!(list.len(), 1);
    assert_eq!(list.ids(), vec!["b".to_owned()]);
    assert_eq!(list.running(), 1);
    assert_eq!(list.paused(), 0);
    assert_eq!(list.get_pod("b").unwrap().status, PodStatus::Running);
    assert!(list.get_pod("a").is_none());
    assert_eq!(
        changes,
        vec![
            Change::ListingChanged { listing: true },
            items(0, 1, 0),
            counter(Counter::Running, 0),
            deleted("a"),
            Change::StatusChanged { id: "b".to_owned(), status: PodStatus::Running },
            counter(Counter::Paused, 0),
            counter(Counter::Running, 1),
            Change::ListingChanged { listing: false },
        ]
    );
    assert_eq!(structural(&changes), vec![&items(0, 1, 0)]);
}

#[test]
fn second_refresh_with_the_same_listing_is_not_structural() {
    let listing = || {
        vec![
            report("a", PodStatus::Running),
            report("b", PodStatus::Exited),
            report("a", PodStatus::Paused),
        ]
    };
    let mut list = list_of(vec![report("z", PodStatus::Dead)]);
    let first = list.refresh(None, Ok(listing()));
    assert_eq!(structural(&first).len(), 3);
    let ids = list.ids();
    let second = list.refresh(None, Ok(listing()));
    assert!(structural(&second).is_empty());
    assert!(!second.iter().any(|c| matches!(c, Change::PodAdded { .. } | Change::PodDeleted { .. })));
    assert_eq!(list.ids(), ids);
    assert_eq!(list.get_pod("a").unwrap().status, PodStatus::Paused);
}

#[test]
fn second_refresh_with_an_unchanged_listing_tells_only_of_the_flag() {
    let mut list = a_running_b_paused();
    let changes = list.refresh(
        None,
        Ok(vec![report("a", PodStatus::Running), report("b", PodStatus::Paused)]),
    );
    assert_eq!(
        changes,
        vec![Change::ListingChanged { listing: true }, Change::ListingChanged { listing: false }]
    );
}

#[test]
fn refresh_removes_the_difference_and_adds_the_difference() {
    let mut list = list_of(vec![
        report("a", PodStatus::Running),
        report("b", PodStatus::Running),
        report("c", PodStatus::Running),
        report("d", PodStatus::Running),
    ]);
    let changes = list.refresh(
        None,
        Ok(vec![
            report("e", PodStatus::Created),
            report("b", PodStatus::Running),
            report("f", PodStatus::Created),
            report("d", PodStatus::Running),
        ]),
    );
    assert_eq!(
        list.ids(),
        vec!["b".to_owned(), "d".to_owned(), "e".to_owned(), "f".to_owned()]
    );
    let gone: Vec<&Change> =
        changes.iter().filter(|c| matches!(c, Change::PodDeleted { .. })).collect();
    assert_eq!(gone, vec![&deleted("a"), &deleted("c")]);
    let came: Vec<&Change> =
        changes.iter().filter(|c| matches!(c, Change::PodAdded { .. })).collect();
    assert_eq!(came, vec![&added("e"), &added("f")]);
    assert_eq!(
        structural(&changes),
        vec![&items(0, 1, 0), &items(1, 1, 0), &items(2, 0, 1), &items(3, 0, 1)]
    );
}

#[test]
fn refresh_with_an_empty_listing_empties_the_list() {
    let mut list = a_running_b_paused();
    let changes = list.refresh(None, Ok(vec![]));
    assert_eq!(list.len(), 0);
    assert_eq!(
        changes,
        vec![
            Change::ListingChanged { listing: true },
            items(0, 1, 0),
            counter(Counter::Running, 0),
            deleted("a"),
            items(0, 1, 0),
            counter(Counter::Paused, 0),
            deleted("b"),
            Change::ListingChanged { listing: false },
        ]
    );
}

#[test]
fn scoped_refresh_removes_nothing() {
    let mut list = a_running_b_paused();
    let changes = list.refresh(Some("b".to_owned()), Ok(vec![report("b", PodStatus::Degraded)]));
    assert_eq!(list.ids(), vec!["a".to_owned(), "b".to_owned()]);
    assert_eq!(list.degraded(), 1);
    assert_eq!(list.paused(), 0);
    assert_eq!(list.running(), 1);
    assert_eq!(
        changes,
        vec![
            Change::ListingChanged { listing: true },
            Change::StatusChanged { id: "b".to_owned(), status: PodStatus::Degraded },
            counter(Counter::Degraded, 1),
            counter(Counter::Paused, 0),
            Change::ListingChanged { listing: false },
        ]
    );
}

#[test]
fn scoped_refresh_with_an_empty_answer_keeps_the_pod() {
    let mut list = a_running_b_paused();
    let changes = list.refresh(Some("a".to_owned()), Ok(vec![]));
    assert_eq!(list.len(), 2);
    assert_eq!(
        changes,
        vec![Change::ListingChanged { listing: true }, Change::ListingChanged { listing: false }]
    );
}

#[test]
fn failed_refresh_leaves_the_list_and_is_told_once() {
    let mut list = a_running_b_paused();
    let changes = list.refresh(None, Err(RefreshError));
    assert_eq!(list.ids(), vec!["a".to_owned(), "b".to_owned()]);
    assert_eq!(list.running(), 1);
    assert_eq!(
        changes,
        vec![
            Change::ListingChanged { listing: true },
            Change::RefreshFailed,
            Change::ListingChanged { listing: false },
        ]
    );
    assert_eq!(changes.iter().filter(|c| **c == Change::RefreshFailed).count(), 1);
}

#[test]
fn failed_first_refresh_still_initializes() {
    let mut list = PodList::new();
    let changes = list.refresh(None, Err(RefreshError));
    assert!(list.is_initialized());
    assert!(!list.listing());
    assert_eq!(list.len(), 0);
    assert_eq!(
        changes,
        vec![
            Change::ListingChanged { listing: true },
            Change::RefreshFailed,
            Change::ListingChanged { listing: false },
            Change::Initialized,
        ]
    );
}

#[test]
fn initialized_is_told_once_only() {
    let mut list = PodList::new();
    let first = list.refresh(None, Ok(vec![]));
    let second = list.refresh(None, Ok(vec![]));
    let third = list.refresh(None, Err(RefreshError));
    assert_eq!(first.iter().filter(|c| **c == Change::Initialized).count(), 1);
    assert!(!second.contains(&Change::Initialized));
    assert!(!third.contains(&Change::Initialized));
    assert!(list.is_initialized());
}

#[test]
fn begin_refresh_marks_listing_before_the_fetch() {
    let mut list = PodList::new();
    let (changes, request) = list.begin_refresh(None);
    assert!(list.listing());
    assert!(!list.is_initialized());
    assert_eq!(changes, vec![Change::ListingChanged { listing: true }]);
    assert_eq!(request, FetchRequest { id: None });
    let (again, scoped) = list.begin_refresh(Some("x".to_owned()));
    assert!(again.is_empty());
    assert_eq!(scoped, FetchRequest { id: Some("x".to_owned()) });
    assert!(list.listing());
}

#[test]
fn complete_refresh_clears_listing_and_reconciles() {
    let mut list = PodList::new();
    let (_, request) = list.begin_refresh(None);
    let changes = list.complete_refresh(&request, Ok(vec![report("a", PodStatus::Stopped)]));
    assert!(!list.listing());
    assert!(list.is_initialized());
    assert_eq!(list.not_running(), 1);
    assert_eq!(
        changes,
        vec![
            items(0, 0, 1),
            counter(Counter::NotRunning, 1),
            added("a"),
            Change::ListingChanged { listing: false },
            Change::Initialized,
        ]
    );
}

#[test]
fn removal_between_begin_and_complete_is_healed_by_the_listing() {
    let mut list = a_running_b_paused();
    let (_, request) = list.begin_refresh(None);
    let (removed, _) = list.handle_event(&event("b", "remove"));
    assert_eq!(removed, vec![items(1, 1, 0), counter(Counter::Paused, 0), deleted("b")]);
    assert!(list.listing());
    let changes = list.complete_refresh(
        &request,
        Ok(vec![report("a", PodStatus::Running), report("b", PodStatus::Paused)]),
    );
    assert_eq!(list.ids(), vec!["a".to_owned(), "b".to_owned()]);
    assert_eq!(
        changes,
        vec![
            items(1, 0, 1),
            counter(Counter::Paused, 1),
            added("b"),
            Change::ListingChanged { listing: false },
        ]
    );
}

#[test]
fn overlapping_refreshes_are_safe() {
    let mut list = PodList::new();
    let (_, first) = list.begin_refresh(None);
    let (_, second) = list.begin_refresh(None);
    list.complete_refresh(&first, Ok(vec![report("a", PodStatus::Running)]));
    assert!(!list.listing());
    let changes = list.complete_refresh(&second, Ok(vec![report("a", PodStatus::Running)]));
    assert!(changes.is_empty());
    assert_eq!(list.len(), 1);
}

#[test]
fn event_for_a_known_pod_asks_for_that_pod() {
    let mut list = a_running_b_paused();
    let (changes, request) = list.handle_event(&event("b", "start"));
    assert_eq!(changes, vec![Change::ListingChanged { listing: true }]);
    assert_eq!(request, Some(FetchRequest { id: Some("b".to_owned()) }));
    assert!(list.listing());
    assert_eq!(list.len(), 2);
}

#[test]
fn event_for_an_unknown_pod_asks_for_everything() {
    let mut list = a_running_b_paused();
    let (changes, request) = list.handle_event(&event("zz", "create"));
    assert_eq!(changes, vec![Change::ListingChanged { listing: true }]);
    assert_eq!(request, Some(FetchRequest { id: None }));
}

#[test]
fn unknown_action_is_a_refresh_not_an_error() {
    let mut list = a_running_b_paused();
    let (_, request) = list.handle_event(&event("a", "no-such-action"));
    assert_eq!(request, Some(FetchRequest { id: Some("a".to_owned()) }));
    let (_, other) = list.handle_event(&event("a", "Remove"));
    assert_eq!(other, Some(FetchRequest { id: Some("a".to_owned()) }));
    assert_eq!(list.len(), 2);
}

#[test]
fn remove_event_for_an_unknown_pod_does_nothing() {
    let mut list = a_running_b_paused();
    let (changes, request) = list.handle_event(&event("zz", "remove"));
    assert!(changes.is_empty());
    assert_eq!(request, None);
    assert_eq!(list.len(), 2);
}

#[test]
fn duplicate_remove_event_is_tolerated() {
    let mut list = a_running_b_paused();
    list.handle_event(&event("a", "remove"));
    let (changes, _) = list.handle_event(&event("a", "remove"));
    assert!(changes.is_empty());
    assert_eq!(list.ids(), vec!["b".to_owned()]);
}

#[test]
fn removing_from_the_middle_shifts_the_rest_by_one() {
    let mut list = list_of(vec![
        report("p0", PodStatus::Running),
        report("p1", PodStatus::Running),
        report("p2", PodStatus::Paused),
        report("p3", PodStatus::Running),
        report("p4", PodStatus::Exited),
    ]);
    let changes = list.remove_pod("p2");
    assert_eq!(changes, vec![items(2, 1, 0), counter(Counter::Paused, 0), deleted("p2")]);
    assert_eq!(list.len(), 4);
    assert_eq!(list.item(0).unwrap().id, "p0");
    assert_eq!(list.item(1).unwrap().id, "p1");
    assert_eq!(list.item(2).unwrap().id, "p3");
    assert_eq!(list.item(3).unwrap().id, "p4");
    assert!(list.item(4).is_none());
}

#[test]
fn removing_the_first_and_the_last() {
    let mut list = list_of(vec![
        report("p0", PodStatus::Running),
        report("p1", PodStatus::Running),
        report("p2", PodStatus::Running),
    ]);
    assert_eq!(list.remove_pod("p2")[0], items(2, 1, 0));
    assert_eq!(list.remove_pod("p0")[0], items(0, 1, 0));
    assert_eq!(list.ids(), vec!["p1".to_owned()]);
}

#[test]
fn a_listing_that_names_a_pod_twice_keeps_one_pod_with_the_last_state() {
    let mut list = PodList::new();
    let changes = list.refresh(
        None,
        Ok(vec![report("a", PodStatus::Running), report("a", PodStatus::Paused)]),
    );
    assert_eq!(list.len(), 1);
    assert_eq!(list.get_pod("a").unwrap().status, PodStatus::Paused);
    assert_eq!(
        changes,
        vec![
            Change::ListingChanged { listing: true },
            items(0, 0, 1),
            counter(Counter::Running, 1),
            added("a"),
            Change::StatusChanged { id: "a".to_owned(), status: PodStatus::Paused },
            counter(Counter::Paused, 1),
            counter(Counter::Running, 0),
            Change::ListingChanged { listing: false },
            Change::Initialized,
        ]
    );
}

#[test]
fn a_change_between_idle_states_moves_no_counter() {
    let mut list = list_of(vec![report("a", PodStatus::Created)]);
    let changes = list.refresh(None, Ok(vec![report("a", PodStatus::Exited)]));
    assert_eq!(
        changes,
        vec![
            Change::ListingChanged { listing: true },
            Change::StatusChanged { id: "a".to_owned(), status: PodStatus::Exited },
            Change::ListingChanged { listing: false },
        ]
    );
    assert_eq!(list.not_running(), 1);
}

#[test]
fn counters_add_up_to_the_length() {
    let all = [
        PodStatus::Created,
        PodStatus::Dead,
        PodStatus::Degraded,
        PodStatus::Error,
        PodStatus::Exited,
        PodStatus::Paused,
        PodStatus::Restarting,
        PodStatus::Running,
        PodStatus::Stopped,
        PodStatus::Stopping,
        PodStatus::Unknown,
        PodStatus::Running,
        PodStatus::Degraded,
        PodStatus::Degraded,
    ];
    let reports: Vec<PodReport> =
        all.iter().enumerate().map(|(i, s)| report(&format!("pod{}", i), *s)).collect();
    let mut list = list_of(reports);
    assert_eq!(list.len(), 14);
    assert_eq!(list.running(), 2);
    assert_eq!(list.paused(), 1);
    assert_eq!(list.degraded(), 3);
    assert_eq!(list.not_running(), 8);
    assert_eq!(list.num_pods_of_status(PodStatus::Exited), 1);
    assert_eq!(list.num_pods_of_status(PodStatus::Running), 2);
    let c = list.counters();
    assert_eq!((c.degraded, c.not_running, c.paused, c.running), (3, 8, 1, 2));
    for id in ["pod7", "pod0", "pod2", "pod5"] {
        list.remove_pod(id);
        assert_eq!(
            list.running() + list.paused() + list.degraded() + list.not_running(),
            list.len()
        );
    }
    assert_eq!(list.len(), 10);
    assert_eq!(list.running(), 1);
    assert_eq!(list.paused(), 0);
    assert_eq!(list.degraded(), 2);
    assert_eq!(list.not_running(), 7);
}

#[test]
fn status_maps_to_its_counter() {
    assert_eq!(PodStatus::Running.counted_as(), Counter::Running);
    assert_eq!(PodStatus::Paused.counted_as(), Counter::Paused);
    assert_eq!(PodStatus::Degraded.counted_as(), Counter::Degraded);
    assert_eq!(PodStatus::Exited.counted_as(), Counter::NotRunning);
    assert_eq!(PodStatus::Unknown.counted_as(), Counter::NotRunning);
}

#[test]
fn listing_entries_are_checked_for_identifiers() {
    assert!(all_reports_keyed(&vec![]));
    assert!(all_reports_keyed(&vec![report("a", PodStatus::Running)]));
    assert!(!all_reports_keyed(&vec![
        report("a", PodStatus::Running),
        PodReport { id: None, status: PodStatus::Running },
    ]));
}

#[test]
fn get_pod_finds_by_identifier() {
    let list = a_running_b_paused();
    let b = list.get_pod("b").unwrap();
    assert_eq!(b.id, "b");
    assert_eq!(b.status, PodStatus::Paused);
    assert!(!b.selected);
    assert!(list.get_pod("c").is_none());
    assert!(list.get_pod("").is_none());
}

#[test]
fn default_list_is_a_new_list() {
    let list = PodList::default();
    assert_eq!(list.len(), 0);
    assert!(!list.is_initialized());
    assert!(!list.listing());
    assert!(!list.selection_mode());
}

#[test]
fn counter_reads_each_counter() {
    let list = list_of(vec![
        report("a", PodStatus::Running),
        report("b", PodStatus::Running),
        report("c", PodStatus::Degraded),
        report("d", PodStatus::Stopping),
        report("e", PodStatus::Error),
        report("f", PodStatus::Unknown),
    ]);
    assert_eq!(list.counter(Counter::Running), 2);
    assert_eq!(list.counter(Counter::Paused), 0);
    assert_eq!(list.counter(Counter::Degraded), 1);
    assert_eq!(list.counter(Counter::NotRunning), 3);
    assert_eq!(list.counter(Counter::NotRunning), list.not_running());
}

#[test]
fn list_can_be_printed() {
    let list = a_running_b_paused();
    let text = format!("{:?}", list);
    assert!(text.contains("Running"));
    assert!(text.contains("Paused"));
}

#[test]
fn reconciled_list_is_survivors_then_newcomers() {
    let mut list = list_of(vec![
        report("a", PodStatus::Running),
        report("b", PodStatus::Paused),
        report("c", PodStatus::Exited),
        report("d", PodStatus::Running),
    ]);
    list.toggle("d");
    list.toggle("a");
    list.refresh(
        None,
        Ok(vec![
            report("x", PodStatus::Created),
            report("d", PodStatus::Degraded),
            report("y", PodStatus::Running),
            report("b", PodStatus::Paused),
            report("x", PodStatus::Running),
            report("d", PodStatus::Stopped),
        ]),
    );
    let pods: Vec<(String, PodStatus, bool)> = (0..list.len())
        .map(|i| {
            let p = list.item(i).unwrap();
            (p.id.clone(), p.status, p.selected)
        })
        .collect();
    assert_eq!(
        pods,
        vec![
            ("b".to_owned(), PodStatus::Paused, false),
            ("d".to_owned(), PodStatus::Stopped, true),
            ("x".to_owned(), PodStatus::Running, false),
            ("y".to_owned(), PodStatus::Running, false),
        ]
    );
}

#[test]
fn scoped_refresh_can_add_a_pod() {
    let mut list = a_running_b_paused();
    let changes = list.refresh(Some("c".to_owned()), Ok(vec![report("c", PodStatus::Dead)]));
    assert_eq!(list.ids(), vec!["a".to_owned(), "b".to_owned(), "c".to_owned()]);
    assert_eq!(
        changes,
        vec![
            Change::ListingChanged { listing: true },
            items(2, 0, 1),
            counter(Counter::NotRunning, 1),
            added("c"),
            Change::ListingChanged { listing: false },
        ]
    );
}
