use pod_list::{Pod, PodReport, PodStatus, PodStore};

fn report(id: &str, status: PodStatus) -> PodReport {
    PodReport { id: Some(id.to_owned()), status }
}

fn abc() -> PodStore {
    let mut store = PodStore::new();
    store.insert_or_update(&report("a", PodStatus::Running));
    store.insert_or_update(&report("b", PodStatus::Paused));
    store.insert_or_update(&report("c", PodStatus::Exited));
    store
}

#[test]
fn new_store_is_empty() {
    let store = PodStore::new();
    assert_eq!(store.len(), 0);
    assert!(store.at(0).is_none());
    assert!(store.get("a").is_none());
    assert_eq!(store.position("a"), None);
    assert!(store.ids().is_empty());
}

#[test]
fn insert_appends_new_pods_in_order() {
    let mut store = PodStore::new();
    assert_eq!(store.insert_or_update(&report("x", PodStatus::Running)), (0, true));
    assert_eq!(store.insert_or_update(&report("y", PodStatus::Paused)), (1, true));
    assert_eq!(store.insert_or_update(&report("w", PodStatus::Dead)), (2, true));
    assert_eq!(store.len(), 3);
    assert_eq!(store.ids(), vec!["x".to_owned(), "y".to_owned(), "w".to_owned()]);
    assert_eq!(
        store.at(2),
        Some(&Pod { id: "w".to_owned(), status: PodStatus::Dead, selected: false })
    );
}

#[test]
fn insert_of_a_known_pod_updates_it_in_place() {
    let mut store = abc();
    store.set_selected(1, true);
    assert_eq!(store.insert_or_update(&report("b", PodStatus::Degraded)), (1, false));
    assert_eq!(store.len(), 3);
    assert_eq!(store.ids(), vec!["a".to_owned(), "b".to_owned(), "c".to_owned()]);
    assert_eq!(
        store.at(1),
        Some(&Pod { id: "b".to_owned(), status: PodStatus::Degraded, selected: true })
    );
    assert_eq!(store.at(0).unwrap().status, PodStatus::Running);
}

#[test]
fn position_and_get_find_by_identifier() {
    let store = abc();
    assert_eq!(store.position("a"), Some(0));
    assert_eq!(store.position("c"), Some(2));
    assert_eq!(store.position("d"), None);
    assert_eq!(store.get("c").unwrap().status, PodStatus::Exited);
    assert!(store.get("ab").is_none());
}

#[test]
fn at_is_none_past_the_end() {
    let store = abc();
    assert_eq!(store.at(0).unwrap().id, "a");
    assert_eq!(store.at(2).unwrap().id, "c");
    assert!(store.at(3).is_none());
    assert!(store.at(usize::MAX).is_none());
}

#[test]
fn remove_returns_the_pod_and_its_position() {
    let mut store = abc();
    store.set_selected(1, true);
    let taken = store.remove("b");
    assert_eq!(
        taken,
        Some((1, Pod { id: "b".to_owned(), status: PodStatus::Paused, selected: true }))
    );
    assert_eq!(store.len(), 2);
    assert_eq!(store.ids(), vec!["a".to_owned(), "c".to_owned()]);
    assert_eq!(store.position("c"), Some(1));
    assert_eq!(store.remove("b"), None);
    assert_eq!(store.len(), 2);
}

#[test]
fn a_removed_pod_is_appended_when_it_comes_back() {
    let mut store = abc();
    store.remove("a");
    assert_eq!(store.insert_or_update(&report("a", PodStatus::Running)), (2, true));
    assert_eq!(store.ids(), vec!["b".to_owned(), "c".to_owned(), "a".to_owned()]);
}

#[test]
fn set_selected_changes_one_pod_only() {
    let mut store = abc();
    store.set_selected(2, true);
    assert!(!store.at(0).unwrap().selected);
    assert!(!store.at(1).unwrap().selected);
    assert!(store.at(2).unwrap().selected);
    assert_eq!(store.at(2).unwrap().status, PodStatus::Exited);
    store.set_selected(2, false);
    assert!(!store.at(2).unwrap().selected);
}

#[test]
fn pod_from_a_listing_entry() {
    let pod = Pod::new(&report("p", PodStatus::Restarting));
    assert_eq!(pod, Pod { id: "p".to_owned(), status: PodStatus::Restarting, selected: false });
    let chosen = pod.select(true);
    assert!(chosen.selected);
    let updated = chosen.update(&report("p", PodStatus::Running));
    assert_eq!(updated, Pod { id: "p".to_owned(), status: PodStatus::Running, selected: true });
    assert_eq!(updated.clone(), updated);
}

#[test]
fn many_pods_keep_their_order() {
    let mut store = PodStore::new();
    for i in 0..200usize {
        assert_eq!(store.insert_or_update(&report(&format!("pod-{}", i), PodStatus::Running)), (i, true));
    }
    for i in (0..200usize).step_by(2) {
        assert!(store.remove(&format!("pod-{}", i)).is_some());
    }
    assert_eq!(store.len(), 100);
    for k in 0..100usize {
        assert_eq!(store.at(k).unwrap().id, format!("pod-{}", 2 * k + 1));
        assert_eq!(store.position(&format!("pod-{}", 2 * k + 1)), Some(k));
    }
}

#[test]
fn default_store_is_empty() {
    let store = PodStore::default();
    assert_eq!(store.len(), 0);
    assert!(store.ids().is_empty());
}
