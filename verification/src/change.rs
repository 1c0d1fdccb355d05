use vstd::prelude::*;

use crate::status::{Counter, PodStatus};

verus! {

/// The one signal that a failed remote call leaves: it carries no detail.
#[derive(Clone, Copy, Debug, PartialEq, Eq)]
pub struct RefreshError;

/// One notification from the remote engine's event stream.
#[derive(Debug, PartialEq, Eq)]
pub struct Event {
    /// The identifier of the pod that the event is about.
    pub entity_id: String,
    /// What happened to it. Only `"remove"` is acted on locally.
    pub action: String,
}

/// A listing that the caller is to fetch from the remote engine.
#[derive(Debug, PartialEq, Eq)]
pub struct FetchRequest {
    /// The one pod to ask for, or nothing for the whole listing.
    pub id: Option<String>,
}

impl View for FetchRequest {
    type V = Option<Seq<char>>;

    open spec fn view(&self) -> Option<Seq<char>> {
        match self.id {
            Some(id) => Some(id@),
            None => None,
        }
    }
}

/// One thing that observers are told. A call returns them in the order in
/// which they are to be delivered.
#[derive(Debug, PartialEq, Eq)]
pub enum Change {
    /// The sequence of pods changed at `position`: `removed` pods left, then
    /// `added` pods came.
    ItemsChanged { position: usize, removed: usize, added: usize },
    /// The pod `id` was created. Told once per pod, after it entered the list.
    PodAdded { id: String },
    /// The pod `id` left the list and is gone.
    PodDeleted { id: String },
    /// The pod `id`, which stays where it is, is now in the state `status`.
    StatusChanged { id: String, status: PodStatus },
    /// The counter took the new value `value`.
    CounterChanged { counter: Counter, value: usize },
    /// A full fetch is now under way, or no longer.
    ListingChanged { listing: bool },
    /// The first reconciliation has ended.
    Initialized,
    /// The remote call failed; the list was left as it was.
    RefreshFailed,
}

/// What a [`Change`] is to the contracts.
pub enum ChangeView {
    ItemsChanged { position: int, removed: int, added: int },
    PodAdded { id: Seq<char> },
    PodDeleted { id: Seq<char> },
    StatusChanged { id: Seq<char>, status: PodStatus },
    CounterChanged { counter: Counter, value: int },
    ListingChanged { listing: bool },
    Initialized,
    RefreshFailed,
}

impl View for Change {
    type V = ChangeView;

    open spec fn view(&self) -> ChangeView {
        match *self {
            Change::ItemsChanged { position, removed, added } => ChangeView::ItemsChanged {
                position: position as int,
                removed: removed as int,
                added: added as int,
            },
            Change::PodAdded { id } => ChangeView::PodAdded { id: id@ },
            Change::PodDeleted { id } => ChangeView::PodDeleted { id: id@ },
            Change::StatusChanged { id, status } => ChangeView::StatusChanged { id: id@, status },
            Change::CounterChanged { counter, value } => ChangeView::CounterChanged {
                counter,
                value: value as int,
            },
            Change::ListingChanged { listing } => ChangeView::ListingChanged { listing },
            Change::Initialized => ChangeView::Initialized,
            Change::RefreshFailed => ChangeView::RefreshFailed,
        }
    }
}

/// The changes of `log`, each as the contracts see it.
pub open spec fn log_view(log: Seq<Change>) -> Seq<ChangeView> {
    log.map_values(|c: Change| c@)
}

/// Appends `change` to `log`.
pub(crate) fn record(log: &mut Vec<Change>, change: Change)
    ensures
        log_view(final(log)@) == log_view(old(log)@).push(change@),
{
    log.push(change);
}

} // verus!
