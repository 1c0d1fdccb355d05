use vstd::prelude::*;

use crate::change::RefreshError;
use crate::status::PodStatus;

verus! {

/// One pod as the list holds it.
#[derive(Debug, PartialEq, Eq)]
pub struct Pod {
    /// The identifier under which the remote engine knows the pod. It never changes.
    pub id: String,
    /// The state last reported for the pod.
    pub status: PodStatus,
    /// Whether the user has selected the pod.
    pub selected: bool,
}

/// What a [`Pod`] is to the contracts: its identifier as a sequence of characters.
pub struct PodView {
    pub id: Seq<char>,
    pub status: PodStatus,
    pub selected: bool,
}

impl View for Pod {
    type V = PodView;

    open spec fn view(&self) -> PodView {
        PodView { id: self.id@, status: self.status, selected: self.selected }
    }
}

impl Clone for Pod {
    fn clone(&self) -> (res: Self)
        ensures
            res == *self,
    {
        Pod { id: self.id.clone(), status: self.status, selected: self.selected }
    }
}

/// One entry of a remote listing: the state of one pod at the time of the call.
#[derive(Debug, PartialEq, Eq)]
pub struct PodReport {
    /// The pod's identifier. A listing entry without one breaks the remote contract.
    pub id: Option<String>,
    pub status: PodStatus,
}

/// What a [`PodReport`] is to the contracts.
pub struct ReportView {
    pub id: Option<Seq<char>>,
    pub status: PodStatus,
}

impl View for PodReport {
    type V = ReportView;

    open spec fn view(&self) -> ReportView {
        ReportView {
            id: match self.id {
                Some(id) => Some(id@),
                None => None,
            },
            status: self.status,
        }
    }
}

impl Clone for PodReport {
    fn clone(&self) -> (res: Self)
        ensures
            res == *self,
    {
        PodReport {
            id: match &self.id {
                Some(id) => Some(id.clone()),
                None => None,
            },
            status: self.status,
        }
    }
}

/// The entries of `reports`, each as the contracts see it.
pub open spec fn reports_view(reports: Seq<PodReport>) -> Seq<ReportView> {
    reports.map_values(|r: PodReport| r@)
}

/// What came back from a fetch, as the contracts see it: the listing, or
/// nothing for a call that failed.
pub open spec fn fetched_view(fetched: Result<Vec<PodReport>, RefreshError>) -> Option<
    Seq<ReportView>,
> {
    match fetched {
        Ok(reports) => Some(reports_view(reports@)),
        Err(_) => None,
    }
}

impl PodView {
    /// The pod that a listing entry with this identifier and state creates: not selected.
    pub open spec fn created(id: Seq<char>, status: PodStatus) -> PodView {
        PodView { id, status, selected: false }
    }

    /// This pod after a listing entry reported `status` for it: only the state changes.
    pub open spec fn updated(self, status: PodStatus) -> PodView {
        PodView { id: self.id, status, selected: self.selected }
    }

    /// This pod with its selection set to `selected`.
    pub open spec fn with_selected(self, selected: bool) -> PodView {
        PodView { id: self.id, status: self.status, selected }
    }
}

impl Pod {
    /// The pod that the listing entry `report` creates.
    pub fn new(report: &PodReport) -> (pod: Pod)
        requires
            report.id.is_some(),
        ensures
            pod@ == PodView::created(report@.id.unwrap(), report.status),
    {
        match &report.id {
            Some(id) => Pod { id: id.clone(), status: report.status, selected: false },
            None => Pod { id: String::new(), status: report.status, selected: false },
        }
    }

    /// This pod after the listing entry `report` was applied to it.
    pub fn update(&self, report: &PodReport) -> (pod: Pod)
        ensures
            pod@ == self@.updated(report.status),
    {
        Pod { id: self.id.clone(), status: report.status, selected: self.selected }
    }

    /// This pod with its selection set to `selected`.
    pub fn select(&self, selected: bool) -> (pod: Pod)
        ensures
            pod@ == self@.with_selected(selected),
    {
        Pod { id: self.id.clone(), status: self.status, selected }
    }
}

} // verus!
