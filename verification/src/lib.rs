//! A local, ordered mirror of the pods that a remote container engine reports.
//!
//! [`PodStore`] is the ordered, uniquely keyed collection. [`PodList`] keeps one
//! in step with the remote listing, derives the status counters and the
//! selection count from it, and reports every observable change as a list of
//! [`Change`] values, in the order in which observers are to be told.

pub mod change;
pub mod laws;
pub mod model;
pub mod ordered_map;
pub mod pod;
pub mod pod_list;
pub mod status;
pub mod store;

pub use crate::change::{Change, ChangeView, Event, FetchRequest, RefreshError};
pub use crate::pod::{Pod, PodReport, PodView, ReportView};
pub use crate::pod_list::{all_reports_keyed, Counters, InitState, PodList, PodListView};
pub use crate::status::{Counter, PodStatus};
pub use crate::store::PodStore;
