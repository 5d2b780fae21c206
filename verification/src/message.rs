//! The intents the tracker consumes, one discrete message per user action.
use vstd::prelude::*;

use crate::data::JobStatus;
use crate::state::SortColumn;

verus! {

/// One user intent, consumed by [`crate::update::update`].
#[derive(Debug, Clone)]
pub enum Message {
    OpenUrl(String),
    ToggleForm,
    CompanyChanged(String),
    PositionChanged(String),
    DateChanged(String),
    NotesChanged(String),
    UrlChanged(String),
    StatusSelected(JobStatus),
    AddJob,
    ResetForm,
    StartEditing(usize),
    SaveEdit,
    CancelEdit,
    DeleteJob(usize),
    SaveData,
    LoadData,
    ErrorDismissed,
    SearchQueryChanged(String),
    FilterStatusChanged(JobStatus),
    ClearFilters,
    SortBy(SortColumn),
}

/// What the presentation layer guarantees of the intents it emits: the
/// status pick lists for a record offer only real statuses, never the
/// `All` filter wildcard.
pub open spec fn msg_ok(m: Message) -> bool {
    match m {
        Message::StatusSelected(s) => s != JobStatus::All,
        _ => true,
    }
}

} // verus!
