//! The reducer: one intent goes in, the tracker mutates, and the effect
//! the caller must perform comes out.
use vstd::prelude::*;

use crate::clock::now_timestamp;
use crate::data::{storable, JobApplication, JobStatus};
use crate::message::{msg_ok, Message};
use crate::state::{
    empty_form, form_of_job, form_valid, job_of_form, next_order, wf, FormState, FormView,
    JobTracker, SortColumn, SortOrder, TrackerView,
};
use vstd::pervasive::VecAdditionalExecFns;

verus! {

/// What the caller must do after a reducer step: nothing, write the
/// records out (after a backup copy, for a deletion), reload them, or
/// open a link.
#[derive(Debug, Clone, PartialEq, Eq)]
pub enum Effect {
    Nothing,
    Persist,
    BackupThenPersist,
    LoadRequested,
    OpenUrl(String),
}

/// The entry form after a reset: empty, but kept open.
pub open spec fn open_form() -> FormView {
    FormView { is_expanded: true, ..empty_form() }
}

/// Where the edit target points after the record at `i` is deleted:
/// cleared when it was `i` itself, shifted down by one when it stood
/// behind `i`.
pub open spec fn delete_adjusted_index(e: Option<int>, i: int) -> Option<int> {
    match e {
        Some(k) => if k == i {
            None
        } else if k > i {
            Some(k - 1)
        } else {
            Some(k)
        },
        None => None,
    }
}

/// Deleting position `i` and then position `j - 1` removes exactly the
/// elements that stood at `i` and `j`: the record once at `j` is still
/// addressed after the first deletion shifted it down by one.
pub proof fn lemma_delete_index_shift<A>(s: Seq<A>, i: int, j: int)
    requires
        0 <= i < j < s.len(),
    ensures
        s.remove(i).remove(j - 1) == s.remove(j).remove(i),
{
    assert(s.remove(i).remove(j - 1) =~= s.remove(j).remove(i));
}

/// Apply one intent to the tracker and say what the caller must do next.
#[verifier::rlimit(100)]
pub fn update(state: &mut JobTracker, message: Message) -> (eff: Effect)
    requires
        wf(old(state)@),
        msg_ok(message),
    ensures
        wf(final(state)@),
        match message {
            Message::OpenUrl(url) => eff == Effect::OpenUrl(url) && final(state)@ == old(state)@,
            Message::ToggleForm => eff == Effect::Nothing && final(state)@ == (TrackerView {
                form: (FormView { is_expanded: !old(state)@.form.is_expanded, ..old(state)@.form }),
                ..old(state)@
            }),
            Message::CompanyChanged(v) => eff == Effect::Nothing && final(state)@ == (if old(
                state,
            )@.editing_index is Some {
                TrackerView {
                    edit_form: (FormView { company: v@, ..old(state)@.edit_form }),
                    has_unsaved_changes: true,
                    ..old(state)@
                }
            } else {
                TrackerView { form: (FormView { company: v@, ..old(state)@.form }), ..old(state)@ }
            }),
            Message::PositionChanged(v) => eff == Effect::Nothing && final(state)@ == (if old(
                state,
            )@.editing_index is Some {
                TrackerView {
                    edit_form: (FormView { position: v@, ..old(state)@.edit_form }),
                    has_unsaved_changes: true,
                    ..old(state)@
                }
            } else {
                TrackerView { form: (FormView { position: v@, ..old(state)@.form }), ..old(state)@ }
            }),
            Message::DateChanged(v) => eff == Effect::Nothing && final(state)@ == (if old(
                state,
            )@.editing_index is Some {
                TrackerView {
                    edit_form: (FormView { date_applied: v@, ..old(state)@.edit_form }),
                    has_unsaved_changes: true,
                    ..old(state)@
                }
            } else {
                TrackerView {
                    form: (FormView { date_applied: v@, ..old(state)@.form }),
                    ..old(state)@
                }
            }),
            Message::NotesChanged(v) => eff == Effect::Nothing && final(state)@ == (if old(
                state,
            )@.editing_index is Some {
                TrackerView {
                    edit_form: (FormView { notes: v@, ..old(state)@.edit_form }),
                    has_unsaved_changes: true,
                    ..old(state)@
                }
            } else {
                TrackerView { form: (FormView { notes: v@, ..old(state)@.form }), ..old(state)@ }
            }),
            Message::UrlChanged(v) => eff == Effect::Nothing && final(state)@ == (if old(
                state,
            )@.editing_index is Some {
                TrackerView {
                    edit_form: (FormView { url: v@, ..old(state)@.edit_form }),
                    has_unsaved_changes: true,
                    ..old(state)@
                }
            } else {
                TrackerView { form: (FormView { url: v@, ..old(state)@.form }), ..old(state)@ }
            }),
            Message::StatusSelected(s) => eff == Effect::Nothing && final(state)@ == (if old(
                state,
            )@.editing_index is Some {
                TrackerView {
                    edit_form: (FormView { status: Some(s), ..old(state)@.edit_form }),
                    has_unsaved_changes: true,
                    ..old(state)@
                }
            } else {
                TrackerView {
                    form: (FormView { status: Some(s), ..old(state)@.form }),
                    ..old(state)@
                }
            }),
            Message::AddJob => if form_valid(old(state)@.form) {
                eff == Effect::Persist && exists|ts: Seq<char>|
                    #![trigger job_of_form(old(state)@.form, ts)]
                    ts.len() > 0 && final(state)@ == (TrackerView {
                        jobs: old(state)@.jobs.push(job_of_form(old(state)@.form, ts)),
                        form: open_form(),
                        has_unsaved_changes: true,
                        ..old(state)@
                    })
            } else {
                eff == Effect::Nothing && final(state)@ == old(state)@
            },
            Message::ResetForm => eff == Effect::Nothing && final(state)@ == (TrackerView {
                form: open_form(),
                ..old(state)@
            }),
            Message::StartEditing(i) => eff == Effect::Nothing && if (i as int) < old(
                state,
            )@.jobs.len() {
                final(state)@ == (TrackerView {
                    edit_form: form_of_job(old(state)@.jobs[i as int]),
                    editing_index: Some(i as int),
                    ..old(state)@
                })
            } else {
                final(state)@ == old(state)@
            },
            Message::SaveEdit => match old(state)@.editing_index {
                Some(i) => if i < old(state)@.jobs.len() && form_valid(old(state)@.edit_form) {
                    eff == Effect::Persist && exists|ts: Seq<char>|
                        #![trigger job_of_form(old(state)@.edit_form, ts)]
                        ts.len() > 0 && final(state)@ == (TrackerView {
                            jobs: old(state)@.jobs.update(
                                i,
                                job_of_form(old(state)@.edit_form, ts),
                            ),
                            editing_index: None,
                            edit_form: empty_form(),
                            has_unsaved_changes: true,
                            ..old(state)@
                        })
                } else {
                    eff == Effect::Nothing && final(state)@ == (TrackerView {
                        editing_index: None,
                        edit_form: empty_form(),
                        ..old(state)@
                    })
                },
                None => eff == Effect::Nothing && final(state)@ == old(state)@,
            },
            Message::CancelEdit => eff == Effect::Nothing && final(state)@ == (TrackerView {
                editing_index: None,
                edit_form: empty_form(),
                ..old(state)@
            }),
            Message::DeleteJob(i) => if (i as int) < old(state)@.jobs.len() {
                eff == Effect::BackupThenPersist && final(state)@ == (TrackerView {
                    jobs: old(state)@.jobs.remove(i as int),
                    has_unsaved_changes: true,
                    editing_index: delete_adjusted_index(old(state)@.editing_index, i as int),
                    edit_form: if old(state)@.editing_index == Some(i as int) {
                        empty_form()
                    } else {
                        old(state)@.edit_form
                    },
                    ..old(state)@
                })
            } else {
                eff == Effect::Nothing && final(state)@ == old(state)@
            },
            Message::SaveData => eff == Effect::Persist && final(state)@ == old(state)@,
            Message::LoadData => eff == Effect::LoadRequested && final(state)@ == old(state)@,
            Message::ErrorDismissed => eff == Effect::Nothing && final(state)@ == (TrackerView {
                error_message: None,
                ..old(state)@
            }),
            Message::SearchQueryChanged(q) => eff == Effect::Nothing && final(state)@
                == (TrackerView { search_query: q@, ..old(state)@ }),
            Message::FilterStatusChanged(s) => eff == Effect::Nothing && final(state)@
                == (TrackerView { filter_status: Some(s), ..old(state)@ }),
            Message::ClearFilters => eff == Effect::Nothing && final(state)@ == (TrackerView {
                search_query: Seq::empty(),
                filter_status: None,
                ..old(state)@
            }),
            Message::SortBy(col) => eff == Effect::Nothing && final(state)@ == (if old(
                state,
            )@.sort_column == col {
                TrackerView { sort_order: next_order(old(state)@.sort_order), ..old(state)@ }
            } else {
                TrackerView { sort_column: col, sort_order: SortOrder::Ascending, ..old(state)@ }
            }),
        },
{
    match message {
        Message::OpenUrl(url) => Effect::OpenUrl(url),
        Message::ToggleForm => {
            state.form.is_expanded = !state.form.is_expanded;
            Effect::Nothing
        },
        Message::CompanyChanged(value) => {
            if state.editing_index.is_some() {
                state.edit_form.company = value;
                state.has_unsaved_changes = true;
            } else {
                state.form.company = value;
            }
            Effect::Nothing
        },
        Message::PositionChanged(value) => {
            if state.editing_index.is_some() {
                state.edit_form.position = value;
                state.has_unsaved_changes = true;
            } else {
                state.form.position = value;
            }
            Effect::Nothing
        },
        Message::DateChanged(value) => {
            if state.editing_index.is_some() {
                state.edit_form.date_applied = value;
                state.has_unsaved_changes = true;
            } else {
                state.form.date_applied = value;
            }
            Effect::Nothing
        },
        Message::NotesChanged(value) => {
            if state.editing_index.is_some() {
                state.edit_form.notes = value;
                state.has_unsaved_changes = true;
            } else {
                state.form.notes = value;
            }
            Effect::Nothing
        },
        Message::UrlChanged(value) => {
            if state.editing_index.is_some() {
                state.edit_form.url = value;
                state.has_unsaved_changes = true;
            } else {
                state.form.url = value;
            }
            Effect::Nothing
        },
        Message::StatusSelected(status) => {
            if state.editing_index.is_some() {
                state.edit_form.status = Some(status);
                state.has_unsaved_changes = true;
            } else {
                state.form.status = Some(status);
            }
            Effect::Nothing
        },
        Message::AddJob => {
            if state.form.is_valid() {
                match state.form.to_job() {
                    Some(job) => {
                        let ghost jv = job@;
                        state.jobs.push(job);
                        state.has_unsaved_changes = true;
                        state.form = FormState::default();
                        state.form.is_expanded = true;
                        proof {
                            assert(state.jobs.deep_view() =~= old(state)@.jobs.push(jv));
                            assert(state.form@ =~= open_form());
                        }
                        Effect::Persist
                    },
                    None => {
                        proof {
                            assert(false);
                        }
                        Effect::Nothing
                    },
                }
            } else {
                Effect::Nothing
            }
        },
        Message::ResetForm => {
            state.form = FormState::default();
            state.form.is_expanded = true;
            proof {
                assert(state.form@ =~= open_form());
            }
            Effect::Nothing
        },
        Message::StartEditing(index) => {
            if index < state.jobs.len() {
                state.edit_form = FormState::from_job(&state.jobs[index]);
                state.editing_index = Some(index);
            }
            Effect::Nothing
        },
        Message::SaveEdit => {
            match state.editing_index {
                Some(index) => {
                    if index < state.jobs.len() && state.edit_form.is_valid() {
                        match state.edit_form.to_job() {
                            Some(job) => {
                                let ghost jv = job@;
                                state.jobs.set(index, job);
                                state.has_unsaved_changes = true;
                                state.editing_index = None;
                                state.edit_form = FormState::default();
                                proof {
                                    assert(state.jobs.deep_view() =~= old(state)@.jobs.update(
                                        index as int,
                                        jv,
                                    ));
                                }
                                Effect::Persist
                            },
                            None => {
                                proof {
                                    assert(false);
                                }
                                Effect::Nothing
                            },
                        }
                    } else {
                        state.editing_index = None;
                        state.edit_form = FormState::default();
                        Effect::Nothing
                    }
                },
                None => Effect::Nothing,
            }
        },
        Message::CancelEdit => {
            state.editing_index = None;
            state.edit_form = FormState::default();
            Effect::Nothing
        },
        Message::DeleteJob(index) => {
            if index < state.jobs.len() {
                state.jobs.remove(index);
                state.has_unsaved_changes = true;
                match state.editing_index {
                    Some(editing_index) => {
                        if editing_index == index {
                            state.editing_index = None;
                            state.edit_form = FormState::default();
                        } else if editing_index > index {
                            state.editing_index = Some(editing_index - 1);
                        }
                    },
                    None => {},
                }
                proof {
                    assert(state.jobs.deep_view() =~= old(state)@.jobs.remove(index as int));
                }
                Effect::BackupThenPersist
            } else {
                Effect::Nothing
            }
        },
        Message::SaveData => Effect::Persist,
        Message::LoadData => Effect::LoadRequested,
        Message::ErrorDismissed => {
            state.error_message = None;
            Effect::Nothing
        },
        Message::SearchQueryChanged(query) => {
            state.search_query = query;
            Effect::Nothing
        },
        Message::FilterStatusChanged(status) => {
            state.filter_status = Some(status);
            Effect::Nothing
        },
        Message::ClearFilters => {
            state.search_query = String::new();
            state.filter_status = None;
            Effect::Nothing
        },
        Message::SortBy(column) => {
            if state.sort_column == column {
                state.sort_order = match state.sort_order {
                    SortOrder::Ascending => SortOrder::Descending,
                    SortOrder::Descending => SortOrder::Inactive,
                    SortOrder::Inactive => SortOrder::Ascending,
                };
            } else {
                state.sort_column = column;
                state.sort_order = SortOrder::Ascending;
            }
            Effect::Nothing
        },
    }
}

impl JobTracker {
    /// Note a successful write of the records: stamp the save time, clear
    /// any error, and mark the collection clean.
    pub fn save_succeeded(&mut self)
        ensures
            wf(old(self)@) ==> wf(final(self)@),
            final(self)@.last_saved is Some && final(self)@.last_saved->0.len() > 0,
            final(self)@ == (TrackerView {
                last_saved: final(self)@.last_saved,
                error_message: None,
                has_unsaved_changes: false,
                ..old(self)@
            }),
    {
        let now = now_timestamp();
        self.last_saved = Some(now);
        self.error_message = None;
        self.has_unsaved_changes = false;
    }

    /// Note a failed write: surface the message; unsaved changes remain
    /// flagged and the records keep their last known good value.
    pub fn save_failed(&mut self, err: String)
        ensures
            wf(old(self)@) ==> wf(final(self)@),
            final(self)@ == (TrackerView { error_message: Some(err@), ..old(self)@ }),
    {
        self.error_message = Some(err);
    }

    /// Replace the records wholesale with a freshly loaded collection.
    pub fn load_succeeded(&mut self, jobs: Vec<JobApplication>)
        requires
            forall|i: int| 0 <= i < jobs.deep_view().len() ==> storable(#[trigger] jobs.deep_view()[i]),
        ensures
            wf(old(self)@) ==> wf(final(self)@),
            final(self)@ == (TrackerView {
                jobs: jobs.deep_view(),
                error_message: None,
                has_unsaved_changes: false,
                ..old(self)@
            }),
    {
        self.jobs = jobs;
        self.error_message = None;
        self.has_unsaved_changes = false;
    }

    /// Note a failed load: surface the message and keep the in-memory
    /// records as they were.
    pub fn load_failed(&mut self, err: String)
        ensures
            wf(old(self)@) ==> wf(final(self)@),
            final(self)@ == (TrackerView { error_message: Some(err@), ..old(self)@ }),
    {
        self.error_message = Some(err);
    }
}

} // verus!
