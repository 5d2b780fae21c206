use job_tracker::data::{JobApplication, JobStatus};
use job_tracker::message::Message;
use job_tracker::state::{JobTracker, SortColumn, SortOrder};
use job_tracker::update::{update, Effect};

fn record(company: &str, status: JobStatus) -> JobApplication {
    JobApplication::new(
        company.to_string(),
        "Engineer".to_string(),
        "2025-04-01".to_string(),
        status,
        String::new(),
        None,
    )
}

fn tracker_with(jobs: Vec<JobApplication>) -> JobTracker {
    let mut t = JobTracker::default();
    t.load_succeeded(jobs);
    t
}

fn fill_add_form(t: &mut JobTracker, company: &str) {
    assert!(matches!(update(t, Message::CompanyChanged(company.to_string())), Effect::Nothing));
    assert!(matches!(update(t, Message::PositionChanged("Engineer".to_string())), Effect::Nothing));
    assert!(matches!(update(t, Message::DateChanged("2025-04-01".to_string())), Effect::Nothing));
    assert!(matches!(update(t, Message::StatusSelected(JobStatus::Applied)), Effect::Nothing));
}

#[test]
fn add_job_appends_one_record_and_persists_once() {
    let mut t = JobTracker::default();
    fill_add_form(&mut t, "Globex");
    let eff = update(&mut t, Message::AddJob);
    assert!(matches!(eff, Effect::Persist));
    assert_eq!(t.jobs.len(), 1);
    assert_eq!(t.jobs[0].company, "Globex");
    assert!(t.has_unsaved_changes);
    assert_eq!(t.form.company, "");
    assert!(t.form.is_expanded);
}

#[test]
fn add_job_with_invalid_form_does_nothing() {
    let mut t = JobTracker::default();
    assert!(matches!(update(&mut t, Message::AddJob), Effect::Nothing));
    assert_eq!(t.jobs.len(), 0);
    assert!(!t.has_unsaved_changes);
}

#[test]
fn toggle_and_reset_form() {
    let mut t = JobTracker::default();
    assert!(!t.form.is_expanded);
    update(&mut t, Message::ToggleForm);
    assert!(t.form.is_expanded);
    update(&mut t, Message::CompanyChanged("Globex".to_string()));
    update(&mut t, Message::ResetForm);
    assert_eq!(t.form.company, "");
    assert!(t.form.is_expanded);
}

#[test]
fn start_editing_and_save_edit() {
    let mut t = tracker_with(vec![record("Globex", JobStatus::Applied)]);
    assert!(matches!(update(&mut t, Message::StartEditing(0)), Effect::Nothing));
    assert_eq!(t.editing_index, Some(0));
    assert_eq!(t.edit_form.company, "Globex");
    update(&mut t, Message::CompanyChanged("Globex Corp".to_string()));
    assert!(t.has_unsaved_changes);
    let eff = update(&mut t, Message::SaveEdit);
    assert!(matches!(eff, Effect::Persist));
    assert_eq!(t.jobs[0].company, "Globex Corp");
    assert!(t.editing_index.is_none());
    assert_eq!(t.edit_form.company, "");
}

#[test]
fn save_edit_without_editing_target_does_nothing() {
    let mut t = tracker_with(vec![record("Globex", JobStatus::Applied)]);
    assert!(matches!(update(&mut t, Message::SaveEdit), Effect::Nothing));
    assert_eq!(t.jobs[0].company, "Globex");
}

#[test]
fn cancel_edit_leaves_records_alone() {
    let mut t = tracker_with(vec![record("Globex", JobStatus::Applied)]);
    update(&mut t, Message::StartEditing(0));
    update(&mut t, Message::CompanyChanged("changed".to_string()));
    assert!(matches!(update(&mut t, Message::CancelEdit), Effect::Nothing));
    assert_eq!(t.jobs[0].company, "Globex");
    assert!(t.editing_index.is_none());
}

#[test]
fn delete_job_backs_up_then_persists() {
    let mut t = tracker_with(vec![record("A", JobStatus::Applied), record("B", JobStatus::OA)]);
    let eff = update(&mut t, Message::DeleteJob(0));
    assert!(matches!(eff, Effect::BackupThenPersist));
    assert_eq!(t.jobs.len(), 1);
    assert_eq!(t.jobs[0].company, "B");
    assert!(t.has_unsaved_changes);
}

#[test]
fn delete_out_of_range_does_nothing() {
    let mut t = tracker_with(vec![record("A", JobStatus::Applied)]);
    assert!(matches!(update(&mut t, Message::DeleteJob(5)), Effect::Nothing));
    assert_eq!(t.jobs.len(), 1);
}

#[test]
fn deleting_twice_at_zero_leaves_the_third_record() {
    let mut t = tracker_with(vec![
        record("first", JobStatus::Applied),
        record("second", JobStatus::OA),
        record("third", JobStatus::Interview),
    ]);
    update(&mut t, Message::DeleteJob(0));
    update(&mut t, Message::DeleteJob(0));
    assert_eq!(t.jobs.len(), 1);
    assert_eq!(t.jobs[0].company, "third");
}

#[test]
fn deleting_before_the_edited_record_shifts_the_index() {
    let mut t = tracker_with(vec![
        record("A", JobStatus::Applied),
        record("B", JobStatus::OA),
        record("C", JobStatus::Interview),
    ]);
    update(&mut t, Message::StartEditing(2));
    update(&mut t, Message::DeleteJob(0));
    assert_eq!(t.editing_index, Some(1));
    assert_eq!(t.edit_form.company, "C");
}

#[test]
fn deleting_the_edited_record_clears_the_editor() {
    let mut t = tracker_with(vec![record("A", JobStatus::Applied), record("B", JobStatus::OA)]);
    update(&mut t, Message::StartEditing(0));
    update(&mut t, Message::DeleteJob(0));
    assert!(t.editing_index.is_none());
    assert_eq!(t.edit_form.company, "");
    assert_eq!(t.edit_form.position, "");
    assert!(t.edit_form.status.is_none());
    assert!(!t.edit_form.is_expanded);
}

#[test]
fn deleting_after_the_edited_record_keeps_the_index() {
    let mut t = tracker_with(vec![record("A", JobStatus::Applied), record("B", JobStatus::OA)]);
    update(&mut t, Message::StartEditing(0));
    update(&mut t, Message::DeleteJob(1));
    assert_eq!(t.editing_index, Some(0));
    assert_eq!(t.edit_form.company, "A");
}

#[test]
fn save_and_load_intents_only_request_effects() {
    let mut t = tracker_with(vec![record("A", JobStatus::Applied)]);
    assert!(matches!(update(&mut t, Message::SaveData), Effect::Persist));
    assert!(matches!(update(&mut t, Message::LoadData), Effect::LoadRequested));
    assert_eq!(t.jobs.len(), 1);
}

#[test]
fn open_url_passes_the_link_through() {
    let mut t = JobTracker::default();
    match update(&mut t, Message::OpenUrl("https://example.org".to_string())) {
        Effect::OpenUrl(u) => assert_eq!(u, "https://example.org"),
        other => panic!("unexpected effect {:?}", other),
    }
}

#[test]
fn save_outcomes_update_the_flags() {
    let mut t = tracker_with(vec![record("A", JobStatus::Applied)]);
    assert!(t.last_saved.is_none());
    t.save_succeeded();
    assert!(!t.has_unsaved_changes);
    assert!(t.error_message.is_none());
    let stamp = t.last_saved.clone().expect("a save stamps the time");
    assert!(!stamp.is_empty());

    t.has_unsaved_changes = true;
    t.save_failed("disk full".to_string());
    assert_eq!(t.error_message.as_deref(), Some("disk full"));
    assert!(t.has_unsaved_changes);

    t.load_failed("could not read the data file".to_string());
    assert!(t.error_message.is_some());
    update(&mut t, Message::ErrorDismissed);
    assert!(t.error_message.is_none());
}

#[test]
fn filters_and_search_do_not_touch_records() {
    let mut t = tracker_with(vec![record("A", JobStatus::Applied)]);
    update(&mut t, Message::SearchQueryChanged("abc".to_string()));
    assert_eq!(t.search_query, "abc");
    update(&mut t, Message::FilterStatusChanged(JobStatus::Rejected));
    assert_eq!(t.filter_status, Some(JobStatus::Rejected));
    assert!(!t.has_unsaved_changes);
    update(&mut t, Message::ClearFilters);
    assert_eq!(t.search_query, "");
    assert!(t.filter_status.is_none());
}

#[test]
fn sort_by_cycles_ascending_descending_inactive() {
    let mut t = JobTracker::default();
    assert_eq!(t.sort_column, SortColumn::Inactive);
    update(&mut t, Message::SortBy(SortColumn::Company));
    assert_eq!(t.sort_column, SortColumn::Company);
    assert_eq!(t.sort_order, SortOrder::Ascending);
    update(&mut t, Message::SortBy(SortColumn::Company));
    assert_eq!(t.sort_order, SortOrder::Descending);
    update(&mut t, Message::SortBy(SortColumn::Company));
    assert_eq!(t.sort_order, SortOrder::Inactive);
    update(&mut t, Message::SortBy(SortColumn::DateApplied));
    assert_eq!(t.sort_column, SortColumn::DateApplied);
    assert_eq!(t.sort_order, SortOrder::Ascending);
}
