use job_tracker::data::{JobApplication, JobStatus};
use job_tracker::message::Message;
use job_tracker::state::{JobTracker, SortColumn};
use job_tracker::update::update;

fn record(company: &str, date: &str, status: JobStatus, notes: &str) -> JobApplication {
    JobApplication::new(
        company.to_string(),
        "Engineer".to_string(),
        date.to_string(),
        status,
        notes.to_string(),
        None,
    )
}

fn tracker_with(jobs: Vec<JobApplication>) -> JobTracker {
    let mut t = JobTracker::default();
    t.load_succeeded(jobs);
    t
}

#[test]
fn status_filter_keeps_matching_records_with_their_indices() {
    let mut t = tracker_with(vec![
        record("A", "2025-01-01", JobStatus::Applied, ""),
        record("B", "2025-01-02", JobStatus::Rejected, ""),
        record("C", "2025-01-03", JobStatus::Rejected, ""),
    ]);
    update(&mut t, Message::FilterStatusChanged(JobStatus::Rejected));
    let visible = t.filtered_jobs();
    assert_eq!(visible.len(), 2);
    assert_eq!(visible[0].0, 1);
    assert_eq!(visible[0].1.company, "B");
    assert_eq!(visible[1].0, 2);
    assert_eq!(visible[1].1.company, "C");
}

#[test]
fn the_all_wildcard_keeps_everything() {
    let mut t = tracker_with(vec![
        record("A", "2025-01-01", JobStatus::Applied, ""),
        record("B", "2025-01-02", JobStatus::Rejected, ""),
    ]);
    update(&mut t, Message::FilterStatusChanged(JobStatus::All));
    assert_eq!(t.filtered_jobs().len(), 2);
}

#[test]
fn search_is_case_insensitive_across_fields() {
    let mut t = tracker_with(vec![
        record("NASA/Amentum", "2025-01-01", JobStatus::Applied, "supports ISS"),
        record("Globex", "2025-01-02", JobStatus::Applied, "nothing here"),
    ]);
    update(&mut t, Message::SearchQueryChanged("nasa".to_string()));
    let by_company = t.filtered_jobs();
    assert_eq!(by_company.len(), 1);
    assert_eq!(by_company[0].0, 0);
    assert_eq!(by_company[0].1.company, "NASA/Amentum");

    update(&mut t, Message::SearchQueryChanged("iss".to_string()));
    let by_notes = t.filtered_jobs();
    assert_eq!(by_notes.len(), 1);
    assert_eq!(by_notes[0].1.notes, "supports ISS");

    update(&mut t, Message::SearchQueryChanged("absent".to_string()));
    assert_eq!(t.filtered_jobs().len(), 0);

    update(&mut t, Message::SearchQueryChanged(String::new()));
    assert_eq!(t.filtered_jobs().len(), 2);
}

#[test]
fn sorting_by_company_ignores_case_and_is_stable() {
    let mut t = tracker_with(vec![
        record("delta", "2025-01-04", JobStatus::Applied, ""),
        record("Alpha", "2025-01-01", JobStatus::Applied, "first alpha"),
        record("alpha", "2025-01-02", JobStatus::Applied, "second alpha"),
        record("Beta", "2025-01-03", JobStatus::Applied, ""),
    ]);
    update(&mut t, Message::SortBy(SortColumn::Company));
    let ascending = t.sorted_jobs();
    let companies: Vec<&str> = ascending.iter().map(|p| p.1.company.as_str()).collect();
    assert_eq!(companies, ["Alpha", "alpha", "Beta", "delta"]);
    assert_eq!(ascending[0].0, 1);
    assert_eq!(ascending[1].0, 2);

    update(&mut t, Message::SortBy(SortColumn::Company));
    let descending = t.sorted_jobs();
    let companies: Vec<&str> = descending.iter().map(|p| p.1.company.as_str()).collect();
    assert_eq!(companies, ["delta", "Beta", "Alpha", "alpha"]);
    assert_eq!(descending[2].0, 1, "equal keys keep insertion order");
    assert_eq!(descending[3].0, 2);

    update(&mut t, Message::SortBy(SortColumn::Company));
    let unsorted = t.sorted_jobs();
    let companies: Vec<&str> = unsorted.iter().map(|p| p.1.company.as_str()).collect();
    assert_eq!(companies, ["delta", "Alpha", "alpha", "Beta"], "third request restores insertion order");
}

#[test]
fn sorting_by_date_compares_the_raw_text() {
    let mut t = tracker_with(vec![
        record("A", "2025-03-15", JobStatus::Applied, ""),
        record("B", "2025-01-20", JobStatus::Applied, ""),
        record("C", "2025-02-01", JobStatus::Applied, ""),
    ]);
    update(&mut t, Message::SortBy(SortColumn::DateApplied));
    let sorted = t.sorted_jobs();
    let dates: Vec<&str> = sorted.iter().map(|p| p.1.date_applied.as_str()).collect();
    assert_eq!(dates, ["2025-01-20", "2025-02-01", "2025-03-15"]);
}

#[test]
fn sorting_applies_to_the_filtered_set() {
    let mut t = tracker_with(vec![
        record("zeta", "2025-01-01", JobStatus::Rejected, ""),
        record("Yankee", "2025-01-02", JobStatus::Applied, ""),
        record("alpha", "2025-01-03", JobStatus::Rejected, ""),
    ]);
    update(&mut t, Message::FilterStatusChanged(JobStatus::Rejected));
    update(&mut t, Message::SortBy(SortColumn::Company));
    let visible = t.sorted_jobs();
    assert_eq!(visible.len(), 2);
    assert_eq!(visible[0].1.company, "alpha");
    assert_eq!(visible[0].0, 2);
    assert_eq!(visible[1].1.company, "zeta");
    assert_eq!(visible[1].0, 0);
}

#[test]
fn empty_collection_has_an_empty_view() {
    let t = JobTracker::default();
    assert!(t.filtered_jobs().is_empty());
    assert!(t.sorted_jobs().is_empty());
}
