use job_tracker::data::{JobApplication, JobStatus};
use job_tracker::state::FormState;

fn filled_form() -> FormState {
    FormState {
        company: "Globex".to_string(),
        position: "Engineer".to_string(),
        date_applied: "2025-04-01".to_string(),
        notes: "phone screen done".to_string(),
        url: "https://globex.example/jobs/1".to_string(),
        status: Some(JobStatus::Interview),
        is_expanded: true,
    }
}

#[test]
fn valid_form_becomes_record() {
    let form = filled_form();
    assert!(form.is_valid());
    let job = form.to_job().expect("a valid form yields a record");
    assert_eq!(job.company, "Globex");
    assert_eq!(job.position, "Engineer");
    assert_eq!(job.date_applied, "2025-04-01");
    assert_eq!(job.status, JobStatus::Interview);
    assert_eq!(job.notes, "phone screen done");
    assert_eq!(job.url.as_deref(), Some("https://globex.example/jobs/1"));
    let stamp = job.last_updated.expect("the record is stamped");
    assert!(!stamp.is_empty());
}

#[test]
fn empty_url_becomes_absent() {
    let mut form = filled_form();
    form.url = String::new();
    let job = form.to_job().unwrap();
    assert!(job.url.is_none());
}

#[test]
fn invalid_forms_yield_nothing() {
    let mut no_company = filled_form();
    no_company.company = String::new();
    assert!(!no_company.is_valid());
    assert!(no_company.to_job().is_none());

    let mut no_position = filled_form();
    no_position.position = String::new();
    assert!(no_position.to_job().is_none());

    let mut no_date = filled_form();
    no_date.date_applied = String::new();
    assert!(no_date.to_job().is_none());

    let mut no_status = filled_form();
    no_status.status = None;
    assert!(no_status.to_job().is_none());

    assert!(FormState::default().to_job().is_none());
}

#[test]
fn from_job_seeds_an_open_form() {
    let job = JobApplication::new(
        "Initech".to_string(),
        "Sysadmin".to_string(),
        "2025-03-30".to_string(),
        JobStatus::Applied,
        String::new(),
        None,
    );
    let form = FormState::from_job(&job);
    assert_eq!(form.company, "Initech");
    assert_eq!(form.position, "Sysadmin");
    assert_eq!(form.date_applied, "2025-03-30");
    assert_eq!(form.status, Some(JobStatus::Applied));
    assert_eq!(form.url, "");
    assert!(form.is_expanded);
    assert!(form.is_valid());
}

#[test]
fn edit_round_trip_refreshes_only_the_stamp() {
    let job = JobApplication::new(
        "Hooli".to_string(),
        "SRE".to_string(),
        "2025-02-14".to_string(),
        JobStatus::Offer,
        "counter-offer pending".to_string(),
        Some("https://hooli.example".to_string()),
    );
    let back = FormState::from_job(&job).to_job().unwrap();
    assert_eq!(back.company, job.company);
    assert_eq!(back.position, job.position);
    assert_eq!(back.date_applied, job.date_applied);
    assert_eq!(back.status, job.status);
    assert_eq!(back.notes, job.notes);
    assert_eq!(back.url, job.url);
    assert!(back.last_updated.is_some());
}

#[test]
fn status_labels() {
    assert_eq!(JobStatus::Applied.name(), "Applied");
    assert_eq!(JobStatus::OA.name(), "OA");
    assert_eq!(JobStatus::Interview.name(), "Interview");
    assert_eq!(JobStatus::Rejected.name(), "Rejected");
    assert_eq!(JobStatus::Offer.name(), "Offer");
    assert_eq!(JobStatus::Accepted.name(), "Accepted");
    assert_eq!(JobStatus::Withdrawn.name(), "Withdrawn");
    assert_eq!(JobStatus::All.name(), "All");
}

#[test]
fn sample_data_holds_eight_records() {
    let jobs = JobApplication::load_sample_data();
    assert_eq!(jobs.len(), 8);
    assert_eq!(jobs[1].company, "NASA/Amentum");
    assert_eq!(jobs[4].status, JobStatus::Rejected);
    assert!(jobs[4].url.is_none());
    assert!(jobs.iter().all(|j| !j.company.is_empty() && !j.position.is_empty()));
}
