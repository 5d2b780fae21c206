use job_tracker::data::{JobApplication, JobStatus};
use job_tracker::storage::{encode_jobs, parse_jobs, StorageError};

fn record(company: &str, status: JobStatus, url: Option<&str>, stamp: Option<&str>) -> JobApplication {
    let mut job = JobApplication::new(
        company.to_string(),
        "Engineer".to_string(),
        "April 3, 2025".to_string(),
        status,
        "some notes".to_string(),
        url.map(|u| u.to_string()),
    );
    job.last_updated = stamp.map(|s| s.to_string());
    job
}

fn assert_same(a: &JobApplication, b: &JobApplication) {
    assert_eq!(a.company, b.company);
    assert_eq!(a.position, b.position);
    assert_eq!(a.date_applied, b.date_applied);
    assert_eq!(a.status, b.status);
    assert_eq!(a.notes, b.notes);
    assert_eq!(a.url, b.url);
    assert_eq!(a.last_updated, b.last_updated);
}

#[test]
fn encode_of_one_record_is_the_expected_text() {
    let jobs = vec![record("Globex", JobStatus::Applied, None, Some("2025-04-03 10:00:00"))];
    let text = encode_jobs(&jobs);
    let expected = "[\n  {\n    \"company\": \"Globex\",\n    \"position\": \"Engineer\",\n    \"date_applied\": \"April 3, 2025\",\n    \"status\": \"Applied\",\n    \"notes\": \"some notes\",\n    \"url\": null,\n    \"last_updated\": \"2025-04-03 10:00:00\"\n  }\n]";
    assert_eq!(text, expected);
}

#[test]
fn encode_of_no_records_is_an_empty_array() {
    let text = encode_jobs(&Vec::new());
    assert_eq!(text, "[]");
    let back = parse_jobs(&text).unwrap();
    assert!(back.is_empty());
}

#[test]
fn saved_records_load_back_field_for_field() {
    let jobs = vec![
        record("Globex", JobStatus::Applied, Some("https://globex.example"), Some("2025-04-03 10:00:00")),
        record("Hooli \"Inc\"", JobStatus::OA, None, None),
        record("Line\nBreak & Tab\t Co", JobStatus::Withdrawn, Some(""), Some("x")),
    ];
    let text = encode_jobs(&jobs);
    let back = parse_jobs(&text).expect("what the tracker writes, it reads back");
    assert_eq!(back.len(), jobs.len());
    for (a, b) in jobs.iter().zip(back.iter()) {
        assert_same(a, b);
    }
}

#[test]
fn every_status_survives_the_round_trip() {
    let statuses = [
        JobStatus::Applied,
        JobStatus::OA,
        JobStatus::Interview,
        JobStatus::Rejected,
        JobStatus::Offer,
        JobStatus::Accepted,
        JobStatus::Withdrawn,
    ];
    let jobs: Vec<JobApplication> = statuses.iter().map(|s| record("A", *s, None, None)).collect();
    let back = parse_jobs(&encode_jobs(&jobs)).unwrap();
    for (a, b) in jobs.iter().zip(back.iter()) {
        assert_eq!(a.status, b.status);
    }
}

#[test]
fn sample_data_round_trips() {
    let jobs = JobApplication::load_sample_data();
    let back = parse_jobs(&encode_jobs(&jobs)).unwrap();
    assert_eq!(back.len(), 8);
    for (a, b) in jobs.iter().zip(back.iter()) {
        assert_same(a, b);
    }
}

#[test]
fn the_rendered_text_is_valid_json() {
    let jobs = JobApplication::load_sample_data();
    let text = encode_jobs(&jobs);
    let value: serde_json::Value = serde_json::from_str(&text).expect("the rendering is JSON");
    let array = value.as_array().expect("the rendering is an array");
    assert_eq!(array.len(), 8);
    assert_eq!(array[1]["company"], serde_json::Value::String("NASA/Amentum".to_string()));
    assert_eq!(array[4]["url"], serde_json::Value::Null);
    assert_eq!(array[2]["status"], serde_json::Value::String("OA".to_string()));
}

#[test]
fn escapes_in_text_fields_round_trip() {
    let mut job = record("A", JobStatus::Applied, None, None);
    job.notes = "quote \" backslash \\ newline \n tab \t bell \u{7} high \u{1F680} end".to_string();
    let back = parse_jobs(&encode_jobs(&vec![job.clone()])).unwrap();
    assert_eq!(back[0].notes, job.notes);
}

#[test]
fn older_files_without_the_stamp_still_load() {
    let text = "[\n  {\n    \"company\": \"Globex\",\n    \"position\": \"Engineer\",\n    \"date_applied\": \"April 3, 2025\",\n    \"status\": \"Applied\",\n    \"notes\": \"\",\n    \"url\": null\n  }\n]";
    let back = parse_jobs(text).unwrap();
    assert_eq!(back.len(), 1);
    assert_eq!(back[0].company, "Globex");
    assert!(back[0].last_updated.is_none());
}

#[test]
fn whitespace_and_unicode_escapes_are_accepted() {
    let text = "  [ {\n\"company\":\t\"\\u0047lobex\", \"position\": \"Engineer\",\r\n \"date_applied\": \"x\", \"status\": \"Offer\", \"notes\": \"\", \"url\": \"u\", \"last_updated\": null } ]  ";
    let back = parse_jobs(text).unwrap();
    assert_eq!(back[0].company, "Globex");
    assert_eq!(back[0].status, JobStatus::Offer);
    assert_eq!(back[0].url.as_deref(), Some("u"));
}

#[test]
fn texts_that_do_not_fit_the_schema_are_parse_errors() {
    let bad = [
        "",
        "{}",
        "[",
        "[{}]",
        "[\n  {\n    \"company\": \"A\"\n  }\n]",
        // the All wildcard must never appear on disk
        "[ {\"company\": \"A\", \"position\": \"P\", \"date_applied\": \"d\", \"status\": \"All\", \"notes\": \"\", \"url\": null } ]",
        // unknown status label
        "[ {\"company\": \"A\", \"position\": \"P\", \"date_applied\": \"d\", \"status\": \"Ghosted\", \"notes\": \"\", \"url\": null } ]",
        // trailing content after the array
        "[] true",
        // a raw control character inside a string
        "[ {\"company\": \"A\u{1}\", \"position\": \"P\", \"date_applied\": \"d\", \"status\": \"OA\", \"notes\": \"\", \"url\": null } ]",
    ];
    for text in bad {
        match parse_jobs(text) {
            Err(StorageError::ParseError) => {},
            other => panic!("expected a parse failure for {:?}, got {:?}", text, other.map(|v| v.len())),
        }
    }
}
