//! The record model: one tracked job application and its status.
use vstd::prelude::*;

verus! {

/// Where an application stands. `All` is a filter wildcard only: it is
/// never stored on a record and never written to disk.
#[derive(Clone, Copy, PartialEq, Eq, Structural, Debug)]
pub enum JobStatus {
    Applied,
    OA,
    Interview,
    Rejected,
    Offer,
    Accepted,
    Withdrawn,
    All,
}

/// The label under which a status is shown and persisted.
pub open spec fn status_label(s: JobStatus) -> Seq<char> {
    match s {
        JobStatus::Applied => seq!['A', 'p', 'p', 'l', 'i', 'e', 'd'],
        JobStatus::OA => seq!['O', 'A'],
        JobStatus::Interview => seq!['I', 'n', 't', 'e', 'r', 'v', 'i', 'e', 'w'],
        JobStatus::Rejected => seq!['R', 'e', 'j', 'e', 'c', 't', 'e', 'd'],
        JobStatus::Offer => seq!['O', 'f', 'f', 'e', 'r'],
        JobStatus::Accepted => seq!['A', 'c', 'c', 'e', 'p', 't', 'e', 'd'],
        JobStatus::Withdrawn => seq!['W', 'i', 't', 'h', 'd', 'r', 'a', 'w', 'n'],
        JobStatus::All => seq!['A', 'l', 'l'],
    }
}

impl JobStatus {
    /// The label of this status, e.g. shown in the status badge.
    pub fn name(&self) -> (r: String)
        ensures
            r@ == status_label(*self),
    {
        match self {
            JobStatus::Applied => {
                let r = String::from_str("Applied");
                proof {
                    reveal_strlit("Applied");
                    assert(r@ =~= status_label(*self));
                }
                r
            },
            JobStatus::OA => {
                let r = String::from_str("OA");
                proof {
                    reveal_strlit("OA");
                    assert(r@ =~= status_label(*self));
                }
                r
            },
            JobStatus::Interview => {
                let r = String::from_str("Interview");
                proof {
                    reveal_strlit("Interview");
                    assert(r@ =~= status_label(*self));
                }
                r
            },
            JobStatus::Rejected => {
                let r = String::from_str("Rejected");
                proof {
                    reveal_strlit("Rejected");
                    assert(r@ =~= status_label(*self));
                }
                r
            },
            JobStatus::Offer => {
                let r = String::from_str("Offer");
                proof {
                    reveal_strlit("Offer");
                    assert(r@ =~= status_label(*self));
                }
                r
            },
            JobStatus::Accepted => {
                let r = String::from_str("Accepted");
                proof {
                    reveal_strlit("Accepted");
                    assert(r@ =~= status_label(*self));
                }
                r
            },
            JobStatus::Withdrawn => {
                let r = String::from_str("Withdrawn");
                proof {
                    reveal_strlit("Withdrawn");
                    assert(r@ =~= status_label(*self));
                }
                r
            },
            JobStatus::All => {
                let r = String::from_str("All");
                proof {
                    reveal_strlit("All");
                    assert(r@ =~= status_label(*self));
                }
                r
            },
        }
    }
}

/// One tracked job application.
pub struct JobApplication {
    pub company: String,
    pub position: String,
    pub date_applied: String,
    pub status: JobStatus,
    pub notes: String,
    pub url: Option<String>,
    pub last_updated: Option<String>,
}

/// The mathematical value of a record: each text field as its character
/// sequence.
#[verifier::ext_equal]
pub ghost struct JobAppView {
    pub company: Seq<char>,
    pub position: Seq<char>,
    pub date_applied: Seq<char>,
    pub status: JobStatus,
    pub notes: Seq<char>,
    pub url: Option<Seq<char>>,
    pub last_updated: Option<Seq<char>>,
}

impl View for JobApplication {
    type V = JobAppView;

    open spec fn view(&self) -> JobAppView {
        JobAppView {
            company: self.company@,
            position: self.position@,
            date_applied: self.date_applied@,
            status: self.status,
            notes: self.notes@,
            url: match self.url {
                Some(u) => Some(u@),
                None => None,
            },
            last_updated: match self.last_updated {
                Some(u) => Some(u@),
                None => None,
            },
        }
    }
}

impl DeepView for JobApplication {
    type V = JobAppView;

    open spec fn deep_view(&self) -> JobAppView {
        self.view()
    }
}

impl Clone for JobApplication {
    fn clone(&self) -> (r: Self)
        ensures
            r@ == self@,
    {
        JobApplication {
            company: self.company.clone(),
            position: self.position.clone(),
            date_applied: self.date_applied.clone(),
            status: self.status,
            notes: self.notes.clone(),
            url: self.url.clone(),
            last_updated: self.last_updated.clone(),
        }
    }
}

/// A record that may be written to disk: its status is a real status, not
/// the `All` filter wildcard.
pub open spec fn storable(r: JobAppView) -> bool {
    r.status != JobStatus::All
}

/// What the form path produces: the required text fields are non-empty and
/// the status is a real status.
pub open spec fn valid_record(r: JobAppView) -> bool {
    r.company.len() > 0 && r.position.len() > 0 && r.date_applied.len() > 0 && storable(r)
}

impl JobApplication {
    pub fn new(
        company: String,
        position: String,
        date_applied: String,
        status: JobStatus,
        notes: String,
        url: Option<String>,
    ) -> (r: Self)
        ensures
            r@ == (JobAppView {
                company: company@,
                position: position@,
                date_applied: date_applied@,
                status,
                notes: notes@,
                url: match url {
                    Some(u) => Some(u@),
                    None => None,
                },
                last_updated: None,
            }),
    {
        Self { company, position, date_applied, status, notes, url, last_updated: None }
    }

    /// A fixed starter collection of eight applications.
    pub fn load_sample_data() -> (r: Vec<Self>)
        ensures
            r@.len() == 8,
            r@[0]@ == (JobAppView {
                company: "Accenture Federal Services"@,
                position: "RedHat Linux Administrator"@,
                date_applied: "April 3, 2025"@,
                status: JobStatus::Applied,
                notes: "Secret clearance required; $85K-$138K salary range; Houston, TX location"@,
                url: Some("https://job-boards.greenhouse.io/accenturefederalservices/jobs/4441555006"@),
                last_updated: None,
            }),
            r@[1]@ == (JobAppView {
                company: "NASA/Amentum"@,
                position: "FSL Linux Systems Administrator"@,
                date_applied: "April 3, 2025"@,
                status: JobStatus::Applied,
                notes: "RHEL experience required; supports ISS and other space programs"@,
                url: Some("https://jacobs.taleo.net/careersection/ex/jobdetail.ftl?job=ADV000ABM"@),
                last_updated: None,
            }),
            r@[2]@ == (JobAppView {
                company: "Google"@,
                position: "Site Reliability Engineer"@,
                date_applied: "April 4, 2025"@,
                status: JobStatus::OA,
                notes: "Online assessment received; deadline is April 10"@,
                url: Some("https://careers.google.com/jobs/results/"@),
                last_updated: None,
            }),
            r@[3]@ == (JobAppView {
                company: "Microsoft"@,
                position: "Cloud Solutions Architect"@,
                date_applied: "March 28, 2025"@,
                status: JobStatus::Interview,
                notes: "First interview scheduled for April 10, 2025"@,
                url: Some("https://careers.microsoft.com/"@),
                last_updated: None,
            }),
            r@[4]@ == (JobAppView {
                company: "Amazon"@,
                position: "Systems Engineer"@,
                date_applied: "March 15, 2025"@,
                status: JobStatus::Rejected,
                notes: "Received rejection email on April 1, 2025"@,
                url: None,
                last_updated: None,
            }),
            r@[5]@ == (JobAppView {
                company: "LinkedIn"@,
                position: "DevOps Engineer"@,
                date_applied: "March 10, 2025"@,
                status: JobStatus::Offer,
                notes: "Offer received: $145K/year + benefits. Need to respond by April 15"@,
                url: Some("https://linkedin.com/jobs/"@),
                last_updated: None,
            }),
            r@[6]@ == (JobAppView {
                company: "Salesforce"@,
                position: "Infrastructure Engineer"@,
                date_applied: "February 25, 2025"@,
                status: JobStatus::Accepted,
                notes: "Accepted offer on April 2. Start date: May 1, 2025"@,
                url: Some("https://salesforce.com/careers/"@),
                last_updated: None,
            }),
            r@[7]@ == (JobAppView {
                company: "Twitter"@,
                position: "Backend Developer"@,
                date_applied: "March 20, 2025"@,
                status: JobStatus::Withdrawn,
                notes: "Withdrew application after receiving better offer elsewhere"@,
                url: Some("https://twitter.com/careers/"@),
                last_updated: None,
            }),
    {
        let mut r: Vec<Self> = Vec::new();
        r.push(
            Self::new(
                String::from_str("Accenture Federal Services"),
                String::from_str("RedHat Linux Administrator"),
                String::from_str("April 3, 2025"),
                JobStatus::Applied,
                String::from_str(
                    "Secret clearance required; $85K-$138K salary range; Houston, TX location",
                ),
                Some(
                    String::from_str(
                        "https://job-boards.greenhouse.io/accenturefederalservices/jobs/4441555006",
                    ),
                ),
            ),
        );
        r.push(
            Self::new(
                String::from_str("NASA/Amentum"),
                String::from_str("FSL Linux Systems Administrator"),
                String::from_str("April 3, 2025"),
                JobStatus::Applied,
                String::from_str("RHEL experience required; supports ISS and other space programs"),
                Some(
                    String::from_str(
                        "https://jacobs.taleo.net/careersection/ex/jobdetail.ftl?job=ADV000ABM",
                    ),
                ),
            ),
        );
        r.push(
            Self::new(
                String::from_str("Google"),
                String::from_str("Site Reliability Engineer"),
                String::from_str("April 4, 2025"),
                JobStatus::OA,
                String::from_str("Online assessment received; deadline is April 10"),
                Some(String::from_str("https://careers.google.com/jobs/results/")),
            ),
        );
        r.push(
            Self::new(
                String::from_str("Microsoft"),
                String::from_str("Cloud Solutions Architect"),
                String::from_str("March 28, 2025"),
                JobStatus::Interview,
                String::from_str("First interview scheduled for April 10, 2025"),
                Some(String::from_str("https://careers.microsoft.com/")),
            ),
        );
        r.push(
            Self::new(
                String::from_str("Amazon"),
                String::from_str("Systems Engineer"),
                String::from_str("March 15, 2025"),
                JobStatus::Rejected,
                String::from_str("Received rejection email on April 1, 2025"),
                None,
            ),
        );
        r.push(
            Self::new(
                String::from_str("LinkedIn"),
                String::from_str("DevOps Engineer"),
                String::from_str("March 10, 2025"),
                JobStatus::Offer,
                String::from_str("Offer received: $145K/year + benefits. Need to respond by April 15"),
                Some(String::from_str("https://linkedin.com/jobs/")),
            ),
        );
        r.push(
            Self::new(
                String::from_str("Salesforce"),
                String::from_str("Infrastructure Engineer"),
                String::from_str("February 25, 2025"),
                JobStatus::Accepted,
                String::from_str("Accepted offer on April 2. Start date: May 1, 2025"),
                Some(String::from_str("https://salesforce.com/careers/")),
            ),
        );
        r.push(
            Self::new(
                String::from_str("Twitter"),
                String::from_str("Backend Developer"),
                String::from_str("March 20, 2025"),
                JobStatus::Withdrawn,
                String::from_str("Withdrew application after receiving better offer elsewhere"),
                Some(String::from_str("https://twitter.com/careers/")),
            ),
        );
        r
    }
}

} // verus!
