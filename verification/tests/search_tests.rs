use job_tracker::search::{construct_job_search_url, search_linux_admin_jobs, GoogleCSE};

#[test]
fn browser_url_percent_encodes_the_query() {
    let engine = GoogleCSE::new("partner-pub-123");
    let url = engine.construct_browser_url("linux administrator");
    assert_eq!(url, "https://cse.google.fi/cse?cx=partner-pub-123&q=linux%20administrator");
}

#[test]
fn with_api_key_keeps_the_engine_id() {
    let engine = GoogleCSE::new("partner-pub-123").with_api_key("test-key");
    let url = engine.construct_browser_url("a b");
    assert_eq!(url, "https://cse.google.fi/cse?cx=partner-pub-123&q=a%20b");
}

#[test]
fn job_search_url_wraps_the_title_in_a_site_query() {
    let url = construct_job_search_url("cse-id", "site reliability");
    assert_eq!(
        url,
        "https://cse.google.fi/cse?cx=cse-id&q=site%3Ajobs.%2A%20%22site%20reliability%22",
    );
}

#[test]
fn linux_admin_search_uses_the_fixed_title() {
    assert_eq!(
        search_linux_admin_jobs("cse-id"),
        construct_job_search_url("cse-id", "linux administrator"),
    );
}
