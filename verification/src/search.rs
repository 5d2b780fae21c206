//! Builders for hosted-search links: given a search engine id and a
//! query, the URL that opens that search in a browser. Only the URL
//! construction lives here; issuing the request is the surrounding
//! application's affair.
#![allow(non_snake_case)]
use vstd::prelude::*;

verus! {

/// The percent-encoded form of a query, as `urlencoding::encode`
/// computes it. The encoding depends on the characters alone, so it is a
/// fixed function, left unspecified here.
pub uninterp spec fn url_encoded_of(s: Seq<char>) -> Seq<char>;

/// Relies on `urlencoding::encode`: the result depends on the characters
/// of `s` alone.
#[verifier::external_body]
fn url_encode(s: &str) -> (r: String)
    ensures
        r@ == url_encoded_of(s@),
{
    urlencoding::encode(s).into_owned()
}

/// A handle on one hosted custom search engine.
pub struct GoogleCSE {
    engine_id: String,
    api_key: Option<String>,
}

/// The mathematical value of a search-engine handle.
pub ghost struct GoogleCSEView {
    pub engine_id: Seq<char>,
    pub api_key: Option<Seq<char>>,
}

impl View for GoogleCSE {
    type V = GoogleCSEView;

    closed spec fn view(&self) -> GoogleCSEView {
        GoogleCSEView {
            engine_id: self.engine_id@,
            api_key: match self.api_key {
                Some(k) => Some(k@),
                None => None,
            },
        }
    }
}

/// One result of a hosted search.
pub struct SearchResult {
    pub title: String,
    pub url: String,
    pub content: String,
    pub visibleUrl: String,
}

/// The result counters a hosted search reports.
pub struct CSECursor {
    pub resultCount: String,
    pub estimatedResultCount: String,
    pub searchResultTime: String,
}

/// A whole hosted-search response: its counters and its results.
pub struct CSEResponse {
    pub cursor: CSECursor,
    pub results: Vec<SearchResult>,
}

/// The browser URL for a query against the engine `cx`.
pub open spec fn browser_url(cx: Seq<char>, query: Seq<char>) -> Seq<char> {
    "https://cse.google.fi/cse?cx="@ + cx + "&q="@ + url_encoded_of(query)
}

/// The query text that restricts a job title to job boards.
pub open spec fn job_query(job_title: Seq<char>) -> Seq<char> {
    "site:jobs.* \""@ + job_title + "\""@
}

impl GoogleCSE {
    /// A handle on the engine with the given id, with no API key.
    pub fn new(engine_id: &str) -> (r: Self)
        ensures
            r@.engine_id == engine_id@,
            r@.api_key is None,
    {
        Self { engine_id: String::from_str(engine_id), api_key: None }
    }

    /// The same handle carrying an API key for authenticated requests.
    pub fn with_api_key(self, api_key: &str) -> (r: Self)
        ensures
            r@.engine_id == self@.engine_id,
            r@.api_key == Some(api_key@),
    {
        Self { engine_id: self.engine_id, api_key: Some(String::from_str(api_key)) }
    }

    /// The URL that opens the query on this engine's hosted page; no API
    /// key is needed for it.
    pub fn construct_browser_url(&self, query: &str) -> (r: String)
        ensures
            r@ == browser_url(self@.engine_id, query@),
    {
        let encoded = url_encode(query);
        let mut url = String::from_str("https://cse.google.fi/cse?cx=");
        url.append(self.engine_id.as_str());
        url.append("&q=");
        url.append(encoded.as_str());
        url
    }
}

/// The browser URL for searching a job title on job boards through the
/// engine `cse_id`.
pub fn construct_job_search_url(cse_id: &str, job_title: &str) -> (r: String)
    ensures
        r@ == browser_url(cse_id@, job_query(job_title@)),
{
    let mut query = String::from_str("site:jobs.* \"");
    query.append(job_title);
    query.append("\"");
    let encoded = url_encode(query.as_str());
    let mut url = String::from_str("https://cse.google.fi/cse?cx=");
    url.append(cse_id);
    url.append("&q=");
    url.append(encoded.as_str());
    url
}

/// The browser URL for a Linux administrator job search through the
/// engine `cse_id`.
pub fn search_linux_admin_jobs(cse_id: &str) -> (r: String)
    ensures
        r@ == browser_url(cse_id@, job_query("linux administrator"@)),
{
    construct_job_search_url(cse_id, "linux administrator")
}

} // verus!
