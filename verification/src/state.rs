//! The form buffer, the sort criteria, and the tracker aggregate with its
//! filtered and sorted views.
use vstd::prelude::*;

use crate::clock::now_timestamp;
use crate::data::{storable, valid_record, JobAppView, JobApplication, JobStatus};
use crate::text::{
    chars_of, contains_chars, lemma_lex_lt_asymmetric, lemma_lex_lt_total,
    lemma_lex_lt_transitive, lex_cmp, lex_lt, lowercase, lower_of, seq_contains,
};

verus! {

/// Transient buffer for user input while one record is entered or edited.
#[derive(Debug)]
pub struct FormState {
    pub company: String,
    pub position: String,
    pub date_applied: String,
    pub notes: String,
    pub url: String,
    pub status: Option<JobStatus>,
    pub is_expanded: bool,
}

/// The mathematical value of a form.
#[verifier::ext_equal]
pub ghost struct FormView {
    pub company: Seq<char>,
    pub position: Seq<char>,
    pub date_applied: Seq<char>,
    pub notes: Seq<char>,
    pub url: Seq<char>,
    pub status: Option<JobStatus>,
    pub is_expanded: bool,
}

impl View for FormState {
    type V = FormView;

    open spec fn view(&self) -> FormView {
        FormView {
            company: self.company@,
            position: self.position@,
            date_applied: self.date_applied@,
            notes: self.notes@,
            url: self.url@,
            status: self.status,
            is_expanded: self.is_expanded,
        }
    }
}

/// The form with every text field empty, no status, and the entry pane
/// closed.
pub open spec fn empty_form() -> FormView {
    FormView {
        company: Seq::empty(),
        position: Seq::empty(),
        date_applied: Seq::empty(),
        notes: Seq::empty(),
        url: Seq::empty(),
        status: None,
        is_expanded: false,
    }
}

/// A form may be submitted when company, position and date are non-empty
/// and a status was chosen.
pub open spec fn form_valid(f: FormView) -> bool {
    f.company.len() > 0 && f.position.len() > 0 && f.date_applied.len() > 0 && f.status is Some
}

/// The record a form yields when submitted at time `ts`: an empty url
/// becomes absent, and the update stamp is set to `ts`.
pub open spec fn job_of_form(f: FormView, ts: Seq<char>) -> JobAppView {
    JobAppView {
        company: f.company,
        position: f.position,
        date_applied: f.date_applied,
        status: f.status->0,
        notes: f.notes,
        url: if f.url.len() == 0 {
            None
        } else {
            Some(f.url)
        },
        last_updated: Some(ts),
    }
}

/// The form seeded from an existing record for editing: an absent url
/// becomes the empty string, and the pane opens.
pub open spec fn form_of_job(r: JobAppView) -> FormView {
    FormView {
        company: r.company,
        position: r.position,
        date_applied: r.date_applied,
        notes: r.notes,
        url: match r.url {
            Some(u) => u,
            None => Seq::empty(),
        },
        status: Some(r.status),
        is_expanded: true,
    }
}

impl Default for FormState {
    /// An entirely empty form.
    fn default() -> (r: Self)
        ensures
            r@ == empty_form(),
    {
        let r = FormState {
            company: String::new(),
            position: String::new(),
            date_applied: String::new(),
            notes: String::new(),
            url: String::new(),
            status: None,
            is_expanded: false,
        };
        proof {
            assert(r@ =~= empty_form());
        }
        r
    }
}

impl Clone for FormState {
    fn clone(&self) -> (r: Self)
        ensures
            r@ == self@,
    {
        FormState {
            company: self.company.clone(),
            position: self.position.clone(),
            date_applied: self.date_applied.clone(),
            notes: self.notes.clone(),
            url: self.url.clone(),
            status: self.status,
            is_expanded: self.is_expanded,
        }
    }
}

impl FormState {
    /// Whether the form has all required fields filled.
    pub fn is_valid(&self) -> (r: bool)
        ensures
            r == form_valid(self@),
    {
        !self.company.as_str().is_empty() && !self.position.as_str().is_empty()
            && !self.date_applied.as_str().is_empty()
            && self.status.is_some()
    }

    /// Convert the form into a record, stamping the current time; yields
    /// nothing when the form is not valid.
    pub fn to_job(&self) -> (r: Option<JobApplication>)
        ensures
            r is Some <==> form_valid(self@),
            r is Some ==> exists|ts: Seq<char>|
                #![trigger job_of_form(self@, ts)]
                ts.len() > 0 && r->0@ == job_of_form(self@, ts),
    {
        if !self.is_valid() {
            return None;
        }
        let stamp = now_timestamp();
        let ghost ts = stamp@;
        let job = JobApplication {
            company: self.company.clone(),
            position: self.position.clone(),
            date_applied: self.date_applied.clone(),
            status: match self.status {
                Some(s) => s,
                None => JobStatus::Applied,
            },
            notes: self.notes.clone(),
            url: if self.url.as_str().is_empty() {
                None
            } else {
                Some(self.url.clone())
            },
            last_updated: Some(stamp),
        };
        proof {
            assert(job@ =~= job_of_form(self@, ts));
        }
        Some(job)
    }

    /// Seed a form from an existing record, for editing.
    pub fn from_job(job: &JobApplication) -> (r: Self)
        ensures
            r@ == form_of_job(job@),
    {
        let r = FormState {
            company: job.company.clone(),
            position: job.position.clone(),
            date_applied: job.date_applied.clone(),
            notes: job.notes.clone(),
            url: match &job.url {
                Some(u) => u.clone(),
                None => String::new(),
            },
            status: Some(job.status),
            is_expanded: true,
        };
        proof {
            assert(r@ =~= form_of_job(job@));
        }
        r
    }
}

/// Direction of the active sort.
#[derive(PartialEq, Eq, Structural, Clone, Copy, Debug)]
pub enum SortOrder {
    Ascending,
    Descending,
    Inactive,
}

impl Default for SortOrder {
    /// No sort direction is active at first.
    fn default() -> (r: Self)
        ensures
            r == SortOrder::Inactive,
    {
        SortOrder::Inactive
    }
}

/// Column of the active sort.
#[derive(PartialEq, Eq, Structural, Clone, Copy, Debug)]
pub enum SortColumn {
    Company,
    DateApplied,
    Inactive,
}

impl Default for SortColumn {
    /// No sort column is active at first.
    fn default() -> (r: Self)
        ensures
            r == SortColumn::Inactive,
    {
        SortColumn::Inactive
    }
}

/// How a repeated sort request on the same column advances the direction:
/// ascending, then descending, then none, and around again.
pub open spec fn next_order(o: SortOrder) -> SortOrder {
    match o {
        SortOrder::Ascending => SortOrder::Descending,
        SortOrder::Descending => SortOrder::Inactive,
        SortOrder::Inactive => SortOrder::Ascending,
    }
}

/// Requesting the same sort column three times returns the view to where
/// it started, whatever direction was active.
pub proof fn lemma_sort_order_cycles(o: SortOrder)
    ensures
        next_order(next_order(next_order(o))) == o,
{
}

/// Editing round-trip: the form seeded from a record is valid, and
/// submitting it reproduces the record, only with a fresh update stamp.
/// A record whose url is present but empty is the one exception: the
/// form cannot tell it from an absent url, so it is left out here.
pub proof fn lemma_form_round_trip(r: JobAppView, ts: Seq<char>)
    requires
        valid_record(r),
        r.url != Some(Seq::<char>::empty()),
    ensures
        form_valid(form_of_job(r)),
        job_of_form(form_of_job(r), ts) == (JobAppView { last_updated: Some(ts), ..r }),
{
    match r.url {
        Some(u) => {
            if u.len() == 0 {
                assert(u =~= Seq::<char>::empty());
            }
        },
        None => {},
    }
    assert(job_of_form(form_of_job(r), ts) =~= (JobAppView { last_updated: Some(ts), ..r }));
}

/// The process-lifetime aggregate: the records, the two form buffers, the
/// edit target, the filter, search and sort criteria, and the save flags.
pub struct JobTracker {
    pub jobs: Vec<JobApplication>,
    pub form: FormState,
    pub editing_index: Option<usize>,
    pub edit_form: FormState,
    pub error_message: Option<String>,
    pub last_saved: Option<String>,
    pub search_query: String,
    pub filter_status: Option<JobStatus>,
    pub has_unsaved_changes: bool,
    pub sort_order: SortOrder,
    pub sort_column: SortColumn,
}

/// The mathematical value of the tracker.
#[verifier::ext_equal]
pub ghost struct TrackerView {
    pub jobs: Seq<JobAppView>,
    pub form: FormView,
    pub editing_index: Option<int>,
    pub edit_form: FormView,
    pub error_message: Option<Seq<char>>,
    pub last_saved: Option<Seq<char>>,
    pub search_query: Seq<char>,
    pub filter_status: Option<JobStatus>,
    pub has_unsaved_changes: bool,
    pub sort_order: SortOrder,
    pub sort_column: SortColumn,
}

impl View for JobTracker {
    type V = TrackerView;

    open spec fn view(&self) -> TrackerView {
        TrackerView {
            jobs: self.jobs.deep_view(),
            form: self.form@,
            editing_index: match self.editing_index {
                Some(i) => Some(i as int),
                None => None,
            },
            edit_form: self.edit_form@,
            error_message: match self.error_message {
                Some(m) => Some(m@),
                None => None,
            },
            last_saved: match self.last_saved {
                Some(m) => Some(m@),
                None => None,
            },
            search_query: self.search_query@,
            filter_status: self.filter_status,
            has_unsaved_changes: self.has_unsaved_changes,
            sort_order: self.sort_order,
            sort_column: self.sort_column,
        }
    }
}

/// What every reachable tracker satisfies: stored records never carry the
/// `All` wildcard, and neither form has it selected.
pub open spec fn wf(t: TrackerView) -> bool {
    &&& forall|i: int| 0 <= i < t.jobs.len() ==> storable(#[trigger] t.jobs[i])
    &&& t.form.status != Some(JobStatus::All)
    &&& t.edit_form.status != Some(JobStatus::All)
}

/// The tracker before any records are loaded.
pub open spec fn initial_tracker() -> TrackerView {
    TrackerView {
        jobs: Seq::empty(),
        form: empty_form(),
        editing_index: None,
        edit_form: empty_form(),
        error_message: None,
        last_saved: None,
        search_query: Seq::empty(),
        filter_status: None,
        has_unsaved_changes: false,
        sort_order: SortOrder::Inactive,
        sort_column: SortColumn::Inactive,
    }
}

impl Default for JobTracker {
    /// An empty tracker; the caller loads records into it afterwards.
    fn default() -> (r: Self)
        ensures
            r@ == initial_tracker(),
            wf(r@),
    {
        let r = JobTracker {
            jobs: Vec::new(),
            form: FormState::default(),
            editing_index: None,
            edit_form: FormState::default(),
            error_message: None,
            last_saved: None,
            search_query: String::new(),
            filter_status: None,
            has_unsaved_changes: false,
            sort_order: SortOrder::Inactive,
            sort_column: SortColumn::Inactive,
        };
        proof {
            assert(r@ =~= initial_tracker());
        }
        r
    }
}

/// Whether a record's status passes the status filter: no filter and the
/// `All` wildcard keep everything.
pub open spec fn status_matches(filter: Option<JobStatus>, s: JobStatus) -> bool {
    match filter {
        None => true,
        Some(f) => f == JobStatus::All || s == f,
    }
}

/// Whether a record passes the text search: an empty query keeps
/// everything; otherwise company, position or notes must contain the
/// query, case-insensitively.
pub open spec fn search_matches(r: JobAppView, q: Seq<char>) -> bool {
    ||| q.len() == 0
    ||| seq_contains(lower_of(r.company), lower_of(q))
    ||| seq_contains(lower_of(r.position), lower_of(q))
    ||| seq_contains(lower_of(r.notes), lower_of(q))
}

/// Whether a record survives both filters.
pub open spec fn visible(r: JobAppView, filter: Option<JobStatus>, q: Seq<char>) -> bool {
    status_matches(filter, r.status) && search_matches(r, q)
}

/// The views of a vector of index-record pairs.
pub open spec fn pair_views(s: Seq<(usize, JobApplication)>) -> Seq<(int, JobAppView)> {
    s.map_values(|p: (usize, JobApplication)| (p.0 as int, p.1@))
}

/// The visible records among the first `n`, each paired with its position
/// in the full collection, in insertion order.
pub open spec fn filtered_upto(
    jobs: Seq<JobAppView>,
    filter: Option<JobStatus>,
    q: Seq<char>,
    n: int,
) -> Seq<(int, JobAppView)>
    decreases n,
{
    if n <= 0 {
        Seq::empty()
    } else {
        let rest = filtered_upto(jobs, filter, q, n - 1);
        if visible(jobs[n - 1], filter, q) {
            rest.push((n - 1, jobs[n - 1]))
        } else {
            rest
        }
    }
}

/// The filtered projection of the whole tracker, in insertion order.
pub open spec fn visible_records(t: TrackerView) -> Seq<(int, JobAppView)> {
    filtered_upto(t.jobs, t.filter_status, t.search_query, t.jobs.len() as int)
}

impl JobTracker {
    /// The records that pass the status filter and the text search, each
    /// paired with its position in the full collection, in insertion
    /// order.
    pub fn filtered_jobs(&self) -> (r: Vec<(usize, JobApplication)>)
        ensures
            pair_views(r@) == visible_records(self@),
    {
        let q_low = lowercase(self.search_query.as_str());
        let q_chars = chars_of(q_low.as_str());
        let mut r: Vec<(usize, JobApplication)> = Vec::new();
        let mut i: usize = 0;
        while i < self.jobs.len()
            invariant
                i <= self.jobs.len(),
                q_chars@ == lower_of(self.search_query@),
                pair_views(r@) == filtered_upto(
                    self@.jobs,
                    self@.filter_status,
                    self@.search_query,
                    i as int,
                ),
            decreases self.jobs.len() - i,
        {
            let job = &self.jobs[i];
            let status_ok = match self.filter_status {
                None => true,
                Some(f) => matches!(f, JobStatus::All) || job.status == f,
            };
            let search_ok = if self.search_query.as_str().is_empty() {
                true
            } else {
                let company_low = lowercase(job.company.as_str());
                let position_low = lowercase(job.position.as_str());
                let notes_low = lowercase(job.notes.as_str());
                contains_chars(&chars_of(company_low.as_str()), &q_chars) || contains_chars(
                    &chars_of(position_low.as_str()),
                    &q_chars,
                ) || contains_chars(&chars_of(notes_low.as_str()), &q_chars)
            };
            proof {
                assert(status_ok == status_matches(self@.filter_status, self@.jobs[i as int].status));
                assert(search_ok == search_matches(self@.jobs[i as int], self@.search_query));
            }
            if status_ok && search_ok {
                r.push((i, job.clone()));
                proof {
                    assert(pair_views(r@) =~= filtered_upto(
                        self@.jobs,
                        self@.filter_status,
                        self@.search_query,
                        i + 1,
                    ));
                }
            } else {
                proof {
                    assert(pair_views(r@) =~= filtered_upto(
                        self@.jobs,
                        self@.filter_status,
                        self@.search_query,
                        i + 1,
                    ));
                }
            }
            i += 1;
        }
        r
    }
}

/// The key a record is sorted by under the given column: the lowercased
/// company name, or the raw date text.
pub open spec fn sort_key(col: SortColumn, r: JobAppView) -> Seq<char> {
    if col == SortColumn::Company {
        lower_of(r.company)
    } else {
        r.date_applied
    }
}

/// Whether the pair `a` may stand before the pair `b` in the sorted view:
/// strictly smaller key in the active direction, or equal keys with the
/// original positions in order (the sort is stable).
pub open spec fn pair_le(
    col: SortColumn,
    ord: SortOrder,
    a: (int, JobAppView),
    b: (int, JobAppView),
) -> bool {
    let ka = sort_key(col, a.1);
    let kb = sort_key(col, b.1);
    if ord == SortOrder::Ascending {
        lex_lt(ka, kb) || (ka == kb && a.0 <= b.0)
    } else {
        lex_lt(kb, ka) || (ka == kb && a.0 <= b.0)
    }
}

/// Every pair of positions is ordered.
pub open spec fn sorted_pairs(
    s: Seq<(int, JobAppView)>,
    col: SortColumn,
    ord: SortOrder,
) -> bool {
    forall|i: int, j: int| 0 <= i < j < s.len() ==> pair_le(col, ord, s[i], s[j])
}

/// Any two pairs are ordered one way or the other.
pub proof fn lemma_pair_le_total(
    col: SortColumn,
    ord: SortOrder,
    a: (int, JobAppView),
    b: (int, JobAppView),
)
    ensures
        pair_le(col, ord, a, b) || pair_le(col, ord, b, a),
{
    lemma_lex_lt_total(sort_key(col, a.1), sort_key(col, b.1));
}

/// The pair order is transitive.
pub proof fn lemma_pair_le_transitive(
    col: SortColumn,
    ord: SortOrder,
    a: (int, JobAppView),
    b: (int, JobAppView),
    c: (int, JobAppView),
)
    requires
        pair_le(col, ord, a, b),
        pair_le(col, ord, b, c),
    ensures
        pair_le(col, ord, a, c),
{
    let ka = sort_key(col, a.1);
    let kb = sort_key(col, b.1);
    let kc = sort_key(col, c.1);
    if ord == SortOrder::Ascending {
        if lex_lt(ka, kb) && lex_lt(kb, kc) {
            lemma_lex_lt_transitive(ka, kb, kc);
        }
    } else {
        if lex_lt(kc, kb) && lex_lt(kb, ka) {
            lemma_lex_lt_transitive(kc, kb, ka);
        }
    }
}

/// Inserting an element into a sequence adds exactly it to the multiset
/// of elements.
proof fn lemma_insert_to_multiset<A>(s: Seq<A>, p: int, x: A)
    requires
        0 <= p <= s.len(),
    ensures
        s.insert(p, x).to_multiset() == s.to_multiset().insert(x),
{
    broadcast use vstd::seq_lib::group_to_multiset_ensures;

    let pre = s.subrange(0, p);
    let post = s.subrange(p, s.len() as int);
    vstd::seq_lib::lemma_multiset_commutative(pre.push(x), post);
    vstd::seq_lib::lemma_multiset_commutative(pre, post);
    assert(s =~= pre + post);
    assert(pre.push(x).to_multiset() =~= pre.to_multiset().insert(x));
    assert(s.insert(p, x).to_multiset() =~= s.to_multiset().insert(x));
}

/// Exec counterpart of [`pair_le`]: whether `a` may stand before `b`.
fn pair_before(
    col: SortColumn,
    ord: SortOrder,
    a: &(usize, JobApplication),
    b: &(usize, JobApplication),
) -> (r: bool)
    requires
        col != SortColumn::Inactive,
        ord != SortOrder::Inactive,
    ensures
        r == pair_le(col, ord, (a.0 as int, a.1@), (b.0 as int, b.1@)),
{
    let ka = if matches!(col, SortColumn::Company) {
        chars_of(lowercase(a.1.company.as_str()).as_str())
    } else {
        chars_of(a.1.date_applied.as_str())
    };
    let kb = if matches!(col, SortColumn::Company) {
        chars_of(lowercase(b.1.company.as_str()).as_str())
    } else {
        chars_of(b.1.date_applied.as_str())
    };
    proof {
        lemma_lex_lt_asymmetric(ka@, kb@);
    }
    match lex_cmp(&ka, &kb) {
        core::cmp::Ordering::Less => matches!(ord, SortOrder::Ascending),
        core::cmp::Ordering::Greater => !matches!(ord, SortOrder::Ascending),
        core::cmp::Ordering::Equal => a.0 <= b.0,
    }
}

impl JobTracker {
    /// The filtered records, sorted when a sort is active: by the active
    /// column's key in the active direction, records with equal keys
    /// staying in insertion order. With no active sort, insertion order.
    pub fn sorted_jobs(&self) -> (r: Vec<(usize, JobApplication)>)
        ensures
            (self@.sort_order == SortOrder::Inactive || self@.sort_column == SortColumn::Inactive)
                ==> pair_views(r@) == visible_records(self@),
            (self@.sort_order != SortOrder::Inactive && self@.sort_column != SortColumn::Inactive)
                ==> pair_views(r@).to_multiset() == visible_records(self@).to_multiset()
                    && sorted_pairs(pair_views(r@), self@.sort_column, self@.sort_order),
            pair_views(r@).len() == visible_records(self@).len(),
    {
        let v = self.filtered_jobs();
        if matches!(self.sort_order, SortOrder::Inactive) || matches!(
            self.sort_column,
            SortColumn::Inactive,
        ) {
            return v;
        }
        let col = self.sort_column;
        let ord = self.sort_order;
        let ghost base = pair_views(v@);
        let mut out: Vec<(usize, JobApplication)> = Vec::new();
        let mut i: usize = 0;
        proof {
            assert(pair_views(out@) =~= base.take(0));
        }
        while i < v.len()
            invariant
                i <= v.len(),
                col == self@.sort_column,
                ord == self@.sort_order,
                col != SortColumn::Inactive,
                ord != SortOrder::Inactive,
                base == pair_views(v@),
                pair_views(out@).to_multiset() == base.take(i as int).to_multiset(),
                sorted_pairs(pair_views(out@), col, ord),
            decreases v.len() - i,
        {
            let x = (v[i].0, v[i].1.clone());
            let ghost xv = (x.0 as int, x.1@);
            proof {
                assert(xv == base[i as int]);
            }
            let mut p: usize = 0;
            while p < out.len() && pair_before(col, ord, &out[p], &x)
                invariant
                    p <= out.len(),
                    col != SortColumn::Inactive,
                    ord != SortOrder::Inactive,
                    xv == (x.0 as int, x.1@),
                    forall|k: int| 0 <= k < p ==> pair_le(col, ord, pair_views(out@)[k], xv),
                decreases out.len() - p,
            {
                p += 1;
            }
            proof {
                let ov = pair_views(out@);
                if p < out.len() {
                    lemma_pair_le_total(col, ord, ov[p as int], xv);
                }
                assert forall|k: int| p <= k < ov.len() implies pair_le(col, ord, xv, ov[k]) by {
                    if k > p {
                        lemma_pair_le_transitive(col, ord, xv, ov[p as int], ov[k]);
                    }
                }
            }
            let ghost old_out = pair_views(out@);
            out.insert(p, x);
            i += 1;
            proof {
                assert(pair_views(out@) =~= old_out.insert(p as int, xv));
                lemma_insert_to_multiset(old_out, p as int, xv);
                broadcast use vstd::seq_lib::group_to_multiset_ensures;

                assert(base.take(i as int) =~= base.take(i - 1).push(xv));
                let nv = pair_views(out@);
                assert forall|a: int, b: int| 0 <= a < b < nv.len() implies pair_le(
                    col,
                    ord,
                    nv[a],
                    nv[b],
                ) by {
                    old_out.insert_ensures(p as int, xv);
                    if b < p {
                    } else if a < p && b == p {
                        assert(nv[a] == old_out[a]);
                    } else if a < p && b > p {
                        assert(nv[b] == old_out[b - 1]);
                    } else if a == p && b > p {
                        assert(nv[b] == old_out[b - 1]);
                    } else {
                        assert(nv[a] == old_out[a - 1] && nv[b] == old_out[b - 1]);
                    }
                }
            }
        }
        proof {
            assert(base.take(v@.len() as int) =~= base);
            broadcast use vstd::seq_lib::group_to_multiset_ensures;

            assert(pair_views(out@).to_multiset().len() == pair_views(out@).len());
            assert(base.to_multiset().len() == base.len());
            assert(pair_views(out@).len() == visible_records(self@).len());
        }
        out
    }
}

} // verus!
