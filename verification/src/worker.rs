//! The background workers: what they claim, what each kind of job does, how stalled
//! jobs are recovered, and how webhooks are delivered.

use crate::api::GROUP_TTL_MS;
use crate::config::WorkerConfig;
use crate::extracting::{
    add_extraction, before_extraction, extraction_request, or_default, page_text, with_extraction,
};
use crate::ident::{uuid_text, uuid_to_text};
use crate::json::{
    get_in, json_number, json_text, json_text_array, lemma_member_at, lemma_object_view, member_views,
    opt_json_clone, opt_json_view, text_array, Json, JsonView,
};
use crate::llm::{ExtractionRequest, ExtractionResult};
use crate::models::{
    formats_clone, page_job, page_job_of, AppError, AppErrorView, BatchScrapeJobData, CrawlJobData,
    ExtractJobData, ExtractOptions, JobEnvelope, OutputFormat, ScrapeJobData, ScrapeJobView,
    ScrapeMetadataView, ScrapeResult, ScrapeResultView, WebhookConfig,
};
use crate::text::{
    holds_text, join, join_strings, opt_clone, opt_view, prefix, same_text, views,
};
use crate::weburl::{host_is_local, is_local_host, parse_url, parsed_url, UrlView};
use vstd::prelude::*;

verus! {

// ---------------------------------------------------------------------------
// The pool
// ---------------------------------------------------------------------------

/// The pool of workers.
#[derive(Debug)]
pub struct WorkerPool {
    pub cfg: WorkerConfig,
    pub allow_local_webhooks: bool,
}

impl WorkerPool {
    /// A pool as `cfg` describes.
    pub fn new(cfg: WorkerConfig, allow_local_webhooks: bool) -> (r: Self)
        ensures
            r.cfg == cfg,
            r.allow_local_webhooks == allow_local_webhooks,
    {
        WorkerPool { cfg, allow_local_webhooks }
    }

    /// The ids of the workers that the pool begins with: one after the other, from
    /// zero.
    pub fn run(&self) -> (r: Vec<u32>)
        ensures
            r@ == Seq::new(self.cfg.num_workers as nat, |i: int| i as u32),
    {
        let mut ids: Vec<u32> = Vec::new();
        let mut next_id: u32 = 0;
        while next_id < self.cfg.num_workers
            invariant
                next_id <= self.cfg.num_workers,
                ids@ == Seq::new(next_id as nat, |i: int| i as u32),
            decreases self.cfg.num_workers - next_id,
        {
            ids.push(next_id);
            next_id = next_id + 1;
            assert(ids@ =~= Seq::new(next_id as nat, |i: int| i as u32));
        }
        ids
    }
}

/// The ids of the workers that are left when the one at `dead` has ended: where it
/// stood, the last one stands.
pub open spec fn surviving(ids: Seq<u32>, dead: int) -> Seq<u32> {
    if dead == ids.len() - 1 {
        ids.drop_last()
    } else {
        ids.drop_last().update(dead, ids.last())
    }
}

/// The ids of the workers that are left when the one at `dead` has ended, in the order
/// in which their tasks are left.
pub fn surviving_ids(ids: &Vec<u32>, dead: usize) -> (r: Vec<u32>)
    requires
        dead < ids@.len(),
    ensures
        r@ == surviving(ids@, dead as int),
{
    let last: usize = ids.len() - 1;
    let mut r: Vec<u32> = Vec::new();
    let mut i: usize = 0;
    while i < last
        invariant
            i <= last == ids@.len() - 1,
            dead < ids@.len(),
            r@ == surviving(ids@, dead as int).take(i as int),
        decreases last - i,
    {
        if i == dead {
            r.push(ids[last]);
        } else {
            r.push(ids[i]);
        }
        i = i + 1;
        assert(surviving(ids@, dead as int).take(i as int) =~= surviving(
            ids@,
            dead as int,
        ).take(i - 1).push(surviving(ids@, dead as int)[i - 1]));
    }
    assert(surviving(ids@, dead as int).take(last as int) =~= surviving(ids@, dead as int));
    r
}

/// A worker that is started again keeps its id: those of the survivors and its own are
/// the ids there were before, each once.
pub proof fn law_ids_are_stable(ids: Seq<u32>, dead: int)
    requires
        0 <= dead < ids.len(),
    ensures
        surviving(ids, dead).push(ids[dead]).to_multiset() == ids.to_multiset(),
{
    broadcast use vstd::seq_lib::group_to_multiset_ensures;

    let before = ids.drop_last();
    assert(before.push(ids.last()) =~= ids);
    if dead < ids.len() - 1 {
        assert(before.update(dead, ids.last()) =~= before.remove(dead).insert(dead, ids.last()));
        vstd::seq_lib::to_multiset_remove(before, dead);
        vstd::seq_lib::to_multiset_insert(before.remove(dead), dead, ids.last());
        assert(before.contains(before[dead]));
    }
    assert(surviving(ids, dead).push(ids[dead]).to_multiset() =~= ids.to_multiset());
}

// ---------------------------------------------------------------------------
// Stalled jobs
// ---------------------------------------------------------------------------

/// After how many seconds a claimed job counts as stalled: half a minute after its time
/// is up.
pub fn stale_after_seconds(cfg: &WorkerConfig) -> (r: u64)
    requires
        cfg.job_timeout_seconds <= u64::MAX - 30,
    ensures
        r == cfg.job_timeout_seconds + 30,
{
    cfg.job_timeout_seconds + 30
}

/// How often a job may stall, as the database takes it.
pub fn stall_limit(cfg: &WorkerConfig) -> (r: i32)
    ensures
        cfg.max_stalls <= i32::MAX ==> r == cfg.max_stalls,
        cfg.max_stalls > i32::MAX ==> r == cfg.max_stalls - 0x1_0000_0000,
{
    if cfg.max_stalls <= i32::MAX as u32 {
        cfg.max_stalls as i32
    } else {
        (cfg.max_stalls as i64 - 0x1_0000_0000) as i32
    }
}

/// The recovery of stalled jobs: how long it pauses when the database fails.
#[derive(Debug, Clone, Copy)]
pub struct StallRecovery {
    pub backoff_seconds: u64,
}

/// What the recovery does after it has queued stalled jobs again.
#[derive(Debug, Clone, Copy, PartialEq, Eq, Structural)]
pub enum RecoveryStep {
    /// It fails the jobs that stalled too often.
    FailOver,
    /// The database failed; it pauses.
    Pause { seconds: u64 },
}

impl StallRecovery {
    /// A pause is between two seconds and two minutes long.
    pub open spec fn wf(self) -> bool {
        2 <= self.backoff_seconds <= 120
    }

    /// The first pause is two seconds long.
    pub fn new() -> (r: Self)
        ensures
            r.backoff_seconds == 2,
            r.wf(),
    {
        StallRecovery { backoff_seconds: 2 }
    }

    /// Takes whether stalled jobs could be queued again. Each failure in a row doubles the
    /// pause, up to two minutes; a success brings it back to two seconds.
    pub fn requeued(&mut self, ok: bool) -> (r: RecoveryStep)
        requires
            old(self).wf(),
        ensures
            final(self).wf(),
            if ok {
                r == RecoveryStep::FailOver && final(self).backoff_seconds == 2
            } else {
                &&& r == (RecoveryStep::Pause { seconds: old(self).backoff_seconds })
                &&& final(self).backoff_seconds == (if old(self).backoff_seconds * 2 <= 120 {
                    old(self).backoff_seconds * 2
                } else {
                    120
                })
            },
    {
        if ok {
            self.backoff_seconds = 2;
            return RecoveryStep::FailOver;
        }
        let seconds: u64 = self.backoff_seconds;
        self.backoff_seconds = if seconds * 2 <= 120 {
            seconds * 2
        } else {
            120
        };
        RecoveryStep::Pause { seconds }
    }
}

// ---------------------------------------------------------------------------
// One worker
// ---------------------------------------------------------------------------

/// What came of claiming a job.
#[derive(Debug)]
pub enum Claim {
    Nothing,
    /// A job, with what it is to do, where that could be read.
    Job(Option<JobEnvelope>),
    Failed,
}

/// What a worker does next.
#[derive(Debug)]
pub enum WorkerStep {
    Pause { milliseconds: u64 },
    Execute { envelope: JobEnvelope, timeout_seconds: u64 },
    Fail { reason: String },
}

/// What a worker does after it has tried to claim a job.
pub fn claimed(cfg: &WorkerConfig, claim: Claim) -> (r: WorkerStep)
    ensures
        match claim {
            Claim::Nothing => r == (WorkerStep::Pause { milliseconds: 500 }),
            Claim::Job(Some(envelope)) => r == (WorkerStep::Execute {
                envelope,
                timeout_seconds: cfg.job_timeout_seconds,
            }),
            Claim::Job(None) => r matches WorkerStep::Fail { reason } && reason@
                == "invalid job envelope"@,
            Claim::Failed => r == (WorkerStep::Pause { milliseconds: 2000 }),
        },
{
    match claim {
        Claim::Nothing => WorkerStep::Pause { milliseconds: 500 },
        Claim::Job(Some(envelope)) => WorkerStep::Execute {
            envelope,
            timeout_seconds: cfg.job_timeout_seconds,
        },
        Claim::Job(None) => WorkerStep::Fail { reason: "invalid job envelope".to_owned() },
        Claim::Failed => WorkerStep::Pause { milliseconds: 2000 },
    }
}

/// What came of a job.
#[derive(Debug)]
pub enum JobOutcome {
    Done,
    Failed(AppError),
    TimedOut,
}

/// Why a job is marked as failed, if it is.
pub open spec fn reason_of(outcome: JobOutcome) -> Option<Seq<char>> {
    match outcome {
        JobOutcome::Done => None,
        JobOutcome::Failed(e) => Some(e@.message()),
        JobOutcome::TimedOut => Some("job timeout"@),
    }
}

/// Why a job is marked as failed, if it is.
pub fn failure_reason(outcome: &JobOutcome) -> (r: Option<String>)
    ensures
        opt_view(r) == reason_of(*outcome),
        match *outcome {
            JobOutcome::Done => r is None,
            JobOutcome::Failed(e) => r matches Some(t) && t@ == e@.message(),
            JobOutcome::TimedOut => r matches Some(t) && t@ == "job timeout"@,
        },
{
    match outcome {
        JobOutcome::Done => None,
        JobOutcome::Failed(e) => Some(e.message()),
        JobOutcome::TimedOut => Some("job timeout".to_owned()),
    }
}

/// Whether a worker does the job at all: listing URLs is done while the request waits,
/// and is no job for a worker.
pub fn execute(envelope: &JobEnvelope) -> (r: Result<(), AppError>)
    ensures
        if envelope is UrlMap {
            r matches Err(e) && e@ == AppErrorView::BadRequest(
                "map jobs are synchronous and must not be enqueued"@,
            )
        } else {
            r is Ok
        },
{
    match envelope {
        JobEnvelope::UrlMap(_) => Err(
            AppError::BadRequest("map jobs are synchronous and must not be enqueued".to_owned()),
        ),
        _ => Ok(()),
    }
}

/// The causes of an error, one behind the other; `none` where there are none.
pub open spec fn chained(causes: Seq<Seq<char>>, none: Seq<char>) -> Seq<char> {
    if causes.len() == 0 {
        none
    } else {
        join(causes, " -> "@)
    }
}

/// The causes of an error, one behind the other.
pub fn error_chain(causes: &Vec<String>) -> (r: String)
    ensures
        r@ == chained(views(causes@), "(no further cause)"@),
        causes@.len() == 0 ==> r@ == "(no further cause)"@,
        causes@.len() > 0 ==> r@ == join(views(causes@), " -> "@),
{
    if causes.len() == 0 {
        "(no further cause)".to_owned()
    } else {
        join_strings(causes, " -> ")
    }
}

/// The causes of an error as they stand behind its text.
pub fn cause_suffix(causes: &Vec<String>) -> (r: String)
    ensures
        r@ == (if causes@.len() == 0 {
            Seq::empty()
        } else {
            " -> "@ + join(views(causes@), " -> "@)
        }),
{
    if causes.len() == 0 {
        String::new()
    } else {
        let all = join_strings(causes, " -> ");
        " -> ".to_owned().concat(all.as_str())
    }
}

/// The text of the error that the database cannot be reached at the start.
pub fn connectivity_error(error: &str, causes: &Vec<String>) -> (r: String)
    ensures
        r@ == "Database connectivity check failed: "@ + error@
            + "\nHint: verify POSTGRES_* env vars are correct, postgresql@17 is running, and shared_preload_libraries = 'timescaledb' is set in postgresql.conf (run `just install` to configure this automatically).\nCause chain: "@
            + chained(views(causes@), "(no further cause)"@),
{
    let chain = error_chain(causes);
    "Database connectivity check failed: ".to_owned().concat(error).concat(
        "\nHint: verify POSTGRES_* env vars are correct, postgresql@17 is running, and shared_preload_libraries = 'timescaledb' is set in postgresql.conf (run `just install` to configure this automatically).\nCause chain: ",
    ).concat(chain.as_str())
}

// ---------------------------------------------------------------------------
// What a job leaves behind
// ---------------------------------------------------------------------------

/// One thing that a job does once its pages are scraped, or once it has failed. A step
/// that fails ends the job, unless it is a notification or marks a failure.
#[derive(Debug)]
pub enum JobStep {
    /// A page is stored in a group, as a job that is done, with a priority.
    StorePage { group_id: u128, priority: i32, data: Json, result: Json },
    /// A group is marked as completed.
    FinishGroup { group_id: u128 },
    /// The job is marked as completed.
    Complete { result: Json },
    /// The job is marked as failed.
    Fail { reason: String },
    /// A webhook is sent.
    Notify { url: String, payload: Json },
}

/// The mathematical value of a `JobStep`.
pub enum StepView {
    StorePage { group_id: u128, priority: i32, data: JsonView, result: JsonView },
    FinishGroup { group_id: u128 },
    Complete { result: JsonView },
    Fail { reason: Seq<char> },
    Notify { url: Seq<char>, payload: JsonView },
}

impl View for JobStep {
    type V = StepView;

    open spec fn view(&self) -> StepView {
        match self {
            JobStep::StorePage { group_id, priority, data, result } => StepView::StorePage {
                group_id: *group_id,
                priority: *priority,
                data: data@,
                result: result@,
            },
            JobStep::FinishGroup { group_id } => StepView::FinishGroup { group_id: *group_id },
            JobStep::Complete { result } => StepView::Complete { result: result@ },
            JobStep::Fail { reason } => StepView::Fail { reason: reason@ },
            JobStep::Notify { url, payload } => StepView::Notify { url: url@, payload: payload@ },
        }
    }
}

/// The values of a sequence of steps.
pub open spec fn step_views(v: Seq<JobStep>) -> Seq<StepView> {
    v.map_values(|s: JobStep| s@)
}

/// A page that was scraped: its URL, and its result as JSON.
#[derive(Debug)]
pub struct ScrapedPage {
    pub url: String,
    pub result: Json,
}

/// The mathematical value of a `ScrapedPage`.
pub struct PageView {
    pub url: Seq<char>,
    pub result: JsonView,
}

impl View for ScrapedPage {
    type V = PageView;

    open spec fn view(&self) -> PageView {
        PageView { url: self.url@, result: self.result@ }
    }
}

/// The values of a sequence of pages.
pub open spec fn page_views(v: Seq<ScrapedPage>) -> Seq<PageView> {
    v.map_values(|p: ScrapedPage| p@)
}

/// What is stored of a page as the data of its job.
pub open spec fn page_data(url: Seq<char>) -> JsonView {
    JsonView::Object(
        seq![
            ("kind"@, JsonView::Text("scrape"@)),
            (
                "payload"@,
                JsonView::Object(
                    seq![
                        ("url"@, JsonView::Text(url)),
                        ("formats"@, text_array(seq!["markdown"@])),
                    ],
                ),
            ),
        ],
    )
}

fn page_data_of(url: &str) -> (r: Json)
    ensures
        r@ == page_data(url@),
{
    let formats = vec!["markdown".to_owned()];
    assert(views(formats@) =~= seq!["markdown"@]);
    let payload = vec![
        ("url".to_owned(), json_text(url)),
        ("formats".to_owned(), json_text_array(&formats)),
    ];
    proof {
        lemma_object_view(payload);
        assert(member_views(payload@) =~= seq![
            ("url"@, JsonView::Text(url@)),
            ("formats"@, text_array(seq!["markdown"@])),
        ]);
    }
    let members = vec![
        ("kind".to_owned(), json_text("scrape")),
        ("payload".to_owned(), Json::Object(payload)),
    ];
    proof {
        lemma_object_view(members);
        assert(member_views(members@) =~= page_data(url@)->Object_0);
    }
    Json::Object(members)
}

/// The step that stores a page of a job with a priority, in the group of the job.
pub open spec fn store_step(page: PageView, group_id: u128, priority: i32) -> StepView {
    StepView::StorePage { group_id, priority, data: page_data(page.url), result: page.result }
}

/// The steps that store pages, in order.
pub open spec fn store_steps(pages: Seq<PageView>, group_id: u128, priority: i32) -> Seq<StepView> {
    pages.map_values(|p: PageView| store_step(p, group_id, priority))
}

/// The step that stores a page of a crawl or a batch.
pub fn store_page(page: &ScrapedPage, group_id: u128, priority: i32) -> (r: JobStep)
    ensures
        r@ == store_step(page@, group_id, priority),
{
    JobStep::StorePage {
        group_id,
        priority,
        data: page_data_of(page.url.as_str()),
        result: page.result.clone(),
    }
}

/// What a crawl or a batch leaves as its own result.
pub open spec fn group_result(total: nat, group_id: u128) -> JsonView {
    JsonView::Object(
        seq![
            ("total"@, JsonView::Unsigned(total as u64)),
            ("group_id"@, JsonView::Text(uuid_text(group_id))),
        ],
    )
}

fn group_result_of(total: usize, group_id: u128) -> (r: Json)
    ensures
        r@ == group_result(total as nat, group_id),
{
    let group = uuid_to_text(group_id);
    let members = vec![
        ("total".to_owned(), json_number(total as u64)),
        ("group_id".to_owned(), json_text(group.as_str())),
    ];
    proof {
        lemma_object_view(members);
        assert(member_views(members@) =~= group_result(total as nat, group_id)->Object_0);
    }
    Json::Object(members)
}

/// A webhook wants to hear of an event: it lists the event. One that lists none wants to
/// hear of the start and of the end.
pub open spec fn wants(webhook: WebhookConfig, event: Seq<char>) -> bool {
    if webhook.events@.len() == 0 {
        event == "started"@ || event == "completed"@
    } else {
        views(webhook.events@).contains(event)
    }
}

/// Where an event is sent to, if it is.
pub open spec fn hook_for(webhook: Option<WebhookConfig>, event: Seq<char>) -> Option<Seq<char>> {
    match webhook {
        Some(w) => if wants(w, event) {
            Some(w.url@)
        } else {
            None
        },
        None => None,
    }
}

/// Where an event is sent to, if it is.
fn hook_for_event(webhook: &Option<WebhookConfig>, event: &str) -> (r: Option<String>)
    ensures
        opt_view(r) == hook_for(*webhook, event@),
{
    match webhook {
        Some(w) => {
            let wanted = if w.events.len() == 0 {
                same_text(event, "started") || same_text(event, "completed")
            } else {
                holds_text(&w.events, event)
            };
            if wanted {
                Some(w.url.clone())
            } else {
                None
            }
        },
        None => None,
    }
}

/// A notification, where there is somewhere to send it.
pub open spec fn notify(url: Option<Seq<char>>, payload: JsonView) -> Seq<StepView> {
    match url {
        Some(u) => seq![StepView::Notify { url: u, payload }],
        None => Seq::empty(),
    }
}

// ---------------------------------------------------------------------------
// Jobs that fail
// ---------------------------------------------------------------------------

/// What is sent when a crawl or a batch has failed: `event` says which of them.
pub open spec fn failed_payload(event: Seq<char>, job_id: u128, reason: Seq<char>) -> JsonView {
    JsonView::Object(
        seq![
            ("type"@, JsonView::Text(event)),
            ("job_id"@, JsonView::Text(uuid_text(job_id))),
            ("error"@, JsonView::Text(reason)),
        ],
    )
}

/// The notification that a job has failed, where it is a crawl or a batch whose webhook
/// wants to hear of that. Other jobs have no webhook with events.
pub open spec fn failed_notice(envelope: JobEnvelope, job_id: u128, reason: Seq<char>) -> Seq<
    StepView,
> {
    match envelope {
        JobEnvelope::Crawl(job) => notify(
            hook_for(job.webhook, "failed"@),
            failed_payload("crawl.failed"@, job_id, reason),
        ),
        JobEnvelope::BatchScrape(job) => notify(
            hook_for(job.webhook, "failed"@),
            failed_payload("batch_scrape.failed"@, job_id, reason),
        ),
        _ => Seq::empty(),
    }
}

/// What is done once a job has come to an outcome: one that has failed is marked as
/// failed, and its webhook hears of it.
pub open spec fn outcome_steps(envelope: JobEnvelope, job_id: u128, outcome: JobOutcome) -> Seq<
    StepView,
> {
    match reason_of(outcome) {
        Some(reason) => seq![StepView::Fail { reason }] + failed_notice(envelope, job_id, reason),
        None => Seq::empty(),
    }
}

fn failed_payload_of(event: &str, job_id: u128, reason: &str) -> (r: Json)
    ensures
        r@ == failed_payload(event@, job_id, reason@),
{
    let id = uuid_to_text(job_id);
    let members = vec![
        ("type".to_owned(), json_text(event)),
        ("job_id".to_owned(), json_text(id.as_str())),
        ("error".to_owned(), json_text(reason)),
    ];
    proof {
        lemma_object_view(members);
        assert(member_views(members@) =~= failed_payload(event@, job_id, reason@)->Object_0);
    }
    Json::Object(members)
}

/// What is done once a job has come to an outcome.
pub fn job_ended(envelope: &JobEnvelope, job_id: u128, outcome: &JobOutcome) -> (r: Vec<JobStep>)
    ensures
        step_views(r@) == outcome_steps(*envelope, job_id, *outcome),
{
    let mut steps: Vec<JobStep> = Vec::new();
    if let Some(reason) = failure_reason(outcome) {
        let told = match envelope {
            JobEnvelope::Crawl(job) => match hook_for_event(&job.webhook, "failed") {
                Some(url) => Some((url, failed_payload_of("crawl.failed", job_id, reason.as_str()))),
                None => None,
            },
            JobEnvelope::BatchScrape(job) => match hook_for_event(&job.webhook, "failed") {
                Some(url) => Some(
                    (url, failed_payload_of("batch_scrape.failed", job_id, reason.as_str())),
                ),
                None => None,
            },
            _ => None,
        };
        steps.push(JobStep::Fail { reason });
        if let Some((url, payload)) = told {
            steps.push(JobStep::Notify { url, payload });
        }
    }
    assert(step_views(steps@) =~= outcome_steps(*envelope, job_id, *outcome));
    steps
}

/// A job that has failed is marked as failed, once and first, and one that has not is not.
pub proof fn law_failures_are_marked(envelope: JobEnvelope, job_id: u128, outcome: JobOutcome)
    ensures
        outcome is Done <==> outcome_steps(envelope, job_id, outcome).len() == 0,
        !(outcome is Done) ==> outcome_steps(envelope, job_id, outcome)[0] == (StepView::Fail {
            reason: reason_of(outcome)->0,
        }),
        forall|i: int|
            0 < i < outcome_steps(envelope, job_id, outcome).len() ==> (
            #[trigger] outcome_steps(envelope, job_id, outcome)[i]) is Notify,
{
}

// ---------------------------------------------------------------------------
// Scrape
// ---------------------------------------------------------------------------

/// What is sent when a page was scraped.
pub open spec fn scrape_completed(job_id: u128, result: JsonView) -> JsonView {
    JsonView::Object(
        seq![
            ("type"@, JsonView::Text("scrape.completed"@)),
            ("job_id"@, JsonView::Text(uuid_text(job_id))),
            ("data"@, result),
        ],
    )
}

/// What a job that scrapes one page does with its result.
pub fn run_scrape(job: &ScrapeJobData, job_id: u128, result: Json) -> (r: Vec<JobStep>)
    ensures
        step_views(r@) == seq![StepView::Complete { result: result@ }] + notify(
            opt_view(job.webhook),
            scrape_completed(job_id, result@),
        ),
        r@.len() == (if job.webhook is Some {
            2nat
        } else {
            1nat
        }),
        r@[0]@ == (StepView::Complete { result: result@ }),
        job.webhook matches Some(u) ==> (r@[1]@ matches StepView::Notify { url, payload } && url
            == u@ && payload.get("data"@) == Some(result@)),
{
    proof {
        law_scrape_completed(job_id, result@);
    }
    let mut steps: Vec<JobStep> = Vec::new();
    let ghost value = result@;
    match &job.webhook {
        Some(url) => {
            let id = uuid_to_text(job_id);
            let members = vec![
                ("type".to_owned(), json_text("scrape.completed")),
                ("job_id".to_owned(), json_text(id.as_str())),
                ("data".to_owned(), result.clone()),
            ];
            proof {
                lemma_object_view(members);
                assert(member_views(members@) =~= scrape_completed(job_id, value)->Object_0);
            }
            steps.push(JobStep::Complete { result });
            steps.push(JobStep::Notify { url: url.clone(), payload: Json::Object(members) });
        },
        None => {
            steps.push(JobStep::Complete { result });
        },
    }
    assert(step_views(steps@) =~= seq![StepView::Complete { result: value }] + notify(
        opt_view(job.webhook),
        scrape_completed(job_id, value),
    ));
    assert(step_views(steps@)[0] == steps@[0]@);
    if job.webhook.is_some() {
        assert(step_views(steps@)[1] == steps@[1]@);
    }
    steps
}

/// What the language model is asked of the page of a job. Where its input was cut, the
/// result says so.
pub fn extraction_of_page(result: &mut ScrapeResult, options: &ExtractOptions, max_chars: usize) -> (r:
    ExtractionRequest)
    ensures
        r.content@ == prefix(page_text(old(result)@, false), max_chars as nat),
        r.prompt@ == or_default(
            opt_view(options.prompt),
            "Extract all structured data from this page."@,
        ),
        opt_json_view(r.schema) == opt_json_view(options.schema),
        r.system_prompt == options.system_prompt,
        final(result)@ == before_extraction(old(result)@, false, max_chars as nat),
{
    extraction_request(
        result,
        options,
        "Extract all structured data from this page.",
        false,
        max_chars,
    )
}

/// Adds what was extracted of the page of a job to its result; a failure is noted in it.
pub fn apply_extraction(result: &mut ScrapeResult, outcome: Result<ExtractionResult, String>)
    ensures
        match outcome {
            Ok(x) => final(result)@ == with_extraction(
                old(result)@,
                x.data@,
                opt_view(x.warning),
            ),
            Err(e) => final(result)@ == (ScrapeResultView {
                metadata: ScrapeMetadataView {
                    error: Some("LLM extraction failed: "@ + e@),
                    ..old(result)@.metadata
                },
                ..old(result)@
            }),
        },
{
    match outcome {
        Ok(x) => {
            add_extraction(result, x);
        },
        Err(e) => {
            result.metadata.error = Some("LLM extraction failed: ".to_owned().concat(e.as_str()));
        },
    }
}

// ---------------------------------------------------------------------------
// Crawl
// ---------------------------------------------------------------------------

/// The group of a crawl.
#[derive(Debug, Clone, Copy, PartialEq, Eq, Structural)]
pub enum GroupPlan {
    /// The one that was made when the crawl was requested.
    Existing { id: u128 },
    /// A new one, into which the job is put.
    Create { ttl_ms: i64 },
}

/// The group of a crawl.
pub fn crawl_group(job: &CrawlJobData) -> (r: GroupPlan)
    ensures
        r == (match job.group_id {
            Some(id) => GroupPlan::Existing { id },
            None => GroupPlan::Create { ttl_ms: job.ttl_ms },
        }),
{
    match job.group_id {
        Some(id) => GroupPlan::Existing { id },
        None => GroupPlan::Create { ttl_ms: job.ttl_ms },
    }
}

/// What is sent when a crawl begins.
pub open spec fn crawl_started_payload(job_id: u128, group_id: u128) -> JsonView {
    JsonView::Object(
        seq![
            ("type"@, JsonView::Text("crawl.started"@)),
            ("job_id"@, JsonView::Text(uuid_text(job_id))),
            ("group_id"@, JsonView::Text(uuid_text(group_id))),
        ],
    )
}

/// What is sent of a page of a crawl.
pub open spec fn crawl_page_payload(job_id: u128, result: JsonView) -> JsonView {
    JsonView::Object(
        seq![
            ("type"@, JsonView::Text("crawl.page"@)),
            ("job_id"@, JsonView::Text(uuid_text(job_id))),
            ("data"@, result),
        ],
    )
}

/// What is sent when a crawl is over.
pub open spec fn crawl_completed_payload(job_id: u128, group_id: u128, total: nat) -> JsonView {
    JsonView::Object(
        seq![
            ("type"@, JsonView::Text("crawl.completed"@)),
            ("job_id"@, JsonView::Text(uuid_text(job_id))),
            ("group_id"@, JsonView::Text(uuid_text(group_id))),
            ("total"@, JsonView::Unsigned(total as u64)),
        ],
    )
}

/// What a crawl does with one page.
pub open spec fn crawl_page_steps(
    webhook: Option<WebhookConfig>,
    priority: i32,
    job_id: u128,
    group_id: u128,
    page: PageView,
) -> Seq<StepView> {
    seq![store_step(page, group_id, priority)] + notify(
        hook_for(webhook, "page"@),
        crawl_page_payload(job_id, page.result),
    )
}

/// What a crawl does with its pages.
pub open spec fn crawl_pages_steps(
    webhook: Option<WebhookConfig>,
    priority: i32,
    job_id: u128,
    group_id: u128,
    pages: Seq<PageView>,
) -> Seq<StepView>
    decreases pages.len(),
{
    if pages.len() == 0 {
        Seq::empty()
    } else {
        crawl_pages_steps(webhook, priority, job_id, group_id, pages.drop_last())
            + crawl_page_steps(webhook, priority, job_id, group_id, pages.last())
    }
}

/// What a crawl or a batch with `total` pages does at its end.
pub open spec fn end_steps(total: nat, group_id: u128) -> Seq<StepView> {
    seq![
        StepView::FinishGroup { group_id },
        StepView::Complete { result: group_result(total, group_id) },
    ]
}

/// What a crawl does once its pages are scraped.
pub open spec fn crawl_steps(
    webhook: Option<WebhookConfig>,
    priority: i32,
    job_id: u128,
    group_id: u128,
    pages: Seq<PageView>,
) -> Seq<StepView> {
    crawl_pages_steps(webhook, priority, job_id, group_id, pages) + end_steps(
        pages.len(),
        group_id,
    ) + notify(
        hook_for(webhook, "completed"@),
        crawl_completed_payload(job_id, group_id, pages.len()),
    )
}

/// The notification that a crawl begins, where the webhook wants it.
pub fn crawl_started(job: &CrawlJobData, job_id: u128, group_id: u128) -> (r: Option<JobStep>)
    ensures
        match hook_for(job.webhook, "started"@) {
            Some(u) => r matches Some(s) && s@ == (StepView::Notify {
                url: u,
                payload: crawl_started_payload(job_id, group_id),
            }),
            None => r is None,
        },
{
    match hook_for_event(&job.webhook, "started") {
        Some(url) => {
            let id = uuid_to_text(job_id);
            let group = uuid_to_text(group_id);
            let members = vec![
                ("type".to_owned(), json_text("crawl.started")),
                ("job_id".to_owned(), json_text(id.as_str())),
                ("group_id".to_owned(), json_text(group.as_str())),
            ];
            proof {
                lemma_object_view(members);
                assert(member_views(members@) =~= crawl_started_payload(
                    job_id,
                    group_id,
                )->Object_0);
            }
            Some(JobStep::Notify { url, payload: Json::Object(members) })
        },
        None => None,
    }
}

fn crawl_page_payload_of(job_id: u128, result: &Json) -> (r: Json)
    ensures
        r@ == crawl_page_payload(job_id, result@),
{
    let id = uuid_to_text(job_id);
    let members = vec![
        ("type".to_owned(), json_text("crawl.page")),
        ("job_id".to_owned(), json_text(id.as_str())),
        ("data".to_owned(), result.clone()),
    ];
    proof {
        lemma_object_view(members);
        assert(member_views(members@) =~= crawl_page_payload(job_id, result@)->Object_0);
    }
    Json::Object(members)
}

fn crawl_completed_payload_of(job_id: u128, group_id: u128, total: usize) -> (r: Json)
    ensures
        r@ == crawl_completed_payload(job_id, group_id, total as nat),
{
    let id = uuid_to_text(job_id);
    let group = uuid_to_text(group_id);
    let members = vec![
        ("type".to_owned(), json_text("crawl.completed")),
        ("job_id".to_owned(), json_text(id.as_str())),
        ("group_id".to_owned(), json_text(group.as_str())),
        ("total".to_owned(), json_number(total as u64)),
    ];
    proof {
        lemma_object_view(members);
        assert(member_views(members@) =~= crawl_completed_payload(
            job_id,
            group_id,
            total as nat,
        )->Object_0);
    }
    Json::Object(members)
}

/// What a crawl does once its pages are scraped: each page is stored in the group, with
/// the priority of the job; then the group and the job are completed. The webhook hears
/// of what it wants to hear of.
pub fn run_crawl(job: &CrawlJobData, job_id: u128, group_id: u128, pages: &Vec<ScrapedPage>) -> (r:
    Vec<JobStep>)
    ensures
        step_views(r@) == crawl_steps(
            job.webhook,
            job.priority,
            job_id,
            group_id,
            page_views(pages@),
        ),
{
    let ghost all = page_views(pages@);
    let ghost hook = job.webhook;
    let ghost priority = job.priority;
    let page_hook = hook_for_event(&job.webhook, "page");
    let mut steps: Vec<JobStep> = Vec::new();
    let mut i: usize = 0;
    assert(step_views(steps@) =~= crawl_pages_steps(hook, priority, job_id, group_id, all.take(0)));
    while i < pages.len()
        invariant
            i <= pages@.len(),
            all == page_views(pages@),
            hook == job.webhook,
            priority == job.priority,
            opt_view(page_hook) == hook_for(hook, "page"@),
            step_views(steps@) == crawl_pages_steps(
                hook,
                priority,
                job_id,
                group_id,
                all.take(i as int),
            ),
        decreases pages@.len() - i,
    {
        let ghost before = steps@;
        assert(all.take(i + 1).drop_last() =~= all.take(i as int));
        assert(all.take(i + 1).last() == pages@[i as int]@);
        steps.push(store_page(&pages[i], group_id, job.priority));
        if let Some(url) = &page_hook {
            let payload = crawl_page_payload_of(job_id, &pages[i].result);
            steps.push(JobStep::Notify { url: url.clone(), payload });
        }
        assert(step_views(steps@) =~= step_views(before) + crawl_page_steps(
            hook,
            priority,
            job_id,
            group_id,
            pages@[i as int]@,
        ));
        i = i + 1;
    }
    assert(all.take(all.len() as int) =~= all);
    steps.push(JobStep::FinishGroup { group_id });
    steps.push(JobStep::Complete { result: group_result_of(pages.len(), group_id) });
    if let Some(url) = hook_for_event(&job.webhook, "completed") {
        let payload = crawl_completed_payload_of(job_id, group_id, pages.len());
        steps.push(JobStep::Notify { url, payload });
    }
    assert(step_views(steps@) =~= crawl_steps(hook, priority, job_id, group_id, all));
    steps
}

/// The steps that store a page.
pub open spec fn stored(steps: Seq<StepView>) -> Seq<StepView>
    decreases steps.len(),
{
    if steps.len() == 0 {
        Seq::empty()
    } else {
        let before = stored(steps.drop_last());
        if steps.last() is StorePage {
            before.push(steps.last())
        } else {
            before
        }
    }
}

proof fn lemma_stored_concat(a: Seq<StepView>, b: Seq<StepView>)
    ensures
        stored(a + b) == stored(a) + stored(b),
    decreases b.len(),
{
    if b.len() == 0 {
        assert(a + b =~= a);
        assert(stored(a) + stored(b) =~= stored(a));
    } else {
        assert((a + b).drop_last() =~= a + b.drop_last());
        lemma_stored_concat(a, b.drop_last());
        assert(stored(a + b) =~= stored(a) + stored(b));
    }
}

proof fn lemma_stored_notify(url: Option<Seq<char>>, payload: JsonView)
    ensures
        stored(notify(url, payload)) == Seq::<StepView>::empty(),
{
    reveal_with_fuel(stored, 2);
}

proof fn lemma_stored_end(total: nat, group_id: u128)
    ensures
        stored(end_steps(total, group_id)) == Seq::<StepView>::empty(),
{
    reveal_with_fuel(stored, 3);
    let end = end_steps(total, group_id);
    assert(end.drop_last().drop_last() =~= Seq::<StepView>::empty());
    assert(stored(end) =~= Seq::<StepView>::empty());
}

proof fn lemma_stored_pages(
    webhook: Option<WebhookConfig>,
    priority: i32,
    job_id: u128,
    group_id: u128,
    pages: Seq<PageView>,
)
    ensures
        stored(crawl_pages_steps(webhook, priority, job_id, group_id, pages)) == store_steps(
            pages,
            group_id,
            priority,
        ),
    decreases pages.len(),
{
    reveal_with_fuel(stored, 2);
    if pages.len() > 0 {
        lemma_stored_pages(webhook, priority, job_id, group_id, pages.drop_last());
        let page = pages.last();
        let first = seq![store_step(page, group_id, priority)];
        let url = hook_for(webhook, "page"@);
        let sent = notify(url, crawl_page_payload(job_id, page.result));
        lemma_stored_notify(url, crawl_page_payload(job_id, page.result));
        lemma_stored_concat(first, sent);
        assert(first.drop_last() =~= Seq::<StepView>::empty());
        assert(stored(first) =~= first);
        assert(stored(first + sent) =~= first);
        lemma_stored_concat(
            crawl_pages_steps(webhook, priority, job_id, group_id, pages.drop_last()),
            crawl_page_steps(webhook, priority, job_id, group_id, page),
        );
        assert(store_steps(pages, group_id, priority) =~= store_steps(
            pages.drop_last(),
            group_id,
            priority,
        ) + first);
    } else {
        assert(store_steps(pages, group_id, priority) =~= Seq::<StepView>::empty());
    }
}

/// A crawl stores every page that it scraped, once and in order, in its group and with
/// its priority.
pub proof fn law_crawl_stores_every_page(
    webhook: Option<WebhookConfig>,
    priority: i32,
    job_id: u128,
    group_id: u128,
    pages: Seq<PageView>,
)
    ensures
        stored(crawl_steps(webhook, priority, job_id, group_id, pages)) == store_steps(
            pages,
            group_id,
            priority,
        ),
{
    let first = crawl_pages_steps(webhook, priority, job_id, group_id, pages);
    let end = end_steps(pages.len(), group_id);
    let url = hook_for(webhook, "completed"@);
    let payload = crawl_completed_payload(job_id, group_id, pages.len());
    lemma_stored_pages(webhook, priority, job_id, group_id, pages);
    lemma_stored_notify(url, payload);
    lemma_stored_end(pages.len(), group_id);
    lemma_stored_concat(first, end);
    lemma_stored_concat(first + end, notify(url, payload));
    assert(stored(crawl_steps(webhook, priority, job_id, group_id, pages)) =~= stored(first));
}

/// The payloads of the steps that notify.
pub open spec fn sent(steps: Seq<StepView>) -> Seq<JsonView>
    decreases steps.len(),
{
    if steps.len() == 0 {
        Seq::empty()
    } else {
        let before = sent(steps.drop_last());
        match steps.last() {
            StepView::Notify { payload, .. } => before.push(payload),
            _ => before,
        }
    }
}

proof fn lemma_sent_concat(a: Seq<StepView>, b: Seq<StepView>)
    ensures
        sent(a + b) == sent(a) + sent(b),
    decreases b.len(),
{
    if b.len() == 0 {
        assert(a + b =~= a);
        assert(sent(a) + sent(b) =~= sent(a));
    } else {
        assert((a + b).drop_last() =~= a + b.drop_last());
        lemma_sent_concat(a, b.drop_last());
        assert(sent(a + b) =~= sent(a) + sent(b));
    }
}

proof fn lemma_sent_pages(
    webhook: Option<WebhookConfig>,
    priority: i32,
    job_id: u128,
    group_id: u128,
    pages: Seq<PageView>,
)
    ensures
        sent(crawl_pages_steps(webhook, priority, job_id, group_id, pages)) == (if hook_for(
            webhook,
            "page"@,
        ) is Some {
            pages.map_values(|p: PageView| crawl_page_payload(job_id, p.result))
        } else {
            Seq::empty()
        }),
    decreases pages.len(),
{
    reveal_with_fuel(sent, 3);
    let payloads = pages.map_values(|p: PageView| crawl_page_payload(job_id, p.result));
    if pages.len() > 0 {
        let rest = pages.drop_last();
        lemma_sent_pages(webhook, priority, job_id, group_id, rest);
        let page = pages.last();
        let first = seq![store_step(page, group_id, priority)];
        let url = hook_for(webhook, "page"@);
        let told = notify(url, crawl_page_payload(job_id, page.result));
        assert(first.drop_last() =~= Seq::<StepView>::empty());
        assert(told.len() > 0 ==> told.drop_last() =~= Seq::<StepView>::empty());
        lemma_sent_concat(first, told);
        lemma_sent_concat(
            crawl_pages_steps(webhook, priority, job_id, group_id, rest),
            first + told,
        );
        let before = rest.map_values(|p: PageView| crawl_page_payload(job_id, p.result));
        assert(payloads =~= before.push(crawl_page_payload(job_id, page.result)));
        assert(sent(crawl_pages_steps(webhook, priority, job_id, group_id, pages)) =~= (if url is Some {
            payloads
        } else {
            Seq::empty()
        }));
    } else {
        assert(payloads =~= Seq::empty());
    }
}

/// The webhook of a crawl hears of each page, once and in order, where it wants to hear
/// of pages, and of the end, where it wants to hear of that, and of nothing else.
pub proof fn law_only_wanted_events(
    webhook: Option<WebhookConfig>,
    priority: i32,
    job_id: u128,
    group_id: u128,
    pages: Seq<PageView>,
)
    ensures
        sent(crawl_steps(webhook, priority, job_id, group_id, pages)) == (if hook_for(
            webhook,
            "page"@,
        ) is Some {
            pages.map_values(|p: PageView| crawl_page_payload(job_id, p.result))
        } else {
            Seq::empty()
        }) + (if hook_for(webhook, "completed"@) is Some {
            seq![crawl_completed_payload(job_id, group_id, pages.len())]
        } else {
            Seq::empty()
        }),
{
    reveal_with_fuel(sent, 3);
    let first = crawl_pages_steps(webhook, priority, job_id, group_id, pages);
    let end = end_steps(pages.len(), group_id);
    let url = hook_for(webhook, "completed"@);
    let told = notify(url, crawl_completed_payload(job_id, group_id, pages.len()));
    lemma_sent_pages(webhook, priority, job_id, group_id, pages);
    assert(end.drop_last().drop_last() =~= Seq::<StepView>::empty());
    assert(told.len() > 0 ==> told.drop_last() =~= Seq::<StepView>::empty());
    lemma_sent_concat(first, end);
    lemma_sent_concat(first + end, told);
    assert(sent(end) =~= Seq::<JsonView>::empty());
    assert(sent(told) =~= (if url is Some {
        seq![crawl_completed_payload(job_id, group_id, pages.len())]
    } else {
        Seq::empty()
    }));
    assert(sent(first + end) =~= sent(first));
}

// ---------------------------------------------------------------------------
// Batch
// ---------------------------------------------------------------------------

/// The job that scrapes one page of a batch.
pub fn batch_page_job(job: &BatchScrapeJobData, url: &String) -> (r: ScrapeJobData)
    ensures
        r@ == page_job(url@, job.scrape_options.formats@, job.scrape_options@),
{
    page_job_of(url, formats_clone(&job.scrape_options.formats), &job.scrape_options)
}

/// What is sent when a batch is over.
pub open spec fn batch_completed_payload(job_id: u128, total: nat) -> JsonView {
    JsonView::Object(
        seq![
            ("type"@, JsonView::Text("batch_scrape.completed"@)),
            ("job_id"@, JsonView::Text(uuid_text(job_id))),
            ("total"@, JsonView::Unsigned(total as u64)),
        ],
    )
}

/// The group of a batch: a new one, which is kept for a day.
pub fn batch_group() -> (r: GroupPlan)
    ensures
        r == (GroupPlan::Create { ttl_ms: 86_400_000 }),
{
    GroupPlan::Create { ttl_ms: GROUP_TTL_MS }
}

/// The values of pages that could be scraped or not.
pub open spec fn outcome_views(v: Seq<Option<ScrapedPage>>) -> Seq<Option<PageView>> {
    v.map_values(
        |o: Option<ScrapedPage>|
            match o {
                Some(p) => Some(p@),
                None => None,
            },
    )
}

/// The pages that could be scraped, in order.
pub open spec fn scraped_only(outcomes: Seq<Option<PageView>>) -> Seq<PageView>
    decreases outcomes.len(),
{
    if outcomes.len() == 0 {
        Seq::empty()
    } else {
        let before = scraped_only(outcomes.drop_last());
        match outcomes.last() {
            Some(page) => before.push(page),
            None => before,
        }
    }
}

/// What a batch that has stored `total` pages does at its end.
pub open spec fn batch_end_steps(
    webhook: Option<WebhookConfig>,
    job_id: u128,
    group_id: u128,
    total: nat,
) -> Seq<StepView> {
    end_steps(total, group_id) + notify(
        hook_for(webhook, "completed"@),
        batch_completed_payload(job_id, total),
    )
}

/// What a batch does with its pages: those that could be scraped are stored, and their
/// number is the total.
pub open spec fn batch_steps(
    webhook: Option<WebhookConfig>,
    priority: i32,
    job_id: u128,
    group_id: u128,
    outcomes: Seq<Option<PageView>>,
) -> Seq<StepView> {
    let pages = scraped_only(outcomes);
    store_steps(pages, group_id, priority) + batch_end_steps(
        webhook,
        job_id,
        group_id,
        pages.len(),
    )
}

/// A batch that is under way.
#[derive(Debug, Clone, Copy)]
pub struct BatchRun {
    pub group_id: u128,
    pub priority: i32,
    /// How many pages were stored.
    pub stored: usize,
}

impl BatchRun {
    /// A batch at its beginning.
    pub fn new(job: &BatchScrapeJobData, group_id: u128) -> (r: Self)
        ensures
            r.group_id == group_id,
            r.priority == job.priority,
            r.stored == 0,
    {
        BatchRun { group_id, priority: job.priority, stored: 0 }
    }

    /// Takes a page as it comes: one that could be scraped is stored and counted, and one
    /// that could not is left out.
    pub fn page_done(&mut self, page: Option<&ScrapedPage>) -> (r: Option<JobStep>)
        requires
            old(self).stored < usize::MAX,
        ensures
            final(self).group_id == old(self).group_id,
            final(self).priority == old(self).priority,
            match page {
                Some(p) => {
                    &&& r matches Some(s)
                    &&& s@ == store_step(p@, old(self).group_id, old(self).priority)
                    &&& final(self).stored == old(self).stored + 1
                },
                None => r is None && final(self).stored == old(self).stored,
            },
    {
        match page {
            Some(p) => {
                self.stored = self.stored + 1;
                Some(store_page(p, self.group_id, self.priority))
            },
            None => None,
        }
    }

    /// What the batch does once all its pages have come.
    pub fn finish(&self, job: &BatchScrapeJobData, job_id: u128) -> (r: Vec<JobStep>)
        ensures
            step_views(r@) == batch_end_steps(
                job.webhook,
                job_id,
                self.group_id,
                self.stored as nat,
            ),
    {
        let mut steps: Vec<JobStep> = Vec::new();
        steps.push(JobStep::FinishGroup { group_id: self.group_id });
        steps.push(JobStep::Complete { result: group_result_of(self.stored, self.group_id) });
        if let Some(url) = hook_for_event(&job.webhook, "completed") {
            let id = uuid_to_text(job_id);
            let members = vec![
                ("type".to_owned(), json_text("batch_scrape.completed")),
                ("job_id".to_owned(), json_text(id.as_str())),
                ("total".to_owned(), json_number(self.stored as u64)),
            ];
            proof {
                lemma_object_view(members);
                assert(member_views(members@) =~= batch_completed_payload(
                    job_id,
                    self.stored as nat,
                )->Object_0);
            }
            steps.push(JobStep::Notify { url, payload: Json::Object(members) });
        }
        assert(step_views(steps@) =~= batch_end_steps(
            job.webhook,
            job_id,
            self.group_id,
            self.stored as nat,
        ));
        steps
    }
}

/// What a batch does with its pages, `None` where one could not be scraped: each that
/// could be is stored in the group, with the priority of the job; then the group and the
/// job are completed, with their number as the total.
pub fn run_batch_scrape(
    job: &BatchScrapeJobData,
    job_id: u128,
    group_id: u128,
    pages: &Vec<Option<ScrapedPage>>,
) -> (r: Vec<JobStep>)
    ensures
        step_views(r@) == batch_steps(
            job.webhook,
            job.priority,
            job_id,
            group_id,
            outcome_views(pages@),
        ),
{
    let ghost all = outcome_views(pages@);
    let mut run = BatchRun::new(job, group_id);
    let mut steps: Vec<JobStep> = Vec::new();
    let mut i: usize = 0;
    assert(scraped_only(all.take(0)) =~= Seq::empty());
    assert(step_views(steps@) =~= store_steps(
        scraped_only(all.take(0)),
        group_id,
        job.priority,
    ));
    while i < pages.len()
        invariant
            i <= pages@.len(),
            all == outcome_views(pages@),
            run.group_id == group_id,
            run.priority == job.priority,
            run.stored == scraped_only(all.take(i as int)).len(),
            run.stored <= i,
            step_views(steps@) == store_steps(
                scraped_only(all.take(i as int)),
                group_id,
                job.priority,
            ),
        decreases pages@.len() - i,
    {
        let ghost before = steps@;
        let ghost done = scraped_only(all.take(i as int));
        assert(all.take(i + 1).drop_last() =~= all.take(i as int));
        assert(all.take(i + 1).last() == all[i as int]);
        if let Some(step) = run.page_done(pages[i].as_ref()) {
            steps.push(step);
            let ghost page = pages@[i as int]->0@;
            assert(step_views(steps@) =~= step_views(before).push(step@));
            assert(store_steps(done.push(page), group_id, job.priority) =~= store_steps(
                done,
                group_id,
                job.priority,
            ).push(store_step(page, group_id, job.priority)));
        }
        i = i + 1;
    }
    assert(all.take(all.len() as int) =~= all);
    let ghost before = steps@;
    let mut end = run.finish(job, job_id);
    let ghost last = end@;
    steps.append(&mut end);
    assert(step_views(steps@) =~= step_views(before) + step_views(last));
    steps
}

/// A batch stores every page that could be scraped, once and in order, in its group and
/// with its priority, and nothing for a page that could not be.
pub proof fn law_batch_stores_scraped_pages(
    webhook: Option<WebhookConfig>,
    priority: i32,
    job_id: u128,
    group_id: u128,
    outcomes: Seq<Option<PageView>>,
)
    ensures
        stored(batch_steps(webhook, priority, job_id, group_id, outcomes)) == store_steps(
            scraped_only(outcomes),
            group_id,
            priority,
        ),
{
    let pages = scraped_only(outcomes);
    let first = store_steps(pages, group_id, priority);
    let end = end_steps(pages.len(), group_id);
    let url = hook_for(webhook, "completed"@);
    let told = notify(url, batch_completed_payload(job_id, pages.len()));
    lemma_stored_all(pages, group_id, priority);
    lemma_stored_end(pages.len(), group_id);
    lemma_stored_notify(url, batch_completed_payload(job_id, pages.len()));
    lemma_stored_concat(end, told);
    lemma_stored_concat(first, end + told);
    assert(stored(first + (end + told)) =~= first);
}

proof fn lemma_stored_all(pages: Seq<PageView>, group_id: u128, priority: i32)
    ensures
        stored(store_steps(pages, group_id, priority)) == store_steps(pages, group_id, priority),
    decreases pages.len(),
{
    let steps = store_steps(pages, group_id, priority);
    if pages.len() > 0 {
        lemma_stored_all(pages.drop_last(), group_id, priority);
        assert(steps.drop_last() =~= store_steps(pages.drop_last(), group_id, priority));
        assert(stored(steps) =~= steps);
    } else {
        assert(steps =~= Seq::empty());
    }
}

// ---------------------------------------------------------------------------
// Extract
// ---------------------------------------------------------------------------

/// The host of the first URL of a list.
pub open spec fn origin_host(urls: Seq<Seq<char>>) -> Option<Seq<char>> {
    if urls.len() == 0 {
        None
    } else {
        match parsed_url(urls[0]) {
            Ok(u) => u.host_str,
            Err(_) => None,
        }
    }
}

/// The URL may be read where the pages are of the site `origin`: it is on it, or either
/// is not known to be on a site.
pub open spec fn same_origin(url: Seq<char>, origin: Option<Seq<char>>) -> bool {
    match (origin, parsed_url(url)) {
        (Some(host), Ok(u)) => u.host_text() == host,
        _ => true,
    }
}

/// The URLs that may be read.
pub open spec fn same_origin_urls(urls: Seq<Seq<char>>, origin: Option<Seq<char>>) -> Seq<
    Seq<char>,
>
    decreases urls.len(),
{
    if urls.len() == 0 {
        Seq::empty()
    } else {
        let before = same_origin_urls(urls.drop_last(), origin);
        if same_origin(urls.last(), origin) {
            before.push(urls.last())
        } else {
            before
        }
    }
}

/// The pages that data is extracted of: unless other sites are allowed, those on the site
/// of the first one.
pub open spec fn extracted_urls(urls: Seq<Seq<char>>, allow_external_links: bool) -> Seq<
    Seq<char>,
> {
    if allow_external_links {
        urls
    } else {
        same_origin_urls(urls, origin_host(urls))
    }
}

fn is_same_origin(url: &str, origin: &Option<String>) -> (r: bool)
    ensures
        r == same_origin(url@, opt_view(*origin)),
{
    match origin {
        Some(host) => match parse_url(url) {
            Ok(u) => {
                let text = u.host_text();
                same_text(text.as_str(), host.as_str())
            },
            Err(_) => true,
        },
        None => true,
    }
}

/// The pages that data is extracted of.
pub fn extract_urls(job: &ExtractJobData) -> (r: Vec<String>)
    ensures
        views(r@) == extracted_urls(views(job.urls@), job.allow_external_links),
        job.allow_external_links ==> views(r@) == views(job.urls@),
        !job.allow_external_links && job.urls@.len() > 0 ==> match parsed_url(job.urls@[0]@) {
            Ok(first) => match first.host_str {
                Some(host) => views(r@) == views(job.urls@).filter(
                    |u: Seq<char>|
                        match parsed_url(u) {
                            Ok(p) => p.host_text() == host,
                            Err(_) => true,
                        },
                ),
                None => views(r@) == views(job.urls@),
            },
            Err(_) => views(r@) == views(job.urls@),
        },
{
    proof {
        law_extracted_urls(views(job.urls@));
    }
    if job.allow_external_links {
        return crate::text::strings_clone(&job.urls);
    }
    let ghost all = views(job.urls@);
    let origin = if job.urls.len() == 0 {
        None
    } else {
        match parse_url(job.urls[0].as_str()) {
            Ok(u) => u.host_str,
            Err(_) => None,
        }
    };
    assert(opt_view(origin) == origin_host(all));
    let mut r: Vec<String> = Vec::new();
    let mut i: usize = 0;
    assert(views(r@) =~= same_origin_urls(all.take(0), opt_view(origin)));
    while i < job.urls.len()
        invariant
            i <= job.urls@.len(),
            all == views(job.urls@),
            views(r@) == same_origin_urls(all.take(i as int), opt_view(origin)),
        decreases job.urls@.len() - i,
    {
        let ghost before = r@;
        assert(all.take(i + 1).drop_last() =~= all.take(i as int));
        assert(all.take(i + 1).last() == job.urls@[i as int]@);
        if is_same_origin(job.urls[i].as_str(), &origin) {
            r.push(job.urls[i].clone());
            assert(views(r@) =~= views(before).push(job.urls@[i as int]@));
        }
        i = i + 1;
    }
    assert(all.take(all.len() as int) =~= all);
    r
}

/// Unless other sites are allowed, no data is extracted of a page that is known to be on
/// another site than the first one.
pub proof fn law_extraction_stays_on_site(urls: Seq<Seq<char>>, i: int)
    requires
        0 <= i < extracted_urls(urls, false).len(),
    ensures
        same_origin(extracted_urls(urls, false)[i], origin_host(urls)),
{
    lemma_same_origin(urls, origin_host(urls));
}

proof fn lemma_same_origin(urls: Seq<Seq<char>>, origin: Option<Seq<char>>)
    ensures
        forall|i: int|
            0 <= i < same_origin_urls(urls, origin).len() ==> same_origin(
                #[trigger] same_origin_urls(urls, origin)[i],
                origin,
            ),
    decreases urls.len(),
{
    if urls.len() > 0 {
        lemma_same_origin(urls.drop_last(), origin);
        let before = same_origin_urls(urls.drop_last(), origin);
        let all = same_origin_urls(urls, origin);
        assert forall|i: int| 0 <= i < all.len() implies same_origin(#[trigger] all[i], origin) by {
            if i < before.len() {
                assert(all[i] == before[i]);
            }
        }
    }
}

/// The job that scrapes a page that data is extracted of.
pub fn extract_page_job(url: &String) -> (r: ScrapeJobData)
    ensures
        r@ == (ScrapeJobView {
            url: url@,
            formats: seq![OutputFormat::Markdown],
            only_main_content: true,
            include_tags: Seq::empty(),
            exclude_tags: Seq::empty(),
            headers: None,
            wait_for: 0,
            mobile: false,
            timeout: None,
            extract: None,
            actions: Seq::empty(),
            location: None,
            webhook: None,
        }),
{
    let job = ScrapeJobData {
        url: url.clone(),
        formats: vec![OutputFormat::Markdown],
        only_main_content: true,
        include_tags: Vec::new(),
        exclude_tags: Vec::new(),
        headers: None,
        wait_for: 0,
        mobile: false,
        timeout: None,
        extract: None,
        actions: Vec::new(),
        location: None,
        webhook: None,
    };
    assert(job.formats@ =~= seq![OutputFormat::Markdown]);
    assert(views(job.include_tags@) =~= Seq::empty());
    assert(views(job.exclude_tags@) =~= Seq::empty());
    job
}

/// What a page adds to the text that data is extracted of: its Markdown, under its URL;
/// a page that could not be scraped adds nothing.
pub open spec fn page_section(url: Seq<char>, outcome: Option<ScrapeResultView>) -> Seq<char> {
    match outcome {
        Some(result) => match result.markdown {
            Some(md) => "## "@ + url + "\n\n"@ + md + "\n\n"@,
            None => Seq::empty(),
        },
        None => Seq::empty(),
    }
}

/// Appends what a page adds to the text that data is extracted of; `None` is a page that
/// could not be scraped.
pub fn add_page(content: &mut String, url: &str, outcome: Option<&ScrapeResult>)
    ensures
        final(content)@ == old(content)@ + page_section(
            url@,
            match outcome {
                Some(result) => Some(result@),
                None => None,
            },
        ),
        match outcome {
            Some(result) => match result.markdown {
                Some(md) => final(content)@ == old(content)@ + ("## "@ + url@ + "\n\n"@ + md@
                    + "\n\n"@),
                None => final(content)@ == old(content)@,
            },
            None => final(content)@ == old(content)@,
        },
{
    if let Some(result) = outcome {
        if let Some(md) = &result.markdown {
            let head = "## ".to_owned().concat(url);
            let part = head.concat("\n\n").concat(md.as_str()).concat("\n\n");
            content.append(part.as_str());
        }
    }
}

/// What the language model is asked of the pages of a job.
pub fn run_extract(job: &ExtractJobData, content: String) -> (r: ExtractionRequest)
    ensures
        r.content == content,
        r.prompt@ == or_default(opt_view(job.prompt), "Extract all relevant information."@),
        opt_json_view(r.schema) == opt_json_view(job.schema),
        r.system_prompt == job.system_prompt,
{
    ExtractionRequest {
        content,
        prompt: match &job.prompt {
            Some(p) => p.clone(),
            None => "Extract all relevant information.".to_owned(),
        },
        schema: opt_json_clone(&job.schema),
        system_prompt: opt_clone(&job.system_prompt),
    }
}

/// How a job that extracts data ends: it is completed with the data, or fails where the
/// language model did.
pub fn extract_done(outcome: Result<ExtractionResult, String>) -> (r: Result<JobStep, AppError>)
    ensures
        match outcome {
            Ok(x) => r matches Ok(s) && s@ == (StepView::Complete {
                result: JsonView::Object(seq![("data"@, x.data@)]),
            }),
            Err(e) => r matches Err(x) && x@ == AppErrorView::Llm(e@),
        },
{
    match outcome {
        Ok(x) => {
            let ghost value = x.data@;
            let members = vec![("data".to_owned(), x.data)];
            proof {
                lemma_object_view(members);
                assert(member_views(members@) =~= seq![("data"@, value)]);
            }
            Ok(JobStep::Complete { result: Json::Object(members) })
        },
        Err(e) => Err(AppError::Llm(e)),
    }
}

// ---------------------------------------------------------------------------
// Webhooks
// ---------------------------------------------------------------------------

/// A URL that was parsed is on a host that is not on the public internet; one without a
/// host is not, nor is what is no URL.
pub open spec fn is_local_target(url: Result<UrlView, Seq<char>>) -> bool {
    match url {
        Ok(u) => match u.host {
            Some(h) => is_local_host(h),
            None => false,
        },
        Err(_) => false,
    }
}

/// Whether a webhook would go to a host that is not on the public internet.
pub fn is_local_webhook(url: &str) -> (r: bool)
    ensures
        r == is_local_target(parsed_url(url@)),
{
    match parse_url(url) {
        Ok(u) => match &u.host {
            Some(h) => host_is_local(h),
            None => false,
        },
        Err(_) => false,
    }
}

/// The delivery of a webhook.
#[derive(Debug, Clone, Copy)]
pub struct WebhookDelivery {
    /// The number of attempts that have failed.
    pub attempt: u32,
    /// The length of the next pause.
    pub backoff_ms: u64,
}

/// What came of an attempt to deliver a webhook.
#[derive(Debug, Clone, Copy, PartialEq, Eq, Structural)]
pub enum DeliveryOutcome {
    /// It was answered with an HTTP status.
    Status(u16),
    /// It could not be sent.
    NotSent,
}

/// What follows an attempt to deliver a webhook.
#[derive(Debug, Clone, Copy, PartialEq, Eq, Structural)]
pub enum DeliveryStep {
    Finished { delivered: bool },
    Again { pause_ms: u64 },
}

/// The outcome is a delivery.
pub open spec fn is_delivered(outcome: DeliveryOutcome) -> bool {
    outcome matches DeliveryOutcome::Status(s) && 200 <= s <= 299
}

/// Another attempt may come out otherwise: the webhook could not be sent, or the server
/// had a problem or too much to do.
pub open spec fn is_retryable(outcome: DeliveryOutcome) -> bool {
    match outcome {
        DeliveryOutcome::Status(s) => 500 <= s <= 599 || s == 429,
        DeliveryOutcome::NotSent => true,
    }
}

impl WebhookDelivery {
    /// Fewer than three attempts have failed, and the pauses double from a fifth of a
    /// second.
    pub open spec fn wf(self) -> bool {
        ||| self.attempt == 0 && self.backoff_ms == 200
        ||| self.attempt == 1 && self.backoff_ms == 400
        ||| self.attempt == 2 && self.backoff_ms == 800
    }

    /// Begins the delivery of a webhook, unless it would go to a local host and that is not
    /// allowed.
    pub fn fire_webhook(allow_local_webhooks: bool, url: &str) -> (r: Option<Self>)
        ensures
            if !allow_local_webhooks && is_local_target(parsed_url(url@)) {
                r is None
            } else {
                r matches Some(d) && d.attempt == 0 && d.backoff_ms == 200 && d.wf()
            },
    {
        if !allow_local_webhooks && is_local_webhook(url) {
            None
        } else {
            Some(WebhookDelivery { attempt: 0, backoff_ms: 200 })
        }
    }

    /// Takes what came of an attempt. A delivery ends it, and so does the third failure, or
    /// one that another attempt would not mend; else there is another attempt after a pause.
    pub fn attempted(&mut self, outcome: DeliveryOutcome) -> (r: DeliveryStep)
        requires
            old(self).wf(),
        ensures
            final(self).wf(),
            if is_delivered(outcome) {
                r == (DeliveryStep::Finished { delivered: true })
            } else if !is_retryable(outcome) || old(self).attempt == 2 {
                r == (DeliveryStep::Finished { delivered: false })
            } else {
                &&& r == (DeliveryStep::Again { pause_ms: old(self).backoff_ms })
                &&& final(self).attempt == old(self).attempt + 1
                &&& final(self).backoff_ms == 2 * old(self).backoff_ms
            },
            outcome is NotSent && old(self).attempt < 2 ==> r is Again,
            outcome matches DeliveryOutcome::Status(s) ==> {
                &&& r == (DeliveryStep::Finished { delivered: true }) <==> 200 <= s <= 299
                &&& r is Again <==> old(self).attempt < 2 && (500 <= s <= 599 || s == 429)
            },
    {
        let (delivered, retryable) = match outcome {
            DeliveryOutcome::Status(s) => (
                200 <= s && s <= 299,
                (500 <= s && s <= 599) || s == 429,
            ),
            DeliveryOutcome::NotSent => (false, true),
        };
        if delivered {
            return DeliveryStep::Finished { delivered: true };
        }
        if !retryable || self.attempt == 2 {
            return DeliveryStep::Finished { delivered: false };
        }
        let pause: u64 = self.backoff_ms;
        self.attempt = self.attempt + 1;
        self.backoff_ms = if pause * 2 <= 2000 {
            pause * 2
        } else {
            2000
        };
        DeliveryStep::Again { pause_ms: pause }
    }
}

/// The number of attempts that a delivery makes when they come out as `outcomes` say, from
/// the point where `attempt` have failed.
pub open spec fn attempts_made(outcomes: Seq<DeliveryOutcome>, attempt: nat) -> nat
    decreases outcomes.len(),
{
    if outcomes.len() == 0 {
        0
    } else if is_delivered(outcomes[0]) || !is_retryable(outcomes[0]) || attempt == 2 {
        1
    } else {
        1 + attempts_made(outcomes.drop_first(), attempt + 1)
    }
}

/// A webhook is tried at most three times.
pub proof fn law_three_attempts(outcomes: Seq<DeliveryOutcome>, attempt: nat)
    requires
        attempt <= 2,
    ensures
        attempts_made(outcomes, attempt) <= 3 - attempt,
    decreases outcomes.len(),
{
    if outcomes.len() > 0 && !(is_delivered(outcomes[0]) || !is_retryable(outcomes[0]) || attempt
        == 2) {
        law_three_attempts(outcomes.drop_first(), attempt + 1);
    }
}

// ---------------------------------------------------------------------------
// Laws of what jobs leave behind
// ---------------------------------------------------------------------------

/// The step stores the page: with its result, under its URL, in the group and with the
/// priority.
pub open spec fn holds_page(step: StepView, page: PageView, group_id: u128, priority: i32) -> bool {
    step matches StepView::StorePage { group_id: g, priority: p, data, result } && g == group_id
        && p == priority && result == page.result && data.get("kind"@) == Some(
        JsonView::Text("scrape"@),
    ) && get_in(data.get("payload"@), "url"@) == Some(JsonView::Text(page.url))
}

/// A page is stored in its group and with its priority, with its result and under its
/// URL.
pub proof fn law_stored_page(page: PageView, group_id: u128, priority: i32)
    ensures
        holds_page(store_step(page, group_id, priority), page, group_id, priority),
{
    reveal_strlit("kind");
    reveal_strlit("payload");
    reveal_strlit("url");
    reveal_strlit("formats");
    assert("kind"@.len() == 4 && "payload"@.len() == 7 && "url"@.len() == 3);
    let m = page_data(page.url)->Object_0;
    lemma_member_at(m, 0);
    lemma_member_at(m, 1);
    lemma_member_at(m[1].1->Object_0, 0);
}

/// The steps that store a page are those.
proof fn lemma_stored_is_filter(steps: Seq<StepView>)
    ensures
        stored(steps) == steps.filter(|s: StepView| s is StorePage),
    decreases steps.len(),
{
    reveal(Seq::filter);
    if steps.len() > 0 {
        lemma_stored_is_filter(steps.drop_last());
    } else {
        assert(steps =~= Seq::empty());
    }
}

/// The step ends the job or its group, or marks a failure.
pub open spec fn is_end(s: StepView) -> bool {
    s is FinishGroup || s is Complete || s is Fail
}

proof fn lemma_no_end(steps: Seq<StepView>)
    requires
        forall|i: int| 0 <= i < steps.len() ==> !is_end(#[trigger] steps[i]),
    ensures
        steps.filter(|s: StepView| is_end(s)) == Seq::<StepView>::empty(),
    decreases steps.len(),
{
    reveal(Seq::filter);
    if steps.len() > 0 {
        let rest = steps.drop_last();
        assert forall|i: int| 0 <= i < rest.len() implies !is_end(#[trigger] rest[i]) by {
            assert(!is_end(steps[i]));
        }
        lemma_no_end(rest);
        assert(!is_end(steps[steps.len() - 1]));
    } else {
        assert(steps =~= Seq::empty());
    }
}

proof fn lemma_end_kept(total: nat, group_id: u128)
    ensures
        end_steps(total, group_id).filter(|s: StepView| is_end(s)) == end_steps(total, group_id),
{
    let e = end_steps(total, group_id);
    reveal_with_fuel(Seq::filter, 3);
    assert(e.drop_last() =~= seq![e[0]]);
    assert(seq![e[0]].drop_last() =~= Seq::<StepView>::empty());
    assert(is_end(e[0]) && is_end(e[1]));
    assert(e.filter(|s: StepView| is_end(s)) =~= e);
}

proof fn lemma_pages_no_end(
    webhook: Option<WebhookConfig>,
    priority: i32,
    job_id: u128,
    group_id: u128,
    pages: Seq<PageView>,
)
    ensures
        forall|i: int|
            0 <= i < crawl_pages_steps(webhook, priority, job_id, group_id, pages).len()
                ==> !is_end(
                #[trigger] crawl_pages_steps(webhook, priority, job_id, group_id, pages)[i],
            ),
    decreases pages.len(),
{
    if pages.len() > 0 {
        lemma_pages_no_end(webhook, priority, job_id, group_id, pages.drop_last());
        let before = crawl_pages_steps(webhook, priority, job_id, group_id, pages.drop_last());
        let last = crawl_page_steps(webhook, priority, job_id, group_id, pages.last());
        let all = crawl_pages_steps(webhook, priority, job_id, group_id, pages);
        assert forall|i: int| 0 <= i < all.len() implies !is_end(#[trigger] all[i]) by {
            if i < before.len() {
                assert(all[i] == before[i]);
            } else {
                assert(all[i] == last[i - before.len()]);
            }
        }
    }
}

/// What a crawl with a number of pages leaves as its own result.
pub proof fn law_group_result(total: nat, group_id: u128)
    requires
        total <= u64::MAX,
    ensures
        group_result(total, group_id).get("total"@) == Some(JsonView::Unsigned(total as u64)),
        group_result(total, group_id).get("group_id"@) == Some(
            JsonView::Text(uuid_text(group_id)),
        ),
{
    reveal_strlit("total");
    reveal_strlit("group_id");
    assert("total"@.len() == 5 && "group_id"@.len() == 8);
    let m = group_result(total, group_id)->Object_0;
    lemma_member_at(m, 0);
    lemma_member_at(m, 1);
}

proof fn lemma_store_steps(pages: Seq<PageView>, group_id: u128, priority: i32)
    ensures
        store_steps(pages, group_id, priority).len() == pages.len(),
        forall|k: int|
            0 <= k < pages.len() ==> holds_page(
                #[trigger] store_steps(pages, group_id, priority)[k],
                pages[k],
                group_id,
                priority,
            ),
{
    let steps = store_steps(pages, group_id, priority);
    assert forall|k: int| 0 <= k < pages.len() implies holds_page(
        #[trigger] steps[k],
        pages[k],
        group_id,
        priority,
    ) by {
        law_stored_page(pages[k], group_id, priority);
        assert(steps[k] == store_step(pages[k], group_id, priority));
    }
}

/// The steps that end the job and its group stand between the pages and the
/// notification, and no other step ends them.
proof fn lemma_one_end(
    a: Seq<StepView>,
    total: nat,
    group_id: u128,
    url: Option<Seq<char>>,
    payload: JsonView,
)
    requires
        forall|i: int| 0 <= i < a.len() ==> !is_end(#[trigger] a[i]),
    ensures
        ({
            let ends = (a + end_steps(total, group_id) + notify(url, payload)).filter(
                |s: StepView| is_end(s),
            );
            &&& ends.len() == 2
            &&& ends[0] == (StepView::FinishGroup { group_id })
            &&& ends[1] == (StepView::Complete { result: group_result(total, group_id) })
        }),
{
    let f = |s: StepView| is_end(s);
    let b = end_steps(total, group_id);
    let c = notify(url, payload);
    lemma_no_end(a);
    lemma_no_end(c);
    lemma_end_kept(total, group_id);
    Seq::filter_distributes_over_add(a + b, c, f);
    Seq::filter_distributes_over_add(a, b, f);
    assert((a + b + c).filter(f) =~= b);
}

/// A crawl stores one page for each that it scraped, in order: with its result, under
/// its URL, in the group and with the priority of the job.
pub proof fn law_crawl_leaves_its_pages(
    webhook: Option<WebhookConfig>,
    priority: i32,
    job_id: u128,
    group_id: u128,
    pages: Seq<PageView>,
)
    ensures
        ({
            let kept = crawl_steps(webhook, priority, job_id, group_id, pages).filter(
                |s: StepView| s is StorePage,
            );
            &&& kept.len() == pages.len()
            &&& forall|k: int|
                0 <= k < pages.len() ==> holds_page(
                    #[trigger] kept[k],
                    pages[k],
                    group_id,
                    priority,
                )
        }),
{
    lemma_stored_is_filter(crawl_steps(webhook, priority, job_id, group_id, pages));
    law_crawl_stores_every_page(webhook, priority, job_id, group_id, pages);
    lemma_store_steps(pages, group_id, priority);
}

/// A crawl completes its group and itself, each once, with the number of pages as the
/// total, and marks no failure.
pub proof fn law_crawl_ends_once(
    webhook: Option<WebhookConfig>,
    priority: i32,
    job_id: u128,
    group_id: u128,
    pages: Seq<PageView>,
)
    ensures
        ({
            let ends = crawl_steps(webhook, priority, job_id, group_id, pages).filter(
                |s: StepView| is_end(s),
            );
            &&& ends.len() == 2
            &&& ends[0] == (StepView::FinishGroup { group_id })
            &&& ends[1] == (StepView::Complete { result: group_result(pages.len(), group_id) })
        }),
{
    lemma_pages_no_end(webhook, priority, job_id, group_id, pages);
    lemma_one_end(
        crawl_pages_steps(webhook, priority, job_id, group_id, pages),
        pages.len(),
        group_id,
        hook_for(webhook, "completed"@),
        crawl_completed_payload(job_id, group_id, pages.len()),
    );
}

/// A batch stores one page for each that could be scraped, in order: with its result,
/// under its URL, in the group and with the priority of the job.
pub proof fn law_batch_leaves_its_pages(
    webhook: Option<WebhookConfig>,
    priority: i32,
    job_id: u128,
    group_id: u128,
    outcomes: Seq<Option<PageView>>,
)
    ensures
        ({
            let pages = outcomes.filter_map(|o: Option<PageView>| o);
            let kept = batch_steps(webhook, priority, job_id, group_id, outcomes).filter(
                |s: StepView| s is StorePage,
            );
            &&& kept.len() == pages.len()
            &&& forall|k: int|
                0 <= k < pages.len() ==> holds_page(
                    #[trigger] kept[k],
                    pages[k],
                    group_id,
                    priority,
                )
        }),
{
    law_scraped_only(outcomes);
    lemma_stored_is_filter(batch_steps(webhook, priority, job_id, group_id, outcomes));
    law_batch_stores_scraped_pages(webhook, priority, job_id, group_id, outcomes);
    lemma_store_steps(scraped_only(outcomes), group_id, priority);
}

/// A batch completes its group and itself, each once, with the number of pages that could
/// be scraped as the total, and marks no failure.
pub proof fn law_batch_ends_once(
    webhook: Option<WebhookConfig>,
    priority: i32,
    job_id: u128,
    group_id: u128,
    outcomes: Seq<Option<PageView>>,
)
    ensures
        ({
            let total = outcomes.filter_map(|o: Option<PageView>| o).len();
            let ends = batch_steps(webhook, priority, job_id, group_id, outcomes).filter(
                |s: StepView| is_end(s),
            );
            &&& ends.len() == 2
            &&& ends[0] == (StepView::FinishGroup { group_id })
            &&& ends[1] == (StepView::Complete { result: group_result(total, group_id) })
        }),
{
    let pages = scraped_only(outcomes);
    law_scraped_only(outcomes);
    let a = store_steps(pages, group_id, priority);
    let url = hook_for(webhook, "completed"@);
    let payload = batch_completed_payload(job_id, pages.len());
    lemma_store_steps(pages, group_id, priority);
    assert forall|i: int| 0 <= i < a.len() implies !is_end(#[trigger] a[i]) by {
        assert(holds_page(a[i], pages[i], group_id, priority));
    }
    lemma_one_end(a, pages.len(), group_id, url, payload);
    lemma_add_assoc(a, end_steps(pages.len(), group_id), notify(url, payload));
}

proof fn lemma_add_assoc(a: Seq<StepView>, b: Seq<StepView>, c: Seq<StepView>)
    ensures
        a + b + c == a + (b + c),
{
    assert(a + b + c =~= a + (b + c));
}

/// A webhook of a batch hears of its end, where it wants to hear of that, and of nothing
/// else.
pub proof fn law_batch_tells_its_end(
    webhook: Option<WebhookConfig>,
    priority: i32,
    job_id: u128,
    group_id: u128,
    outcomes: Seq<Option<PageView>>,
)
    ensures
        sent(batch_steps(webhook, priority, job_id, group_id, outcomes)) == (if hook_for(
            webhook,
            "completed"@,
        ) is Some {
            seq![
                batch_completed_payload(
                    job_id,
                    outcomes.filter_map(|o: Option<PageView>| o).len(),
                ),
            ]
        } else {
            Seq::empty()
        }),
{
    let pages = scraped_only(outcomes);
    law_scraped_only(outcomes);
    let a = store_steps(pages, group_id, priority);
    let b = end_steps(pages.len(), group_id);
    let payload = batch_completed_payload(job_id, pages.len());
    let c = notify(hook_for(webhook, "completed"@), payload);
    lemma_sent_concat(a, b + c);
    lemma_sent_concat(b, c);
    lemma_sent_none(a);
    lemma_sent_none(b);
    reveal_with_fuel(sent, 2);
    if c.len() > 0 {
        assert(c.drop_last() =~= Seq::<StepView>::empty());
        assert(sent(c) =~= seq![payload]);
    }
    assert(sent(a) + (sent(b) + sent(c)) =~= sent(c));
}

proof fn lemma_sent_none(steps: Seq<StepView>)
    requires
        forall|i: int| 0 <= i < steps.len() ==> !((#[trigger] steps[i]) is Notify),
    ensures
        sent(steps) == Seq::<JsonView>::empty(),
    decreases steps.len(),
{
    if steps.len() > 0 {
        let rest = steps.drop_last();
        assert forall|i: int| 0 <= i < rest.len() implies !((#[trigger] rest[i]) is Notify) by {
            assert(!(steps[i] is Notify));
        }
        lemma_sent_none(rest);
        assert(!(steps[steps.len() - 1] is Notify));
    }
}

/// The pages of a batch that could be scraped are exactly those, in order.
pub proof fn law_scraped_only(outcomes: Seq<Option<PageView>>)
    ensures
        scraped_only(outcomes) == outcomes.filter_map(|o: Option<PageView>| o),
    decreases outcomes.len(),
{
    reveal(Seq::filter_map);
    if outcomes.len() > 0 {
        law_scraped_only(outcomes.drop_last());
        let before = scraped_only(outcomes.drop_last());
        if let Some(page) = outcomes.last() {
            assert(before.push(page) =~= before + seq![page]);
        }
    }
}

/// A webhook that lists events hears of those and of no others; one that lists none hears
/// of the start and of the end. It hears of them under its URL.
pub proof fn law_webhook_events(webhook: WebhookConfig, event: Seq<char>)
    ensures
        webhook.events@.len() > 0 ==> (hook_for(Some(webhook), event) is Some <==> exists|k: int|
            0 <= k < webhook.events@.len() && (#[trigger] webhook.events@[k])@ == event),
        webhook.events@.len() == 0 ==> (hook_for(Some(webhook), event) is Some <==> event
            == "started"@ || event == "completed"@),
        hook_for(Some(webhook), event) matches Some(u) ==> u == webhook.url@,
        hook_for(None, event) is None,
{
    let all = views(webhook.events@);
    if all.contains(event) {
        let k = choose|k: int| 0 <= k < all.len() && all[k] == event;
        assert(webhook.events@[k]@ == event);
    }
    if exists|k: int|
        0 <= k < webhook.events@.len() && (#[trigger] webhook.events@[k])@ == event {
        let k = choose|k: int|
            0 <= k < webhook.events@.len() && (#[trigger] webhook.events@[k])@ == event;
        assert(all[k] == event);
    }
}

/// A notification goes to where it is to be sent, with its payload, once; without such a
/// place there is none.
pub proof fn law_notify(url: Seq<char>, payload: JsonView)
    ensures
        notify(Some(url), payload) == seq![StepView::Notify { url, payload }],
        notify(None, payload).len() == 0,
{
}

/// A crawl or batch that fails tells its webhook, where that wants to hear of failures,
/// which job failed and why; other jobs tell none.
pub proof fn law_failure_is_told(envelope: JobEnvelope, job_id: u128, reason: Seq<char>)
    ensures
        envelope matches JobEnvelope::Crawl(job) ==> failed_notice(envelope, job_id, reason)
            == notify(
            hook_for(job.webhook, "failed"@),
            failed_payload("crawl.failed"@, job_id, reason),
        ),
        envelope matches JobEnvelope::BatchScrape(job) ==> failed_notice(envelope, job_id, reason)
            == notify(
            hook_for(job.webhook, "failed"@),
            failed_payload("batch_scrape.failed"@, job_id, reason),
        ),
        !(envelope is Crawl || envelope is BatchScrape) ==> failed_notice(
            envelope,
            job_id,
            reason,
        ).len() == 0,
{
}

/// What is told of a failure: its kind, the job, and why it failed.
pub proof fn law_failed_payload(event: Seq<char>, job_id: u128, reason: Seq<char>)
    ensures
        failed_payload(event, job_id, reason).get("type"@) == Some(JsonView::Text(event)),
        failed_payload(event, job_id, reason).get("job_id"@) == Some(
            JsonView::Text(uuid_text(job_id)),
        ),
        failed_payload(event, job_id, reason).get("error"@) == Some(JsonView::Text(reason)),
{
    reveal_strlit("type");
    reveal_strlit("job_id");
    reveal_strlit("error");
    assert("type"@.len() == 4 && "job_id"@.len() == 6 && "error"@.len() == 5);
    let m = failed_payload(event, job_id, reason)->Object_0;
    lemma_member_at(m, 0);
    lemma_member_at(m, 1);
    lemma_member_at(m, 2);
}

/// What is told of a page that was scraped: the job, and the whole result.
pub proof fn law_scrape_completed(job_id: u128, result: JsonView)
    ensures
        scrape_completed(job_id, result).get("type"@) == Some(JsonView::Text("scrape.completed"@)),
        scrape_completed(job_id, result).get("job_id"@) == Some(JsonView::Text(uuid_text(job_id))),
        scrape_completed(job_id, result).get("data"@) == Some(result),
        crawl_page_payload(job_id, result).get("type"@) == Some(JsonView::Text("crawl.page"@)),
        crawl_page_payload(job_id, result).get("job_id"@) == Some(
            JsonView::Text(uuid_text(job_id)),
        ),
        crawl_page_payload(job_id, result).get("data"@) == Some(result),
{
    reveal_strlit("type");
    reveal_strlit("job_id");
    reveal_strlit("data");
    assert("type"@.len() == 4 && "job_id"@.len() == 6 && "data"@.len() == 4);
    assert("type"@[0] == 't' && "data"@[0] == 'd');
    let m = scrape_completed(job_id, result)->Object_0;
    lemma_member_at(m, 0);
    lemma_member_at(m, 1);
    lemma_member_at(m, 2);
    let n = crawl_page_payload(job_id, result)->Object_0;
    lemma_member_at(n, 0);
    lemma_member_at(n, 1);
    lemma_member_at(n, 2);
}

/// What is told of a crawl that begins or is over, and of a batch that is over: the job,
/// its group, and how many pages there are.
pub proof fn law_group_payloads(job_id: u128, group_id: u128, total: nat)
    ensures
        ({
            let s = crawl_started_payload(job_id, group_id);
            &&& s.get("type"@) == Some(JsonView::Text("crawl.started"@))
            &&& s.get("job_id"@) == Some(JsonView::Text(uuid_text(job_id)))
            &&& s.get("group_id"@) == Some(JsonView::Text(uuid_text(group_id)))
        }),
        ({
            let c = crawl_completed_payload(job_id, group_id, total);
            &&& c.get("type"@) == Some(JsonView::Text("crawl.completed"@))
            &&& c.get("job_id"@) == Some(JsonView::Text(uuid_text(job_id)))
            &&& c.get("group_id"@) == Some(JsonView::Text(uuid_text(group_id)))
            &&& c.get("total"@) == Some(JsonView::Unsigned(total as u64))
        }),
        ({
            let b = batch_completed_payload(job_id, total);
            &&& b.get("type"@) == Some(JsonView::Text("batch_scrape.completed"@))
            &&& b.get("job_id"@) == Some(JsonView::Text(uuid_text(job_id)))
            &&& b.get("total"@) == Some(JsonView::Unsigned(total as u64))
        }),
{
    reveal_strlit("type");
    reveal_strlit("job_id");
    reveal_strlit("group_id");
    reveal_strlit("total");
    assert("type"@.len() == 4 && "job_id"@.len() == 6 && "group_id"@.len() == 8 && "total"@.len()
        == 5);
    let s = crawl_started_payload(job_id, group_id)->Object_0;
    lemma_member_at(s, 0);
    lemma_member_at(s, 1);
    lemma_member_at(s, 2);
    let c = crawl_completed_payload(job_id, group_id, total)->Object_0;
    lemma_member_at(c, 0);
    lemma_member_at(c, 1);
    lemma_member_at(c, 2);
    lemma_member_at(c, 3);
    let b = batch_completed_payload(job_id, total)->Object_0;
    lemma_member_at(b, 0);
    lemma_member_at(b, 1);
    lemma_member_at(b, 2);
}

/// Unless other sites are allowed, data is extracted of exactly those pages of a list
/// that are on the site of the first one, or not known to be on another; where that one
/// is on no site, of all of them.
pub proof fn law_extracted_urls(urls: Seq<Seq<char>>)
    ensures
        extracted_urls(urls, true) == urls,
        urls.len() > 0 ==> match parsed_url(urls[0]) {
            Ok(first) => match first.host_str {
                Some(host) => extracted_urls(urls, false) == urls.filter(
                    |u: Seq<char>|
                        match parsed_url(u) {
                            Ok(p) => p.host_text() == host,
                            Err(_) => true,
                        },
                ),
                None => extracted_urls(urls, false) == urls,
            },
            Err(_) => extracted_urls(urls, false) == urls,
        },
{
    let origin = origin_host(urls);
    lemma_same_origin_filter(urls, origin);
    if let Some(host) = origin {
        assert((|u: Seq<char>| same_origin(u, origin)) =~= (|u: Seq<char>|
            match parsed_url(u) {
                Ok(p) => p.host_text() == host,
                Err(_) => true,
            }));
    } else {
        lemma_no_origin(urls);
    }
}

proof fn lemma_same_origin_filter(urls: Seq<Seq<char>>, origin: Option<Seq<char>>)
    ensures
        same_origin_urls(urls, origin) == urls.filter(|u: Seq<char>| same_origin(u, origin)),
    decreases urls.len(),
{
    reveal(Seq::filter);
    if urls.len() > 0 {
        lemma_same_origin_filter(urls.drop_last(), origin);
    } else {
        assert(urls =~= Seq::empty());
    }
}

proof fn lemma_no_origin(urls: Seq<Seq<char>>)
    ensures
        same_origin_urls(urls, None) == urls,
    decreases urls.len(),
{
    if urls.len() > 0 {
        lemma_no_origin(urls.drop_last());
        assert(urls.drop_last().push(urls.last()) =~= urls);
    } else {
        assert(urls =~= Seq::empty());
    }
}

/// A webhook goes to a local host where its URL has one; what has no host, or is no URL,
/// goes to none.
pub proof fn law_local_target(url: Result<UrlView, Seq<char>>)
    ensures
        url is Err ==> !is_local_target(url),
        url matches Ok(u) ==> (u.host is None ==> !is_local_target(url)),
        url matches Ok(u) ==> (u.host matches Some(h) ==> is_local_target(url) == is_local_host(h)),
{
}

/// A webhook that never gets through is tried three times, and one that is refused or
/// delivered once.
pub proof fn law_attempts(outcomes: Seq<DeliveryOutcome>)
    requires
        outcomes.len() >= 3,
    ensures
        (forall|i: int| 0 <= i < 3 ==> (#[trigger] outcomes[i]) is NotSent) ==> attempts_made(
            outcomes,
            0,
        ) == 3,
        outcomes[0] matches DeliveryOutcome::Status(s) && s < 500 && s != 429 ==> attempts_made(
            outcomes,
            0,
        ) == 1,
{
    reveal_with_fuel(attempts_made, 4);
    let rest = outcomes.drop_first();
    assert(rest[0] == outcomes[1]);
    assert(rest.drop_first()[0] == outcomes[2]);
}

/// When a worker has ended, the last one stands in its place, and all others where they
/// stood.
pub proof fn law_survivors(ids: Seq<u32>, dead: int, k: int)
    requires
        0 <= dead < ids.len(),
        0 <= k < ids.len() - 1,
    ensures
        surviving(ids, dead).len() == ids.len() - 1,
        surviving(ids, dead)[k] == (if k == dead {
            ids.last()
        } else {
            ids[k]
        }),
{
}
/// What a crawl does with pages that follow each other follows each other, and each page
/// is told of right behind where it is stored.
pub proof fn law_pages_are_taken_in_turn(
    webhook: Option<WebhookConfig>,
    priority: i32,
    job_id: u128,
    group_id: u128,
    a: Seq<PageView>,
    b: Seq<PageView>,
    page: PageView,
)
    ensures
        crawl_pages_steps(webhook, priority, job_id, group_id, a + b) == crawl_pages_steps(
            webhook,
            priority,
            job_id,
            group_id,
            a,
        ) + crawl_pages_steps(webhook, priority, job_id, group_id, b),
        ({
            let one = crawl_pages_steps(webhook, priority, job_id, group_id, seq![page]);
            &&& one.len() > 0
            &&& holds_page(one[0], page, group_id, priority)
            &&& hook_for(webhook, "page"@) is None ==> one.len() == 1
            &&& hook_for(webhook, "page"@) matches Some(u) ==> one.len() == 2 && one[1] == (
            StepView::Notify { url: u, payload: crawl_page_payload(job_id, page.result) })
        }),
    decreases b.len(),
{
    if b.len() == 0 {
        assert(a + b =~= a);
        assert(crawl_pages_steps(webhook, priority, job_id, group_id, a) + crawl_pages_steps(
            webhook,
            priority,
            job_id,
            group_id,
            b,
        ) =~= crawl_pages_steps(webhook, priority, job_id, group_id, a));
    } else {
        law_pages_are_taken_in_turn(webhook, priority, job_id, group_id, a, b.drop_last(), page);
        assert((a + b).drop_last() =~= a + b.drop_last());
        lemma_add_assoc(
            crawl_pages_steps(webhook, priority, job_id, group_id, a),
            crawl_pages_steps(webhook, priority, job_id, group_id, b.drop_last()),
            crawl_page_steps(webhook, priority, job_id, group_id, b.last()),
        );
    }
    lemma_one_page(webhook, priority, job_id, group_id, page);
}

proof fn lemma_one_page(
    webhook: Option<WebhookConfig>,
    priority: i32,
    job_id: u128,
    group_id: u128,
    page: PageView,
)
    ensures
        ({
            let one = crawl_pages_steps(webhook, priority, job_id, group_id, seq![page]);
            &&& one.len() > 0
            &&& holds_page(one[0], page, group_id, priority)
            &&& hook_for(webhook, "page"@) is None ==> one.len() == 1
            &&& hook_for(webhook, "page"@) matches Some(u) ==> one.len() == 2 && one[1] == (
            StepView::Notify { url: u, payload: crawl_page_payload(job_id, page.result) })
        }),
{
    reveal_with_fuel(crawl_pages_steps, 2);
    assert(seq![page].drop_last() =~= Seq::<PageView>::empty());
    assert(seq![page].last() == page);
    law_stored_page(page, group_id, priority);
    let steps = crawl_page_steps(webhook, priority, job_id, group_id, page);
    assert(crawl_pages_steps(webhook, priority, job_id, group_id, seq![page]) =~= steps);
}

/// A crawl completes its group once all its pages are stored, then the job, and tells of
/// its end last.
pub proof fn law_crawl_ends_behind_its_pages(
    webhook: Option<WebhookConfig>,
    priority: i32,
    job_id: u128,
    group_id: u128,
    pages: Seq<PageView>,
)
    ensures
        ({
            let steps = crawl_steps(webhook, priority, job_id, group_id, pages);
            let n = crawl_pages_steps(webhook, priority, job_id, group_id, pages).len() as int;
            &&& n + 2 <= steps.len()
            &&& forall|i: int|
                0 <= i < n ==> (#[trigger] steps[i]) is StorePage || steps[i] is Notify
            &&& steps[n] == (StepView::FinishGroup { group_id })
            &&& steps[n + 1] is Complete
            &&& hook_for(webhook, "completed"@) is None ==> steps.len() == n + 2
            &&& hook_for(webhook, "completed"@) matches Some(u) ==> steps.len() == n + 3
                && steps[n + 2] == (StepView::Notify {
                url: u,
                payload: crawl_completed_payload(job_id, group_id, pages.len()),
            })
        }),
{
    let steps = crawl_steps(webhook, priority, job_id, group_id, pages);
    let a = crawl_pages_steps(webhook, priority, job_id, group_id, pages);
    lemma_pages_no_end(webhook, priority, job_id, group_id, pages);
    assert forall|i: int| 0 <= i < a.len() implies (#[trigger] steps[i]) is StorePage
        || steps[i] is Notify by {
        assert(steps[i] == a[i]);
        assert(!is_end(a[i]));
    }
}

/// A batch stores its pages first, then completes its group, then itself, and tells of its
/// end last.
pub proof fn law_batch_ends_behind_its_pages(
    webhook: Option<WebhookConfig>,
    priority: i32,
    job_id: u128,
    group_id: u128,
    outcomes: Seq<Option<PageView>>,
)
    ensures
        ({
            let steps = batch_steps(webhook, priority, job_id, group_id, outcomes);
            let n = outcomes.filter_map(|o: Option<PageView>| o).len() as int;
            &&& n + 2 <= steps.len()
            &&& forall|i: int| 0 <= i < n ==> (#[trigger] steps[i]) is StorePage
            &&& steps[n] == (StepView::FinishGroup { group_id })
            &&& steps[n + 1] is Complete
            &&& hook_for(webhook, "completed"@) is None ==> steps.len() == n + 2
            &&& hook_for(webhook, "completed"@) matches Some(u) ==> steps.len() == n + 3
                && steps[n + 2] == (StepView::Notify {
                url: u,
                payload: batch_completed_payload(job_id, n as nat),
            })
        }),
{
    law_scraped_only(outcomes);
    let pages = scraped_only(outcomes);
    let a = store_steps(pages, group_id, priority);
    let steps = batch_steps(webhook, priority, job_id, group_id, outcomes);
    assert forall|i: int| 0 <= i < a.len() implies (#[trigger] steps[i]) is StorePage by {
        assert(steps[i] == a[i]);
        assert(a[i] == store_step(pages[i], group_id, priority));
    }
}
/// A crawl or batch that has failed is marked, with the reason, and then tells its webhook
/// of it, where that wants to hear of failures; any other job that has failed is only
/// marked.
pub proof fn law_failed_job_tells_its_webhook(
    envelope: JobEnvelope,
    job_id: u128,
    outcome: JobOutcome,
    reason: Seq<char>,
)
    requires
        (outcome matches JobOutcome::Failed(e) && reason == e@.message()) || (outcome is TimedOut
            && reason == "job timeout"@),
    ensures
        ({
            let steps = outcome_steps(envelope, job_id, outcome);
            let hook = match envelope {
                JobEnvelope::Crawl(job) => hook_for(job.webhook, "failed"@),
                JobEnvelope::BatchScrape(job) => hook_for(job.webhook, "failed"@),
                _ => None,
            };
            let event = if envelope is Crawl {
                "crawl.failed"@
            } else {
                "batch_scrape.failed"@
            };
            &&& steps.len() == (if hook is Some {
                2nat
            } else {
                1nat
            })
            &&& steps[0] == (StepView::Fail { reason })
            &&& hook matches Some(u) ==> steps[1] == (StepView::Notify {
                url: u,
                payload: failed_payload(event, job_id, reason),
            })
        }),
{
}
} // verus!
