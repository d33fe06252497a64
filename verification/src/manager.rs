//! The jobs under way: one for each repository, how they are cancelled, and what they report.
use crate::config::Config;
use crate::error::{error_of, ApiError, ErrorView};
use crate::harness::{job_problem, validate_job_request};
use crate::jobs::{
    branch_name, command_outcome, command_result, new_job, worktree_path, MAX_EVENT_HISTORY,
};
use crate::model::{
    terminal, CreateJobRequest, EventView, JobEvent, JobRecord, JobStatus, JobView,
    ReasoningEffort,
};
use crate::order::{sorts, stable_sort};
use crate::outside::{hyphenated, is_random_id, random_uuid, uuid_text};
use crate::path::{join_path, joined_path};
use crate::text::{begins_with, copy_list, lower, lowered, same_text, texts};
use crate::textmap::TextMap;
use crate::util::{is_timestamp, iso_now, scrub, scrub_log_line};
use vstd::prelude::*;

verus! {

// ---------------------------------------------------------------------------------------------
// The state
// ---------------------------------------------------------------------------------------------

/// The jobs under way.
pub struct JobManager {
    pub config: Config,
    pub claims: TextMap<String>,
    pub process_groups: TextMap<u32>,
    pub cancelled: TextMap<()>,
    pub history: TextMap<Vec<JobEvent>>,
}

/// The state of a [`JobManager`]: its configuration, which job each repository is claimed by, which
/// group of processes each job runs, which jobs are to stop, and the last events of each job.
#[verifier::ext_equal]
pub struct ManagerView {
    pub config: Config,
    pub claims: Map<Seq<char>, String>,
    pub process_groups: Map<Seq<char>, u32>,
    pub cancelled: Set<Seq<char>>,
    pub history: Map<Seq<char>, Seq<EventView>>,
}

/// What each of a sequence of events says.
pub open spec fn event_views(events: Seq<JobEvent>) -> Seq<EventView> {
    events.map_values(|event: JobEvent| event@)
}

/// What the events under each key say.
pub open spec fn history_views(history: Map<Seq<char>, Vec<JobEvent>>) -> Map<
    Seq<char>,
    Seq<EventView>,
> {
    history.map_values(|events: Vec<JobEvent>| event_views(events@))
}

impl View for JobManager {
    type V = ManagerView;

    open spec fn view(&self) -> ManagerView {
        ManagerView {
            config: self.config,
            claims: self.claims@,
            process_groups: self.process_groups@,
            cancelled: self.cancelled@.dom(),
            history: history_views(self.history@),
        }
    }
}

/// No jobs.
pub open spec fn idle(config: Config) -> ManagerView {
    ManagerView {
        config,
        claims: Map::empty(),
        process_groups: Map::empty(),
        cancelled: Set::empty(),
        history: Map::empty(),
    }
}

/// What is said of a request for a repository that has a job.
pub open spec fn busy(existing: Seq<char>) -> ErrorView {
    error_of(
        409,
        "repo_job_running"@,
        "repository already has queued or running job "@ + existing,
    )
}

/// The state once a repository is free of a job, where that job has claimed it.
pub open spec fn released(state: ManagerView, repo: Seq<char>, id: Seq<char>) -> ManagerView {
    let key = lower(repo);
    if state.claims.contains_key(key) && state.claims[key]@ == id {
        ManagerView { claims: state.claims.remove(key), ..state }
    } else {
        state
    }
}

/// The last 500 events.
pub open spec fn recent(events: Seq<EventView>) -> Seq<EventView> {
    if events.len() <= MAX_EVENT_HISTORY {
        events
    } else {
        events.skip(events.len() - MAX_EVENT_HISTORY)
    }
}

/// The events of a job so far.
pub open spec fn events_of(state: ManagerView, id: Seq<char>) -> Seq<EventView> {
    if state.history.contains_key(id) {
        state.history[id]
    } else {
        seq![]
    }
}

/// The state once an event is recorded.
pub open spec fn with_event(state: ManagerView, id: Seq<char>, event: EventView) -> ManagerView {
    ManagerView {
        history: state.history.insert(id, recent(events_of(state, id).push(event))),
        ..state
    }
}

/// An event of a job, without secrets.
pub open spec fn event_of(kind: Seq<char>, line: Seq<char>, timestamp: Seq<char>) -> EventView {
    EventView { timestamp, kind, line: scrub(line) }
}

/// The record of a job when its turn has come: it runs, unless it was cancelled or the scheduler
/// stopped.
pub open spec fn begun(record: JobView, granted: bool, cancelled: bool, now: Seq<char>) -> JobView {
    if !granted {
        JobView {
            status: JobStatus::Failed,
            finished_at: Some(now),
            error: Some("job scheduler stopped before this job could start"@),
            ..record
        }
    } else if cancelled {
        JobView {
            status: JobStatus::Cancelled,
            finished_at: Some(now),
            error: None,
            ..record
        }
    } else {
        JobView { status: JobStatus::Running, started_at: Some(now), ..record }
    }
}

/// The record of a job once its work has come to an end.
pub open spec fn settled(record: JobView, cancelled: bool, work: Result<(), Seq<char>>) -> JobView {
    if cancelled {
        JobView { status: JobStatus::Cancelled, error: None, ..record }
    } else {
        match work {
            Ok(()) => JobView { status: JobStatus::Succeeded, error: None, ..record },
            Err(message) => JobView {
                status: JobStatus::Failed,
                error: Some(scrub(message)),
                ..record
            },
        }
    }
}

/// The work of a job as values.
pub open spec fn work_view(work: Result<(), String>) -> Result<(), Seq<char>> {
    match work {
        Ok(()) => Ok(()),
        Err(message) => Err(message@),
    }
}

/// Something that is done for a job, in the order in which it is listed.
pub enum Effect {
    /// Move the card to a column.
    MoveCard(&'static str),
    /// Comment on the issue.
    Comment(String),
    /// Record the present time as the end of the job.
    StampEnd,
    /// Store the record.
    Persist,
    /// Report a change of the status.
    Event(&'static str),
    /// Forget the processes of the job.
    Forget,
    /// Free the repository.
    Release,
    /// Tell the processes that the job runs at that time to stop, where it runs any.
    Signal,
}

/// What an [`Effect`] says.
#[verifier::ext_equal]
pub enum EffectView {
    MoveCard(Seq<char>),
    Comment(Seq<char>),
    StampEnd,
    Persist,
    Event(Seq<char>),
    Forget,
    Release,
    Signal,
}

impl View for Effect {
    type V = EffectView;

    open spec fn view(&self) -> EffectView {
        match *self {
            Effect::MoveCard(column) => EffectView::MoveCard(column@),
            Effect::Comment(body) => EffectView::Comment(body@),
            Effect::StampEnd => EffectView::StampEnd,
            Effect::Persist => EffectView::Persist,
            Effect::Event(status) => EffectView::Event(status@),
            Effect::Forget => EffectView::Forget,
            Effect::Release => EffectView::Release,
            Effect::Signal => EffectView::Signal,
        }
    }
}

/// What each of a sequence of effects says.
pub open spec fn effect_views(effects: Seq<Effect>) -> Seq<EffectView> {
    effects.map_values(|effect: Effect| effect@)
}

/// The event that tells of a status.
pub open spec fn status_event(status: JobStatus) -> Seq<char> {
    match status {
        JobStatus::Queued => "queued"@,
        JobStatus::Running => "running"@,
        JobStatus::Cancelling => "cancelling"@,
        JobStatus::Cancelled => "cancelled"@,
        JobStatus::Succeeded => "succeeded"@,
        JobStatus::Failed => "failed"@,
    }
}

/// What is done once a job has had its turn: it is stored and reported, and where it has ended
/// already its repository is free.
pub open spec fn beginning(record: JobView) -> Seq<EffectView> {
    let start = seq![EffectView::Persist, EffectView::Event(status_event(record.status))];
    if terminal(record.status) {
        start.push(EffectView::Release)
    } else {
        start
    }
}

/// What is done once the work of a job has come to an end: where it failed the card goes back and
/// the issue is told; then the end is recorded and reported, the processes are forgotten, and the
/// repository is free.
pub open spec fn ending(record: JobView) -> Seq<EffectView> {
    let told = if record.status == JobStatus::Failed {
        seq![
            EffectView::MoveCard("board:ready"@),
            EffectView::Comment(failed_report(record.id, record.pr_url)),
        ]
    } else {
        seq![]
    };
    told + seq![
        EffectView::StampEnd,
        EffectView::Persist,
        EffectView::Event(status_event(record.status)),
        EffectView::Forget,
        EffectView::Release,
    ]
}

/// What is done to cancel a job: where it waits for its turn it has ended, else the processes that
/// it runs once that is stored and reported are told to stop.
pub open spec fn cancelling(record: JobView) -> Seq<EffectView> {
    if record.status == JobStatus::Queued {
        seq![EffectView::Persist, EffectView::Event("cancelled"@), EffectView::Release]
    } else {
        seq![EffectView::Persist, EffectView::Event("cancelling"@), EffectView::Signal]
    }
}

/// The record of a job that is cancelled: at once where it waits for its turn, else it is told to
/// stop.
pub open spec fn cancelled_record(record: JobView, now: Seq<char>) -> JobView {
    if record.status == JobStatus::Queued {
        JobView { status: JobStatus::Cancelled, finished_at: Some(now), ..record }
    } else {
        JobView { status: JobStatus::Cancelling, ..record }
    }
}

impl JobManager {
    /// A manager without jobs.
    pub fn new(config: Config) -> (manager: JobManager)
        ensures
            manager@ == idle(config),
    {
        let manager = JobManager {
            config,
            claims: TextMap::new(),
            process_groups: TextMap::new(),
            cancelled: TextMap::new(),
            history: TextMap::new(),
        };
        assert(manager@.cancelled == Set::<Seq<char>>::empty());
        assert(manager@.history == Map::<Seq<char>, Seq<EventView>>::empty());
        manager
    }

    /// Whether the worktrees of old jobs are removed.
    pub fn cleanup_enabled(&self) -> (yes: bool)
        ensures
            yes == self@.config.cleanup.enabled,
    {
        self.config.cleanup.enabled
    }

    /// Makes the record of a new job and claims its repository, with a given identifier and time.
    pub fn create_at(
        &mut self,
        request: &CreateJobRequest,
        effort: Option<ReasoningEffort>,
        id: u128,
        created_at: String,
    ) -> (result: Result<JobRecord, ApiError>)
        ensures
            creation(
                old(self)@,
                *request,
                effort,
                id,
                created_at@,
                final(self)@,
                result,
            ),
    {
        if let Err(error) = validate_job_request(&self.config, request) {
            return Err(error);
        }
        let key = lowered(request.repo.as_str());
        if let Some(existing) = self.claims.get(key.as_str()) {
            let message = "repository already has queued or running job ".to_owned().concat(
                existing.as_str(),
            );
            return Err(ApiError::conflict("repo_job_running", message.as_str()));
        }
        let id = uuid_text(id);
        self.claims.insert(key, id.clone());
        let record = JobRecord {
            id: id.clone(),
            repo: request.repo.clone(),
            issue: request.issue,
            harness: request.harness.clone(),
            crew: copy_list(&request.crew),
            effort,
            status: JobStatus::Queued,
            branch: branch_name(request.issue, id.as_str()),
            worktree: worktree_path(
                self.config.work_dir.as_str(),
                request.repo.as_str(),
                id.as_str(),
            ),
            pr_url: None,
            created_at,
            started_at: None,
            finished_at: None,
            error: None,
        };
        Ok(record)
    }

    /// Makes the record of a new job and claims its repository.
    pub fn create(&mut self, request: &CreateJobRequest, effort: Option<ReasoningEffort>) -> (
        result: Result<JobRecord, ApiError>)
        ensures
            exists|id: u128, created_at: Seq<char>|
                is_random_id(id) && is_timestamp(created_at) && #[trigger] creation(
                    old(self)@,
                    *request,
                    effort,
                    id,
                    created_at,
                    final(self)@,
                    result,
                ),
    {
        self.create_at(request, effort, random_uuid(), iso_now())
    }

    /// Whether a repository has a job.
    pub fn is_claimed(&self, repo: &str) -> (yes: bool)
        ensures
            yes == self@.claims.contains_key(lower(repo@)),
    {
        self.claims.contains_key(lowered(repo).as_str())
    }

    /// The job that has claimed a repository.
    pub fn claimant(&self, repo: &str) -> (id: Option<&String>)
        ensures
            match id {
                Some(id) => self@.claims.contains_key(lower(repo@)) && self@.claims[lower(repo@)]
                    == *id,
                None => !self@.claims.contains_key(lower(repo@)),
            },
    {
        self.claims.get(lowered(repo).as_str())
    }

    /// Claims a repository for a job.
    pub fn claim(&mut self, repo: &str, id: String)
        ensures
            final(self)@ == (ManagerView {
                claims: old(self)@.claims.insert(lower(repo@), id),
                ..old(self)@
            }),
    {
        self.claims.insert(lowered(repo), id);
    }

    /// Frees a repository of a job, where that job has claimed it.
    pub fn release_repo(&mut self, repo: &str, id: &str)
        ensures
            final(self)@ == released(old(self)@, repo@, id@),
    {
        let key = lowered(repo);
        let own = match self.claims.get(key.as_str()) {
            Some(existing) => same_text(existing.as_str(), id),
            None => false,
        };
        if own {
            self.claims.remove(key.as_str());
        }
    }

    /// Takes in a request to cancel the job of a given identifier, whose record is given.
    pub fn cancel(&mut self, id: &str, record: JobRecord, now: String) -> (result: Result<
        (JobRecord, Vec<Effect>),
        ApiError,
    >)
        ensures
            match result {
                Ok((now_record, effects)) => {
                    &&& !terminal(record.status)
                    &&& final(self)@ == (ManagerView {
                        cancelled: old(self)@.cancelled.insert(id@),
                        ..old(self)@
                    })
                    &&& now_record@ == cancelled_record(record@, now@)
                    &&& effect_views(effects@) == cancelling(record@)
                },
                Err(error) => terminal(record.status) && final(self)@ == old(self)@ && error@
                    == error_of(409, "job_not_running"@, "job has already finished"@),
            },
    {
        if record.status.is_terminal() {
            return Err(ApiError::conflict("job_not_running", "job has already finished"));
        }
        let ghost old_record = record@;
        let mut record = record;
        self.cancelled.insert(id.to_owned(), ());
        assert(self.cancelled@.dom() == old(self)@.cancelled.insert(id@));
        let effects = if record.status == JobStatus::Queued {
            record.status = JobStatus::Cancelled;
            record.finished_at = Some(now);
            vec![Effect::Persist, Effect::Event("cancelled"), Effect::Release]
        } else {
            record.status = JobStatus::Cancelling;
            vec![Effect::Persist, Effect::Event("cancelling"), Effect::Signal]
        };
        assert(effect_views(effects@) == cancelling(old_record));
        Ok((record, effects))
    }

    /// Whether a job may go on.
    pub fn ensure_not_cancelled(&self, id: &str) -> (result: Result<(), String>)
        ensures
            match result {
                Ok(()) => !self@.cancelled.contains(id@),
                Err(message) => self@.cancelled.contains(id@) && message@ == "job cancelled"@,
            },
    {
        if self.cancelled.contains_key(id) {
            Err("job cancelled".to_owned())
        } else {
            Ok(())
        }
    }

    /// What a command of a job comes to, unless the job is to stop.
    pub fn run_command(
        &self,
        id: &str,
        program: &str,
        success: bool,
        status: &str,
        stdout: &Vec<String>,
        stderr: &Vec<String>,
    ) -> (result: Result<String, String>)
        ensures
            output_view(result) == if self@.cancelled.contains(id@) {
                Err("job cancelled"@)
            } else {
                command_outcome(program@, success, status@, texts(stdout@), texts(stderr@))
            },
    {
        match self.ensure_not_cancelled(id) {
            Err(message) => Err(message),
            Ok(()) => command_result(program, success, status, stdout, stderr),
        }
    }

    /// Gives a job its turn; `granted` tells whether the scheduler still runs. A job that is not
    /// running afterwards has come to its end.
    pub fn begin(&mut self, record: JobRecord, granted: bool, now: String) -> (result: JobRecord)
        ensures
            result@ == begun(
                record@,
                granted,
                old(self)@.cancelled.contains(record.id@),
                now@,
            ),
            final(self)@ == if granted {
                ManagerView {
                    cancelled: old(self)@.cancelled.remove(record.id@),
                    ..old(self)@
                }
            } else {
                old(self)@
            },
    {
        let mut record = record;
        if !granted {
            record.status = JobStatus::Failed;
            record.finished_at = Some(now);
            record.error = Some("job scheduler stopped before this job could start".to_owned());
            return record;
        }
        let was_cancelled = self.cancelled.contains_key(record.id.as_str());
        self.cancelled.remove(record.id.as_str());
        assert(self.cancelled@.dom() == old(self)@.cancelled.remove(record.id@));
        if was_cancelled {
            record.status = JobStatus::Cancelled;
            record.finished_at = Some(now);
            record.error = None;
        } else {
            record.status = JobStatus::Running;
            record.started_at = Some(now);
        }
        record
    }

    /// Settles a job whose work has come to an end.
    pub fn settle(&mut self, record: JobRecord, work: Result<(), String>) -> (result: JobRecord)
        ensures
            result@ == settled(
                record@,
                old(self)@.cancelled.contains(record.id@),
                work_view(work),
            ),
            final(self)@ == (ManagerView {
                cancelled: old(self)@.cancelled.remove(record.id@),
                ..old(self)@
            }),
    {
        let mut record = record;
        let was_cancelled = self.cancelled.contains_key(record.id.as_str());
        self.cancelled.remove(record.id.as_str());
        assert(self.cancelled@.dom() == old(self)@.cancelled.remove(record.id@));
        if was_cancelled {
            record.status = JobStatus::Cancelled;
            record.error = None;
        } else {
            match work {
                Ok(()) => {
                    record.status = JobStatus::Succeeded;
                    record.error = None;
                },
                Err(message) => {
                    record.status = JobStatus::Failed;
                    record.error = Some(scrub_log_line(message.as_str()));
                },
            }
        }
        record
    }

    /// Remembers the group of processes that a job runs.
    pub fn process_started(&mut self, id: &str, process_group: u32)
        ensures
            final(self)@ == (ManagerView {
                process_groups: old(self)@.process_groups.insert(id@, process_group),
                ..old(self)@
            }),
    {
        self.process_groups.insert(id.to_owned(), process_group);
    }

    /// Forgets the group of processes that a job ran.
    pub fn process_ended(&mut self, id: &str)
        ensures
            final(self)@ == (ManagerView {
                process_groups: old(self)@.process_groups.remove(id@),
                ..old(self)@
            }),
    {
        self.process_groups.remove(id);
    }

    /// The group of processes that a job runs.
    pub fn process_group(&self, id: &str) -> (group: Option<u32>)
        ensures
            group == if self@.process_groups.contains_key(id@) {
                Some(self@.process_groups[id@])
            } else {
                None
            },
    {
        match self.process_groups.get(id) {
            Some(group) => Some(*group),
            None => None,
        }
    }

    /// Records an event of a job at a given time, and gives it back for those who listen.
    pub fn record_event(&mut self, id: &str, kind: &'static str, line: &str, timestamp: String) -> (
        event: JobEvent)
        ensures
            event@ == event_of(kind@, line@, timestamp@),
            final(self)@ == with_event(old(self)@, id@, event@),
    {
        let event = JobEvent { timestamp, kind, line: scrub_log_line(line) };
        let mut events = self.events(id);
        let ghost before = events@;
        events.push(event.clone());
        assert(event_views(events@) == event_views(before).push(event@));
        let len: usize = events.len();
        if len > MAX_EVENT_HISTORY {
            let ghost all = events@;
            let tail = events.split_off(len - MAX_EVENT_HISTORY);
            assert(tail@ == all.subrange(all.len() - MAX_EVENT_HISTORY, all.len() as int));
            assert(event_views(tail@) == recent(event_views(all)));
            events = tail;
        }
        let ghost history = self.history@;
        self.history.insert(id.to_owned(), events);
        assert(history_views(history.insert(id@, events)) == history_views(history).insert(
            id@,
            event_views(events@),
        ));
        event
    }

    /// Records an event of a job, and gives it back for those who listen.
    pub fn send_event(&mut self, id: &str, kind: &'static str, line: &str) -> (event: JobEvent)
        ensures
            exists|timestamp: Seq<char>|
                is_timestamp(timestamp) && event@ == #[trigger] event_of(kind@, line@, timestamp),
            final(self)@ == with_event(old(self)@, id@, event@),
    {
        self.record_event(id, kind, line, iso_now())
    }

    /// The events of a job so far.
    pub fn events(&self, id: &str) -> (events: Vec<JobEvent>)
        ensures
            event_views(events@) == events_of(self@, id@),
    {
        let mut copy: Vec<JobEvent> = Vec::new();
        assert(event_views(copy@) == Seq::<EventView>::empty());
        if let Some(events) = self.history.get(id) {
            let ghost all = event_views(events@);
            let mut i: usize = 0;
            assert(all.take(0) == Seq::<EventView>::empty());
            while i < events.len()
                invariant
                    all == event_views(events@),
                    i <= events@.len(),
                    event_views(copy@) == all.take(i as int),
                decreases events@.len() - i,
            {
                let ghost before = copy@;
                copy.push(events[i].clone());
                assert(event_views(copy@) == event_views(before).push(events@[i as int]@));
                assert(all.take(i + 1) == all.take(i as int).push(events@[i as int]@));
                i += 1;
            }
            assert(all.take(i as int) == all);
        }
        copy
    }

    /// Where the record of a job is stored.
    pub fn job_path(&self, id: &str) -> (path: String)
        ensures
            path@ == join_path(join_path(self@.config.state_dir@, "jobs"@), id@ + ".json"@),
    {
        let name = id.to_owned().concat(".json");
        joined_path(
            joined_path(self.config.state_dir.as_str(), "jobs").as_str(),
            name.as_str(),
        )
    }

    /// The jobs in the order in which they are shown: those created last first.
    pub fn list(jobs: Vec<JobRecord>) -> (sorted: Vec<JobRecord>)
        ensures
            sorts(jobs@, sorted@),
    {
        stable_sort(jobs)
    }
}

/// The output of a command, or why there is none.
pub open spec fn output_view(result: Result<String, String>) -> Result<Seq<char>, Seq<char>> {
    match result {
        Ok(output) => Ok(output@),
        Err(message) => Err(message@),
    }
}

/// What comes of a request for a job: the state behind it, and the answer.
pub open spec fn creation(
    before: ManagerView,
    request: CreateJobRequest,
    effort: Option<ReasoningEffort>,
    id: u128,
    created_at: Seq<char>,
    after: ManagerView,
    answer: Result<JobRecord, ApiError>,
) -> bool {
    let key = lower(request.repo@);
    match job_problem(texts(before.config.allowed_harnesses@), request) {
        Some(error) => after == before && answer is Err && answer->Err_0@ == error,
        None => if before.claims.contains_key(key) {
            after == before && answer is Err && answer->Err_0@ == busy(before.claims[key]@)
        } else {
            &&& answer is Ok
            &&& answer->Ok_0@ == new_job(
                before.config.work_dir@,
                request,
                effort,
                hyphenated(id),
                created_at,
            )
            &&& after == (ManagerView {
                claims: before.claims.insert(key, answer->Ok_0.id),
                ..before
            })
        },
    }
}

/// A record with the time at which its job ended.
pub fn finish_record(record: JobRecord, now: String) -> (result: JobRecord)
    ensures
        result@ == (JobView { finished_at: Some(now@), ..record@ }),
{
    let mut record = record;
    record.finished_at = Some(now);
    record
}

/// The event that tells of a status.
pub fn event_name(status: JobStatus) -> (event: &'static str)
    ensures
        event@ == status_event(status),
{
    match status {
        JobStatus::Queued => "queued",
        JobStatus::Running => "running",
        JobStatus::Cancelling => "cancelling",
        JobStatus::Cancelled => "cancelled",
        JobStatus::Succeeded => "succeeded",
        JobStatus::Failed => "failed",
    }
}

/// What is done once a job has had its turn.
pub fn begin_effects(record: &JobRecord) -> (effects: Vec<Effect>)
    ensures
        effect_views(effects@) == beginning(record@),
{
    let mut effects = vec![Effect::Persist, Effect::Event(event_name(record.status))];
    if record.status.is_terminal() {
        effects.push(Effect::Release);
    }
    assert(effect_views(effects@) == beginning(record@));
    effects
}

/// What is done once the work of a job has come to an end.
pub fn end_effects(record: &JobRecord) -> (effects: Vec<Effect>)
    ensures
        effect_views(effects@) == ending(record@),
{
    let mut effects: Vec<Effect> = Vec::new();
    if record.status == JobStatus::Failed {
        effects.push(Effect::MoveCard("board:ready"));
        effects.push(Effect::Comment(failed_comment(record)));
    }
    effects.push(Effect::StampEnd);
    effects.push(Effect::Persist);
    effects.push(Effect::Event(event_name(record.status)));
    effects.push(Effect::Forget);
    effects.push(Effect::Release);
    assert(effect_views(effects@) == ending(record@));
    effects
}

/// The comment that tells of a pull request.
pub open spec fn opened_report(id: Seq<char>, url: Seq<char>) -> Seq<char> {
    "Board job `"@ + id + "` opened "@ + url
}

/// The comment that tells of a job that failed.
pub open spec fn failed_report(id: Seq<char>, pr_url: Option<Seq<char>>) -> Seq<char> {
    match pr_url {
        Some(url) => opened_report(id, url)
            + ", but did not finish cleanly and returned this issue to `board:ready`. Open the Board app job record for details."@,
        None => "Board job `"@ + id
            + "` did not open a pull request and returned this issue to `board:ready`. Open the Board app job record for details."@,
    }
}

/// The comment that tells of a pull request.
pub fn opened_comment(id: &str, url: &str) -> (comment: String)
    ensures
        comment@ == opened_report(id@, url@),
{
    let mut comment = "Board job `".to_owned();
    comment.append(id);
    comment.append("` opened ");
    comment.append(url);
    comment
}

/// The comment that tells of a job that failed.
pub fn failed_comment(record: &JobRecord) -> (comment: String)
    ensures
        comment@ == failed_report(record@.id, record@.pr_url),
{
    match &record.pr_url {
        Some(url) => {
            let mut comment = opened_comment(record.id.as_str(), url.as_str());
            comment.append(
                ", but did not finish cleanly and returned this issue to `board:ready`. Open the Board app job record for details.",
            );
            comment
        },
        None => {
            let mut comment = "Board job `".to_owned();
            comment.append(record.id.as_str());
            comment.append(
                "` did not open a pull request and returned this issue to `board:ready`. Open the Board app job record for details.",
            );
            comment
        },
    }
}

// ---------------------------------------------------------------------------------------------
// Laws
// ---------------------------------------------------------------------------------------------

/// While a job has claimed a repository, another request for it is a conflict and changes nothing,
/// whatever the letter case of the name.
pub proof fn a_repository_has_one_job(
    before: ManagerView,
    first: CreateJobRequest,
    first_effort: Option<ReasoningEffort>,
    first_id: u128,
    first_time: Seq<char>,
    between: ManagerView,
    first_answer: Result<JobRecord, ApiError>,
    second: CreateJobRequest,
    second_effort: Option<ReasoningEffort>,
    second_id: u128,
    second_time: Seq<char>,
    after: ManagerView,
    second_answer: Result<JobRecord, ApiError>,
)
    requires
        creation(
            before,
            first,
            first_effort,
            first_id,
            first_time,
            between,
            first_answer,
        ),
        first_answer is Ok,
        creation(
            between,
            second,
            second_effort,
            second_id,
            second_time,
            after,
            second_answer,
        ),
        lower(first.repo@) == lower(second.repo@),
        job_problem(texts(before.config.allowed_harnesses@), second) is None,
    ensures
        second_answer is Err,
        second_answer->Err_0@ == busy(first_answer->Ok_0.id@),
        second_answer->Err_0.status == 409,
        after == between,
{
}

/// A job that ends gives back exactly the claim that it took.
pub proof fn a_released_repository_is_as_before(
    before: ManagerView,
    request: CreateJobRequest,
    effort: Option<ReasoningEffort>,
    id: u128,
    created_at: Seq<char>,
    after: ManagerView,
    answer: Result<JobRecord, ApiError>,
)
    requires
        creation(before, request, effort, id, created_at, after, answer),
        answer is Ok,
    ensures
        released(after, request.repo@, answer->Ok_0.id@) == before,
{
    let key = lower(request.repo@);
    assert(after.claims.remove(key) == before.claims);
}

/// A job cannot free a repository that another job has claimed.
pub proof fn an_old_job_cannot_release_a_newer_claim(
    state: ManagerView,
    repo: Seq<char>,
    id: Seq<char>,
)
    requires
        state.claims.contains_key(lower(repo)),
        state.claims[lower(repo)]@ != id,
    ensures
        released(state, repo, id) == state,
{
}

/// Of each job at most the last 500 events are remembered, and the newest always is.
pub proof fn histories_are_bounded(state: ManagerView, id: Seq<char>, event: EventView)
    ensures
        events_of(with_event(state, id, event), id).len() <= MAX_EVENT_HISTORY,
        events_of(with_event(state, id, event), id).last() == event,
        events_of(state, id).len() < MAX_EVENT_HISTORY ==> events_of(
            with_event(state, id, event),
            id,
        ) == events_of(state, id).push(event),
{
}

/// No event of a job holds the start of a key or of a token of GitHub.
pub proof fn events_hold_no_secret(
    kind: Seq<char>,
    line: Seq<char>,
    timestamp: Seq<char>,
    index: int,
)
    requires
        0 <= index < crate::util::secret_prefixes().len(),
    ensures
        !crate::text::occurs(
            event_of(kind, line, timestamp).line,
            crate::util::secret_prefixes()[index],
        ),
{
    crate::util::scrubbed_lines_hold_no_secret(line, index);
}

/// A job that succeeded has a pull request to show for it, and was not cancelled.
pub proof fn a_succeeded_job_has_a_pull_request(
    state: crate::execution::ExecutionView,
    reply: crate::execution::Reply,
    cancelled: bool,
    work: Result<(), Seq<char>>,
)
    requires
        crate::execution::sound(state),
        crate::execution::advanced(state, reply).1.action
            == crate::execution::ActionView::Finish(work),
        settled(crate::execution::advanced(state, reply).0.record, cancelled, work).status
            == JobStatus::Succeeded,
    ensures
        !cancelled,
        settled(crate::execution::advanced(state, reply).0.record, cancelled, work).pr_url
            is Some,
{
    if let Ok(()) = work {
        crate::execution::delivered_work_has_a_pull_request(state, reply);
    }
}

/// A job that was cancelled while it ran ends as cancelled, whatever came of its work.
pub proof fn a_cancelled_job_ends_cancelled(record: JobView, work: Result<(), Seq<char>>)
    ensures
        settled(record, true, work).status == JobStatus::Cancelled,
        settled(record, true, work).error is None,
        terminal(settled(record, false, work).status),
{
}

/// However a job comes to its end, its repository is free afterwards, and that is the last thing
/// done for it. Where it has run, its processes are forgotten just before.
pub proof fn every_end_frees_the_repository(
    record: JobView,
    granted: bool,
    cancelled: bool,
    now: Seq<char>,
    work: Result<(), Seq<char>>,
)
    ensures
        ending(settled(record, cancelled, work)).last() == EffectView::Release,
        ending(settled(record, cancelled, work)).drop_last().last() == EffectView::Forget,
        terminal(begun(record, granted, cancelled, now).status) ==> beginning(
            begun(record, granted, cancelled, now),
        ).last() == EffectView::Release,
        !terminal(begun(record, granted, cancelled, now).status) ==> begun(
            record,
            granted,
            cancelled,
            now,
        ).status == JobStatus::Running,
{
}

/// A job that failed sends its card back to be worked on again; no other end does.
pub proof fn only_failure_sends_the_card_back(
    record: JobView,
    cancelled: bool,
    work: Result<(), Seq<char>>,
)
    ensures
        ending(settled(record, cancelled, work)).contains(EffectView::MoveCard("board:ready"@))
            <==> work is Err && !cancelled,
{
    let effects = ending(settled(record, cancelled, work));
    if work is Err && !cancelled {
        assert(effects[0] == EffectView::MoveCard("board:ready"@));
    }
}

proof fn lemma_report(id: Seq<char>, rest: Seq<char>)
    requires
        crate::jobs::canonical_id(id),
        begins_with(rest, " opened "@) || begins_with(rest, " did not open a pull request"@),
    ensures
        crate::cards::is_job_report("Board job `"@ + id + seq!['`'] + rest),
{
    let value = choose|value: u128| id == #[trigger] hyphenated(value);
    crate::jobs::lemma_hyphenated(value);
    let start = "Board job `"@;
    let body = start + id + seq!['`'] + rest;
    assert(body.take(start.len() as int) == start);
    let tail = body.skip(start.len() as int);
    assert(tail == id + seq!['`'] + rest);
    let stop = crate::text::at_char('`');
    assert(crate::text::is_run(tail, stop, id.len() as int)) by {
        assert forall|k: int| 0 <= k < id.len() implies !stop(#[trigger] tail[k]) by {
            assert(tail[k] == id[k]);
            assert(crate::jobs::is_id_char(id[k]));
        }
        assert(tail[id.len() as int] == '`');
    }
    crate::text::lemma_run(tail, stop);
    assert(tail.skip((id.len() + 1) as int) == rest);
}

/// The comments in which the service reports on its jobs are known as such, so that no agent is
/// told of them.
pub proof fn reports_are_recognised(id: Seq<char>, url: Seq<char>, pr_url: Option<Seq<char>>)
    requires
        crate::jobs::canonical_id(id),
    ensures
        crate::cards::is_job_report(opened_report(id, url)),
        crate::cards::is_job_report(failed_report(id, pr_url)),
{
    reveal_strlit("` opened ");
    reveal_strlit(" opened ");
    let rest = " opened "@ + url;
    assert(rest.take(8) == " opened "@);
    lemma_report(id, rest);
    assert(opened_report(id, url) == "Board job `"@ + id + seq!['`'] + rest);
    match pr_url {
        Some(own) => {
            let more =
                ", but did not finish cleanly and returned this issue to `board:ready`. Open the Board app job record for details."@;
            let rest = " opened "@ + own + more;
            assert(rest.take(8) == " opened "@);
            lemma_report(id, rest);
            assert(failed_report(id, pr_url) == "Board job `"@ + id + seq!['`'] + rest);
        },
        None => {
            reveal_strlit(" did not open a pull request");
            reveal_strlit(
                "` did not open a pull request and returned this issue to `board:ready`. Open the Board app job record for details.",
            );
            let said =
                "` did not open a pull request and returned this issue to `board:ready`. Open the Board app job record for details."@;
            let rest = said.skip(1);
            assert(rest.take(28) == " did not open a pull request"@);
            lemma_report(id, rest);
            assert(failed_report(id, pr_url) == "Board job `"@ + id + seq!['`'] + rest);
        },
    }
}

/// A valid request for a repository without a job is accepted: the job waits, with what was asked
/// for, and has claimed the repository in whatever letter case; no other claim, process, event or
/// cancellation has changed.
pub proof fn a_free_repository_gets_the_job(
    before: ManagerView,
    request: CreateJobRequest,
    effort: Option<ReasoningEffort>,
    id: u128,
    created_at: Seq<char>,
    after: ManagerView,
    answer: Result<JobRecord, ApiError>,
    other: Seq<char>,
)
    requires
        creation(before, request, effort, id, created_at, after, answer),
    ensures
        answer is Ok <==> job_problem(texts(before.config.allowed_harnesses@), request) is None
            && !before.claims.contains_key(lower(request.repo@)),
        answer matches Ok(record) ==> {
            &&& record@.id == hyphenated(id)
            &&& record@.status == JobStatus::Queued
            &&& record@.repo == request.repo@
            &&& record@.issue == request.issue
            &&& record@.harness == request.harness@
            &&& record@.crew == texts(request.crew@)
            &&& record@.effort == effort
            &&& record@.created_at == created_at
            &&& record@.pr_url is None && record@.started_at is None && record@.finished_at is None
            &&& after.claims.contains_key(lower(request.repo@))
            &&& after.claims[lower(request.repo@)]@ == record@.id
        },
        other != lower(request.repo@) ==> (after.claims.contains_key(other)
            <==> before.claims.contains_key(other)),
        other != lower(request.repo@) && before.claims.contains_key(other) ==> after.claims[other]
            == before.claims[other],
        answer is Err ==> after == before,
        after.process_groups == before.process_groups,
        after.cancelled == before.cancelled,
        after.history == before.history,
        after.config == before.config,
{
}

/// A job frees the repository that it has claimed, and changes nothing else.
pub proof fn a_job_frees_its_own_repository(
    state: ManagerView,
    repo: Seq<char>,
    id: Seq<char>,
    other: Seq<char>,
)
    ensures
        state.claims.contains_key(lower(repo)) && state.claims[lower(repo)]@ == id ==> !released(
            state,
            repo,
            id,
        ).claims.contains_key(lower(repo)),
        other != lower(repo) ==> (released(state, repo, id).claims.contains_key(other)
            <==> state.claims.contains_key(other)),
        other != lower(repo) && state.claims.contains_key(other) ==> released(
            state,
            repo,
            id,
        ).claims[other] == state.claims[other],
        released(state, repo, id).process_groups == state.process_groups,
        released(state, repo, id).cancelled == state.cancelled,
        released(state, repo, id).history == state.history,
        released(state, repo, id).config == state.config,
{
}

/// An event is added to the events of its job and of no other; once 500 are remembered the oldest
/// one goes.
pub proof fn an_event_is_remembered_for_its_job(
    state: ManagerView,
    id: Seq<char>,
    other: Seq<char>,
    event: EventView,
)
    ensures
        events_of(state, id).len() < 500 ==> events_of(with_event(state, id, event), id)
            == events_of(state, id).push(event),
        events_of(state, id).len() == 500 ==> events_of(with_event(state, id, event), id)
            == events_of(state, id).skip(1).push(event),
        other != id ==> events_of(with_event(state, id, event), other) == events_of(state, other),
        with_event(state, id, event).claims == state.claims,
        with_event(state, id, event).process_groups == state.process_groups,
        with_event(state, id, event).cancelled == state.cancelled,
        !state.history.contains_key(id) ==> events_of(state, id).len() == 0,
{
    let events = events_of(state, id);
    if events.len() == 500 {
        assert(events.push(event).skip(1) == events.skip(1).push(event));
    }
}

/// A job whose turn has come runs from now on, unless it was cancelled, which ends it now, or the
/// scheduler has stopped, which fails it now. Nothing else of its record changes.
pub proof fn a_job_runs_when_its_turn_comes(
    record: JobView,
    granted: bool,
    cancelled: bool,
    now: Seq<char>,
)
    ensures
        ({
            let after = begun(record, granted, cancelled, now);
            &&& granted && !cancelled ==> after == (JobView {
                status: JobStatus::Running,
                started_at: Some(now),
                ..record
            })
            &&& granted && cancelled ==> after == (JobView {
                status: JobStatus::Cancelled,
                finished_at: Some(now),
                error: None,
                ..record
            })
            &&& !granted ==> after.status == JobStatus::Failed && after.finished_at == Some(now)
                && after.error is Some && after.started_at == record.started_at && after.id
                == record.id && after.pr_url == record.pr_url
        }),
{
}

/// A job that was not cancelled succeeds exactly where its work ended well; else it has failed, for
/// the reason that the work ended with, without secrets. Nothing else of its record changes.
pub proof fn a_job_ends_as_its_work_does(
    record: JobView,
    cancelled: bool,
    work: Result<(), Seq<char>>,
)
    ensures
        ({
            let after = settled(record, cancelled, work);
            &&& after.status == JobStatus::Succeeded <==> !cancelled && work is Ok
            &&& after.status == JobStatus::Failed <==> !cancelled && work is Err
            &&& after.status == JobStatus::Cancelled <==> cancelled
            &&& !cancelled ==> (work matches Err(message) ==> after.error == Some(scrub(message)))
            &&& cancelled || work is Ok ==> after.error is None
            &&& after == (JobView { status: after.status, error: after.error, ..record })
        }),
{
}

/// A job that waits is cancelled at once: it has ended now, and its repository is free. Any other is
/// told to stop, and ends once its work does; its repository stays claimed until then.
pub proof fn a_waiting_job_is_cancelled_at_once(record: JobView, now: Seq<char>)
    ensures
        record.status == JobStatus::Queued ==> {
            &&& cancelled_record(record, now) == (JobView {
                status: JobStatus::Cancelled,
                finished_at: Some(now),
                ..record
            })
            &&& cancelling(record) == seq![
                EffectView::Persist,
                EffectView::Event("cancelled"@),
                EffectView::Release,
            ]
        },
        record.status != JobStatus::Queued ==> {
            &&& cancelled_record(record, now) == (JobView {
                status: JobStatus::Cancelling,
                ..record
            })
            &&& cancelling(record) == seq![
                EffectView::Persist,
                EffectView::Event("cancelling"@),
                EffectView::Signal,
            ]
            &&& !cancelling(record).contains(EffectView::Release)
        },
{
    if record.status != JobStatus::Queued {
        let effects = cancelling(record);
        assert forall|k: int| 0 <= k < effects.len() implies effects[k] != EffectView::Release by {}
    }
}

/// Each status is told by its own name.
pub proof fn a_status_is_told_by_its_name()
    ensures
        status_event(JobStatus::Queued) == "queued"@,
        status_event(JobStatus::Running) == "running"@,
        status_event(JobStatus::Cancelling) == "cancelling"@,
        status_event(JobStatus::Cancelled) == "cancelled"@,
        status_event(JobStatus::Succeeded) == "succeeded"@,
        status_event(JobStatus::Failed) == "failed"@,
{
}

/// Whatever becomes of a job is stored before it is told, and told before the repository is free. A
/// job that failed first sends its card back and tells the issue why.
pub proof fn what_becomes_of_a_job_is_stored_and_told(record: JobView)
    ensures
        beginning(record).take(2) == seq![
            EffectView::Persist,
            EffectView::Event(status_event(record.status)),
        ],
        terminal(record.status) ==> beginning(record).len() == 3,
        !terminal(record.status) ==> beginning(record).len() == 2,
        record.status == JobStatus::Failed ==> ending(record) == seq![
            EffectView::MoveCard("board:ready"@),
            EffectView::Comment(failed_report(record.id, record.pr_url)),
            EffectView::StampEnd,
            EffectView::Persist,
            EffectView::Event("failed"@),
            EffectView::Forget,
            EffectView::Release,
        ],
        record.status != JobStatus::Failed ==> ending(record) == seq![
            EffectView::StampEnd,
            EffectView::Persist,
            EffectView::Event(status_event(record.status)),
            EffectView::Forget,
            EffectView::Release,
        ],
{
    assert(beginning(record).take(2) == seq![
        EffectView::Persist,
        EffectView::Event(status_event(record.status)),
    ]);
    if record.status == JobStatus::Failed {
        assert(ending(record) == seq![
            EffectView::MoveCard("board:ready"@),
            EffectView::Comment(failed_report(record.id, record.pr_url)),
            EffectView::StampEnd,
            EffectView::Persist,
            EffectView::Event("failed"@),
            EffectView::Forget,
            EffectView::Release,
        ]);
    } else {
        assert(ending(record) == seq![
            EffectView::StampEnd,
            EffectView::Persist,
            EffectView::Event(status_event(record.status)),
            EffectView::Forget,
            EffectView::Release,
        ]);
    }
}

/// The comments of the service name the job, and the pull request where there is one; one that tells
/// of a failure says where the issue went.
pub proof fn reports_name_the_job(id: Seq<char>, url: Seq<char>)
    ensures
        opened_report(id, url) == "Board job `"@ + id + "` opened "@ + url,
        begins_with(failed_report(id, Some(url)), "Board job `"@ + id + "` opened "@ + url),
        begins_with(failed_report(id, None), "Board job `"@ + id),
        failed_report(id, Some(url)) == opened_report(id, url)
            + ", but did not finish cleanly and returned this issue to `board:ready`. Open the Board app job record for details."@,
        failed_report(id, None) == "Board job `"@ + id
            + "` did not open a pull request and returned this issue to `board:ready`. Open the Board app job record for details."@,
{
    let opened = "Board job `"@ + id + "` opened "@ + url;
    assert(failed_report(id, Some(url)).take(opened.len() as int) == opened);
    let start = "Board job `"@ + id;
    assert(failed_report(id, None).take(start.len() as int) == start);
}

/// A manager begins without a job, a process, a cancellation or an event.
pub proof fn a_manager_begins_without_jobs(config: Config, key: Seq<char>)
    ensures
        !idle(config).claims.contains_key(key),
        !idle(config).process_groups.contains_key(key),
        !idle(config).cancelled.contains(key),
        events_of(idle(config), key).len() == 0,
        idle(config).config == config,
{
}

/// The jobs that are listed are all jobs, each as often as it is there, and one that was created
/// later stands before one that was created earlier.
pub proof fn jobs_are_listed_newest_first(
    jobs: Seq<JobRecord>,
    listed: Seq<JobRecord>,
    i: int,
    j: int,
)
    requires
        sorts(jobs, listed),
        0 <= i < j < listed.len(),
    ensures
        !crate::order::precedes(listed[i].created_at@, listed[j].created_at@),
        listed.to_multiset() == jobs.to_multiset(),
{
    crate::order::sorted_things_are_in_order(jobs, listed, i, j);
    crate::order::sorting_keeps_everything(jobs, listed);
    crate::jobs::the_newest_job_is_listed_first(listed[i], listed[j]);
}

/// A repository is taken by one job at a time, whatever the letters of its name: it is claimed
/// exactly where a job has claimed it, and it is claimed by that job.
pub proof fn a_claim_names_its_job(
    manager: &mut JobManager,
    repo: &str,
    id: String,
    other: Seq<char>,
)
    requires
        call_ensures(JobManager::claim, (manager, repo, id), ()),
    ensures
        final(manager)@.claims.contains_key(lower(repo@)),
        final(manager)@.claims[lower(repo@)] == id,
        other != lower(repo@) ==> (final(manager)@.claims.contains_key(other) <==> old(manager)@.claims.contains_key(other)),
        other != lower(repo@) && old(manager)@.claims.contains_key(other) ==> final(manager)@.claims[other] == old(manager)@.claims[other],
        final(manager)@.cancelled == old(manager)@.cancelled,
        final(manager)@.process_groups == old(manager)@.process_groups,
        final(manager)@.history == old(manager)@.history,
        final(manager)@.config == old(manager)@.config,
{
}

/// Whether a repository is claimed, and by whom, is answered alike, in any letter case.
pub proof fn claims_are_told_alike(
    manager: &JobManager,
    repo: &str,
    written: &str,
    claimed: bool,
    claimant: Option<&String>,
)
    requires
        lower(repo@) == lower(written@),
        call_ensures(JobManager::is_claimed, (manager, repo), claimed),
        call_ensures(JobManager::claimant, (manager, written), claimant),
    ensures
        claimed <==> claimant is Some,
        claimed <==> manager@.claims.contains_key(lower(repo@)),
        claimant matches Some(id) ==> manager@.claims[lower(repo@)] == *id,
{
}

/// A job that has not ended can be cancelled, and then may not go on: one that waits ends at once
/// and frees its repository, any other is told to stop. A job that has ended stays as it is.
pub proof fn a_cancelled_job_may_not_go_on(
    manager: &mut JobManager,
    id: &str,
    record: JobRecord,
    now: String,
    result: Result<(JobRecord, Vec<Effect>), ApiError>,
    other: Seq<char>,
)
    requires
        call_ensures(JobManager::cancel, (manager, id, record, now), result),
    ensures
        result is Err <==> (record.status == JobStatus::Cancelled || record.status
            == JobStatus::Succeeded || record.status == JobStatus::Failed),
        result matches Err(error) ==> error@.status == 409 && final(manager)@ == old(manager)@,
        result is Ok ==> final(manager)@.cancelled.contains(id@),
        other != id@ ==> (final(manager)@.cancelled.contains(other) <==> old(manager)@.cancelled.contains(other)),
        final(manager)@.claims == old(manager)@.claims,
        final(manager)@.process_groups == old(manager)@.process_groups,
        final(manager)@.history == old(manager)@.history,
        result matches Ok((after, effects)) ==> {
            &&& record.status == JobStatus::Queued ==> after@ == (JobView {
                status: JobStatus::Cancelled,
                finished_at: Some(now@),
                ..record@
            })
            &&& record.status != JobStatus::Queued ==> after@ == (JobView {
                status: JobStatus::Cancelling,
                ..record@
            })
            &&& record.status == JobStatus::Queued <==> effect_views(effects@).contains(
                EffectView::Release,
            )
            &&& record.status != JobStatus::Queued <==> effect_views(effects@).contains(
                EffectView::Signal,
            )
            &&& effects@.len() == 3
            &&& effect_views(effects@)[0] == EffectView::Persist
            &&& effect_views(effects@)[1] == EffectView::Event(status_event(after.status))
        },
{
    if let Ok((after, effects)) = result {
        let all = effect_views(effects@);
        assert(all == cancelling(record@));
        assert(all[0] == EffectView::Persist);
        if record.status == JobStatus::Queued {
            assert(all[2] == EffectView::Release);
        } else {
            assert(all[2] == EffectView::Signal);
        }
    }
}

/// A job may go on exactly where it was not cancelled.
pub proof fn a_job_goes_on_unless_it_was_cancelled(
    manager: &JobManager,
    id: &str,
    result: Result<(), String>,
)
    requires
        call_ensures(JobManager::ensure_not_cancelled, (manager, id), result),
    ensures
        result is Err <==> manager@.cancelled.contains(id@),
        result matches Err(message) ==> message@ == "job cancelled"@,
{
}

/// What a command printed is of no use to a job that was cancelled.
pub proof fn a_cancelled_job_has_no_output(
    manager: &JobManager,
    id: &str,
    program: &str,
    success: bool,
    status: &str,
    stdout: &Vec<String>,
    stderr: &Vec<String>,
    result: Result<String, String>,
)
    requires
        call_ensures(
            JobManager::run_command,
            (manager, id, program, success, status, stdout, stderr),
            result,
        ),
    ensures
        result is Ok <==> success && !manager@.cancelled.contains(id@),
        manager@.cancelled.contains(id@) ==> (result matches Err(message) && message@
            == "job cancelled"@),
{
}

/// A job that gets its turn runs from then on, unless it was cancelled meanwhile: then it has ended.
/// Without a scheduler it has failed. A request to cancel it is dealt with by that.
pub proof fn a_turn_starts_or_ends_the_job(
    manager: &mut JobManager,
    record: JobRecord,
    granted: bool,
    now: String,
    result: JobRecord,
    other: Seq<char>,
)
    requires
        call_ensures(JobManager::begin, (manager, record, granted, now), result),
    ensures
        result.status == JobStatus::Running <==> granted && !old(manager)@.cancelled.contains(
            record.id@,
        ),
        result.status == JobStatus::Cancelled <==> granted && old(manager)@.cancelled.contains(
            record.id@,
        ),
        result.status == JobStatus::Failed <==> !granted,
        result.status == JobStatus::Running ==> result@ == (JobView {
            status: JobStatus::Running,
            started_at: Some(now@),
            ..record@
        }),
        result.status != JobStatus::Running ==> result@.finished_at == Some(now@)
            && result@.started_at == record@.started_at,
        result@.error is Some && result.status != JobStatus::Running <==> !granted,
        !granted ==> result@.error == Some("job scheduler stopped before this job could start"@),
        granted ==> !final(manager)@.cancelled.contains(record.id@),
        !granted ==> final(manager)@ == old(manager)@,
        other != record.id@ ==> (final(manager)@.cancelled.contains(other) <==> old(manager)@.cancelled.contains(other)),
        final(manager)@.claims == old(manager)@.claims,
        final(manager)@.process_groups == old(manager)@.process_groups,
        final(manager)@.history == old(manager)@.history,
{
}

/// A job whose work is over has succeeded where the work did, and has failed otherwise; one that was
/// cancelled meanwhile is cancelled either way. A request to cancel it is dealt with by that.
pub proof fn work_that_is_over_settles_the_job(
    manager: &mut JobManager,
    record: JobRecord,
    work: Result<(), String>,
    result: JobRecord,
    other: Seq<char>,
)
    requires
        call_ensures(JobManager::settle, (manager, record, work), result),
    ensures
        result.status == JobStatus::Cancelled <==> old(manager)@.cancelled.contains(record.id@),
        result.status == JobStatus::Succeeded <==> !old(manager)@.cancelled.contains(record.id@)
            && work is Ok,
        result.status == JobStatus::Failed <==> !old(manager)@.cancelled.contains(record.id@)
            && work is Err,
        result@.error is Some <==> result.status == JobStatus::Failed,
        result@ == (JobView { status: result@.status, error: result@.error, ..record@ }),
        !final(manager)@.cancelled.contains(record.id@),
        other != record.id@ ==> (final(manager)@.cancelled.contains(other) <==> old(manager)@.cancelled.contains(other)),
        final(manager)@.claims == old(manager)@.claims,
        final(manager)@.process_groups == old(manager)@.process_groups,
        final(manager)@.history == old(manager)@.history,
{
}

/// The group of processes that a job runs is known from when it started until it ended.
pub proof fn a_group_is_known_while_it_runs(
    started: &mut JobManager,
    ended: &mut JobManager,
    id: &str,
    process_group: u32,
    other: Seq<char>,
)
    requires
        call_ensures(JobManager::process_started, (started, id, process_group), ()),
        call_ensures(JobManager::process_ended, (ended, id), ()),
        old(ended)@ == final(started)@,
    ensures
        final(started)@.process_groups.contains_key(id@),
        final(started)@.process_groups[id@] == process_group,
        !final(ended)@.process_groups.contains_key(id@),
        other != id@ ==> (final(ended)@.process_groups.contains_key(other) <==> old(started)@.process_groups.contains_key(other)),
        other != id@ && old(started)@.process_groups.contains_key(other) ==> final(ended)@.process_groups[other] == old(started)@.process_groups[other] && final(started)@.process_groups[other] == old(started)@.process_groups[other],
        final(ended)@.claims == old(started)@.claims,
        final(ended)@.cancelled == old(started)@.cancelled,
        final(ended)@.history == old(started)@.history,
{
}

/// The group of a job is told exactly where it is known.
pub proof fn a_known_group_is_told(manager: &JobManager, id: &str, group: Option<u32>)
    requires
        call_ensures(JobManager::process_group, (manager, id), group),
    ensures
        group is Some <==> manager@.process_groups.contains_key(id@),
        group is Some ==> group == Some(manager@.process_groups[id@]),
{
}

/// The time at which a job ended is all that its record gains by that.
pub proof fn an_end_is_stamped(record: JobRecord, now: String, result: JobRecord)
    requires
        call_ensures(finish_record, (record, now), result),
    ensures
        result@.finished_at == Some(now@),
        result@ == (JobView { finished_at: result@.finished_at, ..record@ }),
{
}

/// The records of different jobs are stored in different files.
pub proof fn records_are_stored_apart(
    manager: &JobManager,
    one: &str,
    another: &str,
    path: String,
    other: String,
)
    requires
        one@ != another@,
        !crate::path::absolute(one@ + ".json"@),
        !crate::path::absolute(another@ + ".json"@),
        call_ensures(JobManager::job_path, (manager, one), path),
        call_ensures(JobManager::job_path, (manager, another), other),
    ensures
        path@ != other@,
{
    let first = one@ + ".json"@;
    let second = another@ + ".json"@;
    if path@ == other@ {
        assert(path@.len() == other@.len());
        let start = path@.len() - first.len();
        assert(path@.skip(start) == first);
        assert(other@.skip(start) == second);
        assert(first.take(first.len() - ".json"@.len()) == one@);
        assert(second.take(second.len() - ".json"@.len()) == another@);
    }
}

} // verus!
