//! Which ready cards are picked up without a request.
use crate::board::ReadyCard;
use crate::config::Config;
use crate::model::{
    terminal, Card, CreateJobRequest, JobRecord, JobStatus, ReasoningEffort, AGENT_LABELS,
};
use crate::order::{
    lemma_filter_all, lemma_filter_none, lemma_precedes_total, precedes, text_precedes,
};
use crate::outside::{parse_rfc3339, rfc3339_instant};
use crate::text::{
    begins_with, equal_ignoring_case, list_contains, maybe_text, same_ignoring_case, same_text,
    starts_with, strip_prefix, texts,
};
use std::cmp::Ordering;
use vstd::prelude::*;

verus! {

// ---------------------------------------------------------------------------------------------
// Timestamps
// ---------------------------------------------------------------------------------------------

/// The instant that a timestamp names, in nanoseconds since 1970.
pub fn parse_timestamp(value: &str) -> (instant: Option<i128>)
    ensures
        match instant {
            Some(instant) => rfc3339_instant(value@) == Some(instant as int),
            None => rfc3339_instant(value@) is None,
        },
{
    parse_rfc3339(value)
}

/// The first instant is later than the second, where both are known.
pub open spec fn later_instant(left: Option<int>, right: Option<int>) -> Option<bool> {
    match (left, right) {
        (Some(left), Some(right)) => Some(left > right),
        _ => None,
    }
}

/// Whether one instant is later than another, where both are known.
pub fn is_later(left: Option<i128>, right: Option<i128>) -> (later: Option<bool>)
    ensures
        match (left, right) {
            (Some(left), Some(right)) => later == Some(left > right),
            _ => later is None,
        },
{
    match (left, right) {
        (Some(left), Some(right)) => Some(left > right),
        _ => None,
    }
}

/// Whether the first timestamp is later than the second; `None` where one of them is none.
pub fn is_after(left: &str, right: &str) -> (later: Option<bool>)
    ensures
        later == later_instant(rfc3339_instant(left@), rfc3339_instant(right@)),
{
    is_later(parse_timestamp(left), parse_timestamp(right))
}

/// The first of two timestamps is the later one: by the instants that they name where both name
/// one, else by their characters.
pub open spec fn stamped_later(
    left: Seq<char>,
    left_instant: Option<int>,
    right: Seq<char>,
    right_instant: Option<int>,
) -> bool {
    match (left_instant, right_instant) {
        (Some(left), Some(right)) => left > right,
        _ => precedes(right, left),
    }
}

/// The first of two timestamps is the later one.
pub open spec fn later_stamp(left: Seq<char>, right: Seq<char>) -> bool {
    stamped_later(left, rfc3339_instant(left), right, rfc3339_instant(right))
}

/// How two timestamps are ordered, once the instants that they name are known.
pub fn compare_instants(
    left: &str,
    left_instant: Option<i128>,
    right: &str,
    right_instant: Option<i128>,
) -> (order: Ordering)
    ensures
        match (left_instant, right_instant) {
            (Some(first), Some(second)) => match order {
                Ordering::Less => first < second,
                Ordering::Equal => first == second,
                Ordering::Greater => first > second,
            },
            _ => match order {
                Ordering::Less => precedes(left@, right@),
                Ordering::Equal => left@ == right@,
                Ordering::Greater => precedes(right@, left@),
            },
        },
{
    match (left_instant, right_instant) {
        (Some(first), Some(second)) => {
            if first < second {
                Ordering::Less
            } else if first == second {
                Ordering::Equal
            } else {
                Ordering::Greater
            }
        },
        _ => {
            proof {
                lemma_precedes_total(left@, right@);
            }
            if text_precedes(left, right) {
                Ordering::Less
            } else if text_precedes(right, left) {
                Ordering::Greater
            } else {
                Ordering::Equal
            }
        },
    }
}

/// How two timestamps are ordered: by the instants that they name where both name one, else by
/// their characters.
pub fn compare_timestamps(left: &str, right: &str) -> (order: Ordering)
    ensures
        match order {
            Ordering::Less => later_stamp(right@, left@),
            Ordering::Equal => !later_stamp(left@, right@) && !later_stamp(right@, left@),
            Ordering::Greater => later_stamp(left@, right@),
        },
{
    proof {
        lemma_precedes_total(left@, right@);
        lemma_precedes_total(right@, left@);
    }
    compare_instants(left, parse_timestamp(left), right, parse_timestamp(right))
}

/// Of two timestamps at most one is the later one.
pub proof fn lemma_one_is_later(left: Seq<char>, right: Seq<char>)
    ensures
        !(later_stamp(left, right) && later_stamp(right, left)),
{
    lemma_precedes_total(left, right);
}

/// Whether the first of two timestamps is the later one.
fn is_newer(left: &str, right: &str) -> (yes: bool)
    ensures
        yes == later_stamp(left@, right@),
{
    proof {
        lemma_one_is_later(left@, right@);
    }
    match compare_timestamps(left, right) {
        Ordering::Greater => true,
        Ordering::Equal => false,
        Ordering::Less => false,
    }
}

// ---------------------------------------------------------------------------------------------
// Whether a card is started
// ---------------------------------------------------------------------------------------------

/// A job for this issue.
pub open spec fn job_for(repo: Seq<char>, number: u64) -> spec_fn(JobRecord) -> bool {
    |job: JobRecord| same_ignoring_case(job.repo@, repo) && job.issue == number
}

/// The job of a sequence that was created last; of several, the one that stands last.
pub open spec fn latest(jobs: Seq<JobRecord>) -> Option<JobRecord>
    decreases jobs.len(),
{
    if jobs.len() == 0 {
        None
    } else {
        match latest(jobs.drop_last()) {
            Some(job) => if later_stamp(job.created_at@, jobs.last().created_at@) {
                Some(job)
            } else {
                Some(jobs.last())
            },
            None => Some(jobs.last()),
        }
    }
}

/// The last job of an issue does not stand in the way of another: there is none, or it has ended
/// and the issue was updated after that.
pub open spec fn may_start(last: Option<JobRecord>, updated_at: Seq<char>) -> bool {
    match last {
        None => true,
        Some(job) => terminal(job.status) && job.finished_at is Some && later_instant(
            rfc3339_instant(updated_at),
            rfc3339_instant(job.finished_at->0@),
        ) == Some(true),
    }
}

/// A card may be started: its last job does not stand in the way.
pub open spec fn startable(repo: Seq<char>, card: Card, jobs: Seq<JobRecord>) -> bool {
    may_start(latest(jobs.filter(job_for(repo, card.number))), card.updated_at@)
}

/// Whether a card may be started.
pub fn should_start(repo: &str, card: &Card, jobs: &[JobRecord]) -> (yes: bool)
    ensures
        yes == startable(repo@, *card, jobs@),
{
    let ghost keep = job_for(repo@, card.number);
    let mut newest: Option<usize> = None;
    let mut i: usize = 0;
    proof {
        reveal(Seq::filter);
        assert(jobs@.take(0) == Seq::<JobRecord>::empty());
    }
    while i < jobs.len()
        invariant
            keep == job_for(repo@, card.number),
            i <= jobs@.len(),
            match newest {
                Some(at) => at < i && latest(jobs@.take(i as int).filter(keep)) == Some(
                    jobs@[at as int],
                ),
                None => latest(jobs@.take(i as int).filter(keep)) is None,
            },
        decreases jobs@.len() - i,
    {
        proof {
            reveal(Seq::filter);
            assert(jobs@.take(i + 1).drop_last() == jobs@.take(i as int));
            assert(jobs@.take(i + 1).last() == jobs@[i as int]);
            let before = jobs@.take(i as int).filter(keep);
            assert(before.push(jobs@[i as int]).drop_last() == before);
        }
        let job = &jobs[i];
        if equal_ignoring_case(job.repo.as_str(), repo) && job.issue == card.number {
            newest =
            match newest {
                Some(at) => if is_newer(
                    jobs[at].created_at.as_str(),
                    job.created_at.as_str(),
                ) {
                    Some(at)
                } else {
                    Some(i)
                },
                None => Some(i),
            };
        }
        i += 1;
    }
    assert(jobs@.take(i as int) == jobs@);
    match newest {
        None => true,
        Some(at) => {
            let job = &jobs[at];
            if !job.status.is_terminal() {
                return false;
            }
            match &job.finished_at {
                None => false,
                Some(finished_at) => match is_after(
                    card.updated_at.as_str(),
                    finished_at.as_str(),
                ) {
                    Some(later) => later,
                    None => false,
                },
            }
        },
    }
}

// ---------------------------------------------------------------------------------------------
// Selector labels
// ---------------------------------------------------------------------------------------------

/// The labels that begin with a prefix.
pub open spec fn selectors(labels: Seq<Seq<char>>, prefix: Seq<char>) -> Seq<Seq<char>> {
    labels.filter(|label: Seq<char>| begins_with(label, prefix))
}

/// A label that chooses an agent that the service knows.
pub open spec fn is_agent_label(label: Seq<char>) -> bool {
    label == "agent:grok"@ || label == "agent:codex"@ || label == "agent:cursor"@
}

/// The harness that labels choose: the default without a selector, the one of a single known
/// selector; and it must be allowed.
pub open spec fn chosen_harness(
    labels: Seq<Seq<char>>,
    default_harness: Seq<char>,
    allowed: Seq<Seq<char>>,
) -> Result<Seq<char>, Seq<char>> {
    let chosen = selectors(labels, "agent:"@);
    let harness = if chosen.len() == 0 {
        Ok(default_harness)
    } else if chosen.len() > 1 {
        Err("use exactly one agent:* selector label"@)
    } else if is_agent_label(chosen[0]) {
        Ok(chosen[0].skip("agent:"@.len() as int))
    } else {
        Err("unsupported agent selector label "@ + chosen[0])
    };
    match harness {
        Ok(harness) => if allowed.contains(harness) {
            Ok(harness)
        } else {
            Err("agent harness "@ + harness + " is not allowed by this server"@)
        },
        Err(message) => Err(message),
    }
}

/// The one label that begins with a prefix, how many there are being told.
fn only_selector(labels: &[String], prefix: &str) -> (found: (usize, Option<String>))
    ensures
        found.0 == selectors(texts(labels@), prefix@).len(),
        found.0 >= 1 ==> found.1 is Some && found.1->0@ == selectors(texts(labels@), prefix@)[0],
{
    let ghost all = texts(labels@);
    let mut count: usize = 0;
    let mut first: Option<String> = None;
    let mut i: usize = 0;
    proof {
        reveal(Seq::filter);
        assert(all.take(0) == Seq::<Seq<char>>::empty());
    }
    while i < labels.len()
        invariant
            all == texts(labels@),
            i <= labels@.len(),
            count <= i,
            count == selectors(all.take(i as int), prefix@).len(),
            count >= 1 ==> first is Some && first->0@ == selectors(all.take(i as int), prefix@)[0],
        decreases labels@.len() - i,
    {
        proof {
            reveal(Seq::filter);
            assert(all.take(i + 1).drop_last() == all.take(i as int));
            assert(all.take(i + 1).last() == labels@[i as int]@);
        }
        if starts_with(labels[i].as_str(), prefix) {
            if count == 0 {
                first = Some(labels[i].clone());
            }
            count += 1;
        }
        i += 1;
    }
    assert(all.take(i as int) == all);
    (count, first)
}

/// The harness that labels choose.
pub fn selected_harness(labels: &[String], default_harness: &str, allowed_harnesses: &Vec<String>)
    -> (result: Result<String, String>)
    ensures
        match result {
            Ok(harness) => chosen_harness(
                texts(labels@),
                default_harness@,
                texts(allowed_harnesses@),
            ) == Ok::<Seq<char>, Seq<char>>(harness@),
            Err(message) => chosen_harness(
                texts(labels@),
                default_harness@,
                texts(allowed_harnesses@),
            ) == Err::<Seq<char>, Seq<char>>(message@),
        },
{
    let (count, first) = only_selector(labels, "agent:");
    if count > 1 {
        return Err("use exactly one agent:* selector label".to_owned());
    }
    let harness = if count == 0 {
        default_harness.to_owned()
    } else {
        let label = first.unwrap();
        proof {
            reveal_strlit("agent:");
            reveal_strlit("agent:grok");
            reveal_strlit("agent:codex");
            reveal_strlit("agent:cursor");
            assert("agent:grok"@.take(6) == "agent:"@);
            assert("agent:codex"@.take(6) == "agent:"@);
            assert("agent:cursor"@.take(6) == "agent:"@);
        }
        if !(same_text(label.as_str(), AGENT_LABELS[0]) || same_text(
            label.as_str(),
            AGENT_LABELS[1],
        ) || same_text(label.as_str(), AGENT_LABELS[2])) {
            return Err("unsupported agent selector label ".to_owned().concat(label.as_str()));
        }
        strip_prefix(label.as_str(), "agent:").unwrap()
    };
    if !list_contains(allowed_harnesses, harness.as_str()) {
        let mut message = "agent harness ".to_owned();
        message.append(harness.as_str());
        message.append(" is not allowed by this server");
        return Err(message);
    }
    Ok(harness)
}

/// The effort that a label chooses.
pub open spec fn effort_of_label(label: Seq<char>) -> Option<ReasoningEffort> {
    if label == "effort:low"@ {
        Some(ReasoningEffort::Low)
    } else if label == "effort:medium"@ {
        Some(ReasoningEffort::Medium)
    } else if label == "effort:high"@ {
        Some(ReasoningEffort::High)
    } else if label == "effort:xhigh"@ {
        Some(ReasoningEffort::Xhigh)
    } else {
        None
    }
}

/// The effort that labels choose: none without a selector, the one of a single known selector.
pub open spec fn chosen_effort(labels: Seq<Seq<char>>) -> Result<
    Option<ReasoningEffort>,
    Seq<char>,
> {
    let chosen = selectors(labels, "effort:"@);
    if chosen.len() == 0 {
        Ok(None)
    } else if chosen.len() > 1 {
        Err("use at most one effort:* selector label"@)
    } else {
        match effort_of_label(chosen[0]) {
            Some(effort) => Ok(Some(effort)),
            None => Err("unsupported effort selector label "@ + chosen[0]),
        }
    }
}

/// The effort that labels choose.
pub fn selected_effort(labels: &[String]) -> (result: Result<Option<ReasoningEffort>, String>)
    ensures
        match result {
            Ok(effort) => chosen_effort(texts(labels@)) == Ok::<
                Option<ReasoningEffort>,
                Seq<char>,
            >(effort),
            Err(message) => chosen_effort(texts(labels@)) == Err::<
                Option<ReasoningEffort>,
                Seq<char>,
            >(message@),
        },
{
    let (count, first) = only_selector(labels, "effort:");
    if count > 1 {
        return Err("use at most one effort:* selector label".to_owned());
    }
    if count == 0 {
        return Ok(None);
    }
    let label = first.unwrap();
    if same_text(label.as_str(), "effort:low") {
        Ok(Some(ReasoningEffort::Low))
    } else if same_text(label.as_str(), "effort:medium") {
        Ok(Some(ReasoningEffort::Medium))
    } else if same_text(label.as_str(), "effort:high") {
        Ok(Some(ReasoningEffort::High))
    } else if same_text(label.as_str(), "effort:xhigh") {
        Ok(Some(ReasoningEffort::Xhigh))
    } else {
        Err("unsupported effort selector label ".to_owned().concat(label.as_str()))
    }
}

// ---------------------------------------------------------------------------------------------
// The runner
// ---------------------------------------------------------------------------------------------

/// What is done with a card that was looked at.
pub enum Pickup {
    /// There is nothing to do.
    Leave,
    /// The card cannot be started, for this reason.
    Refuse(String),
    /// A job is asked for.
    Start(CreateJobRequest, Option<ReasoningEffort>),
}

/// Picks up ready cards.
pub struct AutoRunner {
    pub config: Config,
}

/// What is done with a card.
pub open spec fn picks(
    config: Config,
    repo: Seq<char>,
    card: Card,
    jobs: Seq<JobRecord>,
    pickup: Pickup,
) -> bool {
    let labels = texts(card.labels@);
    let harness = chosen_harness(
        labels,
        config.auto_run.default_harness@,
        texts(config.allowed_harnesses@),
    );
    let effort = chosen_effort(labels);
    if maybe_text(card.column) != Some("board:ready"@) || !startable(repo, card, jobs) {
        pickup is Leave
    } else if !config.trusts(maybe_text(card.author_login)) {
        pickup matches Pickup::Refuse(reason) && reason@
            == "issue author is not allowed to start board jobs"@
    } else if harness is Err {
        pickup matches Pickup::Refuse(reason) && reason@ == harness->Err_0
    } else if effort is Err {
        pickup matches Pickup::Refuse(reason) && reason@ == effort->Err_0
    } else {
        pickup matches Pickup::Start(request, chosen) && request.repo@ == repo && request.issue
            == card.number && request.harness@ == harness->Ok_0 && request.prompt is None
            && request.crew@.len() == 0 && chosen == effort->Ok_0
    }
}

impl AutoRunner {
    pub fn new(config: Config) -> (runner: AutoRunner)
        ensures
            runner.config == config,
    {
        AutoRunner { config }
    }

    /// Whether ready cards are picked up at all.
    pub fn enabled(&self) -> (yes: bool)
        ensures
            yes == self.config.auto_run.enabled,
    {
        self.config.auto_run.enabled
    }

    /// Looks at one card, with the jobs that there are.
    pub fn consider_with_jobs(&self, repo: &str, card: &Card, jobs: &[JobRecord]) -> (pickup: Pickup)
        ensures
            picks(self.config, repo@, *card, jobs@, pickup),
    {
        let ready = match &card.column {
            Some(column) => same_text(column.as_str(), "board:ready"),
            None => false,
        };
        if !ready || !should_start(repo, card, jobs) {
            return Pickup::Leave;
        }
        let author = match &card.author_login {
            Some(login) => Some(login.as_str()),
            None => None,
        };
        if !self.config.allows_issue_author(author) {
            return Pickup::Refuse("issue author is not allowed to start board jobs".to_owned());
        }
        let harness = match selected_harness(
            card.labels.as_slice(),
            self.config.auto_run.default_harness.as_str(),
            &self.config.allowed_harnesses,
        ) {
            Ok(harness) => harness,
            Err(message) => {
                return Pickup::Refuse(message);
            },
        };
        let effort = match selected_effort(card.labels.as_slice()) {
            Ok(effort) => effort,
            Err(message) => {
                return Pickup::Refuse(message);
            },
        };
        let request = CreateJobRequest {
            repo: repo.to_owned(),
            issue: card.number,
            harness,
            prompt: None,
            crew: Vec::new(),
        };
        Pickup::Start(request, effort)
    }

    /// Looks at one card that was created or moved, where ready cards are picked up at all.
    pub fn consider(&self, repo: &str, card: &Card, jobs: &[JobRecord]) -> (pickup: Pickup)
        ensures
            if self.config.auto_run.enabled {
                picks(self.config, repo@, *card, jobs@, pickup)
            } else {
                pickup is Leave
            },
    {
        if !self.enabled() {
            return Pickup::Leave;
        }
        self.consider_with_jobs(repo, card, jobs)
    }
}

/// A look at all ready cards under way.
pub struct Scan {
    cards: Vec<ReadyCard>,
    jobs: Vec<JobRecord>,
    next: usize,
    started: usize,
}

/// The state of a [`Scan`]: the cards and the jobs, how many cards were looked at, and how many jobs
/// were started.
#[verifier::ext_equal]
pub struct ScanView {
    pub cards: Seq<ReadyCard>,
    pub jobs: Seq<JobRecord>,
    pub next: int,
    pub started: int,
}

impl View for Scan {
    type V = ScanView;

    closed spec fn view(&self) -> ScanView {
        ScanView {
            cards: self.cards@,
            jobs: self.jobs@,
            next: self.next as int,
            started: self.started as int,
        }
    }
}

/// No more jobs are started than cards were looked at.
pub open spec fn scan_wf(scan: ScanView) -> bool {
    0 <= scan.started <= scan.next <= scan.cards.len()
}

impl Scan {
    /// Begins to look at the ready cards, with the jobs that there are.
    pub fn begin(cards: Vec<ReadyCard>, jobs: Vec<JobRecord>) -> (scan: Scan)
        ensures
            scan_wf(scan@),
            scan@ == (ScanView { cards: cards@, jobs: jobs@, next: 0, started: 0 }),
    {
        Scan { cards, jobs, next: 0, started: 0 }
    }

    /// Looks at the next card; none where every card was looked at.
    pub fn step(&mut self, runner: &AutoRunner) -> (pickup: Option<Pickup>)
        requires
            scan_wf(old(self)@),
        ensures
            scan_wf(final(self)@),
            match pickup {
                None => old(self)@.next == old(self)@.cards.len() && final(self)@ == old(self)@,
                Some(pickup) => {
                    &&& old(self)@.next < old(self)@.cards.len()
                    &&& final(self)@ == (ScanView { next: old(self)@.next + 1, ..old(self)@ })
                    &&& picks(
                        runner.config,
                        old(self)@.cards[old(self)@.next].repo@,
                        old(self)@.cards[old(self)@.next].card,
                        old(self)@.jobs,
                        pickup,
                    )
                },
            },
    {
        if self.next >= self.cards.len() {
            return None;
        }
        let entry = &self.cards[self.next];
        let pickup = runner.consider_with_jobs(
            entry.repo.as_str(),
            &entry.card,
            self.jobs.as_slice(),
        );
        self.next = self.next + 1;
        Some(pickup)
    }

    /// The card that was looked at last.
    pub fn current(&self) -> (card: Option<&ReadyCard>)
        requires
            scan_wf(self@),
        ensures
            match card {
                Some(card) => self@.next > 0 && *card == self@.cards[self@.next - 1],
                None => self@.next == 0,
            },
    {
        if self.next == 0 {
            None
        } else {
            Some(&self.cards[self.next - 1])
        }
    }

    /// Takes in the job that was created for the card that was looked at last.
    pub fn created(&mut self, job: JobRecord)
        requires
            scan_wf(old(self)@),
            old(self)@.started < old(self)@.next,
        ensures
            scan_wf(final(self)@),
            final(self)@ == (ScanView {
                jobs: old(self)@.jobs.push(job),
                started: old(self)@.started + 1,
                ..old(self)@
            }),
    {
        self.jobs.push(job);
        self.started = self.started + 1;
    }

    /// How many jobs were started.
    pub fn started(&self) -> (count: usize)
        ensures
            count == self@.started,
    {
        self.started
    }
}

// ---------------------------------------------------------------------------------------------
// Laws
// ---------------------------------------------------------------------------------------------

/// A card is started only where its author is trusted, with a harness that is allowed.
pub proof fn only_trusted_cards_are_started(
    config: Config,
    repo: Seq<char>,
    card: Card,
    jobs: Seq<JobRecord>,
    pickup: Pickup,
)
    requires
        picks(config, repo, card, jobs, pickup),
        pickup is Start,
    ensures
        config.trusts(maybe_text(card.author_login)),
        texts(config.allowed_harnesses@).contains(pickup->Start_0.harness@),
        maybe_text(card.column) == Some("board:ready"@),
{
}

/// While the last job of an issue is active, no other is started for it.
pub proof fn active_jobs_are_not_duplicated(
    config: Config,
    repo: Seq<char>,
    card: Card,
    jobs: Seq<JobRecord>,
    pickup: Pickup,
)
    requires
        picks(config, repo, card, jobs, pickup),
        latest(jobs.filter(job_for(repo, card.number))) matches Some(job) && !terminal(job.status),
    ensures
        pickup is Leave,
{
}

/// Once a job for an issue was created, the same issue is left alone for the rest of the scan,
/// unless some earlier record of it claims to have been created later.
pub proof fn a_scan_starts_no_issue_twice(
    config: Config,
    repo: Seq<char>,
    card: Card,
    jobs: Seq<JobRecord>,
    job: JobRecord,
    pickup: Pickup,
)
    requires
        job_for(repo, card.number)(job),
        !terminal(job.status),
        latest(jobs.filter(job_for(repo, card.number))) matches Some(earlier) ==> !later_stamp(
            earlier.created_at@,
            job.created_at@,
        ),
        picks(config, repo, card, jobs.push(job), pickup),
    ensures
        pickup is Leave,
{
    reveal(Seq::filter);
    let keep = job_for(repo, card.number);
    assert(jobs.push(job).drop_last() == jobs);
    let kept = jobs.filter(keep);
    assert(jobs.push(job).filter(keep) == kept.push(job));
    assert(kept.push(job).drop_last() == kept);
}

/// After a job has ended, another is started only where the issue was updated later than that.
pub proof fn ended_jobs_are_retried_only_after_an_update(
    config: Config,
    repo: Seq<char>,
    card: Card,
    jobs: Seq<JobRecord>,
    pickup: Pickup,
    job: JobRecord,
)
    requires
        picks(config, repo, card, jobs, pickup),
        latest(jobs.filter(job_for(repo, card.number))) == Some(job),
        pickup is Start,
    ensures
        terminal(job.status),
        job.finished_at is Some,
        rfc3339_instant(card.updated_at@) is Some,
        rfc3339_instant(job.finished_at->0@) is Some,
        rfc3339_instant(card.updated_at@)->0 > rfc3339_instant(job.finished_at->0@)->0,
{
}

/// An issue without a job may be started. After a job of its has ended, in whichever of the three
/// ways, it may be started again exactly where both times can be read and the issue was updated
/// later than the job ended. While its last job has not ended it may not.
pub proof fn an_issue_may_be_started_again_once_updated(
    repo: Seq<char>,
    card: Card,
    jobs: Seq<JobRecord>,
)
    ensures
        match latest(jobs.filter(job_for(repo, card.number))) {
            None => startable(repo, card, jobs),
            Some(job) => {
                let ended = job.status == JobStatus::Cancelled || job.status
                    == JobStatus::Succeeded || job.status == JobStatus::Failed;
                let updated = rfc3339_instant(card.updated_at@);
                startable(repo, card, jobs) <==> ended && match (job.finished_at, updated) {
                    (Some(finished_at), Some(updated)) => match rfc3339_instant(finished_at@) {
                        Some(finished) => updated > finished,
                        None => false,
                    },
                    _ => false,
                }
            },
        },
{
}

/// Only the jobs of the same issue count: those of other issues and repositories could as well not
/// be there, and the letter case of the repository's name makes no difference.
pub proof fn only_jobs_of_the_issue_count(
    repo: Seq<char>,
    other_spelling: Seq<char>,
    card: Card,
    jobs: Seq<JobRecord>,
    job: JobRecord,
)
    requires
        crate::text::lower(repo) == crate::text::lower(other_spelling),
    ensures
        job_for(repo, card.number)(job) <==> crate::text::lower(job.repo@) == crate::text::lower(
            repo,
        ) && job.issue == card.number,
        crate::text::lower(job.repo@) != crate::text::lower(repo) || job.issue != card.number
            ==> startable(repo, card, jobs.push(job)) == startable(repo, card, jobs),
        startable(repo, card, jobs) == startable(other_spelling, card, jobs),
        (forall|k: int|
            0 <= k < jobs.len() ==> crate::text::lower((#[trigger] jobs[k]).repo@)
                != crate::text::lower(repo) || jobs[k].issue != card.number) ==> startable(
            repo,
            card,
            jobs,
        ),
{
    reveal(Seq::filter);
    let keep = job_for(repo, card.number);
    assert(jobs.push(job).drop_last() == jobs);
    assert(keep =~= job_for(other_spelling, card.number));
    if forall|k: int|
        0 <= k < jobs.len() ==> crate::text::lower((#[trigger] jobs[k]).repo@)
            != crate::text::lower(repo) || jobs[k].issue != card.number {
        lemma_filter_none(jobs, keep);
    }
}

/// The last job is one of the jobs, and where the times of all of them can be read none was created
/// later.
pub proof fn the_last_job_was_created_last(jobs: Seq<JobRecord>, k: int)
    requires
        0 <= k < jobs.len(),
        forall|i: int|
            0 <= i < jobs.len() ==> rfc3339_instant((#[trigger] jobs[i]).created_at@) is Some,
    ensures
        latest(jobs) matches Some(job) && jobs.contains(job) && rfc3339_instant(job.created_at@)->0
            >= rfc3339_instant(jobs[k].created_at@)->0,
    decreases jobs.len(),
{
    let shorter = jobs.drop_last();
    let last = jobs.last();
    assert(jobs[jobs.len() - 1] == last);
    assert forall|i: int| 0 <= i < shorter.len() implies rfc3339_instant(
        (#[trigger] shorter[i]).created_at@,
    ) is Some by {
        assert(jobs[i] == shorter[i]);
    }
    if shorter.len() > 0 {
        let at: int = if k < shorter.len() {
            k
        } else {
            0
        };
        assert(jobs[at] == shorter[at]);
        the_last_job_was_created_last(shorter, at);
        let earlier = latest(shorter)->0;
        let i = choose|i: int| 0 <= i < shorter.len() && shorter[i] == earlier;
        assert(jobs[i] == earlier);
    } else {
        assert(latest(shorter) is None);
    }
}

/// What stands before, at and behind one place.
proof fn lemma_one_selector(
    before: Seq<Seq<char>>,
    label: Seq<char>,
    behind: Seq<Seq<char>>,
    prefix: Seq<char>,
)
    requires
        forall|k: int| 0 <= k < before.len() ==> !begins_with(#[trigger] before[k], prefix),
        forall|k: int| 0 <= k < behind.len() ==> !begins_with(#[trigger] behind[k], prefix),
    ensures
        selectors(before + seq![label] + behind, prefix) == if begins_with(label, prefix) {
            seq![label]
        } else {
            seq![]
        },
{
    let keep = |label: Seq<char>| begins_with(label, prefix);
    Seq::filter_distributes_over_add(before + seq![label], behind, keep);
    Seq::filter_distributes_over_add(before, seq![label], keep);
    lemma_filter_none(before, keep);
    lemma_filter_none(behind, keep);
    if keep(label) {
        lemma_filter_all(seq![label], keep);
    } else {
        lemma_filter_none(seq![label], keep);
    }
}

/// Where no label begins with the prefix of a selector, the default harness runs, and no effort is
/// asked for.
pub proof fn without_selectors_the_defaults_hold(
    labels: Seq<Seq<char>>,
    default_harness: Seq<char>,
    allowed: Seq<Seq<char>>,
)
    ensures
        (forall|k: int| 0 <= k < labels.len() ==> !begins_with(#[trigger] labels[k], "agent:"@))
            ==> {
            if allowed.contains(default_harness) {
                chosen_harness(labels, default_harness, allowed) == Ok::<Seq<char>, Seq<char>>(
                    default_harness,
                )
            } else {
                chosen_harness(labels, default_harness, allowed) is Err
            }
        },
        (forall|k: int| 0 <= k < labels.len() ==> !begins_with(#[trigger] labels[k], "effort:"@))
            ==> chosen_effort(labels) == Ok::<Option<ReasoningEffort>, Seq<char>>(None),
{
    if forall|k: int| 0 <= k < labels.len() ==> !begins_with(#[trigger] labels[k], "agent:"@) {
        lemma_filter_none(labels, |label: Seq<char>| begins_with(label, "agent:"@));
    }
    if forall|k: int| 0 <= k < labels.len() ==> !begins_with(#[trigger] labels[k], "effort:"@) {
        lemma_filter_none(labels, |label: Seq<char>| begins_with(label, "effort:"@));
    }
}

/// A single selector chooses the agent that it names, where that is one that the service knows and
/// allows; any other selector is refused.
pub proof fn one_selector_chooses_the_agent(
    before: Seq<Seq<char>>,
    label: Seq<char>,
    behind: Seq<Seq<char>>,
    default_harness: Seq<char>,
    allowed: Seq<Seq<char>>,
)
    requires
        begins_with(label, "agent:"@),
        forall|k: int| 0 <= k < before.len() ==> !begins_with(#[trigger] before[k], "agent:"@),
        forall|k: int| 0 <= k < behind.len() ==> !begins_with(#[trigger] behind[k], "agent:"@),
    ensures
        ({
            let chosen = chosen_harness(before + seq![label] + behind, default_harness, allowed);
            match chosen {
                Ok(harness) => allowed.contains(harness) && (label == "agent:grok"@ && harness
                    == "grok"@ || label == "agent:codex"@ && harness == "codex"@ || label
                    == "agent:cursor"@ && harness == "cursor"@),
                Err(_) => !(label == "agent:grok"@ && allowed.contains("grok"@)) && !(label
                    == "agent:codex"@ && allowed.contains("codex"@)) && !(label
                    == "agent:cursor"@ && allowed.contains("cursor"@)),
            }
        }),
{
    lemma_one_selector(before, label, behind, "agent:"@);
    reveal_strlit("agent:");
    reveal_strlit("agent:grok");
    reveal_strlit("agent:codex");
    reveal_strlit("agent:cursor");
    reveal_strlit("grok");
    reveal_strlit("codex");
    reveal_strlit("cursor");
    assert("agent:grok"@.skip(6) == "grok"@);
    assert("agent:codex"@.skip(6) == "codex"@);
    assert("agent:cursor"@.skip(6) == "cursor"@);
}

/// A single selector chooses the effort that it names; any other selector is refused.
pub proof fn one_selector_chooses_the_effort(
    before: Seq<Seq<char>>,
    label: Seq<char>,
    behind: Seq<Seq<char>>,
)
    requires
        begins_with(label, "effort:"@),
        forall|k: int| 0 <= k < before.len() ==> !begins_with(#[trigger] before[k], "effort:"@),
        forall|k: int| 0 <= k < behind.len() ==> !begins_with(#[trigger] behind[k], "effort:"@),
    ensures
        match chosen_effort(before + seq![label] + behind) {
            Ok(Some(ReasoningEffort::Low)) => label == "effort:low"@,
            Ok(Some(ReasoningEffort::Medium)) => label == "effort:medium"@,
            Ok(Some(ReasoningEffort::High)) => label == "effort:high"@,
            Ok(Some(ReasoningEffort::Xhigh)) => label == "effort:xhigh"@,
            Ok(None) => false,
            Err(message) => label != "effort:low"@ && label != "effort:medium"@ && label
                != "effort:high"@ && label != "effort:xhigh"@ && message
                == "unsupported effort selector label "@ + label,
        },
{
    lemma_one_selector(before, label, behind, "effort:"@);
}

/// Two selectors of one kind are refused, wherever they stand among the labels.
pub proof fn two_selectors_are_refused(
    labels: Seq<Seq<char>>,
    i: int,
    j: int,
    default_harness: Seq<char>,
    allowed: Seq<Seq<char>>,
)
    requires
        0 <= i < j < labels.len(),
    ensures
        begins_with(labels[i], "agent:"@) && begins_with(labels[j], "agent:"@) ==> chosen_harness(
            labels,
            default_harness,
            allowed,
        ) == Err::<Seq<char>, Seq<char>>("use exactly one agent:* selector label"@),
        begins_with(labels[i], "effort:"@) && begins_with(labels[j], "effort:"@) ==> chosen_effort(
            labels,
        ) == Err::<Option<ReasoningEffort>, Seq<char>>(
            "use at most one effort:* selector label"@,
        ),
{
    lemma_two_kept(labels, |label: Seq<char>| begins_with(label, "agent:"@), i, j);
    lemma_two_kept(labels, |label: Seq<char>| begins_with(label, "effort:"@), i, j);
}

proof fn lemma_two_kept<T>(items: Seq<T>, keep: spec_fn(T) -> bool, i: int, j: int)
    requires
        0 <= i <= j < items.len(),
    ensures
        keep(items[i]) || keep(items[j]) ==> items.filter(keep).len() >= 1,
        i < j && keep(items[i]) && keep(items[j]) ==> items.filter(keep).len() >= 2,
    decreases items.len(),
{
    reveal(Seq::filter);
    let shorter = items.drop_last();
    if j < shorter.len() {
        lemma_two_kept(shorter, keep, i, j);
        assert(shorter[i] == items[i] && shorter[j] == items[j]);
    } else if i < shorter.len() {
        lemma_two_kept(shorter, keep, i, i);
        assert(shorter[i] == items[i]);
        assert(items.last() == items[j]);
    } else {
        assert(items.last() == items[j]);
    }
}

/// A ready card of a trusted author that may be started, with selectors that choose, is started: for
/// its own repository and issue, with the harness and the effort that were chosen, and nothing else.
/// A card that is not ready or may not be started is left alone; one that may, but whose author is
/// not trusted or whose selectors do not choose, is refused.
pub proof fn ready_cards_are_started(
    config: Config,
    repo: Seq<char>,
    card: Card,
    jobs: Seq<JobRecord>,
    pickup: Pickup,
)
    requires
        picks(config, repo, card, jobs, pickup),
    ensures
        ({
            let ready = maybe_text(card.column) == Some("board:ready"@) && startable(
                repo,
                card,
                jobs,
            );
            let trusted = card.author_login matches Some(login) && exists|i: int|
                0 <= i < config.allowed_issue_authors@.len() && crate::text::lower(
                    (#[trigger] config.allowed_issue_authors@[i])@,
                ) == crate::text::lower(login@);
            let harness = chosen_harness(
                texts(card.labels@),
                config.auto_run.default_harness@,
                texts(config.allowed_harnesses@),
            );
            let effort = chosen_effort(texts(card.labels@));
            &&& pickup is Leave <==> !ready
            &&& pickup is Start <==> ready && trusted && harness is Ok && effort is Ok
            &&& pickup matches Pickup::Start(request, chosen) ==> request.repo@ == repo
                && request.issue == card.number && request.harness@ == harness->Ok_0
                && request.prompt is None && request.crew@.len() == 0 && chosen == effort->Ok_0
            &&& pickup matches Pickup::Refuse(reason) ==> (!trusted ==> reason@
                == "issue author is not allowed to start board jobs"@)
        }),
{
    let authors = texts(config.allowed_issue_authors@);
    if let Some(login) = card.author_login {
        if config.trusts(Some(login@)) {
            let i = choose|i: int|
                0 <= i < authors.len() && same_ignoring_case(#[trigger] authors[i], login@);
            assert(crate::text::lower(config.allowed_issue_authors@[i]@) == crate::text::lower(
                login@,
            ));
        }
        if exists|i: int|
            0 <= i < config.allowed_issue_authors@.len() && crate::text::lower(
                (#[trigger] config.allowed_issue_authors@[i])@,
            ) == crate::text::lower(login@) {
            let i = choose|i: int|
                0 <= i < config.allowed_issue_authors@.len() && crate::text::lower(
                    (#[trigger] config.allowed_issue_authors@[i])@,
                ) == crate::text::lower(login@);
            assert(same_ignoring_case(authors[i], login@));
        }
    }
}

/// Timestamps that can be read are compared by the instants that they name, all others by their
/// characters.
pub proof fn timestamps_are_compared_by_instant(left: Seq<char>, right: Seq<char>)
    ensures
        rfc3339_instant(left) is Some && rfc3339_instant(right) is Some ==> (later_stamp(left, right)
            <==> rfc3339_instant(left)->0 > rfc3339_instant(right)->0),
        rfc3339_instant(left) is None || rfc3339_instant(right) is None ==> (later_stamp(left, right)
            <==> precedes(right, left)),
{
}

/// Of an issue with a single job, it may be started again exactly where the job was cancelled, has
/// succeeded or has failed, and the issue was updated after that; without a job it may be started.
pub proof fn a_card_is_started_again_after_its_job(
    repo: &str,
    card: &Card,
    jobs: &[JobRecord],
    yes: bool,
    before: Seq<JobRecord>,
    job: JobRecord,
    behind: Seq<JobRecord>,
)
    requires
        call_ensures(should_start, (repo, card, jobs), yes),
        forall|k: int|
            0 <= k < before.len() ==> crate::text::lower((#[trigger] before[k]).repo@)
                != crate::text::lower(repo@) || before[k].issue != card.number,
        forall|k: int|
            0 <= k < behind.len() ==> crate::text::lower((#[trigger] behind[k]).repo@)
                != crate::text::lower(repo@) || behind[k].issue != card.number,
    ensures
        jobs@ == before ==> yes,
        jobs@ == before + seq![job] + behind && crate::text::lower(job.repo@) == crate::text::lower(
            repo@,
        ) && job.issue == card.number ==> (yes <==> (job.status == JobStatus::Cancelled
            || job.status == JobStatus::Succeeded || job.status == JobStatus::Failed) && (
        job.finished_at matches Some(finished_at) && rfc3339_instant(finished_at@) is Some
            && rfc3339_instant(card.updated_at@) is Some && rfc3339_instant(card.updated_at@)->0
            > rfc3339_instant(finished_at@)->0)),
{
    let keep = job_for(repo@, card.number);
    lemma_filter_none(before, keep);
    lemma_filter_none(behind, keep);
    Seq::filter_distributes_over_add(before + seq![job], behind, keep);
    Seq::filter_distributes_over_add(before, seq![job], keep);
    if keep(job) {
        lemma_filter_all(seq![job], keep);
        assert(seq![job].drop_last() == Seq::<JobRecord>::empty());
        assert(latest(seq![job].drop_last()) is None);
        assert(latest(seq![job]) == Some(job));
    }
}

/// A card that was created or moved is looked at only where ready cards are picked up at all, and
/// then as a scan looks at it.
pub proof fn cards_are_picked_up_where_that_is_enabled(
    runner: &AutoRunner,
    repo: &str,
    card: &Card,
    jobs: &[JobRecord],
    pickup: Pickup,
)
    requires
        call_ensures(AutoRunner::consider, (runner, repo, card, jobs), pickup),
    ensures
        !runner.config.auto_run.enabled ==> pickup is Leave,
        runner.config.auto_run.enabled ==> picks(runner.config, repo@, *card, jobs@, pickup),
        runner.config.auto_run.enabled && pickup is Leave ==> maybe_text(card.column) != Some(
            "board:ready"@,
        ) || !startable(repo@, *card, jobs@),
{
}

/// A scan looks at every ready card once, in order, with the jobs that there are and those that it
/// has started itself, and counts these.
pub proof fn a_scan_looks_at_every_card(
    scan: &mut Scan,
    runner: &AutoRunner,
    pickup: Option<Pickup>,
)
    requires
        scan_wf(old(scan)@),
        call_ensures(Scan::step, (scan, runner), pickup),
    ensures
        pickup is None <==> old(scan)@.next == old(scan)@.cards.len(),
        pickup matches Some(pickup) ==> final(scan)@.next == old(scan)@.next + 1 && picks(
            runner.config,
            old(scan)@.cards[old(scan)@.next].repo@,
            old(scan)@.cards[old(scan)@.next].card,
            old(scan)@.jobs,
            pickup,
        ),
        final(scan)@.jobs == old(scan)@.jobs,
        final(scan)@.started == old(scan)@.started,
        final(scan)@.cards == old(scan)@.cards,
{
}

/// A job that was created counts for the rest of the scan.
pub proof fn a_scan_remembers_what_it_started(scan: &mut Scan, job: JobRecord)
    requires
        scan_wf(old(scan)@),
        old(scan)@.started < old(scan)@.next,
        call_ensures(Scan::created, (scan, job), ()),
    ensures
        final(scan)@.jobs == old(scan)@.jobs.push(job),
        final(scan)@.started == old(scan)@.started + 1,
        final(scan)@.next == old(scan)@.next,
        final(scan)@.cards == old(scan)@.cards,
{
}

} // verus!
