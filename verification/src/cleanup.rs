//! The removal of the worktrees of old jobs: which, and when.
use crate::automation::parse_timestamp;
use crate::config::Config;
use crate::jobs::{canonical_id, is_canonical_id, worktree_of, worktree_path};
use crate::manager::JobManager;
use crate::model::{is_repo, terminal, validate_repo, JobRecord, JobStatus};
use crate::outside::{
    local_day_and_hour, local_occurrences, local_reading, occurrences_of_hour, rfc3339_instant,
    Occurrence, FIRST_INSTANT, LAST_INSTANT, WIDEST_OFFSET,
};
use crate::path::{join_path, joined_path, paths_equal, same_path};
use crate::text::{
    begins_with, list_contains, lower, lowered, maybe_text, split_at_char, split_once, texts,
};
use crate::util::SECOND;
use vstd::prelude::*;

verus! {

/// The number of nanoseconds in a day.
pub const DAY: i128 = 86_400_000_000_000;

// ---------------------------------------------------------------------------------------------
// Which worktrees
// ---------------------------------------------------------------------------------------------

/// The directory that a job must have worked in for it to be removed.
pub open spec fn expected(work_dir: Seq<char>, repo: Seq<char>, id: Seq<char>) -> Option<Seq<char>> {
    if is_repo(repo) && canonical_id(id) {
        Some(worktree_of(work_dir, repo, id))
    } else {
        None
    }
}

/// The directory that a job must have worked in for it to be removed; none where its repository or
/// its identifier is not what the service writes.
pub fn expected_worktree(work_dir: &str, job: &JobRecord) -> (path: Option<String>)
    ensures
        maybe_text(path) == expected(work_dir@, job.repo@, job.id@),
{
    if validate_repo(job.repo.as_str()) && is_canonical_id(job.id.as_str()) {
        Some(worktree_path(work_dir, job.repo.as_str(), job.id.as_str()))
    } else {
        None
    }
}

/// What is found of a job that has ended.
#[derive(Clone, Copy, Debug, PartialEq, Eq, Structural)]
pub enum Verdict {
    /// Its record is not what the service writes.
    Invalid,
    /// It ended too recently.
    Recent,
    /// Its repository has a job.
    Active,
    /// Its worktree can go, if it is what it should be.
    Inspect,
}

/// What is found of a job that has ended, once the instant at which it ended is known.
pub open spec fn judged(
    job: JobRecord,
    finished: Option<int>,
    cutoff: int,
    active: bool,
    claimed: bool,
    work_dir: Seq<char>,
) -> Verdict {
    let path = expected(work_dir, job.repo@, job.id@);
    if finished is None {
        Verdict::Invalid
    } else if finished->0 > cutoff {
        Verdict::Recent
    } else if active {
        Verdict::Active
    } else if path is None || !same_path(job.worktree@, path->0) {
        Verdict::Invalid
    } else if claimed {
        Verdict::Active
    } else {
        Verdict::Inspect
    }
}

/// The instant at which a job ended.
pub open spec fn finish_instant(job: JobRecord) -> Option<int> {
    match job.finished_at {
        Some(text) => rfc3339_instant(text@),
        None => None,
    }
}

/// Judges a job that has ended, once the instant at which it ended is known.
pub fn judge(
    job: &JobRecord,
    finished: Option<i128>,
    cutoff: i128,
    active: bool,
    claimed: bool,
    work_dir: &str,
) -> (verdict: Verdict)
    ensures
        verdict == judged(
            *job,
            match finished {
                Some(instant) => Some(instant as int),
                None => None,
            },
            cutoff as int,
            active,
            claimed,
            work_dir@,
        ),
{
    let finished = match finished {
        Some(instant) => instant,
        None => {
            return Verdict::Invalid;
        },
    };
    if finished > cutoff {
        return Verdict::Recent;
    }
    if active {
        return Verdict::Active;
    }
    match expected_worktree(work_dir, job) {
        None => Verdict::Invalid,
        Some(path) => if !paths_equal(job.worktree.as_str(), path.as_str()) {
            Verdict::Invalid
        } else if claimed {
            Verdict::Active
        } else {
            Verdict::Inspect
        },
    }
}

/// What a path names, without following links.
#[derive(Clone, Copy, Debug, PartialEq, Eq, Structural)]
pub enum PathKind {
    Directory,
    Other,
    Missing,
    Unreadable,
}

/// What the paths down to a worktree come to: the first that is not a directory decides.
pub open spec fn first_obstacle(kinds: Seq<PathKind>) -> PathKind
    decreases kinds.len(),
{
    if kinds.len() == 0 {
        PathKind::Directory
    } else if kinds[0] != PathKind::Directory {
        kinds[0]
    } else {
        first_obstacle(kinds.skip(1))
    }
}

/// What the paths down to a worktree come to.
pub fn managed_tree(kinds: &Vec<PathKind>) -> (kind: PathKind)
    ensures
        kind == first_obstacle(kinds@),
{
    let mut i: usize = 0;
    assert(kinds@.skip(0) == kinds@);
    while i < kinds.len()
        invariant
            i <= kinds@.len(),
            first_obstacle(kinds@) == first_obstacle(kinds@.skip(i as int)),
        decreases kinds@.len() - i,
    {
        assert(kinds@.skip(i as int)[0] == kinds@[i as int]);
        assert(kinds@.skip(i as int).skip(1) == kinds@.skip(i + 1));
        if kinds[i] != PathKind::Directory {
            return kinds[i];
        }
        i += 1;
    }
    PathKind::Directory
}

/// The paths down to a worktree, from the work directory on.
pub open spec fn managed_paths(work_dir: Seq<char>, repo: Seq<char>, id: Seq<char>) -> Seq<
    Seq<char>,
> {
    match split_once(repo, '/') {
        Some((owner, name)) => seq![
            work_dir,
            join_path(work_dir, owner),
            join_path(join_path(work_dir, owner), name),
            join_path(join_path(join_path(work_dir, owner), name), id),
        ],
        None => seq![],
    }
}

/// The paths down to a worktree, from the work directory on.
pub fn managed_tree_paths(work_dir: &str, job: &JobRecord) -> (paths: Vec<String>)
    ensures
        texts(paths@) == managed_paths(work_dir@, job.repo@, job.id@),
{
    let mut paths: Vec<String> = Vec::new();
    if let Some((owner, name)) = split_at_char(job.repo.as_str(), '/') {
        let owner_dir = joined_path(work_dir, owner.as_str());
        let repository_dir = joined_path(owner_dir.as_str(), name.as_str());
        let worktree = joined_path(repository_dir.as_str(), job.id.as_str());
        paths.push(work_dir.to_owned());
        paths.push(owner_dir);
        paths.push(repository_dir);
        paths.push(worktree);
    }
    assert(texts(paths@) == managed_paths(work_dir@, job.repo@, job.id@));
    paths
}

// ---------------------------------------------------------------------------------------------
// A sweep
// ---------------------------------------------------------------------------------------------

/// What a sweep did.
#[derive(Clone, Copy, Debug, PartialEq, Eq, Structural)]
pub struct CleanupReport {
    pub removed: usize,
    pub skipped_active: usize,
    pub skipped_recent: usize,
    pub skipped_invalid: usize,
    pub missing: usize,
}

impl CleanupReport {
    /// How many jobs a report counts.
    pub open spec fn total(self) -> int {
        self.removed + self.skipped_active + self.skipped_recent + self.skipped_invalid
            + self.missing
    }
}

impl Default for CleanupReport {
    fn default() -> (report: CleanupReport)
        ensures
            report == nothing_done(),
    {
        CleanupReport {
            removed: 0,
            skipped_active: 0,
            skipped_recent: 0,
            skipped_invalid: 0,
            missing: 0,
        }
    }
}

/// The report of a sweep that has not begun.
pub open spec fn nothing_done() -> CleanupReport {
    CleanupReport {
        removed: 0,
        skipped_active: 0,
        skipped_recent: 0,
        skipped_invalid: 0,
        missing: 0,
    }
}

/// One more job of a kind.
pub open spec fn counting(report: CleanupReport, verdict: Verdict) -> CleanupReport {
    match verdict {
        Verdict::Invalid => CleanupReport {
            skipped_invalid: (report.skipped_invalid + 1) as usize,
            ..report
        },
        Verdict::Recent => CleanupReport {
            skipped_recent: (report.skipped_recent + 1) as usize,
            ..report
        },
        Verdict::Active => CleanupReport {
            skipped_active: (report.skipped_active + 1) as usize,
            ..report
        },
        Verdict::Inspect => report,
    }
}

/// One more worktree that was gone.
pub open spec fn counting_missing(report: CleanupReport) -> CleanupReport {
    CleanupReport { missing: (report.missing + 1) as usize, ..report }
}

/// One more worktree that was removed.
pub open spec fn counting_removed(report: CleanupReport) -> CleanupReport {
    CleanupReport { removed: (report.removed + 1) as usize, ..report }
}

/// A job that has ended.
pub open spec fn has_ended() -> spec_fn(JobRecord) -> bool {
    |job: JobRecord| terminal(job.status)
}

/// Some job of a repository has not ended.
pub open spec fn has_active(jobs: Seq<JobRecord>, repo: Seq<char>) -> bool {
    exists|i: int|
        0 <= i < jobs.len() && !terminal((#[trigger] jobs[i]).status) && lower(jobs[i].repo@)
            == lower(repo)
}

/// A sweep under way.
pub struct Sweep {
    jobs: Vec<JobRecord>,
    active_repos: Vec<String>,
    cutoff: i128,
    work_dir: String,
    next: usize,
    pending: bool,
    report: CleanupReport,
}

/// The state of a [`Sweep`]: the jobs that have ended, the repositories with a job that has not,
/// when a worktree is old, where the worktrees are, how many jobs were looked at, whether the
/// worktree of the last of them is looked at still, and what was done.
#[verifier::ext_equal]
pub struct SweepView {
    pub jobs: Seq<JobRecord>,
    pub active_repos: Seq<Seq<char>>,
    pub cutoff: int,
    pub work_dir: Seq<char>,
    pub next: int,
    pub pending: bool,
    pub report: CleanupReport,
}

impl View for Sweep {
    type V = SweepView;

    closed spec fn view(&self) -> SweepView {
        SweepView {
            jobs: self.jobs@,
            active_repos: texts(self.active_repos@),
            cutoff: self.cutoff as int,
            work_dir: self.work_dir@,
            next: self.next as int,
            pending: self.pending,
            report: self.report,
        }
    }
}

impl SweepView {
    /// Every job that was looked at is counted once, but for the one whose worktree is looked at.
    pub open spec fn wf(self) -> bool {
        &&& 0 <= self.next <= self.jobs.len()
        &&& self.report.total() + (if self.pending {
            1int
        } else {
            0
        }) == self.next
    }

    /// The verdict on a job of the sweep.
    pub open spec fn verdict_on(self, index: int, claims: Map<Seq<char>, String>) -> Verdict {
        let job = self.jobs[index];
        judged(
            job,
            finish_instant(job),
            self.cutoff,
            self.active_repos.contains(lower(job.repo@)),
            claims.contains_key(lower(job.repo@)),
            self.work_dir,
        )
    }

    /// The paths down to the worktree of a job of the sweep.
    pub open spec fn paths_of(self, index: int) -> Seq<Seq<char>> {
        managed_paths(self.work_dir, self.jobs[index].repo@, self.jobs[index].id@)
    }
}

/// What a sweep does next.
pub enum SweepStep {
    /// Every job was looked at.
    Done,
    /// The worktree of the job stays.
    Skipped,
    /// These paths are to be looked at; the last is the worktree.
    Inspect(Vec<String>),
}

/// What came of the removal of a worktree.
#[derive(Clone, Copy, Debug, PartialEq, Eq, Structural)]
pub enum Removal {
    Removed,
    Missing,
    Failed,
}

impl Sweep {
    /// Begins a sweep over all jobs at an instant.
    pub fn start(config: &Config, jobs: Vec<JobRecord>, now: i128) -> (sweep: Sweep)
        requires
            FIRST_INSTANT <= now - config.cleanup.retention_days * DAY,
            now <= LAST_INSTANT,
        ensures
            sweep@.wf(),
            sweep@.jobs == jobs@.filter(has_ended()),
            forall|repo: Seq<char>|
                sweep@.active_repos.contains(lower(repo)) <==> #[trigger] has_active(
                    jobs@,
                    repo,
                ),
            sweep@.cutoff == now - config.cleanup.retention_days * DAY,
            sweep@.work_dir == config.work_dir@,
            sweep@.next == 0,
            !sweep@.pending,
            sweep@.report == nothing_done(),
    {
        let ghost all = jobs@;
        let mut ended: Vec<JobRecord> = Vec::new();
        let mut active_repos: Vec<String> = Vec::new();
        proof {
            reveal(Seq::filter);
        }
        for job in iter: jobs
            invariant
                iter.seq() == all,
                ended@ == all.take(iter.index() as int).filter(has_ended()),
                forall|repo: Seq<char>|
                    texts(active_repos@).contains(lower(repo)) <==> #[trigger] has_active(
                        all.take(iter.index() as int),
                        repo,
                    ),
        {
            let ghost done = iter.index() as int;
            let ghost names = texts(active_repos@);
            proof {
                reveal(Seq::filter);
                assert(all.take(done + 1).drop_last() == all.take(done));
                assert(all.take(done + 1).last() == job);
            }
            if job.status.is_terminal() {
                ended.push(job);
                proof {
                    lemma_same_active(all, done);
                }
            } else {
                let name = lowered(job.repo.as_str());
                active_repos.push(name);
                proof {
                    assert(texts(active_repos@) == names.push(name@));
                    lemma_more_active(all, done, names);
                }
            }
        }
        assert(all.take(all.len() as int) == all);
        let days: i128 = config.cleanup.retention_days as i128;
        assert(days * DAY <= 65_535 * DAY) by (nonlinear_arith)
            requires
                days <= 65_535,
        ;
        Sweep {
            jobs: ended,
            active_repos,
            cutoff: now - days * DAY,
            work_dir: config.work_dir.clone(),
            next: 0,
            pending: false,
            report: CleanupReport::default(),
        }
    }

    /// Looks at the next job. Its worktree stays, or its paths are to be looked at.
    pub fn step(&mut self, manager: &JobManager) -> (step: SweepStep)
        requires
            old(self)@.wf(),
            !old(self)@.pending,
        ensures
            final(self)@.wf(),
            match step {
                SweepStep::Done => old(self)@.next == old(self)@.jobs.len() && final(self)@ == old(
                    self,
                )@,
                SweepStep::Skipped => {
                    &&& old(self)@.next < old(self)@.jobs.len()
                    &&& old(self)@.verdict_on(old(self)@.next, manager@.claims) != Verdict::Inspect
                    &&& final(self)@ == (SweepView {
                        report: counting(
                            old(self)@.report,
                            old(self)@.verdict_on(old(self)@.next, manager@.claims),
                        ),
                        next: old(self)@.next + 1,
                        ..old(self)@
                    })
                },
                SweepStep::Inspect(paths) => {
                    &&& old(self)@.next < old(self)@.jobs.len()
                    &&& old(self)@.verdict_on(old(self)@.next, manager@.claims) == Verdict::Inspect
                    &&& texts(paths@) == old(self)@.paths_of(old(self)@.next)
                    &&& final(self)@ == (SweepView {
                        next: old(self)@.next + 1,
                        pending: true,
                        ..old(self)@
                    })
                },
            },
    {
        if self.next >= self.jobs.len() {
            return SweepStep::Done;
        }
        let len: usize = self.jobs.len();
        assert(self.report.total() < len);
        let job = &self.jobs[self.next];
        let finished = match &job.finished_at {
            Some(text) => parse_timestamp(text.as_str()),
            None => None,
        };
        let active = list_contains(&self.active_repos, lowered(job.repo.as_str()).as_str());
        let claimed = manager.is_claimed(job.repo.as_str());
        let verdict = judge(job, finished, self.cutoff, active, claimed, self.work_dir.as_str());
        let paths = managed_tree_paths(self.work_dir.as_str(), job);
        self.next = self.next + 1;
        match verdict {
            Verdict::Invalid => {
                self.report.skipped_invalid = self.report.skipped_invalid + 1;
            },
            Verdict::Recent => {
                self.report.skipped_recent = self.report.skipped_recent + 1;
            },
            Verdict::Active => {
                self.report.skipped_active = self.report.skipped_active + 1;
            },
            Verdict::Inspect => {
                self.pending = true;
                return SweepStep::Inspect(paths);
            },
        }
        SweepStep::Skipped
    }

    /// Takes in what the paths down to a worktree are, up to the first that is not a directory, and
    /// tells whether the worktree is to be removed: only where all of them are directories, and
    /// none a link.
    pub fn inspected(&mut self, kinds: &Vec<PathKind>) -> (remove: bool)
        requires
            old(self)@.wf(),
            old(self)@.pending,
            first_obstacle(kinds@) == PathKind::Directory ==> kinds@.len() == old(self)@.paths_of(
                old(self)@.next - 1,
            ).len(),
        ensures
            final(self)@.wf(),
            remove == (first_obstacle(kinds@) == PathKind::Directory),
            final(self)@ == (SweepView {
                pending: remove,
                report: match first_obstacle(kinds@) {
                    PathKind::Directory => old(self)@.report,
                    PathKind::Missing => counting_missing(old(self)@.report),
                    _ => counting(old(self)@.report, Verdict::Invalid),
                },
                ..old(self)@
            }),
    {
        let len: usize = self.jobs.len();
        assert(self.report.total() < len);
        match managed_tree(kinds) {
            PathKind::Directory => {
                return true;
            },
            PathKind::Missing => {
                self.report.missing = self.report.missing + 1;
            },
            PathKind::Other => {
                self.report.skipped_invalid = self.report.skipped_invalid + 1;
            },
            PathKind::Unreadable => {
                self.report.skipped_invalid = self.report.skipped_invalid + 1;
            },
        }
        self.pending = false;
        false
    }

    /// Takes in what came of the removal of a worktree.
    pub fn removed(&mut self, removal: Removal)
        requires
            old(self)@.wf(),
            old(self)@.pending,
        ensures
            final(self)@.wf(),
            final(self)@ == (SweepView {
                pending: false,
                report: match removal {
                    Removal::Removed => counting_removed(old(self)@.report),
                    Removal::Missing => counting_missing(old(self)@.report),
                    Removal::Failed => counting(old(self)@.report, Verdict::Invalid),
                },
                ..old(self)@
            }),
    {
        let len: usize = self.jobs.len();
        assert(self.report.total() < len);
        match removal {
            Removal::Removed => {
                self.report.removed = self.report.removed + 1;
            },
            Removal::Missing => {
                self.report.missing = self.report.missing + 1;
            },
            Removal::Failed => {
                self.report.skipped_invalid = self.report.skipped_invalid + 1;
            },
        }
        self.pending = false;
    }

    /// What the sweep did so far.
    pub fn report(&self) -> (report: CleanupReport)
        ensures
            report == self@.report,
    {
        self.report
    }
}

proof fn lemma_same_active(all: Seq<JobRecord>, done: int)
    requires
        0 <= done < all.len(),
        terminal(all[done].status),
    ensures
        forall|repo: Seq<char>| #[trigger]
            has_active(all.take(done + 1), repo) <==> has_active(all.take(done), repo),
{
    let longer = all.take(done + 1);
    let shorter = all.take(done);
    assert forall|repo: Seq<char>| #[trigger]
        has_active(longer, repo) <==> has_active(shorter, repo) by {
        if has_active(longer, repo) {
            let i = choose|i: int|
                0 <= i < longer.len() && !terminal((#[trigger] longer[i]).status) && lower(
                    longer[i].repo@,
                ) == lower(repo);
            assert(shorter[i] == longer[i]);
        }
        if has_active(shorter, repo) {
            let i = choose|i: int|
                0 <= i < shorter.len() && !terminal((#[trigger] shorter[i]).status) && lower(
                    shorter[i].repo@,
                ) == lower(repo);
            assert(longer[i] == shorter[i]);
        }
    }
}

proof fn lemma_more_active(all: Seq<JobRecord>, done: int, names: Seq<Seq<char>>)
    requires
        0 <= done < all.len(),
        !terminal(all[done].status),
        forall|repo: Seq<char>|
            names.contains(lower(repo)) <==> #[trigger] has_active(all.take(done), repo),
    ensures
        forall|repo: Seq<char>|
            names.push(lower(all[done].repo@)).contains(lower(repo)) <==> #[trigger] has_active(
                all.take(done + 1),
                repo,
            ),
{
    let longer = all.take(done + 1);
    let shorter = all.take(done);
    let added = lower(all[done].repo@);
    let more = names.push(added);
    assert forall|repo: Seq<char>|
        more.contains(lower(repo)) <==> #[trigger] has_active(longer, repo) by {
        if more.contains(lower(repo)) {
            let i = choose|i: int| 0 <= i < more.len() && more[i] == lower(repo);
            if i < names.len() {
                assert(names[i] == lower(repo));
                assert(names.contains(lower(repo)));
                assert(has_active(shorter, repo));
                let k = choose|k: int|
                    0 <= k < shorter.len() && !terminal((#[trigger] shorter[k]).status) && lower(
                        shorter[k].repo@,
                    ) == lower(repo);
                assert(longer[k] == shorter[k]);
            } else {
                assert(longer[done] == all[done]);
            }
        }
        if has_active(longer, repo) {
            let k = choose|k: int|
                0 <= k < longer.len() && !terminal((#[trigger] longer[k]).status) && lower(
                    longer[k].repo@,
                ) == lower(repo);
            if k < done {
                assert(shorter[k] == longer[k]);
                assert(has_active(shorter, repo));
                let i = choose|i: int| 0 <= i < names.len() && names[i] == lower(repo);
                assert(more[i] == lower(repo));
            } else {
                assert(more[names.len() as int] == lower(repo));
            }
        }
    }
}

// ---------------------------------------------------------------------------------------------
// When
// ---------------------------------------------------------------------------------------------

/// The day of the next sweep: today where the hour is still to come, else tomorrow.
pub open spec fn sweep_day(reading: (int, int), run_hour: int) -> int {
    if reading.1 < run_hour {
        reading.0
    } else {
        reading.0 + 1
    }
}

/// The first full hour from the given one on that a clock in a zone shows, and when it first does.
/// Hours are counted from the start of Julian day zero.
pub open spec fn first_shown(zone: Seq<char>, hour: int) -> Option<int>
    decreases 24 * (i32::MAX as int) + 24 - hour,
{
    if hour >= 24 * (i32::MAX as int) + 24 {
        None
    } else {
        match local_occurrences(zone, hour / 24, hour % 24) {
            Some(instants) => if instants.len() > 0 {
                Some(instants[0])
            } else {
                first_shown(zone, hour + 1)
            },
            None => None,
        }
    }
}

/// The seconds from an instant to a second, at least one.
pub open spec fn seconds_between(now: int, target: int) -> int {
    let seconds = (target * SECOND - now) / (SECOND as int);
    if seconds < 1 {
        1
    } else {
        seconds
    }
}

/// The seconds until the next sweep.
pub open spec fn cleanup_delay(now: int, run_hour: int, zone: Seq<char>) -> Option<int> {
    match local_reading(zone, now) {
        Some(reading) => match first_shown(zone, 24 * sweep_day(reading, run_hour) + run_hour) {
            Some(target) => Some(seconds_between(now, target)),
            None => None,
        },
        None => None,
    }
}

/// The seconds from an instant to a second, at least one.
pub fn delay_until(now: i128, target: i64) -> (seconds: u64)
    requires
        FIRST_INSTANT <= now <= LAST_INSTANT,
    ensures
        seconds == seconds_between(now as int, target as int),
{
    let difference: i128 = target as i128 * SECOND - now;
    if difference < SECOND {
        return 1;
    }
    (difference / SECOND) as u64
}

/// The seconds until a clock in the time zone next shows the full hour; where it skips that hour,
/// until the next full hour that it shows, and where it shows it twice, until the first time.
/// `None` where there is no such zone, or the calendar comes to its end.
pub fn seconds_until_cleanup(now: i128, run_hour_local: u8, zone: &str) -> (seconds: Option<u64>)
    requires
        run_hour_local < 24,
        FIRST_INSTANT + WIDEST_OFFSET <= now <= LAST_INSTANT - WIDEST_OFFSET,
    ensures
        match seconds {
            Some(seconds) => cleanup_delay(now as int, run_hour_local as int, zone@) == Some(
                seconds as int,
            ),
            None => cleanup_delay(now as int, run_hour_local as int, zone@) is None,
        },
{
    let (today, hour_now) = match local_day_and_hour(zone, now) {
        Some(reading) => reading,
        None => {
            return None;
        },
    };
    let mut day: i32 = today;
    if !(hour_now < run_hour_local) {
        if day == i32::MAX {
            return None;
        }
        day = day + 1;
    }
    let mut hour: u8 = run_hour_local;
    let ghost first = 24 * day + hour;
    loop
        invariant
            hour < 24,
            FIRST_INSTANT <= now <= LAST_INSTANT,
            local_reading(zone@, now as int) == Some((today as int, hour_now as int)),
            first == 24 * sweep_day((today as int, hour_now as int), run_hour_local as int)
                + run_hour_local,
            first_shown(zone@, first) == first_shown(zone@, 24 * day + hour),
        decreases 24 * (i32::MAX as int) + 24 - (24 * day + hour),
    {
        assert((24 * day + hour) / 24 == day && (24 * day + hour) % 24 == hour);
        match occurrences_of_hour(zone, day, hour) {
            None => {
                return None;
            },
            Some(Occurrence::Once(only)) => {
                return Some(delay_until(now, only));
            },
            Some(Occurrence::Twice(earlier, _)) => {
                return Some(delay_until(now, earlier));
            },
            Some(Occurrence::Never) => {
                if hour < 23 {
                    hour = hour + 1;
                } else {
                    if day == i32::MAX {
                        assert(first_shown(zone@, 24 * day + hour + 1) is None);
                        return None;
                    }
                    day = day + 1;
                    hour = 0;
                }
            },
        }
    }
}

// ---------------------------------------------------------------------------------------------
// Laws
// ---------------------------------------------------------------------------------------------

/// Only the worktree of a job that ended before the cutoff, in a repository without a job, is
/// looked at for removal, and only where it is the one that the service gave it.
pub proof fn only_expired_idle_worktrees_are_inspected(
    sweep: SweepView,
    index: int,
    claims: Map<Seq<char>, String>,
)
    requires
        0 <= index < sweep.jobs.len(),
        sweep.verdict_on(index, claims) == Verdict::Inspect,
    ensures
        finish_instant(sweep.jobs[index]) is Some,
        finish_instant(sweep.jobs[index])->0 <= sweep.cutoff,
        !sweep.active_repos.contains(lower(sweep.jobs[index].repo@)),
        !claims.contains_key(lower(sweep.jobs[index].repo@)),
        is_repo(sweep.jobs[index].repo@),
        canonical_id(sweep.jobs[index].id@),
        same_path(
            sweep.jobs[index].worktree@,
            worktree_of(sweep.work_dir, sweep.jobs[index].repo@, sweep.jobs[index].id@),
        ),
        sweep.paths_of(index).len() == 4,
        sweep.paths_of(index).last() == worktree_of(
            sweep.work_dir,
            sweep.jobs[index].repo@,
            sweep.jobs[index].id@,
        ),
{
}

/// A sweep that has looked at every job has counted each job that ended exactly once.
pub proof fn a_sweep_counts_every_job(sweep: SweepView)
    requires
        sweep.wf(),
        sweep.next == sweep.jobs.len(),
        !sweep.pending,
    ensures
        sweep.report.total() == sweep.jobs.len(),
{
}

/// A directory with a slash behind it, unless it ends with one.
pub open spec fn with_slash(directory: Seq<char>) -> Seq<char> {
    if directory.len() == 0 || directory.last() == '/' {
        directory
    } else {
        directory + seq!['/']
    }
}

/// A worktree is a directory three levels below the work directory: by owner, repository and job.
pub proof fn worktrees_stay_within_the_work_directory(
    work_dir: Seq<char>,
    repo: Seq<char>,
    id: Seq<char>,
)
    requires
        is_repo(repo),
        canonical_id(id),
    ensures
        split_once(repo, '/') matches Some((owner, name)) && worktree_of(work_dir, repo, id)
            == with_slash(work_dir) + owner + seq!['/'] + name + seq!['/'] + id,
        begins_with(worktree_of(work_dir, repo, id), with_slash(work_dir)),
{
    let (owner, name) = split_once(repo, '/')->0;
    let value = choose|value: u128| id == #[trigger] crate::outside::hyphenated(value);
    crate::jobs::lemma_hyphenated(value);
    assert(crate::jobs::is_id_char(id[0]));
    assert(crate::model::is_name_char(owner[0]));
    assert(crate::model::is_name_char(name[0]));
    assert(crate::model::is_name_char(owner[owner.len() - 1]));
    assert(crate::model::is_name_char(name[name.len() - 1]));
    let first = join_path(work_dir, owner);
    assert(first == with_slash(work_dir) + owner);
    assert(first.last() == owner.last());
    let second = join_path(first, name);
    assert(second == first + seq!['/'] + name);
    assert(second.last() == name.last());
    let third = join_path(second, id);
    assert(third == second + seq!['/'] + id);
    let path = worktree_of(work_dir, repo, id);
    assert(path == with_slash(work_dir) + owner + seq!['/'] + name + seq!['/'] + id);
    assert(path.take(with_slash(work_dir).len() as int) == with_slash(work_dir));
}

/// The next sweep is never due at once.
pub proof fn a_sweep_is_never_due_at_once(now: int, target: int)
    ensures
        seconds_between(now, target) >= 1,
        target * SECOND - now >= SECOND ==> seconds_between(now, target) * SECOND <= target * SECOND
            - now < (seconds_between(now, target) + 1) * SECOND,
{
}

/// What is found of a job that has ended rests on when it ended, on whether its repository is in
/// use, and on whether its record is what the service writes; and on nothing else. Its worktree is
/// looked at for removal exactly where it ended by the cutoff, its repository has neither an active
/// job nor a claim, and its worktree is the one that the service gave it. It is too recent exactly
/// where it ended later than the cutoff.
pub proof fn expired_idle_worktrees_are_inspected(
    job: JobRecord,
    finished: Option<int>,
    cutoff: int,
    active: bool,
    claimed: bool,
    work_dir: Seq<char>,
)
    ensures
        ({
            let verdict = judged(job, finished, cutoff, active, claimed, work_dir);
            let own = is_repo(job.repo@) && canonical_id(job.id@) && same_path(
                job.worktree@,
                worktree_of(work_dir, job.repo@, job.id@),
            );
            &&& verdict == Verdict::Inspect <==> (finished matches Some(instant) && instant
                <= cutoff) && !active && !claimed && own
            &&& verdict == Verdict::Recent <==> (finished matches Some(instant) && instant > cutoff)
            &&& verdict == Verdict::Active <==> (finished matches Some(instant) && instant
                <= cutoff) && (active || claimed && own)
            &&& verdict == Verdict::Invalid <==> finished is None || finished->0 <= cutoff
                && !active && !own
        }),
{
}

/// A sweep looks at exactly the worktrees of the jobs that ended, in whichever of the three ways, by
/// the cutoff, that are their own, and whose repositories have neither a job that has not ended nor
/// a claim.
pub proof fn a_sweep_inspects_every_expired_worktree(
    sweep: SweepView,
    index: int,
    claims: Map<Seq<char>, String>,
)
    requires
        0 <= index < sweep.jobs.len(),
    ensures
        ({
            let job = sweep.jobs[index];
            let finished = match job.finished_at {
                Some(text) => rfc3339_instant(text@),
                None => None,
            };
            &&& sweep.verdict_on(index, claims) == Verdict::Inspect <==> (finished matches Some(
                instant,
            ) && instant <= sweep.cutoff) && !sweep.active_repos.contains(lower(job.repo@))
                && !claims.contains_key(lower(job.repo@)) && is_repo(job.repo@) && canonical_id(
                job.id@,
            ) && same_path(job.worktree@, worktree_of(sweep.work_dir, job.repo@, job.id@))
            &&& sweep.verdict_on(index, claims) == Verdict::Recent <==> (finished matches Some(
                instant,
            ) && instant > sweep.cutoff)
        }),
{
}

/// The jobs of a sweep are all jobs that have been cancelled, have succeeded or have failed, and no
/// others; a repository is in use while some job of its waits, runs or is being cancelled.
pub proof fn a_sweep_is_over_all_jobs_that_ended(
    jobs: Seq<JobRecord>,
    job: JobRecord,
    repo: Seq<char>,
)
    ensures
        jobs.filter(has_ended()).contains(job) <==> jobs.contains(job) && (job.status
            == JobStatus::Cancelled || job.status == JobStatus::Succeeded || job.status
            == JobStatus::Failed),
        has_active(jobs, repo) <==> exists|i: int|
            0 <= i < jobs.len() && ((#[trigger] jobs[i]).status == JobStatus::Queued
                || jobs[i].status == JobStatus::Running || jobs[i].status
                == JobStatus::Cancelling) && lower(jobs[i].repo@) == lower(repo),
        (forall|i: int|
            0 <= i < jobs.len() ==> (#[trigger] jobs[i]).status == JobStatus::Cancelled
                || jobs[i].status == JobStatus::Succeeded || jobs[i].status == JobStatus::Failed)
            ==> jobs.filter(has_ended()) == jobs,
{
    crate::order::lemma_filter_has(jobs, has_ended(), job);
    if forall|i: int|
        0 <= i < jobs.len() ==> (#[trigger] jobs[i]).status == JobStatus::Cancelled
            || jobs[i].status == JobStatus::Succeeded || jobs[i].status == JobStatus::Failed {
        crate::order::lemma_filter_all(jobs, has_ended());
    }
}

/// The paths down to a worktree are directories all the way exactly where none of them is anything
/// else; else the first that is not decides.
pub proof fn the_first_obstacle_decides(kinds: Seq<PathKind>)
    ensures
        first_obstacle(kinds) == PathKind::Directory <==> forall|k: int|
            0 <= k < kinds.len() ==> #[trigger] kinds[k] == PathKind::Directory,
        first_obstacle(kinds) != PathKind::Directory ==> exists|k: int|
            0 <= k < kinds.len() && #[trigger] kinds[k] == first_obstacle(kinds) && forall|i: int|
                0 <= i < k ==> #[trigger] kinds[i] == PathKind::Directory,
    decreases kinds.len(),
{
    if kinds.len() > 0 && kinds[0] == PathKind::Directory {
        let rest = kinds.skip(1);
        the_first_obstacle_decides(rest);
        if first_obstacle(rest) == PathKind::Directory {
            assert forall|k: int| 0 <= k < kinds.len() implies #[trigger] kinds[k]
                == PathKind::Directory by {
                if k > 0 {
                    assert(rest[k - 1] == kinds[k]);
                }
            }
        } else {
            let k = choose|k: int|
                0 <= k < rest.len() && #[trigger] rest[k] == first_obstacle(rest) && forall|i: int|
                    0 <= i < k ==> #[trigger] rest[i] == PathKind::Directory;
            assert(kinds[k + 1] == first_obstacle(kinds));
            assert forall|i: int| 0 <= i < k + 1 implies #[trigger] kinds[i]
                == PathKind::Directory by {
                if i > 0 {
                    assert(rest[i - 1] == kinds[i]);
                }
            }
        }
    } else if kinds.len() > 0 {
        assert(kinds[0] == first_obstacle(kinds));
    }
}

/// Each path down to a worktree is the next one within the last: the work directory, the owner's
/// directory, the repository's and the job's own.
pub proof fn the_paths_lead_down_to_the_worktree(
    work_dir: Seq<char>,
    owner: Seq<char>,
    name: Seq<char>,
    id: Seq<char>,
)
    requires
        !owner.contains('/'),
    ensures
        ({
            let paths = managed_paths(work_dir, owner.push('/') + name, id);
            &&& paths.len() == 4
            &&& paths[0] == work_dir
            &&& paths[1] == join_path(paths[0], owner)
            &&& paths[2] == join_path(paths[1], name)
            &&& paths[3] == join_path(paths[2], id)
            &&& paths[3] == worktree_of(work_dir, owner.push('/') + name, id)
        }),
{
    crate::text::a_joined_text_is_split_there(owner, '/', name);
}

/// Each job that is looked at adds one to the count that says what became of it, and to no other.
pub proof fn each_job_is_counted_for_what_became_of_it(report: CleanupReport)
    requires
        report.total() < usize::MAX,
    ensures
        counting(report, Verdict::Recent) == (CleanupReport {
            skipped_recent: (report.skipped_recent + 1) as usize,
            ..report
        }),
        counting(report, Verdict::Active) == (CleanupReport {
            skipped_active: (report.skipped_active + 1) as usize,
            ..report
        }),
        counting(report, Verdict::Invalid) == (CleanupReport {
            skipped_invalid: (report.skipped_invalid + 1) as usize,
            ..report
        }),
        counting(report, Verdict::Inspect) == report,
        counting_missing(report) == (CleanupReport {
            missing: (report.missing + 1) as usize,
            ..report
        }),
        counting_removed(report) == (CleanupReport {
            removed: (report.removed + 1) as usize,
            ..report
        }),
        nothing_done().total() == 0,
{
}

/// A sweep is due when the clock of the zone next shows the hour: today where that is still to come,
/// else tomorrow; the first time where it shows the hour twice, and at the next full hour where it
/// skips it.
pub proof fn a_sweep_is_due_at_the_hour(
    now: int,
    run_hour: int,
    zone: Seq<char>,
    day: int,
    hour: int,
    target: int,
)
    requires
        0 <= run_hour < 24,
        local_reading(zone, now) == Some((day, hour)),
        0 <= day < i32::MAX - 1,
    ensures
        ({
            let due = if hour < run_hour {
                day
            } else {
                day + 1
            };
            &&& local_occurrences(zone, due, run_hour) == Some(seq![target]) ==> cleanup_delay(
                now,
                run_hour,
                zone,
            ) == Some(seconds_between(now, target))
            &&& forall|later: int|
                local_occurrences(zone, due, run_hour) == Some(#[trigger] seq![target, later])
                    ==> cleanup_delay(now, run_hour, zone) == Some(seconds_between(now, target))
            &&& run_hour < 23 && local_occurrences(zone, due, run_hour) == Some(Seq::<int>::empty())
                && local_occurrences(zone, due, run_hour + 1) == Some(seq![target])
                ==> cleanup_delay(now, run_hour, zone) == Some(seconds_between(now, target))
        }),
{
    let due = if hour < run_hour {
        day
    } else {
        day + 1
    };
    let first = 24 * due + run_hour;
    assert(first / 24 == due && first % 24 == run_hour);
    reveal_with_fuel(first_shown, 3);
    if run_hour < 23 {
        assert((first + 1) / 24 == due && (first + 1) % 24 == run_hour + 1);
    }
}

/// The worktree of a job that has ended is looked at for removal exactly where it ended by the
/// cutoff, nothing holds its repository, and the worktree is its own.
pub proof fn a_job_is_judged_by_its_end(
    job: &JobRecord,
    finished: Option<i128>,
    cutoff: i128,
    active: bool,
    claimed: bool,
    work_dir: &str,
    verdict: Verdict,
)
    requires
        call_ensures(judge, (job, finished, cutoff, active, claimed, work_dir), verdict),
    ensures
        verdict == Verdict::Inspect <==> (finished matches Some(instant) && instant <= cutoff)
            && !active && !claimed && is_repo(job.repo@) && canonical_id(job.id@) && same_path(
            job.worktree@,
            worktree_of(work_dir@, job.repo@, job.id@),
        ),
        verdict == Verdict::Recent <==> (finished matches Some(instant) && instant > cutoff),
{
}

/// A sweep begins with every job that has ended, and with a cutoff as many days ago as worktrees are
/// kept.
pub proof fn a_sweep_begins_with_every_ended_job(
    config: &Config,
    jobs: Vec<JobRecord>,
    now: i128,
    sweep: Sweep,
    job: JobRecord,
)
    requires
        FIRST_INSTANT <= now - config.cleanup.retention_days * DAY,
        now <= LAST_INSTANT,
        call_ensures(Sweep::start, (config, jobs, now), sweep),
    ensures
        sweep@.jobs.contains(job) <==> jobs@.contains(job) && (job.status == JobStatus::Cancelled
            || job.status == JobStatus::Succeeded || job.status == JobStatus::Failed),
        now - sweep@.cutoff == config.cleanup.retention_days * 24 * 3_600 * 1_000_000_000,
        sweep@.work_dir == config.work_dir@,
        sweep@.next == 0,
        sweep@.report.total() == 0,
{
    a_sweep_is_over_all_jobs_that_ended(jobs@, job, job.repo@);
}

/// A worktree is removed exactly where every path down to it is a directory; one that is missing is
/// counted as missing, and anything else as invalid.
pub proof fn only_directories_are_removed(sweep: &mut Sweep, kinds: &Vec<PathKind>, remove: bool)
    requires
        old(sweep)@.wf(),
        old(sweep)@.pending,
        first_obstacle(kinds@) == PathKind::Directory ==> kinds@.len() == old(sweep)@.paths_of(
            old(sweep)@.next - 1,
        ).len(),
        call_ensures(Sweep::inspected, (sweep, kinds), remove),
    ensures
        remove <==> forall|k: int|
            0 <= k < kinds@.len() ==> #[trigger] kinds@[k] == PathKind::Directory,
        remove ==> final(sweep)@ == old(sweep)@,
        !remove && first_obstacle(kinds@) == PathKind::Missing ==> final(sweep)@.report.missing
            == old(sweep)@.report.missing + 1 && final(sweep)@.report.total() == old(sweep)@.report.total() + 1,
        !remove && first_obstacle(kinds@) != PathKind::Missing ==> final(sweep)@.report.skipped_invalid == old(sweep)@.report.skipped_invalid + 1 && final(sweep)@.report.total() == old(sweep)@.report.total() + 1,
        final(sweep)@.jobs == old(sweep)@.jobs,
        final(sweep)@.next == old(sweep)@.next,
{
    the_first_obstacle_decides(kinds@);
    each_job_is_counted_for_what_became_of_it(old(sweep)@.report);
}

/// What came of a removal is counted as that.
pub proof fn removals_are_counted_for_what_they_are(sweep: &mut Sweep, removal: Removal)
    requires
        old(sweep)@.wf(),
        old(sweep)@.pending,
        old(sweep)@.next < usize::MAX,
        call_ensures(Sweep::removed, (sweep, removal), ()),
    ensures
        removal == Removal::Removed ==> final(sweep)@.report.removed == old(sweep)@.report.removed
            + 1,
        removal == Removal::Missing ==> final(sweep)@.report.missing == old(sweep)@.report.missing
            + 1,
        removal == Removal::Failed ==> final(sweep)@.report.skipped_invalid == old(sweep)@.report.skipped_invalid + 1,
        final(sweep)@.report.total() == old(sweep)@.report.total() + 1,
        !final(sweep)@.pending,
        final(sweep)@.jobs == old(sweep)@.jobs,
        final(sweep)@.next == old(sweep)@.next,
{
    each_job_is_counted_for_what_became_of_it(old(sweep)@.report);
}

/// A sweep looks at one job after the other until it has looked at all: each is passed over for what
/// was found of it, or its paths are to be looked at.
pub proof fn a_sweep_looks_at_every_job(sweep: &mut Sweep, manager: &JobManager, step: SweepStep)
    requires
        old(sweep)@.wf(),
        !old(sweep)@.pending,
        call_ensures(Sweep::step, (sweep, manager), step),
    ensures
        step is Done <==> old(sweep)@.next == old(sweep)@.jobs.len(),
        step is Done ==> final(sweep)@ == old(sweep)@,
        !(step is Done) ==> final(sweep)@.next == old(sweep)@.next + 1,
        step is Inspect <==> old(sweep)@.next < old(sweep)@.jobs.len() && old(sweep)@.verdict_on(
            old(sweep)@.next,
            manager@.claims,
        ) == Verdict::Inspect,
        final(sweep)@.pending <==> step is Inspect,
        final(sweep)@.jobs == old(sweep)@.jobs,
        final(sweep)@.cutoff == old(sweep)@.cutoff,
        final(sweep)@.work_dir == old(sweep)@.work_dir,
        final(sweep)@.active_repos == old(sweep)@.active_repos,
{
}

/// A sweep is awaited for the whole seconds that are left, and for one where less is left.
pub proof fn a_sweep_is_awaited_for_what_is_left(now: i128, target: i64, seconds: u64)
    requires
        FIRST_INSTANT <= now <= LAST_INSTANT,
        call_ensures(delay_until, (now, target), seconds),
    ensures
        target * 1_000_000_000 - now < 2_000_000_000 ==> seconds == 1,
        target * 1_000_000_000 - now >= 1_000_000_000 ==> seconds * 1_000_000_000 <= target
            * 1_000_000_000 - now < (seconds + 1) * 1_000_000_000,
{
}

} // verus!
