//! Jobs: their records, who may run, and what is told of them.
use crate::error::{error_of, ApiError, ErrorView};
use crate::model::{terminal, CreateJobRequest, JobRecord, JobStatus, JobView, ReasoningEffort};
use crate::order::{
    lemma_precedes_total, lemma_precedes_transitive, precedes, text_precedes, Ranked,
};
use crate::outside::{
    hex_digit, hyphenated, nibble, parse_uuid, spells_uuid, uuid_digits, uuid_text,
};
use crate::path::{join_path, joined_path};
use crate::text::{
    blank, chars_of, decimal, decimal_of, is_blank, join, joined, lower, lower_char, maybe_text,
    same_text, split_at_char, split_once, string_of, strings, texts,
};
use crate::util::{scrub, scrub_log_line};
use vstd::prelude::*;
use vstd::slice::slice_subrange;

verus! {

/// How many events of a job are remembered.
pub const MAX_EVENT_HISTORY: usize = 500;

// ---------------------------------------------------------------------------------------------
// Identifiers
// ---------------------------------------------------------------------------------------------

/// An identifier in the one spelling that the service itself uses.
pub open spec fn canonical_id(id: Seq<char>) -> bool {
    exists|value: u128| id == #[trigger] hyphenated(value)
}

/// A character of such an identifier.
pub open spec fn is_id_char(character: char) -> bool {
    '0' <= character <= '9' || 'a' <= character <= 'f' || character == '-'
}

/// Such an identifier is 36 digits and hyphens long, and has no letters in upper case.
pub proof fn lemma_hyphenated(value: u128)
    ensures
        hyphenated(value).len() == 36,
        forall|k: int| 0 <= k < 36 ==> is_id_char(#[trigger] hyphenated(value)[k]),
        lower(hyphenated(value)) == hyphenated(value),
{
    let digits = uuid_digits(value);
    assert forall|k: int| 0 <= k < 32 implies is_id_char(#[trigger] digits[k]) by {
        let shift = (4 * (31 - k)) as u128;
        assert((value >> shift) & 0xf < 16) by (bit_vector);
        assert(0 <= nibble(value, k) < 16);
        assert(digits[k] == hex_digit(nibble(value, k)));
    }
    let text = hyphenated(value);
    assert forall|k: int| 0 <= k < 36 implies is_id_char(#[trigger] text[k]) by {
        if k < 8 {
            assert(text[k] == digits[k]);
        } else if 8 < k < 13 {
            assert(text[k] == digits[k - 1]);
        } else if 13 < k < 18 {
            assert(text[k] == digits[k - 2]);
        } else if 18 < k < 23 {
            assert(text[k] == digits[k - 3]);
        } else if k > 23 {
            assert(text[k] == digits[k - 4]);
        }
    }
    assert forall|k: int| 0 <= k < 36 implies lower_char(#[trigger] text[k]) == text[k] by {
        assert(is_id_char(text[k]));
    }
    assert(lower(text) == text);
}

/// Whether an identifier is in the one spelling that the service itself uses.
pub fn is_canonical_id(id: &str) -> (yes: bool)
    ensures
        yes == canonical_id(id@),
{
    match parse_uuid(id) {
        Some(value) => {
            let spelled = uuid_text(value);
            let same = same_text(spelled.as_str(), id);
            proof {
                if canonical_id(id@) {
                    let own = choose|own: u128| id@ == #[trigger] hyphenated(own);
                    lemma_hyphenated(own);
                    lemma_hyphenated(value);
                    reveal_strlit("urn:uuid:");
                    assert(spells_uuid(id@, value));
                    assert(id@.len() == 36);
                    assert(id@ == hyphenated(value));
                }
            }
            same
        },
        None => {
            proof {
                if canonical_id(id@) {
                    let own = choose|own: u128| id@ == #[trigger] hyphenated(own);
                    lemma_hyphenated(own);
                    assert(spells_uuid(id@, own));
                }
            }
            false
        },
    }
}

/// What is said of a job identifier that is none.
pub open spec fn bad_job_id() -> ErrorView {
    error_of(400, "invalid_job_id"@, "job id must be a UUID"@)
}

/// Checks a job identifier, which may be in any of the spellings of a UUID.
pub fn validate_job_id(id: &str) -> (result: Result<(), ApiError>)
    ensures
        match result {
            Ok(()) => exists|value: u128| spells_uuid(id@, value),
            Err(error) => (forall|value: u128| !spells_uuid(id@, value)) && error@ == bad_job_id(),
        },
{
    match parse_uuid(id) {
        Some(_) => Ok(()),
        None => Err(ApiError::bad_request("invalid_job_id", "job id must be a UUID")),
    }
}

/// The identifiers that jobs are given are accepted.
pub proof fn own_ids_are_accepted(value: u128)
    ensures
        spells_uuid(hyphenated(value), value),
        canonical_id(hyphenated(value)),
{
    lemma_hyphenated(value);
}

/// At most the first eight characters of an identifier.
pub open spec fn short_id(id: Seq<char>) -> Seq<char> {
    if id.len() <= 8 {
        id
    } else {
        id.take(8)
    }
}

/// At most the first eight characters of an identifier.
pub fn shortened(id: &str) -> (short: String)
    ensures
        short@ == short_id(id@),
{
    let chars = chars_of(id);
    let len: usize = if chars.len() <= 8 {
        chars.len()
    } else {
        8
    };
    let short = string_of(slice_subrange(chars.as_slice(), 0, len));
    assert(short@ == short_id(id@));
    short
}

// ---------------------------------------------------------------------------------------------
// Records
// ---------------------------------------------------------------------------------------------

/// The directory that a job works in.
pub open spec fn worktree_of(work_dir: Seq<char>, repo: Seq<char>, id: Seq<char>) -> Seq<char> {
    match split_once(repo, '/') {
        Some((owner, name)) => join_path(join_path(join_path(work_dir, owner), name), id),
        None => seq![],
    }
}

/// The branch that a job works on.
pub open spec fn branch_of(issue: u64, id: Seq<char>) -> Seq<char> {
    "board/"@ + decimal(issue as nat) + "-"@ + short_id(id)
}

/// The record of a new job.
pub open spec fn new_job(
    work_dir: Seq<char>,
    request: CreateJobRequest,
    effort: Option<ReasoningEffort>,
    id: Seq<char>,
    created_at: Seq<char>,
) -> JobView {
    JobView {
        id,
        repo: request.repo@,
        issue: request.issue,
        harness: request.harness@,
        crew: texts(request.crew@),
        effort,
        status: JobStatus::Queued,
        branch: branch_of(request.issue, id),
        worktree: worktree_of(work_dir, request.repo@, id),
        pr_url: None,
        created_at,
        started_at: None,
        finished_at: None,
        error: None,
    }
}

/// The directory that a job works in.
pub fn worktree_path(work_dir: &str, repo: &str, id: &str) -> (path: String)
    ensures
        path@ == worktree_of(work_dir@, repo@, id@),
{
    match split_at_char(repo, '/') {
        Some((owner, name)) => joined_path(
            joined_path(
                joined_path(work_dir, owner.as_str()).as_str(),
                name.as_str(),
            ).as_str(),
            id,
        ),
        None => String::new(),
    }
}

/// The branch that a job works on.
pub fn branch_name(issue: u64, id: &str) -> (branch: String)
    ensures
        branch@ == branch_of(issue, id@),
{
    let mut branch = "board/".to_owned();
    branch.append(decimal_of(issue).as_str());
    branch.append("-");
    branch.append(shortened(id).as_str());
    branch
}

impl Ranked for JobRecord {
    /// What was created last comes first.
    open spec fn ranks(self, other: JobRecord) -> bool {
        !precedes(self.created_at@, other.created_at@)
    }

    proof fn ranks_total(left: JobRecord, right: JobRecord) {
        lemma_precedes_total(left.created_at@, right.created_at@);
    }

    proof fn ranks_transitive(first: JobRecord, second: JobRecord, third: JobRecord) {
        if precedes(first.created_at@, third.created_at@) {
            lemma_precedes_total(second.created_at@, third.created_at@);
            if second.created_at@ != third.created_at@ {
                lemma_precedes_transitive(
                    first.created_at@,
                    third.created_at@,
                    second.created_at@,
                );
            }
        }
    }

    fn may_precede(&self, other: &JobRecord) -> (yes: bool) {
        !text_precedes(self.created_at.as_str(), other.created_at.as_str())
    }
}

/// The state of a job that was active when the service stopped, or that claims a success that
/// nothing shows.
pub open spec fn reconciled(record: JobView, now: Seq<char>) -> JobView {
    if !terminal(record.status) {
        JobView {
            status: JobStatus::Failed,
            finished_at: Some(now),
            error: Some("board-api restarted while job was active"@),
            ..record
        }
    } else if record.status == JobStatus::Succeeded && record.pr_url is None {
        JobView {
            status: JobStatus::Failed,
            error: Some(
                "legacy job reported success without a pull request; delivery is unverified"@,
            ),
            ..record
        }
    } else {
        record
    }
}

/// Brings a record that was read at startup in order; tells whether it changed.
pub fn reconcile_persisted_job(record: &mut JobRecord, now: &str) -> (changed: bool)
    ensures
        final(record)@ == reconciled(old(record)@, now@),
        changed == (!terminal(old(record).status) || (old(record).status == JobStatus::Succeeded
            && old(record).pr_url is None)),
        !changed ==> *final(record) == *old(record),
{
    if !record.status.is_terminal() {
        record.status = JobStatus::Failed;
        record.finished_at = Some(now.to_owned());
        record.error = Some("board-api restarted while job was active".to_owned());
        return true;
    }
    if record.status == JobStatus::Succeeded && record.pr_url.is_none() {
        record.status = JobStatus::Failed;
        record.error = Some(
            "legacy job reported success without a pull request; delivery is unverified".to_owned(),
        );
        return true;
    }
    false
}

/// After startup no record is active, and none claims a success without a pull request; doing it
/// again changes nothing.
pub proof fn reconciled_records_are_settled(record: JobView, now: Seq<char>, later: Seq<char>)
    ensures
        terminal(reconciled(record, now).status),
        reconciled(record, now).status == JobStatus::Succeeded ==> record.pr_url is Some,
        reconciled(record, now).pr_url == record.pr_url,
        reconciled(reconciled(record, now), later) == reconciled(record, now),
        terminal(record.status) ==> reconciled(record, now).finished_at == record.finished_at,
{
}

/// A job without a commit has delivered nothing.
pub fn require_repository_change(ahead: u64) -> (result: Result<(), String>)
    ensures
        match result {
            Ok(()) => ahead > 0,
            Err(message) => ahead == 0 && message@
                == "agent finished without repository changes; no commit or pull request was created"@,
        },
{
    if ahead == 0 {
        Err(
            "agent finished without repository changes; no commit or pull request was created".to_owned(),
        )
    } else {
        Ok(())
    }
}

// ---------------------------------------------------------------------------------------------
// Commands
// ---------------------------------------------------------------------------------------------

/// The first line with anything but white space.
pub open spec fn first_said(lines: Seq<Seq<char>>) -> Option<Seq<char>>
    decreases lines.len(),
{
    if lines.len() == 0 {
        None
    } else if !is_blank(lines[0]) {
        Some(lines[0])
    } else {
        first_said(lines.skip(1))
    }
}

/// What a command that a job ran comes to: its output, or the first thing that it said, without
/// secrets.
pub open spec fn command_outcome(
    program: Seq<char>,
    success: bool,
    status: Seq<char>,
    stdout: Seq<Seq<char>>,
    stderr: Seq<Seq<char>>,
) -> Result<Seq<char>, Seq<char>> {
    if success {
        Ok(join(stdout, "\n"@))
    } else {
        Err(
            scrub(
                match first_said(stderr) {
                    Some(line) => line,
                    None => match first_said(stdout) {
                        Some(line) => line,
                        None => program + " exited with "@ + status,
                    },
                },
            ),
        )
    }
}

fn said_first(lines: &Vec<String>) -> (found: Option<String>)
    ensures
        maybe_text(found) == first_said(texts(lines@)),
{
    let ghost all = texts(lines@);
    let mut i: usize = 0;
    assert(all.skip(0) == all);
    while i < lines.len()
        invariant
            all == texts(lines@),
            i <= lines@.len(),
            first_said(all) == first_said(all.skip(i as int)),
        decreases lines@.len() - i,
    {
        assert(all.skip(i as int)[0] == lines@[i as int]@);
        assert(all.skip(i as int).skip(1) == all.skip(i + 1));
        if !blank(lines[i].as_str()) {
            return Some(lines[i].clone());
        }
        i += 1;
    }
    None
}

/// What a command that a job ran comes to.
pub fn command_result(
    program: &str,
    success: bool,
    status: &str,
    stdout: &Vec<String>,
    stderr: &Vec<String>,
) -> (result: Result<String, String>)
    ensures
        match result {
            Ok(output) => command_outcome(
                program@,
                success,
                status@,
                texts(stdout@),
                texts(stderr@),
            ) == Ok::<Seq<char>, Seq<char>>(output@),
            Err(message) => command_outcome(
                program@,
                success,
                status@,
                texts(stdout@),
                texts(stderr@),
            ) == Err::<Seq<char>, Seq<char>>(message@),
        },
{
    if success {
        return Ok(joined(stdout, "\n"));
    }
    let message = match said_first(stderr) {
        Some(line) => line,
        None => match said_first(stdout) {
            Some(line) => line,
            None => {
                let mut message = program.to_owned();
                message.append(" exited with ");
                message.append(status);
                message
            },
        },
    };
    Err(scrub_log_line(message.as_str()))
}

/// The arguments that send a signal to a group of processes.
pub fn signal_arguments(process_group: u32, signal: &str) -> (arguments: Vec<String>)
    ensures
        texts(arguments@) == seq![signal@, "--"@, "-"@ + decimal(process_group as nat)],
{
    let group = "-".to_owned().concat(decimal_of(process_group as u64).as_str());
    strings(vec![signal, "--", group.as_str()])
}

// ---------------------------------------------------------------------------------------------
// Laws
// ---------------------------------------------------------------------------------------------

/// A short identifier is how the identifier begins: its first eight characters, or all of it.
pub proof fn a_short_id_begins_the_id(id: Seq<char>)
    ensures
        short_id(id).len() == if id.len() < 8 {
            id.len() as int
        } else {
            8
        },
        forall|k: int| 0 <= k < short_id(id).len() ==> #[trigger] short_id(id)[k] == id[k],
{
}

/// The record of a new job is what was asked for: it waits, on a branch that names the issue and the
/// job, in a worktree by owner, repository and job, and nothing has happened to it yet.
pub proof fn a_new_job_is_what_was_asked_for(
    work_dir: Seq<char>,
    request: CreateJobRequest,
    effort: Option<ReasoningEffort>,
    id: Seq<char>,
    created_at: Seq<char>,
    owner: Seq<char>,
    name: Seq<char>,
)
    requires
        !owner.contains('/'),
        request.repo@ == owner.push('/') + name,
        id.len() >= 8,
    ensures
        ({
            let job = new_job(work_dir, request, effort, id, created_at);
            &&& job.id == id
            &&& job.repo == request.repo@
            &&& job.issue == request.issue
            &&& job.harness == request.harness@
            &&& job.crew == texts(request.crew@)
            &&& job.effort == effort
            &&& job.status == JobStatus::Queued
            &&& job.branch == "board/"@ + decimal(request.issue as nat) + "-"@ + id.take(8)
            &&& job.worktree == join_path(join_path(join_path(work_dir, owner), name), id)
            &&& job.created_at == created_at
            &&& job.pr_url is None && job.started_at is None && job.finished_at is None
            &&& job.error is None
        }),
{
    crate::text::a_joined_text_is_split_there(owner, '/', name);
}

/// The job that was created later is listed first.
pub proof fn the_newest_job_is_listed_first(left: JobRecord, right: JobRecord)
    ensures
        precedes(left.created_at@, right.created_at@) ==> right.ranks(left) && !left.ranks(right),
        left.created_at@ == right.created_at@ ==> left.ranks(right) && right.ranks(left),
{
    lemma_precedes_total(left.created_at@, right.created_at@);
}

/// At startup a job that waited, ran or was being cancelled has failed, now and for that reason. One
/// that claims a success without a pull request has failed, when it ended. Every other record stays
/// exactly as it is.
pub proof fn startup_settles_what_was_left_open(record: JobView, now: Seq<char>)
    ensures
        ({
            let after = reconciled(record, now);
            let open = record.status == JobStatus::Queued || record.status == JobStatus::Running
                || record.status == JobStatus::Cancelling;
            let unproved = record.status == JobStatus::Succeeded && record.pr_url is None;
            &&& open ==> after.status == JobStatus::Failed && after.finished_at == Some(now)
                && after.error == Some("board-api restarted while job was active"@)
            &&& unproved ==> after.status == JobStatus::Failed && after.finished_at
                == record.finished_at && after.error == Some(
                "legacy job reported success without a pull request; delivery is unverified"@,
            )
            &&& !open && !unproved ==> after == record
            &&& after == (JobView {
                status: after.status,
                finished_at: after.finished_at,
                error: after.error,
                ..record
            })
        }),
{
}

proof fn lemma_first_said(lines: Seq<Seq<char>>, at: int)
    requires
        0 <= at < lines.len(),
        !is_blank(lines[at]),
        forall|k: int| 0 <= k < at ==> is_blank(#[trigger] lines[k]),
    ensures
        first_said(lines) == Some(lines[at]),
    decreases lines.len(),
{
    if at > 0 {
        let rest = lines.skip(1);
        assert(is_blank(lines[0]));
        assert(rest[at - 1] == lines[at]);
        assert forall|k: int| 0 <= k < at - 1 implies is_blank(#[trigger] rest[k]) by {
            assert(lines[k + 1] == rest[k]);
        }
        lemma_first_said(rest, at - 1);
    }
}

proof fn lemma_nothing_said(lines: Seq<Seq<char>>)
    requires
        forall|k: int| 0 <= k < lines.len() ==> is_blank(#[trigger] lines[k]),
    ensures
        first_said(lines) is None,
    decreases lines.len(),
{
    if lines.len() > 0 {
        let rest = lines.skip(1);
        assert(is_blank(lines[0]));
        assert forall|k: int| 0 <= k < rest.len() implies is_blank(#[trigger] rest[k]) by {
            assert(lines[k + 1] == rest[k]);
        }
        lemma_nothing_said(rest);
    }
}

/// A command that succeeds comes to what it printed, line by line. One that fails comes to the first
/// line on its error output that is not blank; without one, to the first such line that it printed;
/// and without one of those, to how it ended. In each case without secrets.
pub proof fn a_failed_command_tells_its_first_words(
    program: Seq<char>,
    status: Seq<char>,
    stdout: Seq<Seq<char>>,
    stderr: Seq<Seq<char>>,
    at: int,
)
    ensures
        command_outcome(program, true, status, stdout, stderr) == Ok::<Seq<char>, Seq<char>>(
            join(stdout, "\n"@),
        ),
        0 <= at < stderr.len() && !is_blank(stderr[at]) && (forall|k: int|
            0 <= k < at ==> is_blank(#[trigger] stderr[k])) ==> command_outcome(
            program,
            false,
            status,
            stdout,
            stderr,
        ) == Err::<Seq<char>, Seq<char>>(scrub(stderr[at])),
        (forall|k: int| 0 <= k < stderr.len() ==> is_blank(#[trigger] stderr[k])) && 0 <= at
            < stdout.len() && !is_blank(stdout[at]) && (forall|k: int|
            0 <= k < at ==> is_blank(#[trigger] stdout[k])) ==> command_outcome(
            program,
            false,
            status,
            stdout,
            stderr,
        ) == Err::<Seq<char>, Seq<char>>(scrub(stdout[at])),
        (forall|k: int| 0 <= k < stderr.len() ==> is_blank(#[trigger] stderr[k])) && (forall|k: int|
            0 <= k < stdout.len() ==> is_blank(#[trigger] stdout[k])) ==> command_outcome(
            program,
            false,
            status,
            stdout,
            stderr,
        ) == Err::<Seq<char>, Seq<char>>(scrub(program + " exited with "@ + status)),
{
    if 0 <= at < stderr.len() && !is_blank(stderr[at]) && (forall|k: int|
        0 <= k < at ==> is_blank(#[trigger] stderr[k])) {
        lemma_first_said(stderr, at);
    }
    if forall|k: int| 0 <= k < stderr.len() ==> is_blank(#[trigger] stderr[k]) {
        lemma_nothing_said(stderr);
        if 0 <= at < stdout.len() && !is_blank(stdout[at]) && (forall|k: int|
            0 <= k < at ==> is_blank(#[trigger] stdout[k])) {
            lemma_first_said(stdout, at);
        }
        if forall|k: int| 0 <= k < stdout.len() ==> is_blank(#[trigger] stdout[k]) {
            lemma_nothing_said(stdout);
        }
    }
}

/// An identifier of a job is 36 characters long: lower-case hexadecimal digits in five groups, with
/// hyphens between them.
pub proof fn identifiers_are_digits_in_groups(value: u128, k: int)
    requires
        0 <= k < 36,
    ensures
        hyphenated(value).len() == 36,
        k == 8 || k == 13 || k == 18 || k == 23 <==> hyphenated(value)[k] == '-',
        '0' <= hyphenated(value)[k] <= '9' || 'a' <= hyphenated(value)[k] <= 'f' || hyphenated(
            value,
        )[k] == '-',
{
    lemma_hyphenated(value);
    assert(is_id_char(hyphenated(value)[k]));
    let digits = uuid_digits(value);
    let text = hyphenated(value);
    assert forall|i: int| 0 <= i < 32 implies #[trigger] digits[i] != '-' by {
        let shift = (4 * (31 - i)) as u128;
        assert((value >> shift) & 0xf < 16) by (bit_vector);
        assert(0 <= nibble(value, i) < 16);
        assert(digits[i] == hex_digit(nibble(value, i)));
    }
    if k < 8 {
        assert(text[k] == digits[k]);
    } else if 8 < k < 13 {
        assert(text[k] == digits[k - 1]);
    } else if 13 < k < 18 {
        assert(text[k] == digits[k - 2]);
    } else if 18 < k < 23 {
        assert(text[k] == digits[k - 3]);
    } else if k > 23 {
        assert(text[k] == digits[k - 4]);
    }
}

/// A record that was read at startup changes exactly where its job was left open, or where it claims
/// a success that no pull request shows; then the job has failed, and is otherwise what it was.
pub proof fn startup_fails_what_was_left_open(record: &mut JobRecord, now: &str, changed: bool)
    requires
        call_ensures(reconcile_persisted_job, (record, now), changed),
    ensures
        changed <==> (old(record).status == JobStatus::Queued || old(record).status
            == JobStatus::Running || old(record).status == JobStatus::Cancelling || old(record).status == JobStatus::Succeeded && old(record).pr_url is None),
        !changed ==> *final(record) == *old(record),
        changed ==> final(record)@ == (JobView {
            status: JobStatus::Failed,
            finished_at: final(record)@.finished_at,
            error: final(record)@.error,
            ..old(record)@
        }),
        changed ==> final(record)@.error is Some,
        changed && old(record).status != JobStatus::Succeeded ==> final(record)@.finished_at == Some(
            now@,
        ),
        changed && old(record).status == JobStatus::Succeeded ==> final(record)@.finished_at == old(record)@.finished_at,
{
}

/// Work that left no commit has delivered nothing.
pub proof fn work_without_a_commit_failed(ahead: u64, result: Result<(), String>)
    requires
        call_ensures(require_repository_change, (ahead,), result),
    ensures
        result is Ok <==> ahead >= 1,
{
}

/// A signal goes to the whole group of processes.
pub proof fn a_signal_goes_to_the_group(
    process_group: u32,
    signal: &str,
    arguments: Vec<String>,
)
    requires
        call_ensures(signal_arguments, (process_group, signal), arguments),
    ensures
        texts(arguments@).len() == 3,
        texts(arguments@)[0] == signal@,
        texts(arguments@)[1] == "--"@,
        texts(arguments@)[2] == "-"@ + decimal(process_group as nat),
{
}

/// A job works below the directory of its repository, which is below the working directory.
pub proof fn a_job_works_below_its_repository(
    work_dir: &str,
    repo: &str,
    id: &str,
    owner: Seq<char>,
    name: Seq<char>,
    path: String,
)
    requires
        repo@ == owner + seq!['/'] + name,
        !owner.contains('/'),
        call_ensures(worktree_path, (work_dir, repo, id), path),
    ensures
        path@ == join_path(join_path(join_path(work_dir@, owner), name), id@),
{
    assert(owner + seq!['/'] == owner.push('/'));
    crate::text::a_joined_text_is_split_there(owner, '/', name);
}

/// What is accepted as an identifier spells a UUID; anything else is a fault of the request.
pub proof fn job_ids_are_uuids(id: &str, result: Result<(), ApiError>)
    requires
        call_ensures(validate_job_id, (id,), result),
    ensures
        result is Ok ==> exists|value: u128| spells_uuid(id@, value),
        result matches Err(error) ==> error@.status == 400 && error@.code == "invalid_job_id"@
            && error@.message == "job id must be a UUID"@,
{
}

/// A command that succeeded comes to the lines that it printed; one that failed does not.
pub proof fn a_command_comes_to_what_it_printed(
    program: &str,
    success: bool,
    status: &str,
    stdout: &Vec<String>,
    stderr: &Vec<String>,
    result: Result<String, String>,
)
    requires
        call_ensures(command_result, (program, success, status, stdout, stderr), result),
    ensures
        result is Ok <==> success,
        result matches Ok(output) ==> output@ == join(texts(stdout@), "\n"@),
        result matches Err(message) ==> (first_said(texts(stderr@)) matches Some(line) ==> message@
            == scrub(line)),
        result matches Err(message) ==> (first_said(texts(stderr@)) is None ==> (first_said(
            texts(stdout@),
        ) matches Some(line) ==> message@ == scrub(line))),
{
}

} // verus!
