//! Jobs: requests, commands, records, the work itself and the end of it.
use board_api::config::{AutoRunConfig, CleanupConfig, Config, CursorEffortModels};
use board_api::execution::{Action, Execution, Reply, Stage, Turn};
use board_api::harness::{
    check_harness, harness_authenticated, harness_binary, harness_command, harness_probe,
    harness_sequence, installed_harnesses, validate_job_request, ProbeOutcome,
};
use board_api::jobs::{
    branch_name, command_result, is_canonical_id, reconcile_persisted_job,
    require_repository_change, shortened, signal_arguments, validate_job_id, worktree_path,
};
use board_api::manager::{
    begin_effects, end_effects, event_name, failed_comment, finish_record, opened_comment, Effect,
    JobManager,
};
use board_api::error::ApiError;
use board_api::model::{CreateJobRequest, JobRecord, JobStatus, ReasoningEffort};
use board_api::preflight::{Preflight, PreflightStep};

fn test_config() -> Config {
    Config {
        listen: "127.0.0.1".to_string(),
        port: 8787,
        state_dir: "/tmp/root/state".to_string(),
        work_dir: "/tmp/root/work".to_string(),
        max_concurrent_jobs: 3,
        allowed_harnesses: vec!["codex".to_string(), "cursor".to_string()],
        allowed_issue_authors: vec!["trusted-user".to_string()],
        cursor_effort_models: CursorEffortModels::default(),
        auto_run: AutoRunConfig::default(),
        cleanup: CleanupConfig { enabled: true, retention_days: 7, run_hour_utc: 3 },
    }
}

fn request() -> CreateJobRequest {
    CreateJobRequest {
        repo: "owner/repo".to_string(),
        issue: 12,
        harness: "codex".to_string(),
        prompt: None,
        crew: vec!["cursor".to_string(), "codex".to_string()],
    }
}

fn record(status: JobStatus) -> JobRecord {
    JobRecord {
        id: "00000000-0000-4000-8000-000000000007".to_string(),
        repo: "owner/repo".to_string(),
        issue: 7,
        harness: "grok".to_string(),
        crew: Vec::new(),
        effort: None,
        status,
        branch: "board/7-00000000".to_string(),
        worktree: "/tmp/work".to_string(),
        pr_url: None,
        created_at: "2026-08-22T00:00:00Z".to_string(),
        started_at: Some("2026-08-22T00:00:01Z".to_string()),
        finished_at: Some("2026-08-22T00:00:02Z".to_string()),
        error: None,
    }
}

#[test]
fn an_old_job_cannot_release_a_newer_repo_claim() {
    let mut manager = JobManager::new(test_config());
    manager.claim("owner/repo", "new-job".to_string());

    manager.release_repo("OWNER/REPO", "old-job");
    assert_eq!(manager.claimant("owner/repo").map(String::as_str), Some("new-job"));
    manager.release_repo("owner/repo", "new-job");
    assert!(manager.claims.is_empty());
}

#[test]
fn crew_is_sequential_and_deduplicated() {
    assert_eq!(harness_sequence(&request()), ["codex", "cursor"]);
}

#[test]
fn codex_command_uses_safe_automatic_review() {
    let (program, arguments) =
        harness_command("codex", "/tmp/work", "do it", None, &CursorEffortModels::default())
            .unwrap();
    assert_eq!(program, "codex");
    assert!(arguments
        .iter()
        .any(|argument| argument == "--approve-for-me"));
    assert!(!arguments.iter().any(|argument| argument == "--config"));
    assert!(!arguments
        .iter()
        .any(|argument| argument.contains("dangerously")));
    assert_eq!(
        arguments,
        ["exec", "--approve-for-me", "--color", "never", "--cd", "/tmp/work", "do it"]
    );
}

#[test]
fn grok_command_allows_headless_tool_use_without_bypass_mode() {
    let (program, arguments) =
        harness_command("grok", "/tmp/work", "do it", None, &CursorEffortModels::default())
            .unwrap();
    assert_eq!(program, "grok");
    assert!(arguments
        .windows(2)
        .any(|arguments| { arguments[0] == "--permission-mode" && arguments[1] == "auto" }));
    assert!(!arguments
        .iter()
        .any(|argument| argument == "--reasoning-effort"));
    assert!(!arguments
        .iter()
        .any(|argument| { argument == "--always-approve" || argument == "bypassPermissions" }));
}

#[test]
fn cursor_command_preserves_default_model_without_effort() {
    let (program, arguments) =
        harness_command("cursor", "/tmp/work", "do it", None, &CursorEffortModels::default())
            .unwrap();
    assert_eq!(program, "cursor-agent");
    assert!(!arguments.iter().any(|argument| argument == "--model"));
}

#[test]
fn effort_is_translated_for_each_harness() {
    let cursor_models = CursorEffortModels::default();
    let (_, codex) = harness_command(
        "codex",
        "/tmp/work",
        "do it",
        Some(ReasoningEffort::Xhigh),
        &cursor_models,
    )
    .unwrap();
    assert!(codex.windows(2).any(|arguments| {
        arguments[0] == "--config" && arguments[1] == "model_reasoning_effort=\"xhigh\""
    }));

    let (_, grok) = harness_command(
        "grok",
        "/tmp/work",
        "do it",
        Some(ReasoningEffort::High),
        &cursor_models,
    )
    .unwrap();
    assert!(grok
        .windows(2)
        .any(|arguments| { arguments[0] == "--reasoning-effort" && arguments[1] == "high" }));

    let (_, cursor) = harness_command(
        "cursor",
        "/tmp/work",
        "do it",
        Some(ReasoningEffort::Medium),
        &cursor_models,
    )
    .unwrap();
    assert!(cursor.windows(2).any(|arguments| {
        arguments[0] == "--model" && arguments[1] == "gpt-5.6-sol-medium"
    }));
    assert_eq!(codex.last().map(String::as_str), Some("do it"));
    assert_eq!(cursor.last().map(String::as_str), Some("do it"));
    assert_eq!(grok[2..4], ["--single", "do it"]);
}

#[test]
fn unknown_harnesses_have_no_command() {
    let error =
        harness_command("other", "/w", "p", None, &CursorEffortModels::default()).unwrap_err();
    assert_eq!(error, "unsupported harness other");
    assert_eq!(harness_binary("cursor"), "cursor-agent");
    assert_eq!(harness_binary("codex"), "codex");
    let allowed = vec!["grok".to_string(), "codex".to_string(), "cursor".to_string()];
    assert_eq!(installed_harnesses(&allowed, &vec![true, false, true]), ["grok", "cursor"]);
}

#[test]
fn harnesses_are_probed() {
    assert_eq!(harness_probe("codex").unwrap().1, ["login", "status"]);
    assert_eq!(harness_probe("grok").unwrap().0, "grok");
    assert_eq!(harness_probe("cursor").unwrap().0, "cursor-agent");
    assert!(harness_probe("other").is_none());
    assert!(harness_authenticated(true, "Logged in", ""));
    assert!(!harness_authenticated(false, "Logged in", ""));
    assert!(!harness_authenticated(true, "Not Logged In", ""));
    assert!(!harness_authenticated(true, "", "NOT AUTHENTICATED"));
    assert!(!harness_authenticated(true, "", "login required"));
    let ended = |success: bool| ProbeOutcome::Ended {
        success,
        stdout: String::new(),
        stderr: String::new(),
    };
    assert!(check_harness("codex", ended(true)).is_ok());
    let error = check_harness("codex", ended(false)).unwrap_err();
    assert_eq!(
        (error.status, error.code, error.message.as_str()),
        (503, "harness_login_required", "codex is not authenticated as board")
    );
    assert_eq!(
        check_harness("other", ProbeOutcome::Unknown).unwrap_err().code,
        "harness_login_required"
    );
    let unavailable = ProbeOutcome::Unavailable {
        program: "codex".to_string(),
        reason: "no file".to_string(),
    };
    let error = check_harness("codex", unavailable).unwrap_err();
    assert_eq!(
        (error.code, error.message.as_str()),
        ("harness_unavailable", "cannot execute codex: no file")
    );
}

#[test]
fn job_requests_are_checked() {
    let config = test_config();
    assert!(validate_job_request(&config, &request()).is_ok());
    let mut wrong = request();
    wrong.crew = vec!["grok".to_string()];
    let error = validate_job_request(&config, &wrong).unwrap_err();
    assert_eq!(
        (error.code, error.message.as_str()),
        ("invalid_harness", "harness grok is not allowed")
    );
    wrong.crew = vec!["codex".to_string(); 6];
    assert_eq!(validate_job_request(&config, &wrong).unwrap_err().code, "crew_too_large");
    wrong.prompt = Some("p".repeat(32_769));
    let error = validate_job_request(&config, &wrong).unwrap_err();
    assert_eq!((error.status, error.code), (413, "prompt_too_large"));
    wrong.issue = 0;
    assert_eq!(validate_job_request(&config, &wrong).unwrap_err().code, "invalid_issue");
    wrong.repo = "repo".to_string();
    assert_eq!(validate_job_request(&config, &wrong).unwrap_err().code, "invalid_repo");
    let mut long = request();
    long.prompt = Some("p".repeat(32_768));
    long.crew = vec!["codex".to_string(); 5];
    assert!(validate_job_request(&config, &long).is_ok());
}

#[test]
fn zero_commit_run_cannot_report_success() {
    assert!(require_repository_change(0).is_err());
    assert!(require_repository_change(1).is_ok());
}

#[test]
fn legacy_success_without_pull_request_is_reconciled() {
    let mut record = record(JobStatus::Succeeded);

    assert!(reconcile_persisted_job(&mut record, "2026-08-22T01:00:00Z"));
    assert_eq!(record.status, JobStatus::Failed);
    assert_eq!(record.finished_at.as_deref(), Some("2026-08-22T00:00:02Z"));
    assert!(record.error.as_deref().unwrap().contains("unverified"));
}

#[test]
fn interrupted_jobs_are_reconciled_once() {
    let mut active = record(JobStatus::Running);
    assert!(reconcile_persisted_job(&mut active, "now"));
    assert_eq!(active.status, JobStatus::Failed);
    assert_eq!(active.finished_at.as_deref(), Some("now"));
    assert_eq!(
        active.error.as_deref(),
        Some("board-api restarted while job was active")
    );
    assert!(!reconcile_persisted_job(&mut active, "later"));
    assert_eq!(active.finished_at.as_deref(), Some("now"));
    let mut delivered = record(JobStatus::Succeeded);
    delivered.pr_url = Some("https://x/1".to_string());
    assert!(!reconcile_persisted_job(&mut delivered, "later"));
    assert_eq!(delivered.status, JobStatus::Succeeded);
}

#[test]
fn job_ids_are_uuids() {
    assert!(validate_job_id("00000000-0000-4000-8000-000000000007").is_ok());
    assert!(validate_job_id("00000000000040008000000000000007").is_ok());
    assert!(validate_job_id("{00000000-0000-4000-8000-00000000000A}").is_ok());
    assert!(validate_job_id("URN:UUID:00000000-0000-4000-8000-00000000000a").is_ok());
    for bad in ["", "../etc/passwd", "00000000-0000-4000-8000-00000000000g"] {
        let error = validate_job_id(bad).unwrap_err();
        assert_eq!((error.status, error.code), (400, "invalid_job_id"));
    }
    assert!(is_canonical_id("00000000-0000-4000-8000-00000000000a"));
    assert!(!is_canonical_id("00000000-0000-4000-8000-00000000000A"));
    assert!(!is_canonical_id("0000000000004000800000000000000a"));
    assert!(!is_canonical_id("other"));
    assert_eq!(shortened("00000000-0000-4000-8000-000000000007"), "00000000");
    assert_eq!(shortened("abc"), "abc");
}

#[test]
fn new_jobs_claim_their_repository() {
    let mut manager = JobManager::new(test_config());
    assert!(manager.cleanup_enabled());
    let id: u128 = 0xabcd_ef01_0000_4000_8000_0000_0000_0007;
    let created = manager
        .create_at(&request(), Some(ReasoningEffort::Low), id, "then".to_string())
        .unwrap();
    assert_eq!(created.id, "abcdef01-0000-4000-8000-000000000007");
    assert_eq!(created.branch, "board/12-abcdef01");
    assert_eq!(
        created.worktree,
        "/tmp/root/work/owner/repo/abcdef01-0000-4000-8000-000000000007"
    );
    assert_eq!(created.status, JobStatus::Queued);
    assert_eq!(created.created_at, "then");
    assert_eq!(created.effort, Some(ReasoningEffort::Low));
    assert!(created.pr_url.is_none() && created.started_at.is_none());
    assert!(validate_job_id(&created.id).is_ok());

    let mut again = request();
    again.repo = "OWNER/Repo".to_string();
    let error = manager.create(&again, None).unwrap_err();
    assert_eq!((error.status, error.code), (409, "repo_job_running"));
    assert_eq!(
        error.message,
        "repository already has queued or running job abcdef01-0000-4000-8000-000000000007"
    );
    let mut wrong = request();
    wrong.issue = 0;
    assert_eq!(manager.create(&wrong, None).unwrap_err().code, "invalid_issue");

    manager.release_repo("owner/repo", &created.id);
    assert!(!manager.is_claimed("owner/repo"));
    assert!(manager.create(&again, None).is_ok());
    assert_eq!(
        manager.job_path("x"),
        "/tmp/root/state/jobs/x.json"
    );
    assert_eq!(worktree_path("/w/", "a/b", "c"), "/w/a/b/c");
    assert_eq!(branch_name(3, "123456789"), "board/3-12345678");
}

#[test]
fn waiting_jobs_are_cancelled_at_once() {
    let mut manager = JobManager::new(test_config());
    let id = record(JobStatus::Queued).id;
    let (cancelled, effects) =
        manager.cancel(&id, record(JobStatus::Queued), "now".to_string()).unwrap();
    assert_eq!(cancelled.status, JobStatus::Cancelled);
    assert_eq!(cancelled.finished_at.as_deref(), Some("now"));
    assert!(matches!(
        effects.as_slice(),
        [Effect::Persist, Effect::Event("cancelled"), Effect::Release]
    ));
    let begun = manager.begin(record(JobStatus::Queued), true, "turn".to_string());
    assert_eq!(begun.status, JobStatus::Cancelled);
    assert!(manager.ensure_not_cancelled(&begun.id).is_ok());
}

#[test]
fn running_jobs_are_told_to_stop() {
    let mut manager = JobManager::new(test_config());
    let id = record(JobStatus::Running).id;
    manager.process_started(&id, 4242);
    let (stopping, effects) =
        manager.cancel(&id, record(JobStatus::Running), "now".to_string()).unwrap();
    assert_eq!(stopping.status, JobStatus::Cancelling);
    assert!(matches!(
        effects.as_slice(),
        [Effect::Persist, Effect::Event("cancelling"), Effect::Signal]
    ));
    assert_eq!(manager.ensure_not_cancelled(&id), Err("job cancelled".to_string()));
    assert_eq!(manager.process_group(&id), Some(4242));
    let ended = manager.settle(record(JobStatus::Cancelling), Ok(()));
    assert_eq!(ended.status, JobStatus::Cancelled);
    assert_eq!(manager.process_group(&id), Some(4242));
    manager.process_ended(&id);
    assert_eq!(manager.process_group(&id), None);
    let error = manager.cancel(&id, record(JobStatus::Failed), "now".to_string()).err().unwrap();
    assert_eq!((error.status, error.code), (409, "job_not_running"));
    assert_eq!(signal_arguments(4242, "-TERM"), ["-TERM", "--", "-4242"]);
}

#[test]
fn the_requested_job_is_cancelled() {
    let mut manager = JobManager::new(test_config());
    let own = record(JobStatus::Running).id;
    let asked = "00000000-0000-4000-8000-000000000008";
    manager.cancel(asked, record(JobStatus::Running), "now".to_string()).ok().unwrap();
    assert!(manager.ensure_not_cancelled(asked).is_err());
    assert!(manager.ensure_not_cancelled(&own).is_ok());
}

#[test]
fn jobs_begin_when_their_turn_comes() {
    let mut manager = JobManager::new(test_config());
    let running = manager.begin(record(JobStatus::Queued), true, "turn".to_string());
    assert_eq!(running.status, JobStatus::Running);
    assert_eq!(running.started_at.as_deref(), Some("turn"));
    assert!(matches!(
        begin_effects(&running).as_slice(),
        [Effect::Persist, Effect::Event("running")]
    ));
    let stopped = manager.begin(record(JobStatus::Queued), false, "turn".to_string());
    assert_eq!(stopped.status, JobStatus::Failed);
    assert_eq!(
        stopped.error.as_deref(),
        Some("job scheduler stopped before this job could start")
    );
    assert!(matches!(
        begin_effects(&stopped).as_slice(),
        [Effect::Persist, Effect::Event("failed"), Effect::Release]
    ));
}

#[test]
fn jobs_end_with_a_report() {
    let mut manager = JobManager::new(test_config());
    let done = manager.settle(record(JobStatus::Running), Ok(()));
    assert_eq!(done.status, JobStatus::Succeeded);
    assert!(matches!(
        end_effects(&done).as_slice(),
        [Effect::StampEnd, Effect::Persist, Effect::Event("succeeded"), Effect::Forget, Effect::Release]
    ));
    let failed = manager.settle(record(JobStatus::Running), Err("bad ghp_x".to_string()));
    assert_eq!(failed.error.as_deref(), Some("bad [redacted]"));
    match end_effects(&failed).as_slice() {
        [Effect::MoveCard("board:ready"), Effect::Comment(comment), Effect::StampEnd, Effect::Persist, Effect::Event("failed"), Effect::Forget, Effect::Release] => {
            assert_eq!(
                comment,
                "Board job `00000000-0000-4000-8000-000000000007` did not open a pull request and returned this issue to `board:ready`. Open the Board app job record for details."
            );
        }
        _ => panic!("a failed job sends its card back"),
    }
    let mut opened = failed;
    opened.pr_url = Some("https://x/1".to_string());
    assert_eq!(
        failed_comment(&opened),
        "Board job `00000000-0000-4000-8000-000000000007` opened https://x/1, but did not finish cleanly and returned this issue to `board:ready`. Open the Board app job record for details."
    );
    assert_eq!(opened_comment("id", "url"), "Board job `id` opened url");
    assert_eq!(
        finish_record(opened, "end".to_string()).finished_at.as_deref(),
        Some("end")
    );
    assert_eq!(event_name(JobStatus::Queued), "queued");
}

#[test]
fn events_are_kept_up_to_a_bound() {
    let mut manager = JobManager::new(test_config());
    assert!(manager.events("job").is_empty());
    for number in 0..502 {
        manager.record_event("job", "log", &format!("line {number}"), "t".to_string());
    }
    let events = manager.events("job");
    assert_eq!(events.len(), 500);
    assert_eq!(events[0].line, "line 2");
    assert_eq!(events[499].line, "line 501");
    let event = manager.send_event("other", "status", "token board_abc");
    assert_eq!(event.line, "token [redacted]");
    assert_eq!(event.kind, "status");
    assert_eq!(manager.events("other").len(), 1);
    assert_eq!(manager.events("job").len(), 500);
}

#[test]
fn jobs_are_listed_newest_first() {
    let job = |id: &str, created_at: &str| {
        let mut job = record(JobStatus::Failed);
        job.id = id.to_string();
        job.created_at = created_at.to_string();
        job
    };
    let sorted = JobManager::list(vec![job("a", "1"), job("b", "3"), job("c", "2"), job("d", "3")]);
    let ids: Vec<&str> = sorted.iter().map(|job| job.id.as_str()).collect();
    assert_eq!(ids, ["b", "d", "c", "a"]);
}

#[test]
fn failed_commands_tell_their_first_words() {
    let lines = |list: &[&str]| list.iter().map(|line| line.to_string()).collect::<Vec<_>>();
    assert_eq!(
        command_result("git", true, "0", &lines(&["a", "b"]), &lines(&["noise"])),
        Ok("a\nb".to_string())
    );
    assert_eq!(
        command_result("git", false, "1", &lines(&["out"]), &lines(&[" ", " bad ghp_1 "])),
        Err(" bad [redacted] ".to_string())
    );
    assert_eq!(
        command_result("git", false, "1", &lines(&["", "out"]), &lines(&[])),
        Err("out".to_string())
    );
    assert_eq!(
        command_result("git", false, "exit status: 1", &lines(&[]), &lines(&[""])),
        Err("git exited with exit status: 1".to_string())
    );
}

fn run(turn: &Turn) -> (&'static str, Vec<String>, bool) {
    match &turn.action {
        Action::Run { program, arguments, in_worktree } => {
            (*program, arguments.clone(), *in_worktree)
        }
        _ => panic!("a program is to be run"),
    }
}

/// Brings the work of a job to the point where its harnesses have run.
fn worked() -> Execution {
    let mut job = record(JobStatus::Running);
    job.harness = "codex".to_string();
    job.crew = vec!["grok".to_string()];
    let (mut work, turn) =
        Execution::start(job, Some("be quick".to_string()), CursorEffortModels::default());
    assert!(matches!(turn.action, Action::CheckCancelled));
    assert!(matches!(work.advance(Reply::Done).action, Action::EnsureLabels));
    assert!(matches!(work.advance(Reply::Done).action, Action::MoveCard("board:running")));
    assert!(matches!(work.advance(Reply::Done).action, Action::CreateParent));
    let clone = work.advance(Reply::Done);
    assert_eq!(
        run(&clone),
        (
            "gh",
            ["repo", "clone", "owner/repo", "/tmp/work", "--", "--filter=blob:none"]
                .map(str::to_string)
                .to_vec(),
            false
        )
    );
    let checkout = work.advance(Reply::Output(String::new()));
    assert_eq!(run(&checkout).1, ["checkout", "-b", "board/7-00000000"]);
    assert!(matches!(
        work.advance(Reply::Output(String::new())).action,
        Action::ReadIssue
    ));
    let codex = work.advance(Reply::Output("the issue".to_string()));
    assert_eq!(codex.event, Some(("status", "running codex".to_string())));
    assert_eq!(run(&codex).0, "codex");
    assert_eq!(
        run(&codex).1.last().map(String::as_str),
        Some("the issue\n\nbe quick\n\nWork only in this repository. Implement the issue, run relevant tests, and leave the working tree ready for review. Never print credentials or tokens.")
    );
    let grok = work.advance(Reply::Output("log".to_string()));
    assert_eq!(grok.event, Some(("status", "running grok".to_string())));
    let status = work.advance(Reply::Output("log".to_string()));
    assert_eq!(run(&status), ("git", vec!["status".to_string(), "--porcelain".to_string()], true));
    work
}

#[test]
fn delivered_work_goes_to_review() {
    let mut work = worked();
    assert_eq!(run(&work.advance(Reply::Output(" M src/lib.rs".to_string()))).1, ["add", "-A"]);
    let commit = work.advance(Reply::Output(String::new()));
    assert_eq!(
        run(&commit).1.last().map(String::as_str),
        Some("Resolve #7 via board job 00000000")
    );
    let count = work.advance(Reply::Output(String::new()));
    assert_eq!(run(&count).1, ["rev-list", "--count", "origin/HEAD..HEAD"]);
    let push = work.advance(Reply::Output("2\n".to_string()));
    assert_eq!(run(&push).1, ["push", "-u", "origin", "board/7-00000000"]);
    assert!(matches!(
        work.advance(Reply::Output(String::new())).action,
        Action::FindPullRequest
    ));
    let open = work.advance(Reply::Found(None));
    assert_eq!(run(&open).1[0..2], ["pr", "create"]);
    assert_eq!(run(&open).1[8], "Closes #7");
    assert!(matches!(
        work.advance(Reply::Output(" https://x/1\n".to_string())).action,
        Action::Persist
    ));
    assert_eq!(work.record.pr_url.as_deref(), Some("https://x/1"));
    match work.advance(Reply::Done).action {
        Action::Comment(body) => assert_eq!(
            body,
            "Board job `00000000-0000-4000-8000-000000000007` opened https://x/1"
        ),
        _ => panic!("the issue is told"),
    }
    let review = work.advance(Reply::Failed("no comment".to_string()));
    assert_eq!(
        review.event,
        Some((
            "log",
            "Pull request opened, but the GitHub issue comment failed.".to_string()
        ))
    );
    assert!(matches!(review.action, Action::MoveCard("board:review")));
    assert!(matches!(work.advance(Reply::Done).action, Action::Persist));
    assert!(matches!(work.advance(Reply::Done).action, Action::Finish(Ok(()))));
    assert_eq!(work.stage, Stage::Finished);
    assert!(matches!(work.advance(Reply::Done).action, Action::Finish(Err(_))));
}

#[test]
fn open_pull_requests_are_used() {
    let mut work = worked();
    let count = work.advance(Reply::Output(" \n".to_string()));
    assert_eq!(run(&count).1[0], "rev-list");
    work.advance(Reply::Output("1".to_string()));
    work.advance(Reply::Done);
    assert!(matches!(
        work.advance(Reply::Found(Some("https://x/2".to_string()))).action,
        Action::Persist
    ));
    assert_eq!(work.record.pr_url.as_deref(), Some("https://x/2"));
}

#[test]
fn work_without_commits_is_a_failure() {
    let mut work = worked();
    work.advance(Reply::Output(String::new()));
    match work.advance(Reply::Output("zero".to_string())).action {
        Action::Finish(Err(message)) => assert_eq!(
            message,
            "agent finished without repository changes; no commit or pull request was created"
        ),
        _ => panic!("nothing was committed"),
    }
}

#[test]
fn work_without_a_pull_request_is_a_failure() {
    let mut work = worked();
    work.advance(Reply::Output(String::new()));
    work.advance(Reply::Output("1".to_string()));
    work.advance(Reply::Done);
    work.advance(Reply::Found(None));
    match work.advance(Reply::Output(" \n".to_string())).action {
        Action::Finish(Err(message)) => {
            assert_eq!(message, "GitHub CLI did not return a pull request URL")
        }
        _ => panic!("there is no pull request"),
    }
    assert!(work.record.pr_url.is_none());
}

#[test]
fn failed_steps_end_the_work() {
    let (mut work, _) =
        Execution::start(record(JobStatus::Running), None, CursorEffortModels::default());
    match work.advance(Reply::Failed("job cancelled".to_string())).action {
        Action::Finish(Err(message)) => assert_eq!(message, "job cancelled"),
        _ => panic!("the job is to stop"),
    }
    let (mut work, _) =
        Execution::start(record(JobStatus::Running), None, CursorEffortModels::default());
    work.advance(Reply::Done);
    work.advance(Reply::Done);
    work.advance(Reply::Done);
    match work.advance(Reply::Failed("read-only".to_string())).action {
        Action::Finish(Err(message)) => {
            assert_eq!(message, "cannot create workspace parent: read-only")
        }
        _ => panic!("the directory was not made"),
    }
    let mut odd = record(JobStatus::Running);
    odd.harness = "other".to_string();
    let (mut work, _) = Execution::start(odd, None, CursorEffortModels::default());
    for _ in 0..6 {
        work.advance(Reply::Done);
    }
    let turn = work.advance(Reply::Output("issue".to_string()));
    assert_eq!(turn.event, Some(("status", "running other".to_string())));
    match turn.action {
        Action::Finish(Err(message)) => assert_eq!(message, "unsupported harness other"),
        _ => panic!("the harness is not known"),
    }
}

#[test]
fn jobs_are_checked_before_they_are_created() {
    let config = test_config();
    let ended = |success: bool| ProbeOutcome::Ended {
        success,
        stdout: "Logged in".to_string(),
        stderr: String::new(),
    };
    let refused = |step: PreflightStep| match step {
        PreflightStep::Refuse(error) => error,
        _ => panic!("the request is to be refused"),
    };

    let (mut checks, step) = Preflight::start(&config, &request());
    match step {
        PreflightStep::SignIn(arguments) => assert_eq!(arguments[..2], ["auth", "status"]),
        _ => panic!("the command line is asked first"),
    }
    match checks.signed_in(Ok(String::new())) {
        PreflightStep::Probe { program, arguments } => {
            assert_eq!(program, "codex");
            assert_eq!(arguments, ["login", "status"]);
        }
        _ => panic!("the primary harness is asked next"),
    }
    match checks.probed(ended(true)) {
        PreflightStep::Probe { program, .. } => assert_eq!(program, "cursor-agent"),
        _ => panic!("the crew is asked next"),
    }
    assert!(matches!(checks.probed(ended(true)), PreflightStep::Ready));

    let mut wrong = request();
    wrong.issue = 0;
    let (_, step) = Preflight::start(&config, &wrong);
    assert_eq!(refused(step).code, "invalid_issue");
    let (checks, _) = Preflight::start(&config, &request());
    let step = checks.signed_in(Err(ApiError::conflict("c", "m")));
    assert_eq!(refused(step).code, "gh_login_required");
    let (mut checks, _) = Preflight::start(&config, &request());
    checks.signed_in(Ok(String::new()));
    let error = refused(checks.probed(ended(false)));
    assert_eq!(error.message, "codex is not authenticated as board");

    let mut odd = test_config();
    odd.allowed_harnesses = vec!["other".to_string()];
    let mut unknown = request();
    unknown.harness = "other".to_string();
    unknown.crew = Vec::new();
    let (checks, _) = Preflight::start(&odd, &unknown);
    let error = refused(checks.signed_in(Ok(String::new())));
    assert_eq!(error.message, "other is not authenticated as board");
}

#[test]
fn commands_of_cancelled_jobs_come_to_nothing() {
    let mut manager = JobManager::new(test_config());
    let id = record(JobStatus::Running).id;
    let lines = vec!["done".to_string()];
    assert_eq!(
        manager.run_command(&id, "git", true, "0", &lines, &Vec::new()),
        Ok("done".to_string())
    );
    manager.cancel(&id, record(JobStatus::Running), "now".to_string()).ok().unwrap();
    assert_eq!(
        manager.run_command(&id, "git", true, "0", &lines, &Vec::new()),
        Err("job cancelled".to_string())
    );
}
