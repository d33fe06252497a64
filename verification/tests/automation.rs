//! The pickup of ready cards.
use board_api::automation::{
    compare_instants, compare_timestamps, is_after, is_later, parse_timestamp, selected_effort,
    selected_harness, should_start, AutoRunner, Pickup, Scan,
};
use board_api::board::ReadyCard;
use board_api::config::{AutoRunConfig, CleanupConfig, Config, CursorEffortModels};
use board_api::model::{Card, JobRecord, JobStatus, ReasoningEffort};
use std::cmp::Ordering;

fn card(labels: &[&str], updated_at: &str) -> Card {
    Card {
        number: 7,
        author_login: Some("trusted-user".to_string()),
        title: "Test".to_string(),
        body: String::new(),
        column: Some("board:ready".to_string()),
        labels: labels.iter().map(|label| label.to_string()).collect(),
        url: "https://github.com/example/repo/issues/7".to_string(),
        created_at: "2026-08-22T00:00:00Z".to_string(),
        updated_at: updated_at.to_string(),
    }
}

fn job(status: JobStatus, finished_at: Option<&str>) -> JobRecord {
    JobRecord {
        id: "00000000-0000-4000-8000-000000000007".to_string(),
        repo: "example/repo".to_string(),
        issue: 7,
        harness: "codex".to_string(),
        crew: Vec::new(),
        effort: None,
        status,
        branch: "board/7-00000000".to_string(),
        worktree: "/tmp/work".to_string(),
        pr_url: None,
        created_at: "2026-08-22T00:01:00Z".to_string(),
        started_at: Some("2026-08-22T00:01:01Z".to_string()),
        finished_at: finished_at.map(str::to_string),
        error: None,
    }
}

fn allowed() -> Vec<String> {
    vec!["grok".to_string(), "codex".to_string(), "cursor".to_string()]
}

fn runner(enabled: bool) -> AutoRunner {
    AutoRunner::new(Config {
        listen: "0.0.0.0".to_string(),
        port: 8787,
        state_dir: "/tmp/state".to_string(),
        work_dir: "/tmp/work".to_string(),
        max_concurrent_jobs: 3,
        allowed_harnesses: vec!["codex".to_string(), "grok".to_string()],
        allowed_issue_authors: vec!["Trusted-User".to_string()],
        cursor_effort_models: CursorEffortModels::default(),
        auto_run: AutoRunConfig {
            enabled,
            poll_seconds: 60,
            default_harness: "codex".to_string(),
        },
        cleanup: CleanupConfig::default(),
    })
}

#[test]
fn selector_uses_default_or_exact_agent_label() {
    let allowed = allowed();
    assert_eq!(
        selected_harness(&card(&["board:ready"], "").labels, "codex", &allowed).unwrap(),
        "codex"
    );
    assert_eq!(
        selected_harness(&card(&["board:ready", "agent:grok"], "").labels, "codex", &allowed)
            .unwrap(),
        "grok"
    );
}

#[test]
fn selector_rejects_ambiguous_or_unknown_agent_labels() {
    let allowed = allowed();
    assert!(selected_harness(
        &card(&["board:ready", "agent:grok", "agent:cursor"], "").labels,
        "codex",
        &allowed
    )
    .is_err());
    assert!(selected_harness(
        &card(&["board:ready", "agent:unknown"], "").labels,
        "codex",
        &allowed
    )
    .is_err());
}

#[test]
fn selectors_say_what_is_wrong() {
    let only_codex = vec!["codex".to_string()];
    assert_eq!(
        selected_harness(&card(&["agent:grok"], "").labels, "codex", &only_codex),
        Err("agent harness grok is not allowed by this server".to_string())
    );
    assert_eq!(
        selected_harness(&card(&["agent:grok", "agent:grok"], "").labels, "codex", &allowed()),
        Err("use exactly one agent:* selector label".to_string())
    );
    assert_eq!(
        selected_harness(&card(&["agent:other"], "").labels, "codex", &allowed()),
        Err("unsupported agent selector label agent:other".to_string())
    );
}

#[test]
fn effort_labels_select_an_effort() {
    assert_eq!(selected_effort(&card(&["board:ready"], "").labels), Ok(None));
    for (label, effort) in [
        ("effort:low", ReasoningEffort::Low),
        ("effort:medium", ReasoningEffort::Medium),
        ("effort:high", ReasoningEffort::High),
        ("effort:xhigh", ReasoningEffort::Xhigh),
    ] {
        assert_eq!(selected_effort(&card(&[label], "").labels), Ok(Some(effort)));
    }
    assert_eq!(
        selected_effort(&card(&["effort:max"], "").labels),
        Err("unsupported effort selector label effort:max".to_string())
    );
    assert_eq!(
        selected_effort(&card(&["effort:low", "effort:high"], "").labels),
        Err("use at most one effort:* selector label".to_string())
    );
}

#[test]
fn terminal_job_is_not_retried_until_issue_changes() {
    let completed = job(JobStatus::Failed, Some("2026-08-22T00:02:00.500Z"));
    assert!(!should_start(
        "example/repo",
        &card(&["board:ready"], "2026-08-22T00:02:00Z"),
        std::slice::from_ref(&completed)
    ));
    assert!(should_start(
        "example/repo",
        &card(&["board:ready"], "2026-08-22T00:03:00Z"),
        &[completed]
    ));
}

#[test]
fn active_job_prevents_duplicate_pickup() {
    assert!(!should_start(
        "example/repo",
        &card(&["board:ready"], "2026-08-22T00:03:00Z"),
        &[job(JobStatus::Running, None)]
    ));
}

#[test]
fn only_the_latest_job_of_the_issue_counts() {
    let ready = card(&["board:ready"], "2026-08-22T09:00:00Z");
    assert!(should_start("example/repo", &ready, &[]));
    let mut other = job(JobStatus::Running, None);
    other.issue = 8;
    assert!(should_start("example/repo", &ready, &[other]));
    let mut old = job(JobStatus::Running, None);
    old.repo = "EXAMPLE/repo".to_string();
    let mut new = job(JobStatus::Failed, Some("2026-08-22T08:00:00Z"));
    new.created_at = "2026-08-22T02:30:00+00:00".to_string();
    assert!(should_start("example/repo", &ready, &[new.clone(), old.clone()]));
    // Of two jobs of one instant the one that stands last counts.
    new.created_at = old.created_at.clone();
    assert!(!should_start("example/repo", &ready, &[new.clone(), old.clone()]));
    assert!(should_start("example/repo", &ready, &[old, new.clone()]));
    new.finished_at = None;
    assert!(!should_start("example/repo", &ready, &[new.clone()]));
    new.finished_at = Some("not a time".to_string());
    assert!(!should_start("example/repo", &ready, &[new]));
}

#[test]
fn timestamps_are_compared_by_instant() {
    assert_eq!(parse_timestamp("1970-01-01T00:00:01.5Z"), Some(1_500_000_000));
    assert_eq!(parse_timestamp("1970-01-01T01:00:00+01:00"), Some(0));
    assert_eq!(parse_timestamp("yesterday"), None);
    assert_eq!(
        compare_timestamps("2026-08-22T02:00:00+02:00", "2026-08-22T01:00:00Z"),
        Ordering::Less
    );
    assert_eq!(
        compare_timestamps("2026-08-22T02:00:00+02:00", "2026-08-22T00:00:00Z"),
        Ordering::Equal
    );
    assert_eq!(compare_timestamps("b", "a"), Ordering::Greater);
    assert_eq!(compare_timestamps("a", "2026-08-22T00:00:00Z"), Ordering::Greater);
    assert_eq!(compare_instants("x", Some(2), "y", Some(1)), Ordering::Greater);
    assert_eq!(compare_instants("x", None, "y", Some(1)), Ordering::Less);
    assert_eq!(compare_instants("x", None, "x", None), Ordering::Equal);
    assert_eq!(is_after("2026-08-22T00:00:01Z", "2026-08-22T00:00:00Z"), Some(true));
    assert_eq!(is_after("2026-08-22T00:00:00Z", "2026-08-22T00:00:00Z"), Some(false));
    assert_eq!(is_after("later", "2026-08-22T00:00:00Z"), None);
    assert_eq!(is_later(Some(1), Some(0)), Some(true));
    assert_eq!(is_later(None, Some(0)), None);
}

#[test]
fn ready_cards_are_started() {
    let ready = card(&["board:ready", "agent:grok", "effort:high"], "2026-08-22T00:03:00Z");
    match runner(true).consider("example/repo", &ready, &[]) {
        Pickup::Start(request, effort) => {
            assert_eq!(request.repo, "example/repo");
            assert_eq!(request.issue, 7);
            assert_eq!(request.harness, "grok");
            assert!(request.prompt.is_none());
            assert!(request.crew.is_empty());
            assert_eq!(effort, Some(ReasoningEffort::High));
        }
        _ => panic!("the card is ready"),
    }
    assert!(matches!(runner(false).consider("example/repo", &ready, &[]), Pickup::Leave));
    assert!(matches!(
        runner(false).consider_with_jobs("example/repo", &ready, &[]),
        Pickup::Start(_, _)
    ));
}

#[test]
fn other_cards_are_left_or_refused() {
    let runner = runner(true);
    assert!(runner.enabled());
    let mut waiting = card(&["board:backlog"], "2026-08-22T00:03:00Z");
    waiting.column = Some("board:backlog".to_string());
    assert!(matches!(runner.consider("example/repo", &waiting, &[]), Pickup::Leave));
    let ready = card(&["board:ready"], "2026-08-22T00:03:00Z");
    assert!(matches!(
        runner.consider("example/repo", &ready, &[job(JobStatus::Queued, None)]),
        Pickup::Leave
    ));
    let mut foreign = ready.clone();
    foreign.author_login = Some("stranger".to_string());
    match runner.consider("example/repo", &foreign, &[]) {
        Pickup::Refuse(reason) => {
            assert_eq!(reason, "issue author is not allowed to start board jobs")
        }
        _ => panic!("the author is not trusted"),
    }
    foreign.author_login = None;
    assert!(matches!(runner.consider("example/repo", &foreign, &[]), Pickup::Refuse(_)));
    let cursor = card(&["agent:cursor"], "2026-08-22T00:03:00Z");
    match runner.consider("example/repo", &cursor, &[]) {
        Pickup::Refuse(reason) => {
            assert_eq!(reason, "agent harness cursor is not allowed by this server")
        }
        _ => panic!("the harness is not allowed"),
    }
    let odd = card(&["effort:odd"], "2026-08-22T00:03:00Z");
    assert!(matches!(runner.consider("example/repo", &odd, &[]), Pickup::Refuse(_)));
}

#[test]
fn scans_start_each_issue_once() {
    let entry = |number: u64, column: &str| {
        let mut card = card(&["board:ready"], "2026-08-22T00:03:00Z");
        card.number = number;
        card.column = Some(column.to_string());
        ReadyCard { repo: "Example/Repo".to_string(), card }
    };
    let runner = runner(true);
    let mut scan = Scan::begin(
        vec![entry(7, "board:ready"), entry(7, "board:ready"), entry(8, "board:done")],
        Vec::new(),
    );
    assert!(scan.current().is_none());
    assert!(matches!(scan.step(&runner), Some(Pickup::Start(_, None))));
    assert_eq!(scan.current().map(|entry| entry.card.number), Some(7));
    scan.created(job(JobStatus::Queued, None));
    assert!(matches!(scan.step(&runner), Some(Pickup::Leave)));
    assert!(matches!(scan.step(&runner), Some(Pickup::Leave)));
    assert!(scan.step(&runner).is_none());
    assert_eq!(scan.started(), 1);
    assert_eq!(scan.current().map(|entry| entry.card.number), Some(8));
}
