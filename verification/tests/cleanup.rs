//! The removal of old worktrees.
use board_api::automation::parse_timestamp;
use board_api::cleanup::{
    delay_until, expected_worktree, judge, managed_tree, managed_tree_paths, seconds_until_cleanup,
    CleanupReport, PathKind, Removal, Sweep, SweepStep, Verdict,
};
use board_api::config::{AutoRunConfig, CleanupConfig, Config, CursorEffortModels};
use board_api::manager::JobManager;
use board_api::model::{JobRecord, JobStatus};

fn test_config() -> Config {
    Config {
        listen: "127.0.0.1".to_string(),
        port: 8787,
        state_dir: "/tmp/root/state".to_string(),
        work_dir: "/tmp/root/work".to_string(),
        max_concurrent_jobs: 3,
        allowed_harnesses: vec!["codex".to_string()],
        allowed_issue_authors: vec!["trusted-user".to_string()],
        cursor_effort_models: CursorEffortModels::default(),
        auto_run: AutoRunConfig::default(),
        cleanup: CleanupConfig { enabled: true, retention_days: 7, run_hour_utc: 3 },
    }
}

fn job_record(id: &str, repo: &str, status: JobStatus, finished_at: Option<&str>) -> JobRecord {
    JobRecord {
        id: id.to_string(),
        repo: repo.to_string(),
        issue: 7,
        harness: "codex".to_string(),
        crew: Vec::new(),
        effort: None,
        status,
        branch: format!("board/7-{}", &id[..8]),
        worktree: format!("/tmp/root/work/{repo}/{id}"),
        pr_url: None,
        created_at: "2026-08-01T00:00:00Z".to_string(),
        started_at: Some("2026-08-01T00:00:01Z".to_string()),
        finished_at: finished_at.map(str::to_string),
        error: None,
    }
}

fn instant(text: &str) -> i128 {
    parse_timestamp(text).unwrap()
}

/// Sweeps over the jobs; `kind` tells what stands at a path. The removed worktrees come back.
fn sweep(
    jobs: Vec<JobRecord>,
    manager: &JobManager,
    now: &str,
    kind: impl Fn(&str) -> PathKind,
) -> (CleanupReport, Vec<String>) {
    let mut sweep = Sweep::start(&test_config(), jobs, instant(now));
    let mut removed = Vec::new();
    loop {
        match sweep.step(manager) {
            SweepStep::Done => return (sweep.report(), removed),
            SweepStep::Skipped => {}
            SweepStep::Inspect(paths) => {
                let mut kinds = Vec::new();
                for path in &paths {
                    kinds.push(kind(path));
                    if kinds.last() != Some(&PathKind::Directory) {
                        break;
                    }
                }
                if sweep.inspected(&kinds) {
                    removed.push(paths[3].clone());
                    sweep.removed(Removal::Removed);
                }
            }
        }
    }
}

#[test]
fn cleanup_removes_only_expired_terminal_idle_worktrees() {
    let expired = "00000000-0000-4000-8000-000000000001";
    let active_old = "00000000-0000-4000-8000-000000000002";
    let active_job = "00000000-0000-4000-8000-000000000003";
    let recent = "00000000-0000-4000-8000-000000000004";
    let invalid = "00000000-0000-4000-8000-000000000005";
    let linked = "00000000-0000-4000-8000-000000000006";

    let mut invalid_record = job_record(
        invalid,
        "invalid/repo",
        JobStatus::Failed,
        Some("2026-08-01T00:00:02Z"),
    );
    invalid_record.worktree = "/tmp/root/outside-worktree".to_string();
    let records = vec![
        job_record(
            expired,
            "idle/repo",
            JobStatus::Succeeded,
            Some("2026-08-01T00:00:02Z"),
        ),
        job_record(
            active_old,
            "active/repo",
            JobStatus::Failed,
            Some("2026-08-01T00:00:02Z"),
        ),
        job_record(active_job, "active/repo", JobStatus::Queued, None),
        job_record(
            recent,
            "recent/repo",
            JobStatus::Cancelled,
            Some("2026-08-22T00:00:02Z"),
        ),
        invalid_record,
        job_record(
            linked,
            "linked/repo",
            JobStatus::Failed,
            Some("2026-08-01T00:00:02Z"),
        ),
    ];
    let manager = JobManager::new(test_config());
    let (report, removed) = sweep(records, &manager, "2026-08-23T12:00:00Z", |path| {
        if path == "/tmp/root/work/linked" {
            PathKind::Other
        } else {
            PathKind::Directory
        }
    });

    assert_eq!(
        report,
        CleanupReport {
            removed: 1,
            skipped_active: 1,
            skipped_recent: 1,
            skipped_invalid: 2,
            missing: 0,
        }
    );
    assert_eq!(removed, [format!("/tmp/root/work/idle/repo/{expired}")]);
}

#[test]
fn sweeps_count_what_they_find() {
    let job = |id: u32, repo: &str, finished_at: Option<&str>| {
        job_record(
            &format!("00000000-0000-4000-8000-{id:012}"),
            repo,
            JobStatus::Failed,
            finished_at,
        )
    };
    let old = Some("2026-08-01T00:00:02Z");
    let mut manager = JobManager::new(test_config());
    manager.claim("claimed/repo", "job".to_string());
    let (report, removed) = sweep(
        vec![
            job(1, "gone/repo", old),
            job(2, "dark/repo", old),
            job(3, "Claimed/Repo", old),
            job(4, "odd/repo", Some("last week")),
            job(5, "odd/repo", None),
            job(6, "edge/repo", Some("2026-08-16T12:00:00Z")),
            job(7, "edge/repo", Some("2026-08-16T12:00:00.000000001Z")),
        ],
        &manager,
        "2026-08-23T12:00:00Z",
        |path| {
            if path.starts_with("/tmp/root/work/gone/repo/") {
                PathKind::Missing
            } else if path == "/tmp/root/work/dark" {
                PathKind::Unreadable
            } else {
                PathKind::Directory
            }
        },
    );
    assert_eq!(
        report,
        CleanupReport {
            removed: 1,
            skipped_active: 1,
            skipped_recent: 1,
            skipped_invalid: 3,
            missing: 1,
        }
    );
    assert_eq!(
        removed,
        ["/tmp/root/work/edge/repo/00000000-0000-4000-8000-000000000006"]
    );
}

#[test]
fn removals_are_counted() {
    let job = job_record(
        "00000000-0000-4000-8000-000000000001",
        "a/b",
        JobStatus::Failed,
        Some("2026-08-01T00:00:02Z"),
    );
    for (removal, wanted) in [
        (Removal::Removed, (1, 0, 0)),
        (Removal::Missing, (0, 1, 0)),
        (Removal::Failed, (0, 0, 1)),
    ] {
        let manager = JobManager::new(test_config());
        let now = instant("2026-08-23T12:00:00Z");
        let mut sweep = Sweep::start(&test_config(), vec![job.clone()], now);
        assert!(matches!(sweep.step(&manager), SweepStep::Inspect(_)));
        assert!(sweep.inspected(&vec![PathKind::Directory; 4]));
        sweep.removed(removal);
        let report = sweep.report();
        assert_eq!((report.removed, report.missing, report.skipped_invalid), wanted);
        assert!(matches!(sweep.step(&manager), SweepStep::Done));
    }
}

#[test]
fn worktrees_are_where_they_should_be() {
    let id = "00000000-0000-4000-8000-00000000000a";
    let job = job_record(id, "a/b", JobStatus::Failed, None);
    assert_eq!(
        expected_worktree("/w", &job),
        Some(format!("/w/a/b/{id}"))
    );
    assert_eq!(
        managed_tree_paths("/w", &job),
        ["/w".to_string(), "/w/a".to_string(), "/w/a/b".to_string(), format!("/w/a/b/{id}")]
    );
    let mut upper = job.clone();
    upper.id = id.to_uppercase();
    assert_eq!(expected_worktree("/w", &upper), None);
    let mut nameless = job.clone();
    nameless.repo = "a/..".to_string();
    assert_eq!(expected_worktree("/w", &nameless), None);
    let mut same = job;
    same.worktree = format!("/w//a/./b/{id}/");
    assert_eq!(judge(&same, Some(5), 5, false, false, "/w"), Verdict::Inspect);
    assert_eq!(judge(&same, Some(6), 5, false, false, "/w"), Verdict::Recent);
    assert_eq!(judge(&same, None, 5, false, false, "/w"), Verdict::Invalid);
    assert_eq!(judge(&same, Some(5), 5, true, false, "/w"), Verdict::Active);
    assert_eq!(judge(&same, Some(5), 5, false, true, "/w"), Verdict::Active);
    assert_eq!(judge(&same, Some(5), 5, false, false, "/x"), Verdict::Invalid);
    assert_eq!(
        managed_tree(&vec![PathKind::Directory, PathKind::Missing, PathKind::Other]),
        PathKind::Missing
    );
    assert_eq!(managed_tree(&vec![PathKind::Directory; 4]), PathKind::Directory);
}

#[test]
fn nightly_cleanup_delay_uses_sydney_time_year_round() {
    let zone = "Australia/Sydney";
    let winter_before = instant("2026-08-23T16:30:00Z");
    let winter_after = instant("2026-08-23T17:30:00Z");
    let summer_before = instant("2026-12-23T15:30:00Z");
    let summer_after = instant("2026-12-23T16:30:00Z");

    assert_eq!(seconds_until_cleanup(winter_before, 3, zone), Some(1_800));
    assert_eq!(seconds_until_cleanup(winter_after, 3, zone), Some(84_600));
    assert_eq!(seconds_until_cleanup(summer_before, 3, zone), Some(1_800));
    assert_eq!(seconds_until_cleanup(summer_after, 3, zone), Some(84_600));
}

#[test]
fn nightly_cleanup_delay_handles_sydney_dst_boundaries() {
    let zone = "Australia/Sydney";
    let spring_forward = instant("2026-10-03T15:59:30Z");
    let fall_back = instant("2026-04-04T15:30:00Z");

    assert_eq!(seconds_until_cleanup(spring_forward, 3, zone), Some(30));
    assert_eq!(seconds_until_cleanup(fall_back, 3, zone), Some(5_400));
}

#[test]
fn skipped_and_repeated_hours_are_found() {
    let zone = "Australia/Sydney";
    // At 02:00 on 4 October 2026 clocks go forward, so that day has no hour from 2 to 3.
    let before_gap = instant("2026-10-03T15:30:00Z");
    assert_eq!(seconds_until_cleanup(before_gap, 2, zone), Some(1_800));
    // At 03:00 on 5 April 2026 clocks go back, so that day has two hours from 2 to 3.
    let before_fold = instant("2026-04-04T14:30:00Z");
    assert_eq!(seconds_until_cleanup(before_fold, 2, zone), Some(1_800));
}

#[test]
fn other_zones_and_edges() {
    let noon = instant("2026-08-23T12:00:00.5Z");
    assert_eq!(seconds_until_cleanup(noon, 13, "UTC"), Some(3_599));
    assert_eq!(seconds_until_cleanup(noon, 12, "UTC"), Some(86_399));
    assert_eq!(seconds_until_cleanup(noon, 3, "Nowhere/Land"), None);
    assert_eq!(delay_until(5_000_000_000, 5), 1);
    assert_eq!(delay_until(5_000_000_000, 4), 1);
    assert_eq!(delay_until(5_000_000_000, 7), 2);
}
