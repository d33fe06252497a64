//! Names, pages, configuration, times and log lines.
use board_api::config::{
    check_file_mode, default_max_concurrent_jobs, AutoRunConfig, CleanupConfig, Config,
    CursorEffortModels,
};
use board_api::model::{
    parse_pagination, valid_column, validate_repo, JobStatus, ReasoningEffort, BOARD_COLUMNS,
};
use board_api::order::text_precedes;
use board_api::path::{is_absolute, joined_path, paths_equal};
use board_api::text::{
    blank, decimal_of, end_trimmed, equal_ignoring_case, last_part, lines_of, lowered, parse_u64,
    signed_decimal_of, trimmed, uppered,
};
use board_api::textmap::TextMap;
use board_api::util::{epoch_seconds, iso_from_epoch, iso_now, now_epoch, scrub_log_line};
use serde_json::Value;

fn config(harnesses: &[&str]) -> Config {
    Config {
        listen: "0.0.0.0".to_string(),
        port: 8787,
        state_dir: "/tmp/state".to_string(),
        work_dir: "/tmp/work".to_string(),
        max_concurrent_jobs: 3,
        allowed_harnesses: harnesses.iter().map(|name| name.to_string()).collect(),
        allowed_issue_authors: vec!["trusted-user".to_string()],
        cursor_effort_models: CursorEffortModels::default(),
        auto_run: AutoRunConfig::default(),
        cleanup: CleanupConfig::default(),
    }
}

#[test]
fn validates_repo_names_without_shell_metacharacters() {
    assert!(validate_repo("owner/repo-name_1.0"));
    assert!(!validate_repo("owner/repo/extra"));
    assert!(!validate_repo("owner/$(bad)"));
    assert!(!validate_repo("../repo"));
}

#[test]
fn repo_names_have_bounds() {
    let long = "a".repeat(100);
    assert!(validate_repo(&format!("{long}/{long}")));
    assert!(!validate_repo(&format!("{long}a/repo")));
    assert!(!validate_repo("owner"));
    assert!(!validate_repo("/repo"));
    assert!(!validate_repo("owner/"));
    assert!(!validate_repo("owner/.."));
    assert!(!validate_repo("owner/."));
    assert!(!validate_repo("öwner/repo"));
    assert!(validate_repo("owner/..."));
}

#[test]
fn pagination_is_bounded() {
    assert_eq!(parse_pagination(None, None).unwrap(), (1, 25));
    assert!(parse_pagination(Some("0"), None).is_err());
    assert!(parse_pagination(None, Some("51")).is_err());
}

#[test]
fn pagination_says_what_is_wrong() {
    assert_eq!(parse_pagination(Some("+3"), Some("50")), Ok((3, 50)));
    assert_eq!(
        parse_pagination(Some("x"), Some("y")),
        Err("page must be a positive integer".to_string())
    );
    assert_eq!(
        parse_pagination(None, Some("-1")),
        Err("perPage must be a positive integer".to_string())
    );
    assert_eq!(
        parse_pagination(Some("0"), Some("0")),
        Err("page must be at least 1".to_string())
    );
    assert_eq!(
        parse_pagination(None, Some("0")),
        Err("perPage must be between 1 and 50".to_string())
    );
    assert_eq!(
        parse_pagination(Some("99999999999999999999999"), None),
        Err("page must be a positive integer".to_string())
    );
}

#[test]
fn the_five_columns_are_columns() {
    for column in BOARD_COLUMNS {
        assert!(valid_column(column));
    }
    assert!(!valid_column("board:other"));
    assert!(!valid_column("Board:Ready"));
}

#[test]
fn three_states_are_terminal() {
    assert!(JobStatus::Cancelled.is_terminal());
    assert!(JobStatus::Succeeded.is_terminal());
    assert!(JobStatus::Failed.is_terminal());
    assert!(!JobStatus::Queued.is_terminal());
    assert!(!JobStatus::Running.is_terminal());
    assert!(!JobStatus::Cancelling.is_terminal());
}

#[test]
fn rejects_unknown_harness() {
    assert!(config(&["unknown"]).validate().is_err());
    assert_eq!(
        config(&["codex", "unknown"]).validate(),
        Err("unsupported allowed harness: unknown".to_string())
    );
}

#[test]
fn rejects_enabled_default_harness_that_is_not_allowed() {
    let mut config = config(&["grok"]);
    config.auto_run = AutoRunConfig {
        enabled: true,
        poll_seconds: 60,
        default_harness: "codex".to_string(),
    };
    assert!(config.validate().is_err());
    config.auto_run.enabled = false;
    assert!(config.validate().is_ok());
}

#[test]
fn issue_author_allowlist_is_case_insensitive_and_fails_closed() {
    let config = config(&["codex"]);
    assert!(config.allows_issue_author(Some("TRUSTED-USER")));
    assert!(!config.allows_issue_author(Some("someone-else")));
    assert!(!config.allows_issue_author(None));

    let mut missing = config;
    missing.allowed_issue_authors.clear();
    assert!(missing.validate().is_err());
}

#[test]
fn rejects_empty_cursor_effort_model() {
    let mut config = config(&["cursor"]);
    config.cursor_effort_models.high.clear();
    assert!(config.validate().is_err());
}

#[test]
fn validates_concurrency_and_cleanup_bounds() {
    let mut config = config(&["codex"]);
    assert!(config.validate().is_ok());
    config.max_concurrent_jobs = 0;
    assert!(config.validate().is_err());
    config.max_concurrent_jobs = 3;
    config.cleanup.retention_days = 0;
    assert!(config.validate().is_err());
    config.cleanup.retention_days = 7;
    config.cleanup.run_hour_utc = 24;
    assert!(config.validate().is_err());
}

#[test]
fn configuration_problems_come_in_order() {
    let mut config = config(&["codex"]);
    config.port = 0;
    config.work_dir = "work".to_string();
    assert_eq!(config.validate(), Err("port must be greater than zero".to_string()));
    config.port = 1;
    assert_eq!(
        config.validate(),
        Err("stateDir and workDir must be absolute paths".to_string())
    );
    config.work_dir = "/work".to_string();
    config.max_concurrent_jobs = 17;
    assert_eq!(
        config.validate(),
        Err("maxConcurrentJobs must be between 1 and 16".to_string())
    );
    config.max_concurrent_jobs = 16;
    config.allowed_harnesses.clear();
    assert_eq!(config.validate(), Err("allowedHarnesses must not be empty".to_string()));
    config.allowed_harnesses.push("codex".to_string());
    config.allowed_issue_authors.push(" spaced".to_string());
    assert_eq!(
        config.validate(),
        Err("allowedIssueAuthors entries must be non-empty GitHub logins".to_string())
    );
    config.allowed_issue_authors.pop();
    config.cursor_effort_models.low = "model ".to_string();
    assert_eq!(
        config.validate(),
        Err("cursorEffortModels entries must be non-empty model names".to_string())
    );
    config.cursor_effort_models = CursorEffortModels::default();
    config.auto_run.poll_seconds = 29;
    assert_eq!(
        config.validate(),
        Err("autoRun.pollSeconds must be between 30 and 3600".to_string())
    );
    config.auto_run.poll_seconds = 3_600;
    config.auto_run.default_harness = "other".to_string();
    assert_eq!(
        config.validate(),
        Err("unsupported autoRun.defaultHarness: other".to_string())
    );
    config.auto_run.default_harness = "grok".to_string();
    config.auto_run.enabled = true;
    assert_eq!(
        config.validate(),
        Err("autoRun.defaultHarness must be in allowedHarnesses".to_string())
    );
    config.auto_run.enabled = false;
    config.cleanup.retention_days = 366;
    assert_eq!(
        config.validate(),
        Err("cleanup.retentionDays must be between 1 and 365".to_string())
    );
    config.cleanup.retention_days = 365;
    config.cleanup.run_hour_utc = 24;
    assert_eq!(
        config.validate(),
        Err("cleanup.runHourUtc must be between 0 and 23".to_string())
    );
    config.cleanup.run_hour_utc = 23;
    assert_eq!(config.validate(), Ok(()));
}

#[test]
fn defaults_are_safe() {
    assert_eq!(default_max_concurrent_jobs(), 3);
    let cleanup = CleanupConfig::default();
    assert!(!cleanup.enabled);
    assert_eq!(cleanup.retention_days, 7);
    assert_eq!(cleanup.run_hour_utc, 3);
    let auto_run = AutoRunConfig::default();
    assert!(!auto_run.enabled);
    assert_eq!(auto_run.poll_seconds, 60);
    assert_eq!(auto_run.default_harness, "codex");
    let models = CursorEffortModels::default();
    assert_eq!(models.model_for(ReasoningEffort::Low), "gpt-5.6-sol-low");
    assert_eq!(models.model_for(ReasoningEffort::Medium), "gpt-5.6-sol-medium");
    assert_eq!(models.model_for(ReasoningEffort::High), "gpt-5.6-sol-high");
    assert_eq!(models.model_for(ReasoningEffort::Xhigh), "gpt-5.6-sol-xhigh");
}

#[test]
fn configuration_files_are_private() {
    assert_eq!(check_file_mode("/c", 0o100600), Ok(()));
    assert_eq!(
        check_file_mode("/c", 0o100644),
        Err("config /c must not be accessible by group or others (mode 644)".to_string())
    );
    assert_eq!(
        check_file_mode("/c", 0o070),
        Err("config /c must not be accessible by group or others (mode 70)".to_string())
    );
    assert_eq!(
        check_file_mode("/c", 0o001),
        Err("config /c must not be accessible by group or others (mode 1)".to_string())
    );
}

#[test]
fn scrubs_known_secret_prefixes() {
    let input = "token board_abcdef and github_pat_deadbeef";
    let output = scrub_log_line(input);
    assert!(!output.contains("board_abcdef"));
    assert!(!output.contains("github_pat_deadbeef"));
}

#[test]
fn scrubbed_lines_keep_everything_else() {
    assert_eq!(
        scrub_log_line("a board_x, b 'ghp_y' c \"gho_z\" {ghu_1} ghs_2\tghr_3"),
        "a [redacted], b '[redacted]' c \"[redacted]\" {[redacted]} [redacted]\t[redacted]"
    );
    assert_eq!(scrub_log_line("board_board_a"), "[redacted]");
    assert_eq!(scrub_log_line("nothing here"), "nothing here");
    assert_eq!(scrub_log_line(&"x".repeat(5_000)).len(), 4_096);
    let once = scrub_log_line("x board_abc y ghp_def");
    assert_eq!(scrub_log_line(&once), once);
}

#[test]
fn seconds_are_shown_as_rfc_3339() {
    assert_eq!(iso_from_epoch(0), "1970-01-01T00:00:00Z");
    assert_eq!(iso_from_epoch(1_800_000_000), "2027-01-15T08:00:00Z");
    assert_eq!(iso_from_epoch(253_402_300_800), "253402300800Z");
    assert_eq!(iso_from_epoch(-62_167_219_201), "-62167219201Z");
    assert_eq!(iso_from_epoch(-62_167_219_200), "0000-01-01T00:00:00Z");
}

#[test]
fn the_clock_is_read() {
    assert_eq!(epoch_seconds(None), 0);
    assert_eq!(epoch_seconds(Some(42)), 42);
    assert!(now_epoch() > 1_600_000_000);
    assert!(iso_now().ends_with('Z'));
    assert!(iso_now().starts_with("20"));
}

#[test]
fn text_functions_agree_with_the_standard_library() {
    for text in [
        "", " ", "a", " a b ", "\u{a0}x\u{3000}", "\t\r\n", "x\n", "a\r\nb\n\nc", "\u{85}\u{2028}",
        "ÄbC ß", "a/b/c", "/", "\r", "a\r",
    ] {
        assert_eq!(trimmed(text), text.trim());
        assert_eq!(end_trimmed(text), text.trim_end());
        assert_eq!(blank(text), text.trim().is_empty());
        assert_eq!(lines_of(text), text.lines().map(str::to_string).collect::<Vec<_>>());
        assert_eq!(lowered(text), text.to_ascii_lowercase());
        assert_eq!(uppered(text), text.to_ascii_uppercase());
        assert_eq!(last_part(text, '/'), text.rsplit('/').next().unwrap());
        for other in ["a", "B", "ÄBC ß", ""] {
            assert_eq!(equal_ignoring_case(text, other), text.eq_ignore_ascii_case(other));
            assert_eq!(text_precedes(text, other), text < other);
            assert_eq!(text_precedes(other, text), other < text);
        }
    }
    for text in ["", "+", "-1", "+7", "007", "18446744073709551615", "18446744073709551616", "1x"] {
        assert_eq!(parse_u64(text), text.parse::<u64>().ok());
    }
    assert_eq!(decimal_of(u64::MAX), u64::MAX.to_string());
    assert_eq!(signed_decimal_of(i64::MIN), i64::MIN.to_string());
}

#[test]
fn paths_join_and_compare_like_paths() {
    for (base, part) in [("/a", "b"), ("/a/", "b"), ("", "b"), ("/a", "/b"), ("/a", "")] {
        assert_eq!(
            joined_path(base, part),
            std::path::Path::new(base).join(part).to_string_lossy()
        );
    }
    let paths = [
        "/a/b", "/a//b", "/a/b/", "/a/./b", "a/b", "./a/b", ".", "", "/", "//", "/a/../b", "/b",
        "a/b/.", "./.", "/.",
    ];
    for left in paths {
        assert_eq!(is_absolute(left), std::path::Path::new(left).is_absolute());
        for right in paths {
            assert_eq!(
                paths_equal(left, right),
                std::path::Path::new(left) == std::path::Path::new(right),
                "{left} {right}"
            );
        }
    }
}

#[test]
fn text_maps_replace_and_remove() {
    let mut map: TextMap<u32> = TextMap::new();
    assert!(map.is_empty());
    map.insert("a".to_string(), 1);
    map.insert("b".to_string(), 2);
    map.insert("a".to_string(), 3);
    assert_eq!(map.get("a"), Some(&3));
    assert_eq!(map.get("b"), Some(&2));
    map.remove("a");
    assert_eq!(map.get("a"), None);
    assert!(map.contains_key("b"));
    map.remove("b");
    assert!(map.is_empty());
}

#[test]
fn existing_configs_get_safe_scheduler_defaults() {
    let value: Value = serde_json::from_str(
        r#"{
            "listen":"127.0.0.1",
            "port":8787,
            "stateDir":"/tmp/state",
            "workDir":"/tmp/work",
            "allowedHarnesses":["codex"],
            "allowedIssueAuthors":["trusted-user"]
        }"#,
    )
    .unwrap();
    let text = |name: &str| value.get(name).and_then(Value::as_str).unwrap().to_string();
    let texts = |name: &str| -> Vec<String> {
        let list = value.get(name).and_then(Value::as_array).unwrap();
        list.iter().map(|item| item.as_str().unwrap().to_string()).collect()
    };
    for name in ["maxConcurrentJobs", "cursorEffortModels", "autoRun", "cleanup"] {
        assert!(value.get(name).is_none());
    }
    let config = Config {
        listen: text("listen"),
        port: value.get("port").and_then(Value::as_u64).unwrap() as u16,
        state_dir: text("stateDir"),
        work_dir: text("workDir"),
        max_concurrent_jobs: default_max_concurrent_jobs(),
        allowed_harnesses: texts("allowedHarnesses"),
        allowed_issue_authors: texts("allowedIssueAuthors"),
        cursor_effort_models: CursorEffortModels::default(),
        auto_run: AutoRunConfig::default(),
        cleanup: CleanupConfig::default(),
    };
    assert!(config.validate().is_ok());
    assert_eq!(config.max_concurrent_jobs, 3);
    assert!(!config.cleanup.enabled);
    assert_eq!(config.cleanup.retention_days, 7);
}
