//! Issues, cards, the board and its search.
use board_api::board::{
    merge_partial_cards, BoardSearchFailure, BoardSearchResult, BoardSnapshot, Github, ReadyCard,
    SearchOutcome, BOARD_SNAPSHOT_TTL,
};
use board_api::cards::{
    card_from_raw, card_page, create_comment_arguments, job_report, list_cards_arguments,
    list_comments, list_comments_arguments, move_card_arguments, parse_issue, parse_issues, parse_json_lines,
    parse_repo_stream, take_page, RawAuthor, RawIssue, RawLabel,
};
use board_api::error::ApiError;
use board_api::github::{
    create_card_arguments, created_issue_number, existing_pr_arguments, first_line_or,
    get_card_arguments, login_arguments, login_status_arguments, map_not_found, validate_card_args, validate_column_arg, validate_new_card, validate_repo_arg, GhOutcome,
};
use board_api::model::{Card, Comment, CreateCardRequest, Repo, BOARD_COLUMNS};
use board_api::search::{
    access_failure, board_search_query, parse_repo_access_stream, parse_search_issue_stream,
    repo_from_repository_url, BoardSearch, RawRepoAccess, RawSearchIssue,
};
use board_api::tasks::{ListStep, TaskReply, TaskStep};
use serde_json::Value;

fn text(value: &Value, name: &str) -> Result<String, String> {
    value
        .get(name)
        .and_then(Value::as_str)
        .map(str::to_string)
        .ok_or_else(|| format!("missing field `{name}`"))
}

fn document(line: &str) -> Result<Value, String> {
    serde_json::from_str::<Value>(line).map_err(|error| error.to_string())
}

fn decode_repo(line: &str) -> Result<Repo, String> {
    let value = document(line)?;
    Ok(Repo {
        name_with_owner: text(&value, "full_name")?,
        description: value.get("description").and_then(Value::as_str).map(str::to_string),
        url: text(&value, "html_url")?,
        is_private: value.get("private").and_then(Value::as_bool).ok_or("private")?,
    })
}

fn decode_access(line: &str) -> Result<RawRepoAccess, String> {
    let value = document(line)?;
    Ok(RawRepoAccess {
        name_with_owner: text(&value, "full_name")?,
        owner: text(&value, "owner")?,
        owner_type: text(&value, "owner_type")?,
        push: value.get("push").and_then(Value::as_bool).ok_or("push")?,
    })
}

fn decode_search_issue(line: &str) -> Result<RawSearchIssue, String> {
    let value = document(line)?;
    let labels = value.get("labels").and_then(Value::as_array).ok_or("labels")?;
    let mut names = Vec::new();
    for label in labels {
        names.push(RawLabel { name: text(label, "name")? });
    }
    Ok(RawSearchIssue {
        issue: RawIssue {
            number: value.get("number").and_then(Value::as_u64).ok_or("number")?,
            author: match value.get("author").and_then(|author| author.get("login")) {
                Some(login) => login.as_str().map(|login| RawAuthor { login: login.to_string() }),
                None => None,
            },
            title: text(&value, "title")?,
            body: value.get("body").and_then(Value::as_str).map(str::to_string),
            labels: names,
            url: text(&value, "url")?,
            created_at: text(&value, "createdAt")?,
            updated_at: text(&value, "updatedAt")?,
        },
        repository_url: text(&value, "repositoryUrl")?,
    })
}

fn card(number: u64, column: Option<&str>, updated_at: &str) -> Card {
    Card {
        number,
        author_login: Some("jusso-dev".to_string()),
        title: "Title".to_string(),
        body: "Body".to_string(),
        column: column.map(str::to_string),
        labels: column.iter().map(|label| label.to_string()).collect(),
        url: format!("https://github.com/o/r/issues/{number}"),
        created_at: "2026-08-22T00:00:00Z".to_string(),
        updated_at: updated_at.to_string(),
    }
}

fn searched_card(repo: &str, number: u64, title: &str) -> ReadyCard {
    ReadyCard {
        repo: repo.to_string(),
        card: Card {
            number,
            author_login: Some("jusso-dev".to_string()),
            title: title.to_string(),
            body: String::new(),
            column: Some("board:ready".to_string()),
            labels: vec!["board:ready".to_string()],
            url: format!("https://github.com/{repo}/issues/{number}"),
            created_at: "2026-08-22T00:00:00Z".to_string(),
            updated_at: "2026-08-22T01:00:00Z".to_string(),
        },
    }
}

fn raw_issue(number: u64, labels: &[&str]) -> RawIssue {
    RawIssue {
        number,
        author: None,
        title: "Found".to_string(),
        body: None,
        labels: labels.iter().map(|name| RawLabel { name: name.to_string() }).collect(),
        url: "https://example.invalid".to_string(),
        created_at: "c".to_string(),
        updated_at: "u".to_string(),
    }
}

fn found(repo: &str, number: u64) -> RawSearchIssue {
    RawSearchIssue {
        issue: raw_issue(number, &["board:ready"]),
        repository_url: format!("https://api.github.com/repos/{repo}"),
    }
}

fn access(name: &str, owner_type: &str, push: bool) -> RawRepoAccess {
    RawRepoAccess {
        name_with_owner: name.to_string(),
        owner: name.split('/').next().unwrap().to_string(),
        owner_type: owner_type.to_string(),
        push,
    }
}

fn snapshot(cards: Vec<ReadyCard>) -> BoardSnapshot {
    BoardSnapshot { cards, partial: false, unavailable_owners: Vec::new(), refreshed_at: 0 }
}

#[test]
fn parses_repositories_across_affiliations_and_pages() {
    let repos = parse_repo_stream(
        r#"{"full_name":"jusso-dev/board-api","description":"Personal repository","html_url":"https://github.com/jusso-dev/board-api","private":false}
{"full_name":"example-org/operations","description":null,"html_url":"https://github.com/example-org/operations","private":true}"#,
        decode_repo,
    )
    .unwrap();

    assert_eq!(repos.len(), 2);
    assert_eq!(repos[0].name_with_owner, "jusso-dev/board-api");
    assert_eq!(repos[1].name_with_owner, "example-org/operations");
    assert!(repos[1].is_private);
}

#[test]
fn parses_board_column_from_labels() {
    let card = card_from_raw(RawIssue {
        number: 7,
        author: Some(RawAuthor { login: "jusso-dev".to_string() }),
        title: "Test".to_string(),
        body: None,
        labels: vec![
            RawLabel { name: "bug".to_string() },
            RawLabel { name: "board:ready".to_string() },
        ],
        url: "https://example.invalid/7".to_string(),
        created_at: "2026-08-22T00:00:00Z".to_string(),
        updated_at: "2026-08-22T00:00:00Z".to_string(),
    });
    assert_eq!(card.column.as_deref(), Some("board:ready"));
    assert_eq!(card.author_login.as_deref(), Some("jusso-dev"));
}

#[test]
fn parses_push_access_used_to_scope_automation() {
    let repos = parse_repo_access_stream(
        r#"{"full_name":"example-org/app","owner":"example-org","owner_type":"Organization","push":true}
{"full_name":"outside/read-only","owner":"outside","owner_type":"Organization","push":false}"#,
        decode_access,
    )
    .unwrap();

    assert_eq!(repos.len(), 2);
    assert!(repos[0].push);
    assert!(!repos[1].push);
}

#[test]
fn parses_ready_issue_search_results() {
    let issues = parse_search_issue_stream(
        r#"{"number":9,"author":{"login":"jusso-dev"},"title":"Ship it","body":"Implement it","labels":[{"name":"board:ready"},{"name":"agent:grok"}],"url":"https://github.com/example-org/app/issues/9","createdAt":"2026-08-22T00:00:00Z","updatedAt":"2026-08-22T01:00:00Z","repositoryUrl":"https://api.github.com/repos/example-org/app"}"#,
        decode_search_issue,
    )
    .unwrap();

    assert_eq!(issues.len(), 1);
    assert_eq!(issues[0].issue.number, 9);
    assert_eq!(
        issues[0]
            .issue
            .author
            .as_ref()
            .map(|author| author.login.as_str()),
        Some("jusso-dev")
    );
    assert_eq!(
        repo_from_repository_url(&issues[0].repository_url).as_deref(),
        Some("example-org/app")
    );
}

#[test]
fn missing_issue_author_is_preserved_for_fail_closed_policy() {
    let mut issues = parse_search_issue_stream(
        r#"{"number":10,"author":null,"title":"Ghost author","body":null,"labels":[{"name":"board:ready"}],"url":"https://github.com/example-org/app/issues/10","createdAt":"2026-08-22T00:00:00Z","updatedAt":"2026-08-22T01:00:00Z","repositoryUrl":"https://api.github.com/repos/example-org/app"}"#,
        decode_search_issue,
    )
    .unwrap();

    let card = card_from_raw(issues.remove(0).issue);
    assert!(card.author_login.is_none());
}

#[test]
fn partial_refresh_keeps_only_cards_from_unavailable_owners() {
    let previous = vec![
        searched_card("offline-org/app", 1, "Retain me"),
        searched_card("online-org/app", 2, "Remove stale version"),
    ];
    let fresh = vec![searched_card("online-org/app", 3, "Fresh card")];

    let merged = merge_partial_cards(Some(&previous), fresh, &vec!["OFFLINE-ORG".to_string()]);

    assert_eq!(merged.len(), 2);
    assert!(merged
        .iter()
        .any(|entry| entry.repo == "offline-org/app" && entry.card.number == 1));
    assert!(merged
        .iter()
        .any(|entry| entry.repo == "online-org/app" && entry.card.number == 3));
    assert!(!merged.iter().any(|entry| entry.card.number == 2));
}

#[test]
fn merged_cards_are_not_repeated() {
    let previous = vec![
        searched_card("Org/App", 1, "old"),
        searched_card("org/app", 2, "kept"),
        searched_card("ORG/APP", 2, "again"),
        searched_card("no-slash", 3, "no owner"),
    ];
    let fresh = vec![searched_card("org/app", 1, "new")];
    let merged = merge_partial_cards(Some(&previous), fresh, &vec!["org".to_string()]);
    let titles: Vec<&str> = merged.iter().map(|entry| entry.card.title.as_str()).collect();
    assert_eq!(titles, ["new", "kept"]);
    assert_eq!(merge_partial_cards(None, Vec::new(), &Vec::new()).len(), 0);
}

#[test]
fn board_snapshot_freshness_expires_at_shared_cache_ttl() {
    let now = 500_000_000_000;
    let fresh = BoardSnapshot {
        cards: Vec::new(),
        partial: false,
        unavailable_owners: Vec::new(),
        refreshed_at: now,
    };
    assert!(fresh.is_fresh(now));

    let expired = BoardSnapshot { refreshed_at: now - BOARD_SNAPSHOT_TTL, ..fresh };
    assert!(!expired.is_fresh(now));
    assert!(expired.is_fresh(now - 1));
    assert!(expired.is_fresh(0));
}

#[test]
fn builds_one_or_label_search_for_every_board_column() {
    assert_eq!(
        board_search_query(&BOARD_COLUMNS, "org", "example-org"),
        "is:issue is:open label:\"board:backlog\",\"board:ready\",\"board:running\",\"board:review\",\"board:done\" org:example-org"
    );
}

#[test]
fn bad_lines_are_counted_without_blank_ones() {
    let error = parse_json_lines("1\n\n  \n2\nx\n3", "number", |line: &str| {
        line.parse::<u32>().map_err(|_| "not a number".to_string())
    })
    .unwrap_err();
    assert_eq!(error.status, 500);
    assert_eq!(error.message, "invalid number JSON on line 3: not a number");
    let numbers = parse_json_lines("1\r\n\n2\n", "number", |line: &str| {
        line.parse::<u32>().map_err(|_| "not a number".to_string())
    });
    assert_eq!(numbers.unwrap(), [1, 2]);
    let error = parse_repo_stream("{}", decode_repo).unwrap_err();
    assert_eq!(
        error.message,
        "invalid gh repository JSON on line 1: missing field `full_name`"
    );
    let error = parse_repo_access_stream("nothing", decode_access).unwrap_err();
    assert!(error.message.starts_with("invalid repository access JSON on line 1: "));
    let error = parse_search_issue_stream("[]", decode_search_issue).unwrap_err();
    assert!(error.message.starts_with("invalid GitHub search issue JSON on line 1: "));
}

#[test]
fn decoded_issues_become_cards() {
    let cards = parse_issues(Ok(vec![
        raw_issue(1, &["bug"]),
        raw_issue(2, &["board:done", "board:ready"]),
    ]))
    .unwrap();
    assert_eq!(cards[0].column, None);
    assert_eq!(cards[1].column.as_deref(), Some("board:done"));
    assert_eq!(cards[1].labels, ["board:done", "board:ready"]);
    assert_eq!(cards[0].body, "");
    assert_eq!(parse_issue(Ok(raw_issue(3, &[]))).unwrap().number, 3);
    let error = parse_issue(Err("eof".to_string())).unwrap_err();
    assert_eq!(error.message, "invalid gh issue JSON: eof");
    let error = parse_issues(Err("eof".to_string())).unwrap_err();
    assert_eq!(error.message, "invalid gh issue JSON: eof");
}

#[test]
fn pages_hold_what_was_asked_for() {
    let cards = || {
        vec![
            card(1, Some("board:ready"), "a"),
            card(2, None, "a"),
            card(3, Some("board:ready"), "a"),
            card(4, Some("board:ready"), "a"),
        ]
    };
    let page = card_page(cards(), Some("board:ready"), 1, 2);
    let numbers: Vec<u64> = page.items.iter().map(|card| card.number).collect();
    assert_eq!(numbers, [1, 3]);
    assert!(page.has_more);
    let page = card_page(cards(), Some("board:ready"), 2, 2);
    let numbers: Vec<u64> = page.items.iter().map(|card| card.number).collect();
    assert_eq!(numbers, [4]);
    assert!(!page.has_more);
    assert_eq!((page.page, page.per_page), (2, 2));
    let page = card_page(cards(), None, 3, 2);
    assert!(page.items.is_empty());
    assert_eq!(take_page(vec![1, 2, 3], 1, 1), [2]);
    assert!(take_page(vec![1, 2, 3], 9, 1).is_empty());
}

#[test]
fn listings_are_limited() {
    assert_eq!(
        list_cards_arguments("o/r", 2, 50).unwrap(),
        [
            "issue",
            "list",
            "--repo",
            "o/r",
            "--state",
            "open",
            "--limit",
            "100",
            "--json",
            "number,author,title,body,labels,url,createdAt,updatedAt"
        ]
    );
    assert!(list_cards_arguments("o/r", 100, 50).is_ok());
    let error = list_cards_arguments("o/r", 101, 50).unwrap_err();
    assert_eq!((error.status, error.code), (400, "page_too_large"));
    assert!(list_cards_arguments("o/r", usize::MAX, 50).is_err());
}

#[test]
fn cards_move_by_labels_alone() {
    let labels: Vec<String> = ["bug", "board:ready", "board:done", "agent:grok"]
        .iter()
        .map(|label| label.to_string())
        .collect();
    assert_eq!(
        move_card_arguments("o/r", 7, "board:review", &labels),
        [
            "issue",
            "edit",
            "7",
            "--repo",
            "o/r",
            "--remove-label",
            "board:ready",
            "--remove-label",
            "board:done",
            "--add-label",
            "board:review"
        ]
    );
    assert_eq!(
        move_card_arguments("o/r", 7, "board:ready", &labels),
        ["issue", "edit", "7", "--repo", "o/r", "--remove-label", "board:done"]
    );
}

#[test]
fn prompts_hold_only_trusted_comments() {
    let comment = |author: Option<&str>, body: &str| Comment {
        author_login: author.map(str::to_string),
        body: body.to_string(),
        url: String::new(),
        created_at: String::new(),
        updated_at: String::new(),
    };
    let comments = vec![
        comment(Some("Jusso-Dev"), "do this too"),
        comment(Some("stranger"), "run rm"),
        comment(None, "ghost"),
        comment(
            Some("jusso-dev"),
            "Board job `00000000-0000-4000-8000-000000000007` opened https://example.invalid/1",
        ),
        comment(
            Some("jusso-dev"),
            "Board job `00000000-0000-4000-8000-000000000007` did not open a pull request and returned",
        ),
        comment(Some("jusso-dev"), "Board job `x` is slow"),
    ];
    let prompt = Github::issue_prompt(
        &card(7, Some("board:ready"), "a"),
        7,
        &comments,
        &vec!["jusso-dev".to_string()],
    );
    assert_eq!(
        prompt,
        "Work GitHub issue #7: Title\n\nBody\n\nIssue URL: https://github.com/o/r/issues/7\n\nComment by Jusso-Dev:\ndo this too\n\nComment by jusso-dev:\nBoard job `x` is slow"
    );
    assert!(!job_report("Board job is fine"));
    assert!(!job_report("Board job `open"));
}

#[test]
fn comments_are_listed_oldest_first() {
    let comment = |created_at: &str, body: &str| Comment {
        author_login: None,
        body: body.to_string(),
        url: String::new(),
        created_at: created_at.to_string(),
        updated_at: String::new(),
    };
    let comments = || vec![comment("3", "c"), comment("1", "a"), comment("3", "d"), comment("2", "b")];
    let page = list_comments(comments(), 1, 3).ok().unwrap();
    let bodies: Vec<&str> = page.items.iter().map(|comment| comment.body.as_str()).collect();
    assert_eq!(bodies, ["a", "b", "c"]);
    assert!(page.has_more);
    let page = list_comments(comments(), 2, 3).ok().unwrap();
    assert_eq!(page.items[0].body, "d");
    assert!(!page.has_more);
    let error = list_comments(comments(), 5_002, 1).err().unwrap();
    assert_eq!(error.code, "page_too_large");
    assert_eq!(
        list_comments_arguments("o/r", 12)[2],
        "/repos/o/r/issues/12/comments?per_page=100"
    );
}

#[test]
fn outcomes_of_the_command_line() {
    let ok = GhOutcome::Exited {
        success: true,
        stdout: "out".to_string(),
        stderr: "warning".to_string(),
    };
    assert_eq!(Github::run_owned(ok).unwrap(), "out");
    let failed = GhOutcome::Exited {
        success: false,
        stdout: String::new(),
        stderr: "\n  token ghp_abc is bad \nmore".to_string(),
    };
    let error = Github::run_owned(failed).unwrap_err();
    assert_eq!(
        (error.status, error.code, error.message.as_str()),
        (502, "gh_failed", "token [redacted] is bad")
    );
    let silent = GhOutcome::Exited { success: false, stdout: String::new(), stderr: " ".to_string() };
    assert_eq!(
        Github::run_owned(silent).unwrap_err().message,
        "GitHub CLI command failed"
    );
    let error = Github::run_owned(GhOutcome::TimedOut).unwrap_err();
    assert_eq!((error.status, error.code), (503, "gh_timeout"));
    let error = Github::run_owned(GhOutcome::Unavailable("no file".to_string())).unwrap_err();
    assert_eq!(
        (error.code, error.message.as_str()),
        ("gh_unavailable", "cannot execute gh: no file")
    );
    assert_eq!(first_line_or(&"y".repeat(600), "z").len(), 500);
}

#[test]
fn logins_and_pull_requests_are_trimmed() {
    assert_eq!(Github::login(Ok(" me \n".to_string())), Some("me".to_string()));
    assert_eq!(Github::login(Ok("\n".to_string())), None);
    let failure = || ApiError::conflict("c", "m");
    assert_eq!(Github::login(Err(failure())), None);
    assert!(Github::require_login(Ok(String::new())).is_ok());
    let error = Github::require_login(Err(failure())).unwrap_err();
    assert_eq!((error.status, error.code), (503, "gh_login_required"));
    assert_eq!(Github::existing_pr("https://x/1\n"), Some("https://x/1".to_string()));
    assert_eq!(Github::existing_pr(" \n"), None);
}

#[test]
fn missing_issues_are_not_found() {
    let error = map_not_found("card", ApiError::conflict("c", "Could Not Found it: NOT FOUND"));
    assert_eq!((error.status, error.message.as_str()), (404, "card not found"));
    let error = map_not_found("card", ApiError::conflict("c", "other"));
    assert_eq!(error.status, 409);
}

#[test]
fn arguments_are_checked() {
    assert!(validate_repo_arg("o/r").is_ok());
    assert_eq!(validate_repo_arg("o").unwrap_err().code, "invalid_repo");
    assert!(validate_column_arg("board:done").is_ok());
    assert_eq!(validate_column_arg("done").unwrap_err().code, "invalid_column");
    assert!(validate_card_args("o/r", 1).is_ok());
    assert_eq!(validate_card_args("o/r", 0).unwrap_err().code, "invalid_issue");
    assert_eq!(validate_card_args("o", 0).unwrap_err().code, "invalid_repo");
}

#[test]
fn new_cards_are_checked() {
    let request = |title: &str, body: &str| CreateCardRequest {
        repo: "o/r".to_string(),
        title: title.to_string(),
        body: body.to_string(),
        column: "board:backlog".to_string(),
    };
    assert_eq!(validate_new_card(&request("  Title ", "")).unwrap(), "Title");
    assert_eq!(validate_new_card(&request(" ", "")).unwrap_err().code, "invalid_title");
    assert!(validate_new_card(&request(&"é".repeat(128), "")).is_ok());
    assert_eq!(
        validate_new_card(&request(&"é".repeat(129), "")).unwrap_err().code,
        "invalid_title"
    );
    assert!(validate_new_card(&request("t", &"b".repeat(65_536))).is_ok());
    assert_eq!(
        validate_new_card(&request("t", &"b".repeat(65_537))).unwrap_err().code,
        "body_too_large"
    );
    let mut wrong = request("t", "");
    wrong.column = "other".to_string();
    assert_eq!(validate_new_card(&wrong).unwrap_err().code, "invalid_column");
    wrong.repo = "o".to_string();
    assert_eq!(validate_new_card(&wrong).unwrap_err().code, "invalid_repo");
    assert_eq!(
        create_card_arguments("o/r", "t", "b", "board:backlog"),
        [
            "issue",
            "create",
            "--repo",
            "o/r",
            "--title",
            "t",
            "--body",
            "b",
            "--label",
            "board:backlog"
        ]
    );
}

#[test]
fn issue_numbers_come_from_addresses() {
    assert_eq!(created_issue_number("https://github.com/o/r/issues/12\n").unwrap(), 12);
    assert_eq!(created_issue_number("12").unwrap(), 12);
    let error = created_issue_number("https://github.com/o/r/issues/").unwrap_err();
    assert_eq!(error.message, "gh returned an issue URL without a number");
}

#[test]
fn commands_are_spelled_out() {
    assert_eq!(login_status_arguments(), ["auth", "status", "--hostname", "github.com"]);
    assert_eq!(login_arguments(), ["api", "user", "--jq", ".login"]);
    assert_eq!(Github::list_repos(Ok(String::new())).unwrap().len(), 5);
    let access = Github::list_repo_access(Ok(String::new())).unwrap();
    assert!(access[4].contains("permissions.push"));
    let failure = || Err(ApiError::conflict("c", "m"));
    assert_eq!(Github::list_repos(failure()).unwrap_err().code, "gh_login_required");
    assert_eq!(Github::list_repo_access(failure()).unwrap_err().code, "gh_login_required");
    assert_eq!(
        create_comment_arguments("o/r", 3, "a=b")[3..6],
        ["/repos/o/r/issues/3/comments", "-f", "body=a=b"]
    );
    assert_eq!(get_card_arguments("o/r", 3)[..5], ["issue", "view", "3", "--repo", "o/r"]);
    assert_eq!(
        Github::comment_issue("o/r", 3, "hi"),
        ["issue", "comment", "3", "--repo", "o/r", "--body", "hi"]
    );
    assert_eq!(existing_pr_arguments("o/r", "b")[11], ".[0].url // \"\"");
    let labels = Github::ensure_labels("o/r");
    assert_eq!(labels.len(), 8);
    assert_eq!(
        labels[1],
        ["label", "create", "board:ready", "--repo", "o/r", "--color", "1f883d", "--force"]
    );
    assert_eq!(labels[7][2], "agent:cursor");
    assert_eq!(labels[7][9], "--force");
}

#[test]
fn searches_ask_each_owner_once_in_order() {
    let mut search = BoardSearch::start(vec![
        access("zeta/app", "User", true),
        access("alpha/app", "Organization", true),
        access("alpha/other", "Organization", true),
        access("bots/app", "Bot", true),
        access("closed/app", "Organization", false),
    ]);
    let first = search.next_arguments().unwrap();
    assert!(first[6].ends_with(" org:alpha"));
    assert_eq!(first[4], "/search/issues");
    search.absorb(Ok(vec![
        found("ALPHA/App", 1),
        found("alpha/app", 1),
        found("alpha/unknown", 2),
        found("closed/app", 3),
        RawSearchIssue {
            issue: raw_issue(4, &[]),
            repository_url: "https://example.invalid/alpha/app".to_string(),
        },
    ]));
    let second = search.next_arguments().unwrap();
    assert!(second[6].ends_with(" user:zeta"));
    search.absorb(Err(ApiError::dependency("gh_timeout", "slow")));
    assert!(search.next_arguments().is_none());
    match search.finish() {
        SearchOutcome::Found(result) => {
            assert_eq!(result.cards.len(), 1);
            assert_eq!(result.cards[0].repo, "alpha/app");
            assert_eq!(result.cards[0].card.number, 1);
            assert_eq!(result.unavailable_owners, ["zeta"]);
        }
        SearchOutcome::Failed(_) => panic!("one owner answered"),
    }
}

#[test]
fn failed_owners_are_named_in_order() {
    let mut search = BoardSearch::start(vec![
        access("delta/app", "User", true),
        access("beta/app", "User", true),
        access("gamma/app", "User", true),
        access("alpha/app", "User", true),
    ]);
    for answered in [false, true, false, false] {
        search.absorb(if answered {
            Ok(vec![found("beta/app", 1)])
        } else {
            Err(ApiError::dependency("gh_timeout", "slow"))
        });
    }
    match search.finish() {
        SearchOutcome::Found(result) => {
            assert_eq!(result.unavailable_owners, ["alpha", "delta", "gamma"]);
            assert_eq!(result.cards.len(), 1);
        }
        SearchOutcome::Failed(_) => panic!("one owner answered"),
    }
}

#[test]
fn searches_fail_where_no_owner_answers() {
    let mut search = BoardSearch::start(vec![access("a/r", "User", true)]);
    search.absorb(Err(ApiError::dependency("gh_timeout", "slow")));
    match search.finish() {
        SearchOutcome::Failed(failure) => {
            assert_eq!(failure.error.code, "gh_timeout");
            assert_eq!(failure.unavailable_owners, ["a"]);
        }
        SearchOutcome::Found(_) => panic!("no owner answered"),
    }
    match BoardSearch::start(Vec::new()).finish() {
        SearchOutcome::Found(result) => assert!(result.cards.is_empty()),
        SearchOutcome::Failed(_) => panic!("there was nothing to ask"),
    }
    match access_failure(ApiError::conflict("c", "m")) {
        SearchOutcome::Failed(failure) => assert!(failure.unavailable_owners.is_empty()),
        SearchOutcome::Found(_) => panic!("the list was not read"),
    }
}

#[test]
fn snapshots_survive_failed_searches() {
    let failed = || {
        SearchOutcome::Failed(BoardSearchFailure {
            error: ApiError::dependency("gh_timeout", "slow"),
            unavailable_owners: vec!["a".to_string()],
        })
    };
    let mut github = Github::default();
    assert!(!github.has_fresh_snapshot(0));
    let error = github.refresh(failed(), 5).unwrap_err();
    assert_eq!(error.code, "gh_timeout");
    assert!(github.board_snapshot.is_none());

    let found = SearchOutcome::Found(BoardSearchResult {
        cards: vec![searched_card("a/r", 1, "one"), searched_card("b/r", 2, "two")],
        unavailable_owners: Vec::new(),
    });
    let first = github.refresh(found, 10).unwrap();
    assert!(!first.partial);
    assert!(github.has_fresh_snapshot(10 + BOARD_SNAPSHOT_TTL - 1));
    assert!(!github.has_fresh_snapshot(10 + BOARD_SNAPSHOT_TTL));

    let second = github.refresh(failed(), 20).unwrap();
    assert!(second.partial);
    assert_eq!(second.cards.len(), 2);
    assert_eq!(second.unavailable_owners, ["a"]);

    let some = SearchOutcome::Found(BoardSearchResult {
        cards: vec![searched_card("b/r", 3, "three")],
        unavailable_owners: vec!["A".to_string()],
    });
    let third = github.refresh(some, 30).unwrap();
    let numbers: Vec<u64> = third.cards.iter().map(|entry| entry.card.number).collect();
    assert_eq!(numbers, [3, 1]);
    assert!(third.partial);
}

#[test]
fn updated_cards_replace_their_old_selves() {
    let mut github = Github::default();
    github.upsert_snapshot_card("a/r", &card(1, None, "x"), 7);
    assert!(github.board_snapshot.is_none());
    github.board_snapshot =
        Some(snapshot(vec![searched_card("A/R", 1, "old"), searched_card("a/r", 2, "other")]));
    github.upsert_snapshot_card("a/r", &card(1, Some("board:done"), "x"), 7);
    let now = github.board_snapshot.as_ref().unwrap();
    assert_eq!(now.refreshed_at, 7);
    assert_eq!(now.cards.len(), 2);
    assert_eq!(now.cards[0].card.title, "other");
    assert_eq!(now.cards[1].card.column.as_deref(), Some("board:done"));
    assert_eq!(now.cards[1].repo, "a/r");
    let ready = Github::ready_cards(now);
    assert_eq!(ready.len(), 1);
    assert_eq!(ready[0].card.number, 2);
}

#[test]
fn overviews_show_the_newest_first() {
    let entry = |repo: &str, number: u64, updated_at: &str| ReadyCard {
        repo: repo.to_string(),
        card: card(number, Some("board:ready"), updated_at),
    };
    let cards = || {
        vec![
            entry("b/r", 2, "2026-01-01T00:00:00Z"),
            entry("a/r", 9, "2026-01-01T00:00:00Z"),
            entry("a/r", 3, "2026-01-01T00:00:00Z"),
            entry("c/r", 1, "2026-02-01T00:00:00Z"),
        ]
    };
    let page = Github::overview_cards(snapshot(cards()), 1, 3).ok().unwrap();
    let shown: Vec<(&str, u64)> =
        page.items.iter().map(|item| (item.repo.as_str(), item.card.number)).collect();
    assert_eq!(shown, [("c/r", 1), ("a/r", 3), ("a/r", 9)]);
    assert!(page.has_more);
    let page = Github::overview_cards(snapshot(cards()), 2, 3).ok().unwrap();
    assert_eq!(page.items[0].repo, "b/r");
    assert!(!page.has_more);
    assert!(!page.partial);
    let error = Github::overview_cards(snapshot(cards()), 5_002, 1).err().unwrap();
    assert_eq!((error.status, error.code), (400, "page_too_large"));
}

#[test]
fn pages_together_show_the_whole_board() {
    let cards = || {
        (1..8)
            .map(|number| ReadyCard {
                repo: "a/r".to_string(),
                card: card(number, None, if number % 2 == 0 { "new" } else { "later" }),
            })
            .collect::<Vec<_>>()
    };
    for per_page in 1..9 {
        let mut shown = Vec::new();
        let mut page = 1;
        loop {
            let part = Github::overview_cards(snapshot(cards()), page, per_page).ok().unwrap();
            shown.extend(part.items.iter().map(|item| item.card.number));
            if !part.has_more {
                break;
            }
            page += 1;
        }
        assert_eq!(shown, [2, 4, 6, 1, 3, 5, 7]);
    }
}

fn printed(text: &str) -> TaskReply {
    TaskReply::Printed(Ok(text.to_string()))
}

fn failed(message: &str) -> Result<String, ApiError> {
    Err(ApiError::new(502, "gh_failed", message.to_string()))
}

fn asked(step: &TaskStep) -> Vec<String> {
    match step {
        TaskStep::Run(arguments) | TaskStep::Show(arguments) => arguments.clone(),
        TaskStep::Finish(_) => panic!("the command line is to be asked"),
    }
}

fn refusal(step: TaskStep) -> ApiError {
    match step {
        TaskStep::Finish(Err(error)) => error,
        _ => panic!("the request is to be refused"),
    }
}

#[test]
fn cards_are_read_once_logged_in() {
    let (mut task, step) = Github::get_card("o/r", 7);
    assert_eq!(asked(&step), ["auth", "status", "--hostname", "github.com"]);
    let step = task.advance(printed("ok"));
    assert!(matches!(step, TaskStep::Show(_)));
    assert_eq!(asked(&step)[..3], ["issue", "view", "7"]);
    match task.advance(TaskReply::Issue(Ok(Ok(raw_issue(7, &["board:done"]))))) {
        TaskStep::Finish(Ok(card)) => assert_eq!(card.column.as_deref(), Some("board:done")),
        _ => panic!("the card was read"),
    }

    assert_eq!(refusal(Github::get_card("o", 7).1).code, "invalid_repo");
    assert_eq!(refusal(Github::get_card("o/r", 0).1).code, "invalid_issue");
    let (mut task, _) = Github::get_card("o/r", 7);
    let step = task.advance(TaskReply::Printed(failed("no")));
    assert_eq!(refusal(step).code, "gh_login_required");
    let (mut task, _) = Github::get_card("o/r", 7);
    task.advance(printed("ok"));
    let step = task.advance(TaskReply::Issue(Err(failed("Issue NOT FOUND").unwrap_err())));
    assert_eq!(refusal(step).message, "card not found");
    let (mut task, _) = Github::get_card("o/r", 7);
    task.advance(printed("ok"));
    let step = task.advance(TaskReply::Issue(Ok(Err("eof".to_string()))));
    assert_eq!(refusal(step).message, "invalid gh issue JSON: eof");
}

#[test]
fn cards_are_created_in_steps() {
    let request = CreateCardRequest {
        repo: "o/r".to_string(),
        title: " Title ".to_string(),
        body: "Body".to_string(),
        column: "board:ready".to_string(),
    };
    let (mut task, step) = Github::create_card(&request);
    assert_eq!(asked(&step)[0], "auth");
    let labels = Github::ensure_labels("o/r");
    let mut step = task.advance(printed("ok"));
    for label in &labels {
        assert_eq!(&asked(&step), label);
        step = task.advance(printed(""));
    }
    assert_eq!(
        asked(&step),
        [
            "issue",
            "create",
            "--repo",
            "o/r",
            "--title",
            "Title",
            "--body",
            "Body",
            "--label",
            "board:ready"
        ]
    );
    let step = task.advance(printed("https://github.com/o/r/issues/12\n"));
    assert_eq!(asked(&step)[0], "auth");
    let step = task.advance(printed("ok"));
    assert_eq!(asked(&step)[..3], ["issue", "view", "12"]);
    match task.advance(TaskReply::Issue(Ok(Ok(raw_issue(12, &["board:ready"]))))) {
        TaskStep::Finish(Ok(card)) => assert_eq!(card.number, 12),
        _ => panic!("the card was created"),
    }

    let mut wrong = request.clone();
    wrong.title = " ".to_string();
    assert_eq!(refusal(Github::create_card(&wrong).1).code, "invalid_title");
    let (mut task, _) = Github::create_card(&request);
    task.advance(printed("ok"));
    let step = task.advance(TaskReply::Printed(failed("no label")));
    assert_eq!(refusal(step).message, "no label");
    let (mut task, _) = Github::create_card(&request);
    for _ in 0..9 {
        task.advance(printed("ok"));
    }
    let step = task.advance(printed("created"));
    assert_eq!(refusal(step).message, "gh returned an issue URL without a number");
}

#[test]
fn cards_are_moved_in_steps() {
    let (mut task, step) = Github::move_card("o/r", 7, "board:review");
    assert_eq!(asked(&step)[0], "auth");
    for _ in 0..9 {
        task.advance(printed("ok"));
    }
    let step = task.advance(printed("ok"));
    assert_eq!(asked(&step)[..3], ["issue", "view", "7"]);
    let step = task.advance(TaskReply::Issue(Ok(Ok(raw_issue(7, &["bug", "board:ready"])))));
    assert_eq!(
        asked(&step),
        [
            "issue",
            "edit",
            "7",
            "--repo",
            "o/r",
            "--remove-label",
            "board:ready",
            "--add-label",
            "board:review"
        ]
    );
    let step = task.advance(printed(""));
    assert_eq!(asked(&step)[0], "auth");
    let step = task.advance(printed("ok"));
    assert_eq!(asked(&step)[..3], ["issue", "view", "7"]);
    match task.advance(TaskReply::Issue(Ok(Ok(raw_issue(7, &["bug", "board:review"]))))) {
        TaskStep::Finish(Ok(card)) => assert_eq!(card.column.as_deref(), Some("board:review")),
        _ => panic!("the card was moved"),
    }

    assert_eq!(refusal(Github::move_card("o", 7, "board:done").1).code, "invalid_repo");
    assert_eq!(refusal(Github::move_card("o/r", 7, "done").1).code, "invalid_column");
    let (mut task, step) = Github::move_card("o/r", 0, "board:done");
    assert_eq!(asked(&step)[0], "auth");
    for _ in 0..8 {
        task.advance(printed("ok"));
    }
    assert_eq!(refusal(task.advance(printed("ok"))).code, "invalid_issue");
}

#[test]
fn cards_are_listed_in_steps() {
    let (mut task, step) = Github::list_cards("o/r", Some("board:ready"), 1, 1);
    assert!(matches!(step, ListStep::Run(_)));
    match task.signed_in(Ok(String::new())) {
        ListStep::Show(arguments) => assert_eq!(arguments[7], "1"),
        _ => panic!("the issues are to be listed"),
    }
    let page = task
        .listed(Ok(Ok(vec![
            raw_issue(1, &["bug"]),
            raw_issue(2, &["board:ready"]),
            raw_issue(3, &["board:ready"]),
        ])))
        .ok()
        .unwrap();
    assert_eq!(page.items.len(), 1);
    assert_eq!(page.items[0].number, 2);
    assert!(page.has_more);

    let refused = |step: ListStep| match step {
        ListStep::Finish(Err(error)) => error.code,
        _ => panic!("the request is to be refused"),
    };
    assert_eq!(refused(Github::list_cards("o", None, 1, 1).1), "invalid_repo");
    assert_eq!(refused(Github::list_cards("o/r", Some("x"), 1, 1).1), "invalid_column");
    let (mut task, _) = Github::list_cards("o/r", None, 5_001, 1);
    assert_eq!(refused(task.signed_in(Ok(String::new()))), "page_too_large");
    let (mut task, _) = Github::list_cards("o/r", None, 5_001, 1);
    assert_eq!(refused(task.signed_in(failed("no"))), "gh_login_required");
    let (mut task, _) = Github::list_cards("o/r", None, 1, 1);
    task.signed_in(Ok(String::new()));
    let error = task.listed(Ok(Err("eof".to_string()))).err().unwrap();
    assert_eq!(error.message, "invalid gh issue JSON: eof");
}
