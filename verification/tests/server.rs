//! What requests are answered beside the board and its jobs.
use board_api::config::{AutoRunConfig, CleanupConfig, Config, CursorEffortModels};
use board_api::error::ApiError;
use board_api::model::{Card, VERSION};
use board_api::server::{
    health, host_name, invalid_json, invalid_query, positive_number, require_allowed_issue_author,
    require_comment_author, requested_page, server_response, server_url, startup, tailscale_dns,
    unknown_route, version_line, Startup,
};

fn config() -> Config {
    Config {
        listen: "0.0.0.0".to_string(),
        port: 8787,
        state_dir: "/tmp/state".to_string(),
        work_dir: "/tmp/work".to_string(),
        max_concurrent_jobs: 3,
        allowed_harnesses: vec!["codex".to_string()],
        allowed_issue_authors: vec!["trusted-user".to_string()],
        cursor_effort_models: CursorEffortModels::default(),
        auto_run: AutoRunConfig::default(),
        cleanup: CleanupConfig::default(),
    }
}

#[test]
fn issue_number_is_positive() {
    assert!(positive_number("1").is_ok());
    assert!(positive_number("0").is_err());
    assert!(positive_number("bad").is_err());
}

#[test]
fn job_author_policy_rejects_foreign_and_missing_authors() {
    let config = config();
    let card = |author: Option<&str>| Card {
        number: 1,
        author_login: author.map(str::to_string),
        title: "Test".to_string(),
        body: String::new(),
        column: Some("board:ready".to_string()),
        labels: vec!["board:ready".to_string()],
        url: "https://github.com/example/repo/issues/1".to_string(),
        created_at: "2026-08-22T00:00:00Z".to_string(),
        updated_at: "2026-08-22T00:00:00Z".to_string(),
    };

    assert!(require_allowed_issue_author(&config, &card(Some("TRUSTED-USER"))).is_ok());
    for author in [Some("someone-else"), None] {
        let error = require_allowed_issue_author(&config, &card(author)).unwrap_err();
        assert_eq!(error.status, 403);
        assert_eq!(error.code, "issue_author_not_allowed");
    }
}

#[test]
fn comments_are_posted_only_by_trusted_servers() {
    let config = config();
    assert!(require_comment_author(&config, Some("Trusted-User")).is_ok());
    let error = require_comment_author(&config, Some("other")).unwrap_err();
    assert_eq!((error.status, error.code), (403, "comment_author_not_allowed"));
    let error = require_comment_author(&config, None).unwrap_err();
    assert_eq!((error.status, error.code), (503, "gh_login_required"));
}

#[test]
fn errors_have_their_statuses() {
    assert_eq!(ApiError::bad_request("c", "m").status, 400);
    assert_eq!(ApiError::unauthorized().status, 401);
    assert_eq!(ApiError::forbidden("c", "m").status, 403);
    assert_eq!(ApiError::not_found("card").message, "card not found");
    assert_eq!(ApiError::conflict("c", "m").status, 409);
    assert_eq!(ApiError::internal("m".to_string()).status, 500);
    assert_eq!(ApiError::dependency("c", "m").status, 503);
    assert_eq!(invalid_json("x").code, "invalid_json");
    assert_eq!(invalid_query("x").code, "invalid_query");
    assert_eq!((unknown_route().status, unknown_route().code), (404, "not_found"));
    assert_eq!(requested_page(Some("2"), None).unwrap(), (2, 25));
    let error = requested_page(Some("0"), None).unwrap_err();
    assert_eq!(
        (error.status, error.code, error.message.as_str()),
        (400, "invalid_pagination", "page must be at least 1")
    );
}

#[test]
fn arguments_choose_what_the_program_does() {
    let arguments = |list: &[&str]| list.iter().map(|text| text.to_string()).collect::<Vec<_>>();
    assert_eq!(startup(&arguments(&["board-api"])), Startup::Serve);
    assert_eq!(startup(&arguments(&["board-api", "--version"])), Startup::Version);
    assert_eq!(startup(&arguments(&["board-api", "-V"])), Startup::Version);
    assert_eq!(startup(&arguments(&["board-api", "--help"])), Startup::Usage);
    assert_eq!(startup(&arguments(&["board-api", "-V", "x"])), Startup::Usage);
    assert_eq!(startup(&arguments(&[])), Startup::Usage);
    assert_eq!(version_line(), "board-api 0.2.0");
    assert!(health().ok);
    assert_eq!(health().version, VERSION);
}

#[test]
fn tailscale_names_lose_their_dots() {
    assert_eq!(
        tailscale_dns(r#"{"Self":{"DNSName":"board.tail.ts.net.."}}"#).as_deref(),
        Some("board.tail.ts.net")
    );
    assert_eq!(tailscale_dns(r#"{"Self":{"DNSName":"."}}"#), None);
    assert_eq!(tailscale_dns(r#"{"Self":{"DNSName":7}}"#), None);
    assert_eq!(tailscale_dns(r#"{"Self":{}}"#), None);
    assert_eq!(tailscale_dns("not json"), None);
    assert_eq!(host_name(Some("a.".to_string())), Some("a".to_string()));
    assert_eq!(host_name(None), None);
}

#[test]
fn servers_tell_where_they_are() {
    assert_eq!(server_url("10.0.0.1", 8787), "http://10.0.0.1:8787");
    let response = server_response(
        "id".to_string(),
        "0.0.0.0:8787".to_string(),
        8787,
        "10.0.0.1",
        Some("100.64.0.1"),
        None,
        vec!["codex".to_string()],
        Some("me".to_string()),
    );
    assert_eq!(response.name, "board");
    assert_eq!(response.server_id, "id");
    assert_eq!(response.version, "0.2.0");
    assert_eq!(response.listen, "0.0.0.0:8787");
    assert_eq!(response.lan_url, "http://10.0.0.1:8787");
    assert_eq!(response.tailscale_url.as_deref(), Some("http://100.64.0.1:8787"));
    assert_eq!(response.tailscale_dns, None);
    assert_eq!(response.harnesses, ["codex"]);
    assert_eq!(response.gh_login.as_deref(), Some("me"));
}
