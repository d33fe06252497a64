//! What is asked of the GitHub command line, and what its answers mean.
use crate::board::Github;
use crate::error::{error_of, fault, missing, ApiError, ErrorView};
use crate::model::{is_column, is_repo, valid_column, validate_repo, CreateCardRequest};
use crate::text::{
    after_last, byte_len, contains_text, decimal, decimal_of, last_part, lines, lines_of, lower,
    lowered, maybe_text, occurs, parse_u64, spelled_number, string_of, strings, texts, trim,
    trimmed, utf8_len,
};
use crate::util::{scrub, scrub_log_line};
use vstd::prelude::*;
use vstd::slice::slice_subrange;

verus! {

// ---------------------------------------------------------------------------------------------
// Running the command
// ---------------------------------------------------------------------------------------------

/// How a run of the GitHub command line ended.
pub enum GhOutcome {
    /// It did not end in time.
    TimedOut,
    /// It could not be started.
    Unavailable(String),
    /// It ended by itself.
    Exited { success: bool, stdout: String, stderr: String },
}

/// The first line with anything but white space, trimmed.
pub open spec fn first_filled(lines: Seq<Seq<char>>) -> Option<Seq<char>>
    decreases lines.len(),
{
    if lines.len() == 0 {
        None
    } else if trim(lines[0]).len() > 0 {
        Some(trim(lines[0]))
    } else {
        first_filled(lines.skip(1))
    }
}

/// At most the first 500 characters of a text.
pub open spec fn headline(text: Seq<char>) -> Seq<char> {
    if text.len() <= 500 {
        text
    } else {
        text.take(500)
    }
}

/// The first line that says something, or the fallback; at most 500 characters of it.
pub open spec fn first_line(text: Seq<char>, fallback: Seq<char>) -> Seq<char> {
    headline(
        match first_filled(lines(text)) {
            Some(line) => line,
            None => fallback,
        },
    )
}

fn clip_headline(text: &str) -> (clip: String)
    ensures
        clip@ == headline(text@),
{
    let chars = crate::text::chars_of(text);
    let len: usize = if chars.len() <= 500 {
        chars.len()
    } else {
        500
    };
    let clip = string_of(slice_subrange(chars.as_slice(), 0, len));
    assert(clip@ == headline(text@));
    clip
}

/// The first line that says something, or the fallback; at most 500 characters of it.
pub fn first_line_or(text: &str, fallback: &str) -> (line: String)
    ensures
        line@ == first_line(text@, fallback@),
{
    let all = lines_of(text);
    let ghost views = texts(all@);
    let mut i: usize = 0;
    assert(views.skip(0) == views);
    while i < all.len()
        invariant
            views == texts(all@),
            views == lines(text@),
            i <= all@.len(),
            first_filled(views) == first_filled(views.skip(i as int)),
        decreases all@.len() - i,
    {
        assert(views.skip(i as int)[0] == all@[i as int]@);
        assert(views.skip(i as int).skip(1) == views.skip(i + 1));
        let line = trimmed(all[i].as_str());
        if !line.as_str().is_empty() {
            return clip_headline(line.as_str());
        }
        i += 1;
    }
    clip_headline(fallback)
}

/// What a run of the command line comes to: its output, or an error.
pub open spec fn run_result(outcome: GhOutcome) -> Result<Seq<char>, ErrorView> {
    match outcome {
        GhOutcome::TimedOut => Err(error_of(503, "gh_timeout"@, "GitHub CLI timed out"@)),
        GhOutcome::Unavailable(reason) => Err(
            error_of(503, "gh_unavailable"@, "cannot execute gh: "@ + reason@),
        ),
        GhOutcome::Exited { success, stdout, stderr } => if success {
            Ok(stdout@)
        } else {
            Err(
                error_of(
                    502,
                    "gh_failed"@,
                    first_line(scrub(stderr@), "GitHub CLI command failed"@),
                ),
            )
        },
    }
}

/// A text or an error as values.
pub open spec fn text_result(result: Result<String, ApiError>) -> Result<Seq<char>, ErrorView> {
    match result {
        Ok(text) => Ok(text@),
        Err(error) => Err(error@),
    }
}

/// A text without the white space around it, unless nothing is left.
pub open spec fn filled(text: Seq<char>) -> Option<Seq<char>> {
    if trim(text).len() > 0 {
        Some(trim(text))
    } else {
        None
    }
}

/// A text without the white space around it, unless nothing is left.
fn filled_of(text: &str) -> (result: Option<String>)
    ensures
        maybe_text(result) == filled(text@),
{
    let value = trimmed(text);
    if value.as_str().is_empty() {
        None
    } else {
        Some(value)
    }
}

/// What is said where the command line is not logged in.
pub open spec fn not_logged_in() -> ErrorView {
    error_of(
        503,
        "gh_login_required"@,
        "GitHub CLI is not authenticated; run `gh auth login` as board"@,
    )
}

impl Github {
    /// What a run of the command line comes to. The message of a failed run holds no secret.
    pub fn run_owned(outcome: GhOutcome) -> (result: Result<String, ApiError>)
        ensures
            text_result(result) == run_result(outcome),
    {
        match outcome {
            GhOutcome::TimedOut => Err(ApiError::dependency("gh_timeout", "GitHub CLI timed out")),
            GhOutcome::Unavailable(reason) => Err(
                ApiError::dependency(
                    "gh_unavailable",
                    "cannot execute gh: ".to_owned().concat(reason.as_str()).as_str(),
                ),
            ),
            GhOutcome::Exited { success, stdout, stderr } => if success {
                Ok(stdout)
            } else {
                let message = scrub_log_line(stderr.as_str());
                Err(
                    ApiError::new(
                        502,
                        "gh_failed",
                        first_line_or(message.as_str(), "GitHub CLI command failed"),
                    ),
                )
            },
        }
    }

    /// Whether the command line is logged in, by what its status command came to.
    pub fn require_login(status: Result<String, ApiError>) -> (result: Result<(), ApiError>)
        ensures
            match result {
                Ok(()) => status is Ok,
                Err(error) => status is Err && error@ == not_logged_in(),
            },
    {
        match status {
            Ok(_) => Ok(()),
            Err(_) => Err(
                ApiError::dependency(
                    "gh_login_required",
                    "GitHub CLI is not authenticated; run `gh auth login` as board",
                ),
            ),
        }
    }

    /// The login that the command line printed.
    pub fn login(output: Result<String, ApiError>) -> (login: Option<String>)
        ensures
            maybe_text(login) == match output {
                Ok(output) => filled(output@),
                Err(_) => None,
            },
    {
        match output {
            Ok(output) => filled_of(output.as_str()),
            Err(_) => None,
        }
    }

    /// The pull request that the command line found.
    pub fn existing_pr(output: &str) -> (url: Option<String>)
        ensures
            maybe_text(url) == filled(output@),
    {
        filled_of(output)
    }
}

/// An error that says that something was not found is answered as such.
pub open spec fn not_found_error(error: ErrorView, resource: Seq<char>) -> ErrorView {
    if occurs(lower(error.message), "not found"@) {
        missing(resource)
    } else {
        error
    }
}

/// Turns the command line's "not found" into an answer of its own.
pub fn map_not_found(resource: &str, error: ApiError) -> (mapped: ApiError)
    ensures
        mapped@ == not_found_error(error@, resource@),
{
    if contains_text(lowered(error.message.as_str()).as_str(), "not found") {
        ApiError::not_found(resource)
    } else {
        error
    }
}

// ---------------------------------------------------------------------------------------------
// Checking arguments
// ---------------------------------------------------------------------------------------------

/// What is said of a repository name that is none.
pub open spec fn bad_repo() -> ErrorView {
    error_of(400, "invalid_repo"@, "repo must be owner/name"@)
}

/// What is said of a column that is none.
pub open spec fn bad_column() -> ErrorView {
    error_of(400, "invalid_column"@, "column must be one of the five board:* labels"@)
}

/// What is said of issue number zero.
pub open spec fn bad_issue() -> ErrorView {
    error_of(400, "invalid_issue"@, "issue number must be greater than zero"@)
}

/// What is said of a page beyond what can be asked for.
pub open spec fn bad_page() -> ErrorView {
    error_of(400, "page_too_large"@, "requested page is too large"@)
}

pub fn validate_repo_arg(repo: &str) -> (result: Result<(), ApiError>)
    ensures
        match result {
            Ok(()) => is_repo(repo@),
            Err(error) => !is_repo(repo@) && error@ == bad_repo(),
        },
{
    if validate_repo(repo) {
        Ok(())
    } else {
        Err(ApiError::bad_request("invalid_repo", "repo must be owner/name"))
    }
}

pub fn validate_column_arg(column: &str) -> (result: Result<(), ApiError>)
    ensures
        match result {
            Ok(()) => is_column(column@),
            Err(error) => !is_column(column@) && error@ == bad_column(),
        },
{
    if valid_column(column) {
        Ok(())
    } else {
        Err(
            ApiError::bad_request(
                "invalid_column",
                "column must be one of the five board:* labels",
            ),
        )
    }
}

/// What is wrong with the arguments of a request for one card.
pub open spec fn card_problem(repo: Seq<char>, number: u64) -> Option<ErrorView> {
    if !is_repo(repo) {
        Some(bad_repo())
    } else if number == 0 {
        Some(bad_issue())
    } else {
        None
    }
}

/// Checks the arguments of a request for one card.
pub fn validate_card_args(repo: &str, number: u64) -> (result: Result<(), ApiError>)
    ensures
        match result {
            Ok(()) => card_problem(repo@, number) is None,
            Err(error) => card_problem(repo@, number) == Some(error@),
        },
{
    if let Err(error) = validate_repo_arg(repo) {
        return Err(error);
    }
    if number == 0 {
        return Err(
            ApiError::bad_request("invalid_issue", "issue number must be greater than zero"),
        );
    }
    Ok(())
}

/// What is wrong with a request for a new card.
pub open spec fn new_card_problem(request: CreateCardRequest) -> Option<ErrorView> {
    let title = trim(request.title@);
    if !is_repo(request.repo@) {
        Some(bad_repo())
    } else if !is_column(request.column@) {
        Some(bad_column())
    } else if title.len() == 0 || utf8_len(title) > 256 {
        Some(error_of(400, "invalid_title"@, "title must contain 1 to 256 bytes"@))
    } else if utf8_len(request.body@) > 65_536 {
        Some(error_of(400, "body_too_large"@, "body must not exceed 65536 bytes"@))
    } else {
        None
    }
}

/// Checks a request for a new card, and gives its title without the white space around it.
pub fn validate_new_card(request: &CreateCardRequest) -> (result: Result<String, ApiError>)
    ensures
        match result {
            Ok(title) => new_card_problem(*request) is None && title@ == trim(request.title@),
            Err(error) => new_card_problem(*request) == Some(error@),
        },
{
    if let Err(error) = validate_repo_arg(request.repo.as_str()) {
        return Err(error);
    }
    if let Err(error) = validate_column_arg(request.column.as_str()) {
        return Err(error);
    }
    let title = trimmed(request.title.as_str());
    if title.as_str().is_empty() || byte_len(title.as_str()) > 256 {
        return Err(ApiError::bad_request("invalid_title", "title must contain 1 to 256 bytes"));
    }
    if byte_len(request.body.as_str()) > 65_536 {
        return Err(ApiError::bad_request("body_too_large", "body must not exceed 65536 bytes"));
    }
    Ok(title)
}

// ---------------------------------------------------------------------------------------------
// Arguments of the command line
// ---------------------------------------------------------------------------------------------

/// The fields of an issue that the service reads.
pub const ISSUE_FIELDS: &'static str = "number,author,title,body,labels,url,createdAt,updatedAt";

/// Every repository of the signed-in user: owned, collaborated on, or of an organisation.
pub const USER_REPOS: &'static str = "/user/repos?per_page=100&affiliation=owner%2Ccollaborator%2Corganization_member&sort=full_name&direction=asc";

/// The arguments that tell whether the command line is logged in.
pub open spec fn status_arguments() -> Seq<Seq<char>> {
    seq!["auth"@, "status"@, "--hostname"@, "github.com"@]
}

pub fn login_status_arguments() -> (arguments: Vec<String>)
    ensures
        texts(arguments@) == status_arguments(),
{
    strings(vec!["auth", "status", "--hostname", "github.com"])
}

pub fn login_arguments() -> (arguments: Vec<String>)
    ensures
        texts(arguments@) == seq!["api"@, "user"@, "--jq"@, ".login"@],
{
    strings(vec!["api", "user", "--jq", ".login"])
}

/// The arguments that list every repository of the signed-in user.
pub open spec fn repos_arguments() -> Seq<Seq<char>> {
    seq![
        "api"@,
        "--paginate"@,
        USER_REPOS@,
        "--jq"@,
        ".[] | {full_name, description, html_url, private}"@,
    ]
}

/// The arguments that list them with their owners, and with whether they can be pushed to.
pub open spec fn access_arguments() -> Seq<Seq<char>> {
    seq![
        "api"@,
        "--paginate"@,
        USER_REPOS@,
        "--jq"@,
        ".[] | {full_name, owner: .owner.login, owner_type: .owner.type, push: (.permissions.push // false)}"@,
    ]
}

/// Arguments that are handed out only where the command line is logged in.
pub open spec fn once_logged_in(
    status: Result<String, ApiError>,
    arguments: Seq<Seq<char>>,
    result: Result<Vec<String>, ApiError>,
) -> bool {
    match status {
        Ok(_) => result is Ok && texts(result->Ok_0@) == arguments,
        Err(_) => result is Err && result->Err_0@ == not_logged_in(),
    }
}

/// The arguments that print an issue.
pub open spec fn view_arguments(repo: Seq<char>, number: nat) -> Seq<Seq<char>> {
    seq!["issue"@, "view"@, decimal(number), "--repo"@, repo, "--json"@, ISSUE_FIELDS@]
}

pub fn get_card_arguments(repo: &str, number: u64) -> (arguments: Vec<String>)
    ensures
        texts(arguments@) == view_arguments(repo@, number as nat),
{
    let number = decimal_of(number);
    strings(vec!["issue", "view", number.as_str(), "--repo", repo, "--json", ISSUE_FIELDS])
}

/// The arguments that create an issue.
pub open spec fn create_arguments(
    repo: Seq<char>,
    title: Seq<char>,
    body: Seq<char>,
    column: Seq<char>,
) -> Seq<Seq<char>> {
    seq![
        "issue"@,
        "create"@,
        "--repo"@,
        repo,
        "--title"@,
        title,
        "--body"@,
        body,
        "--label"@,
        column,
    ]
}

pub fn create_card_arguments(repo: &str, title: &str, body: &str, column: &str) -> (arguments: Vec<
    String,
>)
    ensures
        texts(arguments@) == create_arguments(repo@, title@, body@, column@),
{
    strings(
        vec![
            "issue",
            "create",
            "--repo",
            repo,
            "--title",
            title,
            "--body",
            body,
            "--label",
            column,
        ],
    )
}

/// The number at the end of an issue's address.
pub open spec fn issue_number(url: Seq<char>) -> Option<nat> {
    spelled_number(after_last(trim(url), '/'), u64::MAX as nat)
}

/// What is said of an address without a number.
pub open spec fn bad_address() -> ErrorView {
    fault("gh returned an issue URL without a number"@)
}

/// The number of the issue that the command line printed the address of.
pub fn created_issue_number(url: &str) -> (result: Result<u64, ApiError>)
    ensures
        match result {
            Ok(number) => issue_number(url@) == Some(number as nat),
            Err(error) => issue_number(url@) is None && error@ == bad_address(),
        },
{
    match parse_u64(last_part(trimmed(url).as_str(), '/').as_str()) {
        Some(number) => Ok(number),
        None => Err(ApiError::internal("gh returned an issue URL without a number".to_owned())),
    }
}

pub fn existing_pr_arguments(repo: &str, branch: &str) -> (arguments: Vec<String>)
    ensures
        texts(arguments@) == seq![
            "pr"@,
            "list"@,
            "--repo"@,
            repo@,
            "--head"@,
            branch@,
            "--state"@,
            "open"@,
            "--json"@,
            "url"@,
            "--jq"@,
            ".[0].url // \"\""@,
        ],
{
    strings(
        vec![
            "pr",
            "list",
            "--repo",
            repo,
            "--head",
            branch,
            "--state",
            "open",
            "--json",
            "url",
            "--jq",
            ".[0].url // \"\"",
        ],
    )
}

/// The arguments that create or update one label.
pub open spec fn label_arguments(label: Seq<char>, repo: Seq<char>, color: Seq<char>) -> Seq<
    Seq<char>,
> {
    seq!["label"@, "create"@, label, "--repo"@, repo, "--color"@, color, "--force"@]
}

/// The arguments that create or update one label that chooses an agent.
pub open spec fn agent_label_arguments(label: Seq<char>, repo: Seq<char>, color: Seq<char>) -> Seq<
    Seq<char>,
> {
    seq![
        "label"@,
        "create"@,
        label,
        "--repo"@,
        repo,
        "--color"@,
        color,
        "--description"@,
        "Select the board-api coding harness for board:ready issues"@,
        "--force"@,
    ]
}

fn column_label(label: &str, repo: &str, color: &str) -> (arguments: Vec<String>)
    ensures
        texts(arguments@) == label_arguments(label@, repo@, color@),
{
    strings(vec!["label", "create", label, "--repo", repo, "--color", color, "--force"])
}

fn agent_label(label: &str, repo: &str, color: &str) -> (arguments: Vec<String>)
    ensures
        texts(arguments@) == agent_label_arguments(label@, repo@, color@),
{
    strings(
        vec![
            "label",
            "create",
            label,
            "--repo",
            repo,
            "--color",
            color,
            "--description",
            "Select the board-api coding harness for board:ready issues",
            "--force",
        ],
    )
}

/// The contents of a list of lists of strings.
pub open spec fn nested_texts(lists: Seq<Vec<String>>) -> Seq<Seq<Seq<char>>> {
    lists.map_values(|list: Vec<String>| texts(list@))
}

/// The commands that give a repository the labels of the board and of the agents.
pub open spec fn label_commands(repo: Seq<char>) -> Seq<Seq<Seq<char>>> {
    seq![
        label_arguments("board:backlog"@, repo, "6e7781"@),
        label_arguments("board:ready"@, repo, "1f883d"@),
        label_arguments("board:running"@, repo, "bf8700"@),
        label_arguments("board:review"@, repo, "8250df"@),
        label_arguments("board:done"@, repo, "0969da"@),
        agent_label_arguments("agent:grok"@, repo, "0f1419"@),
        agent_label_arguments("agent:codex"@, repo, "10a37f"@),
        agent_label_arguments("agent:cursor"@, repo, "6f42c1"@),
    ]
}

impl Github {
    /// The arguments that list every repository of the signed-in user, by whether the command line
    /// is logged in.
    pub fn list_repos(status: Result<String, ApiError>) -> (result: Result<Vec<String>, ApiError>)
        ensures
            once_logged_in(status, repos_arguments(), result),
    {
        match Github::require_login(status) {
            Err(error) => Err(error),
            Ok(()) => {
                let arguments = strings(
                    vec![
                        "api",
                        "--paginate",
                        USER_REPOS,
                        "--jq",
                        ".[] | {full_name, description, html_url, private}",
                    ],
                );
                assert(texts(arguments@) == repos_arguments());
                Ok(arguments)
            },
        }
    }

    /// The arguments that list them with their owners, and with whether they can be pushed to.
    pub fn list_repo_access(status: Result<String, ApiError>) -> (result: Result<
        Vec<String>,
        ApiError,
    >)
        ensures
            once_logged_in(status, access_arguments(), result),
    {
        match Github::require_login(status) {
            Err(error) => Err(error),
            Ok(()) => {
                let arguments = strings(
                    vec![
                        "api",
                        "--paginate",
                        USER_REPOS,
                        "--jq",
                        ".[] | {full_name, owner: .owner.login, owner_type: .owner.type, push: (.permissions.push // false)}",
                    ],
                );
                assert(texts(arguments@) == access_arguments());
                Ok(arguments)
            },
        }
    }

    /// The arguments that comment on an issue.
    pub fn comment_issue(repo: &str, number: u64, body: &str) -> (arguments: Vec<String>)
        ensures
            texts(arguments@) == seq![
                "issue"@,
                "comment"@,
                decimal(number as nat),
                "--repo"@,
                repo@,
                "--body"@,
                body@,
            ],
    {
        let number = decimal_of(number);
        strings(vec!["issue", "comment", number.as_str(), "--repo", repo, "--body", body])
    }

    /// The commands that give a repository the labels of the board and of the agents.
    pub fn ensure_labels(repo: &str) -> (commands: Vec<Vec<String>>)
        ensures
            nested_texts(commands@) == label_commands(repo@),
    {
        vec![
            column_label("board:backlog", repo, "6e7781"),
            column_label("board:ready", repo, "1f883d"),
            column_label("board:running", repo, "bf8700"),
            column_label("board:review", repo, "8250df"),
            column_label("board:done", repo, "0969da"),
            agent_label("agent:grok", repo, "0f1419"),
            agent_label("agent:codex", repo, "10a37f"),
            agent_label("agent:cursor", repo, "6f42c1"),
        ]
    }
}

// ---------------------------------------------------------------------------------------------
// Laws
// ---------------------------------------------------------------------------------------------

/// Some argument is followed by a value.
pub open spec fn passes(arguments: Seq<Seq<char>>, option: Seq<char>, value: Seq<char>) -> bool {
    exists|k: int|
        0 <= k && k + 1 < arguments.len() && #[trigger] arguments[k] == option && arguments[k + 1]
            == value
}

/// A run that succeeds comes to exactly what it printed; one that does not comes to an error: 502
/// with the first thing that it said, 503 where it could not be run or did not end.
pub proof fn runs_come_to_what_they_printed(outcome: GhOutcome)
    ensures
        match outcome {
            GhOutcome::TimedOut => run_result(outcome) matches Err(error) && error.status == 503
                && error.code == "gh_timeout"@,
            GhOutcome::Unavailable(reason) => run_result(outcome) matches Err(error)
                && error.status == 503 && error.code == "gh_unavailable"@ && error.message
                == "cannot execute gh: "@ + reason@,
            GhOutcome::Exited { success, stdout, stderr } => if success {
                run_result(outcome) matches Ok(output) && output == stdout@
            } else {
                run_result(outcome) matches Err(error) && error.status == 502 && error.code
                    == "gh_failed"@ && error.message == first_line(
                    scrub(stderr@),
                    "GitHub CLI command failed"@,
                )
            },
        },
{
}

proof fn lemma_first_filled(lines: Seq<Seq<char>>)
    ensures
        match first_filled(lines) {
            Some(line) => exists|i: int|
                0 <= i < lines.len() && trim(#[trigger] lines[i]) == line && line.len() > 0
                    && forall|k: int| 0 <= k < i ==> trim(#[trigger] lines[k]).len() == 0,
            None => forall|k: int| 0 <= k < lines.len() ==> trim(#[trigger] lines[k]).len() == 0,
        },
    decreases lines.len(),
{
    if lines.len() > 0 {
        if trim(lines[0]).len() > 0 {
            assert(trim(lines[0]) == first_filled(lines)->0);
        } else {
            let rest = lines.skip(1);
            lemma_first_filled(rest);
            if let Some(line) = first_filled(rest) {
                let i = choose|i: int|
                    0 <= i < rest.len() && trim(#[trigger] rest[i]) == line && line.len() > 0
                        && forall|k: int| 0 <= k < i ==> trim(#[trigger] rest[k]).len() == 0;
                assert(lines[i + 1] == rest[i]);
                assert forall|k: int| 0 <= k < i + 1 implies trim(#[trigger] lines[k]).len() == 0 by {
                    if k > 0 {
                        assert(rest[k - 1] == lines[k]);
                    }
                }
            } else {
                assert forall|k: int| 0 <= k < lines.len() implies trim(#[trigger] lines[k]).len()
                    == 0 by {
                    if k > 0 {
                        assert(rest[k - 1] == lines[k]);
                    }
                }
            }
        }
    }
}

/// The first thing that is said is the first line that is not blank, without the white space around
/// it and with at most 500 characters; where all lines are blank it is the fallback.
pub proof fn the_first_line_that_says_something_is_told(text: Seq<char>, fallback: Seq<char>)
    ensures
        first_line(text, fallback).len() <= 500,
        (forall|k: int| 0 <= k < lines(text).len() ==> trim(#[trigger] lines(text)[k]).len() == 0)
            && fallback.len() <= 500 ==> first_line(text, fallback) == fallback,
        forall|i: int|
            0 <= i < lines(text).len() && 0 < trim(#[trigger] lines(text)[i]).len() <= 500 && (
            forall|k: int| 0 <= k < i ==> trim(#[trigger] lines(text)[k]).len() == 0)
                ==> first_line(text, fallback) == trim(lines(text)[i]),
        forall|i: int|
            0 <= i < lines(text).len() && 500 < trim(#[trigger] lines(text)[i]).len() && (
            forall|k: int| 0 <= k < i ==> trim(#[trigger] lines(text)[k]).len() == 0)
                ==> first_line(text, fallback) == trim(lines(text)[i]).take(500),
{
    let all = lines(text);
    lemma_first_filled(all);
    if let Some(line) = first_filled(all) {
        let at = choose|i: int|
            0 <= i < all.len() && trim(#[trigger] all[i]) == line && line.len() > 0 && forall|k: int|
                0 <= k < i ==> trim(#[trigger] all[k]).len() == 0;
        assert forall|i: int|
            0 <= i < all.len() && 0 < trim(#[trigger] all[i]).len() && (forall|k: int|
                0 <= k < i ==> trim(#[trigger] all[k]).len() == 0) implies i == at by {
            if i < at {
                assert(trim(all[i]).len() == 0);
            }
            if at < i {
                assert(trim(all[at]).len() == 0);
            }
        }
    }
}

/// What is left of a text without the white space around it is told, unless nothing is.
pub proof fn blank_outputs_are_none(text: Seq<char>)
    ensures
        filled(text) is None <==> forall|k: int|
            0 <= k < text.len() ==> crate::text::is_space(#[trigger] text[k]),
        filled(text) matches Some(value) ==> value == trim(text),
{
    crate::text::lemma_trim_blank(text);
}

/// An error whose message says "not found", in any letter case, becomes a 404 for the resource; any
/// other stays what it is.
pub proof fn only_what_is_not_found_is_missing(error: ErrorView, resource: Seq<char>)
    ensures
        occurs(lower(error.message), "not found"@) ==> not_found_error(error, resource).status == 404
            && not_found_error(error, resource).message == resource + " not found"@,
        !occurs(lower(error.message), "not found"@) ==> not_found_error(error, resource) == error,
{
}

/// A request for one card is refused exactly where the repository's name is none or the number is
/// zero.
pub proof fn a_card_is_named_by_repository_and_number(repo: Seq<char>, number: u64)
    ensures
        card_problem(repo, number) is None <==> is_repo(repo) && number > 0,
        !is_repo(repo) ==> (card_problem(repo, number) matches Some(error) && error.status == 400
            && error.code == "invalid_repo"@),
        is_repo(repo) && number == 0 ==> (card_problem(repo, number) matches Some(error)
            && error.status == 400 && error.code == "invalid_issue"@),
{
}

/// A new card is accepted exactly where its repository and column are some, its title takes 1 to 256
/// bytes without the white space around it, and its body at most 65536. Else the answer is 400.
pub proof fn new_cards_are_accepted_on_their_merits(request: CreateCardRequest)
    ensures
        new_card_problem(request) is None <==> {
            &&& is_repo(request.repo@)
            &&& is_column(request.column@)
            &&& 1 <= utf8_len(trim(request.title@)) <= 256
            &&& utf8_len(request.body@) <= 65_536
        },
        new_card_problem(request) matches Some(error) ==> error.status == 400 && error.code == if
            !is_repo(request.repo@) {
            "invalid_repo"@
        } else if !is_column(request.column@) {
            "invalid_column"@
        } else if !(1 <= utf8_len(trim(request.title@)) <= 256) {
            "invalid_title"@
        } else {
            "body_too_large"@
        },
{
    let title = trim(request.title@);
    crate::text::lemma_utf8_len(title);
    if title.len() == 0 {
        assert(title == Seq::<char>::empty());
        assert(vstd::utf8::encode_utf8(Seq::<char>::empty()).len() == 0);
    }
}

/// A new issue is asked for with its own title, body, column and repository.
pub proof fn a_new_issue_is_what_was_asked_for(
    repo: Seq<char>,
    title: Seq<char>,
    body: Seq<char>,
    column: Seq<char>,
)
    ensures
        ({
            let arguments = create_arguments(repo, title, body, column);
            &&& arguments.take(2) == seq!["issue"@, "create"@]
            &&& passes(arguments, "--repo"@, repo)
            &&& passes(arguments, "--title"@, title)
            &&& passes(arguments, "--body"@, body)
            &&& passes(arguments, "--label"@, column)
            &&& arguments.len() == 10
        }),
{
    let arguments = create_arguments(repo, title, body, column);
    assert(arguments.take(2) == seq!["issue"@, "create"@]);
    assert(arguments[2] == "--repo"@ && arguments[4] == "--title"@ && arguments[6] == "--body"@
        && arguments[8] == "--label"@);
}

/// An issue is read by its number, in its repository, with every field that a card is made of.
pub proof fn an_issue_is_read_by_its_number(repo: Seq<char>, number: nat)
    ensures
        view_arguments(repo, number).take(3) == seq!["issue"@, "view"@, decimal(number)],
        passes(view_arguments(repo, number), "--repo"@, repo),
        passes(
            view_arguments(repo, number),
            "--json"@,
            "number,author,title,body,labels,url,createdAt,updatedAt"@,
        ),
        view_arguments(repo, number).len() == 7,
{
    let arguments = view_arguments(repo, number);
    assert(arguments.take(3) == seq!["issue"@, "view"@, decimal(number)]);
    assert(arguments[3] == "--repo"@ && arguments[5] == "--json"@);
}

/// The number of a new issue is what stands behind the last slash of its address, whatever white
/// space stands around it.
pub proof fn an_address_ends_with_the_number(start: Seq<char>, number: u64, printed: Seq<char>)
    requires
        trim(printed) == start.push('/') + decimal(number as nat),
    ensures
        issue_number(printed) == Some(number as nat),
{
    let digits = decimal(number as nat);
    crate::text::numbers_read_back(number as nat, u64::MAX as nat, digits);
    assert forall|k: int| 0 <= k < digits.len() implies digits[k] != '/' by {
        assert('0' <= digits[k] <= '9' || k == 0 && digits[k] == '+');
    }
    crate::text::the_last_part_is_what_was_appended(start, '/', digits);
}

/// A repository is given every label of the board and of the agents, each by a command of its own
/// that creates it there or brings it up to date.
pub proof fn every_label_is_given(repo: Seq<char>, k: int)
    ensures
        label_commands(repo).len() == 8,
        0 <= k < 8 ==> {
            let command = label_commands(repo)[k];
            let labels = seq![
                "board:backlog"@,
                "board:ready"@,
                "board:running"@,
                "board:review"@,
                "board:done"@,
                "agent:grok"@,
                "agent:codex"@,
                "agent:cursor"@,
            ];
            &&& command.take(3) == seq!["label"@, "create"@, labels[k]]
            &&& passes(command, "--repo"@, repo)
            &&& command.last() == "--force"@
        },
{
    if 0 <= k < 8 {
        let command = label_commands(repo)[k];
        assert(command[3] == "--repo"@ && command[4] == repo);
        let labels = seq![
            "board:backlog"@,
            "board:ready"@,
            "board:running"@,
            "board:review"@,
            "board:done"@,
            "agent:grok"@,
            "agent:codex"@,
            "agent:cursor"@,
        ];
        assert(command[2] == labels[k]);
        assert(command.take(3) == seq!["label"@, "create"@, labels[k]]);
    }
}

/// The command line is asked whether it is logged in to GitHub, and for all repositories of the
/// user, whoever owns them; where it is not logged in it is asked nothing further.
pub proof fn all_repositories_are_listed(
    status: Result<String, ApiError>,
    arguments: Seq<Seq<char>>,
    result: Result<Vec<String>, ApiError>,
)
    ensures
        status_arguments() == seq!["auth"@, "status"@, "--hostname"@, "github.com"@],
        repos_arguments().contains("--paginate"@),
        access_arguments().contains("--paginate"@),
        repos_arguments()[2] == access_arguments()[2],
        once_logged_in(status, arguments, result) ==> (result is Ok <==> status is Ok),
        once_logged_in(status, arguments, result) && status is Ok ==> texts(result->Ok_0@)
            == arguments,
        once_logged_in(status, arguments, result) && status is Err ==> result->Err_0@.status == 503
            && result->Err_0@.code == "gh_login_required"@,
{
    assert(repos_arguments()[1] == "--paginate"@);
    assert(access_arguments()[1] == "--paginate"@);
}

/// The command line counts as logged in exactly where its status command succeeded.
pub proof fn a_login_is_what_the_status_says(
    status: Result<String, ApiError>,
    result: Result<(), ApiError>,
)
    requires
        call_ensures(Github::require_login, (status,), result),
    ensures
        result is Ok <==> status is Ok,
        result matches Err(error) ==> error@.status == 503,
{
}

/// A login is what was printed, without white space around it; nothing printed is no login.
pub proof fn a_login_is_what_was_printed(output: Result<String, ApiError>, login: Option<String>)
    requires
        call_ensures(Github::login, (output,), login),
    ensures
        login is Some <==> (output matches Ok(text) && !crate::text::is_blank(text@)),
        login matches Some(login) ==> login@ == trim(output->Ok_0@),
{
    if let Ok(text) = output {
        blank_outputs_are_none(text@);
    }
}

/// A pull request is looked for among the open ones of the branch.
pub proof fn a_pull_request_is_found_by_its_branch(
    repo: &str,
    branch: &str,
    arguments: Vec<String>,
)
    requires
        call_ensures(existing_pr_arguments, (repo, branch), arguments),
    ensures
        passes(texts(arguments@), "--repo"@, repo@),
        passes(texts(arguments@), "--head"@, branch@),
        passes(texts(arguments@), "--state"@, "open"@),
        texts(arguments@)[0] == "pr"@,
        texts(arguments@)[1] == "list"@,
{
    let all = texts(arguments@);
    assert(all[2] == "--repo"@ && all[3] == repo@);
    assert(all[4] == "--head"@ && all[5] == branch@);
    assert(all[6] == "--state"@ && all[7] == "open"@);
}

/// A comment goes to the issue that was named, with the text that was given.
pub proof fn a_comment_goes_to_its_issue(
    repo: &str,
    number: u64,
    body: &str,
    arguments: Vec<String>,
)
    requires
        call_ensures(Github::comment_issue, (repo, number, body), arguments),
    ensures
        passes(texts(arguments@), "comment"@, decimal(number as nat)),
        passes(texts(arguments@), "--repo"@, repo@),
        passes(texts(arguments@), "--body"@, body@),
        texts(arguments@)[0] == "issue"@,
{
    let all = texts(arguments@);
    assert(all[1] == "comment"@ && all[2] == decimal(number as nat));
    assert(all[3] == "--repo"@ && all[4] == repo@);
    assert(all[5] == "--body"@ && all[6] == body@);
}

/// A request for one card is accepted exactly where it names a repository and an issue.
pub proof fn cards_are_asked_for_by_name(repo: &str, number: u64, result: Result<(), ApiError>)
    requires
        call_ensures(validate_card_args, (repo, number), result),
    ensures
        result is Ok <==> is_repo(repo@) && number > 0,
        result matches Err(error) ==> error@.status == 400 && error@.code == if is_repo(repo@) {
            "invalid_issue"@
        } else {
            "invalid_repo"@
        },
{
}

/// A column is accepted exactly where it is one of the five.
pub proof fn only_the_five_columns_are_accepted(column: &str, result: Result<(), ApiError>)
    requires
        call_ensures(validate_column_arg, (column,), result),
    ensures
        result is Ok <==> (column@ == "board:backlog"@ || column@ == "board:ready"@ || column@
            == "board:running"@ || column@ == "board:review"@ || column@ == "board:done"@),
        result matches Err(error) ==> error@.status == 400 && error@.code == "invalid_column"@,
{
    crate::model::the_columns_are_five(column@);
}

/// A new card keeps its title, but for the white space around it.
pub proof fn a_new_card_keeps_its_title(
    request: &CreateCardRequest,
    result: Result<String, ApiError>,
)
    requires
        call_ensures(validate_new_card, (request,), result),
    ensures
        result is Ok <==> is_repo(request.repo@) && is_column(request.column@) && trim(
            request.title@,
        ).len() > 0 && utf8_len(trim(request.title@)) <= 256 && utf8_len(request.body@) <= 65_536,
        result matches Ok(title) ==> title@ == trim(request.title@),
        result matches Err(error) ==> error@.status == 400,
{
}

/// The number of a new issue is that with which the printed address ends.
pub proof fn the_number_ends_the_address(url: &str, number: u64, result: Result<u64, ApiError>)
    requires
        call_ensures(created_issue_number, (url,), result),
    ensures
        after_last(trim(url@), '/') == decimal(number as nat) ==> result == Ok::<u64, ApiError>(
            number,
        ),
        result matches Err(error) ==> error@.status == 500,
{
    crate::text::numbers_read_back(number as nat, u64::MAX as nat, url@);
}

/// Each of the two listings of the repositories asks for the fields that are read of it.
pub proof fn a_listing_asks_for_what_is_read(
    status: Result<String, ApiError>,
    repos: Result<Vec<String>, ApiError>,
    access: Result<Vec<String>, ApiError>,
)
    requires
        call_ensures(Github::list_repos, (status,), repos),
        call_ensures(Github::list_repo_access, (status,), access),
    ensures
        repos is Ok <==> status is Ok,
        access is Ok <==> status is Ok,
        repos matches Ok(arguments) ==> passes(
            texts(arguments@),
            "--jq"@,
            ".[] | {full_name, description, html_url, private}"@,
        ) && texts(arguments@).contains("--paginate"@) && texts(arguments@)[0] == "api"@,
        access matches Ok(arguments) ==> passes(
            texts(arguments@),
            "--jq"@,
            ".[] | {full_name, owner: .owner.login, owner_type: .owner.type, push: (.permissions.push // false)}"@,
        ) && texts(arguments@).contains("--paginate"@) && texts(arguments@)[0] == "api"@,
        repos matches Err(error) ==> error@.status == 503,
        access matches Err(error) ==> error@.status == 503,
{
    if let Ok(arguments) = repos {
        let all = texts(arguments@);
        assert(all[3] == "--jq"@ && all[1] == "--paginate"@);
    }
    if let Ok(arguments) = access {
        let all = texts(arguments@);
        assert(all[3] == "--jq"@ && all[1] == "--paginate"@);
    }
}

} // verus!
