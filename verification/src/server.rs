//! What requests are answered before and beside the board and its jobs.
use crate::config::Config;
use crate::error::{error_of, missing, ApiError, ErrorView};
use crate::model::{
    maybe_str, pagination, parse_pagination, Card, HealthResponse, ServerResponse, VERSION,
};
use crate::outside::{json_text, read_json_text};
use crate::text::{
    chars_of, decimal, decimal_of, maybe_text, parse_u64, same_text, spelled_number, string_of,
    texts,
};
use vstd::prelude::*;
use vstd::slice::slice_subrange;

verus! {

// ---------------------------------------------------------------------------------------------
// Arguments of the program
// ---------------------------------------------------------------------------------------------

/// What the program is asked to do.
#[derive(Clone, Copy, Debug, PartialEq, Eq, Structural)]
pub enum Startup {
    /// Tell the version.
    Version,
    /// Tell how it is used.
    Usage,
    /// Serve requests.
    Serve,
}

/// What the arguments, the program's own name among them, ask for.
pub open spec fn startup_of(arguments: Seq<Seq<char>>) -> Startup {
    if arguments.len() == 2 && (arguments[1] == "--version"@ || arguments[1] == "-V"@) {
        Startup::Version
    } else if arguments.len() != 1 {
        Startup::Usage
    } else {
        Startup::Serve
    }
}

/// What the arguments, the program's own name among them, ask for.
pub fn startup(arguments: &Vec<String>) -> (startup: Startup)
    ensures
        startup == startup_of(texts(arguments@)),
{
    if arguments.len() == 2 && (same_text(arguments[1].as_str(), "--version") || same_text(
        arguments[1].as_str(),
        "-V",
    )) {
        Startup::Version
    } else if arguments.len() != 1 {
        Startup::Usage
    } else {
        Startup::Serve
    }
}

/// The line that tells the version.
pub fn version_line() -> (line: String)
    ensures
        line@ == "board-api "@ + VERSION@,
{
    "board-api ".to_owned().concat(VERSION)
}

// ---------------------------------------------------------------------------------------------
// Checks
// ---------------------------------------------------------------------------------------------

/// The service is well.
pub fn health() -> (response: HealthResponse)
    ensures
        response.ok,
        response.version@ == VERSION@,
{
    HealthResponse { ok: true, version: VERSION }
}

/// What is said of a request whose body is not what it should be.
pub fn invalid_json(reason: &str) -> (error: ApiError)
    ensures
        error@ == error_of(400, "invalid_json"@, reason@),
{
    ApiError::bad_request("invalid_json", reason)
}

/// What is said of a request whose query is not what it should be.
pub fn invalid_query(reason: &str) -> (error: ApiError)
    ensures
        error@ == error_of(400, "invalid_query"@, reason@),
{
    ApiError::bad_request("invalid_query", reason)
}

/// What is said of a route that does not exist.
pub fn unknown_route() -> (error: ApiError)
    ensures
        error@ == missing("route"@),
{
    ApiError::not_found("route")
}

/// The page and the page size that a request asks for.
pub fn requested_page(page: Option<&str>, per_page: Option<&str>) -> (result: Result<
    (usize, usize),
    ApiError,
>)
    ensures
        match result {
            Ok((number, size)) => pagination(maybe_str(page), maybe_str(per_page)) == Ok::<
                (nat, nat),
                Seq<char>,
            >((number as nat, size as nat)),
            Err(error) => pagination(maybe_str(page), maybe_str(per_page)) is Err && error@
                == error_of(
                400,
                "invalid_pagination"@,
                pagination(maybe_str(page), maybe_str(per_page))->Err_0,
            ),
        },
{
    match parse_pagination(page, per_page) {
        Ok(wanted) => Ok(wanted),
        Err(message) => Err(ApiError::bad_request("invalid_pagination", message.as_str())),
    }
}

/// The issue number that a text spells, if it spells one.
pub open spec fn issue_number(text: Seq<char>) -> Option<nat> {
    match spelled_number(text, u64::MAX as nat) {
        Some(number) => if number > 0 {
            Some(number)
        } else {
            None
        },
        None => None,
    }
}

/// Reads an issue number.
pub fn positive_number(value: &str) -> (result: Result<u64, ApiError>)
    ensures
        match result {
            Ok(number) => issue_number(value@) == Some(number as nat),
            Err(error) => issue_number(value@) is None && error@ == error_of(
                400,
                "invalid_issue"@,
                "issue number must be a positive integer"@,
            ),
        },
{
    match parse_u64(value) {
        Some(number) => if number > 0 {
            return Ok(number);
        },
        None => {},
    }
    Err(ApiError::bad_request("invalid_issue", "issue number must be a positive integer"))
}

/// Whether the author of a card may have jobs run.
pub fn require_allowed_issue_author(config: &Config, card: &Card) -> (result: Result<(), ApiError>)
    ensures
        match result {
            Ok(()) => config.trusts(maybe_text(card.author_login)),
            Err(error) => !config.trusts(maybe_text(card.author_login)) && error@ == error_of(
                403,
                "issue_author_not_allowed"@,
                "issue author is not allowed to start board jobs"@,
            ),
        },
{
    let author = match &card.author_login {
        Some(login) => Some(login.as_str()),
        None => None,
    };
    if config.allows_issue_author(author) {
        Ok(())
    } else {
        Err(
            ApiError::forbidden(
                "issue_author_not_allowed",
                "issue author is not allowed to start board jobs",
            ),
        )
    }
}

/// Why the service may not post a comment under its login.
pub open spec fn comment_problem(config: Config, login: Option<Seq<char>>) -> Option<ErrorView> {
    if login is None {
        Some(
            error_of(
                503,
                "gh_login_required"@,
                "GitHub CLI login is required before posting comments"@,
            ),
        )
    } else if !config.trusts(login) {
        Some(
            error_of(
                403,
                "comment_author_not_allowed"@,
                "the server GitHub identity is not in allowedIssueAuthors"@,
            ),
        )
    } else {
        None
    }
}

/// Whether the service may post a comment under its login.
pub fn require_comment_author(config: &Config, login: Option<&str>) -> (result: Result<
    (),
    ApiError,
>)
    ensures
        match result {
            Ok(()) => comment_problem(*config, maybe_str(login)) is None,
            Err(error) => comment_problem(*config, maybe_str(login)) == Some(error@),
        },
{
    if login.is_none() {
        return Err(
            ApiError::dependency(
                "gh_login_required",
                "GitHub CLI login is required before posting comments",
            ),
        );
    }
    if !config.allows_issue_author(login) {
        return Err(
            ApiError::forbidden(
                "comment_author_not_allowed",
                "the server GitHub identity is not in allowedIssueAuthors",
            ),
        );
    }
    Ok(())
}

// ---------------------------------------------------------------------------------------------
// Where the server is found
// ---------------------------------------------------------------------------------------------

/// A text without the full stops at its end.
pub open spec fn without_dots(text: Seq<char>) -> Seq<char>
    decreases text.len(),
{
    if text.len() > 0 && text.last() == '.' {
        without_dots(text.drop_last())
    } else {
        text
    }
}

/// A host name as it is shown: without the full stops at its end, unless nothing is left.
pub open spec fn shown_name(name: Option<Seq<char>>) -> Option<Seq<char>> {
    match name {
        Some(name) => if without_dots(name).len() > 0 {
            Some(without_dots(name))
        } else {
            None
        },
        None => None,
    }
}

fn strip_dots(text: &str) -> (result: String)
    ensures
        result@ == without_dots(text@),
{
    let chars = chars_of(text);
    let mut end: usize = chars.len();
    assert(chars@.take(end as int) == chars@);
    while end > 0
        invariant
            chars@ == text@,
            end <= chars@.len(),
            without_dots(text@) == without_dots(chars@.take(end as int)),
        ensures
            end <= chars@.len(),
            without_dots(text@) == chars@.take(end as int),
        decreases end,
    {
        assert(chars@.take(end as int).last() == chars@[end - 1]);
        if chars[end - 1] != '.' {
            break;
        }
        assert(chars@.take(end as int).drop_last() == chars@.take(end - 1));
        end -= 1;
    }
    let result = string_of(slice_subrange(chars.as_slice(), 0, end));
    assert(result@ == chars@.take(end as int));
    result
}

/// A host name as it is shown.
pub fn host_name(name: Option<String>) -> (shown: Option<String>)
    ensures
        maybe_text(shown) == shown_name(maybe_text(name)),
{
    match name {
        Some(name) => {
            let result = strip_dots(name.as_str());
            if result.as_str().is_empty() {
                None
            } else {
                Some(result)
            }
        },
        None => None,
    }
}

/// The host name that the status of Tailscale tells, a JSON document.
pub fn tailscale_dns(status: &str) -> (name: Option<String>)
    ensures
        maybe_text(name) == shown_name(json_text(status@, "Self"@, "DNSName"@)),
{
    host_name(read_json_text(status, "Self", "DNSName"))
}

/// The address of the service on a host.
pub open spec fn address_of(host: Seq<char>, port: u16) -> Seq<char> {
    "http://"@ + host + ":"@ + decimal(port as nat)
}

/// The address of the service on a host.
pub fn server_url(host: &str, port: u16) -> (url: String)
    ensures
        url@ == address_of(host@, port),
{
    let mut url = "http://".to_owned();
    url.append(host);
    url.append(":");
    url.append(decimal_of(port as u64).as_str());
    url
}

/// What the server tells of itself.
pub fn server_response(
    server_id: String,
    listen: String,
    port: u16,
    lan_ip: &str,
    tailscale_ip: Option<&str>,
    tailscale_dns: Option<String>,
    harnesses: Vec<String>,
    gh_login: Option<String>,
) -> (response: ServerResponse)
    ensures
        response.name@ == "board"@,
        response.server_id@ == server_id@,
        response.version@ == VERSION@,
        response.listen@ == listen@,
        response.lan_url@ == address_of(lan_ip@, port),
        maybe_text(response.tailscale_url) == match tailscale_ip {
            Some(ip) => Some(address_of(ip@, port)),
            None => None,
        },
        maybe_text(response.tailscale_dns) == maybe_text(tailscale_dns),
        texts(response.harnesses@) == texts(harnesses@),
        maybe_text(response.gh_login) == maybe_text(gh_login),
{
    ServerResponse {
        name: "board",
        server_id,
        version: VERSION,
        listen,
        lan_url: server_url(lan_ip, port),
        tailscale_url: match tailscale_ip {
            Some(ip) => Some(server_url(ip, port)),
            None => None,
        },
        tailscale_dns,
        harnesses,
        gh_login,
    }
}

/// A missing author is never trusted, and no comment is posted without a login.
pub proof fn missing_authors_are_never_trusted(config: Config)
    ensures
        !config.trusts(None),
        comment_problem(config, None) is Some,
{
}

/// Alone the program serves; with one of the two words for it, it tells its version; with anything
/// else it tells how it is used.
pub proof fn arguments_choose_what_is_done(program: Seq<char>, argument: Seq<char>, rest: Seq<Seq<char>>)
    ensures
        startup_of(seq![program]) == Startup::Serve,
        startup_of(seq![program, argument]) == Startup::Version <==> argument == "--version"@
            || argument == "-V"@,
        startup_of(seq![program, argument]) != Startup::Serve,
        rest.len() > 0 ==> startup_of(seq![program, argument] + rest) == Startup::Usage,
{
}

/// An issue number that is written down is read as itself; zero is none, and neither is what is not
/// made of digits.
pub proof fn issue_numbers_are_positive(number: u64, text: Seq<char>)
    ensures
        number > 0 ==> issue_number(decimal(number as nat)) == Some(number as nat),
        issue_number(decimal(0)) is None,
        issue_number(text) matches Some(found) ==> 0 < found <= u64::MAX,
        text.len() == 0 ==> issue_number(text) is None,
        (exists|k: int|
            0 <= k < text.len() && !('0' <= #[trigger] text[k] <= '9') && text[k] != '+')
            ==> issue_number(text) is None,
{
    crate::text::numbers_read_back(number as nat, u64::MAX as nat, text);
    crate::text::numbers_read_back(0, u64::MAX as nat, text);
}

/// The service posts a comment exactly where it has a login and that is on the list of trusted
/// authors in some letter case; without a login the answer is 503, else 403.
pub proof fn comments_are_posted_by_trusted_logins(config: Config, login: Seq<char>)
    ensures
        comment_problem(config, Some(login)) is None <==> exists|i: int|
            0 <= i < texts(config.allowed_issue_authors@).len() && crate::text::lower(
                #[trigger] texts(config.allowed_issue_authors@)[i],
            ) == crate::text::lower(login),
        comment_problem(config, Some(login)) matches Some(error) ==> error.status == 403
            && error.code == "comment_author_not_allowed"@ && error.message
            == "the server GitHub identity is not in allowedIssueAuthors"@,
        comment_problem(config, None) matches Some(error) && error.status == 503 && error.code
            == "gh_login_required"@ && error.message
            == "GitHub CLI login is required before posting comments"@,
{
    crate::config::trust_ignores_letter_case(
        texts(config.allowed_issue_authors@),
        login,
        login,
    );
}

/// A host name loses the full stops at its end and nothing else; where nothing is left there is
/// none.
pub proof fn a_shown_name_has_no_dots_at_its_end(name: Seq<char>)
    ensures
        without_dots(name).len() <= name.len(),
        without_dots(name) == name.take(without_dots(name).len() as int),
        forall|k: int| without_dots(name).len() <= k < name.len() ==> #[trigger] name[k] == '.',
        without_dots(name).len() > 0 ==> without_dots(name).last() != '.',
        shown_name(Some(name)) is Some <==> without_dots(name).len() > 0,
        shown_name(Some(name)) matches Some(shown) ==> shown == without_dots(name),
        shown_name(None) is None,
    decreases name.len(),
{
    if name.len() > 0 && name.last() == '.' {
        let shorter = name.drop_last();
        a_shown_name_has_no_dots_at_its_end(shorter);
        assert(shorter.take(without_dots(name).len() as int) == name.take(
            without_dots(name).len() as int,
        ));
        assert forall|k: int| without_dots(name).len() <= k < name.len() implies
            #[trigger] name[k] == '.' by {
            if k < shorter.len() {
                assert(shorter[k] == name[k]);
            }
        }
    } else {
        assert(name.take(name.len() as int) == name);
    }
}

/// The address of the service names the host and the port, and nothing else.
pub proof fn an_address_names_host_and_port(host: Seq<char>, port: u16)
    ensures
        address_of(host, port) == "http://"@ + host + ":"@ + decimal(port as nat),
{
}

/// A card lets jobs be run exactly where its author is among the trusted ones, in any letter case.
pub proof fn jobs_are_run_for_trusted_authors(
    config: &Config,
    card: &Card,
    result: Result<(), ApiError>,
)
    requires
        call_ensures(require_allowed_issue_author, (config, card), result),
    ensures
        card.author_login is None ==> result is Err,
        card.author_login matches Some(login) ==> (result is Ok <==> exists|k: int|
            0 <= k < config.allowed_issue_authors@.len() && crate::text::lower(
                (#[trigger] config.allowed_issue_authors@[k])@,
            ) == crate::text::lower(login@)),
        result matches Err(error) ==> error@.status == 403 && error@.code
            == "issue_author_not_allowed"@,
{
    let allowed = config.allowed_issue_authors@;
    if let Some(login) = card.author_login {
        if exists|k: int|
            0 <= k < allowed.len() && crate::text::lower((#[trigger] allowed[k])@)
                == crate::text::lower(login@) {
            let k = choose|k: int|
                0 <= k < allowed.len() && crate::text::lower((#[trigger] allowed[k])@)
                    == crate::text::lower(login@);
            assert(crate::text::same_ignoring_case(texts(allowed)[k], login@));
        }
        if config.trusts(Some(login@)) {
            let k = choose|k: int|
                0 <= k < texts(allowed).len() && crate::text::same_ignoring_case(
                    #[trigger] texts(allowed)[k],
                    login@,
                );
            assert(crate::text::lower(allowed[k]@) == crate::text::lower(login@));
        }
    }
}

/// A page that cannot be had is a fault of the request; what is wrong is said.
pub proof fn a_page_is_that_of_the_request(
    page: Option<&str>,
    per_page: Option<&str>,
    result: Result<(usize, usize), ApiError>,
)
    requires
        call_ensures(requested_page, (page, per_page), result),
    ensures
        page is None && per_page is None ==> result is Ok,
        result is Ok <==> pagination(maybe_str(page), maybe_str(per_page)) is Ok,
        result matches Ok((number, size)) ==> pagination(maybe_str(page), maybe_str(per_page))->Ok_0
            == (number as nat, size as nat),
        result matches Err(error) ==> error@.status == 400 && error@.code == "invalid_pagination"@
            && error@.message == pagination(maybe_str(page), maybe_str(per_page))->Err_0,
{
}

/// An issue number is read back as it is written, and zero is none.
pub proof fn issue_numbers_read_back(number: u64, text: &str, result: Result<u64, ApiError>)
    requires
        text@ == decimal(number as nat),
        call_ensures(positive_number, (text,), result),
    ensures
        number > 0 ==> result == Ok::<u64, ApiError>(number),
        number == 0 ==> (result matches Err(error) && error@.status == 400 && error@.code
            == "invalid_issue"@),
{
    crate::text::numbers_read_back(number as nat, u64::MAX as nat, text@);
}

/// What is wrong with a request is told by the status of the answer.
pub proof fn faults_are_told_by_their_status(
    reason: &str,
    json: ApiError,
    query: ApiError,
    route: ApiError,
)
    requires
        call_ensures(invalid_json, (reason,), json),
        call_ensures(invalid_query, (reason,), query),
        call_ensures(unknown_route, (), route),
    ensures
        json@.status == 400 && json@.code == "invalid_json"@ && json@.message == reason@,
        query@.status == 400 && query@.code == "invalid_query"@ && query@.message == reason@,
        route@.status == 404 && route@.code == "not_found"@ && route@.message == "route"@
            + " not found"@,
{
}

/// What the server tells of itself is what it was given; its addresses name the hosts and the port.
pub proof fn the_server_tells_where_it_is(
    server_id: String,
    listen: String,
    port: u16,
    lan_ip: &str,
    tailscale_ip: Option<&str>,
    tailscale_dns: Option<String>,
    harnesses: Vec<String>,
    gh_login: Option<String>,
    response: ServerResponse,
)
    requires
        call_ensures(
            server_response,
            (server_id, listen, port, lan_ip, tailscale_ip, tailscale_dns, harnesses, gh_login),
            response,
        ),
    ensures
        response.name@ == "board"@,
        response.server_id@ == server_id@,
        response.version@ == VERSION@,
        response.listen@ == listen@,
        response.lan_url@ == "http://"@ + lan_ip@ + ":"@ + decimal(port as nat),
        response.tailscale_url is Some <==> tailscale_ip is Some,
        tailscale_ip matches Some(ip) ==> response.tailscale_url->0@ == "http://"@ + ip@ + ":"@
            + decimal(port as nat),
        maybe_text(response.tailscale_dns) == maybe_text(tailscale_dns),
        texts(response.harnesses@) == texts(harnesses@),
        maybe_text(response.gh_login) == maybe_text(gh_login),
{
}

/// A comment is posted exactly where the login of the server is a trusted one.
pub proof fn only_trusted_logins_post(
    config: &Config,
    login: Option<&str>,
    result: Result<(), ApiError>,
)
    requires
        call_ensures(require_comment_author, (config, login), result),
    ensures
        result is Ok <==> login is Some && config.trusts(maybe_str(login)),
        login is None ==> result->Err_0@.status == 503,
        login is Some && result is Err ==> result->Err_0@.status == 403,
{
}

} // verus!
