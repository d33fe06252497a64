//! The data of the service: cards, jobs, and what requests and responses hold.
use crate::text::{
    chars_of, copy_list, copy_maybe, decimal, maybe_text, parse_usize, same_text, spelled_number,
    split_at_char, split_once, texts,
};
use vstd::prelude::*;

verus! {

/// The version of the service.
pub const VERSION: &'static str = "0.2.0";

/// The labels that are the columns of the board.
pub const BOARD_COLUMNS: [&'static str; 5] = [
    "board:backlog",
    "board:ready",
    "board:running",
    "board:review",
    "board:done",
];

/// The labels that choose an agent.
pub const AGENT_LABELS: [&'static str; 3] = ["agent:grok", "agent:codex", "agent:cursor"];

// ---------------------------------------------------------------------------------------------
// Requests and responses
// ---------------------------------------------------------------------------------------------

pub struct HealthResponse {
    pub ok: bool,
    pub version: &'static str,
}

pub struct PairRequest {
    pub code: String,
}

pub struct PairResponse {
    pub token: String,
    pub server_id: String,
    pub name: &'static str,
    pub base_url: String,
}

pub struct MintKeyResponse {
    pub id: String,
    pub token: String,
}

pub struct DeleteResponse {
    pub deleted: bool,
}

pub struct ServerResponse {
    pub name: &'static str,
    pub server_id: String,
    pub version: &'static str,
    pub listen: String,
    pub lan_url: String,
    pub tailscale_url: Option<String>,
    pub tailscale_dns: Option<String>,
    pub harnesses: Vec<String>,
    pub gh_login: Option<String>,
}

#[derive(Clone, Debug)]
pub struct CreateCardRequest {
    pub repo: String,
    pub title: String,
    pub body: String,
    pub column: String,
}

#[derive(Clone, Debug)]
pub struct MoveCardRequest {
    pub column: String,
}

#[derive(Clone, Debug)]
pub struct CreateCommentRequest {
    pub body: String,
}

#[derive(Clone, Debug)]
pub struct CreateJobRequest {
    pub repo: String,
    pub issue: u64,
    pub harness: String,
    pub prompt: Option<String>,
    pub crew: Vec<String>,
}

/// One page of a list.
pub struct Page<T> {
    pub items: Vec<T>,
    pub page: usize,
    pub per_page: usize,
    pub has_more: bool,
}

/// One page of the cards of all repositories.
pub struct OverviewPage {
    pub items: Vec<RepositoryCard>,
    pub page: usize,
    pub per_page: usize,
    pub has_more: bool,
    pub partial: bool,
    pub unavailable_owners: Vec<String>,
}

// ---------------------------------------------------------------------------------------------
// Repositories, cards and comments
// ---------------------------------------------------------------------------------------------

#[derive(Clone, Debug)]
pub struct Repo {
    pub name_with_owner: String,
    pub description: Option<String>,
    pub url: String,
    pub is_private: bool,
}

/// An open issue as a card of the board.
#[derive(Debug)]
pub struct Card {
    pub number: u64,
    pub author_login: Option<String>,
    pub title: String,
    pub body: String,
    pub column: Option<String>,
    pub labels: Vec<String>,
    pub url: String,
    pub created_at: String,
    pub updated_at: String,
}

/// What a [`Card`] says.
#[verifier::ext_equal]
pub struct CardView {
    pub number: u64,
    pub author_login: Option<Seq<char>>,
    pub title: Seq<char>,
    pub body: Seq<char>,
    pub column: Option<Seq<char>>,
    pub labels: Seq<Seq<char>>,
    pub url: Seq<char>,
    pub created_at: Seq<char>,
    pub updated_at: Seq<char>,
}

impl View for Card {
    type V = CardView;

    open spec fn view(&self) -> CardView {
        CardView {
            number: self.number,
            author_login: maybe_text(self.author_login),
            title: self.title@,
            body: self.body@,
            column: maybe_text(self.column),
            labels: texts(self.labels@),
            url: self.url@,
            created_at: self.created_at@,
            updated_at: self.updated_at@,
        }
    }
}

impl Clone for Card {
    fn clone(&self) -> (copy: Card)
        ensures
            copy@ == self@,
    {
        Card {
            number: self.number,
            author_login: copy_maybe(&self.author_login),
            title: self.title.clone(),
            body: self.body.clone(),
            column: copy_maybe(&self.column),
            labels: copy_list(&self.labels),
            url: self.url.clone(),
            created_at: self.created_at.clone(),
            updated_at: self.updated_at.clone(),
        }
    }
}

/// A card with the repository that it belongs to.
#[derive(Debug)]
pub struct RepositoryCard {
    pub repo: String,
    pub card: Card,
}

/// What a card with its repository says.
#[verifier::ext_equal]
pub struct RepositoryCardView {
    pub repo: Seq<char>,
    pub card: CardView,
}

impl View for RepositoryCard {
    type V = RepositoryCardView;

    open spec fn view(&self) -> RepositoryCardView {
        RepositoryCardView { repo: self.repo@, card: self.card@ }
    }
}

impl Clone for RepositoryCard {
    fn clone(&self) -> (copy: RepositoryCard)
        ensures
            copy@ == self@,
    {
        RepositoryCard { repo: self.repo.clone(), card: self.card.clone() }
    }
}

/// A comment on an issue.
#[derive(Clone, Debug)]
pub struct Comment {
    pub author_login: Option<String>,
    pub body: String,
    pub url: String,
    pub created_at: String,
    pub updated_at: String,
}

// ---------------------------------------------------------------------------------------------
// Jobs
// ---------------------------------------------------------------------------------------------

/// How much an agent is to think.
#[derive(Clone, Copy, Debug, PartialEq, Eq, Structural)]
pub enum ReasoningEffort {
    Low,
    Medium,
    High,
    Xhigh,
}

/// The name of a reasoning effort.
pub open spec fn effort_name(effort: ReasoningEffort) -> Seq<char> {
    match effort {
        ReasoningEffort::Low => "low"@,
        ReasoningEffort::Medium => "medium"@,
        ReasoningEffort::High => "high"@,
        ReasoningEffort::Xhigh => "xhigh"@,
    }
}

impl ReasoningEffort {
    /// The name of a reasoning effort.
    pub fn as_str(&self) -> (name: &'static str)
        ensures
            name@ == effort_name(*self),
    {
        match self {
            ReasoningEffort::Low => "low",
            ReasoningEffort::Medium => "medium",
            ReasoningEffort::High => "high",
            ReasoningEffort::Xhigh => "xhigh",
        }
    }
}

#[derive(Clone, Copy, Debug, PartialEq, Eq, Structural)]
pub enum JobStatus {
    Queued,
    Running,
    Cancelling,
    Cancelled,
    Succeeded,
    Failed,
}

/// A job in one of these states has come to its end.
pub open spec fn terminal(status: JobStatus) -> bool {
    status == JobStatus::Cancelled || status == JobStatus::Succeeded || status == JobStatus::Failed
}

impl JobStatus {
    /// Whether a job in this state has come to its end.
    pub fn is_terminal(&self) -> (yes: bool)
        ensures
            yes == terminal(*self),
    {
        matches!(self, JobStatus::Cancelled | JobStatus::Succeeded | JobStatus::Failed)
    }
}

/// The durable record of a job.
#[derive(Debug)]
pub struct JobRecord {
    pub id: String,
    pub repo: String,
    pub issue: u64,
    pub harness: String,
    pub crew: Vec<String>,
    pub effort: Option<ReasoningEffort>,
    pub status: JobStatus,
    pub branch: String,
    pub worktree: String,
    pub pr_url: Option<String>,
    pub created_at: String,
    pub started_at: Option<String>,
    pub finished_at: Option<String>,
    pub error: Option<String>,
}

/// What a [`JobRecord`] says.
#[verifier::ext_equal]
pub struct JobView {
    pub id: Seq<char>,
    pub repo: Seq<char>,
    pub issue: u64,
    pub harness: Seq<char>,
    pub crew: Seq<Seq<char>>,
    pub effort: Option<ReasoningEffort>,
    pub status: JobStatus,
    pub branch: Seq<char>,
    pub worktree: Seq<char>,
    pub pr_url: Option<Seq<char>>,
    pub created_at: Seq<char>,
    pub started_at: Option<Seq<char>>,
    pub finished_at: Option<Seq<char>>,
    pub error: Option<Seq<char>>,
}

impl View for JobRecord {
    type V = JobView;

    open spec fn view(&self) -> JobView {
        JobView {
            id: self.id@,
            repo: self.repo@,
            issue: self.issue,
            harness: self.harness@,
            crew: texts(self.crew@),
            effort: self.effort,
            status: self.status,
            branch: self.branch@,
            worktree: self.worktree@,
            pr_url: maybe_text(self.pr_url),
            created_at: self.created_at@,
            started_at: maybe_text(self.started_at),
            finished_at: maybe_text(self.finished_at),
            error: maybe_text(self.error),
        }
    }
}

impl Clone for JobRecord {
    fn clone(&self) -> (copy: JobRecord)
        ensures
            copy@ == self@,
    {
        JobRecord {
            id: self.id.clone(),
            repo: self.repo.clone(),
            issue: self.issue,
            harness: self.harness.clone(),
            crew: copy_list(&self.crew),
            effort: self.effort,
            status: self.status,
            branch: self.branch.clone(),
            worktree: self.worktree.clone(),
            pr_url: copy_maybe(&self.pr_url),
            created_at: self.created_at.clone(),
            started_at: copy_maybe(&self.started_at),
            finished_at: copy_maybe(&self.finished_at),
            error: copy_maybe(&self.error),
        }
    }
}

/// A line of a job's log, or a change of its status.
#[derive(Debug)]
pub struct JobEvent {
    pub timestamp: String,
    pub kind: &'static str,
    pub line: String,
}

/// What a [`JobEvent`] says.
#[verifier::ext_equal]
pub struct EventView {
    pub timestamp: Seq<char>,
    pub kind: Seq<char>,
    pub line: Seq<char>,
}

impl View for JobEvent {
    type V = EventView;

    open spec fn view(&self) -> EventView {
        EventView { timestamp: self.timestamp@, kind: self.kind@, line: self.line@ }
    }
}

impl Clone for JobEvent {
    fn clone(&self) -> (copy: JobEvent)
        ensures
            copy@ == self@,
    {
        JobEvent {
            timestamp: self.timestamp.clone(),
            kind: self.kind,
            line: self.line.clone(),
        }
    }
}

// ---------------------------------------------------------------------------------------------
// Columns, repository names and pages
// ---------------------------------------------------------------------------------------------

/// One of the labels that are the columns of the board.
pub open spec fn is_column(label: Seq<char>) -> bool {
    exists|i: int| 0 <= i < 5 && (#[trigger] BOARD_COLUMNS@[i])@ == label
}

/// Whether a label is one of the columns of the board.
pub fn valid_column(column: &str) -> (yes: bool)
    ensures
        yes == is_column(column@),
{
    let columns = BOARD_COLUMNS;
    let mut i: usize = 0;
    while i < 5
        invariant
            columns == BOARD_COLUMNS,
            i <= 5,
            forall|k: int| 0 <= k < i ==> (#[trigger] BOARD_COLUMNS@[k])@ != column@,
        decreases 5 - i,
    {
        if same_text(columns[i], column) {
            return true;
        }
        i += 1;
    }
    false
}

/// A letter, a digit, a full stop, an underscore or a hyphen.
pub open spec fn is_name_char(character: char) -> bool {
    ||| 'a' <= character <= 'z'
    ||| 'A' <= character <= 'Z'
    ||| '0' <= character <= '9'
    ||| character == '.'
    ||| character == '_'
    ||| character == '-'
}

/// The name of an owner or of a repository: 1 to 100 such characters, and not a directory's name
/// for itself or its parent.
pub open spec fn is_name(name: Seq<char>) -> bool {
    &&& 1 <= name.len() <= 100
    &&& name != "."@
    &&& name != ".."@
    &&& forall|k: int| 0 <= k < name.len() ==> is_name_char(#[trigger] name[k])
}

/// A repository's full name: the owner's name, a slash and the repository's own name.
pub open spec fn is_repo(repo: Seq<char>) -> bool {
    match split_once(repo, '/') {
        Some((owner, name)) => is_name(owner) && is_name(name),
        None => false,
    }
}

fn valid_name(name: &str) -> (yes: bool)
    ensures
        yes == is_name(name@),
{
    let chars = chars_of(name);
    if chars.len() == 0 || chars.len() > 100 || same_text(name, ".") || same_text(name, "..") {
        return false;
    }
    let mut i: usize = 0;
    while i < chars.len()
        invariant
            chars@ == name@,
            i <= chars@.len(),
            forall|k: int| 0 <= k < i ==> is_name_char(#[trigger] name@[k]),
        decreases chars@.len() - i,
    {
        let character = chars[i];
        if !(('a' <= character && character <= 'z') || ('A' <= character && character <= 'Z') || (
        '0' <= character && character <= '9') || character == '.' || character == '_' || character
            == '-') {
            assert(!is_name_char(name@[i as int]));
            return false;
        }
        i += 1;
    }
    true
}

/// Whether a text is a repository's full name.
pub fn validate_repo(repo: &str) -> (yes: bool)
    ensures
        yes == is_repo(repo@),
{
    match split_at_char(repo, '/') {
        Some((owner, name)) => valid_name(owner.as_str()) && valid_name(name.as_str()),
        None => false,
    }
}

/// The page and the page size that a request asks for; 1 and 25 where it does not say.
pub open spec fn pagination(page: Option<Seq<char>>, per_page: Option<Seq<char>>) -> Result<
    (nat, nat),
    Seq<char>,
> {
    let limit = usize::MAX as nat;
    let number = match page {
        Some(page) => spelled_number(page, limit),
        None => Some(1nat),
    };
    let size = match per_page {
        Some(per_page) => spelled_number(per_page, limit),
        None => Some(25nat),
    };
    if number is None {
        Err("page must be a positive integer"@)
    } else if size is None {
        Err("perPage must be a positive integer"@)
    } else if number->0 == 0 {
        Err("page must be at least 1"@)
    } else if !(1 <= size->0 <= 50) {
        Err("perPage must be between 1 and 50"@)
    } else {
        Ok((number->0, size->0))
    }
}

/// The contents of an optional text.
pub open spec fn maybe_str(text: Option<&str>) -> Option<Seq<char>> {
    match text {
        Some(text) => Some(text@),
        None => None,
    }
}

/// Reads the page and the page size that a request asks for.
pub fn parse_pagination(page: Option<&str>, per_page: Option<&str>) -> (result: Result<
    (usize, usize),
    String,
>)
    ensures
        match result {
            Ok((page_number, size)) => pagination(maybe_str(page), maybe_str(per_page)) == Ok::<
                (nat, nat),
                Seq<char>,
            >((page_number as nat, size as nat)),
            Err(message) => pagination(maybe_str(page), maybe_str(per_page)) == Err::<
                (nat, nat),
                Seq<char>,
            >(message@),
        },
{
    let number = match page {
        Some(page) => parse_usize(page),
        None => Some(1),
    };
    let size = match per_page {
        Some(per_page) => parse_usize(per_page),
        None => Some(25),
    };
    match (number, size) {
        (None, _) => Err("page must be a positive integer".to_owned()),
        (_, None) => Err("perPage must be a positive integer".to_owned()),
        (Some(number), Some(size)) => {
            if number == 0 {
                Err("page must be at least 1".to_owned())
            } else if size < 1 || size > 50 {
                Err("perPage must be between 1 and 50".to_owned())
            } else {
                Ok((number, size))
            }
        },
    }
}

/// A page is at least 1, and holds 1 to 50 things.
pub proof fn pages_are_bounded(page: Option<Seq<char>>, per_page: Option<Seq<char>>)
    ensures
        pagination(page, per_page) matches Ok((number, size)) ==> number >= 1 && 1 <= size <= 50,
{
}

// ---------------------------------------------------------------------------------------------
// Laws
// ---------------------------------------------------------------------------------------------

/// The columns are the five labels for what waits, is ready, runs, is reviewed and is done.
pub proof fn the_columns_are_five(label: Seq<char>)
    ensures
        is_column(label) <==> label == "board:backlog"@ || label == "board:ready"@ || label
            == "board:running"@ || label == "board:review"@ || label == "board:done"@,
{
    assert(BOARD_COLUMNS@[0]@ == "board:backlog"@);
    assert(BOARD_COLUMNS@[1]@ == "board:ready"@);
    assert(BOARD_COLUMNS@[2]@ == "board:running"@);
    assert(BOARD_COLUMNS@[3]@ == "board:review"@);
    assert(BOARD_COLUMNS@[4]@ == "board:done"@);
}

/// A job has ended exactly where it was cancelled, has succeeded or has failed.
pub proof fn a_job_ends_in_three_ways(status: JobStatus)
    ensures
        match status {
            JobStatus::Queued => !terminal(status),
            JobStatus::Running => !terminal(status),
            JobStatus::Cancelling => !terminal(status),
            JobStatus::Cancelled => terminal(status),
            JobStatus::Succeeded => terminal(status),
            JobStatus::Failed => terminal(status),
        },
{
}

/// A repository is named by its owner's name, a slash and its own name; a text without a slash or
/// with a second one names none.
pub proof fn a_repository_is_named_by_owner_and_name(
    owner: Seq<char>,
    name: Seq<char>,
    repo: Seq<char>,
)
    ensures
        !owner.contains('/') ==> (is_repo(owner.push('/') + name) <==> is_name(owner) && is_name(
            name,
        )),
        is_repo(repo) ==> exists|first: Seq<char>, second: Seq<char>|
            is_name(first) && is_name(second) && repo == #[trigger] (first.push('/') + second),
        !repo.contains('/') ==> !is_repo(repo),
        name.contains('/') && !owner.contains('/') ==> !is_repo(owner.push('/') + name),
{
    if !owner.contains('/') {
        crate::text::a_joined_text_is_split_there(owner, '/', name);
    }
    crate::text::a_split_text_joins_again(repo, '/');
    if is_repo(repo) {
        let (first, second) = split_once(repo, '/')->0;
        assert(repo == first.push('/') + second);
        assert(repo[first.len() as int] == '/');
    }
    if name.contains('/') {
        let k = choose|k: int| 0 <= k < name.len() && name[k] == '/';
        assert(!is_name_char(name[k]));
    }
}

/// A name is 1 to 100 letters, digits, full stops, underscores and hyphens long, and no name for a
/// directory itself or its parent; no character that means anything to a shell or within a path is
/// in it.
pub proof fn names_are_plain(name: Seq<char>, k: int)
    ensures
        is_name(name) && 0 <= k < name.len() ==> ('a' <= name[k] <= 'z' || 'A' <= name[k] <= 'Z'
            || '0' <= name[k] <= '9' || name[k] == '.' || name[k] == '_' || name[k] == '-'),
        is_name(name) ==> 1 <= name.len() <= 100 && name != seq!['.'] && name != seq!['.', '.'],
        1 <= name.len() <= 100 && name != seq!['.'] && name != seq!['.', '.'] && (forall|i: int|
            0 <= i < name.len() ==> ('a' <= #[trigger] name[i] <= 'z' || 'A' <= name[i] <= 'Z'
                || '0' <= name[i] <= '9' || name[i] == '.' || name[i] == '_' || name[i] == '-'))
            ==> is_name(name),
{
    reveal_strlit(".");
    reveal_strlit("..");
    assert("."@ == seq!['.']);
    assert(".."@ == seq!['.', '.']);
    if is_name(name) && 0 <= k < name.len() {
        assert(is_name_char(name[k]));
    }
}

/// A request that spells a page and a size is answered with them, where the page is at least 1 and
/// the size 1 to 50; without them it is the first page of 25. Every other request is refused.
pub proof fn pages_are_those_asked_for(number: nat, size: nat, text: Seq<char>)
    requires
        number <= usize::MAX,
        size <= usize::MAX,
    ensures
        pagination(None, None) == Ok::<(nat, nat), Seq<char>>((1, 25)),
        pagination(Some(decimal(number)), Some(decimal(size))) is Ok <==> number >= 1 && 1 <= size
            <= 50,
        pagination(Some(decimal(number)), Some(decimal(size))) matches Ok(wanted) ==> wanted == (
        number, size),
        number >= 1 ==> pagination(Some(decimal(number)), None) == Ok::<(nat, nat), Seq<char>>(
            (number, 25),
        ),
        1 <= size <= 50 ==> pagination(None, Some(decimal(size))) == Ok::<(nat, nat), Seq<char>>(
            (1, size),
        ),
        size > 50 || size == 0 ==> pagination(Some(decimal(1)), Some(decimal(size))) == Err::<
            (nat, nat),
            Seq<char>,
        >("perPage must be between 1 and 50"@),
        pagination(Some(decimal(0)), Some(decimal(25))) == Err::<(nat, nat), Seq<char>>(
            "page must be at least 1"@,
        ),
        (exists|k: int|
            0 <= k < text.len() && !('0' <= #[trigger] text[k] <= '9') && text[k] != '+')
            || text.len() == 0 ==> pagination(Some(text), None) == Err::<(nat, nat), Seq<char>>(
            "page must be a positive integer"@,
        ) && pagination(None, Some(text)) == Err::<(nat, nat), Seq<char>>(
            "perPage must be a positive integer"@,
        ),
{
    let limit = usize::MAX as nat;
    crate::text::numbers_read_back(number, limit, text);
    crate::text::numbers_read_back(size, limit, text);
    crate::text::numbers_read_back(0, limit, text);
    crate::text::numbers_read_back(1, limit, text);
    crate::text::numbers_read_back(25, limit, text);
}

/// Each effort has its own name.
pub proof fn efforts_are_named()
    ensures
        effort_name(ReasoningEffort::Low) == "low"@,
        effort_name(ReasoningEffort::Medium) == "medium"@,
        effort_name(ReasoningEffort::High) == "high"@,
        effort_name(ReasoningEffort::Xhigh) == "xhigh"@,
{
}

} // verus!
