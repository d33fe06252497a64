//! The work of a job, step by step: what is to be done next, given what came of the last step.
use crate::config::CursorEffortModels;
use crate::harness::{command_of, crew_of, crew_sequence, harness_command};
use crate::jobs::{short_id, shortened};
use crate::manager::{opened_comment, opened_report};
use crate::model::{JobRecord, JobView};
use crate::text::{
    blank, decimal, decimal_of, is_blank, parse_u64, spelled_number, strings, texts, trim, trimmed,
};
use vstd::prelude::*;

verus! {

/// What is to be done next.
pub enum Action {
    /// See whether the job is to stop.
    CheckCancelled,
    /// Give the repository the labels of the board.
    EnsureLabels,
    /// Move the card to a column.
    MoveCard(&'static str),
    /// Make the directory that the worktree will stand in.
    CreateParent,
    /// Run a program, within the worktree or not.
    Run { program: &'static str, arguments: Vec<String>, in_worktree: bool },
    /// Find out what the agent is to be told of the issue.
    ReadIssue,
    /// Look for an open pull request of the branch.
    FindPullRequest,
    /// Store the record.
    Persist,
    /// Comment on the issue.
    Comment(String),
    /// The work has come to an end.
    Finish(Result<(), String>),
}

/// What an [`Action`] says.
#[verifier::ext_equal]
pub enum ActionView {
    CheckCancelled,
    EnsureLabels,
    MoveCard(Seq<char>),
    CreateParent,
    Run { program: Seq<char>, arguments: Seq<Seq<char>>, in_worktree: bool },
    ReadIssue,
    FindPullRequest,
    Persist,
    Comment(Seq<char>),
    Finish(Result<(), Seq<char>>),
}

impl View for Action {
    type V = ActionView;

    open spec fn view(&self) -> ActionView {
        match *self {
            Action::CheckCancelled => ActionView::CheckCancelled,
            Action::EnsureLabels => ActionView::EnsureLabels,
            Action::MoveCard(column) => ActionView::MoveCard(column@),
            Action::CreateParent => ActionView::CreateParent,
            Action::Run { program, arguments, in_worktree } => ActionView::Run {
                program: program@,
                arguments: texts(arguments@),
                in_worktree,
            },
            Action::ReadIssue => ActionView::ReadIssue,
            Action::FindPullRequest => ActionView::FindPullRequest,
            Action::Persist => ActionView::Persist,
            Action::Comment(body) => ActionView::Comment(body@),
            Action::Finish(work) => ActionView::Finish(
                match work {
                    Ok(()) => Ok(()),
                    Err(message) => Err(message@),
                },
            ),
        }
    }
}

/// What is to be done next, and the event that is reported before it.
pub struct Turn {
    pub event: Option<(&'static str, String)>,
    pub action: Action,
}

/// What a [`Turn`] says.
#[verifier::ext_equal]
pub struct TurnView {
    pub event: Option<(Seq<char>, Seq<char>)>,
    pub action: ActionView,
}

impl View for Turn {
    type V = TurnView;

    open spec fn view(&self) -> TurnView {
        TurnView {
            event: match self.event {
                Some((kind, line)) => Some((kind@, line@)),
                None => None,
            },
            action: self.action@,
        }
    }
}

/// What came of the last step.
pub enum Reply {
    /// It is done.
    Done,
    /// It is done, and this is what it gave.
    Output(String),
    /// It is done, and this was found or not.
    Found(Option<String>),
    /// It failed, for this reason.
    Failed(String),
}

/// What a reply gave.
pub open spec fn given(reply: Reply) -> Seq<char> {
    match reply {
        Reply::Output(text) => text@,
        _ => seq![],
    }
}

/// What a reply found.
pub open spec fn found(reply: Reply) -> Option<Seq<char>> {
    match reply {
        Reply::Found(Some(text)) => Some(text@),
        _ => None,
    }
}

/// The step whose outcome is awaited.
#[derive(Clone, Copy, Debug, PartialEq, Eq, Structural)]
pub enum Stage {
    Checking,
    Labelling,
    Starting,
    Preparing,
    Cloning,
    Branching,
    Reading,
    Working,
    Inspecting,
    Adding,
    Committing,
    Counting,
    Pushing,
    Looking,
    Opening,
    Saving,
    Reporting,
    Delivering,
    Closing,
    Finished,
}

/// The work of a job under way.
pub struct Execution {
    pub record: JobRecord,
    pub extra_prompt: String,
    pub models: CursorEffortModels,
    pub harnesses: Vec<String>,
    pub prompt: String,
    pub next_harness: usize,
    pub ahead: u64,
    pub stage: Stage,
}

/// The state of an [`Execution`].
#[verifier::ext_equal]
pub struct ExecutionView {
    pub record: JobView,
    pub extra_prompt: Seq<char>,
    pub models: CursorEffortModels,
    pub harnesses: Seq<Seq<char>>,
    pub prompt: Seq<char>,
    pub next_harness: int,
    pub ahead: u64,
    pub stage: Stage,
}

impl View for Execution {
    type V = ExecutionView;

    open spec fn view(&self) -> ExecutionView {
        ExecutionView {
            record: self.record@,
            extra_prompt: self.extra_prompt@,
            models: self.models,
            harnesses: texts(self.harnesses@),
            prompt: self.prompt@,
            next_harness: self.next_harness as int,
            ahead: self.ahead,
            stage: self.stage,
        }
    }
}

// ---------------------------------------------------------------------------------------------
// The steps
// ---------------------------------------------------------------------------------------------

/// Awaits the outcome of an action.
pub open spec fn ask(state: ExecutionView, stage: Stage, action: ActionView) -> (
    ExecutionView,
    TurnView,
) {
    (ExecutionView { stage, ..state }, TurnView { event: None, action })
}

/// The work has come to an end.
pub open spec fn finish(
    state: ExecutionView,
    event: Option<(Seq<char>, Seq<char>)>,
    work: Result<(), Seq<char>>,
) -> (ExecutionView, TurnView) {
    (
        ExecutionView { stage: Stage::Finished, ..state },
        TurnView { event, action: ActionView::Finish(work) },
    )
}

/// A run of `git` within the worktree.
pub open spec fn git(arguments: Seq<Seq<char>>) -> ActionView {
    ActionView::Run { program: "git"@, arguments, in_worktree: true }
}

/// Clones the repository.
pub open spec fn clone_step(record: JobView) -> ActionView {
    ActionView::Run {
        program: "gh"@,
        arguments: seq![
            "repo"@,
            "clone"@,
            record.repo,
            record.worktree,
            "--"@,
            "--filter=blob:none"@,
        ],
        in_worktree: false,
    }
}

/// Commits what the agents left.
pub open spec fn commit_step(record: JobView) -> ActionView {
    git(
        seq![
            "-c"@,
            "user.name=board-api"@,
            "-c"@,
            "user.email=board@localhost"@,
            "commit"@,
            "-m"@,
            "Resolve #"@ + decimal(record.issue as nat) + " via board job "@ + short_id(record.id),
        ],
    )
}

/// Opens a pull request.
pub open spec fn open_step(record: JobView) -> ActionView {
    ActionView::Run {
        program: "gh"@,
        arguments: seq![
            "pr"@,
            "create"@,
            "--repo"@,
            record.repo,
            "--head"@,
            record.branch,
            "--fill"@,
            "--body"@,
            "Closes #"@ + decimal(record.issue as nat),
        ],
        in_worktree: true,
    }
}

/// What the agents are told.
pub open spec fn full_prompt(issue: Seq<char>, extra: Seq<char>) -> Seq<char> {
    issue + "\n\n"@ + extra
        + "\n\nWork only in this repository. Implement the issue, run relevant tests, and leave the working tree ready for review. Never print credentials or tokens."@
}

/// Runs the next harness, or looks at what they left once all have run.
pub open spec fn work_step(state: ExecutionView) -> (ExecutionView, TurnView) {
    if state.next_harness < state.harnesses.len() {
        let harness = state.harnesses[state.next_harness];
        let event = Some(("status"@, "running "@ + harness));
        match command_of(
            harness,
            state.record.worktree,
            state.prompt,
            state.record.effort,
            state.models,
        ) {
            Ok((program, arguments)) => (
                ExecutionView {
                    stage: Stage::Working,
                    next_harness: state.next_harness + 1,
                    ..state
                },
                TurnView {
                    event,
                    action: ActionView::Run { program, arguments, in_worktree: true },
                },
            ),
            Err(message) => finish(state, event, Err(message)),
        }
    } else {
        ask(state, Stage::Inspecting, git(seq!["status"@, "--porcelain"@]))
    }
}

/// Counts the commits that the branch is ahead of the default branch.
pub open spec fn count_step(state: ExecutionView) -> (ExecutionView, TurnView) {
    ask(state, Stage::Counting, git(seq!["rev-list"@, "--count"@, "origin/HEAD..HEAD"@]))
}

/// How many commits the output names; zero where it names no number.
pub open spec fn commits_named(output: Seq<char>) -> u64 {
    match spelled_number(trim(output), u64::MAX as nat) {
        Some(number) => number as u64,
        None => 0,
    }
}

/// Pushes the branch, where it is ahead.
pub open spec fn push_step(state: ExecutionView, ahead: u64) -> (ExecutionView, TurnView) {
    if ahead == 0 {
        finish(
            state,
            None,
            Err(
                "agent finished without repository changes; no commit or pull request was created"@,
            ),
        )
    } else {
        ask(
            ExecutionView { ahead, ..state },
            Stage::Pushing,
            git(seq!["push"@, "-u"@, "origin"@, state.record.branch]),
        )
    }
}

/// Records the pull request, where there is one.
pub open spec fn save_step(state: ExecutionView, url: Seq<char>) -> (ExecutionView, TurnView) {
    if url.len() == 0 {
        finish(state, None, Err("GitHub CLI did not return a pull request URL"@))
    } else {
        ask(
            ExecutionView { record: JobView { pr_url: Some(url), ..state.record }, ..state },
            Stage::Saving,
            ActionView::Persist,
        )
    }
}

/// What is to be done after a reply.
pub open spec fn advanced(state: ExecutionView, reply: Reply) -> (ExecutionView, TurnView) {
    match (state.stage, reply) {
        (Stage::Preparing, Reply::Failed(reason)) => finish(
            state,
            None,
            Err("cannot create workspace parent: "@ + reason@),
        ),
        (Stage::Reporting, Reply::Failed(_)) => (
            ExecutionView { stage: Stage::Delivering, ..state },
            TurnView {
                event: Some(
                    ("log"@, "Pull request opened, but the GitHub issue comment failed."@),
                ),
                action: ActionView::MoveCard("board:review"@),
            },
        ),
        (Stage::Finished, _) => finish(state, None, Err("job has already finished"@)),
        (_, Reply::Failed(reason)) => finish(state, None, Err(reason@)),
        (Stage::Checking, _) => ask(state, Stage::Labelling, ActionView::EnsureLabels),
        (Stage::Labelling, _) => ask(
            state,
            Stage::Starting,
            ActionView::MoveCard("board:running"@),
        ),
        (Stage::Starting, _) => ask(state, Stage::Preparing, ActionView::CreateParent),
        (Stage::Preparing, _) => ask(state, Stage::Cloning, clone_step(state.record)),
        (Stage::Cloning, _) => ask(
            state,
            Stage::Branching,
            git(seq!["checkout"@, "-b"@, state.record.branch]),
        ),
        (Stage::Branching, _) => ask(state, Stage::Reading, ActionView::ReadIssue),
        (Stage::Reading, reply) => work_step(
            ExecutionView { prompt: full_prompt(given(reply), state.extra_prompt), ..state },
        ),
        (Stage::Working, _) => work_step(state),
        (Stage::Inspecting, reply) => if is_blank(given(reply)) {
            count_step(state)
        } else {
            ask(state, Stage::Adding, git(seq!["add"@, "-A"@]))
        },
        (Stage::Adding, _) => ask(state, Stage::Committing, commit_step(state.record)),
        (Stage::Committing, _) => count_step(state),
        (Stage::Counting, reply) => push_step(state, commits_named(given(reply))),
        (Stage::Pushing, _) => ask(state, Stage::Looking, ActionView::FindPullRequest),
        (Stage::Looking, reply) => match found(reply) {
            Some(url) => save_step(state, url),
            None => ask(state, Stage::Opening, open_step(state.record)),
        },
        (Stage::Opening, reply) => save_step(state, trim(given(reply))),
        (Stage::Saving, _) => ask(
            state,
            Stage::Reporting,
            ActionView::Comment(opened_report(state.record.id, pr_text(state.record))),
        ),
        (Stage::Reporting, _) => ask(
            state,
            Stage::Delivering,
            ActionView::MoveCard("board:review"@),
        ),
        (Stage::Delivering, _) => ask(state, Stage::Closing, ActionView::Persist),
        (Stage::Closing, _) => finish(state, None, Ok(())),
    }
}

/// The address of a job's pull request.
pub open spec fn pr_text(record: JobView) -> Seq<char> {
    match record.pr_url {
        Some(url) => url,
        None => seq![],
    }
}

/// The state of work that has not begun.
pub open spec fn started(
    record: JobView,
    extra_prompt: Seq<char>,
    models: CursorEffortModels,
) -> ExecutionView {
    ExecutionView {
        record,
        extra_prompt,
        models,
        harnesses: crew_sequence(record.harness, record.crew),
        prompt: seq![],
        next_harness: 0,
        ahead: 0,
        stage: Stage::Checking,
    }
}

impl Execution {
    /// Begins the work of a job. The first thing to do is to see whether it is to stop.
    pub fn start(record: JobRecord, extra_prompt: Option<String>, models: CursorEffortModels) -> (
        result: (Execution, Turn))
        ensures
            result.0@ == started(
                record@,
                match extra_prompt {
                    Some(extra) => extra@,
                    None => seq![],
                },
                models,
            ),
            result.1@ == (TurnView { event: None, action: ActionView::CheckCancelled }),
    {
        let harnesses = crew_of(record.harness.as_str(), &record.crew);
        let extra_prompt = match extra_prompt {
            Some(extra) => extra,
            None => String::new(),
        };
        let execution = Execution {
            record,
            extra_prompt,
            models,
            harnesses,
            prompt: String::new(),
            next_harness: 0,
            ahead: 0,
            stage: Stage::Checking,
        };
        (execution, Turn { event: None, action: Action::CheckCancelled })
    }

    fn asking(&mut self, stage: Stage, action: Action) -> (turn: Turn)
        ensures
            (final(self)@, turn@) == ask(old(self)@, stage, action@),
    {
        self.stage = stage;
        Turn { event: None, action }
    }

    fn finishing(&mut self, event: Option<(&'static str, String)>, work: Result<(), String>) -> (
        turn: Turn)
        ensures
            (final(self)@, turn@) == finish(
                old(self)@,
                match event {
                    Some((kind, line)) => Some((kind@, line@)),
                    None => None,
                },
                match work {
                    Ok(()) => Ok(()),
                    Err(message) => Err(message@),
                },
            ),
    {
        self.stage = Stage::Finished;
        Turn { event, action: Action::Finish(work) }
    }

    fn working(&mut self) -> (turn: Turn)
        ensures
            (final(self)@, turn@) == work_step(old(self)@),
    {
        if self.next_harness < self.harnesses.len() {
            let harness = self.harnesses[self.next_harness].clone();
            assert(harness@ == self@.harnesses[self@.next_harness]);
            let event = Some(("status", "running ".to_owned().concat(harness.as_str())));
            match harness_command(
                harness.as_str(),
                self.record.worktree.as_str(),
                self.prompt.as_str(),
                self.record.effort,
                &self.models,
            ) {
                Ok((program, arguments)) => {
                    self.stage = Stage::Working;
                    self.next_harness = self.next_harness + 1;
                    Turn { event, action: Action::Run { program, arguments, in_worktree: true } }
                },
                Err(message) => self.finishing(event, Err(message)),
            }
        } else {
            self.asking(
                Stage::Inspecting,
                Action::Run {
                    program: "git",
                    arguments: strings(vec!["status", "--porcelain"]),
                    in_worktree: true,
                },
            )
        }
    }

    fn counting(&mut self) -> (turn: Turn)
        ensures
            (final(self)@, turn@) == count_step(old(self)@),
    {
        self.asking(
            Stage::Counting,
            Action::Run {
                program: "git",
                arguments: strings(vec!["rev-list", "--count", "origin/HEAD..HEAD"]),
                in_worktree: true,
            },
        )
    }

    fn pushing(&mut self, ahead: u64) -> (turn: Turn)
        ensures
            (final(self)@, turn@) == push_step(old(self)@, ahead),
    {
        if let Err(message) = crate::jobs::require_repository_change(ahead) {
            return self.finishing(None, Err(message));
        }
        self.ahead = ahead;
        let branch = self.record.branch.clone();
        self.asking(
            Stage::Pushing,
            Action::Run {
                program: "git",
                arguments: strings(vec!["push", "-u", "origin", branch.as_str()]),
                in_worktree: true,
            },
        )
    }

    fn saving(&mut self, url: String) -> (turn: Turn)
        ensures
            (final(self)@, turn@) == save_step(old(self)@, url@),
    {
        if url.as_str().is_empty() {
            return self.finishing(
                None,
                Err("GitHub CLI did not return a pull request URL".to_owned()),
            );
        }
        self.record.pr_url = Some(url);
        self.asking(Stage::Saving, Action::Persist)
    }

    fn cloning(&self) -> (action: Action)
        ensures
            action@ == clone_step(self@.record),
    {
        Action::Run {
            program: "gh",
            arguments: strings(
                vec![
                    "repo",
                    "clone",
                    self.record.repo.as_str(),
                    self.record.worktree.as_str(),
                    "--",
                    "--filter=blob:none",
                ],
            ),
            in_worktree: false,
        }
    }

    fn committing(&self) -> (action: Action)
        ensures
            action@ == commit_step(self@.record),
    {
        let mut message = "Resolve #".to_owned();
        message.append(decimal_of(self.record.issue).as_str());
        message.append(" via board job ");
        message.append(shortened(self.record.id.as_str()).as_str());
        Action::Run {
            program: "git",
            arguments: strings(
                vec![
                    "-c",
                    "user.name=board-api",
                    "-c",
                    "user.email=board@localhost",
                    "commit",
                    "-m",
                    message.as_str(),
                ],
            ),
            in_worktree: true,
        }
    }

    fn opening(&self) -> (action: Action)
        ensures
            action@ == open_step(self@.record),
    {
        let body = "Closes #".to_owned().concat(decimal_of(self.record.issue).as_str());
        Action::Run {
            program: "gh",
            arguments: strings(
                vec![
                    "pr",
                    "create",
                    "--repo",
                    self.record.repo.as_str(),
                    "--head",
                    self.record.branch.as_str(),
                    "--fill",
                    "--body",
                    body.as_str(),
                ],
            ),
            in_worktree: true,
        }
    }

    fn reporting(&self) -> (action: Action)
        ensures
            action@ == ActionView::Comment(
                opened_report(self@.record.id, pr_text(self@.record)),
            ),
    {
        let url = match &self.record.pr_url {
            Some(url) => url.clone(),
            None => String::new(),
        };
        Action::Comment(opened_comment(self.record.id.as_str(), url.as_str()))
    }

    /// Takes in what came of the last step, and says what is to be done next.
    pub fn advance(&mut self, reply: Reply) -> (turn: Turn)
        ensures
            (final(self)@, turn@) == advanced(old(self)@, reply),
    {
        if self.stage == Stage::Finished {
            return self.finishing(None, Err("job has already finished".to_owned()));
        }
        let (text, hit) = match reply {
            Reply::Failed(reason) => {
                if self.stage == Stage::Preparing {
                    return self.finishing(
                        None,
                        Err("cannot create workspace parent: ".to_owned().concat(reason.as_str())),
                    );
                }
                if self.stage == Stage::Reporting {
                    self.stage = Stage::Delivering;
                    return Turn {
                        event: Some(
                            (
                                "log",
                                "Pull request opened, but the GitHub issue comment failed.".to_owned(),
                            ),
                        ),
                        action: Action::MoveCard("board:review"),
                    };
                }
                return self.finishing(None, Err(reason));
            },
            Reply::Done => (String::new(), None),
            Reply::Output(text) => (text, None),
            Reply::Found(hit) => (String::new(), hit),
        };
        assert(text@ == given(reply));
        match self.stage {
            Stage::Checking => self.asking(Stage::Labelling, Action::EnsureLabels),
            Stage::Labelling => self.asking(Stage::Starting, Action::MoveCard("board:running")),
            Stage::Starting => self.asking(Stage::Preparing, Action::CreateParent),
            Stage::Preparing => {
                let action = self.cloning();
                self.asking(Stage::Cloning, action)
            },
            Stage::Cloning => {
                let branch = self.record.branch.clone();
                self.asking(
                    Stage::Branching,
                    Action::Run {
                        program: "git",
                        arguments: strings(vec!["checkout", "-b", branch.as_str()]),
                        in_worktree: true,
                    },
                )
            },
            Stage::Branching => self.asking(Stage::Reading, Action::ReadIssue),
            Stage::Reading => {
                let mut prompt = text;
                prompt.append("\n\n");
                prompt.append(self.extra_prompt.as_str());
                prompt.append(
                    "\n\nWork only in this repository. Implement the issue, run relevant tests, and leave the working tree ready for review. Never print credentials or tokens.",
                );
                self.prompt = prompt;
                self.working()
            },
            Stage::Working => self.working(),
            Stage::Inspecting => if blank(text.as_str()) {
                self.counting()
            } else {
                self.asking(
                    Stage::Adding,
                    Action::Run {
                        program: "git",
                        arguments: strings(vec!["add", "-A"]),
                        in_worktree: true,
                    },
                )
            },
            Stage::Adding => {
                let action = self.committing();
                self.asking(Stage::Committing, action)
            },
            Stage::Committing => self.counting(),
            Stage::Counting => {
                let ahead: u64 = match parse_u64(trimmed(text.as_str()).as_str()) {
                    Some(number) => number,
                    None => 0,
                };
                self.pushing(ahead)
            },
            Stage::Pushing => self.asking(Stage::Looking, Action::FindPullRequest),
            Stage::Looking => match hit {
                Some(url) => self.saving(url),
                None => {
                    let action = self.opening();
                    self.asking(Stage::Opening, action)
                },
            },
            Stage::Opening => {
                let url = trimmed(text.as_str());
                self.saving(url)
            },
            Stage::Saving => {
                let action = self.reporting();
                self.asking(Stage::Reporting, action)
            },
            Stage::Reporting => self.asking(Stage::Delivering, Action::MoveCard("board:review")),
            Stage::Delivering => self.asking(Stage::Closing, Action::Persist),
            Stage::Closing => self.finishing(None, Ok(())),
            Stage::Finished => self.finishing(None, Err("job has already finished".to_owned())),
        }
    }
}

// ---------------------------------------------------------------------------------------------
// Laws
// ---------------------------------------------------------------------------------------------

/// The branch is known to be ahead.
pub open spec fn is_pushing(stage: Stage) -> bool {
    stage == Stage::Pushing || stage == Stage::Looking || stage == Stage::Opening || is_reporting(
        stage,
    )
}

/// The pull request is known.
pub open spec fn is_reporting(stage: Stage) -> bool {
    stage == Stage::Saving || stage == Stage::Reporting || stage == Stage::Delivering || stage
        == Stage::Closing
}

/// From the push on, the branch is ahead; once there is talk of a pull request, there is one.
pub open spec fn sound(state: ExecutionView) -> bool {
    &&& is_pushing(state.stage) ==> state.ahead > 0
    &&& is_reporting(state.stage) ==> state.record.pr_url is Some && state.record.pr_url->0.len()
        > 0
}

/// Work begins sound, and stays so whatever the replies.
pub proof fn work_stays_sound(
    record: JobView,
    extra: Seq<char>,
    models: CursorEffortModels,
    state: ExecutionView,
    reply: Reply,
)
    requires
        sound(state),
    ensures
        sound(started(record, extra, models)),
        sound(advanced(state, reply).0),
{
}

/// Work ends well only with a commit and a pull request to show for it.
pub proof fn delivered_work_has_a_pull_request(state: ExecutionView, reply: Reply)
    requires
        sound(state),
        advanced(state, reply).1.action == ActionView::Finish(Ok(())),
    ensures
        state.stage == Stage::Closing,
        advanced(state, reply).0.ahead > 0,
        advanced(state, reply).0.record.pr_url is Some,
        advanced(state, reply).0.record.pr_url->0.len() > 0,
{
}

/// The state of work after a sequence of replies.
pub open spec fn replayed(state: ExecutionView, replies: Seq<Reply>) -> ExecutionView
    decreases replies.len(),
{
    if replies.len() == 0 {
        state
    } else {
        advanced(replayed(state, replies.drop_last()), replies.last()).0
    }
}

proof fn lemma_replayed(
    record: JobView,
    extra: Seq<char>,
    models: CursorEffortModels,
    replies: Seq<Reply>,
)
    ensures
        sound(replayed(started(record, extra, models), replies)),
        replayed(started(record, extra, models), replies).record == (JobView {
            pr_url: replayed(started(record, extra, models), replies).record.pr_url,
            ..record
        }),
    decreases replies.len(),
{
    if replies.len() > 0 {
        lemma_replayed(record, extra, models, replies.drop_last());
    }
}

/// Whatever the replies from the beginning on, work that ends well has a commit and a pull request
/// to show for it, and leaves the rest of the record as it was.
pub proof fn every_delivery_has_a_pull_request(
    record: JobView,
    extra: Seq<char>,
    models: CursorEffortModels,
    replies: Seq<Reply>,
    reply: Reply,
)
    requires
        advanced(replayed(started(record, extra, models), replies), reply).1.action
            == ActionView::Finish(Ok(())),
    ensures
        ({
            let end = advanced(replayed(started(record, extra, models), replies), reply).0;
            &&& end.ahead > 0
            &&& end.record.pr_url is Some
            &&& end.record.pr_url->0.len() > 0
            &&& end.record == (JobView { pr_url: end.record.pr_url, ..record })
        }),
{
    lemma_replayed(record, extra, models, replies);
}

/// Work changes nothing of a record but the address of its pull request.
pub proof fn work_keeps_the_record(state: ExecutionView, reply: Reply)
    ensures
        advanced(state, reply).0.record == (JobView {
            pr_url: advanced(state, reply).0.record.pr_url,
            ..state.record
        }),
{
}

/// Work that ends well has moved its card to review: the end comes only after the step that stores
/// the record, that step only after the move has succeeded.
pub proof fn success_goes_through_review(state: ExecutionView, reply: Reply)
    ensures
        advanced(state, reply).1.action == ActionView::Finish(Ok(())) ==> state.stage
            == Stage::Closing,
        advanced(state, reply).0.stage == Stage::Closing ==> state.stage == Stage::Delivering
            && reply !is Failed,
        advanced(state, reply).0.stage == Stage::Delivering ==> advanced(state, reply).1.action
            == ActionView::MoveCard("board:review"@),
{
}

/// The harnesses run one after the other, in their order: each run is of the next one.
pub proof fn harnesses_run_in_order(state: ExecutionView, reply: Reply)
    requires
        advanced(state, reply).0.stage == Stage::Working,
    ensures
        state.stage == Stage::Reading || state.stage == Stage::Working,
        0 <= state.next_harness ==> state.next_harness < state.harnesses.len()
            && advanced(state, reply).0.next_harness == state.next_harness + 1
            && advanced(state, reply).1.event == Some(
            ("status"@, "running "@ + state.harnesses[state.next_harness]),
        ),
{
}

/// A step that fails ends the work with its reason, but for the comment that tells of the pull
/// request.
pub proof fn a_failed_step_ends_the_work(state: ExecutionView, reason: String)
    requires
        state.stage != Stage::Reporting,
        state.stage != Stage::Preparing,
        state.stage != Stage::Finished,
    ensures
        advanced(state, Reply::Failed(reason)).1.action == ActionView::Finish(Err(reason@)),
{
}

/// An agent that leaves the branch without a commit ends the work, and nothing is pushed.
pub proof fn work_without_commits_fails(state: ExecutionView, output: String)
    requires
        state.stage == Stage::Counting,
        commits_named(output@) == 0,
    ensures
        advanced(state, Reply::Output(output)).1.action == ActionView::Finish(
            Err(
                "agent finished without repository changes; no commit or pull request was created"@,
            ),
        ),
{
}

/// How far work is from its end: the steps behind the present one, and the harnesses that are
/// still to run.
pub open spec fn remaining(state: ExecutionView) -> int {
    let harnesses = if state.next_harness < state.harnesses.len() {
        state.harnesses.len() - state.next_harness
    } else {
        0
    };
    match state.stage {
        Stage::Checking => harnesses + 20,
        Stage::Labelling => harnesses + 19,
        Stage::Starting => harnesses + 18,
        Stage::Preparing => harnesses + 17,
        Stage::Cloning => harnesses + 16,
        Stage::Branching => harnesses + 15,
        Stage::Reading => harnesses + 14,
        Stage::Working => harnesses + 13,
        Stage::Inspecting => 12,
        Stage::Adding => 11,
        Stage::Committing => 10,
        Stage::Counting => 9,
        Stage::Pushing => 8,
        Stage::Looking => 7,
        Stage::Opening => 6,
        Stage::Saving => 5,
        Stage::Reporting => 4,
        Stage::Delivering => 3,
        Stage::Closing => 2,
        Stage::Finished => 0,
    }
}

/// Every reply brings work nearer to its end, so that it always comes to one.
pub proof fn work_comes_to_an_end(state: ExecutionView, reply: Reply)
    requires
        state.stage != Stage::Finished,
    ensures
        0 <= remaining(advanced(state, reply).0) < remaining(state),
        advanced(state, reply).1.action is Finish <==> advanced(state, reply).0.stage
            == Stage::Finished,
{
}

/// Whenever a harness is run, it is the one whose turn it is, by its own program and arguments,
/// within the worktree, with the job's own prompt, effort and models.
pub proof fn each_harness_is_run_by_its_own_program(state: ExecutionView, reply: Reply)
    requires
        advanced(state, reply).0.stage == Stage::Working,
        0 <= state.next_harness,
    ensures
        ({
            let (after, turn) = advanced(state, reply);
            let harness = state.harnesses[state.next_harness];
            &&& state.next_harness < state.harnesses.len()
            &&& after.next_harness == state.next_harness + 1
            &&& turn.action matches ActionView::Run { program, arguments, in_worktree }
            &&& in_worktree
            &&& command_of(
                harness,
                state.record.worktree,
                after.prompt,
                state.record.effort,
                state.models,
            ) == Ok::<(Seq<char>, Seq<Seq<char>>), Seq<char>>((program, arguments))
            &&& harness == "codex"@ && program == "codex"@ || harness == "grok"@ && program
                == "grok"@ || harness == "cursor"@ && program == "cursor-agent"@
            &&& arguments.contains(after.prompt)
            &&& arguments.contains(state.record.worktree)
        }),
{
    let after = advanced(state, reply).0;
    crate::harness::each_harness_is_its_own_program(
        state.harnesses[state.next_harness],
        state.record.worktree,
        after.prompt,
        state.record.effort,
        state.models,
    );
}

/// What work asks for, reply by reply.
pub open spec fn actions_of(state: ExecutionView, replies: Seq<Reply>) -> Seq<ActionView>
    decreases replies.len(),
{
    if replies.len() == 0 {
        seq![]
    } else {
        actions_of(state, replies.drop_last()).push(
            advanced(replayed(state, replies.drop_last()), replies.last()).1.action,
        )
    }
}

/// The runs of harnesses among what work asks for.
pub open spec fn harness_runs(state: ExecutionView, replies: Seq<Reply>) -> Seq<ActionView>
    decreases replies.len(),
{
    if replies.len() == 0 {
        seq![]
    } else {
        let earlier = harness_runs(state, replies.drop_last());
        let (after, turn) = advanced(replayed(state, replies.drop_last()), replies.last());
        if after.stage == Stage::Working {
            earlier.push(turn.action)
        } else {
            earlier
        }
    }
}

/// No harness has run yet.
pub open spec fn is_preparing(stage: Stage) -> bool {
    stage == Stage::Checking || stage == Stage::Labelling || stage == Stage::Starting || stage
        == Stage::Preparing || stage == Stage::Cloning || stage == Stage::Branching || stage
        == Stage::Reading
}

proof fn lemma_runs(
    record: JobView,
    extra: Seq<char>,
    models: CursorEffortModels,
    replies: Seq<Reply>,
)
    ensures
        ({
            let start = started(record, extra, models);
            let end = replayed(start, replies);
            let runs = harness_runs(start, replies);
            let sequence = crew_sequence(record.harness, record.crew);
            &&& end.harnesses == sequence
            &&& end.models == models
            &&& end.extra_prompt == extra
            &&& end.record.worktree == record.worktree
            &&& end.record.effort == record.effort
            &&& end.next_harness == runs.len()
            &&& runs.len() <= sequence.len()
            &&& is_preparing(end.stage) ==> runs.len() == 0
            &&& !is_preparing(end.stage) && end.stage != Stage::Working && end.stage
                != Stage::Finished ==> runs.len() == sequence.len()
            &&& forall|k: int|
                0 <= k < runs.len() ==> ((#[trigger] runs[k]) matches ActionView::Run {
                    program,
                    arguments,
                    in_worktree,
                } && in_worktree && command_of(
                    sequence[k],
                    record.worktree,
                    end.prompt,
                    record.effort,
                    models,
                ) == Ok::<(Seq<char>, Seq<Seq<char>>), Seq<char>>((program, arguments)))
        }),
    decreases replies.len(),
{
    let start = started(record, extra, models);
    if replies.len() == 0 {
        crate::harness::the_primary_leads_and_none_runs_twice(
            record.harness,
            record.crew,
            record.harness,
        );
    } else {
        let earlier = replies.drop_last();
        lemma_runs(record, extra, models, earlier);
        let before = replayed(start, earlier);
        let end = replayed(start, replies);
        let runs = harness_runs(start, replies);
        let past = harness_runs(start, earlier);
        let sequence = crew_sequence(record.harness, record.crew);
        if end.stage == Stage::Working {
            each_harness_is_run_by_its_own_program(before, replies.last());
        }
        assert forall|k: int| 0 <= k < runs.len() implies ((#[trigger] runs[k]) matches
            ActionView::Run { program, arguments, in_worktree } && in_worktree && command_of(
            sequence[k],
            record.worktree,
            end.prompt,
            record.effort,
            models,
        ) == Ok::<(Seq<char>, Seq<Seq<char>>), Seq<char>>((program, arguments))) by {
            if k < past.len() {
                assert(runs[k] == past[k]);
                assert(before.stage != Stage::Reading);
                assert(end.prompt == before.prompt);
            }
        }
    }
}

/// Over a whole run, whatever the replies, the harnesses of the job are run one after the other,
/// the primary one first, each once and each by its own program within the worktree; and nothing of
/// what they left is looked at, committed or pushed before all of them have run.
pub proof fn every_harness_is_run_once_by_its_own_program(
    record: JobView,
    extra: Seq<char>,
    models: CursorEffortModels,
    replies: Seq<Reply>,
    k: int,
)
    ensures
        ({
            let start = started(record, extra, models);
            let runs = harness_runs(start, replies);
            let sequence = crew_sequence(record.harness, record.crew);
            let stage = replayed(start, replies).stage;
            &&& runs.len() <= sequence.len()
            &&& is_pushing(stage) || stage == Stage::Inspecting || stage == Stage::Adding || stage
                == Stage::Committing || stage == Stage::Counting ==> runs.len() == sequence.len()
            &&& 0 <= k < runs.len() ==> (runs[k] matches ActionView::Run {
                program,
                arguments,
                in_worktree,
            } && in_worktree && (sequence[k] == "codex"@ && program == "codex"@ || sequence[k]
                == "grok"@ && program == "grok"@ || sequence[k] == "cursor"@ && program
                == "cursor-agent"@) && arguments.contains(replayed(start, replies).prompt)
                && arguments.contains(record.worktree))
        }),
{
    lemma_runs(record, extra, models, replies);
    let end = replayed(started(record, extra, models), replies);
    let sequence = crew_sequence(record.harness, record.crew);
    if 0 <= k < harness_runs(started(record, extra, models), replies).len() {
        let run = harness_runs(started(record, extra, models), replies)[k];
        crate::harness::each_harness_is_its_own_program(
            sequence[k],
            record.worktree,
            end.prompt,
            record.effort,
            models,
        );
    }
}

/// Some step failed.
pub open spec fn some_failed(replies: Seq<Reply>) -> bool {
    exists|k: int| 0 <= k < replies.len() && (#[trigger] replies[k]) is Failed
}

/// Work begins on a new branch of a fresh clone: once it is known that the job may go on, the
/// repository gets its labels, the card is moved, the clone is made in the worktree, the branch is
/// checked out, and the issue is read.
pub proof fn work_begins_on_a_new_branch(
    record: JobView,
    extra: Seq<char>,
    models: CursorEffortModels,
    replies: Seq<Reply>,
)
    requires
        replies.len() == 6,
        !some_failed(replies),
    ensures
        actions_of(started(record, extra, models), replies) == seq![
            ActionView::EnsureLabels,
            ActionView::MoveCard("board:running"@),
            ActionView::CreateParent,
            ActionView::Run {
                program: "gh"@,
                arguments: seq![
                    "repo"@,
                    "clone"@,
                    record.repo,
                    record.worktree,
                    "--"@,
                    "--filter=blob:none"@,
                ],
                in_worktree: false,
            },
            ActionView::Run {
                program: "git"@,
                arguments: seq!["checkout"@, "-b"@, record.branch],
                in_worktree: true,
            },
            ActionView::ReadIssue,
        ],
        replayed(started(record, extra, models), replies) == (ExecutionView {
            stage: Stage::Reading,
            ..started(record, extra, models)
        }),
{
    let start = started(record, extra, models);
    let r1 = replies.drop_last();
    let r2 = r1.drop_last();
    let r3 = r2.drop_last();
    let r4 = r3.drop_last();
    let r5 = r4.drop_last();
    assert(r5.drop_last() == Seq::<Reply>::empty());
    assert(!(replies[0] is Failed) && !(replies[1] is Failed) && !(replies[2] is Failed) && !(
    replies[3] is Failed) && !(replies[4] is Failed) && !(replies[5] is Failed));
    reveal_with_fuel(replayed, 7);
    reveal_with_fuel(actions_of, 7);
    assert(r5.last() == replies[0]);
    assert(r4.last() == replies[1]);
    assert(r3.last() == replies[2]);
    assert(r2.last() == replies[3]);
    assert(r1.last() == replies[4]);
    assert(replayed(start, r5).stage == Stage::Labelling);
    assert(replayed(start, r4).stage == Stage::Starting);
    assert(replayed(start, r3).stage == Stage::Preparing);
    assert(replayed(start, r2).stage == Stage::Cloning);
    assert(replayed(start, r1).stage == Stage::Branching);
}

/// The agents are told what the issue says, what the request adds, and what holds of all work.
pub proof fn the_agents_are_told_the_issue_and_the_request(state: ExecutionView, issue: String)
    requires
        state.stage == Stage::Reading,
    ensures
        advanced(state, Reply::Output(issue)).0.prompt == issue@ + "\n\n"@ + state.extra_prompt
            + "\n\nWork only in this repository. Implement the issue, run relevant tests, and leave the working tree ready for review. Never print credentials or tokens."@,
{
}

/// The prompt stays what it is once the issue was read.
pub proof fn the_prompt_stays(state: ExecutionView, reply: Reply)
    requires
        state.stage != Stage::Reading,
    ensures
        advanced(state, reply).0.prompt == state.prompt,
        advanced(state, reply).0.harnesses == state.harnesses,
        advanced(state, reply).0.extra_prompt == state.extra_prompt,
        advanced(state, reply).0.models == state.models,
{
}

/// What the agents left is committed where there is anything, with a message that names the issue
/// and the job; the commits are counted in either case, and where there are some the job's branch is
/// pushed and its pull request is looked for.
pub proof fn changes_are_committed_and_pushed(
    state: ExecutionView,
    left: String,
    added: Reply,
    committed: Reply,
    counted: String,
    count: u64,
    pushed: Reply,
)
    requires
        state.stage == Stage::Inspecting,
        !(added is Failed),
        !(committed is Failed),
        !(pushed is Failed),
        trim(counted@) == decimal(count as nat),
        count > 0,
    ensures
        ({
            let count_action = ActionView::Run {
                program: "git"@,
                arguments: seq!["rev-list"@, "--count"@, "origin/HEAD..HEAD"@],
                in_worktree: true,
            };
            let push_action = ActionView::Run {
                program: "git"@,
                arguments: seq!["push"@, "-u"@, "origin"@, state.record.branch],
                in_worktree: true,
            };
            let first = advanced(state, Reply::Output(left));
            if exists|k: int| 0 <= k < left@.len() && !crate::text::is_space(#[trigger] left@[k]) {
                let second = advanced(first.0, added);
                let third = advanced(second.0, committed);
                let fourth = advanced(third.0, Reply::Output(counted));
                &&& first.1.action == ActionView::Run {
                    program: "git"@,
                    arguments: seq!["add"@, "-A"@],
                    in_worktree: true,
                }
                &&& second.1.action matches ActionView::Run { program, arguments, in_worktree }
                &&& program == "git"@ && in_worktree && arguments == seq![
                    "-c"@,
                    "user.name=board-api"@,
                    "-c"@,
                    "user.email=board@localhost"@,
                    "commit"@,
                    "-m"@,
                    "Resolve #"@ + decimal(state.record.issue as nat) + " via board job "@
                        + short_id(state.record.id),
                ]
                &&& third.1.action == count_action
                &&& fourth.1.action == push_action
                &&& advanced(fourth.0, pushed).1.action == ActionView::FindPullRequest
            } else {
                let second = advanced(first.0, Reply::Output(counted));
                &&& first.1.action == count_action
                &&& second.1.action == push_action
                &&& advanced(second.0, pushed).1.action == ActionView::FindPullRequest
            }
        }),
{
    crate::text::numbers_read_back(count as nat, u64::MAX as nat, seq![]);
    assert(commits_named(counted@) == count);
}

/// A pull request that is there is taken over; else one is opened for the job's branch, which
/// closes the issue, and its address is what the command line printed. Without an address the work
/// has failed.
pub proof fn a_pushed_branch_gets_one_pull_request(
    state: ExecutionView,
    url: String,
    printed: String,
)
    requires
        state.stage == Stage::Looking,
    ensures
        url@.len() > 0 ==> {
            let (after, turn) = advanced(state, Reply::Found(Some(url)));
            turn.action == ActionView::Persist && after.record == (JobView {
                pr_url: Some(url@),
                ..state.record
            })
        },
        ({
            let (asked, turn) = advanced(state, Reply::Found(None));
            let (after, next) = advanced(asked, Reply::Output(printed));
            &&& turn.action == ActionView::Run {
                program: "gh"@,
                arguments: seq![
                    "pr"@,
                    "create"@,
                    "--repo"@,
                    state.record.repo,
                    "--head"@,
                    state.record.branch,
                    "--fill"@,
                    "--body"@,
                    "Closes #"@ + decimal(state.record.issue as nat),
                ],
                in_worktree: true,
            }
            &&& trim(printed@).len() > 0 ==> next.action == ActionView::Persist && after.record == (
            JobView { pr_url: Some(trim(printed@)), ..state.record })
            &&& trim(printed@).len() == 0 ==> next.action == ActionView::Finish(
                Err("GitHub CLI did not return a pull request URL"@),
            )
        }),
{
}

/// Once the pull request is stored the issue is told of it, the card goes to review whether or not
/// that worked, the record is stored, and the work has ended well.
pub proof fn delivered_work_is_told_and_goes_to_review(
    state: ExecutionView,
    url: Seq<char>,
    saved: Reply,
    told: Reply,
    moved: Reply,
    stored: Reply,
)
    requires
        state.stage == Stage::Saving,
        state.record.pr_url == Some(url),
        !(saved is Failed),
        !(moved is Failed),
        !(stored is Failed),
    ensures
        ({
            let first = advanced(state, saved);
            let second = advanced(first.0, told);
            let third = advanced(second.0, moved);
            let fourth = advanced(third.0, stored);
            &&& first.1.action == ActionView::Comment(
                "Board job `"@ + state.record.id + "` opened "@ + url,
            )
            &&& second.1.action == ActionView::MoveCard("board:review"@)
            &&& second.1.event is Some <==> told is Failed
            &&& third.1.action == ActionView::Persist
            &&& fourth.1.action == ActionView::Finish(Ok(()))
            &&& fourth.0.record == state.record
        }),
{
}

/// Where all harnesses have run, the worktree is looked at; where the next one is not known, the
/// work ends with the reason, and it is not run.
pub proof fn the_worktree_is_looked_at_once_all_have_run(state: ExecutionView, reply: Reply)
    requires
        state.stage == Stage::Working,
        !(reply is Failed),
        0 <= state.next_harness <= state.harnesses.len(),
    ensures
        state.next_harness == state.harnesses.len() ==> advanced(state, reply).1.action == (
        ActionView::Run {
            program: "git"@,
            arguments: seq!["status"@, "--porcelain"@],
            in_worktree: true,
        }) && advanced(state, reply).0.stage == Stage::Inspecting,
        state.next_harness < state.harnesses.len() ==> {
            let harness = state.harnesses[state.next_harness];
            if harness == "codex"@ || harness == "grok"@ || harness == "cursor"@ {
                advanced(state, reply).0.stage == Stage::Working
            } else {
                advanced(state, reply).1.action == ActionView::Finish(
                    Err("unsupported harness "@ + harness),
                )
            }
        },
{
    if state.next_harness < state.harnesses.len() {
        crate::harness::each_harness_is_its_own_program(
            state.harnesses[state.next_harness],
            state.record.worktree,
            state.prompt,
            state.record.effort,
            state.models,
        );
    }
}

/// Work that could not make the directory for its worktree says so; work that has ended stays so.
pub proof fn work_says_why_it_ended(state: ExecutionView, reply: Reply, reason: String)
    ensures
        state.stage == Stage::Preparing ==> advanced(state, Reply::Failed(reason)).1.action
            == ActionView::Finish(Err("cannot create workspace parent: "@ + reason@)),
        state.stage == Stage::Finished ==> advanced(state, reply).1.action == ActionView::Finish(
            Err("job has already finished"@),
        ) && advanced(state, reply).0 == state,
        state.stage == Stage::Reporting ==> !(advanced(
            state,
            Reply::Failed(reason),
        ).1.action is Finish),
{
}

} // verus!
