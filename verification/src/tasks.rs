//! Requests about the cards of one repository, step by step: what the GitHub command line is to be
//! asked next, given what came of the last question.
use crate::board::Github;
use crate::cards::{
    bad_issue_json, card_of, cards_of, is_card_page, list_arguments, card_page,
    list_cards_arguments, move_arguments, move_card_arguments, parse_issue, parse_issues, RawIssue,
};
use crate::error::{ApiError, ErrorView};
use crate::github::{
    bad_address, bad_column, bad_page, bad_repo, card_problem, create_arguments,
    create_card_arguments, created_issue_number, get_card_arguments,
    issue_number, label_commands, login_status_arguments, map_not_found, new_card_problem,
    not_found_error, not_logged_in, status_arguments, validate_card_args, validate_column_arg,
    validate_new_card, validate_repo_arg, view_arguments,
};
use crate::model::{is_column, is_repo, maybe_str, Card, CardView, CreateCardRequest, Page};
use crate::text::{maybe_text, texts, trim};
use vstd::prelude::*;

verus! {

// ---------------------------------------------------------------------------------------------
// One card: reading, creating and moving it
// ---------------------------------------------------------------------------------------------

/// What is wanted of a card.
#[derive(Clone, Copy, Debug, PartialEq, Eq, Structural)]
pub enum Goal {
    Read,
    Create,
    Move,
}

/// The question whose answer is awaited.
#[derive(Clone, Copy, Debug, PartialEq, Eq, Structural)]
pub enum TaskStage {
    /// Is the command line logged in?
    SigningIn,
    /// Has the repository the next label?
    Labelling,
    /// Is the issue created?
    Creating,
    /// Is the command line still logged in?
    Checking,
    /// What does the issue say?
    Reading,
    /// Are the labels of the issue changed?
    Changing,
    /// None: the request is answered.
    Finished,
}

/// A request about one card under way.
pub struct CardTask {
    goal: Goal,
    repo: String,
    number: u64,
    column: String,
    title: String,
    body: String,
    labelled: usize,
    changed: bool,
    stage: TaskStage,
}

/// The state of a [`CardTask`].
#[verifier::ext_equal]
pub struct TaskView {
    pub goal: Goal,
    pub repo: Seq<char>,
    pub number: u64,
    pub column: Seq<char>,
    pub title: Seq<char>,
    pub body: Seq<char>,
    pub labelled: int,
    pub changed: bool,
    pub stage: TaskStage,
}

impl View for CardTask {
    type V = TaskView;

    closed spec fn view(&self) -> TaskView {
        TaskView {
            goal: self.goal,
            repo: self.repo@,
            number: self.number,
            column: self.column@,
            title: self.title@,
            body: self.body@,
            labelled: self.labelled as int,
            changed: self.changed,
            stage: self.stage,
        }
    }
}

/// What is to be done next.
pub enum TaskStep {
    /// Run the command line with these arguments, and tell what it printed.
    Run(Vec<String>),
    /// Run the command line with these arguments, and read the issue that it printed.
    Show(Vec<String>),
    /// The request is answered.
    Finish(Result<Card, ApiError>),
}

/// What a [`TaskStep`] says.
#[verifier::ext_equal]
pub enum TaskStepView {
    Run(Seq<Seq<char>>),
    Show(Seq<Seq<char>>),
    Finish(Result<CardView, ErrorView>),
}

impl View for TaskStep {
    type V = TaskStepView;

    open spec fn view(&self) -> TaskStepView {
        match *self {
            TaskStep::Run(arguments) => TaskStepView::Run(texts(arguments@)),
            TaskStep::Show(arguments) => TaskStepView::Show(texts(arguments@)),
            TaskStep::Finish(answer) => TaskStepView::Finish(
                match answer {
                    Ok(card) => Ok(card@),
                    Err(error) => Err(error@),
                },
            ),
        }
    }
}

/// What came of a step: what the command line printed, or the issue in it.
pub enum TaskReply {
    Printed(Result<String, ApiError>),
    Issue(Result<Result<RawIssue, String>, ApiError>),
}

/// Awaits what the command line prints.
pub open spec fn asking(task: TaskView, stage: TaskStage, arguments: Seq<Seq<char>>) -> (
    TaskView,
    TaskStepView,
) {
    (TaskView { stage, ..task }, TaskStepView::Run(arguments))
}

/// The request is answered.
pub open spec fn answering(task: TaskView, answer: Result<CardView, ErrorView>) -> (
    TaskView,
    TaskStepView,
) {
    (TaskView { stage: TaskStage::Finished, ..task }, TaskStepView::Finish(answer))
}

/// Reads the card, where its arguments are valid: first it is made sure that the command line is
/// logged in.
pub open spec fn read_step(task: TaskView) -> (TaskView, TaskStepView) {
    match card_problem(task.repo, task.number) {
        Some(error) => answering(task, Err(error)),
        None => asking(task, TaskStage::Checking, status_arguments()),
    }
}

/// Gives the repository the next label; once it has all of them, creates the issue or reads the
/// card that is to be moved.
pub open spec fn label_step(task: TaskView) -> (TaskView, TaskStepView) {
    if task.labelled < label_commands(task.repo).len() {
        asking(task, TaskStage::Labelling, label_commands(task.repo)[task.labelled])
    } else if task.goal == Goal::Create {
        asking(
            task,
            TaskStage::Creating,
            create_arguments(task.repo, task.title, task.body, task.column),
        )
    } else {
        read_step(task)
    }
}

/// What is to be done once the issue was read: the answer, or the change of its labels.
pub open spec fn after_reading(task: TaskView, reply: Result<Result<RawIssue, String>, ApiError>)
    -> (TaskView, TaskStepView) {
    match reply {
        Err(error) => answering(task, Err(not_found_error(error@, "card"@))),
        Ok(Err(reason)) => answering(task, Err(bad_issue_json(reason@))),
        Ok(Ok(issue)) => if task.changed {
            answering(task, Ok(card_of(issue)))
        } else {
            asking(
                task,
                TaskStage::Changing,
                move_arguments(
                    task.repo,
                    task.number as nat,
                    task.column,
                    card_of(issue).labels,
                ),
            )
        },
    }
}

/// What is to be done once the command line has printed something.
pub open spec fn after_printing(task: TaskView, reply: Result<String, ApiError>) -> (
    TaskView,
    TaskStepView,
) {
    match (task.stage, reply) {
        (TaskStage::SigningIn, Err(_)) => answering(task, Err(not_logged_in())),
        (TaskStage::Checking, Err(_)) => answering(task, Err(not_logged_in())),
        (_, Err(error)) => answering(task, Err(error@)),
        (TaskStage::SigningIn, Ok(_)) => label_step(task),
        (TaskStage::Labelling, Ok(_)) => label_step(
            TaskView { labelled: task.labelled + 1, ..task },
        ),
        (TaskStage::Creating, Ok(url)) => match issue_number(url@) {
            Some(number) => read_step(TaskView { number: number as u64, changed: true, ..task }),
            None => answering(task, Err(bad_address())),
        },
        (TaskStage::Checking, Ok(_)) => (
            TaskView { stage: TaskStage::Reading, ..task },
            TaskStepView::Show(view_arguments(task.repo, task.number as nat)),
        ),
        (_, Ok(_)) => read_step(TaskView { changed: true, ..task }),
    }
}

/// What is to be done after a reply.
pub open spec fn task_advanced(task: TaskView, reply: TaskReply) -> (TaskView, TaskStepView) {
    match reply {
        TaskReply::Printed(printed) => after_printing(task, printed),
        TaskReply::Issue(issue) => after_reading(task, issue),
    }
}

/// The reply answers the question that was asked.
pub open spec fn fits(stage: TaskStage, reply: TaskReply) -> bool {
    stage != TaskStage::Finished && (stage == TaskStage::Reading <==> reply is Issue)
}

/// While labels are given, there is a next one.
pub open spec fn task_wf(task: TaskView) -> bool {
    &&& 0 <= task.labelled <= label_commands(task.repo).len()
    &&& task.stage == TaskStage::Labelling ==> task.labelled < label_commands(task.repo).len()
}

/// A request to read a card.
pub open spec fn reading_task(repo: Seq<char>, number: u64) -> TaskView {
    TaskView {
        goal: Goal::Read,
        repo,
        number,
        column: seq![],
        title: seq![],
        body: seq![],
        labelled: 0,
        changed: true,
        stage: TaskStage::SigningIn,
    }
}

/// A request to create a card.
pub open spec fn creating_task(request: CreateCardRequest) -> TaskView {
    TaskView {
        goal: Goal::Create,
        repo: request.repo@,
        number: 0,
        column: request.column@,
        title: trim(request.title@),
        body: request.body@,
        labelled: 0,
        changed: false,
        stage: TaskStage::SigningIn,
    }
}

/// A request to move a card.
pub open spec fn moving_task(repo: Seq<char>, number: u64, column: Seq<char>) -> TaskView {
    TaskView {
        goal: Goal::Move,
        repo,
        number,
        column,
        title: seq![],
        body: seq![],
        labelled: 0,
        changed: false,
        stage: TaskStage::SigningIn,
    }
}

/// What is wrong with a request to move a card, before the card is looked at.
pub open spec fn move_problem(repo: Seq<char>, column: Seq<char>) -> Option<ErrorView> {
    if !is_repo(repo) {
        Some(bad_repo())
    } else if !is_column(column) {
        Some(bad_column())
    } else {
        None
    }
}

/// Begins with a question to the command line, unless something is wrong with the request.
pub open spec fn begun_task(task: TaskView, problem: Option<ErrorView>) -> (
    TaskView,
    TaskStepView,
) {
    match problem {
        Some(error) => answering(task, Err(error)),
        None => asking(task, TaskStage::SigningIn, status_arguments()),
    }
}

impl Github {
    /// Begins to read a card.
    pub fn get_card(repo: &str, number: u64) -> (result: (CardTask, TaskStep))
        ensures
            (result.0@, result.1@) == read_step(reading_task(repo@, number)),
            task_wf(result.0@),
    {
        let mut task = CardTask {
            goal: Goal::Read,
            repo: repo.to_owned(),
            number,
            column: String::new(),
            title: String::new(),
            body: String::new(),
            labelled: 0,
            changed: true,
            stage: TaskStage::SigningIn,
        };
        assert(task@ == reading_task(repo@, number));
        let step = task.reading();
        (task, step)
    }

    /// Begins to create a card.
    pub fn create_card(request: &CreateCardRequest) -> (result: (CardTask, TaskStep))
        ensures
            (result.0@, result.1@) == begun_task(
                creating_task(*request),
                new_card_problem(*request),
            ),
            task_wf(result.0@),
    {
        let checked = validate_new_card(request);
        let mut task = CardTask {
            goal: Goal::Create,
            repo: request.repo.clone(),
            number: 0,
            column: request.column.clone(),
            title: crate::text::trimmed(request.title.as_str()),
            body: request.body.clone(),
            labelled: 0,
            changed: false,
            stage: TaskStage::SigningIn,
        };
        assert(task@ == creating_task(*request));
        let step = match checked {
            Err(error) => task.answered(Err(error)),
            Ok(_) => task.asked(TaskStage::SigningIn, login_status_arguments()),
        };
        (task, step)
    }

    /// Begins to move a card.
    pub fn move_card(repo: &str, number: u64, column: &str) -> (result: (CardTask, TaskStep))
        ensures
            (result.0@, result.1@) == begun_task(
                moving_task(repo@, number, column@),
                move_problem(repo@, column@),
            ),
            task_wf(result.0@),
    {
        let mut task = CardTask {
            goal: Goal::Move,
            repo: repo.to_owned(),
            number,
            column: column.to_owned(),
            title: String::new(),
            body: String::new(),
            labelled: 0,
            changed: false,
            stage: TaskStage::SigningIn,
        };
        assert(task@ == moving_task(repo@, number, column@));
        let step = match validate_repo_arg(repo) {
            Err(error) => task.answered(Err(error)),
            Ok(()) => match validate_column_arg(column) {
                Err(error) => task.answered(Err(error)),
                Ok(()) => task.asked(TaskStage::SigningIn, login_status_arguments()),
            },
        };
        (task, step)
    }
}

impl CardTask {
    fn asked(&mut self, stage: TaskStage, arguments: Vec<String>) -> (step: TaskStep)
        ensures
            (final(self)@, step@) == asking(old(self)@, stage, texts(arguments@)),
    {
        self.stage = stage;
        TaskStep::Run(arguments)
    }

    fn answered(&mut self, answer: Result<Card, ApiError>) -> (step: TaskStep)
        ensures
            (final(self)@, step@) == answering(
                old(self)@,
                match answer {
                    Ok(card) => Ok(card@),
                    Err(error) => Err(error@),
                },
            ),
    {
        self.stage = TaskStage::Finished;
        TaskStep::Finish(answer)
    }

    fn reading(&mut self) -> (step: TaskStep)
        ensures
            (final(self)@, step@) == read_step(old(self)@),
    {
        match validate_card_args(self.repo.as_str(), self.number) {
            Err(error) => self.answered(Err(error)),
            Ok(()) => self.asked(TaskStage::Checking, login_status_arguments()),
        }
    }

    fn labelling(&mut self) -> (step: TaskStep)
        requires
            0 <= old(self)@.labelled <= label_commands(old(self)@.repo).len(),
        ensures
            (final(self)@, step@) == label_step(old(self)@),
    {
        let mut commands = Github::ensure_labels(self.repo.as_str());
        assert(commands@.len() == label_commands(self@.repo).len());
        if self.labelled < commands.len() {
            let ghost at = self.labelled as int;
            assert(crate::github::nested_texts(commands@)[at] == texts(commands@[at]@));
            let command = commands.remove(self.labelled);
            return self.asked(TaskStage::Labelling, command);
        }
        if self.goal == Goal::Create {
            let arguments = create_card_arguments(
                self.repo.as_str(),
                self.title.as_str(),
                self.body.as_str(),
                self.column.as_str(),
            );
            return self.asked(TaskStage::Creating, arguments);
        }
        self.reading()
    }

    fn read_issue(&mut self, reply: Result<Result<RawIssue, String>, ApiError>) -> (step: TaskStep)
        ensures
            (final(self)@, step@) == after_reading(old(self)@, reply),
    {
        let decoded = match reply {
            Err(error) => {
                return self.answered(Err(map_not_found("card", error)));
            },
            Ok(decoded) => decoded,
        };
        let card = match parse_issue(decoded) {
            Err(error) => {
                return self.answered(Err(error));
            },
            Ok(card) => card,
        };
        if self.changed {
            return self.answered(Ok(card));
        }
        let arguments = move_card_arguments(
            self.repo.as_str(),
            self.number,
            self.column.as_str(),
            &card.labels,
        );
        self.asked(TaskStage::Changing, arguments)
    }

    fn printed(&mut self, reply: Result<String, ApiError>) -> (step: TaskStep)
        requires
            task_wf(old(self)@),
        ensures
            (final(self)@, step@) == after_printing(old(self)@, reply),
    {
        if self.stage == TaskStage::SigningIn || self.stage == TaskStage::Checking {
            if let Err(error) = Github::require_login(reply) {
                return self.answered(Err(error));
            }
            if self.stage == TaskStage::SigningIn {
                return self.labelling();
            }
            self.stage = TaskStage::Reading;
            return TaskStep::Show(get_card_arguments(self.repo.as_str(), self.number));
        }
        let text = match reply {
            Err(error) => {
                return self.answered(Err(error));
            },
            Ok(text) => text,
        };
        if self.stage == TaskStage::Labelling {
            self.labelled = self.labelled + 1;
            return self.labelling();
        }
        if self.stage == TaskStage::Creating {
            match created_issue_number(text.as_str()) {
                Err(error) => {
                    return self.answered(Err(error));
                },
                Ok(number) => {
                    self.number = number;
                },
            }
        }
        self.changed = true;
        self.reading()
    }

    /// Takes in what came of the last step, and says what is to be done next.
    pub fn advance(&mut self, reply: TaskReply) -> (step: TaskStep)
        requires
            task_wf(old(self)@),
            fits(old(self)@.stage, reply),
        ensures
            (final(self)@, step@) == task_advanced(old(self)@, reply),
            task_wf(final(self)@),
    {
        match reply {
            TaskReply::Printed(printed) => self.printed(printed),
            TaskReply::Issue(issue) => self.read_issue(issue),
        }
    }
}

// ---------------------------------------------------------------------------------------------
// A page of cards
// ---------------------------------------------------------------------------------------------

/// The question whose answer is awaited.
#[derive(Clone, Copy, Debug, PartialEq, Eq, Structural)]
pub enum ListStage {
    SigningIn,
    Listing,
    Finished,
}

/// A request for a page of cards under way.
pub struct ListTask {
    repo: String,
    column: Option<String>,
    page: usize,
    per_page: usize,
    stage: ListStage,
}

/// The state of a [`ListTask`].
#[verifier::ext_equal]
pub struct ListView {
    pub repo: Seq<char>,
    pub column: Option<Seq<char>>,
    pub page: int,
    pub per_page: int,
    pub stage: ListStage,
}

impl View for ListTask {
    type V = ListView;

    closed spec fn view(&self) -> ListView {
        ListView {
            repo: self.repo@,
            column: maybe_text(self.column),
            page: self.page as int,
            per_page: self.per_page as int,
            stage: self.stage,
        }
    }
}

/// Pages are counted from one, and the issues are listed only where the page is within reach.
pub open spec fn list_wf(task: ListView) -> bool {
    &&& task.page >= 1
    &&& task.per_page >= 0
    &&& task.stage == ListStage::Listing ==> task.page * task.per_page <= 5_000
}

/// What is to be done next.
pub enum ListStep {
    /// Run the command line with these arguments, and tell what it printed.
    Run(Vec<String>),
    /// Run the command line with these arguments, and read the issues that it printed.
    Show(Vec<String>),
    /// The request is answered.
    Finish(Result<Page<Card>, ApiError>),
}

/// What is wrong with a request for a page of cards, before the page is looked at.
pub open spec fn list_problem(repo: Seq<char>, column: Option<Seq<char>>) -> Option<ErrorView> {
    if !is_repo(repo) {
        Some(bad_repo())
    } else if column is Some && !is_column(column->0) {
        Some(bad_column())
    } else {
        None
    }
}

impl ListTask {
    /// Takes in whether the command line is logged in; the issues are listed where it is, and
    /// where they are no more than can be asked for.
    pub fn signed_in(&mut self, status: Result<String, ApiError>) -> (step: ListStep)
        requires
            list_wf(old(self)@),
            old(self)@.stage == ListStage::SigningIn,
        ensures
            list_wf(final(self)@),
            if status is Err {
                final(self)@ == (ListView { stage: ListStage::Finished, ..old(self)@ }) && (
                step matches ListStep::Finish(Err(said)) && said@ == not_logged_in())
            } else if old(self)@.page * old(self)@.per_page > 5_000 {
                final(self)@ == (ListView { stage: ListStage::Finished, ..old(self)@ }) && (
                step matches ListStep::Finish(Err(said)) && said@ == bad_page())
            } else {
                final(self)@ == (ListView { stage: ListStage::Listing, ..old(self)@ }) && (
                step matches ListStep::Show(arguments) && texts(arguments@) == list_arguments(
                    old(self)@.repo,
                    (old(self)@.page * old(self)@.per_page) as nat,
                ))
            },
    {
        if let Err(error) = Github::require_login(status) {
            self.stage = ListStage::Finished;
            return ListStep::Finish(Err(error));
        }
        match list_cards_arguments(self.repo.as_str(), self.page, self.per_page) {
            Err(error) => {
                self.stage = ListStage::Finished;
                ListStep::Finish(Err(error))
            },
            Ok(arguments) => {
                self.stage = ListStage::Listing;
                ListStep::Show(arguments)
            },
        }
    }

    /// Takes in the issues, and answers the request.
    pub fn listed(&mut self, reply: Result<Result<Vec<RawIssue>, String>, ApiError>) -> (answer:
        Result<Page<Card>, ApiError>)
        requires
            list_wf(old(self)@),
            old(self)@.stage == ListStage::Listing,
        ensures
            list_wf(final(self)@),
            final(self)@ == (ListView { stage: ListStage::Finished, ..old(self)@ }),
            match reply {
                Err(error) => answer matches Err(said) && said@ == error@,
                Ok(Err(reason)) => answer matches Err(said) && said@ == bad_issue_json(reason@),
                Ok(Ok(issues)) => answer matches Ok(page) && is_card_page(
                    cards_of(issues@),
                    old(self)@.column,
                    old(self)@.page,
                    old(self)@.per_page,
                    page,
                ),
            },
    {
        self.stage = ListStage::Finished;
        let decoded = match reply {
            Err(error) => {
                return Err(error);
            },
            Ok(decoded) => decoded,
        };
        let cards = match parse_issues(decoded) {
            Err(error) => {
                return Err(error);
            },
            Ok(cards) => cards,
        };
        let column = match &self.column {
            Some(column) => Some(column.as_str()),
            None => None,
        };
        Ok(card_page(cards, column, self.page, self.per_page))
    }
}

impl Github {
    /// Begins to list cards, with a question to the command line unless something is wrong with
    /// the request.
    pub fn list_cards(repo: &str, column: Option<&str>, page: usize, per_page: usize) -> (result: (
        ListTask,
        ListStep,
    ))
        requires
            page >= 1,
        ensures
            list_wf(result.0@),
            result.0@ == (ListView {
                repo: repo@,
                column: maybe_str(column),
                page: page as int,
                per_page: per_page as int,
                stage: if list_problem(repo@, maybe_str(column)) is Some {
                    ListStage::Finished
                } else {
                    ListStage::SigningIn
                },
            }),
            match list_problem(repo@, maybe_str(column)) {
                Some(error) => result.1 matches ListStep::Finish(Err(said)) && said@ == error,
                None => result.1 matches ListStep::Run(arguments) && texts(arguments@)
                    == status_arguments(),
            },
    {
        let mut task = ListTask {
            repo: repo.to_owned(),
            column: match column {
                Some(column) => Some(column.to_owned()),
                None => None,
            },
            page,
            per_page,
            stage: ListStage::Finished,
        };
        if let Err(error) = validate_repo_arg(repo) {
            return (task, ListStep::Finish(Err(error)));
        }
        if let Some(column) = column {
            if let Err(error) = validate_column_arg(column) {
                return (task, ListStep::Finish(Err(error)));
            }
        }
        task.stage = ListStage::SigningIn;
        (task, ListStep::Run(login_status_arguments()))
    }
}

// ---------------------------------------------------------------------------------------------
// Laws
// ---------------------------------------------------------------------------------------------

/// A step that changes nothing: it asks whether the command line is logged in, reads an issue, or
/// answers the request.
pub open spec fn changes_nothing(step: TaskStepView) -> bool {
    match step {
        TaskStepView::Run(arguments) => arguments == status_arguments(),
        _ => true,
    }
}

/// A request that is answered at once runs nothing; every other begins by making sure that the
/// command line is logged in, and goes on only where it is.
pub proof fn nothing_is_done_without_a_login(
    task: TaskView,
    problem: Option<ErrorView>,
    repo: Seq<char>,
    number: u64,
    error: ApiError,
)
    ensures
        changes_nothing(begun_task(task, problem).1),
        changes_nothing(read_step(reading_task(repo, number)).1),
        task.stage == TaskStage::SigningIn || task.stage == TaskStage::Checking ==> task_advanced(
            task,
            TaskReply::Printed(Err(error)),
        ).1 == TaskStepView::Finish(Err(not_logged_in())),
{
}

/// Reading a card changes nothing, whatever the replies.
pub proof fn reading_changes_nothing(task: TaskView, reply: TaskReply)
    requires
        task.goal == Goal::Read,
        task.changed,
        task.stage == TaskStage::Checking || task.stage == TaskStage::Reading,
        fits(task.stage, reply),
    ensures
        ({
            let (after, step) = task_advanced(task, reply);
            &&& changes_nothing(step)
            &&& after.goal == Goal::Read && after.changed
            &&& after.stage == TaskStage::Reading || after.stage == TaskStage::Finished
        }),
{
}

/// All that moving a card ever runs, beside looking at it, is what gives the repository its labels
/// and what changes the columns among the labels of the issue that was just read.
pub proof fn moving_changes_columns_alone(task: TaskView, reply: TaskReply)
    requires
        task_wf(task),
        task.goal == Goal::Move,
        task.stage != TaskStage::Creating,
        fits(task.stage, reply),
    ensures
        ({
            let (after, step) = task_advanced(task, reply);
            &&& after.goal == Goal::Move && after.stage != TaskStage::Creating
            &&& after.repo == task.repo && after.number == task.number && after.column
                == task.column
            &&& changes_nothing(step) || (step matches TaskStepView::Run(arguments) && (
            label_commands(task.repo).contains(arguments) || exists|issue: RawIssue|
                reply == TaskReply::Issue(Ok(Ok(issue))) && arguments == move_arguments(
                    task.repo,
                    task.number as nat,
                    task.column,
                    #[trigger] card_of(issue).labels,
                )))
        }),
{
    let (after, step) = task_advanced(task, reply);
    if after.stage == TaskStage::Labelling {
        assert(step == TaskStepView::Run(label_commands(task.repo)[after.labelled]));
        assert(label_commands(task.repo).contains(label_commands(task.repo)[after.labelled]));
    }
    if let TaskReply::Issue(Ok(Ok(issue))) = reply {
        assert(card_of(issue).labels == card_of(issue).labels);
    }
}

/// A request is answered with a card only once the card was read after the change, and the answer
/// is what was read.
pub proof fn an_answer_is_what_was_read_last(task: TaskView, reply: TaskReply)
    requires
        fits(task.stage, reply),
        task_advanced(task, reply).1 matches TaskStepView::Finish(Ok(_)),
    ensures
        task.stage == TaskStage::Reading,
        task.changed,
        reply matches TaskReply::Issue(Ok(Ok(issue))) && task_advanced(task, reply).1
            == TaskStepView::Finish(Ok(card_of(issue))),
{
}

/// How far a request is from its answer.
pub open spec fn questions_left(task: TaskView) -> int {
    let reading = if task.changed {
        0int
    } else {
        3
    };
    match task.stage {
        TaskStage::SigningIn => 20,
        TaskStage::Labelling => 18 - task.labelled,
        TaskStage::Creating => 8,
        TaskStage::Checking => 3 + reading,
        TaskStage::Reading => 2 + reading,
        TaskStage::Changing => 4,
        TaskStage::Finished => 0,
    }
}

/// Every reply brings a request nearer to its answer, so that it is always answered.
pub proof fn every_request_is_answered(task: TaskView, reply: TaskReply)
    requires
        task_wf(task),
        fits(task.stage, reply),
    ensures
        0 <= questions_left(task_advanced(task, reply).0) < questions_left(task),
        task_advanced(task, reply).1 is Finish <==> task_advanced(task, reply).0.stage
            == TaskStage::Finished,
{
}

/// A request to create a card begins with the question whether the command line is logged in, unless
/// something is wrong with it; then the repository gets its labels one after the other, all of them;
/// then the issue is created with the title, body and column that were asked for.
pub proof fn a_card_is_created_once_the_labels_are_there(
    request: CreateCardRequest,
    task: TaskView,
    printed: String,
)
    ensures
        match new_card_problem(request) {
            Some(error) => begun_task(
                creating_task(request),
                new_card_problem(request),
            ).1 == TaskStepView::Finish(Err(error)),
            None => begun_task(creating_task(request), new_card_problem(request)) == (
                creating_task(request),
                TaskStepView::Run(seq!["auth"@, "status"@, "--hostname"@, "github.com"@]),
            ),
        },
        creating_task(request).goal == Goal::Create,
        creating_task(request).repo == request.repo@,
        creating_task(request).title == trim(request.title@),
        creating_task(request).body == request.body@,
        creating_task(request).column == request.column@,
        creating_task(request).labelled == 0,
        creating_task(request).stage == TaskStage::SigningIn,
        !creating_task(request).changed,
        task.stage == TaskStage::SigningIn && task.labelled == 0 ==> task_advanced(
            task,
            TaskReply::Printed(Ok(printed)),
        ) == (
            (TaskView { stage: TaskStage::Labelling, ..task }),
            TaskStepView::Run(label_commands(task.repo)[0]),
        ),
        task.stage == TaskStage::Labelling && 0 <= task.labelled < 7 ==> task_advanced(
            task,
            TaskReply::Printed(Ok(printed)),
        ) == (
            (TaskView { labelled: task.labelled + 1, ..task }),
            TaskStepView::Run(label_commands(task.repo)[task.labelled + 1]),
        ),
        task.stage == TaskStage::Labelling && task.labelled == 7 && task.goal == Goal::Create
            ==> task_advanced(task, TaskReply::Printed(Ok(printed))) == (
            (TaskView { labelled: 8, stage: TaskStage::Creating, ..task }),
            TaskStepView::Run(create_arguments(task.repo, task.title, task.body, task.column)),
        ),
{
    crate::github::every_label_is_given(task.repo, 0);
}

/// The card that was created is read back by the number at the end of the address that was printed,
/// once it is known that the command line is still logged in; an address without a number is an
/// error.
pub proof fn a_created_card_is_read_back(task: TaskView, printed: String, again: String)
    requires
        task.stage == TaskStage::Creating,
        is_repo(task.repo),
    ensures
        match issue_number(printed@) {
            Some(number) => number > 0 && number <= u64::MAX ==> {
                let (after, step) = task_advanced(task, TaskReply::Printed(Ok(printed)));
                let (last, question) = task_advanced(after, TaskReply::Printed(Ok(again)));
                &&& step == TaskStepView::Run(status_arguments())
                &&& question == TaskStepView::Show(view_arguments(task.repo, number))
                &&& last.changed
                &&& last.stage == TaskStage::Reading
            },
            None => task_advanced(task, TaskReply::Printed(Ok(printed))).1 matches
                TaskStepView::Finish(Err(error)) && error.status == 500,
        },
{
}

/// A card that is to be moved is read once the labels are there; then its columns are changed, by
/// the labels that it was read with; then it is read again, and what is read is the answer.
pub proof fn a_card_is_moved_by_what_it_was_read_with(
    task: TaskView,
    printed: String,
    issue: RawIssue,
    changed: String,
    again: String,
    last: RawIssue,
)
    requires
        task.goal == Goal::Move,
        task.stage == TaskStage::Labelling,
        task.labelled == 7,
        !task.changed,
        is_repo(task.repo),
        task.number > 0,
    ensures
        ({
            let first = task_advanced(task, TaskReply::Printed(Ok(printed)));
            let second = task_advanced(first.0, TaskReply::Printed(Ok(printed)));
            let third = task_advanced(second.0, TaskReply::Issue(Ok(Ok(issue))));
            let fourth = task_advanced(third.0, TaskReply::Printed(Ok(changed)));
            let fifth = task_advanced(fourth.0, TaskReply::Printed(Ok(again)));
            let sixth = task_advanced(fifth.0, TaskReply::Issue(Ok(Ok(last))));
            let question = TaskStepView::Show(view_arguments(task.repo, task.number as nat));
            &&& first.1 == TaskStepView::Run(status_arguments())
            &&& second.1 == question
            &&& third.1 == TaskStepView::Run(
                move_arguments(
                    task.repo,
                    task.number as nat,
                    task.column,
                    crate::cards::label_names(issue.labels@),
                ),
            )
            &&& fourth.1 == TaskStepView::Run(status_arguments())
            &&& fifth.1 == question
            &&& sixth.1 == TaskStepView::Finish(Ok(card_of(last)))
        }),
{
    crate::github::every_label_is_given(task.repo, 0);
    crate::github::a_card_is_named_by_repository_and_number(task.repo, task.number);
}

/// A request to move a card is for that card and that column, and begins only where both are some.
pub proof fn a_move_is_of_the_card_that_was_named(repo: Seq<char>, number: u64, column: Seq<char>)
    ensures
        move_problem(repo, column) is None <==> is_repo(repo) && is_column(column),
        !is_repo(repo) ==> (move_problem(repo, column) matches Some(error) && error.status == 400
            && error.code == "invalid_repo"@),
        is_repo(repo) && !is_column(column) ==> (move_problem(repo, column) matches Some(error)
            && error.status == 400 && error.code == "invalid_column"@),
        moving_task(repo, number, column).goal == Goal::Move,
        moving_task(repo, number, column).repo == repo,
        moving_task(repo, number, column).number == number,
        moving_task(repo, number, column).column == column,
        moving_task(repo, number, column).labelled == 0,
        moving_task(repo, number, column).stage == TaskStage::SigningIn,
        !moving_task(repo, number, column).changed,
        is_repo(repo) && is_column(column) ==> begun_task(
            moving_task(repo, number, column),
            move_problem(repo, column),
        ).1 == TaskStepView::Run(status_arguments()),
{
}

/// A card is read by its repository and number, and answered as it was read; where it is not found
/// the answer is 404.
pub proof fn a_card_is_answered_as_it_was_read(
    repo: Seq<char>,
    number: u64,
    printed: String,
    issue: RawIssue,
    error: ApiError,
    reason: String,
)
    requires
        is_repo(repo),
        number > 0,
    ensures
        ({
            let first = read_step(reading_task(repo, number));
            let second = task_advanced(first.0, TaskReply::Printed(Ok(printed)));
            &&& first.1 == TaskStepView::Run(status_arguments())
            &&& second.1 == TaskStepView::Show(view_arguments(repo, number as nat))
            &&& task_advanced(second.0, TaskReply::Issue(Ok(Ok(issue)))).1 == TaskStepView::Finish(
                Ok(card_of(issue)),
            )
            &&& task_advanced(second.0, TaskReply::Issue(Err(error))).1 == TaskStepView::Finish(
                Err(not_found_error(error@, "card"@)),
            )
            &&& task_advanced(
                second.0,
                TaskReply::Issue(Ok(Err(reason))),
            ).1 matches TaskStepView::Finish(Err(said)) && said.status == 500
        }),
{
    crate::github::a_card_is_named_by_repository_and_number(repo, number);
}

/// A request for one card whose repository or number is none is refused without a question.
pub proof fn a_card_that_is_not_named_is_not_read(repo: Seq<char>, number: u64)
    requires
        !is_repo(repo) || number == 0,
    ensures
        read_step(reading_task(repo, number)).1 matches TaskStepView::Finish(Err(error))
            && error.status == 400,
{
    crate::github::a_card_is_named_by_repository_and_number(repo, number);
}

/// A question that fails ends the request with the error, and nothing further is done.
pub proof fn a_failed_question_ends_the_request(task: TaskView, error: ApiError)
    requires
        task.stage == TaskStage::Labelling || task.stage == TaskStage::Creating || task.stage
            == TaskStage::Changing,
    ensures
        task_advanced(task, TaskReply::Printed(Err(error))) == (
            (TaskView { stage: TaskStage::Finished, ..task }),
            TaskStepView::Finish(Err(error@)),
        ),
{
}

/// A listing is refused exactly where the repository is none or the column that it names is none.
pub proof fn a_listing_is_of_a_repository_and_a_column(repo: Seq<char>, column: Option<Seq<char>>)
    ensures
        list_problem(repo, column) is None <==> is_repo(repo) && (column matches Some(wanted)
            ==> is_column(wanted)),
        !is_repo(repo) ==> (list_problem(repo, column) matches Some(error) && error.status == 400
            && error.code == "invalid_repo"@),
        is_repo(repo) && list_problem(repo, column) is Some ==> (list_problem(
            repo,
            column,
        ) matches Some(error) && error.status == 400 && error.code == "invalid_column"@),
{
}

/// A listing that names a repository and, if any, a column of the board begins with the question
/// whether the command line is logged in; any other is refused. What was asked for is kept.
pub proof fn a_listing_is_kept_as_it_was_asked_for(
    repo: &str,
    column: Option<&str>,
    page: usize,
    per_page: usize,
    result: (ListTask, ListStep),
)
    requires
        page >= 1,
        call_ensures(Github::list_cards, (repo, column, page, per_page), result),
    ensures
        result.0@.repo == repo@,
        result.0@.column == maybe_str(column),
        result.0@.page == page,
        result.0@.per_page == per_page,
        result.1 is Run <==> is_repo(repo@) && (column matches Some(column) ==> is_column(column@)),
        result.1 is Run <==> result.0@.stage == ListStage::SigningIn,
        result.1 matches ListStep::Run(arguments) ==> texts(arguments@) == status_arguments(),
        result.1 is Run || (result.1 matches ListStep::Finish(Err(error)) && error@.status == 400),
{
}

/// Issues are listed once the command line is logged in, of the repository that was named, and as
/// many as the pages up to the wanted one hold; never more than 5000.
pub proof fn issues_are_listed_once_logged_in(
    task: &mut ListTask,
    status: Result<String, ApiError>,
    step: ListStep,
)
    requires
        list_wf(old(task)@),
        old(task)@.stage == ListStage::SigningIn,
        call_ensures(ListTask::signed_in, (task, status), step),
    ensures
        step is Show <==> status is Ok && old(task)@.page * old(task)@.per_page <= 5_000,
        step is Show || (step matches ListStep::Finish(Err(error)) && error@.status == if status is Err {
            503int
        } else {
            400int
        }),
        step matches ListStep::Show(arguments) ==> texts(arguments@).contains(old(task)@.repo)
            && texts(arguments@).contains(
            crate::text::decimal((old(task)@.page * old(task)@.per_page) as nat),
        ),
        final(task)@.repo == old(task)@.repo,
        final(task)@.column == old(task)@.column,
        final(task)@.page == old(task)@.page,
        final(task)@.per_page == old(task)@.per_page,
{
    if let ListStep::Show(arguments) = step {
        let all = texts(arguments@);
        assert(all[3] == old(task)@.repo);
        assert(all[7] == crate::text::decimal((old(task)@.page * old(task)@.per_page) as nat));
    }
}

/// A listing that fits on the first page, without a column, answers every issue that was listed;
/// what went wrong is told.
pub proof fn every_listed_issue_is_answered(
    task: &mut ListTask,
    reply: Result<Result<Vec<RawIssue>, String>, ApiError>,
    answer: Result<Page<Card>, ApiError>,
)
    requires
        list_wf(old(task)@),
        old(task)@.stage == ListStage::Listing,
        call_ensures(ListTask::listed, (task, reply), answer),
    ensures
        answer is Ok <==> reply is Ok && reply->Ok_0 is Ok,
        reply matches Err(error) ==> answer->Err_0@ == error@,
        reply matches Ok(Ok(issues)) ==> (old(task)@.page == 1 && issues@.len() <= old(task)@.per_page && old(task)@.column is None ==> crate::cards::card_views(answer->Ok_0.items@)
            == cards_of(issues@)),
        final(task)@.stage == ListStage::Finished,
{
    if let Ok(Ok(issues)) = reply {
        if old(task)@.page == 1 && issues@.len() <= old(task)@.per_page {
            assert(1 * old(task)@.per_page == old(task)@.per_page);
            crate::cards::a_listing_that_fits_is_shown_whole(
                cards_of(issues@),
                old(task)@.column,
                old(task)@.per_page,
                answer->Ok_0,
            );
        }
    }
}

} // verus!
