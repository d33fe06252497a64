//! What is made sure of before a job is created: that the request is valid, that the GitHub command
//! line is logged in, and that every harness of the job is.
use crate::board::Github;
use crate::config::Config;
use crate::error::{ApiError, ErrorView};
use crate::github::{login_status_arguments, not_logged_in, status_arguments};
use crate::harness::{
    check_harness, crew_sequence, harness_probe, harness_problem, harness_sequence, job_problem,
    login_required, probe_of, validate_job_request, ProbeOutcome,
};
use crate::model::CreateJobRequest;
use crate::text::texts;
use vstd::prelude::*;

verus! {

/// The checks of a request under way.
pub struct Preflight {
    harnesses: Vec<String>,
    next: usize,
}

/// The state of a [`Preflight`].
#[verifier::ext_equal]
pub struct PreflightView {
    pub harnesses: Seq<Seq<char>>,
    pub next: int,
}

impl View for Preflight {
    type V = PreflightView;

    closed spec fn view(&self) -> PreflightView {
        PreflightView { harnesses: texts(self.harnesses@), next: self.next as int }
    }
}

/// What is to be done next.
pub enum PreflightStep {
    /// Ask the GitHub command line, with these arguments, whether it is logged in.
    SignIn(Vec<String>),
    /// Run the command that tells whether the next harness is logged in.
    Probe { program: &'static str, arguments: Vec<String> },
    /// The job can be created.
    Ready,
    /// The job cannot be created.
    Refuse(ApiError),
}

/// What a [`PreflightStep`] says.
#[verifier::ext_equal]
pub enum PreflightStepView {
    SignIn(Seq<Seq<char>>),
    Probe { program: Seq<char>, arguments: Seq<Seq<char>> },
    Ready,
    Refuse(ErrorView),
}

impl View for PreflightStep {
    type V = PreflightStepView;

    open spec fn view(&self) -> PreflightStepView {
        match *self {
            PreflightStep::SignIn(arguments) => PreflightStepView::SignIn(texts(arguments@)),
            PreflightStep::Probe { program, arguments } => PreflightStepView::Probe {
                program: program@,
                arguments: texts(arguments@),
            },
            PreflightStep::Ready => PreflightStepView::Ready,
            PreflightStep::Refuse(error) => PreflightStepView::Refuse(error@),
        }
    }
}

/// The state before the first harness is asked.
pub open spec fn unprobed(request: CreateJobRequest) -> PreflightView {
    PreflightView {
        harnesses: crew_sequence(request.harness@, texts(request.crew@)),
        next: 0,
    }
}

/// Asks the next harness; once all have been asked, the job can be created.
pub open spec fn probe_step(state: PreflightView) -> PreflightStepView {
    if state.next >= state.harnesses.len() {
        PreflightStepView::Ready
    } else {
        match probe_of(state.harnesses[state.next]) {
            Some((program, arguments)) => PreflightStepView::Probe { program, arguments },
            None => PreflightStepView::Refuse(login_required(state.harnesses[state.next])),
        }
    }
}

/// What is to be done once a harness was asked.
pub open spec fn after_probe(state: PreflightView, outcome: ProbeOutcome) -> (
    PreflightView,
    PreflightStepView,
) {
    match harness_problem(state.harnesses[state.next], outcome) {
        Some(error) => (state, PreflightStepView::Refuse(error)),
        None => {
            let after = PreflightView { next: state.next + 1, ..state };
            (after, probe_step(after))
        },
    }
}

impl Preflight {
    /// Begins the checks of a request.
    pub fn start(config: &Config, request: &CreateJobRequest) -> (result: (
        Preflight,
        PreflightStep,
    ))
        ensures
            result.0@ == unprobed(*request),
            result.1@ == match job_problem(texts(config.allowed_harnesses@), *request) {
                Some(error) => PreflightStepView::Refuse(error),
                None => PreflightStepView::SignIn(status_arguments()),
            },
    {
        let checks = Preflight { harnesses: harness_sequence(request), next: 0 };
        let step = match validate_job_request(config, request) {
            Err(error) => PreflightStep::Refuse(error),
            Ok(()) => PreflightStep::SignIn(login_status_arguments()),
        };
        (checks, step)
    }

    fn probe(&self) -> (step: PreflightStep)
        ensures
            step@ == probe_step(self@),
    {
        if self.next >= self.harnesses.len() {
            return PreflightStep::Ready;
        }
        let harness = self.harnesses[self.next].as_str();
        assert(harness@ == self@.harnesses[self@.next]);
        match harness_probe(harness) {
            Some((program, arguments)) => PreflightStep::Probe { program, arguments },
            None => match check_harness(harness, ProbeOutcome::Unknown) {
                Err(error) => PreflightStep::Refuse(error),
                Ok(()) => PreflightStep::Ready,
            },
        }
    }

    /// Takes in whether the GitHub command line is logged in.
    pub fn signed_in(&self, status: Result<String, ApiError>) -> (step: PreflightStep)
        ensures
            step@ == match status {
                Ok(_) => probe_step(self@),
                Err(_) => PreflightStepView::Refuse(not_logged_in()),
            },
    {
        match Github::require_login(status) {
            Err(error) => PreflightStep::Refuse(error),
            Ok(()) => self.probe(),
        }
    }

    /// Takes in what the command of a harness came to.
    pub fn probed(&mut self, outcome: ProbeOutcome) -> (step: PreflightStep)
        requires
            old(self)@.next < old(self)@.harnesses.len(),
        ensures
            (final(self)@, step@) == after_probe(old(self)@, outcome),
    {
        let len: usize = self.harnesses.len();
        assert(self.next < len);
        assert(self.harnesses@[self.next as int]@ == self@.harnesses[self@.next]);
        match check_harness(self.harnesses[self.next].as_str(), outcome) {
            Err(error) => PreflightStep::Refuse(error),
            Ok(()) => {
                self.next = self.next + 1;
                self.probe()
            },
        }
    }
}

// ---------------------------------------------------------------------------------------------
// Laws
// ---------------------------------------------------------------------------------------------

/// The state once harnesses were asked, one after the other.
pub open spec fn after_probes(state: PreflightView, outcomes: Seq<ProbeOutcome>) -> PreflightView
    decreases outcomes.len(),
{
    if outcomes.len() == 0 {
        state
    } else {
        after_probe(after_probes(state, outcomes.drop_last()), outcomes.last()).0
    }
}

/// Each of a sequence of outcomes finds the harness at its place logged in.
pub open spec fn all_passed(harnesses: Seq<Seq<char>>, outcomes: Seq<ProbeOutcome>) -> bool {
    forall|index: int|
        0 <= index < outcomes.len() ==> harness_problem(
            harnesses[index],
            #[trigger] outcomes[index],
        ) is None
}

proof fn lemma_passed(state: PreflightView, outcomes: Seq<ProbeOutcome>)
    requires
        state.next == 0,
    ensures
        ({
            let after = after_probes(state, outcomes);
            &&& after.harnesses == state.harnesses
            &&& 0 <= after.next <= outcomes.len()
            &&& after.next == outcomes.len() <==> all_passed(state.harnesses, outcomes)
        }),
    decreases outcomes.len(),
{
    if outcomes.len() > 0 {
        let shorter = outcomes.drop_last();
        lemma_passed(state, shorter);
        let last = outcomes.len() - 1;
        assert forall|index: int| 0 <= index < shorter.len() implies #[trigger] shorter[index]
            == outcomes[index] by {}
        if all_passed(state.harnesses, shorter) {
            assert(after_probes(state, shorter).next == last);
            assert(outcomes[last] == outcomes.last());
            if harness_problem(state.harnesses[last], outcomes.last()) is None {
                assert forall|index: int| 0 <= index < outcomes.len() implies harness_problem(
                    state.harnesses[index],
                    #[trigger] outcomes[index],
                ) is None by {
                    if index < last {
                        assert(shorter[index] == outcomes[index]);
                    }
                }
            }
        } else {
            let index = choose|index: int|
                0 <= index < shorter.len() && harness_problem(
                    state.harnesses[index],
                    #[trigger] shorter[index],
                ) is Some;
            assert(harness_problem(state.harnesses[index], outcomes[index]) is Some);
        }
    }
}

/// A job can be created exactly once every one of its harnesses was asked and found to be logged
/// in.
pub proof fn only_logged_in_harnesses_are_run(
    request: CreateJobRequest,
    outcomes: Seq<ProbeOutcome>,
)
    requires
        outcomes.len() <= crew_sequence(request.harness@, texts(request.crew@)).len(),
    ensures
        probe_step(after_probes(unprobed(request), outcomes)) == PreflightStepView::Ready <==> {
            &&& outcomes.len() == crew_sequence(request.harness@, texts(request.crew@)).len()
            &&& forall|index: int|
                0 <= index < outcomes.len() ==> harness_problem(
                    crew_sequence(request.harness@, texts(request.crew@))[index],
                    #[trigger] outcomes[index],
                ) is None
        },
{
    lemma_passed(unprobed(request), outcomes);
    let harnesses = crew_sequence(request.harness@, texts(request.crew@));
    assert(all_passed(harnesses, outcomes) <==> forall|index: int|
        0 <= index < outcomes.len() ==> harness_problem(
            harnesses[index],
            #[trigger] outcomes[index],
        ) is None);
}

/// Each harness is asked by its own program, in order, and the next one only once the last was found
/// to be logged in; one that is not known is refused.
pub proof fn each_harness_is_asked_by_its_own_program(state: PreflightView, outcome: ProbeOutcome)
    requires
        0 <= state.next,
    ensures
        state.next >= state.harnesses.len() <==> probe_step(state) == PreflightStepView::Ready,
        state.next < state.harnesses.len() ==> match probe_step(state) {
            PreflightStepView::Probe { program, arguments } => {
                let harness = state.harnesses[state.next];
                ||| harness == "codex"@ && program == "codex"@ && arguments == seq![
                    "login"@,
                    "status"@,
                ]
                ||| harness == "grok"@ && program == "grok"@ && arguments == seq!["models"@]
                ||| harness == "cursor"@ && program == "cursor-agent"@ && arguments == seq![
                    "status"@,
                ]
            },
            PreflightStepView::Refuse(error) => {
                let harness = state.harnesses[state.next];
                &&& harness != "codex"@ && harness != "grok"@ && harness != "cursor"@
                &&& error.status == 503
                &&& error.code == "harness_login_required"@
                &&& error.message == harness + " is not authenticated as board"@
            },
            _ => false,
        },
        state.next < state.harnesses.len() ==> match harness_problem(
            state.harnesses[state.next],
            outcome,
        ) {
            Some(error) => after_probe(state, outcome) == (state, PreflightStepView::Refuse(error)),
            None => after_probe(state, outcome).0 == (PreflightView {
                next: state.next + 1,
                ..state
            }) && after_probe(state, outcome).1 == probe_step(after_probe(state, outcome).0),
        },
{
}

/// The harnesses that are asked are those that the job runs, the primary one first.
pub proof fn the_harnesses_of_the_job_are_asked(request: CreateJobRequest, harness: Seq<char>)
    ensures
        unprobed(request).next == 0,
        unprobed(request).harnesses[0] == request.harness@,
        unprobed(request).harnesses.contains(harness) <==> harness == request.harness@ || texts(
            request.crew@,
        ).contains(harness),
{
    crate::harness::the_primary_leads_and_none_runs_twice(
        request.harness@,
        texts(request.crew@),
        harness,
    );
}

/// The checks of a request begin with the login, unless something is wrong with the request itself;
/// a failed login ends them.
pub proof fn a_login_is_asked_for_first(
    config: &Config,
    request: &CreateJobRequest,
    result: (Preflight, PreflightStep),
    status: Result<String, ApiError>,
    step: PreflightStep,
)
    requires
        call_ensures(Preflight::start, (config, request), result),
        call_ensures(Preflight::signed_in, (&result.0, status), step),
    ensures
        result.1 is SignIn <==> job_problem(texts(config.allowed_harnesses@), *request) is None,
        !(result.1 is SignIn) ==> result.1 is Refuse,
        result.0@.next == 0,
        result.0@.harnesses[0] == request.harness@,
        status is Err ==> (step matches PreflightStep::Refuse(error) && error@.status == 503
            && error@.code == "gh_login_required"@),
        status is Ok ==> !(step is SignIn) && !(step is Ready),
        status is Ok && (request.harness@ == "codex"@ || request.harness@ == "grok"@
            || request.harness@ == "cursor"@) ==> step is Probe,
{
    crate::harness::the_primary_leads_and_none_runs_twice(
        request.harness@,
        texts(request.crew@),
        request.harness@,
    );
}

} // verus!
