//! Which agents a job runs, and with which commands.
use crate::config::{Config, CursorEffortModels};
use crate::error::{error_of, ApiError, ErrorView};
use crate::github::{bad_issue, bad_repo};
use crate::model::{effort_name, is_repo, validate_repo, CreateJobRequest, ReasoningEffort};
use crate::text::{
    byte_len, contains_text, list_contains, lower, lowered, occurs, same_text, strings, texts,
    utf8_len,
};
use vstd::prelude::*;

verus! {

// ---------------------------------------------------------------------------------------------
// The crew
// ---------------------------------------------------------------------------------------------

/// The harnesses of a job in the order in which they run: the primary one, then the crew, each
/// once.
pub open spec fn crew_sequence(primary: Seq<char>, crew: Seq<Seq<char>>) -> Seq<Seq<char>>
    decreases crew.len(),
{
    if crew.len() == 0 {
        seq![primary]
    } else {
        let earlier = crew_sequence(primary, crew.drop_last());
        if earlier.contains(crew.last()) {
            earlier
        } else {
            earlier.push(crew.last())
        }
    }
}

/// The harnesses of a primary one and a crew, in the order in which they run.
pub fn crew_of(primary: &str, crew: &Vec<String>) -> (sequence: Vec<String>)
    ensures
        texts(sequence@) == crew_sequence(primary@, texts(crew@)),
{
    let mut sequence: Vec<String> = Vec::new();
    sequence.push(primary.to_owned());
    let ghost all = texts(crew@);
    let mut i: usize = 0;
    assert(texts(sequence@) == seq![primary@]);
    assert(all.take(0) == Seq::<Seq<char>>::empty());
    while i < crew.len()
        invariant
            all == texts(crew@),
            i <= crew@.len(),
            texts(sequence@) == crew_sequence(primary@, all.take(i as int)),
        decreases crew@.len() - i,
    {
        let ghost before = sequence@;
        assert(all.take(i + 1).drop_last() == all.take(i as int));
        assert(all.take(i + 1).last() == crew@[i as int]@);
        if !list_contains(&sequence, crew[i].as_str()) {
            sequence.push(crew[i].clone());
            assert(texts(sequence@) == texts(before).push(crew@[i as int]@));
        }
        i += 1;
    }
    assert(all.take(i as int) == all);
    sequence
}

/// The harnesses of a request, in the order in which they run.
pub fn harness_sequence(request: &CreateJobRequest) -> (sequence: Vec<String>)
    ensures
        texts(sequence@) == crew_sequence(request.harness@, texts(request.crew@)),
{
    crew_of(request.harness.as_str(), &request.crew)
}

// ---------------------------------------------------------------------------------------------
// Commands
// ---------------------------------------------------------------------------------------------

/// The program that a harness is.
pub open spec fn program_of(harness: Seq<char>) -> Seq<char> {
    if harness == "cursor"@ {
        "cursor-agent"@
    } else {
        harness
    }
}

/// The program that a harness is.
pub fn harness_binary(harness: &str) -> (program: String)
    ensures
        program@ == program_of(harness@),
{
    if same_text(harness, "cursor") {
        "cursor-agent".to_owned()
    } else {
        harness.to_owned()
    }
}

/// The harnesses whose programs answered.
pub fn installed_harnesses(allowed: &Vec<String>, answered: &Vec<bool>) -> (installed: Vec<String>)
    requires
        allowed@.len() == answered@.len(),
    ensures
        texts(installed@) == installed_of(texts(allowed@), answered@),
{
    let ghost all = texts(allowed@);
    let mut installed: Vec<String> = Vec::new();
    let mut i: usize = 0;
    assert(all.take(0) == Seq::<Seq<char>>::empty());
    assert(answered@.take(0) == Seq::<bool>::empty());
    while i < allowed.len()
        invariant
            all == texts(allowed@),
            allowed@.len() == answered@.len(),
            i <= allowed@.len(),
            texts(installed@) == installed_of(all.take(i as int), answered@.take(i as int)),
        decreases allowed@.len() - i,
    {
        let ghost before = installed@;
        assert(all.take(i + 1).drop_last() == all.take(i as int));
        assert(all.take(i + 1).last() == allowed@[i as int]@);
        assert(answered@.take(i + 1).drop_last() == answered@.take(i as int));
        assert(answered@.take(i + 1).last() == answered@[i as int]);
        if answered[i] {
            installed.push(allowed[i].clone());
            assert(texts(installed@) == texts(before).push(allowed@[i as int]@));
        }
        i += 1;
    }
    assert(all.take(i as int) == all);
    assert(answered@.take(i as int) == answered@);
    installed
}

/// The harnesses whose programs answered, in the order in which they are allowed.
pub open spec fn installed_of(allowed: Seq<Seq<char>>, answered: Seq<bool>) -> Seq<Seq<char>>
    decreases allowed.len(),
{
    if allowed.len() == 0 {
        seq![]
    } else {
        let earlier = installed_of(allowed.drop_last(), answered.drop_last());
        if answered.last() {
            earlier.push(allowed.last())
        } else {
            earlier
        }
    }
}

/// The arguments of Codex.
pub open spec fn codex_arguments(
    workspace: Seq<char>,
    prompt: Seq<char>,
    effort: Option<ReasoningEffort>,
) -> Seq<Seq<char>> {
    let rest = seq![
        "--approve-for-me"@,
        "--color"@,
        "never"@,
        "--cd"@,
        workspace,
        prompt,
    ];
    match effort {
        Some(effort) => seq![
            "exec"@,
            "--config"@,
            "model_reasoning_effort=\""@ + effort_name(effort) + "\""@,
        ] + rest,
        None => seq!["exec"@] + rest,
    }
}

/// The arguments of Grok.
pub open spec fn grok_arguments(
    workspace: Seq<char>,
    prompt: Seq<char>,
    effort: Option<ReasoningEffort>,
) -> Seq<Seq<char>> {
    let rest = seq![
        "--single"@,
        prompt,
        "--cwd"@,
        workspace,
        "--permission-mode"@,
        "auto"@,
        "--output-format"@,
        "streaming-json"@,
        "--no-subagents"@,
    ];
    match effort {
        Some(effort) => seq!["--reasoning-effort"@, effort_name(effort)] + rest,
        None => rest,
    }
}

/// The arguments of Cursor.
pub open spec fn cursor_arguments(
    workspace: Seq<char>,
    prompt: Seq<char>,
    effort: Option<ReasoningEffort>,
    models: CursorEffortModels,
) -> Seq<Seq<char>> {
    let rest = seq![
        "--print"@,
        "--force"@,
        "--output-format"@,
        "stream-json"@,
        "--workspace"@,
        workspace,
        prompt,
    ];
    match effort {
        Some(effort) => seq!["--model"@, models.model(effort)] + rest,
        None => rest,
    }
}

/// The program and the arguments that run a harness on a prompt.
pub open spec fn command_of(
    harness: Seq<char>,
    workspace: Seq<char>,
    prompt: Seq<char>,
    effort: Option<ReasoningEffort>,
    models: CursorEffortModels,
) -> Result<(Seq<char>, Seq<Seq<char>>), Seq<char>> {
    if harness == "codex"@ {
        Ok(("codex"@, codex_arguments(workspace, prompt, effort)))
    } else if harness == "grok"@ {
        Ok(("grok"@, grok_arguments(workspace, prompt, effort)))
    } else if harness == "cursor"@ {
        Ok(("cursor-agent"@, cursor_arguments(workspace, prompt, effort, models)))
    } else {
        Err("unsupported harness "@ + harness)
    }
}

/// A command or an error as values.
pub open spec fn command_view(result: Result<(&'static str, Vec<String>), String>) -> Result<
    (Seq<char>, Seq<Seq<char>>),
    Seq<char>,
> {
    match result {
        Ok((program, arguments)) => Ok((program@, texts(arguments@))),
        Err(message) => Err(message@),
    }
}

/// The program and the arguments that run a harness on a prompt.
pub fn harness_command(
    harness: &str,
    worktree: &str,
    prompt: &str,
    effort: Option<ReasoningEffort>,
    cursor_effort_models: &CursorEffortModels,
) -> (result: Result<(&'static str, Vec<String>), String>)
    ensures
        command_view(result) == command_of(
            harness@,
            worktree@,
            prompt@,
            effort,
            *cursor_effort_models,
        ),
{
    if same_text(harness, "codex") {
        let arguments = match effort {
            Some(effort) => {
                let mut setting = "model_reasoning_effort=\"".to_owned();
                setting.append(effort.as_str());
                setting.append("\"");
                strings(
                    vec![
                        "exec",
                        "--config",
                        setting.as_str(),
                        "--approve-for-me",
                        "--color",
                        "never",
                        "--cd",
                        worktree,
                        prompt,
                    ],
                )
            },
            None => strings(
                vec![
                    "exec",
                    "--approve-for-me",
                    "--color",
                    "never",
                    "--cd",
                    worktree,
                    prompt,
                ],
            ),
        };
        assert(texts(arguments@) == codex_arguments(worktree@, prompt@, effort));
        Ok(("codex", arguments))
    } else if same_text(harness, "grok") {
        let arguments = match effort {
            Some(effort) => strings(
                vec![
                    "--reasoning-effort",
                    effort.as_str(),
                    "--single",
                    prompt,
                    "--cwd",
                    worktree,
                    "--permission-mode",
                    "auto",
                    "--output-format",
                    "streaming-json",
                    "--no-subagents",
                ],
            ),
            None => strings(
                vec![
                    "--single",
                    prompt,
                    "--cwd",
                    worktree,
                    "--permission-mode",
                    "auto",
                    "--output-format",
                    "streaming-json",
                    "--no-subagents",
                ],
            ),
        };
        assert(texts(arguments@) == grok_arguments(worktree@, prompt@, effort));
        Ok(("grok", arguments))
    } else if same_text(harness, "cursor") {
        let arguments = match effort {
            Some(effort) => strings(
                vec![
                    "--model",
                    cursor_effort_models.model_for(effort),
                    "--print",
                    "--force",
                    "--output-format",
                    "stream-json",
                    "--workspace",
                    worktree,
                    prompt,
                ],
            ),
            None => strings(
                vec![
                    "--print",
                    "--force",
                    "--output-format",
                    "stream-json",
                    "--workspace",
                    worktree,
                    prompt,
                ],
            ),
        };
        assert(texts(arguments@) == cursor_arguments(
            worktree@,
            prompt@,
            effort,
            *cursor_effort_models,
        ));
        Ok(("cursor-agent", arguments))
    } else {
        Err("unsupported harness ".to_owned().concat(harness))
    }
}

// ---------------------------------------------------------------------------------------------
// Whether a harness is ready
// ---------------------------------------------------------------------------------------------

/// The command that tells whether a harness is logged in.
pub open spec fn probe_of(harness: Seq<char>) -> Option<(Seq<char>, Seq<Seq<char>>)> {
    if harness == "codex"@ {
        Some(("codex"@, seq!["login"@, "status"@]))
    } else if harness == "grok"@ {
        Some(("grok"@, seq!["models"@]))
    } else if harness == "cursor"@ {
        Some(("cursor-agent"@, seq!["status"@]))
    } else {
        None
    }
}

/// The command that tells whether a harness is logged in; none for a harness that is not known.
pub fn harness_probe(harness: &str) -> (probe: Option<(&'static str, Vec<String>)>)
    ensures
        match probe {
            Some((program, arguments)) => probe_of(harness@) == Some((program@, texts(arguments@))),
            None => probe_of(harness@) is None,
        },
{
    if same_text(harness, "codex") {
        Some(("codex", strings(vec!["login", "status"])))
    } else if same_text(harness, "grok") {
        Some(("grok", strings(vec!["models"])))
    } else if same_text(harness, "cursor") {
        Some(("cursor-agent", strings(vec!["status"])))
    } else {
        None
    }
}

/// What came of the command that tells whether a harness is logged in.
pub enum ProbeOutcome {
    /// There is no such command.
    Unknown,
    /// The program could not be started.
    Unavailable { program: String, reason: String },
    /// The program ended.
    Ended { success: bool, stdout: String, stderr: String },
}

/// The program ended well, and nowhere says that it is not logged in.
pub open spec fn logged_in(success: bool, stdout: Seq<char>, stderr: Seq<char>) -> bool {
    let said = lower(stdout + "\n"@ + stderr);
    &&& success
    &&& !occurs(said, "not authenticated"@)
    &&& !occurs(said, "not logged in"@)
    &&& !occurs(said, "login required"@)
}

/// Whether a harness is logged in, by what its program said.
pub fn harness_authenticated(success: bool, stdout: &str, stderr: &str) -> (yes: bool)
    ensures
        yes == logged_in(success, stdout@, stderr@),
{
    let mut said = stdout.to_owned();
    said.append("\n");
    said.append(stderr);
    let said = lowered(said.as_str());
    success && !contains_text(said.as_str(), "not authenticated") && !contains_text(
        said.as_str(),
        "not logged in",
    ) && !contains_text(said.as_str(), "login required")
}

/// What is said of a harness that is not logged in.
pub open spec fn login_required(harness: Seq<char>) -> ErrorView {
    error_of(503, "harness_login_required"@, harness + " is not authenticated as board"@)
}

/// Why a harness cannot be used.
pub open spec fn harness_problem(harness: Seq<char>, outcome: ProbeOutcome) -> Option<ErrorView> {
    match outcome {
        ProbeOutcome::Unknown => Some(login_required(harness)),
        ProbeOutcome::Unavailable { program, reason } => Some(
            error_of(
                503,
                "harness_unavailable"@,
                "cannot execute "@ + program@ + ": "@ + reason@,
            ),
        ),
        ProbeOutcome::Ended { success, stdout, stderr } => if logged_in(success, stdout@, stderr@) {
            None
        } else {
            Some(login_required(harness))
        },
    }
}

/// Whether a harness can be used, by what came of its command.
pub fn check_harness(harness: &str, outcome: ProbeOutcome) -> (result: Result<(), ApiError>)
    ensures
        match result {
            Ok(()) => harness_problem(harness@, outcome) is None,
            Err(error) => harness_problem(harness@, outcome) == Some(error@),
        },
{
    match outcome {
        ProbeOutcome::Unknown => {},
        ProbeOutcome::Unavailable { program, reason } => {
            let mut message = "cannot execute ".to_owned();
            message.append(program.as_str());
            message.append(": ");
            message.append(reason.as_str());
            return Err(ApiError::dependency("harness_unavailable", message.as_str()));
        },
        ProbeOutcome::Ended { success, stdout, stderr } => {
            if harness_authenticated(success, stdout.as_str(), stderr.as_str()) {
                return Ok(());
            }
        },
    }
    let message = harness.to_owned().concat(" is not authenticated as board");
    Err(ApiError::dependency("harness_login_required", message.as_str()))
}

// ---------------------------------------------------------------------------------------------
// Requests for jobs
// ---------------------------------------------------------------------------------------------

/// The first harness that is not allowed.
pub open spec fn first_forbidden(harnesses: Seq<Seq<char>>, allowed: Seq<Seq<char>>) -> Option<
    Seq<char>,
>
    decreases harnesses.len(),
{
    if harnesses.len() == 0 {
        None
    } else if !allowed.contains(harnesses[0]) {
        Some(harnesses[0])
    } else {
        first_forbidden(harnesses.skip(1), allowed)
    }
}

/// What is wrong with a request for a job.
pub open spec fn job_problem(allowed: Seq<Seq<char>>, request: CreateJobRequest) -> Option<
    ErrorView,
> {
    let harnesses = crew_sequence(request.harness@, texts(request.crew@));
    if !is_repo(request.repo@) {
        Some(bad_repo())
    } else if request.issue == 0 {
        Some(bad_issue())
    } else if request.prompt is Some && utf8_len(request.prompt->0@) > 32_768 {
        Some(error_of(413, "prompt_too_large"@, "prompt must not exceed 32768 bytes"@))
    } else if request.crew@.len() > 5 {
        Some(error_of(400, "crew_too_large"@, "crew must contain at most five harnesses"@))
    } else {
        match first_forbidden(harnesses, allowed) {
            Some(harness) => Some(
                error_of(
                    400,
                    "invalid_harness"@,
                    "harness "@ + harness + " is not allowed"@,
                ),
            ),
            None => None,
        }
    }
}

fn forbidden_of(harnesses: &Vec<String>, allowed: &Vec<String>) -> (found: Option<String>)
    ensures
        match found {
            Some(harness) => first_forbidden(texts(harnesses@), texts(allowed@)) == Some(harness@),
            None => first_forbidden(texts(harnesses@), texts(allowed@)) is None,
        },
{
    let ghost all = texts(harnesses@);
    let mut i: usize = 0;
    assert(all.skip(0) == all);
    while i < harnesses.len()
        invariant
            all == texts(harnesses@),
            i <= harnesses@.len(),
            first_forbidden(all, texts(allowed@)) == first_forbidden(
                all.skip(i as int),
                texts(allowed@),
            ),
        decreases harnesses@.len() - i,
    {
        assert(all.skip(i as int)[0] == harnesses@[i as int]@);
        assert(all.skip(i as int).skip(1) == all.skip(i + 1));
        if !list_contains(allowed, harnesses[i].as_str()) {
            return Some(harnesses[i].clone());
        }
        i += 1;
    }
    None
}

/// Checks a request for a job.
pub fn validate_job_request(config: &Config, request: &CreateJobRequest) -> (result: Result<
    (),
    ApiError,
>)
    ensures
        match result {
            Ok(()) => job_problem(texts(config.allowed_harnesses@), *request) is None,
            Err(error) => job_problem(texts(config.allowed_harnesses@), *request) == Some(error@),
        },
{
    if !validate_repo(request.repo.as_str()) {
        return Err(ApiError::bad_request("invalid_repo", "repo must be owner/name"));
    }
    if request.issue == 0 {
        return Err(
            ApiError::bad_request("invalid_issue", "issue number must be greater than zero"),
        );
    }
    if let Some(prompt) = &request.prompt {
        if byte_len(prompt.as_str()) > 32_768 {
            return Err(
                ApiError::new(
                    413,
                    "prompt_too_large",
                    "prompt must not exceed 32768 bytes".to_owned(),
                ),
            );
        }
    }
    if request.crew.len() > 5 {
        return Err(
            ApiError::bad_request("crew_too_large", "crew must contain at most five harnesses"),
        );
    }
    let harnesses = harness_sequence(request);
    if let Some(harness) = forbidden_of(&harnesses, &config.allowed_harnesses) {
        let mut message = "harness ".to_owned();
        message.append(harness.as_str());
        message.append(" is not allowed");
        return Err(ApiError::bad_request("invalid_harness", message.as_str()));
    }
    Ok(())
}

// ---------------------------------------------------------------------------------------------
// Laws
// ---------------------------------------------------------------------------------------------

/// The primary harness runs first, no harness runs twice, and those that run are the primary one
/// and the crew.
pub proof fn the_primary_leads_and_none_runs_twice(
    primary: Seq<char>,
    crew: Seq<Seq<char>>,
    harness: Seq<char>,
)
    ensures
        crew_sequence(primary, crew)[0] == primary,
        crew_sequence(primary, crew).no_duplicates(),
        crew_sequence(primary, crew).contains(harness) <==> harness == primary || crew.contains(
            harness,
        ),
        crew_sequence(primary, crew).len() <= crew.len() + 1,
        crew_sequence(primary, crew).len() >= 1,
    decreases crew.len(),
{
    let all = crew_sequence(primary, crew);
    if crew.len() == 0 {
        assert(all[0] == primary);
    } else {
        let earlier = crew_sequence(primary, crew.drop_last());
        let last = crew.last();
        the_primary_leads_and_none_runs_twice(primary, crew.drop_last(), harness);
        assert(crew[crew.len() - 1] == last);
        if crew.drop_last().contains(harness) {
            let i = choose|i: int|
                0 <= i < crew.drop_last().len() && crew.drop_last()[i] == harness;
            assert(crew[i] == harness);
        }
        if crew.contains(harness) && harness != last {
            let i = choose|i: int| 0 <= i < crew.len() && crew[i] == harness;
            assert(crew.drop_last()[i] == harness);
        }
        if !earlier.contains(last) {
            assert(all == earlier.push(last));
            assert(all[earlier.len() as int] == last);
            if earlier.contains(harness) {
                let i = choose|i: int| 0 <= i < earlier.len() && earlier[i] == harness;
                assert(all[i] == harness);
            }
            if all.contains(harness) && harness != last {
                let i = choose|i: int| 0 <= i < all.len() && all[i] == harness;
                assert(earlier[i] == harness);
            }
        }
    }
}

/// A request that is accepted runs only harnesses that are allowed.
pub proof fn accepted_requests_run_allowed_harnesses(
    allowed: Seq<Seq<char>>,
    request: CreateJobRequest,
    harness: Seq<char>,
)
    requires
        job_problem(allowed, request) is None,
        crew_sequence(request.harness@, texts(request.crew@)).contains(harness),
    ensures
        allowed.contains(harness),
{
    lemma_none_forbidden(crew_sequence(request.harness@, texts(request.crew@)), allowed, harness);
}

proof fn lemma_none_forbidden(harnesses: Seq<Seq<char>>, allowed: Seq<Seq<char>>, harness: Seq<char>)
    requires
        first_forbidden(harnesses, allowed) is None,
        harnesses.contains(harness),
    ensures
        allowed.contains(harness),
    decreases harnesses.len(),
{
    let i = choose|i: int| 0 <= i < harnesses.len() && harnesses[i] == harness;
    if i > 0 {
        assert(harnesses.skip(1)[i - 1] == harness);
        lemma_none_forbidden(harnesses.skip(1), allowed, harness);
    }
}

/// Grok never runs with its permissions bypassed: whatever the effort, no argument but the prompt
/// and the workspace can ask for it.
pub proof fn grok_is_never_told_to_bypass(
    workspace: Seq<char>,
    prompt: Seq<char>,
    effort: Option<ReasoningEffort>,
    argument: Seq<char>,
)
    requires
        argument == "--always-approve"@ || argument == "bypassPermissions"@,
        argument != workspace,
        argument != prompt,
    ensures
        !grok_arguments(workspace, prompt, effort).contains(argument),
{
    reveal_strlit("--always-approve");
    reveal_strlit("bypassPermissions");
    reveal_strlit("--single");
    reveal_strlit("--cwd");
    reveal_strlit("--permission-mode");
    reveal_strlit("auto");
    reveal_strlit("--output-format");
    reveal_strlit("streaming-json");
    reveal_strlit("--no-subagents");
    reveal_strlit("--reasoning-effort");
    reveal_strlit("low");
    reveal_strlit("medium");
    reveal_strlit("high");
    reveal_strlit("xhigh");
    let all = grok_arguments(workspace, prompt, effort);
    assert("--always-approve"@.len() == 16 && "--always-approve"@[2] == 'a');
    assert("bypassPermissions"@.len() == 17);
    assert forall|i: int| 0 <= i < all.len() implies all[i] != argument by {
        if all[i] == "--permission-mode"@ {
            assert(all[i][0] == '-');
            assert("bypassPermissions"@[0] == 'b');
        }
    }
}

/// A harness runs as the program that it is: `codex`, `grok`, or `cursor-agent` for `cursor`; no
/// other harness runs at all. It is told the whole prompt, and works in the workspace.
pub proof fn each_harness_is_its_own_program(
    harness: Seq<char>,
    workspace: Seq<char>,
    prompt: Seq<char>,
    effort: Option<ReasoningEffort>,
    models: CursorEffortModels,
)
    ensures
        match command_of(harness, workspace, prompt, effort, models) {
            Ok((program, arguments)) => {
                &&& harness == "codex"@ && program == "codex"@ || harness == "grok"@ && program
                    == "grok"@ || harness == "cursor"@ && program == "cursor-agent"@
                &&& program == program_of(harness)
                &&& probe_of(harness) matches Some((asked, _)) && asked == program
                &&& arguments.contains(prompt)
                &&& arguments.contains(workspace)
                &&& harness != "grok"@ ==> arguments.last() == prompt && arguments[arguments.len()
                    - 2] == workspace
            },
            Err(message) => {
                &&& harness != "codex"@ && harness != "grok"@ && harness != "cursor"@
                &&& message == "unsupported harness "@ + harness
                &&& probe_of(harness) is None
                &&& program_of(harness) == harness
            },
        },
{
    reveal_strlit("codex");
    reveal_strlit("grok");
    reveal_strlit("cursor");
    if let Ok((_, arguments)) = command_of(harness, workspace, prompt, effort, models) {
        let extra: int = if effort is None {
            0
        } else {
            2
        };
        if harness == "codex"@ {
            assert(arguments[extra + 5] == workspace);
            assert(arguments[extra + 6] == prompt);
        } else if harness == "grok"@ {
            assert(arguments[extra + 1] == prompt);
            assert(arguments[extra + 3] == workspace);
        } else {
            assert(arguments[extra + 5] == workspace);
            assert(arguments[extra + 6] == prompt);
        }
    }
}

/// Without an effort each harness runs with its own defaults; an effort adds the setting that
/// carries it, and changes nothing else.
pub proof fn an_effort_adds_one_setting(
    workspace: Seq<char>,
    prompt: Seq<char>,
    effort: ReasoningEffort,
    models: CursorEffortModels,
)
    ensures
        command_of("codex"@, workspace, prompt, None, models) == Ok::<
            (Seq<char>, Seq<Seq<char>>),
            Seq<char>,
        >(
            (
                "codex"@,
                seq!["exec"@, "--approve-for-me"@, "--color"@, "never"@, "--cd"@, workspace, prompt],
            ),
        ),
        command_of("grok"@, workspace, prompt, None, models) == Ok::<
            (Seq<char>, Seq<Seq<char>>),
            Seq<char>,
        >(
            (
                "grok"@,
                seq![
                    "--single"@,
                    prompt,
                    "--cwd"@,
                    workspace,
                    "--permission-mode"@,
                    "auto"@,
                    "--output-format"@,
                    "streaming-json"@,
                    "--no-subagents"@,
                ],
            ),
        ),
        command_of("cursor"@, workspace, prompt, None, models) == Ok::<
            (Seq<char>, Seq<Seq<char>>),
            Seq<char>,
        >(
            (
                "cursor-agent"@,
                seq![
                    "--print"@,
                    "--force"@,
                    "--output-format"@,
                    "stream-json"@,
                    "--workspace"@,
                    workspace,
                    prompt,
                ],
            ),
        ),
        ({
            let plain = command_of("codex"@, workspace, prompt, None, models)->Ok_0.1;
            let told = command_of("codex"@, workspace, prompt, Some(effort), models)->Ok_0.1;
            &&& told.take(3) == seq![
                "exec"@,
                "--config"@,
                "model_reasoning_effort=\""@ + effort_word(effort) + "\""@,
            ]
            &&& told.skip(3) == plain.skip(1)
        }),
        ({
            let plain = command_of("grok"@, workspace, prompt, None, models)->Ok_0.1;
            let told = command_of("grok"@, workspace, prompt, Some(effort), models)->Ok_0.1;
            &&& told.take(2) == seq!["--reasoning-effort"@, effort_word(effort)]
            &&& told.skip(2) == plain
        }),
        ({
            let plain = command_of("cursor"@, workspace, prompt, None, models)->Ok_0.1;
            let told = command_of("cursor"@, workspace, prompt, Some(effort), models)->Ok_0.1;
            &&& told.take(2) == seq![
                "--model"@,
                match effort {
                    ReasoningEffort::Low => models.low@,
                    ReasoningEffort::Medium => models.medium@,
                    ReasoningEffort::High => models.high@,
                    ReasoningEffort::Xhigh => models.xhigh@,
                },
            ]
            &&& told.skip(2) == plain
        }),
{
    reveal_strlit("codex");
    reveal_strlit("grok");
    reveal_strlit("cursor");
    assert(codex_arguments(workspace, prompt, None) == seq![
        "exec"@,
        "--approve-for-me"@,
        "--color"@,
        "never"@,
        "--cd"@,
        workspace,
        prompt,
    ]);
    assert("codex"@.len() == 5 && "grok"@.len() == 4 && "cursor"@.len() == 6);
}

/// The word for an effort.
pub open spec fn effort_word(effort: ReasoningEffort) -> Seq<char> {
    if effort == ReasoningEffort::Low {
        "low"@
    } else if effort == ReasoningEffort::Medium {
        "medium"@
    } else if effort == ReasoningEffort::High {
        "high"@
    } else {
        "xhigh"@
    }
}

/// Each harness that is known is asked in its own way whether it is logged in.
pub proof fn each_harness_is_asked_in_its_own_way()
    ensures
        probe_of("codex"@) == Some(("codex"@, seq!["login"@, "status"@])),
        probe_of("grok"@) == Some(("grok"@, seq!["models"@])),
        probe_of("cursor"@) == Some(("cursor-agent"@, seq!["status"@])),
{
    reveal_strlit("codex");
    reveal_strlit("grok");
    reveal_strlit("cursor");
    assert("codex"@.len() == 5 && "grok"@.len() == 4 && "cursor"@.len() == 6);
}

/// The harnesses that are installed of two lists, one behind the other, are those of the first and
/// then those of the second; of a single one it is there exactly where its program answered.
pub proof fn the_installed_are_those_that_answered(
    first: Seq<Seq<char>>,
    first_answers: Seq<bool>,
    second: Seq<Seq<char>>,
    second_answers: Seq<bool>,
    harness: Seq<char>,
)
    requires
        first.len() == first_answers.len(),
        second.len() == second_answers.len(),
    ensures
        installed_of(first + second, first_answers + second_answers) == installed_of(
            first,
            first_answers,
        ) + installed_of(second, second_answers),
        installed_of(seq![], seq![]) == Seq::<Seq<char>>::empty(),
        installed_of(seq![harness], seq![true]) == seq![harness],
        installed_of(seq![harness], seq![false]) == Seq::<Seq<char>>::empty(),
    decreases second.len(),
{
    assert(seq![harness].drop_last() == Seq::<Seq<char>>::empty());
    assert(seq![true].drop_last() == Seq::<bool>::empty());
    assert(seq![false].drop_last() == Seq::<bool>::empty());
    assert(installed_of(seq![], seq![]) == Seq::<Seq<char>>::empty());
    if second.len() == 0 {
        assert(first + second == first);
        assert(first_answers + second_answers == first_answers);
        assert(installed_of(second, second_answers) == Seq::<Seq<char>>::empty());
    } else {
        let all = first + second;
        let answers = first_answers + second_answers;
        assert(all.drop_last() == first + second.drop_last());
        assert(answers.drop_last() == first_answers + second_answers.drop_last());
        assert(all.last() == second.last() && answers.last() == second_answers.last());
        the_installed_are_those_that_answered(
            first,
            first_answers,
            second.drop_last(),
            second_answers.drop_last(),
            harness,
        );
    }
}

/// A text without a line feed stands in two texts with a line feed between them exactly where it
/// stands in one of them.
proof fn lemma_on_one_side(first: Seq<char>, second: Seq<char>, pattern: Seq<char>)
    requires
        !pattern.contains('\n'),
    ensures
        occurs(first + "\n"@ + second, pattern) <==> occurs(first, pattern) || occurs(
            second,
            pattern,
        ),
{
    reveal_strlit("\n");
    let whole = first + "\n"@ + second;
    let n = pattern.len() as int;
    let behind = first.len() + 1;
    if occurs(first, pattern) {
        let at = choose|at: int| crate::text::occurs_at(first, pattern, at);
        assert(whole.subrange(at, at + n) == first.subrange(at, at + n));
        assert(crate::text::occurs_at(whole, pattern, at));
    }
    if occurs(second, pattern) {
        let at = choose|at: int| crate::text::occurs_at(second, pattern, at);
        assert(whole.subrange(behind + at, behind + at + n) == second.subrange(at, at + n));
        assert(crate::text::occurs_at(whole, pattern, behind + at));
    }
    if occurs(whole, pattern) {
        let at = choose|at: int| crate::text::occurs_at(whole, pattern, at);
        let part = whole.subrange(at, at + n);
        if at + n <= first.len() {
            assert(first.subrange(at, at + n) == part);
            assert(crate::text::occurs_at(first, pattern, at));
        } else if at >= behind {
            assert(second.subrange(at - behind, at - behind + n) == part);
            assert(crate::text::occurs_at(second, pattern, at - behind));
        } else if n == 0 {
            assert(first.subrange(0, 0) == pattern);
            assert(crate::text::occurs_at(first, pattern, 0));
        } else {
            let k = first.len() - at;
            assert(part[k] == whole[first.len() as int]);
            assert(pattern[k] == '\n');
        }
    }
}

/// A harness is logged in exactly where its program ended well and said on neither of its outputs,
/// in any letter case, that it is not authenticated, that it is not logged in or that a login is
/// required.
pub proof fn a_harness_is_logged_in_unless_it_says_otherwise(
    success: bool,
    stdout: Seq<char>,
    stderr: Seq<char>,
)
    ensures
        logged_in(success, stdout, stderr) <==> {
            &&& success
            &&& !occurs(lower(stdout), "not authenticated"@)
            &&& !occurs(lower(stderr), "not authenticated"@)
            &&& !occurs(lower(stdout), "not logged in"@)
            &&& !occurs(lower(stderr), "not logged in"@)
            &&& !occurs(lower(stdout), "login required"@)
            &&& !occurs(lower(stderr), "login required"@)
        },
{
    reveal_strlit("\n");
    reveal_strlit("not authenticated");
    reveal_strlit("not logged in");
    reveal_strlit("login required");
    let said = lower(stdout + "\n"@ + stderr);
    assert(said == lower(stdout) + "\n"@ + lower(stderr));
    lemma_on_one_side(lower(stdout), lower(stderr), "not authenticated"@);
    lemma_on_one_side(lower(stdout), lower(stderr), "not logged in"@);
    lemma_on_one_side(lower(stdout), lower(stderr), "login required"@);
}

/// A harness can be used exactly where its program ran and is logged in; else the answer is 503,
/// and tells the program that could not be run or the harness that must log in.
pub proof fn only_a_program_that_is_logged_in_can_be_used(harness: Seq<char>, outcome: ProbeOutcome)
    ensures
        match outcome {
            ProbeOutcome::Unknown => harness_problem(harness, outcome) matches Some(error)
                && error.status == 503 && error.code == "harness_login_required"@ && error.message
                == harness + " is not authenticated as board"@,
            ProbeOutcome::Unavailable { program, reason } => harness_problem(
                harness,
                outcome,
            ) matches Some(error) && error.status == 503 && error.code == "harness_unavailable"@
                && error.message == "cannot execute "@ + program@ + ": "@ + reason@,
            ProbeOutcome::Ended { success, stdout, stderr } => {
                &&& harness_problem(harness, outcome) is None <==> logged_in(
                    success,
                    stdout@,
                    stderr@,
                )
                &&& harness_problem(harness, outcome) matches Some(error) ==> error.status == 503
                    && error.code == "harness_login_required"@ && error.message == harness
                    + " is not authenticated as board"@
            },
        },
{
}

proof fn lemma_forbidden(harnesses: Seq<Seq<char>>, allowed: Seq<Seq<char>>)
    ensures
        match first_forbidden(harnesses, allowed) {
            Some(harness) => exists|i: int|
                0 <= i < harnesses.len() && #[trigger] harnesses[i] == harness && !allowed.contains(
                    harness,
                ) && forall|k: int| 0 <= k < i ==> allowed.contains(#[trigger] harnesses[k]),
            None => forall|k: int|
                0 <= k < harnesses.len() ==> allowed.contains(#[trigger] harnesses[k]),
        },
    decreases harnesses.len(),
{
    if harnesses.len() > 0 && allowed.contains(harnesses[0]) {
        let rest = harnesses.skip(1);
        lemma_forbidden(rest, allowed);
        match first_forbidden(rest, allowed) {
            Some(harness) => {
                let i = choose|i: int|
                    0 <= i < rest.len() && #[trigger] rest[i] == harness && !allowed.contains(
                        harness,
                    ) && forall|k: int| 0 <= k < i ==> allowed.contains(#[trigger] rest[k]);
                assert(harnesses[i + 1] == harness);
                assert forall|k: int| 0 <= k < i + 1 implies allowed.contains(
                    #[trigger] harnesses[k],
                ) by {
                    if k > 0 {
                        assert(rest[k - 1] == harnesses[k]);
                    }
                }
            },
            None => {
                assert forall|k: int| 0 <= k < harnesses.len() implies allowed.contains(
                    #[trigger] harnesses[k],
                ) by {
                    if k > 0 {
                        assert(rest[k - 1] == harnesses[k]);
                    }
                }
            },
        }
    } else if harnesses.len() > 0 {
        assert(harnesses[0] == first_forbidden(harnesses, allowed)->0);
    }
}

/// A request for a job is accepted exactly where the repository's name is one, the issue has a
/// number, the prompt takes at most 32768 bytes, the crew has at most five members, and the primary
/// harness and every member of the crew are allowed.
pub proof fn requests_are_accepted_on_their_merits(
    allowed: Seq<Seq<char>>,
    request: CreateJobRequest,
)
    ensures
        job_problem(allowed, request) is None <==> {
            &&& is_repo(request.repo@)
            &&& request.issue > 0
            &&& request.prompt matches Some(prompt) ==> utf8_len(prompt@) <= 32_768
            &&& request.crew@.len() <= 5
            &&& allowed.contains(request.harness@)
            &&& forall|i: int|
                0 <= i < request.crew@.len() ==> allowed.contains(#[trigger] request.crew@[i]@)
        },
        job_problem(allowed, request) matches Some(error) ==> {
            let expected = if !is_repo(request.repo@) {
                (400int, "invalid_repo"@)
            } else if request.issue == 0 {
                (400, "invalid_issue"@)
            } else if request.prompt is Some && utf8_len(request.prompt->0@) > 32_768 {
                (413, "prompt_too_large"@)
            } else if request.crew@.len() > 5 {
                (400, "crew_too_large"@)
            } else {
                (400, "invalid_harness"@)
            };
            error.status == expected.0 && error.code == expected.1
        },
{
    let crew = texts(request.crew@);
    let harnesses = crew_sequence(request.harness@, crew);
    lemma_forbidden(harnesses, allowed);
    the_primary_leads_and_none_runs_twice(request.harness@, crew, request.harness@);
    if first_forbidden(harnesses, allowed) is None {
        assert(allowed.contains(harnesses[0]));
        assert forall|i: int| 0 <= i < request.crew@.len() implies allowed.contains(
            #[trigger] request.crew@[i]@,
        ) by {
            let member = request.crew@[i]@;
            assert(crew[i] == member);
            the_primary_leads_and_none_runs_twice(request.harness@, crew, member);
            let k = choose|k: int| 0 <= k < harnesses.len() && harnesses[k] == member;
            assert(allowed.contains(harnesses[k]));
        }
    } else {
        let bad = first_forbidden(harnesses, allowed)->0;
        let at = choose|i: int|
            0 <= i < harnesses.len() && #[trigger] harnesses[i] == bad && !allowed.contains(bad)
                && forall|k: int| 0 <= k < i ==> allowed.contains(#[trigger] harnesses[k]);
        the_primary_leads_and_none_runs_twice(request.harness@, crew, bad);
        assert(harnesses.contains(bad));
        if bad != request.harness@ {
            let i = choose|i: int| 0 <= i < crew.len() && crew[i] == bad;
            assert(request.crew@[i]@ == bad);
        }
    }
}

/// The crew runs in the order in which it is listed: one more member runs last, unless it runs
/// already.
pub proof fn the_crew_runs_in_its_order(
    primary: Seq<char>,
    crew: Seq<Seq<char>>,
    member: Seq<char>,
)
    ensures
        crew_sequence(primary, seq![]) == seq![primary],
        member == primary || crew.contains(member) ==> crew_sequence(primary, crew.push(member))
            == crew_sequence(primary, crew),
        member != primary && !crew.contains(member) ==> crew_sequence(primary, crew.push(member))
            == crew_sequence(primary, crew).push(member),
{
    assert(crew.push(member).drop_last() == crew);
    the_primary_leads_and_none_runs_twice(primary, crew, member);
}

} // verus!
