//! The configuration of the service, and what makes it valid.
use crate::model::ReasoningEffort;
use crate::path::{absolute, is_absolute};
use crate::text::{
    equal_ignoring_case, list_contains, same_ignoring_case, same_text, texts, trim, trimmed,
};
use vstd::prelude::*;

verus! {

pub const DEFAULT_CONFIG_PATH: &'static str = "/home/board/.config/board-api/config.json";

/// The configuration of the service.
#[derive(Clone, Debug)]
pub struct Config {
    pub listen: String,
    pub port: u16,
    pub state_dir: String,
    pub work_dir: String,
    pub max_concurrent_jobs: usize,
    pub allowed_harnesses: Vec<String>,
    pub allowed_issue_authors: Vec<String>,
    pub cursor_effort_models: CursorEffortModels,
    pub auto_run: AutoRunConfig,
    pub cleanup: CleanupConfig,
}

/// The model that Cursor runs for each reasoning effort.
#[derive(Clone, Debug)]
pub struct CursorEffortModels {
    pub low: String,
    pub medium: String,
    pub high: String,
    pub xhigh: String,
}

impl Default for CursorEffortModels {
    fn default() -> (models: CursorEffortModels)
        ensures
            models.low@ == "gpt-5.6-sol-low"@,
            models.medium@ == "gpt-5.6-sol-medium"@,
            models.high@ == "gpt-5.6-sol-high"@,
            models.xhigh@ == "gpt-5.6-sol-xhigh"@,
    {
        CursorEffortModels {
            low: "gpt-5.6-sol-low".to_owned(),
            medium: "gpt-5.6-sol-medium".to_owned(),
            high: "gpt-5.6-sol-high".to_owned(),
            xhigh: "gpt-5.6-sol-xhigh".to_owned(),
        }
    }
}

impl CursorEffortModels {
    /// The model for an effort.
    pub open spec fn model(self, effort: ReasoningEffort) -> Seq<char> {
        match effort {
            ReasoningEffort::Low => self.low@,
            ReasoningEffort::Medium => self.medium@,
            ReasoningEffort::High => self.high@,
            ReasoningEffort::Xhigh => self.xhigh@,
        }
    }

    /// The model for an effort.
    pub fn model_for(&self, effort: ReasoningEffort) -> (model: &str)
        ensures
            model@ == self.model(effort),
    {
        match effort {
            ReasoningEffort::Low => self.low.as_str(),
            ReasoningEffort::Medium => self.medium.as_str(),
            ReasoningEffort::High => self.high.as_str(),
            ReasoningEffort::Xhigh => self.xhigh.as_str(),
        }
    }
}

/// Whether and how ready cards are picked up without a request.
#[derive(Clone, Debug)]
pub struct AutoRunConfig {
    pub enabled: bool,
    pub poll_seconds: u64,
    pub default_harness: String,
}

impl Default for AutoRunConfig {
    fn default() -> (config: AutoRunConfig)
        ensures
            !config.enabled,
            config.poll_seconds == 60,
            config.default_harness@ == "codex"@,
    {
        AutoRunConfig {
            enabled: false,
            poll_seconds: default_poll_seconds(),
            default_harness: default_harness(),
        }
    }
}

/// Whether and when the worktrees of old jobs are removed.
#[derive(Clone, Debug)]
pub struct CleanupConfig {
    pub enabled: bool,
    pub retention_days: u16,
    pub run_hour_utc: u8,
}

impl Default for CleanupConfig {
    fn default() -> (config: CleanupConfig)
        ensures
            !config.enabled,
            config.retention_days == 7,
            config.run_hour_utc == 3,
    {
        CleanupConfig {
            enabled: false,
            retention_days: default_cleanup_retention_days(),
            run_hour_utc: default_cleanup_hour_utc(),
        }
    }
}

pub fn default_poll_seconds() -> (seconds: u64)
    ensures
        seconds == 60,
{
    60
}

pub fn default_max_concurrent_jobs() -> (jobs: usize)
    ensures
        jobs == 3,
{
    3
}

pub fn default_cleanup_retention_days() -> (days: u16)
    ensures
        days == 7,
{
    7
}

pub fn default_cleanup_hour_utc() -> (hour: u8)
    ensures
        hour == 3,
{
    3
}

pub fn default_harness() -> (harness: String)
    ensures
        harness@ == "codex"@,
{
    "codex".to_owned()
}

// ---------------------------------------------------------------------------------------------
// Validity
// ---------------------------------------------------------------------------------------------

/// A harness that the service knows how to run.
pub open spec fn supported_harness(harness: Seq<char>) -> bool {
    harness == "grok"@ || harness == "codex"@ || harness == "cursor"@
}

/// The first harness of a list that the service does not know.
pub open spec fn first_unsupported(harnesses: Seq<Seq<char>>) -> Option<Seq<char>>
    decreases harnesses.len(),
{
    if harnesses.len() == 0 {
        None
    } else if !supported_harness(harnesses[0]) {
        Some(harnesses[0])
    } else {
        first_unsupported(harnesses.skip(1))
    }
}

/// Not empty, and without white space around it.
pub open spec fn is_tidy(text: Seq<char>) -> bool {
    text.len() > 0 && trim(text) == text
}

impl Config {
    /// The first thing that is wrong with a configuration.
    pub open spec fn problem(self) -> Option<Seq<char>> {
        let harnesses = texts(self.allowed_harnesses@);
        let authors = texts(self.allowed_issue_authors@);
        let models = self.cursor_effort_models;
        let fallback = self.auto_run.default_harness@;
        if self.port == 0 {
            Some("port must be greater than zero"@)
        } else if !absolute(self.state_dir@) || !absolute(self.work_dir@) {
            Some("stateDir and workDir must be absolute paths"@)
        } else if !(1 <= self.max_concurrent_jobs <= 16) {
            Some("maxConcurrentJobs must be between 1 and 16"@)
        } else if harnesses.len() == 0 {
            Some("allowedHarnesses must not be empty"@)
        } else if first_unsupported(harnesses) is Some {
            Some("unsupported allowed harness: "@ + first_unsupported(harnesses)->0)
        } else if authors.len() == 0 {
            Some("allowedIssueAuthors must not be empty"@)
        } else if exists|i: int| 0 <= i < authors.len() && !is_tidy(#[trigger] authors[i]) {
            Some("allowedIssueAuthors entries must be non-empty GitHub logins"@)
        } else if !is_tidy(models.low@) || !is_tidy(models.medium@) || !is_tidy(models.high@)
            || !is_tidy(models.xhigh@) {
            Some("cursorEffortModels entries must be non-empty model names"@)
        } else if !(30 <= self.auto_run.poll_seconds <= 3_600) {
            Some("autoRun.pollSeconds must be between 30 and 3600"@)
        } else if !supported_harness(fallback) {
            Some("unsupported autoRun.defaultHarness: "@ + fallback)
        } else if self.auto_run.enabled && !harnesses.contains(fallback) {
            Some("autoRun.defaultHarness must be in allowedHarnesses"@)
        } else if !(1 <= self.cleanup.retention_days <= 365) {
            Some("cleanup.retentionDays must be between 1 and 365"@)
        } else if self.cleanup.run_hour_utc > 23 {
            Some("cleanup.runHourUtc must be between 0 and 23"@)
        } else {
            None
        }
    }

    /// Checks a configuration; the error is the first thing that is wrong with it.
    pub fn validate(&self) -> (result: Result<(), String>)
        ensures
            match result {
                Ok(()) => self.problem() is None,
                Err(message) => self.problem() == Some(message@),
            },
    {
        if self.port == 0 {
            return Err("port must be greater than zero".to_owned());
        }
        if !is_absolute(self.state_dir.as_str()) || !is_absolute(self.work_dir.as_str()) {
            return Err("stateDir and workDir must be absolute paths".to_owned());
        }
        if self.max_concurrent_jobs < 1 || self.max_concurrent_jobs > 16 {
            return Err("maxConcurrentJobs must be between 1 and 16".to_owned());
        }
        if self.allowed_harnesses.len() == 0 {
            return Err("allowedHarnesses must not be empty".to_owned());
        }
        if let Some(harness) = unsupported_of(&self.allowed_harnesses) {
            return Err("unsupported allowed harness: ".to_owned().concat(harness.as_str()));
        }
        if self.allowed_issue_authors.len() == 0 {
            return Err("allowedIssueAuthors must not be empty".to_owned());
        }
        if !all_tidy(&self.allowed_issue_authors) {
            return Err("allowedIssueAuthors entries must be non-empty GitHub logins".to_owned());
        }
        let models = &self.cursor_effort_models;
        if !tidy(models.low.as_str()) || !tidy(models.medium.as_str()) || !tidy(
            models.high.as_str(),
        ) || !tidy(models.xhigh.as_str()) {
            return Err("cursorEffortModels entries must be non-empty model names".to_owned());
        }
        if self.auto_run.poll_seconds < 30 || self.auto_run.poll_seconds > 3_600 {
            return Err("autoRun.pollSeconds must be between 30 and 3600".to_owned());
        }
        let fallback = self.auto_run.default_harness.as_str();
        if !is_supported(fallback) {
            return Err("unsupported autoRun.defaultHarness: ".to_owned().concat(fallback));
        }
        if self.auto_run.enabled && !list_contains(&self.allowed_harnesses, fallback) {
            return Err("autoRun.defaultHarness must be in allowedHarnesses".to_owned());
        }
        if self.cleanup.retention_days < 1 || self.cleanup.retention_days > 365 {
            return Err("cleanup.retentionDays must be between 1 and 365".to_owned());
        }
        if self.cleanup.run_hour_utc > 23 {
            return Err("cleanup.runHourUtc must be between 0 and 23".to_owned());
        }
        Ok(())
    }

    /// An author whose issues and comments the service trusts.
    pub open spec fn trusts(self, author: Option<Seq<char>>) -> bool {
        trusted(texts(self.allowed_issue_authors@), author)
    }

    /// Whether the service trusts the issues and comments of an author; a missing author is not
    /// trusted.
    pub fn allows_issue_author(&self, author: Option<&str>) -> (yes: bool)
        ensures
            yes == self.trusts(crate::model::maybe_str(author)),
    {
        is_trusted(&self.allowed_issue_authors, author)
    }
}

/// A login that is in a list, in any letter case.
pub open spec fn trusted(allowed: Seq<Seq<char>>, author: Option<Seq<char>>) -> bool {
    match author {
        Some(author) => exists|i: int|
            0 <= i < allowed.len() && same_ignoring_case(#[trigger] allowed[i], author),
        None => false,
    }
}

/// Whether a login is in a list, in any letter case.
pub fn is_trusted(allowed: &Vec<String>, author: Option<&str>) -> (yes: bool)
    ensures
        yes == trusted(texts(allowed@), crate::model::maybe_str(author)),
{
    match author {
        Some(login) => {
            let mut i: usize = 0;
            while i < allowed.len()
                invariant
                    author == Some(login),
                    i <= allowed@.len(),
                    forall|k: int|
                        0 <= k < i ==> !same_ignoring_case(#[trigger] texts(allowed@)[k], login@),
                decreases allowed@.len() - i,
            {
                if equal_ignoring_case(allowed[i].as_str(), login) {
                    assert(same_ignoring_case(texts(allowed@)[i as int], login@));
                    return true;
                }
                i += 1;
            }
            false
        },
        None => false,
    }
}

fn is_supported(harness: &str) -> (yes: bool)
    ensures
        yes == supported_harness(harness@),
{
    same_text(harness, "grok") || same_text(harness, "codex") || same_text(harness, "cursor")
}

fn unsupported_of(harnesses: &Vec<String>) -> (found: Option<String>)
    ensures
        match found {
            Some(harness) => first_unsupported(texts(harnesses@)) == Some(harness@),
            None => first_unsupported(texts(harnesses@)) is None,
        },
{
    let mut i: usize = 0;
    let ghost all = texts(harnesses@);
    assert(all.skip(0) == all);
    while i < harnesses.len()
        invariant
            all == texts(harnesses@),
            i <= harnesses@.len(),
            first_unsupported(all) == first_unsupported(all.skip(i as int)),
        decreases harnesses@.len() - i,
    {
        assert(all.skip(i as int)[0] == harnesses@[i as int]@);
        assert(all.skip(i as int).skip(1) == all.skip(i + 1));
        if !is_supported(harnesses[i].as_str()) {
            return Some(harnesses[i].clone());
        }
        i += 1;
    }
    None
}

fn tidy(text: &str) -> (yes: bool)
    ensures
        yes == is_tidy(text@),
{
    !text.is_empty() && same_text(trimmed(text).as_str(), text)
}

fn all_tidy(list: &Vec<String>) -> (yes: bool)
    ensures
        yes == !(exists|i: int|
            0 <= i < texts(list@).len() && !is_tidy(#[trigger] texts(list@)[i])),
{
    let mut i: usize = 0;
    while i < list.len()
        invariant
            i <= list@.len(),
            forall|k: int| 0 <= k < i ==> is_tidy(#[trigger] texts(list@)[k]),
        decreases list@.len() - i,
    {
        if !tidy(list[i].as_str()) {
            assert(!is_tidy(texts(list@)[i as int]));
            return false;
        }
        i += 1;
    }
    true
}

// ---------------------------------------------------------------------------------------------
// The file's permissions
// ---------------------------------------------------------------------------------------------

/// A number below 512 in octal notation, without leading zeros.
pub open spec fn octal(value: int) -> Seq<char> {
    let digit = |place: int| (('0' as u32) + place) as char;
    if value < 8 {
        seq![digit(value)]
    } else if value < 64 {
        seq![digit(value / 8), digit(value % 8)]
    } else {
        seq![digit(value / 64), digit(value / 8 % 8), digit(value % 8)]
    }
}

fn octal_of(value: u32) -> (text: String)
    requires
        value < 512,
    ensures
        text@ == octal(value as int),
{
    let mut text = String::new();
    if value >= 64 {
        text.push((48u8 + (value / 64) as u8) as char);
    }
    if value >= 8 {
        text.push((48u8 + (value / 8 % 8) as u8) as char);
    }
    text.push((48u8 + (value % 8) as u8) as char);
    assert(text@ == octal(value as int));
    text
}

/// Checks that a configuration file is open to its owner alone; `mode` is the file's mode.
pub fn check_file_mode(path: &str, mode: u32) -> (result: Result<(), String>)
    ensures
        match result {
            Ok(()) => mode & 0o077 == 0,
            Err(message) => mode & 0o077 != 0 && message@ == "config "@ + path@
                + " must not be accessible by group or others (mode "@ + octal(
                (mode & 0o777) as int,
            ) + ")"@,
        },
{
    let mode_bits: u32 = mode & 0o777;
    assert(mode & 0o777 < 512) by (bit_vector);
    assert((mode & 0o777) & 0o077 == mode & 0o077) by (bit_vector);
    if mode_bits & 0o077 != 0 {
        let mut message = "config ".to_owned();
        message.append(path);
        message.append(" must not be accessible by group or others (mode ");
        message.append(octal_of(mode_bits).as_str());
        message.append(")");
        return Err(message);
    }
    Ok(())
}

// ---------------------------------------------------------------------------------------------
// Laws
// ---------------------------------------------------------------------------------------------

/// A valid configuration that runs ready cards has a default harness that it allows and that the
/// service knows.
pub proof fn the_default_harness_is_allowed(config: Config)
    requires
        config.problem() is None,
        config.auto_run.enabled,
    ensures
        texts(config.allowed_harnesses@).contains(config.auto_run.default_harness@),
        supported_harness(config.auto_run.default_harness@),
{
}

/// A configuration without trusted authors is never valid, and nobody is trusted without one.
pub proof fn trust_fails_closed(config: Config, author: Option<Seq<char>>)
    ensures
        config.allowed_issue_authors@.len() == 0 ==> config.problem() is Some && !config.trusts(
            author,
        ),
        !config.trusts(None),
{
}

/// Whether an author is trusted does not depend on letter case: exactly the logins on the list are,
/// in any.
pub proof fn trust_ignores_letter_case(
    allowed: Seq<Seq<char>>,
    author: Seq<char>,
    other_spelling: Seq<char>,
)
    ensures
        trusted(allowed, Some(author)) <==> exists|i: int|
            0 <= i < allowed.len() && crate::text::lower(#[trigger] allowed[i])
                == crate::text::lower(author),
        allowed.contains(author) ==> trusted(allowed, Some(author)),
        crate::text::lower(author) == crate::text::lower(other_spelling) ==> trusted(
            allowed,
            Some(author),
        ) == trusted(allowed, Some(other_spelling)),
        !trusted(allowed, None),
        !trusted(seq![], Some(author)),
{
    if trusted(allowed, Some(author)) {
        let i = choose|i: int|
            0 <= i < allowed.len() && same_ignoring_case(#[trigger] allowed[i], author);
        assert(crate::text::lower(allowed[i]) == crate::text::lower(author));
        if crate::text::lower(author) == crate::text::lower(other_spelling) {
            assert(same_ignoring_case(allowed[i], other_spelling));
        }
    }
    if trusted(allowed, Some(other_spelling)) {
        let i = choose|i: int|
            0 <= i < allowed.len() && same_ignoring_case(#[trigger] allowed[i], other_spelling);
        if crate::text::lower(author) == crate::text::lower(other_spelling) {
            assert(same_ignoring_case(allowed[i], author));
        }
    }
    if exists|i: int|
        0 <= i < allowed.len() && crate::text::lower(#[trigger] allowed[i]) == crate::text::lower(
            author,
        ) {
        let i = choose|i: int|
            0 <= i < allowed.len() && crate::text::lower(#[trigger] allowed[i])
                == crate::text::lower(author);
        assert(same_ignoring_case(allowed[i], author));
    }
    if allowed.contains(author) {
        let i = choose|i: int| 0 <= i < allowed.len() && allowed[i] == author;
        assert(same_ignoring_case(allowed[i], author));
    }
}

proof fn lemma_unsupported(harnesses: Seq<Seq<char>>)
    ensures
        match first_unsupported(harnesses) {
            Some(harness) => harnesses.contains(harness) && harness != "grok"@ && harness
                != "codex"@ && harness != "cursor"@,
            None => forall|k: int|
                0 <= k < harnesses.len() ==> #[trigger] harnesses[k] == "grok"@ || harnesses[k]
                    == "codex"@ || harnesses[k] == "cursor"@,
        },
    decreases harnesses.len(),
{
    if harnesses.len() > 0 {
        assert(harnesses.contains(harnesses[0]));
        if supported_harness(harnesses[0]) {
            let rest = harnesses.skip(1);
            lemma_unsupported(rest);
            if let Some(harness) = first_unsupported(rest) {
                let i = choose|i: int| 0 <= i < rest.len() && rest[i] == harness;
                assert(harnesses[i + 1] == harness);
            } else {
                assert forall|k: int| 0 <= k < harnesses.len() implies #[trigger] harnesses[k]
                    == "grok"@ || harnesses[k] == "codex"@ || harnesses[k] == "cursor"@ by {
                    if k > 0 {
                        assert(rest[k - 1] == harnesses[k]);
                    }
                }
            }
        }
    }
}

/// A text is tidy exactly where it holds something, and neither begins nor ends with white space.
pub proof fn tidy_texts_have_no_white_space_around(text: Seq<char>)
    ensures
        is_tidy(text) <==> text.len() > 0 && !crate::text::is_space(text[0])
            && !crate::text::is_space(text.last()),
{
    if is_tidy(text) {
        crate::text::trimming_takes_white_space_alone(text);
    }
    if text.len() > 0 && !crate::text::is_space(text[0]) && !crate::text::is_space(text.last()) {
        crate::text::lemma_run(text, crate::text::not_space());
        assert(crate::text::is_run(text, crate::text::not_space(), 0));
        assert(text.skip(0) == text);
    }
}

/// A configuration is valid exactly where every part of it is: the port, both directories, the
/// number of jobs, the harnesses, the trusted authors, the models, how often cards are looked for
/// and with which harness, and how long worktrees stay and when they go.
pub proof fn a_configuration_is_valid_in_every_part(config: Config)
    ensures
        config.problem() is None <==> {
            &&& config.port > 0
            &&& config.state_dir@.len() > 0 && config.state_dir@[0] == '/'
            &&& config.work_dir@.len() > 0 && config.work_dir@[0] == '/'
            &&& 1 <= config.max_concurrent_jobs <= 16
            &&& config.allowed_harnesses@.len() > 0
            &&& forall|i: int|
                0 <= i < config.allowed_harnesses@.len() ==> (
                #[trigger] config.allowed_harnesses@[i])@ == "grok"@ || config.allowed_harnesses@[i]@
                    == "codex"@ || config.allowed_harnesses@[i]@ == "cursor"@
            &&& config.allowed_issue_authors@.len() > 0
            &&& forall|i: int|
                0 <= i < config.allowed_issue_authors@.len() ==> is_tidy(
                    (#[trigger] config.allowed_issue_authors@[i])@,
                )
            &&& is_tidy(config.cursor_effort_models.low@)
            &&& is_tidy(config.cursor_effort_models.medium@)
            &&& is_tidy(config.cursor_effort_models.high@)
            &&& is_tidy(config.cursor_effort_models.xhigh@)
            &&& 30 <= config.auto_run.poll_seconds <= 3_600
            &&& config.auto_run.default_harness@ == "grok"@ || config.auto_run.default_harness@
                == "codex"@ || config.auto_run.default_harness@ == "cursor"@
            &&& config.auto_run.enabled ==> exists|i: int|
                0 <= i < config.allowed_harnesses@.len() && (
                #[trigger] config.allowed_harnesses@[i])@ == config.auto_run.default_harness@
            &&& 1 <= config.cleanup.retention_days <= 365
            &&& config.cleanup.run_hour_utc <= 23
        },
{
    let harnesses = texts(config.allowed_harnesses@);
    let authors = texts(config.allowed_issue_authors@);
    let fallback = config.auto_run.default_harness@;
    lemma_unsupported(harnesses);
    assert forall|i: int| 0 <= i < harnesses.len() implies #[trigger] config.allowed_harnesses@[i]@
        == harnesses[i] by {}
    assert forall|i: int| 0 <= i < authors.len() implies #[trigger] config.allowed_issue_authors@[i]@
        == authors[i] by {}
    if first_unsupported(harnesses) is Some {
        let bad = first_unsupported(harnesses)->0;
        let i = choose|i: int| 0 <= i < harnesses.len() && harnesses[i] == bad;
        assert(config.allowed_harnesses@[i]@ == bad);
    } else {
        assert forall|i: int| 0 <= i < config.allowed_harnesses@.len() implies (
        #[trigger] config.allowed_harnesses@[i])@ == "grok"@ || config.allowed_harnesses@[i]@
            == "codex"@ || config.allowed_harnesses@[i]@ == "cursor"@ by {
            assert(harnesses[i] == config.allowed_harnesses@[i]@);
        }
    }
    if exists|i: int| 0 <= i < authors.len() && !is_tidy(#[trigger] authors[i]) {
        let i = choose|i: int| 0 <= i < authors.len() && !is_tidy(#[trigger] authors[i]);
        assert(!is_tidy(config.allowed_issue_authors@[i]@));
    } else {
        assert forall|i: int| 0 <= i < config.allowed_issue_authors@.len() implies is_tidy(
            (#[trigger] config.allowed_issue_authors@[i])@,
        ) by {
            assert(is_tidy(authors[i]));
        }
    }
    if harnesses.contains(fallback) {
        let i = choose|i: int| 0 <= i < harnesses.len() && harnesses[i] == fallback;
        assert(config.allowed_harnesses@[i]@ == fallback);
    }
    if exists|i: int|
        0 <= i < config.allowed_harnesses@.len() && (#[trigger] config.allowed_harnesses@[i])@
            == fallback {
        let i = choose|i: int|
            0 <= i < config.allowed_harnesses@.len() && (#[trigger] config.allowed_harnesses@[i])@
                == fallback;
        assert(harnesses[i] == fallback);
    }
}

/// The digits of a number below 512 in octal notation make up the number, and the first is no zero
/// unless it is the only one.
pub proof fn octal_digits_make_up_the_number(value: int)
    requires
        0 <= value < 512,
    ensures
        1 <= octal(value).len() <= 3,
        forall|k: int| 0 <= k < octal(value).len() ==> '0' <= #[trigger] octal(value)[k] <= '7',
        octal(value).len() > 1 ==> octal(value)[0] != '0',
        octal(value).len() == 1 ==> octal(value)[0] as int - '0' as int == value,
        octal(value).len() == 2 ==> (octal(value)[0] as int - '0' as int) * 8 + (octal(
            value,
        )[1] as int - '0' as int) == value,
        octal(value).len() == 3 ==> (octal(value)[0] as int - '0' as int) * 64 + (octal(
            value,
        )[1] as int - '0' as int) * 8 + (octal(value)[2] as int - '0' as int) == value,
{
}

/// A file is accepted exactly where its mode gives nothing to its group or to others.
pub proof fn only_private_files_are_accepted(path: &str, mode: u32, result: Result<(), String>)
    requires
        call_ensures(check_file_mode, (path, mode), result),
    ensures
        result is Ok <==> mode % 64 == 0,
        result matches Err(message) ==> message@ == "config "@ + path@
            + " must not be accessible by group or others (mode "@ + octal((mode % 512) as int)
            + ")"@,
{
    assert(mode & 0o077 == mode % 64) by (bit_vector);
    assert(mode & 0o777 == mode % 512) by (bit_vector);
}

/// An author is trusted exactly where one of the trusted logins is theirs, in any letter case.
pub proof fn authors_are_trusted_by_name(config: &Config, author: Option<&str>, yes: bool)
    requires
        call_ensures(Config::allows_issue_author, (config, author), yes),
    ensures
        author is None ==> !yes,
        author matches Some(login) ==> (yes <==> exists|k: int|
            0 <= k < config.allowed_issue_authors@.len() && crate::text::lower(
                (#[trigger] config.allowed_issue_authors@[k])@,
            ) == crate::text::lower(login@)),
{
    let allowed = config.allowed_issue_authors@;
    if let Some(login) = author {
        if exists|k: int|
            0 <= k < allowed.len() && crate::text::lower((#[trigger] allowed[k])@)
                == crate::text::lower(login@) {
            let k = choose|k: int|
                0 <= k < allowed.len() && crate::text::lower((#[trigger] allowed[k])@)
                    == crate::text::lower(login@);
            assert(same_ignoring_case(texts(allowed)[k], login@));
        }
        if yes {
            let k = choose|k: int|
                0 <= k < texts(allowed).len() && same_ignoring_case(
                    #[trigger] texts(allowed)[k],
                    login@,
                );
            assert(crate::text::lower(allowed[k]@) == crate::text::lower(login@));
        }
    }
}

/// Each effort has its own model.
pub proof fn each_effort_has_its_model(models: &CursorEffortModels, effort: ReasoningEffort, model: &str)
    requires
        call_ensures(CursorEffortModels::model_for, (models, effort), model),
    ensures
        effort == ReasoningEffort::Low ==> model@ == models.low@,
        effort == ReasoningEffort::Medium ==> model@ == models.medium@,
        effort == ReasoningEffort::High ==> model@ == models.high@,
        effort == ReasoningEffort::Xhigh ==> model@ == models.xhigh@,
{
}

/// What is not configured has its default: three jobs at a time, a scan each minute, worktrees that
/// are kept for a week and removed in the third hour, and work done by `codex`. A configuration is
/// valid with these.
pub proof fn defaults_make_a_valid_configuration(
    poll_seconds: u64,
    jobs: usize,
    retention_days: u16,
    hour: u8,
    harness: String,
)
    requires
        call_ensures(default_poll_seconds, (), poll_seconds),
        call_ensures(default_max_concurrent_jobs, (), jobs),
        call_ensures(default_cleanup_retention_days, (), retention_days),
        call_ensures(default_cleanup_hour_utc, (), hour),
        call_ensures(default_harness, (), harness),
    ensures
        poll_seconds == 60,
        jobs == 3,
        retention_days == 7,
        hour == 3,
        harness@ == "codex"@,
        1 <= jobs <= 16,
        30 <= poll_seconds <= 3_600,
        1 <= retention_days <= 365,
        hour <= 23,
        supported_harness(harness@),
{
}

} // verus!
